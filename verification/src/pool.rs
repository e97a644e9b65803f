//! The pool as its owner holds it: how many workers it is for, the workers
//! started so far, and how far its teardown has come.

use vstd::prelude::*;
use crate::error::PoolCreationError;
use crate::message::JobMessage;
use crate::worker::Worker;

verus! {

/// What the owner of a pool that is being torn down must do next.
#[derive(Debug, PartialEq, Eq)]
pub enum PoolAction<J, H> {
    /// Send this message on the work channel. It is always `Terminate`.
    Signal(JobMessage<J>),
    /// Join the thread of worker `id` through `handle`, and come back when
    /// that thread has returned.
    Join { id: usize, handle: H },
    /// Nothing is left to do: every worker was signalled and joined.
    Done,
}

/// The pool as its contracts see it.
pub struct PoolView<H> {
    /// The number of workers the pool was created for.
    pub size: nat,
    /// One slot per started worker, at the index that is the worker's
    /// identifier: its handle, or `None` once the handle was given out.
    pub slots: Seq<Option<H>>,
    /// How many `Terminate` messages the pool has handed out.
    pub signalled: nat,
    /// How many handles the pool has given out for joining.
    pub joined: nat,
    /// Whether the teardown has begun.
    pub closing: bool,
}

impl<H> PoolView<H> {
    /// What holds of every pool: it was made for at least one worker, and for
    /// no more than a machine can count, and has started no more than that;
    /// before the teardown nothing was signalled; no handle is given out
    /// before every worker was signalled; and the handles given out are
    /// those of the workers `0 .. joined`.
    pub open spec fn valid(self) -> bool {
        &&& 1 <= self.size <= usize::MAX
        &&& self.slots.len() <= self.size
        &&& self.signalled <= self.slots.len()
        &&& self.joined <= self.slots.len()
        &&& forall|i: int|
            0 <= i < self.slots.len() ==> (#[trigger] self.slots[i] is None <==> i < self.joined)
        &&& self.joined > 0 ==> self.signalled == self.slots.len()
        &&& !self.closing ==> self.signalled == 0
    }

    /// The pool right after its creation for `size` workers: none started.
    pub open spec fn fresh(size: nat) -> Self {
        PoolView { size, slots: Seq::empty(), signalled: 0, joined: 0, closing: false }
    }

    /// A pool whose workers are all started, with these handles, and which is
    /// in use.
    pub open spec fn started(handles: Seq<H>) -> Self {
        PoolView {
            size: handles.len(),
            slots: Seq::new(handles.len(), |i: int| Some(handles[i])),
            signalled: 0,
            joined: 0,
            closing: false,
        }
    }

    /// The number of workers started so far.
    pub open spec fn workers(self) -> nat {
        self.slots.len()
    }

    /// The identifier of the worker to start next, if one is still missing.
    pub open spec fn next_worker(self) -> Option<nat> {
        if !self.closing && self.slots.len() < self.size {
            Some(self.slots.len())
        } else {
            None
        }
    }

    /// The pool after the worker `next_worker()` was started with `handle`.
    pub open spec fn register(self, handle: H) -> Self {
        PoolView { slots: self.slots.push(Some(handle)), ..self }
    }

    /// The pool after these workers were started one after the other.
    pub open spec fn register_all(self, handles: Seq<H>) -> Self
        decreases handles.len(),
    {
        if handles.len() == 0 {
            self
        } else {
            self.register_all(handles.drop_last()).register(handles.last())
        }
    }

    /// Whether the pool takes jobs: it does until its teardown begins.
    pub open spec fn accepting(self) -> bool {
        !self.closing
    }

    /// What the owner of the pool must do at the next step of the teardown.
    ///
    /// While a worker is unsignalled it is a `Terminate` to send; after that,
    /// while a worker is unjoined, it is the handle of the first such worker
    /// to join; after that nothing.
    pub open spec fn shutdown_action<J>(self) -> PoolAction<J, H> {
        if self.signalled < self.slots.len() {
            PoolAction::Signal(JobMessage::Terminate)
        } else if self.joined < self.slots.len() {
            PoolAction::Join {
                id: self.joined as usize,
                handle: self.slots[self.joined as int]->0,
            }
        } else {
            PoolAction::Done
        }
    }

    /// The pool after the next step of the teardown: the teardown has begun,
    /// and the signal or the handle that the step hands out is counted.
    pub open spec fn after_shutdown_step(self) -> Self {
        if self.signalled < self.slots.len() {
            PoolView { signalled: self.signalled + 1, closing: true, ..self }
        } else if self.joined < self.slots.len() {
            PoolView {
                slots: self.slots.update(self.joined as int, None),
                joined: self.joined + 1,
                closing: true,
                ..self
            }
        } else {
            PoolView { closing: true, ..self }
        }
    }

    /// The pool after so many steps of the teardown.
    pub open spec fn after_shutdown_steps(self, steps: nat) -> Self
        decreases steps,
    {
        if steps == 0 {
            self
        } else {
            self.after_shutdown_steps((steps - 1) as nat).after_shutdown_step()
        }
    }

    /// Whether the teardown is over: it has begun, and every started worker
    /// was signalled and joined.
    pub open spec fn shut_down(self) -> bool {
        &&& self.closing
        &&& self.signalled == self.slots.len()
        &&& self.joined == self.slots.len()
    }
}

/// A fixed-size pool of workers, seen from the thread that owns it.
///
/// The pool decides; its owner acts. After `new`, the owner starts the worker
/// `next_worker()` names and hands the thread's handle to `register`, until
/// no worker is missing. `execute` turns a job into the message to send.
/// To tear the pool down the owner calls `shutdown_step` until it says
/// `Done`, and does what each step says before it asks for the next.
pub struct ThreadPool<H> {
    size: usize,
    workers: Vec<Worker<H>>,
    signalled: usize,
    joined: usize,
    closing: bool,
}

impl<H> View for ThreadPool<H> {
    type V = PoolView<H>;

    closed spec fn view(&self) -> PoolView<H> {
        PoolView {
            size: self.size as nat,
            slots: Seq::new(self.workers.len() as nat, |i: int| self.workers[i].handle()),
            signalled: self.signalled as nat,
            joined: self.joined as nat,
            closing: self.closing,
        }
    }
}

impl<H> ThreadPool<H> {
    /// Whether the worker at each index carries that index as its identifier.
    pub closed spec fn numbered(&self) -> bool {
        forall|i: int| 0 <= i < self.workers.len() ==> (#[trigger] self.workers[i]).id() == i
    }

    /// The pool's invariant. `new` establishes it and every method keeps it.
    pub open spec fn wf(&self) -> bool {
        &&& self@.valid()
        &&& self.numbered()
    }

    /// A pool for `size` workers, none of them started yet.
    ///
    /// A pool for no workers is refused, before anything was started.
    pub fn new(size: usize) -> (pool: Result<Self, PoolCreationError>)
        ensures
            size == 0 <==> pool is Err,
            pool matches Ok(p) ==> p.wf() && p@ == PoolView::<H>::fresh(size as nat),
    {
        if size == 0 {
            return Err(PoolCreationError {});
        }
        let pool = ThreadPool { size, workers: Vec::new(), signalled: 0, joined: 0, closing: false };
        assert(pool@.slots =~= Seq::empty());
        Ok(pool)
    }

    /// The number of workers the pool was created for.
    pub fn size(&self) -> (size: usize)
        ensures
            size == self@.size,
    {
        self.size
    }

    /// The number of workers started so far.
    pub fn worker_count(&self) -> (count: usize)
        ensures
            count == self@.workers(),
    {
        self.workers.len()
    }

    /// The identifier of the worker to start next, or `None` when every
    /// worker is started or the teardown has begun.
    pub fn next_worker(&self) -> (id: Option<usize>)
        ensures
            id == match self@.next_worker() {
                Some(i) => Some(i as usize),
                None => None,
            },
    {
        if !self.closing && self.workers.len() < self.size {
            Some(self.workers.len())
        } else {
            None
        }
    }

    /// Records that the worker `next_worker()` was started and is joined
    /// through `handle`, and returns the worker's identifier.
    ///
    /// When no worker is missing the pool is left as it was and the handle
    /// comes back.
    pub fn register(&mut self, handle: H) -> (id: Result<usize, H>)
        requires
            old(self).wf(),
        ensures
            final(self).wf(),
            match old(self)@.next_worker() {
                Some(i) => id == Ok::<usize, H>(i as usize) && final(self)@ == old(self)@.register(
                    handle,
                ),
                None => id == Err::<usize, H>(handle) && final(self)@ == old(self)@,
            },
    {
        if !self.closing && self.workers.len() < self.size {
            let id = self.workers.len();
            self.workers.push(Worker::new(id, handle));
            assert(self@.slots =~= old(self)@.slots.push(Some(handle)));
            Ok(id)
        } else {
            Err(handle)
        }
    }

    /// Whether the pool takes jobs.
    pub fn is_accepting(&self) -> (accepting: bool)
        ensures
            accepting == self@.accepting(),
    {
        !self.closing
    }

    /// Turns `job` into the message that carries it to a worker. The caller
    /// sends the message on the work channel.
    ///
    /// A pool whose teardown has begun takes no more jobs: a job sent behind
    /// the orders to stop would never run.
    pub fn execute<J>(&self, job: J) -> (message: JobMessage<J>)
        requires
            self@.accepting(),
        ensures
            message == JobMessage::NewJob(job),
    {
        JobMessage::NewJob(job)
    }

    /// Begins or continues the teardown and says what to do next.
    ///
    /// The steps come in a fixed order: one `Terminate` to send for each
    /// started worker, then the handle of each worker in the order of their
    /// identifiers, then `Done`, again and again. The orders to stop queue
    /// up behind the jobs the pool has taken, so those jobs are run first;
    /// and every worker is signalled before the first is joined, so no
    /// join waits for a worker whose order to stop was never sent.
    pub fn shutdown_step<J>(&mut self) -> (action: PoolAction<J, H>)
        requires
            old(self).wf(),
        ensures
            final(self).wf(),
            final(self)@ == old(self)@.after_shutdown_step(),
            action == old(self)@.shutdown_action::<J>(),
    {
        self.closing = true;
        if self.signalled < self.workers.len() {
            self.signalled = self.signalled + 1;
            assert(self@.slots =~= old(self)@.slots);
            PoolAction::Signal(JobMessage::Terminate)
        } else if self.joined < self.workers.len() {
            let next = self.joined;
            assert(old(self)@.slots[next as int] is Some);
            let id = self.workers[next].id();
            let taken = self.workers[next].take_handle();
            self.joined = self.joined + 1;
            assert(self@.slots =~= old(self)@.slots.update(next as int, None));
            PoolAction::Join { id, handle: taken.unwrap() }
        } else {
            assert(self@.slots =~= old(self)@.slots);
            PoolAction::Done
        }
    }

    /// Whether the teardown is over.
    pub fn is_shut_down(&self) -> (done: bool)
        ensures
            done == self@.shut_down(),
    {
        self.closing && self.signalled == self.workers.len() && self.joined == self.workers.len()
    }
}

/// Registering handles with a new pool fills its slots in their order and
/// changes nothing else.
proof fn lemma_register_all<H>(size: nat, handles: Seq<H>)
    requires
        handles.len() <= size,
    ensures
        PoolView::fresh(size).register_all(handles) == (PoolView {
            size,
            ..PoolView::started(handles)
        }),
    decreases handles.len(),
{
    let reached = PoolView::fresh(size).register_all(handles);
    if handles.len() == 0 {
        assert(reached.slots =~= PoolView::started(handles).slots);
    } else {
        lemma_register_all(size, handles.drop_last());
        assert(reached.slots =~= PoolView::started(handles).slots);
    }
}

/// Creation starts exactly as many workers as were asked for.
///
/// Take the handles of the threads that the owner of a new pool starts, as
/// many as the pool's size, and register them one after the other. After
/// `count` of them the pool asks for the worker with the identifier `count`,
/// as long as one is missing. When all are registered it asks for no more,
/// and it is the pool that holds these handles, each at its worker's
/// identifier, and takes jobs.
pub proof fn law_creation_starts_every_worker<H>(handles: Seq<H>, count: nat)
    requires
        1 <= handles.len() <= usize::MAX,
        count <= handles.len(),
    ensures
        ({
            let size = handles.len();
            let during = PoolView::fresh(size).register_all(handles.take(count as int));
            let after = PoolView::fresh(size).register_all(handles);
            &&& during.valid()
            &&& during.workers() == count
            &&& during.next_worker() == if count < size {
                Some(count)
            } else {
                None
            }
            &&& after == PoolView::started(handles)
            &&& after.workers() == size
            &&& after.accepting()
        }),
{
    let size = handles.len();
    lemma_register_all(size, handles.take(count as int));
    lemma_register_all(size, handles);
}

/// The pool after `steps` steps of a teardown that had not begun.
proof fn lemma_shutdown_steps<H>(pool: PoolView<H>, steps: nat)
    requires
        pool.valid(),
        !pool.closing,
    ensures
        ({
            let n = pool.slots.len();
            let at = pool.after_shutdown_steps(steps);
            let joined = if steps <= n {
                0
            } else if steps <= 2 * n {
                steps - n
            } else {
                n as int
            };
            &&& at.valid()
            &&& at.size == pool.size
            &&& at.closing == (steps > 0)
            &&& at.signalled == if steps <= n {
                steps
            } else {
                n
            }
            &&& at.joined == joined
            &&& at.slots.len() == n
            &&& forall|i: int| joined <= i < n ==> at.slots[i] == pool.slots[i]
        }),
    decreases steps,
{
    if steps > 0 {
        lemma_shutdown_steps(pool, (steps - 1) as nat);
    } else {
        assert(pool.joined == 0);
    }
}

/// A teardown signals every worker, then joins every worker, then is over.
///
/// Count the steps of the teardown of a pool with `n` workers from zero.
/// Each of the first `n` steps is a `Terminate` to send. Each of the next `n`
/// is a join, of the workers in the order of their identifiers, each through
/// the handle it was started with. Every later step is `Done`, and from the
/// moment the first `2n` steps are taken the teardown is over.
pub proof fn law_teardown_signals_then_joins<J, H>(pool: PoolView<H>, step: nat)
    requires
        pool.valid(),
        !pool.closing,
    ensures
        ({
            let n = pool.workers();
            let at = pool.after_shutdown_steps(step);
            &&& at.valid()
            &&& at.shutdown_action::<J>() == if step < n {
                PoolAction::<J, H>::Signal(JobMessage::Terminate)
            } else if step < 2 * n {
                PoolAction::<J, H>::Join {
                    id: (step - n) as usize,
                    handle: pool.slots[step - n]->0,
                }
            } else {
                PoolAction::<J, H>::Done
            }
            &&& at.shut_down() <==> step >= 2 * n && step > 0
        }),
{
    lemma_shutdown_steps(pool, step);
}

} // verus!
