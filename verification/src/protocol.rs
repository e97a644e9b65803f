//! Pool, channel and workers as one system, and what holds of it under every
//! schedule.
//!
//! The parts of the system are the ones the rest of the crate defines: the
//! pool is a `PoolView`, a worker moves as `receive` says, and the teardown
//! steps as `shutdown_action` and `after_shutdown_step` say. What is added
//! here is the channel, a queue, and the order of events, which is left
//! open. The laws at the end of the file hold whatever that order is.
//!
//! The model rests on two things that this crate cannot see. The channel is
//! taken to be what `System` says it is: first in, first out, each message
//! to one receiver. And the program around the crate is taken to do what
//! each action says, and to let a worker receive only between two jobs. A
//! job is taken to come to its end; one that does not, or that panics, is
//! outside the model.

use vstd::prelude::*;
use crate::message::JobMessage;
use crate::pool::PoolAction;
use crate::pool::PoolView;
use crate::worker::receive;
use crate::worker::Directive;
use crate::worker::WorkerState;

verus! {

/// One entry of the record of work: a job that a worker has dequeued.
pub struct Execution<J> {
    /// The job.
    pub job: J,
    /// The worker that dequeued it, and runs it.
    pub worker: nat,
    /// Whether the job has run to its end.
    pub finished: bool,
}

/// Pool, work channel and workers together, with the record of what has
/// happened so far.
///
/// The channel is a queue: a message sent goes to its back, and a receiving
/// worker takes the message at its front, which no other worker then sees.
pub struct System<J, H> {
    /// The pool, as its owner holds it.
    pub pool: PoolView<H>,
    /// The state of each worker's loop, by identifier.
    pub workers: Seq<WorkerState>,
    /// For each worker, the entry of `executions` it is busy with, if any.
    pub busy: Seq<Option<nat>>,
    /// The messages sent and not yet received, oldest first.
    pub queue: Seq<JobMessage<J>>,
    /// Every job submitted so far, in the order in which the channel took them.
    pub submitted: Seq<J>,
    /// Every job dequeued so far, in the order in which they were dequeued.
    pub executions: Seq<Execution<J>>,
    /// How many orders to stop each worker has received.
    pub stops: Seq<nat>,
    /// How many times each worker has been joined.
    pub joins: Seq<nat>,
}

/// What can happen to the system. Events of different threads may come in
/// any order; each one is atomic.
pub enum Event<J> {
    /// Some thread submits a job: the pool wraps it and the message is sent.
    Submit(J),
    /// The pool's owner takes the next step of the teardown and carries it
    /// out: a signal is sent, or a join returns.
    Shutdown,
    /// The worker with this identifier dequeues a message: it begins the job
    /// in it, or terminates.
    Receive(nat),
    /// The worker with this identifier comes to the end of the job it runs.
    Finish(nat),
}

/// The messages that carry these jobs, in the same order.
pub open spec fn job_messages<J>(jobs: Seq<J>) -> Seq<JobMessage<J>> {
    Seq::new(jobs.len(), |i: int| JobMessage::NewJob(jobs[i]))
}

/// So many orders to stop.
pub open spec fn stop_messages<J>(count: nat) -> Seq<JobMessage<J>> {
    Seq::new(count, |i: int| JobMessage::Terminate)
}

/// The jobs that these messages carry, in the same order.
pub open spec fn jobs_in<J>(messages: Seq<JobMessage<J>>) -> Seq<J>
    decreases messages.len(),
{
    if messages.len() == 0 {
        Seq::empty()
    } else {
        match messages.last() {
            JobMessage::NewJob(job) => jobs_in(messages.drop_last()).push(job),
            JobMessage::Terminate => jobs_in(messages.drop_last()),
        }
    }
}

/// The jobs on this record, in order.
pub open spec fn jobs_of<J>(executions: Seq<Execution<J>>) -> Seq<J> {
    Seq::new(executions.len(), |i: int| executions[i].job)
}

/// The jobs of the `Submit` events among these, in order.
pub open spec fn submissions<J>(events: Seq<Event<J>>) -> Seq<J>
    decreases events.len(),
{
    if events.len() == 0 {
        Seq::empty()
    } else {
        match events.last() {
            Event::Submit(job) => submissions(events.drop_last()).push(job),
            _ => submissions(events.drop_last()),
        }
    }
}

/// How many of these workers have terminated.
pub open spec fn terminated(workers: Seq<WorkerState>) -> nat
    decreases workers.len(),
{
    if workers.len() == 0 {
        0
    } else {
        terminated(workers.drop_last()) + if workers.last() is Terminated {
            1nat
        } else {
            0nat
        }
    }
}

/// How many of these workers are busy with a job.
pub open spec fn occupied(busy: Seq<Option<nat>>) -> nat
    decreases busy.len(),
{
    if busy.len() == 0 {
        0
    } else {
        occupied(busy.drop_last()) + if busy.last() is Some {
            1nat
        } else {
            0nat
        }
    }
}

impl<J, H> System<J, H> {
    /// The system right after the pool's creation: every worker started,
    /// running and idle, nothing sent, nothing done.
    pub open spec fn initial(handles: Seq<H>) -> Self {
        System {
            pool: PoolView::started(handles),
            workers: Seq::new(handles.len(), |i: int| WorkerState::Running),
            busy: Seq::new(handles.len(), |i: int| None),
            queue: Seq::empty(),
            submitted: Seq::empty(),
            executions: Seq::empty(),
            stops: Seq::new(handles.len(), |i: int| 0nat),
            joins: Seq::new(handles.len(), |i: int| 0nat),
        }
    }

    /// Whether `event` can happen now.
    ///
    /// A job is submitted only while the pool takes jobs. A teardown step
    /// happens while the teardown is not over, and a join returns only when
    /// the joined worker has terminated. A worker receives only while it
    /// runs and is idle, and only when a message waits. A worker finishes
    /// only the job it is busy with.
    pub open spec fn enabled(self, event: Event<J>) -> bool {
        match event {
            Event::Submit(_) => self.pool.accepting(),
            Event::Shutdown => match self.pool.shutdown_action::<J>() {
                PoolAction::Signal(_) => true,
                PoolAction::Join { id, .. } => id < self.workers.len()
                    && self.workers[id as int] is Terminated,
                PoolAction::Done => false,
            },
            Event::Receive(w) => {
                &&& w < self.workers.len()
                &&& w < self.busy.len()
                &&& self.workers[w as int] is Running
                &&& self.busy[w as int] is None
                &&& self.queue.len() > 0
            },
            Event::Finish(w) => w < self.busy.len() && self.busy[w as int] is Some,
        }
    }

    /// The system after `event`.
    pub open spec fn apply(self, event: Event<J>) -> Self {
        match event {
            Event::Submit(job) => System {
                queue: self.queue.push(JobMessage::NewJob(job)),
                submitted: self.submitted.push(job),
                ..self
            },
            Event::Shutdown => {
                let pool = self.pool.after_shutdown_step();
                match self.pool.shutdown_action::<J>() {
                    PoolAction::Signal(message) => System {
                        pool,
                        queue: self.queue.push(message),
                        ..self
                    },
                    PoolAction::Join { id, .. } => System {
                        pool,
                        joins: self.joins.update(id as int, self.joins[id as int] + 1),
                        ..self
                    },
                    PoolAction::Done => System { pool, ..self },
                }
            },
            Event::Receive(w) => {
                let (state, directive) = receive(self.queue.first());
                let after = System {
                    workers: self.workers.update(w as int, state),
                    queue: self.queue.drop_first(),
                    ..self
                };
                match directive {
                    Directive::Run(job) => System {
                        busy: self.busy.update(w as int, Some(self.executions.len())),
                        executions: self.executions.push(
                            Execution { job, worker: w, finished: false },
                        ),
                        ..after
                    },
                    Directive::Exit => System {
                        stops: self.stops.update(w as int, self.stops[w as int] + 1),
                        ..after
                    },
                }
            },
            Event::Finish(w) => {
                let entry = self.busy[w as int]->0 as int;
                System {
                    busy: self.busy.update(w as int, None),
                    executions: self.executions.update(
                        entry,
                        Execution { finished: true, ..self.executions[entry] },
                    ),
                    ..self
                }
            },
        }
    }

    /// The system after these events, one after the other.
    pub open spec fn run(self, events: Seq<Event<J>>) -> Self
        decreases events.len(),
    {
        if events.len() == 0 {
            self
        } else {
            self.run(events.drop_last()).apply(events.last())
        }
    }

    /// Whether each of these events can happen when its turn comes.
    pub open spec fn admits(self, events: Seq<Event<J>>) -> bool
        decreases events.len(),
    {
        events.len() == 0 || (self.admits(events.drop_last()) && self.run(
            events.drop_last(),
        ).enabled(events.last()))
    }

    /// What every reachable state satisfies.
    ///
    /// The queue holds the jobs not yet dequeued, in the order of their
    /// submission, and behind them the orders to stop that no worker has
    /// received yet. The jobs dequeued are the first of those submitted, in
    /// order. A job is unfinished exactly while its worker is busy with it,
    /// and only a running worker is busy. A worker has terminated only after
    /// every job was dequeued. A worker has received one order to stop if it
    /// has terminated and none otherwise; it was joined once if its handle
    /// is gone and never otherwise, and only after it terminated.
    pub open spec fn consistent(self) -> bool {
        let n = self.pool.slots.len();
        let begun = self.executions.len();
        let gone = terminated(self.workers);
        &&& self.pool.valid()
        &&& n == self.pool.size
        &&& self.workers.len() == n
        &&& self.busy.len() == n
        &&& self.stops.len() == n
        &&& self.joins.len() == n
        &&& gone <= self.pool.signalled
        &&& begun <= self.submitted.len()
        &&& self.queue == job_messages(self.submitted.skip(begun as int)) + stop_messages(
            (self.pool.signalled - gone) as nat,
        )
        &&& forall|i: int|
            0 <= i < begun ==> {
                &&& (#[trigger] self.executions[i]).job == self.submitted[i]
                &&& self.executions[i].worker < n
                &&& !self.executions[i].finished ==> self.busy[self.executions[i].worker as int]
                    == Some(i as nat)
            }
        &&& forall|w: int|
            0 <= w < n ==> (#[trigger] self.busy[w] matches Some(i) ==> {
                &&& i < begun
                &&& self.executions[i as int].worker == w
                &&& !self.executions[i as int].finished
                &&& self.workers[w] is Running
            })
        &&& gone > 0 ==> begun == self.submitted.len()
        &&& forall|w: int|
            0 <= w < n ==> #[trigger] self.stops[w] == if self.workers[w] is Terminated {
                1nat
            } else {
                0nat
            }
        &&& forall|w: int|
            0 <= w < n ==> #[trigger] self.joins[w] == if self.pool.slots[w] is None {
                1nat
            } else {
                0nat
            }
        &&& forall|w: int|
            0 <= w < n && (#[trigger] self.pool.slots[w]) is None ==> self.workers[w] is Terminated
    }

    /// What is left of the teardown, as a number that every event lowers:
    /// the signals to send and the joins to make, the messages that wait and
    /// the jobs that are being run, each with the weight of the events it
    /// still gives rise to.
    pub open spec fn remaining(self) -> nat {
        (3 * (self.pool.slots.len() - self.pool.signalled) + 2 * self.queue.len() + occupied(
            self.busy,
        ) + (self.pool.slots.len() - self.pool.joined)) as nat
    }
}

/// No more workers have terminated than there are.
proof fn lemma_terminated_bound(workers: Seq<WorkerState>)
    ensures
        terminated(workers) <= workers.len(),
    decreases workers.len(),
{
    if workers.len() > 0 {
        lemma_terminated_bound(workers.drop_last());
    }
}

/// Where every worker runs, none has terminated.
proof fn lemma_terminated_none(workers: Seq<WorkerState>)
    requires
        forall|i: int| 0 <= i < workers.len() ==> workers[i] is Running,
    ensures
        terminated(workers) == 0,
    decreases workers.len(),
{
    if workers.len() > 0 {
        lemma_terminated_none(workers.drop_last());
    }
}

/// Where every worker has terminated, the count is their number.
proof fn lemma_terminated_all(workers: Seq<WorkerState>)
    requires
        forall|i: int| 0 <= i < workers.len() ==> workers[i] is Terminated,
    ensures
        terminated(workers) == workers.len(),
    decreases workers.len(),
{
    if workers.len() > 0 {
        lemma_terminated_all(workers.drop_last());
    }
}

/// A running worker that terminates raises the count by one.
proof fn lemma_terminated_step(workers: Seq<WorkerState>, w: int)
    requires
        0 <= w < workers.len(),
        workers[w] is Running,
    ensures
        terminated(workers.update(w, WorkerState::Terminated)) == terminated(workers) + 1,
    decreases workers.len(),
{
    let after = workers.update(w, WorkerState::Terminated);
    if w == workers.len() - 1 {
        assert(after.drop_last() =~= workers.drop_last());
    } else {
        lemma_terminated_step(workers.drop_last(), w);
        assert(after.drop_last() =~= workers.drop_last().update(w, WorkerState::Terminated));
    }
}

/// Where no worker is busy, the count is zero.
proof fn lemma_occupied_none(busy: Seq<Option<nat>>)
    requires
        forall|i: int| 0 <= i < busy.len() ==> busy[i] is None,
    ensures
        occupied(busy) == 0,
    decreases busy.len(),
{
    if busy.len() > 0 {
        lemma_occupied_none(busy.drop_last());
    }
}

/// A worker that begins or ends a job changes the count by one: the count
/// without that worker is the same before and after.
proof fn lemma_occupied_step(busy: Seq<Option<nat>>, w: int, entry: Option<nat>)
    requires
        0 <= w < busy.len(),
    ensures
        occupied(busy.update(w, entry)) + if busy[w] is Some {
            1nat
        } else {
            0nat
        } == occupied(busy) + if entry is Some {
            1nat
        } else {
            0nat
        },
    decreases busy.len(),
{
    let after = busy.update(w, entry);
    if w == busy.len() - 1 {
        assert(after.drop_last() =~= busy.drop_last());
    } else {
        lemma_occupied_step(busy.drop_last(), w, entry);
        assert(after.drop_last() =~= busy.drop_last().update(w, entry));
    }
}

/// The jobs in a queue of job messages followed by orders to stop are the
/// jobs of those messages.
proof fn lemma_jobs_in_queue<J>(jobs: Seq<J>, stops: nat)
    ensures
        jobs_in(job_messages(jobs) + stop_messages(stops)) == jobs,
    decreases stops, jobs.len(),
{
    let queue = job_messages(jobs) + stop_messages::<J>(stops);
    if stops > 0 {
        lemma_jobs_in_queue(jobs, (stops - 1) as nat);
        assert(queue.drop_last() =~= job_messages(jobs) + stop_messages::<J>((stops - 1) as nat));
    } else if jobs.len() > 0 {
        lemma_jobs_in_queue(jobs.drop_last(), 0);
        assert(queue.drop_last() =~= job_messages(jobs.drop_last()) + stop_messages::<J>(0));
        assert(jobs_in(queue) =~= jobs);
    } else {
        assert(jobs_in(queue) =~= jobs);
    }
}

impl<J, H> System<J, H> {
    /// The initial state is consistent.
    proof fn lemma_initial_consistent(handles: Seq<H>)
        requires
            1 <= handles.len() <= usize::MAX,
        ensures
            Self::initial(handles).consistent(),
    {
        let s = Self::initial(handles);
        lemma_terminated_none(s.workers);
        assert(s.queue =~= job_messages(s.submitted.skip(0)) + stop_messages::<J>(0));
    }

    /// An event that can happen leaves a consistent state consistent.
    proof fn lemma_apply_consistent(self, event: Event<J>)
        requires
            self.consistent(),
            self.enabled(event),
        ensures
            self.apply(event).consistent(),
    {
        let next = self.apply(event);
        let begun = self.executions.len() as int;
        let gone = terminated(self.workers);
        let waiting = (self.pool.signalled - gone) as nat;
        lemma_terminated_bound(self.workers);
        match event {
            Event::Submit(job) => {
                assert(waiting == 0);
                assert(next.queue =~= job_messages(next.submitted.skip(begun)) + stop_messages::<J>(
                    0,
                ));
            },
            Event::Shutdown => {
                match self.pool.shutdown_action::<J>() {
                    PoolAction::Signal(message) => {
                        assert(next.queue =~= job_messages(next.submitted.skip(begun))
                            + stop_messages::<J>(waiting + 1));
                    },
                    PoolAction::Join { id, .. } => {
                        assert(id == self.pool.joined);
                    },
                    PoolAction::Done => {},
                }
            },
            Event::Receive(w) => {
                if begun < self.submitted.len() {
                    assert(self.queue[0] == JobMessage::NewJob(self.submitted[begun]));
                    assert(next.workers =~= self.workers);
                    assert(next.queue =~= job_messages(next.submitted.skip(begun + 1))
                        + stop_messages::<J>(waiting));
                } else {
                    assert(self.queue[0] == JobMessage::<J>::Terminate);
                    lemma_terminated_step(self.workers, w as int);
                    assert(next.queue =~= job_messages(next.submitted.skip(begun))
                        + stop_messages::<J>((waiting - 1) as nat));
                }
            },
            Event::Finish(w) => {},
        }
    }

    /// Every state reached from the initial one is consistent.
    proof fn lemma_run_consistent(handles: Seq<H>, events: Seq<Event<J>>)
        requires
            1 <= handles.len() <= usize::MAX,
            Self::initial(handles).admits(events),
        ensures
            Self::initial(handles).run(events).consistent(),
        decreases events.len(),
    {
        if events.len() == 0 {
            Self::lemma_initial_consistent(handles);
        } else {
            Self::lemma_run_consistent(handles, events.drop_last());
            Self::initial(handles).run(events.drop_last()).lemma_apply_consistent(events.last());
        }
    }

    /// The jobs on record as submitted are those of the `Submit` events.
    proof fn lemma_run_submitted(self, events: Seq<Event<J>>)
        ensures
            self.run(events).submitted == self.submitted + submissions(events),
        decreases events.len(),
    {
        if events.len() == 0 {
            assert(self.submitted + submissions(events) =~= self.submitted);
        } else {
            self.lemma_run_submitted(events.drop_last());
            let before = self.run(events.drop_last());
            match events.last() {
                Event::Submit(job) => {
                    assert(self.submitted + submissions(events) =~= before.submitted.push(job));
                },
                _ => {},
            }
        }
    }

    /// Once the teardown has begun, an event that can happen leaves it begun
    /// and lowers what remains of it.
    proof fn lemma_apply_lowers_remaining(self, event: Event<J>)
        requires
            self.consistent(),
            self.pool.closing,
            self.enabled(event),
        ensures
            self.apply(event).pool.closing,
            self.apply(event).remaining() < self.remaining(),
    {
        match event {
            Event::Receive(w) => {
                lemma_occupied_step(self.busy, w as int, Some(self.executions.len()));
            },
            Event::Finish(w) => {
                lemma_occupied_step(self.busy, w as int, None);
            },
            _ => {},
        }
    }

    /// No event changes how many workers the pool has.
    proof fn lemma_run_pool_size(self, events: Seq<Event<J>>)
        ensures
            self.run(events).pool.slots.len() == self.pool.slots.len(),
        decreases events.len(),
    {
        if events.len() > 0 {
            self.lemma_run_pool_size(events.drop_last());
        }
    }
}

/// Every job is run exactly once, by one worker, before the teardown is over.
///
/// Take a pool with at least one worker and any events that can happen one
/// after the other, in any interleaving, and let the teardown be over after
/// the last of them. Then the record of work has one entry for each job
/// submitted, in the order of submission; each entry names a worker of the
/// pool and is finished; and no message is left in the channel.
pub proof fn law_every_job_runs_exactly_once<J, H>(handles: Seq<H>, events: Seq<Event<J>>)
    requires
        1 <= handles.len() <= usize::MAX,
        System::<J, H>::initial(handles).admits(events),
        System::<J, H>::initial(handles).run(events).pool.shut_down(),
    ensures
        ({
            let end = System::<J, H>::initial(handles).run(events);
            &&& jobs_of(end.executions) == submissions(events)
            &&& forall|i: int|
                0 <= i < end.executions.len() ==> {
                    &&& (#[trigger] end.executions[i]).worker < handles.len()
                    &&& end.executions[i].finished
                }
            &&& end.queue.len() == 0
        }),
{
    let start = System::<J, H>::initial(handles);
    let end = start.run(events);
    System::<J, H>::lemma_run_consistent(handles, events);
    start.lemma_run_submitted(events);
    start.lemma_run_pool_size(events);
    assert(end.submitted =~= submissions(events));
    assert forall|w: int| 0 <= w < end.workers.len() implies end.workers[w] is Terminated by {
        assert(end.pool.slots[w] is None);
    }
    lemma_terminated_all(end.workers);
    assert(end.executions.len() == end.submitted.len());
    assert(jobs_of(end.executions) =~= end.submitted);
    assert forall|i: int| 0 <= i < end.executions.len() implies {
        &&& (#[trigger] end.executions[i]).worker < handles.len()
        &&& end.executions[i].finished
    } by {
        let w = end.executions[i].worker as int;
        assert(end.busy[w] is Some ==> end.workers[w] is Running);
    }
}

/// No job is lost and none is duplicated, whatever the order in which
/// threads submit and workers receive.
///
/// After any events that can happen one after the other, the jobs dequeued
/// so far followed by the jobs that wait in the channel are the jobs
/// submitted, each once and in the order of submission.
pub proof fn law_no_job_lost_or_duplicated<J, H>(handles: Seq<H>, events: Seq<Event<J>>)
    requires
        1 <= handles.len() <= usize::MAX,
        System::<J, H>::initial(handles).admits(events),
    ensures
        ({
            let now = System::<J, H>::initial(handles).run(events);
            jobs_of(now.executions) + jobs_in(now.queue) == submissions(events)
        }),
{
    let start = System::<J, H>::initial(handles);
    let now = start.run(events);
    System::<J, H>::lemma_run_consistent(handles, events);
    start.lemma_run_submitted(events);
    assert(now.submitted =~= submissions(events));
    let begun = now.executions.len() as int;
    lemma_jobs_in_queue(
        now.submitted.skip(begun),
        (now.pool.signalled - terminated(now.workers)) as nat,
    );
    assert(jobs_of(now.executions) + now.submitted.skip(begun) =~= now.submitted);
}

/// A teardown that is over has signalled and joined every worker.
///
/// When the teardown is over, the pool has handed out as many orders to stop
/// as it has workers, and every worker has received one, has terminated, is
/// busy with nothing and was joined. Nothing remains of the teardown.
pub proof fn law_teardown_reaches_every_worker<J, H>(handles: Seq<H>, events: Seq<Event<J>>)
    requires
        1 <= handles.len() <= usize::MAX,
        System::<J, H>::initial(handles).admits(events),
        System::<J, H>::initial(handles).run(events).pool.shut_down(),
    ensures
        ({
            let end = System::<J, H>::initial(handles).run(events);
            &&& end.pool.signalled == handles.len()
            &&& end.pool.joined == handles.len()
            &&& end.workers.len() == handles.len()
            &&& forall|w: int|
                0 <= w < handles.len() ==> {
                    &&& #[trigger] end.workers[w] is Terminated
                    &&& end.busy[w] is None
                    &&& end.stops[w] == 1
                    &&& end.joins[w] == 1
                }
            &&& end.remaining() == 0
        }),
{
    let end = System::<J, H>::initial(handles).run(events);
    System::<J, H>::lemma_run_consistent(handles, events);
    System::<J, H>::initial(handles).lemma_run_pool_size(events);
    assert forall|w: int| 0 <= w < handles.len() implies {
        &&& #[trigger] end.workers[w] is Terminated
        &&& end.busy[w] is None
        &&& end.stops[w] == 1
        &&& end.joins[w] == 1
    } by {
        assert(end.pool.slots[w] is None);
    }
    lemma_terminated_all(end.workers);
    lemma_occupied_none(end.busy);
}

/// A teardown never stalls.
///
/// While the teardown is not over, something can happen: its next step, a
/// worker receiving a message, or a worker finishing its job. The event
/// returned is one that can.
pub proof fn law_teardown_never_stalls<J, H>(handles: Seq<H>, events: Seq<Event<J>>) -> (next:
    Event<J>)
    requires
        1 <= handles.len() <= usize::MAX,
        System::<J, H>::initial(handles).admits(events),
        !System::<J, H>::initial(handles).run(events).pool.shut_down(),
    ensures
        System::<J, H>::initial(handles).run(events).enabled(next),
        !(next is Submit),
{
    let now = System::<J, H>::initial(handles).run(events);
    System::<J, H>::lemma_run_consistent(handles, events);
    lemma_terminated_bound(now.workers);
    if now.pool.signalled < now.pool.slots.len() {
        Event::Shutdown
    } else {
        let w = now.pool.joined as int;
        if now.workers[w] is Terminated {
            Event::Shutdown
        } else if now.busy[w] is Some {
            Event::Finish(w as nat)
        } else {
            // This worker still runs, so fewer than all have terminated, and
            // the order to stop that is meant for it waits in the channel.
            lemma_terminated_step(now.workers, w);
            lemma_terminated_bound(now.workers.update(w, WorkerState::Terminated));
            Event::Receive(w as nat)
        }
    }
}

/// A teardown is over after a bounded number of events.
///
/// Take the system at a moment when the teardown has begun, and any events
/// that can happen from then on. There are no more of them than what
/// remained of the teardown at that moment: each one lowers that number,
/// which is never negative.
pub proof fn law_teardown_is_bounded<J, H>(
    handles: Seq<H>,
    before: Seq<Event<J>>,
    after: Seq<Event<J>>,
)
    requires
        1 <= handles.len() <= usize::MAX,
        System::<J, H>::initial(handles).admits(before + after),
        System::<J, H>::initial(handles).run(before).pool.closing,
    ensures
        ({
            let begun = System::<J, H>::initial(handles).run(before);
            let now = System::<J, H>::initial(handles).run(before + after);
            &&& now.pool.closing
            &&& after.len() + now.remaining() <= begun.remaining()
        }),
    decreases after.len(),
{
    let start = System::<J, H>::initial(handles);
    if after.len() == 0 {
        assert(before + after =~= before);
    } else {
        assert((before + after).drop_last() =~= before + after.drop_last());
        law_teardown_is_bounded(handles, before, after.drop_last());
        System::<J, H>::lemma_run_consistent(handles, before + after.drop_last());
        start.run(before + after.drop_last()).lemma_apply_lowers_remaining(after.last());
    }
}

/// No worker receives a second order to stop, and none is joined twice.
pub proof fn law_one_stop_and_one_join_per_worker<J, H>(handles: Seq<H>, events: Seq<Event<J>>)
    requires
        1 <= handles.len() <= usize::MAX,
        System::<J, H>::initial(handles).admits(events),
    ensures
        ({
            let now = System::<J, H>::initial(handles).run(events);
            &&& now.stops.len() == handles.len()
            &&& now.joins.len() == handles.len()
            &&& forall|w: int| 0 <= w < handles.len() ==> #[trigger] now.stops[w] <= 1
            &&& forall|w: int| 0 <= w < handles.len() ==> #[trigger] now.joins[w] <= 1
        }),
{
    System::<J, H>::lemma_run_consistent(handles, events);
    System::<J, H>::initial(handles).lemma_run_pool_size(events);
}

} // verus!
