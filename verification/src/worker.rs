//! A worker, from its own side and from the pool's: the loop that its
//! thread runs, and the record by which the pool joins that thread.

use vstd::prelude::*;
use crate::message::JobMessage;

verus! {

/// The state of a worker's receive loop.
#[derive(Clone, Copy, PartialEq, Eq, Structural, Debug)]
pub enum WorkerState {
    /// The worker waits for messages and runs the jobs it receives.
    Running,
    /// The worker has received the order to stop; its thread returns.
    Terminated,
}

/// What a worker must do with the message it has just dequeued.
#[derive(Debug, PartialEq, Eq)]
pub enum Directive<J> {
    /// Run this job to completion, then wait for the next message.
    Run(J),
    /// Leave the loop and let the thread return.
    Exit,
}

/// The state a running worker moves to on `message`, and what it must do:
/// it runs a job and goes on, and it stops when told to.
pub open spec fn receive<J>(message: JobMessage<J>) -> (WorkerState, Directive<J>) {
    match message {
        JobMessage::NewJob(job) => (WorkerState::Running, Directive::Run(job)),
        JobMessage::Terminate => (WorkerState::Terminated, Directive::Exit),
    }
}

/// The thread side of a worker: its identifier and the state of its loop.
///
/// The thread that owns the value dequeues a message, with the channel's lock
/// released again, hands it to `on_message`, and does what the directive says.
pub struct WorkerLoop {
    id: usize,
    state: WorkerState,
}

impl WorkerLoop {
    /// The worker's identifier, in contracts.
    pub closed spec fn spec_id(&self) -> usize {
        self.id
    }

    /// The state of the loop, in contracts.
    pub closed spec fn spec_state(&self) -> WorkerState {
        self.state
    }

    /// A worker in its initial state, `Running`.
    pub fn new(id: usize) -> (worker: Self)
        ensures
            worker.id() == id,
            worker.state() == WorkerState::Running,
    {
        WorkerLoop { id, state: WorkerState::Running }
    }

    /// The worker's identifier.
    #[verifier::when_used_as_spec(spec_id)]
    pub fn id(&self) -> (id: usize)
        ensures
            id == self.spec_id(),
    {
        self.id
    }

    /// The state of the loop.
    #[verifier::when_used_as_spec(spec_state)]
    pub fn state(&self) -> (state: WorkerState)
        ensures
            state == self.spec_state(),
    {
        self.state
    }

    /// Whether the loop goes on, that is, whether the worker may dequeue
    /// another message.
    pub fn is_running(&self) -> (running: bool)
        ensures
            running <==> self.state() == WorkerState::Running,
    {
        match self.state {
            WorkerState::Running => true,
            WorkerState::Terminated => false,
        }
    }

    /// Takes the message the worker has dequeued and says what to do with it.
    ///
    /// A job is handed back to be run and the worker stays `Running`; the
    /// order to stop moves it to `Terminated`, for good. Only a running
    /// worker dequeues, so a terminated one is never handed a message.
    pub fn on_message<J>(&mut self, message: JobMessage<J>) -> (directive: Directive<J>)
        requires
            old(self).state() == WorkerState::Running,
        ensures
            final(self).id() == old(self).id(),
            (final(self).state(), directive) == receive(message),
    {
        match message {
            JobMessage::NewJob(job) => Directive::Run(job),
            JobMessage::Terminate => {
                self.state = WorkerState::Terminated;
                Directive::Exit
            },
        }
    }
}

/// The pool's record of one worker: its identifier and the handle by which
/// its thread is joined. `H` is the handle; the pool keeps it and gives it
/// out once.
pub struct Worker<H> {
    id: usize,
    join_handle: Option<H>,
}

impl<H> Worker<H> {
    /// The worker's identifier, in contracts.
    pub closed spec fn spec_id(&self) -> usize {
        self.id
    }

    /// The handle the record holds, `None` once it was taken.
    pub closed spec fn handle(&self) -> Option<H> {
        self.join_handle
    }

    /// The record of the worker `id`, whose thread is joined through `handle`.
    pub fn new(id: usize, handle: H) -> (worker: Self)
        ensures
            worker.id() == id,
            worker.handle() == Some(handle),
    {
        Worker { id, join_handle: Some(handle) }
    }

    /// The worker's identifier.
    #[verifier::when_used_as_spec(spec_id)]
    pub fn id(&self) -> (id: usize)
        ensures
            id == self.spec_id(),
    {
        self.id
    }

    /// Whether the handle is still there, that is, whether the worker has
    /// not been joined yet.
    pub fn has_handle(&self) -> (present: bool)
        ensures
            present <==> self.handle() is Some,
    {
        self.join_handle.is_some()
    }

    /// Gives the handle out and leaves the slot empty, so that a second call
    /// finds nothing to join.
    pub fn take_handle(&mut self) -> (handle: Option<H>)
        ensures
            handle == old(self).handle(),
            final(self).handle() is None,
            final(self).id() == old(self).id(),
    {
        self.join_handle.take()
    }
}

} // verus!
