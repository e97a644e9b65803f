//! The messages of the work channel.

use vstd::prelude::*;

verus! {

/// What travels on the work channel: a job to run, or the order to stop.
///
/// `J` is the job itself. The pool never looks inside a job and never runs
/// one; it only carries it from the submitter to the worker that dequeues it.
#[derive(Debug, PartialEq, Eq)]
pub enum JobMessage<J> {
    /// One job, to be run once by the worker that receives the message.
    NewJob(J),
    /// The order to leave the receive loop. Each worker gets one.
    Terminate,
}

impl<J> JobMessage<J> {
    /// Whether the message is the order to stop.
    pub fn is_terminate(&self) -> (stop: bool)
        ensures
            stop <==> *self is Terminate,
    {
        match self {
            JobMessage::NewJob(_) => false,
            JobMessage::Terminate => true,
        }
    }
}

} // verus!
