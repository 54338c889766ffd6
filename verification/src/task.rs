use vstd::prelude::*;
use std::sync::mpsc::Receiver;
use std::sync::mpsc::TryRecvError;

verus! {

#[verifier::external_type_specification]
#[verifier::external_body]
#[verifier::reject_recursive_types(T)]
pub struct ExReceiver<T>(Receiver<T>);

/// The receiving end of one background job's completion channel.  Every
/// submitted job sends exactly one message, so a task is polled until it
/// lands and dropped afterwards.
#[derive(Debug)]
#[verifier::reject_recursive_types(Out)]
pub struct PollableTask<Out> {
    rx: Receiver<Out>,
}

pub enum TaskState<Out> {
    Pending,
    Completed(Out),
}

#[derive(Debug, PartialEq, Eq, Structural)]
pub enum PollError {
    ChannelDisconnected,
}

/// Relies on std::sync::mpsc::Receiver::try_recv: it never blocks, and
/// returns a queued message, or an empty marker, or a disconnection marker
/// once the sending side is gone.  Which of the three comes back depends on
/// the worker threads, so nothing is assumed of the outcome; the arms only
/// repackage the three cases.
#[verifier::external_body]
fn try_recv_outcome<T>(rx: &Receiver<T>) -> Result<TaskState<T>, PollError> {
    match rx.try_recv() {
        Ok(value) => Ok(TaskState::Completed(value)),
        Err(TryRecvError::Empty) => Ok(TaskState::Pending),
        Err(TryRecvError::Disconnected) => Err(PollError::ChannelDisconnected),
    }
}

impl<Out> PollableTask<Out> {
    pub fn new(rx: Receiver<Out>) -> Self {
        PollableTask { rx }
    }

    /// Check for the job's result without blocking.  A disconnected channel
    /// means the executor died with the job outstanding; per the error
    /// policy that is fatal for this job only.
    pub fn poll(&self) -> Result<TaskState<Out>, PollError> {
        try_recv_outcome(&self.rx)
    }
}

} // verus!
