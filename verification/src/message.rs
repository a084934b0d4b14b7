//! The messages that flow from the dispatcher to the workers.

use vstd::prelude::*;

verus! {

/// One item of the queue: a job to run, or the signal that tells exactly one
/// worker to leave its loop for good.
///
/// The job type `J` is opaque to the pool: a job is moved into the queue,
/// moved out of it once, and handed to the worker that took it.
#[derive(Debug)]
pub enum Message<J> {
    NewJob(J),
    Terminate,
}

} // verus!
