//! The errors that the pool reports to its callers.
use vstd::prelude::*;

verus! {

/// Why the pool refused a request.
#[derive(Debug, Clone, Copy, PartialEq, Eq, Structural, Hash)]
pub enum PoolError {
    /// A pool was asked for with no workers, or with a negative number of them.
    InvalidPoolSize,
    /// A job was handed in after the queue had been closed.
    ChannelClosed,
}

impl PoolError {
    /// A short description, for logs.
    pub fn message(&self) -> (text: &'static str)
        ensures
            text@ == match *self {
                PoolError::InvalidPoolSize => "pool size must be at least 1"@,
                PoolError::ChannelClosed => "the job queue is closed"@,
            },
    {
        match self {
            PoolError::InvalidPoolSize => "pool size must be at least 1",
            PoolError::ChannelClosed => "the job queue is closed",
        }
    }
}

} // verus!
