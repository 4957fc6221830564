//! The server's settings.
use vstd::prelude::*;
use crate::error::PoolError;

verus! {

/// Where the server listens and how many workers it keeps.
#[derive(Debug, Clone, Copy, PartialEq, Eq)]
pub struct Config {
    /// The socket address to listen on.
    pub address: &'static str,
    /// The number of workers of the pool.
    pub worker_count: isize,
}

impl Config {
    /// The settings that the server starts with: the loopback address
    /// `127.0.0.1:7878`, and four workers.
    pub fn standard() -> (config: Config)
        ensures
            config.address@ == "127.0.0.1:7878"@,
            config.worker_count == 4,
            config.is_valid(),
    {
        Config { address: "127.0.0.1:7878", worker_count: 4 }
    }

    /// The settings name at least one worker.
    pub open spec fn is_valid(&self) -> bool {
        self.worker_count >= 1
    }

    /// Says whether a pool can be made with these settings, and if not, why.
    pub fn validate(&self) -> (result: Result<(), PoolError>)
        ensures
            result == if self.is_valid() {
                Ok::<(), PoolError>(())
            } else {
                Err::<(), PoolError>(PoolError::InvalidPoolSize)
            },
    {
        if self.worker_count >= 1 {
            Ok(())
        } else {
            Err(PoolError::InvalidPoolSize)
        }
    }
}

} // verus!
