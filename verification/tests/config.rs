use web_server::config::Config;
use web_server::error::PoolError;
use web_server::pool::WorkerPool;

#[test]
fn standard_settings() {
    let config = Config::standard();
    assert_eq!(config.address, "127.0.0.1:7878");
    assert_eq!(config.worker_count, 4);
    assert_eq!(config.validate(), Ok(()));
}

#[test]
fn standard_settings_make_a_pool_of_four() {
    let config = Config::standard();
    let pool: WorkerPool<u8> = match WorkerPool::new(config.worker_count) {
        Ok(pool) => pool,
        Err(error) => panic!("refused: {:?}", error),
    };
    assert_eq!(pool.size(), 4);
    assert_eq!(pool.live_workers(), 4);
}

#[test]
fn settings_without_workers_are_refused() {
    for worker_count in [0isize, -1, isize::MIN] {
        let config = Config { address: "127.0.0.1:0", worker_count };
        assert_eq!(config.validate(), Err(PoolError::InvalidPoolSize));
        let pool: Result<WorkerPool<u8>, PoolError> = WorkerPool::new(config.worker_count);
        assert_eq!(pool.err(), Some(PoolError::InvalidPoolSize));
    }
}

#[test]
fn settings_with_one_worker_are_accepted() {
    let config = Config { address: "localhost:8080", worker_count: 1 };
    assert_eq!(config.validate(), Ok(()));
}
