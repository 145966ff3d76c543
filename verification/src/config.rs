//! Effective engine options: each getter resolves a configured value
//! against its default.

use vstd::prelude::*;

verus! {

use vstd::string::StringExecFns;

/// Default upper bound of a cache's map size, in bytes.
pub const DEFAULT_CACHE_MAX_MAP_SIZE: u64 = 1073741824;

/// Default milliseconds an epoch may stay open before a commit.
pub const DEFAULT_COMMIT_TIMEOUT: u64 = 50;

/// Default channel buffer between pipeline nodes.
pub const DEFAULT_APP_BUFFER_SIZE: u32 = 20000;

/// Default number of operations per commit.
pub const DEFAULT_COMMIT_SIZE: u32 = 10000;

/// Default number of tolerated per-delta errors.
pub const DEFAULT_ERROR_THRESHOLD: u32 = 0;

/// Default capacity of the checkpoint persist queue.
pub const DEFAULT_PERSIST_QUEUE_CAPACITY: u32 = 100;

/// Default cap on records returned by one query.
pub const DEFAULT_MAX_NUM_RECORDS: usize = 50;

/// Application-level tuning knobs, each optional.
#[derive(Debug)]
pub struct AppConfigOptions {
    pub commit_timeout: Option<u64>,
    pub app_buffer_size: Option<u32>,
    pub commit_size: Option<u32>,
    pub error_threshold: Option<u32>,
    pub persist_queue_capacity: Option<u32>,
    pub data_storage: Option<String>,
}

/// Serving-level tuning knobs.
#[derive(Debug)]
pub struct ApiOptions {
    pub default_max_num_records: Option<usize>,
}

/// The configuration the engine is started with.
#[derive(Debug)]
pub struct Config {
    pub app: AppConfigOptions,
    pub api: ApiOptions,
    pub cache_max_map_size: Option<u64>,
    pub cache_dir: Option<String>,
}

/// Options handed to checkpointing.
#[derive(Debug)]
pub struct CheckpointOptions {
    pub data_storage: Option<String>,
}

/// Options handed to the checkpoint factory.
#[derive(Clone, Copy, PartialEq, Eq, Structural, Debug)]
pub struct CheckpointFactoryOptions {
    pub persist_queue_capacity: usize,
}

/// Options handed to the executor.
#[derive(Debug)]
pub struct ExecutorOptions {
    pub commit_sz: u32,
    pub channel_buffer_sz: usize,
    pub commit_time_threshold_ms: u64,
    pub error_threshold: Option<u32>,
    pub checkpoint_factory_options: CheckpointFactoryOptions,
}

/// Options handed to the cache manager.
#[derive(Debug)]
pub struct CacheManagerOptions {
    pub path: Option<String>,
    pub max_size: usize,
}

/// The effective cache map-size bound.
pub fn get_cache_max_map_size(config: &Config) -> (r: u64)
    ensures
        r == match config.cache_max_map_size {
            Some(v) => v,
            None => DEFAULT_CACHE_MAX_MAP_SIZE,
        },
{
    match config.cache_max_map_size {
        Some(v) => v,
        None => DEFAULT_CACHE_MAX_MAP_SIZE,
    }
}

/// The effective commit time threshold, in milliseconds.
pub fn get_commit_time_threshold(config: &Config) -> (r: u64)
    ensures
        r == match config.app.commit_timeout {
            Some(v) => v,
            None => DEFAULT_COMMIT_TIMEOUT,
        },
{
    match config.app.commit_timeout {
        Some(v) => v,
        None => DEFAULT_COMMIT_TIMEOUT,
    }
}

/// The effective inter-node channel buffer size.
pub fn get_buffer_size(config: &Config) -> (r: u32)
    ensures
        r == match config.app.app_buffer_size {
            Some(v) => v,
            None => DEFAULT_APP_BUFFER_SIZE,
        },
{
    match config.app.app_buffer_size {
        Some(v) => v,
        None => DEFAULT_APP_BUFFER_SIZE,
    }
}

/// The effective operations-per-commit count.
pub fn get_commit_size(config: &Config) -> (r: u32)
    ensures
        r == match config.app.commit_size {
            Some(v) => v,
            None => DEFAULT_COMMIT_SIZE,
        },
{
    match config.app.commit_size {
        Some(v) => v,
        None => DEFAULT_COMMIT_SIZE,
    }
}

/// The effective per-delta error threshold.
pub fn get_error_threshold(config: &Config) -> (r: u32)
    ensures
        r == match config.app.error_threshold {
            Some(v) => v,
            None => DEFAULT_ERROR_THRESHOLD,
        },
{
    match config.app.error_threshold {
        Some(v) => v,
        None => DEFAULT_ERROR_THRESHOLD,
    }
}

/// The options checkpointing runs with.
pub fn get_checkpoint_options(config: &Config) -> (r: CheckpointOptions)
    ensures
        match (&r.data_storage, &config.app.data_storage) {
            (Some(a), Some(b)) => a@ == b@,
            (None, None) => true,
            _ => false,
        },
{
    let data_storage = match &config.app.data_storage {
        Some(s) => Some(s.clone()),
        None => None,
    };
    CheckpointOptions { data_storage }
}

/// The options the checkpoint factory runs with.
pub fn get_checkpoint_factory_options(config: &Config) -> (r: CheckpointFactoryOptions)
    ensures
        r.persist_queue_capacity == match config.app.persist_queue_capacity {
            Some(v) => v as usize,
            None => DEFAULT_PERSIST_QUEUE_CAPACITY as usize,
        },
{
    let cap: u32 = match config.app.persist_queue_capacity {
        Some(v) => v,
        None => DEFAULT_PERSIST_QUEUE_CAPACITY,
    };
    CheckpointFactoryOptions { persist_queue_capacity: cap as usize }
}

/// The options the executor runs with.
pub fn get_executor_options(config: &Config) -> (r: ExecutorOptions)
    ensures
        r.commit_sz == match config.app.commit_size {
            Some(v) => v,
            None => DEFAULT_COMMIT_SIZE,
        },
        r.channel_buffer_sz == match config.app.app_buffer_size {
            Some(v) => v as usize,
            None => DEFAULT_APP_BUFFER_SIZE as usize,
        },
        r.commit_time_threshold_ms == match config.app.commit_timeout {
            Some(v) => v,
            None => DEFAULT_COMMIT_TIMEOUT,
        },
        r.error_threshold == Some(
            match config.app.error_threshold {
                Some(v) => v,
                None => DEFAULT_ERROR_THRESHOLD,
            },
        ),
        r.checkpoint_factory_options.persist_queue_capacity == match config
            .app
            .persist_queue_capacity {
            Some(v) => v as usize,
            None => DEFAULT_PERSIST_QUEUE_CAPACITY as usize,
        },
{
    ExecutorOptions {
        commit_sz: get_commit_size(config),
        channel_buffer_sz: get_buffer_size(config) as usize,
        commit_time_threshold_ms: get_commit_time_threshold(config),
        error_threshold: Some(get_error_threshold(config)),
        checkpoint_factory_options: get_checkpoint_factory_options(config),
    }
}

/// The options the cache manager runs with: the configured cache
/// directory (or the default one under the engine's home) and the
/// effective map-size bound.
pub fn get_cache_manager_options(config: &Config) -> (r: CacheManagerOptions)
    ensures
        r.path matches Some(p) && p@ == match &config.cache_dir {
            Some(d) => d@,
            None => "./.cache"@,
        },
        r.max_size == match config.cache_max_map_size {
            Some(v) => v as usize,
            None => DEFAULT_CACHE_MAX_MAP_SIZE as usize,
        },
{
    let path = match &config.cache_dir {
        Some(d) => d.clone(),
        None => "./.cache".to_string(),
    };
    let max = get_cache_max_map_size(config);
    CacheManagerOptions { path: Some(path), max_size: max as usize }
}

/// The effective cap on records returned by one query.
pub fn get_default_max_num_records(config: &Config) -> (r: usize)
    ensures
        r == match config.api.default_max_num_records {
            Some(v) => v,
            None => DEFAULT_MAX_NUM_RECORDS,
        },
{
    match config.api.default_max_num_records {
        Some(v) => v,
        None => DEFAULT_MAX_NUM_RECORDS,
    }
}

} // verus!
