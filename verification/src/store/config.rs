//! Configurations of the local store and of the remote store client & server.
//! Durations are in milliseconds unless their name says otherwise.
use vstd::prelude::*;

verus! {

/// Configuration of the local `Store`.
#[derive(Debug, Clone, Copy, PartialEq, Eq, Structural)]
pub struct StoreConfig {
    /// Size of the channel of queries to be executed.
    pub query_channel_size: usize,
    /// Maximum number of queries to execute in parallel.
    pub query_parallelism: usize,
    /// Size of the result channel of each watched query.
    pub handle_watch_query_channel_size: usize,
    /// Maximum number of events from chain engine to batch together if more are available.
    pub chain_events_batch_size: usize,
    /// Timeout for mutations that were awaiting for entities to be returned.
    pub mutation_tracker_timeout_ms: u64,
    /// How often the garbage collection process will run.
    pub garbage_collect_interval_ms: u64,
}

/// Garbage collector section of a node's entity index configuration.
#[derive(Debug, Clone, Copy, PartialEq, Eq, Structural)]
pub struct NodeGarbageCollectorConfig {
    pub run_interval_secs: Option<u32>,
    pub queue_size: Option<u32>,
}

/// Entity index section of a node's store configuration.
#[derive(Debug, Clone, Copy, PartialEq, Eq, Structural)]
pub struct NodeEntityIndexConfig {
    pub garbage_collector: Option<NodeGarbageCollectorConfig>,
}

/// Store section of a node's configuration.
#[derive(Debug, Clone, Copy, PartialEq, Eq, Structural)]
pub struct NodeStoreConfig {
    pub query_parallelism: Option<u32>,
    pub index: Option<NodeEntityIndexConfig>,
}

impl StoreConfig {
    pub open spec fn spec_default() -> StoreConfig {
        StoreConfig {
            query_channel_size: 1000,
            query_parallelism: 4,
            handle_watch_query_channel_size: 100,
            chain_events_batch_size: 50,
            mutation_tracker_timeout_ms: 5000,
            garbage_collect_interval_ms: 33000,
        }
    }

    pub fn default() -> (res: StoreConfig)
        ensures
            res == Self::spec_default(),
    {
        StoreConfig {
            query_channel_size: 1000,
            query_parallelism: 4,
            handle_watch_query_channel_size: 100,
            chain_events_batch_size: 50,
            mutation_tracker_timeout_ms: 5000,
            garbage_collect_interval_ms: 33000,
        }
    }

    /// Configuration from a node's store configuration: the query parallelism
    /// and the garbage collection interval can be set there, the rest is the
    /// default.
    pub fn from_proto(proto: NodeStoreConfig) -> (res: StoreConfig)
        ensures
            res.query_parallelism == (match proto.query_parallelism {
                Some(v) => v as usize,
                None => 4usize,
            }),
            res.garbage_collect_interval_ms == (match proto.index {
                Some(NodeEntityIndexConfig { garbage_collector: Some(NodeGarbageCollectorConfig { run_interval_secs: Some(v), .. }) }) => v as u64 * 1000,
                _ => 33000int,
            }),
            res.query_channel_size == 1000,
            res.handle_watch_query_channel_size == 100,
            res.chain_events_batch_size == 50,
            res.mutation_tracker_timeout_ms == 5000,
    {
        let mut config = StoreConfig::default();
        if let Some(v) = proto.query_parallelism {
            config.query_parallelism = v as usize;
        }
        if let Some(index) = proto.index {
            if let Some(gc) = index.garbage_collector {
                if let Some(v) = gc.run_interval_secs {
                    config.garbage_collect_interval_ms = (v as u64) * 1000;
                }
            }
        }
        config
    }
}

/// Configuration of the remote store client.
#[derive(Debug, Clone, Copy, PartialEq, Eq, Structural)]
pub struct ClientConfiguration {
    pub query_timeout_ms: u64,
    pub mutation_timeout_ms: u64,
    pub management_interval_ms: u64,
    pub watched_queries_register_interval_ms: u64,
    pub watched_query_channel_size: usize,
}

impl ClientConfiguration {
    /// Queries time out after 10 seconds, mutations after 5, management runs
    /// every second and watched queries get registered again every 10 seconds.
    pub fn default() -> (res: ClientConfiguration)
        ensures
            res == (ClientConfiguration {
                query_timeout_ms: 10_000,
                mutation_timeout_ms: 5_000,
                management_interval_ms: 1_000,
                watched_queries_register_interval_ms: 10_000,
                watched_query_channel_size: 1000,
            }),
    {
        ClientConfiguration {
            query_timeout_ms: 10_000,
            mutation_timeout_ms: 5_000,
            management_interval_ms: 1_000,
            watched_queries_register_interval_ms: 10_000,
            watched_query_channel_size: 1000,
        }
    }
}

/// Configuration of the remote store server.
#[derive(Debug, Clone, Copy, PartialEq, Eq, Structural)]
pub struct ServerConfiguration {
    pub watched_queries_register_timeout_ms: u64,
    pub management_timer_interval_ms: u64,
}

impl ServerConfiguration {
    /// Watched queries time out 20 seconds after their last registration;
    /// management runs every 500 milliseconds.
    pub fn default() -> (res: ServerConfiguration)
        ensures
            res == (ServerConfiguration { watched_queries_register_timeout_ms: 20_000, management_timer_interval_ms: 500 }),
    {
        ServerConfiguration { watched_queries_register_timeout_ms: 20_000, management_timer_interval_ms: 500 }
    }
}

} // verus!
