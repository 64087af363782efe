//! Configuration of a node.

use vstd::prelude::*;
use crate::peer::PeerId;

verus! {

/// One second, in the unit of every time and duration here: nanoseconds.
pub const SECOND: u64 = 1_000_000_000;

/// The unit of a redundancy ratio: a value of 1000 stands for one duplicate
/// per first-time reception.
pub const REDUNDANCY_UNIT: u32 = 1000;

/// How much of an incoming transaction is checked.
#[derive(Debug, Clone, Copy, PartialEq, Eq, Structural)]
pub enum ValidationMode {
    /// The `from` field must hold a peer id.
    Strict,
    /// Nothing is checked: a peer id drawn at random stands for the origin.
    /// For debugging only.
    Unchecked,
}

/// The configuration of the protocol.
#[derive(Debug, Clone, Copy, PartialEq, Eq, Structural)]
pub struct Config {
    pub target_redundancy: u32,
    pub redundancy_delta_percent: u8,
    pub redundancy_interval: u64,
    pub max_transmit_size: usize,
    pub connection_handler_queue_len: usize,
    pub publish_queue_duration: u64,
    pub forward_queue_duration: u64,
    pub duplicate_cache_time: u64,
    pub validation_mode: ValidationMode,
    pub forward_transactions: bool,
    pub max_transactions_per_rpc: Option<usize>,
}

impl Config {
    /// The values that hold where nothing else is asked for.
    pub open spec fn spec_default() -> Config {
        Config {
            target_redundancy: 1000,
            redundancy_delta_percent: 10,
            redundancy_interval: 1_000_000_000,
            max_transmit_size: 65536,
            connection_handler_queue_len: 128,
            publish_queue_duration: 10_000_000_000,
            forward_queue_duration: 10_000_000_000,
            duplicate_cache_time: 60_000_000_000,
            validation_mode: ValidationMode::Strict,
            forward_transactions: true,
            max_transactions_per_rpc: None,
        }
    }

    /// The ratio of duplicate to first-time receptions to steer towards, in
    /// thousandths.
    pub fn target_redundancy(&self) -> (r: u32)
        ensures
            r == self.target_redundancy,
    {
        self.target_redundancy
    }

    /// The half width of the band around the target that needs no correction,
    /// in percent of the target.
    pub fn redundancy_delta_percent(&self) -> (r: u8)
        ensures
            r == self.redundancy_delta_percent,
    {
        self.redundancy_delta_percent
    }

    /// The time between two evaluations of the redundancy.
    pub fn redundancy_interval(&self) -> (r: u64)
        ensures
            r == self.redundancy_interval,
    {
        self.redundancy_interval
    }

    /// The largest frame, and the largest transformed transaction, in bytes.
    pub fn max_transmit_size(&self) -> (r: usize)
        ensures
            r == self.max_transmit_size,
    {
        self.max_transmit_size
    }

    /// The capacity of the outbound queue of each peer.
    pub fn connection_handler_queue_len(&self) -> (r: usize)
        ensures
            r == self.connection_handler_queue_len,
    {
        self.connection_handler_queue_len
    }

    /// How long a published transaction may wait in a queue.
    pub fn publish_queue_duration(&self) -> (r: u64)
        ensures
            r == self.publish_queue_duration,
    {
        self.publish_queue_duration
    }

    /// How long a forwarded transaction may wait in a queue.
    pub fn forward_queue_duration(&self) -> (r: u64)
        ensures
            r == self.forward_queue_duration,
    {
        self.forward_queue_duration
    }

    /// How long the identifier of a transaction is remembered.
    pub fn duplicate_cache_time(&self) -> (r: u64)
        ensures
            r == self.duplicate_cache_time,
    {
        self.duplicate_cache_time
    }

    /// How much of an incoming transaction is checked.
    pub fn validation_mode(&self) -> (r: ValidationMode)
        ensures
            r == self.validation_mode,
    {
        self.validation_mode
    }

    /// Whether the node relays what it receives. A node that does not is a
    /// leaf.
    pub fn forward_transactions(&self) -> (r: bool)
        ensures
            r == self.forward_transactions,
    {
        self.forward_transactions
    }

    /// The number of transactions of one RPC that are handled; the rest is
    /// ignored. `None` is no limit.
    pub fn max_transactions_per_rpc(&self) -> (r: Option<usize>)
        ensures
            r == self.max_transactions_per_rpc,
    {
        self.max_transactions_per_rpc
    }
}

impl Config {
    /// What a stream to a peer is upgraded with under this configuration.
    pub fn protocol_config(&self) -> (r: crate::protocol::ProtocolConfig)
        ensures
            r == (crate::protocol::ProtocolConfig {
                max_transmit_size: self.max_transmit_size,
                validation_mode: self.validation_mode,
            }),
    {
        crate::protocol::ProtocolConfig {
            max_transmit_size: self.max_transmit_size,
            validation_mode: self.validation_mode,
        }
    }
}

impl Default for Config {
    fn default() -> (r: Self)
        ensures
            r == Config::spec_default(),
    {
        Config {
            target_redundancy: 1000,
            redundancy_delta_percent: 10,
            redundancy_interval: 1_000_000_000,
            max_transmit_size: 65536,
            connection_handler_queue_len: 128,
            publish_queue_duration: 10_000_000_000,
            forward_queue_duration: 10_000_000_000,
            duplicate_cache_time: 60_000_000_000,
            validation_mode: ValidationMode::Strict,
            forward_transactions: true,
            max_transactions_per_rpc: None,
        }
    }
}

/// Builds a [`Config`] from the default, one setting at a time.
#[derive(Debug, Clone, Copy, PartialEq, Eq, Structural)]
pub struct ConfigBuilder {
    config: Config,
}

impl Default for ConfigBuilder {
    fn default() -> (r: Self)
        ensures
            r.spec_build() == Config::spec_default(),
    {
        ConfigBuilder { config: Config::default() }
    }
}

impl ConfigBuilder {
    /// The configuration that the builder holds.
    pub closed spec fn spec_build(self) -> Config {
        self.config
    }

    pub fn target_redundancy(self, target_redundancy: u32) -> (r: Self)
        ensures
            r.spec_build() == (Config { target_redundancy, ..self.spec_build() }),
    {
        ConfigBuilder { config: Config { target_redundancy, ..self.config } }
    }

    pub fn redundancy_delta_percent(self, redundancy_delta_percent: u8) -> (r: Self)
        ensures
            r.spec_build() == (Config { redundancy_delta_percent, ..self.spec_build() }),
    {
        ConfigBuilder { config: Config { redundancy_delta_percent, ..self.config } }
    }

    pub fn redundancy_interval(self, redundancy_interval: u64) -> (r: Self)
        ensures
            r.spec_build() == (Config { redundancy_interval, ..self.spec_build() }),
    {
        ConfigBuilder { config: Config { redundancy_interval, ..self.config } }
    }

    pub fn max_transmit_size(self, max_transmit_size: usize) -> (r: Self)
        ensures
            r.spec_build() == (Config { max_transmit_size, ..self.spec_build() }),
    {
        ConfigBuilder { config: Config { max_transmit_size, ..self.config } }
    }

    pub fn connection_handler_queue_len(self, connection_handler_queue_len: usize) -> (r: Self)
        ensures
            r.spec_build() == (Config { connection_handler_queue_len, ..self.spec_build() }),
    {
        ConfigBuilder { config: Config { connection_handler_queue_len, ..self.config } }
    }

    pub fn publish_queue_duration(self, publish_queue_duration: u64) -> (r: Self)
        ensures
            r.spec_build() == (Config { publish_queue_duration, ..self.spec_build() }),
    {
        ConfigBuilder { config: Config { publish_queue_duration, ..self.config } }
    }

    pub fn forward_queue_duration(self, forward_queue_duration: u64) -> (r: Self)
        ensures
            r.spec_build() == (Config { forward_queue_duration, ..self.spec_build() }),
    {
        ConfigBuilder { config: Config { forward_queue_duration, ..self.config } }
    }

    pub fn duplicate_cache_time(self, duplicate_cache_time: u64) -> (r: Self)
        ensures
            r.spec_build() == (Config { duplicate_cache_time, ..self.spec_build() }),
    {
        ConfigBuilder { config: Config { duplicate_cache_time, ..self.config } }
    }

    pub fn validation_mode(self, validation_mode: ValidationMode) -> (r: Self)
        ensures
            r.spec_build() == (Config { validation_mode, ..self.spec_build() }),
    {
        ConfigBuilder { config: Config { validation_mode, ..self.config } }
    }

    pub fn forward_transactions(self, forward_transactions: bool) -> (r: Self)
        ensures
            r.spec_build() == (Config { forward_transactions, ..self.spec_build() }),
    {
        ConfigBuilder { config: Config { forward_transactions, ..self.config } }
    }

    pub fn max_transactions_per_rpc(self, max_transactions_per_rpc: Option<usize>) -> (r: Self)
        ensures
            r.spec_build() == (Config { max_transactions_per_rpc, ..self.spec_build() }),
    {
        ConfigBuilder { config: Config { max_transactions_per_rpc, ..self.config } }
    }

    /// The configuration that was built.
    pub fn build(self) -> (r: Config)
        ensures
            r == self.spec_build(),
    {
        self.config
    }
}

/// The configuration of the flooding layer: the identity of the local node.
#[derive(Debug)]
pub struct DogConfig {
    pub local_peer_id: PeerId,
}

impl DogConfig {
    pub fn new(local_peer_id: PeerId) -> (r: Self)
        ensures
            r.local_peer_id@ == local_peer_id@,
    {
        DogConfig { local_peer_id }
    }
}

} // verus!
