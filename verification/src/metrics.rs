//! Counters of what was sent, published and received.
//!
//! Each count is kept twice: as a number of the library, which the
//! contracts speak of, and as a counter of the metrics registry, which is
//! raised by the same amount and which the host scrapes.

use vstd::prelude::*;
use prometheus_client::metrics::counter::Counter;
use prometheus_client::registry::Registry;
use std::sync::atomic::AtomicU64;

verus! {

/// `prometheus_client::metrics::counter::Counter`: a handle to a number
/// that the registry shares; nothing of it is seen.
#[verifier::external_type_specification]
#[verifier::external_body]
#[verifier::reject_recursive_types(N)]
#[verifier::reject_recursive_types(A)]
pub struct ExCounter<N, A>(Counter<N, A>);

/// `prometheus_client::registry::Registry`: nothing of it is seen.
#[verifier::external_type_specification]
#[verifier::external_body]
pub struct ExRegistry(Registry);

/// Calls `Counter::default`: a counter of its own. Nothing is claimed of it.
#[verifier::external_body]
fn new_counter() -> Counter<u64, AtomicU64> {
    Counter::default()
}

/// Calls `Registry::register` with a handle to `counter`, which appends the
/// metric to the registry's own list under the name that is given: the
/// registry lists `name` after the names that it listed before. Nothing is
/// claimed of the help text or of the metric.
#[verifier::external_body]
fn register_counter(registry: &mut Registry, name: &str, help: &str, counter: &Counter<u64, AtomicU64>)
    ensures
        registered_names(*final(registry)) == registered_names(*old(registry)).push(name@),
{
    registry.register(name, help, counter.clone());
}

/// Calls `Counter::inc`. The counter is shared with the registry, so nothing
/// is claimed of what it holds.
#[verifier::external_body]
fn counter_inc(counter: &Counter<u64, AtomicU64>) {
    counter.inc();
}

/// Calls `Counter::inc_by`. The counter is shared with the registry, so
/// nothing is claimed of what it holds.
#[verifier::external_body]
fn counter_inc_by(counter: &Counter<u64, AtomicU64>, by: u64) {
    counter.inc_by(by);
}

/// The six counts. Like the counters of the registry they wrap around after
/// the largest 64-bit number.
#[derive(Debug, Clone, Copy, PartialEq, Eq, Structural)]
pub struct Counts {
    /// Transactions handed to a queue, published or forwarded.
    pub txs_sent_counts: u64,
    /// The bytes of their content.
    pub txs_sent_bytes: u64,
    /// Transactions of the local node that were published.
    pub txs_sent_published: u64,
    /// Transactions received, duplicates included.
    pub txs_recv_counts_unfiltered: u64,
    /// Transactions received for the first time.
    pub txs_recv_counts: u64,
    /// The bytes of the content of all transactions received.
    pub txs_recv_bytes: u64,
}

impl Counts {
    pub open spec fn zero() -> Counts {
        Counts {
            txs_sent_counts: 0,
            txs_sent_bytes: 0,
            txs_sent_published: 0,
            txs_recv_counts_unfiltered: 0,
            txs_recv_counts: 0,
            txs_recv_bytes: 0,
        }
    }

    /// The counts after one transaction of `bytes` bytes was sent.
    pub open spec fn spec_tx_sent(self, bytes: usize) -> Counts {
        Counts {
            txs_sent_counts: self.txs_sent_counts.wrapping_add(1),
            txs_sent_bytes: self.txs_sent_bytes.wrapping_add(bytes as u64),
            ..self
        }
    }

    /// The counts after one transaction was published.
    pub open spec fn spec_published(self) -> Counts {
        Counts { txs_sent_published: self.txs_sent_published.wrapping_add(1), ..self }
    }

    /// The counts after one transaction of `bytes` bytes was received.
    pub open spec fn spec_tx_recv_unfiltered(self, bytes: usize) -> Counts {
        Counts {
            txs_recv_counts_unfiltered: self.txs_recv_counts_unfiltered.wrapping_add(1),
            txs_recv_bytes: self.txs_recv_bytes.wrapping_add(bytes as u64),
            ..self
        }
    }

    /// The counts after one transaction was received for the first time.
    pub open spec fn spec_tx_recv(self) -> Counts {
        Counts { txs_recv_counts: self.txs_recv_counts.wrapping_add(1), ..self }
    }
}

/// The counts and their counters in the registry.
pub struct Metrics {
    counts: Counts,
    txs_sent_counts: Counter<u64, AtomicU64>,
    txs_sent_bytes: Counter<u64, AtomicU64>,
    txs_sent_published: Counter<u64, AtomicU64>,
    txs_recv_counts_unfiltered: Counter<u64, AtomicU64>,
    txs_recv_counts: Counter<u64, AtomicU64>,
    txs_recv_bytes: Counter<u64, AtomicU64>,
}

impl View for Metrics {
    type V = Counts;

    closed spec fn view(&self) -> Counts {
        self.counts
    }
}

impl Metrics {
    /// Six counters at zero, each registered under its name.
    pub fn new(registry: &mut Registry) -> (r: Self)
        ensures
            r@ == Counts::zero(),
            registered_names(*final(registry)) == registered_names(*old(registry))
                + spec_metric_names(),
    {
        let ghost before = registered_names(*registry);
        let txs_sent_counts = new_counter();
        let txs_sent_bytes = new_counter();
        let txs_sent_published = new_counter();
        let txs_recv_counts_unfiltered = new_counter();
        let txs_recv_counts = new_counter();
        let txs_recv_bytes = new_counter();
        register_counter(
            registry,
            "txs_sent_counts",
            "Number of transactions sent.",
            &txs_sent_counts,
        );
        register_counter(registry, "txs_sent_bytes", "Number of bytes sent.", &txs_sent_bytes);
        register_counter(
            registry,
            "txs_sent_published",
            "Number of published transactions.",
            &txs_sent_published,
        );
        register_counter(
            registry,
            "txs_recv_counts_unfiltered",
            "Number of transactions received (without filtering duplicates).",
            &txs_recv_counts_unfiltered,
        );
        register_counter(
            registry,
            "txs_recv_counts",
            "Number of transactions received (after filtering duplicates).",
            &txs_recv_counts,
        );
        register_counter(registry, "txs_recv_bytes", "Number of bytes received.", &txs_recv_bytes);
        assert(registered_names(*registry) =~= before + spec_metric_names());
        Metrics {
            counts: Counts {
                txs_sent_counts: 0,
                txs_sent_bytes: 0,
                txs_sent_published: 0,
                txs_recv_counts_unfiltered: 0,
                txs_recv_counts: 0,
                txs_recv_bytes: 0,
            },
            txs_sent_counts,
            txs_sent_bytes,
            txs_sent_published,
            txs_recv_counts_unfiltered,
            txs_recv_counts,
            txs_recv_bytes,
        }
    }

    /// The counts as they stand.
    pub fn counts(&self) -> (r: Counts)
        ensures
            r == self@,
    {
        self.counts
    }

    /// Counts one transaction of `bytes` bytes as sent.
    pub fn tx_sent(&mut self, bytes: usize)
        ensures
            final(self)@ == old(self)@.spec_tx_sent(bytes),
    {
        self.counts.txs_sent_counts = self.counts.txs_sent_counts.wrapping_add(1);
        self.counts.txs_sent_bytes = self.counts.txs_sent_bytes.wrapping_add(bytes as u64);
        counter_inc(&self.txs_sent_counts);
        counter_inc_by(&self.txs_sent_bytes, bytes as u64);
    }

    /// Counts one transaction as published.
    pub fn register_published_tx(&mut self)
        ensures
            final(self)@ == old(self)@.spec_published(),
    {
        self.counts.txs_sent_published = self.counts.txs_sent_published.wrapping_add(1);
        counter_inc(&self.txs_sent_published);
    }

    /// Counts one transaction of `bytes` bytes as received, duplicate or not.
    pub fn tx_recv_unfiltered(&mut self, bytes: usize)
        ensures
            final(self)@ == old(self)@.spec_tx_recv_unfiltered(bytes),
    {
        self.counts.txs_recv_counts_unfiltered =
        self.counts.txs_recv_counts_unfiltered.wrapping_add(1);
        self.counts.txs_recv_bytes = self.counts.txs_recv_bytes.wrapping_add(bytes as u64);
        counter_inc(&self.txs_recv_counts_unfiltered);
        counter_inc_by(&self.txs_recv_bytes, bytes as u64);
    }

    /// Counts one transaction as received for the first time.
    pub fn tx_recv(&mut self)
        ensures
            final(self)@ == old(self)@.spec_tx_recv(),
    {
        self.counts.txs_recv_counts = self.counts.txs_recv_counts.wrapping_add(1);
        counter_inc(&self.txs_recv_counts);
    }
}

/// The names under which metrics were registered with a registry itself,
/// in the order of their registration, each as it was given.
pub uninterp spec fn registered_names(registry: Registry) -> Seq<Seq<char>>;

/// The names of the six counters, in the order of their registration.
pub open spec fn spec_metric_names() -> Seq<Seq<char>> {
    seq![
        "txs_sent_counts"@,
        "txs_sent_bytes"@,
        "txs_sent_published"@,
        "txs_recv_counts_unfiltered"@,
        "txs_recv_counts"@,
        "txs_recv_bytes"@,
    ]
}

} // verus!
