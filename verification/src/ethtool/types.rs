//! What a statistics read gives: the counters of each queue of each NIC.

use vstd::prelude::*;
use crate::name_map::NameMap;
use crate::name_map::same_name;

verus! {

/// Counters that the library gives no field of their own, by name.
pub type CustomStats = NameMap<u64>;

/// The queues of one NIC, in the order of their indices.
pub type QueueStatsVec = Vec<QueueStats>;

/// The NICs of a host, by interface name.
pub type NicMap = NameMap<NicStats>;

/// The counters of one queue. A counter that the driver does not report is
/// absent.
#[derive(Clone, Debug, PartialEq, Default)]
pub struct QueueStats {
    pub rx_bytes: Option<u64>,
    pub tx_bytes: Option<u64>,
    pub rx_count: Option<u64>,
    pub tx_count: Option<u64>,
    pub tx_missed_tx: Option<u64>,
    pub tx_unmask_interrupt: Option<u64>,
    pub custom_stats: Option<CustomStats>,
}

/// The statistics of one NIC.
#[derive(Clone, Debug, PartialEq, Default)]
pub struct NicStats {
    pub queue: Option<QueueStatsVec>,
    pub tx_timeout: Option<u64>,
    pub custom_stats: Option<CustomStats>,
}

/// One snapshot of the statistics of a host's NICs.
#[derive(Clone, Debug, PartialEq, Default)]
pub struct EthtoolStats {
    pub nic: Option<NicMap>,
}

/// The snapshot under the name that the rate models know it by.
pub type NetStats = EthtoolStats;

/// A queue's counters as plain values.
pub struct QueueStatsView {
    pub rx_bytes: Option<u64>,
    pub tx_bytes: Option<u64>,
    pub rx_count: Option<u64>,
    pub tx_count: Option<u64>,
    pub tx_missed_tx: Option<u64>,
    pub tx_unmask_interrupt: Option<u64>,
    pub custom_stats: Option<Map<Seq<char>, u64>>,
}

/// A NIC's statistics as plain values.
pub struct NicStatsView {
    pub queue: Option<Seq<QueueStatsView>>,
    pub tx_timeout: Option<u64>,
    pub custom_stats: Option<Map<Seq<char>, u64>>,
}

/// A snapshot as plain values.
pub struct EthtoolStatsView {
    pub nic: Option<Map<Seq<char>, NicStatsView>>,
}

impl DeepView for QueueStats {
    type V = QueueStatsView;

    open spec fn deep_view(&self) -> QueueStatsView {
        QueueStatsView {
            rx_bytes: self.rx_bytes,
            tx_bytes: self.tx_bytes,
            rx_count: self.rx_count,
            tx_count: self.tx_count,
            tx_missed_tx: self.tx_missed_tx,
            tx_unmask_interrupt: self.tx_unmask_interrupt,
            custom_stats: self.custom_stats.deep_view(),
        }
    }
}

impl DeepView for NicStats {
    type V = NicStatsView;

    open spec fn deep_view(&self) -> NicStatsView {
        NicStatsView {
            queue: self.queue.deep_view(),
            tx_timeout: self.tx_timeout,
            custom_stats: self.custom_stats.deep_view(),
        }
    }
}

impl DeepView for EthtoolStats {
    type V = EthtoolStatsView;

    open spec fn deep_view(&self) -> EthtoolStatsView {
        EthtoolStatsView { nic: self.nic.deep_view() }
    }
}

/// A queue's counters with none reported.
pub open spec fn no_queue_stats() -> QueueStatsView {
    QueueStatsView {
        rx_bytes: None,
        tx_bytes: None,
        rx_count: None,
        tx_count: None,
        tx_missed_tx: None,
        tx_unmask_interrupt: None,
        custom_stats: None,
    }
}

/// `custom` with `value` under `name`; a mapping is made where there was none.
pub open spec fn custom_inserted(
    custom: Option<Map<Seq<char>, u64>>,
    name: Seq<char>,
    value: u64,
) -> Option<Map<Seq<char>, u64>> {
    match custom {
        Some(m) => Some(m.insert(name, value)),
        None => Some(Map::<Seq<char>, u64>::empty().insert(name, value)),
    }
}

/// The queue's counters after the statistic `name` was seen with `value`:
/// one of the six known names sets its field, any other name goes into the
/// queue's custom mapping.
pub open spec fn stat_inserted(q: QueueStatsView, name: Seq<char>, value: u64) -> QueueStatsView {
    if name == "rx_bytes"@ {
        QueueStatsView { rx_bytes: Some(value), ..q }
    } else if name == "tx_bytes"@ {
        QueueStatsView { tx_bytes: Some(value), ..q }
    } else if name == "rx_cnt"@ {
        QueueStatsView { rx_count: Some(value), ..q }
    } else if name == "tx_cnt"@ {
        QueueStatsView { tx_count: Some(value), ..q }
    } else if name == "tx_missed_tx"@ {
        QueueStatsView { tx_missed_tx: Some(value), ..q }
    } else if name == "tx_unmask_interrupt"@ {
        QueueStatsView { tx_unmask_interrupt: Some(value), ..q }
    } else {
        QueueStatsView { custom_stats: custom_inserted(q.custom_stats, name, value), ..q }
    }
}

/// Puts `value` under `name` into a custom mapping, making the mapping where
/// there was none.
pub fn insert_custom(custom: &mut Option<CustomStats>, name: &str, value: u64)
    ensures
        final(custom).deep_view() == custom_inserted(old(custom).deep_view(), name@, value),
{
    let mut m = match custom.take() {
        Some(m) => m,
        None => NameMap::new(),
    };
    let ghost before = m;
    proof {
        use_type_invariant(&m);
        m.lemma_deep_view();
        if *old(custom) is None {
            assert(m.deep_view() =~= Map::<Seq<char>, u64>::empty());
        }
    }
    m.insert(name.to_owned(), value);
    proof {
        m.lemma_deep_view();
        m.lemma_entries();
        before.lemma_entries();
        assert(m.deep_view() =~= before.deep_view().insert(name@, value));
    }
    *custom = Some(m);
}

/// Records the statistic `name` of one queue: a known name sets its counter,
/// any other name goes into the queue's custom mapping.
pub fn insert_stat(stat: &mut QueueStats, name: &str, value: u64)
    ensures
        final(stat).deep_view() == stat_inserted(old(stat).deep_view(), name@, value),
{
    if same_name(name, "rx_bytes") {
        stat.rx_bytes = Some(value);
    } else if same_name(name, "tx_bytes") {
        stat.tx_bytes = Some(value);
    } else if same_name(name, "rx_cnt") {
        stat.rx_count = Some(value);
    } else if same_name(name, "tx_cnt") {
        stat.tx_count = Some(value);
    } else if same_name(name, "tx_missed_tx") {
        stat.tx_missed_tx = Some(value);
    } else if same_name(name, "tx_unmask_interrupt") {
        stat.tx_unmask_interrupt = Some(value);
    } else {
        insert_custom(&mut stat.custom_stats, name, value);
    }
}

} // verus!
