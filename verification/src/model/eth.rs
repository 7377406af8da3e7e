//! The rates of each NIC and of each of its queues, with the names that say
//! what they belong to.

use vstd::prelude::*;
use crate::ethtool::types::EthtoolStats;
use crate::ethtool::types::EthtoolStatsView;
use crate::ethtool::types::NicStats;
use crate::ethtool::types::NicStatsView;
use crate::ethtool::types::QueueStats;
use crate::ethtool::types::QueueStatsView;
use crate::model::Elapsed;
use crate::model::get_option_rate;
use crate::model::option_rate;
use crate::model::pair_queues;
use crate::model::pairing_of;
use crate::model::queue_count;
use crate::model::QueuePairing;
use crate::name_map::NameMap;

verus! {

/// The rates of the NICs of a host, by interface name.
#[derive(Clone, Debug, PartialEq, Default)]
pub struct EthtoolModel {
    pub nic: NameMap<NicModel>,
}

/// The rates of one NIC and of its queues.
#[derive(Clone, Debug, PartialEq, Default)]
pub struct NicModel {
    pub nic: SingleNicModel,
    pub queues: Vec<SingleQueueModel>,
}

/// The rates of one NIC.
#[derive(Clone, Debug, PartialEq, Default)]
pub struct SingleNicModel {
    pub interface: String,
    pub tx_timeout_per_sec: Option<u64>,
}

/// The rates of one queue.
#[derive(Clone, Debug, PartialEq, Default)]
pub struct SingleQueueModel {
    pub interface: String,
    pub queue_id: u32,
    pub rx_bytes_per_sec: Option<u64>,
    pub tx_bytes_per_sec: Option<u64>,
    pub rx_count_per_sec: Option<u64>,
    pub tx_count_per_sec: Option<u64>,
    pub tx_missed_tx: Option<u64>,
    pub tx_unmask_interrupt: Option<u64>,
}

/// The rates of one queue as plain values.
pub struct SingleQueueModelView {
    pub interface: Seq<char>,
    pub queue_id: u32,
    pub rx_bytes_per_sec: Option<u64>,
    pub tx_bytes_per_sec: Option<u64>,
    pub rx_count_per_sec: Option<u64>,
    pub tx_count_per_sec: Option<u64>,
    pub tx_missed_tx: Option<u64>,
    pub tx_unmask_interrupt: Option<u64>,
}

/// The rates of one NIC as plain values.
pub struct SingleNicModelView {
    pub interface: Seq<char>,
    pub tx_timeout_per_sec: Option<u64>,
}

/// The rates of one NIC and of its queues as plain values.
pub struct NicModelView {
    pub nic: SingleNicModelView,
    pub queues: Seq<SingleQueueModelView>,
}

/// The rates of the NICs of a host as plain values.
pub struct EthtoolModelView {
    pub nic: Map<Seq<char>, NicModelView>,
}

impl DeepView for SingleQueueModel {
    type V = SingleQueueModelView;

    open spec fn deep_view(&self) -> SingleQueueModelView {
        SingleQueueModelView {
            interface: self.interface@,
            queue_id: self.queue_id,
            rx_bytes_per_sec: self.rx_bytes_per_sec,
            tx_bytes_per_sec: self.tx_bytes_per_sec,
            rx_count_per_sec: self.rx_count_per_sec,
            tx_count_per_sec: self.tx_count_per_sec,
            tx_missed_tx: self.tx_missed_tx,
            tx_unmask_interrupt: self.tx_unmask_interrupt,
        }
    }
}

impl DeepView for SingleNicModel {
    type V = SingleNicModelView;

    open spec fn deep_view(&self) -> SingleNicModelView {
        SingleNicModelView {
            interface: self.interface@,
            tx_timeout_per_sec: self.tx_timeout_per_sec,
        }
    }
}

impl DeepView for NicModel {
    type V = NicModelView;

    open spec fn deep_view(&self) -> NicModelView {
        NicModelView { nic: self.nic.deep_view(), queues: self.queues.deep_view() }
    }
}

impl DeepView for EthtoolModel {
    type V = EthtoolModelView;

    open spec fn deep_view(&self) -> EthtoolModelView {
        EthtoolModelView { nic: self.nic.deep_view() }
    }
}

/// Most queues of one NIC that a model holds: as many as a queue index of
/// 32 bits can tell apart.
pub open spec fn queue_limit() -> nat {
    0x1_0000_0000
}

/// `n`, but no more than the most queues that a model holds.
pub open spec fn capped(n: nat) -> nat {
    if n <= queue_limit() {
        n
    } else {
        queue_limit()
    }
}

/// The earlier reading of a counter of a queue, with the time since.
pub open spec fn earlier(
    last: Option<(QueueStatsView, u128)>,
    field: spec_fn(QueueStatsView) -> Option<u64>,
) -> Option<(Option<u64>, u128)> {
    match last {
        Some((previous, nanos)) => Some((field(previous), nanos)),
        None => None,
    }
}

/// The model of the queue `queue_id` of `interface`: the rates of its four
/// traffic counters since `last`, and its two other counters as the later
/// snapshot holds them.
pub open spec fn queue_model(
    interface: Seq<char>,
    queue_id: u32,
    sample: QueueStatsView,
    last: Option<(QueueStatsView, u128)>,
) -> SingleQueueModelView {
    SingleQueueModelView {
        interface,
        queue_id,
        rx_bytes_per_sec: option_rate(
            sample.rx_bytes,
            earlier(last, |q: QueueStatsView| q.rx_bytes),
        ),
        tx_bytes_per_sec: option_rate(
            sample.tx_bytes,
            earlier(last, |q: QueueStatsView| q.tx_bytes),
        ),
        rx_count_per_sec: option_rate(
            sample.rx_count,
            earlier(last, |q: QueueStatsView| q.rx_count),
        ),
        tx_count_per_sec: option_rate(
            sample.tx_count,
            earlier(last, |q: QueueStatsView| q.tx_count),
        ),
        tx_missed_tx: sample.tx_missed_tx,
        tx_unmask_interrupt: sample.tx_unmask_interrupt,
    }
}

/// The model of the NIC behind `interface` without its queues.
pub open spec fn single_nic_model(
    interface: Seq<char>,
    sample: NicStatsView,
    last: Option<(NicStatsView, u128)>,
) -> SingleNicModelView {
    SingleNicModelView {
        interface,
        tx_timeout_per_sec: option_rate(
            sample.tx_timeout,
            match last {
                Some((previous, nanos)) => Some((previous.tx_timeout, nanos)),
                None => None,
            },
        ),
    }
}

/// The models of the queues of `interface`. Without an earlier snapshot each
/// queue of the later one has a model, without rates. With one, the queues
/// are paired by position, and only where the two sequences match: else
/// there is no model of any queue.
pub open spec fn queue_models(
    interface: Seq<char>,
    sample: NicStatsView,
    last: Option<(NicStatsView, u128)>,
) -> Seq<SingleQueueModelView> {
    match last {
        None => match sample.queue {
            Some(queues) => Seq::new(
                capped(queues.len()),
                |i: int| queue_model(interface, i as u32, queues[i], None),
            ),
            None => Seq::empty(),
        },
        Some((previous, nanos)) => match pairing_of(
            queue_count(sample.queue),
            queue_count(previous.queue),
        ) {
            QueuePairing::Matched => Seq::new(
                capped(sample.queue.unwrap().len()),
                |i: int|
                    queue_model(
                        interface,
                        i as u32,
                        sample.queue.unwrap()[i],
                        Some((previous.queue.unwrap()[i], nanos)),
                    ),
            ),
            _ => Seq::empty(),
        },
    }
}

/// The model of the NIC behind `interface`.
pub open spec fn nic_model(
    interface: Seq<char>,
    sample: NicStatsView,
    last: Option<(NicStatsView, u128)>,
) -> NicModelView {
    NicModelView {
        nic: single_nic_model(interface, sample, last),
        queues: queue_models(interface, sample, last),
    }
}

/// The model of a host's NICs. Without an earlier snapshot each interface of
/// the later one has a model, without rates. With one, an interface has a
/// model where both snapshots hold it, and no interface has where either
/// snapshot holds no NICs at all.
pub open spec fn ethtool_model(
    sample: EthtoolStatsView,
    last: Option<(EthtoolStatsView, u128)>,
) -> EthtoolModelView {
    EthtoolModelView {
        nic: match last {
            None => match sample.nic {
                Some(nics) => Map::new(
                    |k: Seq<char>| nics.contains_key(k),
                    |k: Seq<char>| nic_model(k, nics[k], None),
                ),
                None => Map::empty(),
            },
            Some((previous, nanos)) => match (sample.nic, previous.nic) {
                (Some(nics), Some(before)) => Map::new(
                    |k: Seq<char>| nics.contains_key(k) && before.contains_key(k),
                    |k: Seq<char>| nic_model(k, nics[k], Some((before[k], nanos))),
                ),
                _ => Map::empty(),
            },
        },
    }
}

/// An earlier snapshot of something and the time since, as plain values.
pub open spec fn last_view<T: DeepView>(last: Option<(&T, Elapsed)>) -> Option<(T::V, u128)> {
    match last {
        Some((previous, elapsed)) => Some((previous.deep_view(), elapsed.nanos)),
        None => None,
    }
}

/// The model is a function of the two snapshots and the time between them:
/// two models made of the same hold the same.
pub proof fn lemma_model_is_determined(
    a: EthtoolModelView,
    b: EthtoolModelView,
    sample: EthtoolStatsView,
    last: Option<(EthtoolStatsView, u128)>,
)
    requires
        a == ethtool_model(sample, last),
        b == ethtool_model(sample, last),
    ensures
        a == b,
{
}

/// Without an earlier snapshot the model holds each interface of the
/// snapshot under its name, with its queues numbered by position and the
/// two counters that are no rates, and no rate at all.
pub proof fn lemma_no_rates_without_previous(
    sample: EthtoolStatsView,
    nics: Map<Seq<char>, NicStatsView>,
    k: Seq<char>,
)
    requires
        sample.nic == Some(nics),
        nics.contains_key(k),
    ensures
        ethtool_model(sample, None).nic.contains_key(k),
        ethtool_model(sample, None).nic[k].nic.interface == k,
        ethtool_model(sample, None).nic[k].nic.tx_timeout_per_sec is None,
        nics[k].queue is None ==> ethtool_model(sample, None).nic[k].queues.len() == 0,
        forall|queues: Seq<QueueStatsView>, i: int|
            nics[k].queue == Some(queues) && 0 <= i < capped(queues.len()) ==> {
                let queue = #[trigger] ethtool_model(sample, None).nic[k].queues[i];
                &&& ethtool_model(sample, None).nic[k].queues.len() == capped(queues.len())
                &&& queue.interface == k
                &&& queue.queue_id == i as u32
                &&& queue.rx_bytes_per_sec is None
                &&& queue.tx_bytes_per_sec is None
                &&& queue.rx_count_per_sec is None
                &&& queue.tx_count_per_sec is None
                &&& queue.tx_missed_tx == #[trigger] queues[i].tx_missed_tx
                &&& queue.tx_unmask_interrupt == queues[i].tx_unmask_interrupt
            },
{
}

/// With an earlier snapshot, an interface that it does not hold has no
/// model, whatever the later snapshot holds.
pub proof fn lemma_unmatched_interface_is_left_out(
    sample: EthtoolStatsView,
    previous: EthtoolStatsView,
    nanos: u128,
    k: Seq<char>,
)
    requires
        previous.nic matches Some(before) ==> !before.contains_key(k),
    ensures
        !ethtool_model(sample, Some((previous, nanos))).nic.contains_key(k),
{
}

/// With an earlier snapshot, an interface whose two snapshots do not both
/// hold queues, or not as many, has a model without any queue.
pub proof fn lemma_unpaired_queues_give_none(
    interface: Seq<char>,
    sample: NicStatsView,
    previous: NicStatsView,
    nanos: u128,
)
    requires
        pairing_of(queue_count(sample.queue), queue_count(previous.queue)) != QueuePairing::Matched,
    ensures
        nic_model(interface, sample, Some((previous, nanos))).queues == Seq::<
            SingleQueueModelView,
        >::empty(),
{
}

impl SingleQueueModel {
    /// The model of the queue `queue_id` of `interface`.
    pub fn new(
        interface: &str,
        queue_id: u32,
        sample: &QueueStats,
        last: Option<(&QueueStats, Elapsed)>,
    ) -> (r: Self)
        ensures
            r.deep_view() == queue_model(
                interface@,
                queue_id,
                sample.deep_view(),
                last_view(last),
            ),
    {
        let (rx_bytes, tx_bytes, rx_count, tx_count) = match last {
            Some((l, d)) => (
                Some((l.rx_bytes, d)),
                Some((l.tx_bytes, d)),
                Some((l.rx_count, d)),
                Some((l.tx_count, d)),
            ),
            None => (None, None, None, None),
        };
        SingleQueueModel {
            interface: interface.to_owned(),
            queue_id,
            rx_bytes_per_sec: get_option_rate(sample.rx_bytes, rx_bytes),
            tx_bytes_per_sec: get_option_rate(sample.tx_bytes, tx_bytes),
            rx_count_per_sec: get_option_rate(sample.rx_count, rx_count),
            tx_count_per_sec: get_option_rate(sample.tx_count, tx_count),
            tx_missed_tx: sample.tx_missed_tx,
            tx_unmask_interrupt: sample.tx_unmask_interrupt,
        }
    }
}

impl SingleNicModel {
    /// The model of the NIC behind `interface` without its queues.
    pub fn new(interface: &str, sample: &NicStats, last: Option<(&NicStats, Elapsed)>) -> (r: Self)
        ensures
            r.deep_view() == single_nic_model(interface@, sample.deep_view(), last_view(last)),
    {
        let tx_timeout = match last {
            Some((l, d)) => Some((l.tx_timeout, d)),
            None => None,
        };
        SingleNicModel {
            interface: interface.to_owned(),
            tx_timeout_per_sec: get_option_rate(sample.tx_timeout, tx_timeout),
        }
    }
}

impl NicModel {
    /// The model of the NIC behind `interface` and of its queues.
    pub fn new(interface: &str, sample: &NicStats, last: Option<(&NicStats, Elapsed)>) -> (r: Self)
        ensures
            r.deep_view() == nic_model(interface@, sample.deep_view(), last_view(last)),
    {
        let nic = SingleNicModel::new(interface, sample, last);
        let mut queues: Vec<SingleQueueModel> = Vec::new();
        let ghost wanted = queue_models(interface@, sample.deep_view(), last_view(last));
        let paired: bool = match last {
            None => true,
            Some((l, _)) => match pair_queues(&sample.queue, &l.queue) {
                QueuePairing::Matched => true,
                _ => false,
            },
        };
        match &sample.queue {
            None => {},
            Some(current) => {
                let before: Option<(&Vec<QueueStats>, Elapsed)> = match last {
                    None => None,
                    Some((l, d)) => match &l.queue {
                        Some(earlier) => Some((earlier, d)),
                        None => None,
                    },
                };
                if paired {
                    let mut i: usize = 0;
                    while i < current.len() && i <= 0xffff_ffff
                        invariant
                            i <= current@.len(),
                            i <= 0x1_0000_0000,
                            sample.queue == Some(*current),
                            wanted == queue_models(
                                interface@,
                                sample.deep_view(),
                                last_view(last),
                            ),
                            wanted.len() == capped(current@.len() as nat),
                            last matches Some((l, since)) ==> before matches Some((earlier, d))
                                && l.queue == Some(*earlier) && d == since && earlier@.len()
                                == current@.len(),
                            last is None ==> before is None,
                            queues@.len() == i,
                            forall|j: int|
                                0 <= j < i ==> (#[trigger] queues@[j]).deep_view() == wanted[j],
                        decreases current@.len() - i,
                    {
                        let earlier: Option<(&QueueStats, Elapsed)> = match before {
                            Some((earlier, d)) => Some((&earlier[i], d)),
                            None => None,
                        };
                        let queue = SingleQueueModel::new(interface, i as u32, &current[i], earlier);
                        queues.push(queue);
                        i += 1;
                    }
                }
            },
        }
        assert(queues.deep_view() =~= wanted);
        NicModel { nic, queues }
    }
}

impl EthtoolModel {
    /// The model of a host's NICs from the snapshot `sample` and, where
    /// there is one, the snapshot before it with the time since.
    pub fn new(sample: &EthtoolStats, last: Option<(&EthtoolStats, Elapsed)>) -> (r: Self)
        ensures
            r.deep_view() == ethtool_model(sample.deep_view(), last_view(last)),
    {
        let ghost wanted = ethtool_model(sample.deep_view(), last_view(last)).nic;
        let mut nic: NameMap<NicModel> = NameMap::new();
        proof {
            nic.lemma_deep_view();
        }
        let current = match &sample.nic {
            Some(current) => current,
            None => {
                assert(nic.deep_view() =~= wanted);
                return EthtoolModel { nic };
            },
        };
        let before: Option<(&NameMap<NicStats>, Elapsed)> = match last {
            None => None,
            Some((l, d)) => match &l.nic {
                Some(earlier) => Some((earlier, d)),
                None => {
                    assert(nic.deep_view() =~= wanted);
                    return EthtoolModel { nic };
                },
            },
        };
        let n = current.len();
        proof {
            current.lemma_deep_view();
            current.lemma_entries();
        }
        let mut i: usize = 0;
        while i < n
            invariant
                i <= n,
                n == current.names().len(),
                current.ordered(),
                nic.ordered(),
                sample.nic == Some(*current),
                wanted == ethtool_model(sample.deep_view(), last_view(last)).nic,
                last is None ==> before is None,
                last matches Some((l, since)) ==> before matches Some((earlier, d)) && l.nic
                    == Some(*earlier) && d == since,
                nic.deep_view() == wanted.restrict(current.names().take(i as int).to_set()),
            decreases n - i,
        {
            let interface = current.name_at(i);
            let stats = current.value_at(i);
            proof {
                current.lemma_deep_view();
                current.lemma_entries();
            }
            let found: Option<Option<(&NicStats, Elapsed)>> = match before {
                None => Some(None),
                Some((earlier, d)) => {
                    proof {
                        use_type_invariant(earlier);
                        earlier.lemma_deep_view();
                        earlier.lemma_entries();
                    }
                    match earlier.get(interface.as_str()) {
                        Some(previous) => Some(Some((previous, d))),
                        None => None,
                    }
                },
            };
            let ghost old_nic = nic;
            let ghost done = i as int;
            proof {
                let names = current.names();
                assert(names.take(done + 1) =~= names.take(done).push(interface@));
                names.take(done).lemma_push_to_set_commute(interface@);
            }
            match found {
                Some(previous) => {
                    let model = NicModel::new(interface.as_str(), stats, previous);
                    assert(wanted.contains_key(interface@));
                    assert(model.deep_view() == wanted[interface@]);
                    nic.insert(interface.clone(), model);
                    proof {
                        nic.lemma_insert_deep_view(old_nic, interface@, model);
                        assert(current.names()[i as int] == interface@);
                    }
                },
                None => {
                    assert(!wanted.contains_key(interface@));
                },
            }
            i += 1;
            proof {
                assert(current.names().take(i as int) == current.names().take(done + 1));
                assert(nic.deep_view() =~= wanted.restrict(
                    current.names().take(i as int).to_set(),
                ));
            }
        }
        proof {
            assert(current.names().take(i as int) =~= current.names());
            assert(nic.deep_view() =~= wanted);
        }
        EthtoolModel { nic }
    }
}

/// The queues of the NICs `nics`, NIC after NIC, each NIC's in their order.
pub open spec fn queues_of(nics: Seq<NicModel>) -> Seq<SingleQueueModel>
    decreases nics.len(),
{
    if nics.len() == 0 {
        Seq::empty()
    } else {
        queues_of(nics.drop_last()) + nics.last().queues@
    }
}

impl EthtoolModel {
    /// The models of all queues: NIC after NIC in the order of the
    /// interfaces' names, and each NIC's queues in their order.
    pub fn queues(&self) -> (r: Vec<&SingleQueueModel>)
        ensures
            r@.len() == queues_of(self.nic.values()).len(),
            forall|i: int| 0 <= i < r@.len() ==> *(#[trigger] r@[i]) == queues_of(self.nic.values())[i],
    {
        let mut all: Vec<&SingleQueueModel> = Vec::new();
        let n = self.nic.len();
        let ghost nics = self.nic.values();
        proof {
            self.nic.lemma_entries();
        }
        let mut i: usize = 0;
        while i < n
            invariant
                i <= n,
                n == self.nic.names().len(),
                nics == self.nic.values(),
                nics.len() == n,
                all@.len() == queues_of(nics.take(i as int)).len(),
                forall|j: int|
                    0 <= j < all@.len() ==> *(#[trigger] all@[j]) == queues_of(
                        nics.take(i as int),
                    )[j],
            decreases n - i,
        {
            let nic = self.nic.value_at(i);
            let ghost done = queues_of(nics.take(i as int));
            proof {
                assert(nics.take(i + 1).drop_last() =~= nics.take(i as int));
                assert(nics.take(i + 1).last() == *nic);
            }
            let mut j: usize = 0;
            while j < nic.queues.len()
                invariant
                    j <= nic.queues@.len(),
                    all@.len() == done.len() + j,
                    forall|k: int|
                        0 <= k < all@.len() ==> *(#[trigger] all@[k]) == (done + nic.queues@)[k],
                decreases nic.queues@.len() - j,
            {
                all.push(&nic.queues[j]);
                j += 1;
            }
            i += 1;
        }
        assert(nics.take(n as int) =~= nics);
        all
    }
}

} // verus!
