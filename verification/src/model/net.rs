//! The rates of the queues of each NIC, by interface name alone.

use vstd::prelude::*;
use crate::ethtool::types::EthtoolStatsView;
use crate::ethtool::types::NetStats;
use crate::ethtool::types::NicStats;
use crate::ethtool::types::NicStatsView;
use crate::ethtool::types::QueueStats;
use crate::ethtool::types::QueueStatsView;
use crate::model::Elapsed;
use crate::model::eth::earlier;
use crate::model::eth::last_view;
use crate::model::get_option_rate;
use crate::model::option_rate;
use crate::model::pair_queues;
use crate::model::pairing_of;
use crate::model::queue_count;
use crate::model::QueuePairing;
use crate::name_map::NameMap;

verus! {

/// The rates of the queues of a host's NICs.
#[derive(Clone, Debug, PartialEq, Default)]
pub struct NetModel {
    pub nic: NicModel,
}

/// The rates of the queues of each NIC, by interface name.
#[derive(Clone, Debug, PartialEq, Default)]
pub struct NicModel {
    pub nics: NameMap<QueueModel>,
}

/// The rates of the queues of one NIC, in the order of the queues.
#[derive(Clone, Debug, PartialEq, Default)]
pub struct QueueModel {
    pub queues: Vec<SingleQueueModel>,
}

/// The rates of one queue.
#[derive(Clone, Copy, Debug, PartialEq, Eq, Structural, Default)]
pub struct SingleQueueModel {
    pub rx_bytes_per_sec: Option<u64>,
    pub tx_bytes_per_sec: Option<u64>,
    pub rx_count_per_sec: Option<u64>,
    pub tx_count_per_sec: Option<u64>,
    pub tx_missed_tx: Option<u64>,
    pub tx_unmask_interrupt: Option<u64>,
}

/// The rates of the queues of one NIC as plain values.
pub struct QueueModelView {
    pub queues: Seq<SingleQueueModel>,
}

/// The rates of the queues of each NIC as plain values.
pub struct NicModelView {
    pub nics: Map<Seq<char>, QueueModelView>,
}

/// The rates of the queues of a host's NICs as plain values.
pub struct NetModelView {
    pub nic: NicModelView,
}

impl DeepView for SingleQueueModel {
    type V = SingleQueueModel;

    open spec fn deep_view(&self) -> SingleQueueModel {
        *self
    }
}

impl DeepView for QueueModel {
    type V = QueueModelView;

    open spec fn deep_view(&self) -> QueueModelView {
        QueueModelView { queues: self.queues.deep_view() }
    }
}

impl DeepView for NicModel {
    type V = NicModelView;

    open spec fn deep_view(&self) -> NicModelView {
        NicModelView { nics: self.nics.deep_view() }
    }
}

impl DeepView for NetModel {
    type V = NetModelView;

    open spec fn deep_view(&self) -> NetModelView {
        NetModelView { nic: self.nic.deep_view() }
    }
}

/// The model of one queue: the rates of its four traffic counters since
/// `last`, and its two other counters as the later snapshot holds them.
pub open spec fn queue_rates(
    sample: QueueStatsView,
    last: Option<(QueueStatsView, u128)>,
) -> SingleQueueModel {
    SingleQueueModel {
        rx_bytes_per_sec: option_rate(
            sample.rx_bytes,
            earlier(last, |q: QueueStatsView| q.rx_bytes),
        ),
        tx_bytes_per_sec: option_rate(
            sample.tx_bytes,
            earlier(last, |q: QueueStatsView| q.tx_bytes),
        ),
        rx_count_per_sec: option_rate(
            sample.rx_count,
            earlier(last, |q: QueueStatsView| q.rx_count),
        ),
        tx_count_per_sec: option_rate(
            sample.tx_count,
            earlier(last, |q: QueueStatsView| q.tx_count),
        ),
        tx_missed_tx: sample.tx_missed_tx,
        tx_unmask_interrupt: sample.tx_unmask_interrupt,
    }
}

/// Whether a NIC has a model: the later snapshot must hold its queues, and
/// its queues must match those of the earlier snapshot, where there is one.
pub open spec fn has_queue_model(sample: NicStatsView, last: Option<(NicStatsView, u128)>) -> bool {
    match last {
        None => sample.queue is Some,
        Some((previous, _)) => pairing_of(queue_count(sample.queue), queue_count(previous.queue))
            == QueuePairing::Matched,
    }
}

/// The models of the queues of a NIC that has a model, paired by position
/// with the queues of the earlier snapshot where there is one.
pub open spec fn nic_queue_rates(
    sample: NicStatsView,
    last: Option<(NicStatsView, u128)>,
) -> QueueModelView {
    let queues = sample.queue.unwrap();
    QueueModelView {
        queues: Seq::new(
            queues.len(),
            |i: int|
                queue_rates(
                    queues[i],
                    match last {
                        Some((previous, nanos)) => Some((previous.queue.unwrap()[i], nanos)),
                        None => None,
                    },
                ),
        ),
    }
}

/// The earlier record of the interface `k`, with the time since.
pub open spec fn earlier_nic(
    before: Option<(Map<Seq<char>, NicStatsView>, u128)>,
    k: Seq<char>,
) -> Option<(NicStatsView, u128)> {
    match before {
        Some((nics, nanos)) => Some((nics[k], nanos)),
        None => None,
    }
}

/// The model of the queues of a host's NICs. Without an earlier snapshot an
/// interface has a model where the snapshot holds its queues. With one, an
/// interface has a model where both snapshots hold it and its queues, and as
/// many queues; any other interface is left out, and every interface is
/// where either snapshot holds no NICs at all.
pub open spec fn net_model(
    sample: EthtoolStatsView,
    last: Option<(EthtoolStatsView, u128)>,
) -> NetModelView {
    let before = match last {
        Some((previous, nanos)) => match previous.nic {
            Some(nics) => Some(Some((nics, nanos))),
            None => None,
        },
        None => Some(None),
    };
    NetModelView {
        nic: NicModelView {
            nics: match (sample.nic, before) {
                (Some(nics), Some(earlier)) => Map::new(
                    |k: Seq<char>|
                        nics.contains_key(k) && (earlier matches Some((old, _))
                            ==> old.contains_key(k)) && has_queue_model(
                            nics[k],
                            earlier_nic(earlier, k),
                        ),
                    |k: Seq<char>| nic_queue_rates(nics[k], earlier_nic(earlier, k)),
                ),
                _ => Map::empty(),
            },
        },
    }
}

/// The model is a function of the two snapshots and the time between them:
/// two models made of the same hold the same.
pub proof fn lemma_model_is_determined(
    a: NetModelView,
    b: NetModelView,
    sample: EthtoolStatsView,
    last: Option<(EthtoolStatsView, u128)>,
)
    requires
        a == net_model(sample, last),
        b == net_model(sample, last),
    ensures
        a == b,
{
}

/// Without an earlier snapshot the model holds each interface whose queues
/// the snapshot holds, with the two counters of each queue that are no
/// rates, and no rate at all.
pub proof fn lemma_no_rates_without_previous(
    sample: EthtoolStatsView,
    nics: Map<Seq<char>, NicStatsView>,
    queues: Seq<QueueStatsView>,
    k: Seq<char>,
    i: int,
)
    requires
        sample.nic == Some(nics),
        nics.contains_key(k),
        nics[k].queue == Some(queues),
        0 <= i < queues.len(),
    ensures
        net_model(sample, None).nic.nics.contains_key(k),
        net_model(sample, None).nic.nics[k].queues.len() == queues.len(),
        ({
            let queue = net_model(sample, None).nic.nics[k].queues[i];
            &&& queue.rx_bytes_per_sec is None
            &&& queue.tx_bytes_per_sec is None
            &&& queue.rx_count_per_sec is None
            &&& queue.tx_count_per_sec is None
            &&& queue.tx_missed_tx == queues[i].tx_missed_tx
            &&& queue.tx_unmask_interrupt == queues[i].tx_unmask_interrupt
        }),
{
}

/// With an earlier snapshot, an interface that it does not hold has no
/// model, whatever the later snapshot holds.
pub proof fn lemma_unmatched_interface_is_left_out(
    sample: EthtoolStatsView,
    previous: EthtoolStatsView,
    nanos: u128,
    k: Seq<char>,
)
    requires
        previous.nic matches Some(before) ==> !before.contains_key(k),
    ensures
        !net_model(sample, Some((previous, nanos))).nic.nics.contains_key(k),
{
}

/// With an earlier snapshot, an interface whose two snapshots do not both
/// hold queues, or not as many, has no model at all.
pub proof fn lemma_unpaired_queues_skip_the_interface(
    sample: EthtoolStatsView,
    previous: EthtoolStatsView,
    nanos: u128,
    nics: Map<Seq<char>, NicStatsView>,
    before: Map<Seq<char>, NicStatsView>,
    k: Seq<char>,
)
    requires
        sample.nic == Some(nics),
        previous.nic == Some(before),
        nics.contains_key(k),
        before.contains_key(k),
        pairing_of(queue_count(nics[k].queue), queue_count(before[k].queue))
            != QueuePairing::Matched,
    ensures
        !net_model(sample, Some((previous, nanos))).nic.nics.contains_key(k),
{
}

impl SingleQueueModel {
    /// The model of one queue.
    pub fn new(sample: &QueueStats, last: Option<(&QueueStats, Elapsed)>) -> (r: Self)
        ensures
            r == queue_rates(sample.deep_view(), last_view(last)),
    {
        let (rx_bytes, tx_bytes, rx_count, tx_count) = match last {
            Some((l, d)) => (
                Some((l.rx_bytes, d)),
                Some((l.tx_bytes, d)),
                Some((l.rx_count, d)),
                Some((l.tx_count, d)),
            ),
            None => (None, None, None, None),
        };
        SingleQueueModel {
            rx_bytes_per_sec: get_option_rate(sample.rx_bytes, rx_bytes),
            tx_bytes_per_sec: get_option_rate(sample.tx_bytes, tx_bytes),
            rx_count_per_sec: get_option_rate(sample.rx_count, rx_count),
            tx_count_per_sec: get_option_rate(sample.tx_count, tx_count),
            tx_missed_tx: sample.tx_missed_tx,
            tx_unmask_interrupt: sample.tx_unmask_interrupt,
        }
    }
}

impl QueueModel {
    /// The model of the queues of one NIC, if it has one: `None` where the
    /// later snapshot holds no queues for it, or the earlier one holds none
    /// or not as many.
    pub fn new(sample: &NicStats, last: Option<(&NicStats, Elapsed)>) -> (r: Option<Self>)
        ensures
            r is Some <==> has_queue_model(sample.deep_view(), last_view(last)),
            r matches Some(model) ==> model.deep_view() == nic_queue_rates(
                sample.deep_view(),
                last_view(last),
            ),
    {
        if let Some((l, _)) = last {
            match pair_queues(&sample.queue, &l.queue) {
                QueuePairing::Matched => {},
                _ => {
                    return None;
                },
            }
        }
        let current = match &sample.queue {
            Some(current) => current,
            None => {
                return None;
            },
        };
        let before: Option<(&Vec<QueueStats>, Elapsed)> = match last {
            None => None,
            Some((l, d)) => match &l.queue {
                Some(earlier) => Some((earlier, d)),
                None => None,
            },
        };
        let ghost wanted = nic_queue_rates(sample.deep_view(), last_view(last)).queues;
        let mut queues: Vec<SingleQueueModel> = Vec::new();
        let mut i: usize = 0;
        while i < current.len()
            invariant
                i <= current@.len(),
                sample.queue == Some(*current),
                wanted == nic_queue_rates(sample.deep_view(), last_view(last)).queues,
                last matches Some((l, since)) ==> before matches Some((earlier, d)) && l.queue
                    == Some(*earlier) && d == since && earlier@.len() == current@.len(),
                last is None ==> before is None,
                queues@.len() == i,
                forall|j: int| 0 <= j < i ==> #[trigger] queues@[j] == wanted[j],
            decreases current@.len() - i,
        {
            let earlier: Option<(&QueueStats, Elapsed)> = match before {
                Some((earlier, d)) => Some((&earlier[i], d)),
                None => None,
            };
            queues.push(SingleQueueModel::new(&current[i], earlier));
            i += 1;
        }
        assert(queues.deep_view() =~= wanted);
        Some(QueueModel { queues })
    }
}

impl NetModel {
    /// The model of the queues of a host's NICs from the snapshot `sample`
    /// and, where there is one, the snapshot before it with the time since.
    pub fn new(sample: &NetStats, last: Option<(&NetStats, Elapsed)>) -> (r: Self)
        ensures
            r.deep_view() == net_model(sample.deep_view(), last_view(last)),
    {
        let ghost wanted = net_model(sample.deep_view(), last_view(last)).nic.nics;
        let mut nics: NameMap<QueueModel> = NameMap::new();
        proof {
            nics.lemma_deep_view();
        }
        let current = match &sample.nic {
            Some(current) => current,
            None => {
                assert(nics.deep_view() =~= wanted);
                return NetModel { nic: NicModel { nics } };
            },
        };
        let before: Option<(&NameMap<NicStats>, Elapsed)> = match last {
            None => None,
            Some((l, d)) => match &l.nic {
                Some(earlier) => Some((earlier, d)),
                None => {
                    assert(nics.deep_view() =~= wanted);
                    return NetModel { nic: NicModel { nics } };
                },
            },
        };
        let n = current.len();
        proof {
            current.lemma_deep_view();
            current.lemma_entries();
        }
        let mut i: usize = 0;
        while i < n
            invariant
                i <= n,
                n == current.names().len(),
                current.ordered(),
                nics.ordered(),
                sample.nic == Some(*current),
                wanted == net_model(sample.deep_view(), last_view(last)).nic.nics,
                last is None ==> before is None,
                last matches Some((l, since)) ==> before matches Some((earlier, d)) && l.nic
                    == Some(*earlier) && d == since,
                nics.deep_view() == wanted.restrict(current.names().take(i as int).to_set()),
            decreases n - i,
        {
            let if_name = current.name_at(i);
            let stats = current.value_at(i);
            proof {
                current.lemma_deep_view();
                current.lemma_entries();
            }
            let found: Option<Option<(&NicStats, Elapsed)>> = match before {
                None => Some(None),
                Some((earlier, d)) => {
                    proof {
                        use_type_invariant(earlier);
                        earlier.lemma_deep_view();
                        earlier.lemma_entries();
                    }
                    match earlier.get(if_name.as_str()) {
                        Some(previous) => Some(Some((previous, d))),
                        None => None,
                    }
                },
            };
            let ghost old_nics = nics;
            let ghost done = i as int;
            proof {
                let names = current.names();
                assert(names.take(done + 1) =~= names.take(done).push(if_name@));
                names.take(done).lemma_push_to_set_commute(if_name@);
            }
            let model: Option<QueueModel> = match found {
                Some(previous) => QueueModel::new(stats, previous),
                None => None,
            };
            match model {
                Some(queue_model) => {
                    assert(wanted.contains_key(if_name@));
                    assert(queue_model.deep_view() == wanted[if_name@]);
                    nics.insert(if_name.clone(), queue_model);
                    proof {
                        nics.lemma_insert_deep_view(old_nics, if_name@, queue_model);
                    }
                },
                None => {
                    assert(!wanted.contains_key(if_name@));
                },
            }
            i += 1;
            proof {
                assert(current.names().take(i as int) == current.names().take(done + 1));
                assert(nics.deep_view() =~= wanted.restrict(
                    current.names().take(i as int).to_set(),
                ));
            }
        }
        proof {
            assert(current.names().take(i as int) =~= current.names());
            assert(nics.deep_view() =~= wanted);
        }
        NetModel { nic: NicModel { nics } }
    }
}

/// The queues of the NICs `nics`, NIC after NIC, each NIC's in their order.
pub open spec fn queues_of(nics: Seq<QueueModel>) -> Seq<SingleQueueModel>
    decreases nics.len(),
{
    if nics.len() == 0 {
        Seq::empty()
    } else {
        queues_of(nics.drop_last()) + nics.last().queues@
    }
}

impl NetModel {
    /// The models of all queues: NIC after NIC in the order of the
    /// interfaces' names, and each NIC's queues in their order.
    pub fn queues(&self) -> (r: Vec<&SingleQueueModel>)
        ensures
            r@.len() == queues_of(self.nic.nics.values()).len(),
            forall|i: int|
                0 <= i < r@.len() ==> *(#[trigger] r@[i]) == queues_of(self.nic.nics.values())[i],
    {
        let mut all: Vec<&SingleQueueModel> = Vec::new();
        let n = self.nic.nics.len();
        let ghost nics = self.nic.nics.values();
        proof {
            self.nic.nics.lemma_entries();
        }
        let mut i: usize = 0;
        while i < n
            invariant
                i <= n,
                n == self.nic.nics.names().len(),
                nics == self.nic.nics.values(),
                nics.len() == n,
                all@.len() == queues_of(nics.take(i as int)).len(),
                forall|j: int|
                    0 <= j < all@.len() ==> *(#[trigger] all@[j]) == queues_of(
                        nics.take(i as int),
                    )[j],
            decreases n - i,
        {
            let nic = self.nic.nics.value_at(i);
            let ghost done = queues_of(nics.take(i as int));
            proof {
                assert(nics.take(i + 1).drop_last() =~= nics.take(i as int));
                assert(nics.take(i + 1).last() == *nic);
            }
            let mut j: usize = 0;
            while j < nic.queues.len()
                invariant
                    j <= nic.queues@.len(),
                    all@.len() == done.len() + j,
                    forall|k: int|
                        0 <= k < all@.len() ==> *(#[trigger] all@[k]) == (done + nic.queues@)[k],
                decreases nic.queues@.len() - j,
            {
                all.push(&nic.queues[j]);
                j += 1;
            }
            i += 1;
        }
        assert(nics.take(n as int) =~= nics);
        all
    }
}

} // verus!
