//! Reading a NIC driver's statistics through the ethtool ioctl interface,
//! and sorting them into the counters of the NIC and of each of its queues.

pub mod collector;
pub mod errors;
pub mod types;

use vstd::prelude::*;
use vstd::string::StrSliceExecFns;
use vstd::utf8::encode_utf8;
use crate::ethtool::collector::Ethtool;
use crate::ethtool::collector::IFNAME_MAX_SIZE;
use crate::ethtool::collector::IfRequest;
use crate::ethtool::collector::Reply;
use crate::ethtool::collector::stats_outcome;
use crate::ethtool::errors::Error;
use crate::ethtool::errors::outcome_view;
use crate::ethtool::errors::ParseFailure;
use crate::ethtool::types::custom_inserted;
use crate::ethtool::types::CustomStats;
use crate::ethtool::types::EthtoolStats;
use crate::ethtool::types::insert_custom;
use crate::ethtool::types::insert_stat;
use crate::ethtool::types::NetStats;
use crate::ethtool::types::NicMap;
use crate::ethtool::types::NicStats;
use crate::ethtool::types::NicStatsView;
use crate::ethtool::types::no_queue_stats;
use crate::ethtool::types::QueueStats;
use crate::ethtool::types::QueueStatsView;
use crate::ethtool::types::stat_inserted;
use crate::name_map::NameMap;
use crate::name_map::same_name;
use crate::text::chars_of;
use crate::text::decimal_value;
use crate::text::find_from;
use crate::text::is_number;
use crate::text::offset_of;
use crate::text::parse_number;
use crate::text::starts_with;

verus! {

/// Statistics as the kernel reports them: name and value, in its order.
pub type RawStats = Seq<(Seq<char>, u64)>;

/// Whether `name` begins as the name of a per-queue statistic does.
pub open spec fn is_queue_name(name: Seq<char>) -> bool {
    "queue_"@.is_prefix_of(name)
}

/// What follows the first underscore of `name`; nothing where it has none.
pub open spec fn after_underscore(name: Seq<char>) -> Seq<char> {
    let u = offset_of(name, '_');
    if u < name.len() {
        name.skip(u + 1)
    } else {
        Seq::empty()
    }
}

/// The second of the segments that the first two underscores split `name`
/// into: where a per-queue statistic carries the queue's index.
pub open spec fn index_segment(name: Seq<char>) -> Seq<char> {
    let rest = after_underscore(name);
    rest.take(offset_of(rest, '_'))
}

/// The third segment, all that follows the second underscore: where a
/// per-queue statistic carries the counter's name. `None` where `name` has
/// no second underscore.
pub open spec fn field_segment(name: Seq<char>) -> Option<Seq<char>> {
    let rest = after_underscore(name);
    let u = offset_of(rest, '_');
    if offset_of(name, '_') < name.len() && u < rest.len() {
        Some(rest.skip(u + 1))
    } else {
        None
    }
}

/// What a statistic is, by its name.
pub enum StatKind {
    /// The counter `field` of the queue `id`.
    Queue { id: usize, field: Seq<char> },
    /// A per-queue name whose queue index is not a number.
    Malformed,
    /// The NIC's count of transmit timeouts.
    TxTimeout,
    /// Any other statistic of the NIC.
    Custom,
}

/// Sorts a name: `queue_<digits>_<rest>` is the counter `<rest>` of the queue
/// `<digits>`, `tx_timeout` is the NIC's timeout count, and anything else is a
/// custom statistic of the NIC. A name that begins with `queue_` and goes on
/// with anything but a number that a `usize` holds is malformed.
pub open spec fn classify(name: Seq<char>) -> StatKind {
    if is_queue_name(name) {
        if !is_number(index_segment(name)) {
            StatKind::Malformed
        } else {
            match field_segment(name) {
                Some(field) => StatKind::Queue {
                    id: decimal_value(index_segment(name)) as usize,
                    field,
                },
                None => StatKind::Custom,
            }
        }
    } else if name == "tx_timeout"@ {
        StatKind::TxTimeout
    } else {
        StatKind::Custom
    }
}

/// Whether the statistic `name` belongs to the queue `id`.
pub open spec fn is_of_queue(name: Seq<char>, id: usize) -> bool {
    classify(name) matches StatKind::Queue { id: found, .. } && found == id
}

/// The indices of the queues that `stats` holds a statistic of.
pub open spec fn queue_ids(stats: RawStats) -> Set<usize> {
    Set::new(|id: usize| exists|i: int| 0 <= i < stats.len() && is_of_queue(#[trigger] stats[i].0, id))
}

/// The counters of queue `id` after all of `stats`, taken in order.
pub open spec fn queue_of(stats: RawStats, id: usize) -> QueueStatsView
    decreases stats.len(),
{
    if stats.len() == 0 {
        no_queue_stats()
    } else {
        let before = queue_of(stats.drop_last(), id);
        match classify(stats.last().0) {
            StatKind::Queue { id: found, field } => if found == id {
                stat_inserted(before, field, stats.last().1)
            } else {
                before
            },
            _ => before,
        }
    }
}

/// The NIC's timeout count after all of `stats`: the last that was reported.
pub open spec fn tx_timeout_of(stats: RawStats) -> Option<u64>
    decreases stats.len(),
{
    if stats.len() == 0 {
        None
    } else if classify(stats.last().0) is TxTimeout {
        Some(stats.last().1)
    } else {
        tx_timeout_of(stats.drop_last())
    }
}

/// The NIC's custom mapping after all of `stats`; absent while no custom
/// statistic was seen.
pub open spec fn custom_of(stats: RawStats) -> Option<Map<Seq<char>, u64>>
    decreases stats.len(),
{
    if stats.len() == 0 {
        None
    } else if classify(stats.last().0) is Custom {
        custom_inserted(custom_of(stats.drop_last()), stats.last().0, stats.last().1)
    } else {
        custom_of(stats.drop_last())
    }
}

/// Whether `ids` rise strictly.
pub open spec fn ascending(ids: Seq<usize>) -> bool {
    forall|i: int, j: int| 0 <= i < j < ids.len() ==> ids[i] < ids[j]
}

/// Whether `queues` are the queues of `stats` in the order of their indices
/// `ids`: every queue that `stats` speaks of, each once, each with the
/// counters that `stats` gives it.
pub open spec fn queues_in_order(
    stats: RawStats,
    ids: Seq<usize>,
    queues: Seq<QueueStatsView>,
) -> bool {
    &&& ascending(ids)
    &&& ids.to_set() == queue_ids(stats)
    &&& queues.len() == ids.len()
    &&& forall|i: int| 0 <= i < ids.len() ==> #[trigger] queues[i] == queue_of(stats, ids[i])
}

/// Whether `r` is what sorting `stats` comes to. It is an error exactly
/// where a name is malformed. Else the record holds the last timeout count
/// reported, the custom statistics by name, and the queues that `stats`
/// speaks of in the order of their indices; the queues are absent where
/// `stats` speaks of none.
pub open spec fn translation(stats: RawStats, r: Result<NicStatsView, Error>) -> bool {
    match r {
        Err(e) => {
            &&& e == Error::ParseError(ParseFailure::QueueId)
            &&& exists|i: int| 0 <= i < stats.len() && classify(#[trigger] stats[i].0) is Malformed
        },
        Ok(nic) => {
            &&& forall|i: int| 0 <= i < stats.len() ==> !(classify(#[trigger] stats[i].0) is Malformed)
            &&& nic.tx_timeout == tx_timeout_of(stats)
            &&& nic.custom_stats == custom_of(stats)
            &&& nic.queue is None <==> queue_ids(stats) == Set::<usize>::empty()
            &&& nic.queue matches Some(queues) ==> exists|ids: Seq<usize>|
                queues_in_order(stats, ids, queues)
        },
    }
}

/// Whether `name` begins with `queue_`.
pub fn is_queue_stat(name: &str) -> (r: bool)
    ensures
        r == is_queue_name(name@),
{
    let chars = chars_of(name);
    let prefix = chars_of("queue_");
    starts_with(&chars, &prefix)
}

/// Splits a name at its first two underscores and reads the second segment
/// as the index of a queue. The third segment comes with it; it is `None`
/// where the name has no second underscore.
pub fn parse_queue_stat(name: &str) -> (r: Result<(usize, Option<&str>), Error>)
    ensures
        r is Ok <==> is_number(index_segment(name@)),
        r matches Ok((id, field)) ==> {
            &&& id == decimal_value(index_segment(name@))
            &&& field is Some <==> field_segment(name@) is Some
            &&& field matches Some(f) ==> f@ == field_segment(name@).unwrap()
        },
        r matches Err(e) ==> e == Error::ParseError(ParseFailure::QueueId),
{
    let chars = chars_of(name);
    let first = find_from(&chars, 0, '_');
    assert(chars@.skip(0) =~= chars@);
    if first == chars.len() {
        assert(index_segment(name@) =~= Seq::<char>::empty());
        return Err(Error::ParseError(ParseFailure::QueueId));
    }
    let start = first + 1;
    let second = find_from(&chars, start, '_');
    assert(chars@.subrange(start as int, second as int) =~= index_segment(name@));
    match parse_number(&chars, start, second) {
        None => Err(Error::ParseError(ParseFailure::QueueId)),
        Some(id) => {
            if second == chars.len() {
                Ok((id, None))
            } else {
                let field = name.substring_char(second + 1, chars.len());
                assert(field@ =~= field_segment(name@).unwrap());
                Ok((id, Some(field)))
            }
        },
    }
}

/// A queue that `stats` holds no statistic of has no counter.
pub proof fn lemma_absent_queue(stats: RawStats, id: usize)
    requires
        !queue_ids(stats).contains(id),
    ensures
        queue_of(stats, id) == no_queue_stats(),
    decreases stats.len(),
{
    if stats.len() > 0 {
        let before = stats.drop_last();
        assert(stats[stats.len() - 1] == stats.last());
        assert(!is_of_queue(stats[stats.len() - 1].0, id));
        assert forall|i: int| 0 <= i < before.len() implies !is_of_queue(
            #[trigger] before[i].0,
            id,
        ) by {
            assert(before[i] == stats[i]);
            assert(!is_of_queue(stats[i].0, id));
        }
        lemma_absent_queue(before, id);
    }
}

/// One more statistic adds its queue to the queues spoken of, if it is a
/// per-queue statistic, and none otherwise.
pub proof fn lemma_queue_ids_step(stats: RawStats)
    requires
        stats.len() > 0,
    ensures
        queue_ids(stats) == match classify(stats.last().0) {
            StatKind::Queue { id, .. } => queue_ids(stats.drop_last()).insert(id),
            _ => queue_ids(stats.drop_last()),
        },
{
    let before = stats.drop_last();
    let last = stats.len() - 1;
    let goal = match classify(stats.last().0) {
        StatKind::Queue { id, .. } => queue_ids(before).insert(id),
        _ => queue_ids(before),
    };
    assert forall|id: usize| queue_ids(stats).contains(id) implies goal.contains(id) by {
        let i = choose|i: int| 0 <= i < stats.len() && is_of_queue(#[trigger] stats[i].0, id);
        if i < last {
            assert(before[i] == stats[i]);
            assert(is_of_queue(before[i].0, id));
        }
    }
    assert forall|id: usize| goal.contains(id) implies queue_ids(stats).contains(id) by {
        if queue_ids(before).contains(id) {
            let i = choose|i: int| 0 <= i < before.len() && is_of_queue(#[trigger] before[i].0, id);
            assert(before[i] == stats[i]);
            assert(is_of_queue(stats[i].0, id));
        } else {
            assert(is_of_queue(stats[last].0, id));
        }
    }
    assert(queue_ids(stats) =~= goal);
}

/// The statistic named `tx_timeout` is the NIC's timeout count.
pub proof fn lemma_tx_timeout_kind()
    ensures
        classify("tx_timeout"@) is TxTimeout,
{
    reveal_strlit("tx_timeout");
    reveal_strlit("queue_");
    assert("queue_"@[0] != "tx_timeout"@[0]);
    assert("tx_timeout"@.subrange(0, 6)[0] == "tx_timeout"@[0]);
}

/// The NIC's timeout count changes only the timeout count: it enters
/// neither the NIC's custom mapping nor the record of any queue.
pub proof fn lemma_tx_timeout_only(stats: RawStats, name: Seq<char>, value: u64, id: usize)
    requires
        classify(name) is TxTimeout,
    ensures
        tx_timeout_of(stats.push((name, value))) == Some(value),
        custom_of(stats.push((name, value))) == custom_of(stats),
        queue_of(stats.push((name, value)), id) == queue_of(stats, id),
        queue_ids(stats.push((name, value))) == queue_ids(stats),
{
    let next = stats.push((name, value));
    assert(next.drop_last() =~= stats);
    lemma_queue_ids_step(next);
}

/// A statistic that is neither a queue's nor the timeout count enters the
/// NIC's custom mapping under its own name, with its value, and changes
/// nothing else.
pub proof fn lemma_custom_stat(stats: RawStats, name: Seq<char>, value: u64, id: usize)
    requires
        classify(name) is Custom,
    ensures
        custom_of(stats.push((name, value))) == custom_inserted(custom_of(stats), name, value),
        custom_of(stats.push((name, value))) matches Some(custom) && custom.contains_key(name)
            && custom[name] == value,
        tx_timeout_of(stats.push((name, value))) == tx_timeout_of(stats),
        queue_of(stats.push((name, value)), id) == queue_of(stats, id),
        queue_ids(stats.push((name, value))) == queue_ids(stats),
{
    let next = stats.push((name, value));
    assert(next.drop_last() =~= stats);
    lemma_queue_ids_step(next);
}

/// A statistic of a queue changes the record of that queue alone: the
/// counter that its name ends in is set where it is one of the six known,
/// and then no custom mapping changes; any other counter enters the custom
/// mapping of that queue. The NIC's own fields and the other queues stay.
pub proof fn lemma_queue_stat(
    stats: RawStats,
    name: Seq<char>,
    value: u64,
    id: usize,
    field: Seq<char>,
    other: usize,
)
    requires
        classify(name) == (StatKind::Queue { id, field }),
        other != id,
    ensures
        queue_ids(stats.push((name, value))) == queue_ids(stats).insert(id),
        queue_of(stats.push((name, value)), id) == stat_inserted(queue_of(stats, id), field, value),
        field == "rx_bytes"@ ==> queue_of(stats.push((name, value)), id).rx_bytes == Some(value)
            && queue_of(stats.push((name, value)), id).custom_stats == queue_of(
            stats,
            id,
        ).custom_stats,
        queue_of(stats.push((name, value)), other) == queue_of(stats, other),
        custom_of(stats.push((name, value))) == custom_of(stats),
        tx_timeout_of(stats.push((name, value))) == tx_timeout_of(stats),
{
    let next = stats.push((name, value));
    assert(next.drop_last() =~= stats);
    lemma_queue_ids_step(next);
}

/// Records the counter `field` of the queue `id` among the queues seen so
/// far, which stand in the order of their indices. A queue seen for the
/// first time takes its place in that order. Returns the queue's position and
/// whether it had been seen before.
fn put_stat(
    ids: &mut Vec<usize>,
    queues: &mut Vec<QueueStats>,
    id: usize,
    field: &str,
    value: u64,
) -> (r: (usize, bool))
    requires
        ascending(old(ids)@),
        old(ids)@.len() == old(queues)@.len(),
    ensures
        ascending(final(ids)@),
        final(ids)@.len() == final(queues)@.len(),
        r.0 < final(ids)@.len(),
        r.0 <= old(ids)@.len(),
        final(ids)@[r.0 as int] == id,
        r.1 <==> old(ids)@.contains(id),
        r.1 ==> final(ids)@ == old(ids)@ && final(queues).deep_view() == old(
            queues,
        ).deep_view().update(
            r.0 as int,
            stat_inserted(old(queues).deep_view()[r.0 as int], field@, value),
        ),
        !r.1 ==> final(ids)@ == old(ids)@.insert(r.0 as int, id) && final(queues).deep_view()
            == old(queues).deep_view().insert(
            r.0 as int,
            stat_inserted(no_queue_stats(), field@, value),
        ),
{
    let mut p: usize = 0;
    while p < ids.len() && ids[p] < id
        invariant
            p <= ids@.len(),
            forall|j: int| 0 <= j < p ==> ids@[j] < id,
        decreases ids@.len() - p,
    {
        p += 1;
    }
    let ghost views = queues.deep_view();
    if p < ids.len() && ids[p] == id {
        let mut queue = queues.remove(p);
        insert_stat(&mut queue, field, value);
        queues.insert(p, queue);
        assert(queues.deep_view() =~= views.update(
            p as int,
            stat_inserted(views[p as int], field@, value),
        ));
        (p, true)
    } else {
        assert forall|j: int| 0 <= j < ids@.len() implies ids@[j] != id by {
            if j > p {
                assert(ids@[p as int] < ids@[j]);
            }
        }
        let mut queue = QueueStats {
            rx_bytes: None,
            tx_bytes: None,
            rx_count: None,
            tx_count: None,
            tx_missed_tx: None,
            tx_unmask_interrupt: None,
            custom_stats: None,
        };
        insert_stat(&mut queue, field, value);
        let ghost before = ids@;
        ids.insert(p, id);
        queues.insert(p, queue);
        proof {
            assert(queues.deep_view() =~= views.insert(
                p as int,
                stat_inserted(no_queue_stats(), field@, value),
            ));
            assert forall|a: int, b: int| 0 <= a < b < ids@.len() implies ids@[a] < ids@[b] by {
                if a == p && b - 1 > p {
                    assert(before[p as int] < before[b - 1]);
                }
            }
        }
        (p, false)
    }
}

/// The queues seen so far stay the queues of the statistics seen so far
/// when one more statistic of a queue is put among them.
proof fn lemma_queue_put(
    seen: RawStats,
    next: RawStats,
    old_ids: Seq<usize>,
    old_views: Seq<QueueStatsView>,
    ids: Seq<usize>,
    views: Seq<QueueStatsView>,
    p: int,
    found: bool,
    id: usize,
    field: Seq<char>,
)
    requires
        next.len() > 0,
        next.drop_last() == seen,
        classify(next.last().0) == (StatKind::Queue { id, field }),
        ascending(old_ids),
        old_ids.len() == old_views.len(),
        old_ids.to_set() == queue_ids(seen),
        forall|j: int| 0 <= j < old_ids.len() ==> #[trigger] old_views[j] == queue_of(seen, old_ids[j]),
        ascending(ids),
        0 <= p < ids.len(),
        p <= old_ids.len(),
        ids[p] == id,
        found <==> old_ids.contains(id),
        found ==> ids == old_ids && views == old_views.update(
            p,
            stat_inserted(old_views[p], field, next.last().1),
        ),
        !found ==> ids == old_ids.insert(p, id) && views == old_views.insert(
            p,
            stat_inserted(no_queue_stats(), field, next.last().1),
        ),
    ensures
        ids.len() == views.len(),
        ids.to_set() == queue_ids(next),
        forall|j: int| 0 <= j < ids.len() ==> #[trigger] views[j] == queue_of(next, ids[j]),
{
    lemma_queue_ids_step(next);
    if !found {
        old_ids.insert_ensures(p, id);
        old_views.insert_ensures(p, stat_inserted(no_queue_stats(), field, next.last().1));
        assert(!queue_ids(seen).contains(id)) by {
            assert(!old_ids.to_set().contains(id));
        }
        lemma_absent_queue(seen, id);
    }
    assert(ids.to_set() =~= old_ids.to_set().insert(id)) by {
        assert forall|x: usize| ids.to_set().contains(x) implies old_ids.to_set().insert(
            id,
        ).contains(x) by {
            assert(ids.contains(x));
            let j = choose|j: int| 0 <= j < ids.len() && ids[j] == x;
            if !found && j != p {
                let h = if j < p {
                    j
                } else {
                    j - 1
                };
                assert(old_ids[h] == x);
            }
        }
        assert forall|x: usize| old_ids.to_set().insert(id).contains(x) implies ids.to_set().contains(
            x,
        ) by {
            if x == id {
                assert(ids[p] == x);
            } else {
                assert(old_ids.contains(x));
                let h = choose|h: int| 0 <= h < old_ids.len() && old_ids[h] == x;
                let j = if found || h < p {
                    h
                } else {
                    h + 1
                };
                assert(ids[j] == x);
            }
        }
    }
    assert forall|j: int| 0 <= j < ids.len() implies #[trigger] views[j] == queue_of(
        next,
        ids[j],
    ) by {
        if j != p {
            let h = if found || j < p {
                j
            } else {
                j - 1
            };
            assert(ids[j] != id) by {
                if j < p {
                    assert(ids[j] < ids[p]);
                } else {
                    assert(ids[p] < ids[j]);
                }
            }
            assert(old_views[h] == queue_of(seen, old_ids[h]));
        } else if found {
            assert(old_views[p] == queue_of(seen, old_ids[p]));
        }
    }
}

/// Sorts the statistics of one NIC into its record: the counters of each
/// queue, in the order of the queues' indices, the timeout count, and the
/// custom mapping. It fails if a per-queue name carries no queue index.
pub fn translate_stats(stats: Vec<(String, u64)>) -> (r: Result<NicStats, Error>)
    ensures
        translation(stats.deep_view(), outcome_view(r)),
{
    let ghost raw = stats.deep_view();
    let mut ids: Vec<usize> = Vec::new();
    let mut queues: Vec<QueueStats> = Vec::new();
    let mut tx_timeout: Option<u64> = None;
    let mut custom: Option<CustomStats> = None;
    let mut i: usize = 0;
    proof {
        assert(queue_ids(raw.take(0)) =~= Set::<usize>::empty());
        assert(ids@.to_set() =~= Set::<usize>::empty());
    }
    while i < stats.len()
        invariant
            i <= stats@.len(),
            raw == stats.deep_view(),
            ascending(ids@),
            ids@.len() == queues@.len(),
            ids@.to_set() == queue_ids(raw.take(i as int)),
            forall|j: int|
                0 <= j < ids@.len() ==> #[trigger] queues.deep_view()[j] == queue_of(
                    raw.take(i as int),
                    ids@[j],
                ),
            tx_timeout == tx_timeout_of(raw.take(i as int)),
            custom.deep_view() == custom_of(raw.take(i as int)),
            forall|j: int| 0 <= j < i ==> !(classify(#[trigger] raw[j].0) is Malformed),
        decreases stats@.len() - i,
    {
        let name = stats[i].0.as_str();
        let value = stats[i].1;
        let ghost seen = raw.take(i as int);
        let ghost next = raw.take(i + 1);
        proof {
            assert(next.drop_last() =~= seen);
            assert(next.last() == raw[i as int]);
            assert(raw[i as int] == (name@, value));
            lemma_queue_ids_step(next);
        }
        let mut other: bool = false;
        if is_queue_stat(name) {
            match parse_queue_stat(name) {
                Err(e) => {
                    assert(classify(raw[i as int].0) is Malformed);
                    return Err(e);
                },
                Ok((id, Some(field))) => {
                    let ghost old_ids = ids@;
                    let ghost old_views = queues.deep_view();
                    let (p, found) = put_stat(&mut ids, &mut queues, id, field, value);
                    proof {
                        lemma_queue_put(
                            seen,
                            next,
                            old_ids,
                            old_views,
                            ids@,
                            queues.deep_view(),
                            p as int,
                            found,
                            id,
                            field@,
                        );
                    }
                },
                Ok((_, None)) => {
                    other = true;
                },
            }
        } else if same_name(name, "tx_timeout") {
            tx_timeout = Some(value);
        } else {
            other = true;
        }
        if other {
            insert_custom(&mut custom, name, value);
        }
        i += 1;
    }
    proof {
        assert(raw.take(i as int) =~= raw);
        if ids@.len() > 0 {
            assert(ids@.contains(ids@[0]));
            assert(queue_ids(raw).contains(ids@[0]));
        } else {
            assert(ids@.to_set() =~= Set::<usize>::empty());
        }
    }
    let queue = if ids.len() == 0 {
        None
    } else {
        assert(queues_in_order(raw, ids@, queues.deep_view()));
        Some(queues)
    };
    let nic = NicStats { queue, tx_timeout, custom_stats: custom };
    assert(nic.deep_view().queue matches Some(found) ==> queues_in_order(raw, ids@, found));
    Ok(nic)
}

/// Whether `r` is what reading and sorting the statistics of the interface
/// `if_name` over the transport `ioctl` may come to.
pub open spec fn nic_outcome<T: Fn(IfRequest) -> Reply>(
    ioctl: T,
    if_name: Seq<char>,
    r: Result<NicStatsView, Error>,
) -> bool {
    exists|raw: Result<RawStats, Error>|
        #![trigger stats_outcome(ioctl, if_name, raw)]
        stats_outcome(ioctl, if_name, raw) && match raw {
            Err(e) => r == Err::<NicStatsView, Error>(e),
            Ok(stats) => translation(stats, r),
        }
}

/// Whether the name of an interface fits the name field of a request.
pub open spec fn name_fits(if_name: Seq<char>) -> bool {
    encode_utf8(if_name).len() <= IFNAME_MAX_SIZE
}

/// Reads the statistics of a host's NICs.
pub struct EthtoolReader {
    interfaces: Vec<String>,
}

impl EthtoolReader {
    /// The names of the interfaces that are polled, in the order in which
    /// they are polled.
    pub closed spec fn interfaces(&self) -> Seq<Seq<char>> {
        self.interfaces.deep_view()
    }

    /// A reader that polls the interface `ens5`.
    pub fn new() -> (r: Self)
        ensures
            r.interfaces() == seq!["ens5"@],
    {
        let mut interfaces: Vec<String> = Vec::new();
        interfaces.push("ens5".to_owned());
        let r = EthtoolReader { interfaces };
        assert(r.interfaces() =~= seq!["ens5"@]);
        r
    }

    /// A reader that polls the interfaces named.
    pub fn with_interfaces(interfaces: Vec<String>) -> (r: Self)
        ensures
            r.interfaces() == interfaces.deep_view(),
    {
        EthtoolReader { interfaces }
    }

    /// Reads the statistics of the NIC behind the interface `if_name`.
    pub fn read_nic_stats<T: Fn(IfRequest) -> Reply>(&self, if_name: &str, ioctl: &T) -> (r:
        Result<NicStats, Error>)
        requires
            name_fits(if_name@),
            forall|request: IfRequest| call_requires(*ioctl, (request,)),
        ensures
            nic_outcome(*ioctl, if_name@, outcome_view(r)),
    {
        let raw = Ethtool::init(if_name).stats(ioctl);
        match raw {
            Ok(stats) => translate_stats(stats),
            Err(error) => Err(error),
        }
    }

    /// Takes one snapshot: the statistics of each interface polled that could
    /// be read. An interface whose read fails, or whose name is longer than
    /// the kernel allows, is left out.
    pub fn read_stats<T: Fn(IfRequest) -> Reply>(&self, ioctl: &T) -> (r: Result<NetStats, Error>)
        requires
            forall|request: IfRequest| call_requires(*ioctl, (request,)),
        ensures
            r matches Ok(stats) && stats.nic matches Some(nics) && {
                &&& forall|name: Seq<char>| #[trigger]
                    nics@.contains_key(name) ==> self.interfaces().contains(name) && name_fits(
                        name,
                    ) && nic_outcome(*ioctl, name, Ok(nics@[name].deep_view()))
                &&& forall|i: int|
                    0 <= i < self.interfaces().len() && !nics@.contains_key(
                        #[trigger] self.interfaces()[i],
                    ) ==> !name_fits(self.interfaces()[i]) || exists|e: Error|
                        nic_outcome(*ioctl, self.interfaces()[i], Err(e))
            },
    {
        let mut nics: NicMap = NameMap::new();
        let mut i: usize = 0;
        while i < self.interfaces.len()
            invariant
                i <= self.interfaces@.len(),
                forall|request: IfRequest| call_requires(*ioctl, (request,)),
                forall|name: Seq<char>| #[trigger]
                    nics@.contains_key(name) ==> self.interfaces().contains(name) && name_fits(
                        name,
                    ) && nic_outcome(*ioctl, name, Ok(nics@[name].deep_view())),
                forall|j: int|
                    0 <= j < i && !nics@.contains_key(#[trigger] self.interfaces()[j])
                        ==> !name_fits(self.interfaces()[j]) || exists|e: Error|
                        nic_outcome(*ioctl, self.interfaces()[j], Err(e)),
            decreases self.interfaces@.len() - i,
        {
            let if_name = self.interfaces[i].as_str();
            assert(self.interfaces()[i as int] == if_name@);
            if if_name.as_bytes().len() <= IFNAME_MAX_SIZE {
                let read = self.read_nic_stats(if_name, ioctl);
                match read {
                    Ok(nic_stats) => {
                        assert(nic_outcome(*ioctl, if_name@, Ok(nic_stats.deep_view())));
                        assert(self.interfaces().contains(if_name@));
                        nics.insert(if_name.to_owned(), nic_stats);
                    },
                    Err(e) => {
                        assert(nic_outcome(*ioctl, if_name@, Err(e)));
                    },
                }
            }
            i += 1;
        }
        Ok(EthtoolStats { nic: Some(nics) })
    }
}

} // verus!
