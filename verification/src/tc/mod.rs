//! Reading the queueing disciplines of a host over netlink.

pub mod dump;
pub mod errors;
pub mod netlink;
pub mod types;

use vstd::prelude::*;
use std::collections::BTreeMap;
use netlink_packet_route::tc::TcMessage;
use crate::tc::dump::DumpStateView;
use crate::tc::dump::DumpView;
use crate::tc::dump::fed;
use crate::tc::dump::lemma_qdiscs_of_concat;
use crate::tc::dump::lemma_walk_keeps_in_order;
use crate::tc::dump::met;
use crate::tc::dump::qdiscs_of;
use crate::tc::dump::steps_at;
use crate::tc::dump::steps_of_read;
use crate::tc::dump::walk;
use crate::tc::dump::Frame;
use crate::tc::dump::outcome_of;
use crate::tc::dump::QdiscDump;
use crate::tc::errors::TcError;
use crate::tc::types::draft_of;
use crate::tc::types::is_known_kind;
use crate::tc::types::Tc;
use crate::tc::types::tc_of;
use crate::tc::types::tc_of_message;
use crate::tc::types::TcAttr;
use crate::tc::types::TcIdent;
use crate::tc::types::TcView;

verus! {

/// The queueing disciplines of a host, by the index of the interface that
/// each is attached to.
pub type TcStats = BTreeMap<u32, Tc>;

/// The map that the records `tcs` make when each is put under its
/// interface's index, in order: of two records of one interface the later
/// stays.
pub open spec fn tc_map(tcs: Seq<TcView>) -> Map<u32, TcView>
    decreases tcs.len(),
{
    if tcs.len() == 0 {
        Map::empty()
    } else {
        tc_map(tcs.drop_last()).insert(tcs.last().index, tcs.last())
    }
}

/// The records of the messages `messages`, in order.
pub open spec fn records_of(messages: Seq<TcMessage>) -> Seq<TcView> {
    Seq::new(messages.len(), |i: int| tc_of_message(messages[i]))
}

/// Whether the map `stats` holds the records `goal`: the same indices, and
/// under each the same record.
pub open spec fn holds_records(stats: Map<u32, Tc>, goal: Map<u32, TcView>) -> bool {
    &&& stats.dom() == goal.dom()
    &&& forall|k: u32| stats.contains_key(k) ==> #[trigger] stats[k].deep_view() == goal[k]
}

/// Every record of the map stands under its own interface's index.
pub proof fn lemma_tc_map_keys(tcs: Seq<TcView>)
    ensures
        forall|k: u32| tc_map(tcs).contains_key(k) ==> #[trigger] tc_map(tcs)[k].index == k,
    decreases tcs.len(),
{
    if tcs.len() > 0 {
        lemma_tc_map_keys(tcs.drop_last());
    }
}

/// A kind that the library does not know gives a record without options and
/// without extended statistics, and with the header and every counter that
/// the message's attributes give.
pub proof fn lemma_unknown_kind(ident: TcIdent, attrs: Seq<TcAttr>)
    requires
        !is_known_kind(draft_of(attrs).kind),
    ensures
        tc_of(ident, attrs).qdisc is None,
        tc_of(ident, attrs).stats.xstats is None,
        tc_of(ident, attrs).index == ident.index,
        tc_of(ident, attrs).handle == ident.handle,
        tc_of(ident, attrs).parent == ident.parent,
        tc_of(ident, attrs).kind == draft_of(attrs).kind,
        tc_of(ident, attrs).stats.bytes == draft_of(attrs).stats.bytes,
        tc_of(ident, attrs).stats.packets == draft_of(attrs).stats.packets,
        tc_of(ident, attrs).stats.qlen == draft_of(attrs).stats.qlen,
        tc_of(ident, attrs).stats.backlog == draft_of(attrs).stats.backlog,
        tc_of(ident, attrs).stats.drops == draft_of(attrs).stats.drops,
        tc_of(ident, attrs).stats.requeues == draft_of(attrs).stats.requeues,
        tc_of(ident, attrs).stats.overlimits == draft_of(attrs).stats.overlimits,
        tc_of(ident, attrs).stats.bps == draft_of(attrs).stats.bps,
        tc_of(ident, attrs).stats.pps == draft_of(attrs).stats.pps,
{
}

/// Turns what a dump came to into the map of queueing disciplines: an error
/// stays the error; the messages become records, each under its interface's
/// index.
pub fn read_tc_stats(messages: Result<Vec<TcMessage>, TcError>) -> (r: Result<TcStats, TcError>)
    ensures
        match messages {
            Err(e) => r == Err::<TcStats, TcError>(e),
            Ok(found) => r matches Ok(stats) && holds_records(
                stats@,
                tc_map(records_of(found@)),
            ) && forall|k: u32| stats@.contains_key(k) ==> (#[trigger] stats@[k]).index == k,
        },
{
    let found = match messages {
        Ok(found) => found,
        Err(e) => {
            return Err(e);
        },
    };
    let ghost records = records_of(found@);
    let mut stats: TcStats = BTreeMap::new();
    let mut i: usize = 0;
    while i < found.len()
        invariant
            i <= found@.len(),
            records == records_of(found@),
            holds_records(stats@, tc_map(records.take(i as int))),
        decreases found@.len() - i,
    {
        let tc = Tc::new(&found[i]);
        proof {
            assert(records.take(i + 1).drop_last() =~= records.take(i as int));
            assert(records.take(i + 1).last() == tc.deep_view());
        }
        let ghost before = stats@;
        stats.insert(tc.index, tc);
        proof {
            assert(stats@ == before.insert(tc.index, tc));
            assert(stats@.dom() =~= tc_map(records.take(i + 1)).dom());
        }
        i += 1;
    }
    proof {
        assert(records.take(i as int) =~= records);
        lemma_tc_map_keys(records);
        assert forall|k: u32| stats@.contains_key(k) implies (#[trigger] stats@[k]).index == k by {
            assert(stats@[k].deep_view() == tc_map(records)[k]);
            assert(tc_map(records).contains_key(k));
            assert(tc_map(records)[k].index == k);
            assert(stats@[k].deep_view().index == stats@[k].index);
        }
    }
    Ok(stats)
}

/// Whether `states` are where a dump stood before the first of the `reads`
/// and after each of them: it begins without any message, waiting for data,
/// and is fed each read in turn. Once it has ended or failed the reads
/// change nothing.
pub open spec fn dump_of_reads<D: Fn(&[u8]) -> Result<Frame, String>>(
    decode: D,
    reads: Seq<Vec<u8>>,
    states: Seq<DumpView>,
) -> bool {
    &&& states.len() == reads.len() + 1
    &&& states[0] == (DumpStateView::AwaitingData, Seq::<TcMessage>::empty())
    &&& forall|i: int|
        0 <= i < reads.len() ==> fed(decode, #[trigger] states[i], reads[i]@, states[i + 1])
}

/// Whether `r` is what a dump that came to stand at `end` gives: the records
/// of the messages kept, each under its interface's index, if it ended with
/// the marker; else its failure.
pub open spec fn stats_of_dump(end: DumpView, r: Result<TcStats, TcError>) -> bool {
    match outcome_of(end.0, end.1) {
        Ok(kept) => r matches Ok(stats) && holds_records(stats@, tc_map(records_of(kept))),
        Err(text) => r matches Err(TcError::Netlink(m)) && m@ == text,
    }
}

/// All that the walks of the reads met, read after read.
pub open spec fn stream_of(steps: Seq<Seq<Result<Frame, String>>>) -> Seq<Result<Frame, String>>
    decreases steps.len(),
{
    if steps.len() == 0 {
        Seq::empty()
    } else {
        stream_of(steps.drop_last()) + steps.last()
    }
}

/// Whether the dump walked each of the `reads` in turn, read `r` in the
/// steps `steps[r]`, and stood at `states[r]` before it: each read found the
/// dump waiting for data and was walked to its end.
pub open spec fn reads_walked<D: Fn(&[u8]) -> Result<Frame, String>>(
    decode: D,
    reads: Seq<Vec<u8>>,
    steps: Seq<Seq<Result<Frame, String>>>,
    states: Seq<DumpView>,
) -> bool {
    &&& steps.len() == reads.len()
    &&& states.len() == reads.len() + 1
    &&& states[0] == (DumpStateView::AwaitingData, Seq::<TcMessage>::empty())
    &&& forall|r: int|
        0 <= r < reads.len() ==> {
            &&& (#[trigger] states[r]).0 is AwaitingData
            &&& steps_of_read(decode, reads[r]@, states[r].1, steps[r])
            &&& states[r + 1] == walk(
                (DumpStateView::Parsing { offset: 0, size: reads[r]@.len() as usize }, states[r].1),
                steps[r],
            )
        }
}

/// After `r` of the reads the dump keeps the queueing disciplines that the
/// walks of those reads met, in the order of the stream.
proof fn lemma_kept_after_reads<D: Fn(&[u8]) -> Result<Frame, String>>(
    decode: D,
    reads: Seq<Vec<u8>>,
    steps: Seq<Seq<Result<Frame, String>>>,
    states: Seq<DumpView>,
    r: int,
)
    requires
        reads_walked(decode, reads, steps, states),
        0 <= r <= reads.len(),
    ensures
        states[r].1 == qdiscs_of(stream_of(steps.take(r))),
    decreases r,
{
    if r > 0 {
        lemma_kept_after_reads(decode, reads, steps, states, r - 1);
        let start = (
            DumpStateView::Parsing { offset: 0, size: reads[r - 1]@.len() as usize },
            states[r - 1].1,
        );
        assert(states[r - 1].0 is AwaitingData);
        assert(steps_of_read(decode, reads[r - 1]@, states[r - 1].1, steps[r - 1]));
        assert forall|j: int| 0 <= j < steps[r - 1].len() implies (#[trigger] walk(
            start,
            steps[r - 1].take(j),
        )).0 is Parsing by {
            assert(steps_at(
                decode,
                reads[r - 1]@,
                walk(start, steps[r - 1].take(j)).0,
                steps[r - 1][j],
            ));
        }
        lemma_walk_keeps_in_order(start, steps[r - 1]);
        assert(steps.take(r).drop_last() =~= steps.take(r - 1));
        assert(steps.take(r).last() == steps[r - 1]);
        lemma_qdiscs_of_concat(stream_of(steps.take(r - 1)), steps[r - 1]);
    }
}

/// However the answer to the dump request is split over reads, and the
/// messages over the reads: where the dump walks every read and ends with
/// the marker, it gives the queueing disciplines of the whole stream, each
/// once and in the order of the stream, and nothing else. The marker is the
/// last message that it walks, and no message before it ends or fails the
/// dump.
pub proof fn lemma_stream_is_kept_in_order<D: Fn(&[u8]) -> Result<Frame, String>>(
    decode: D,
    reads: Seq<Vec<u8>>,
    steps: Seq<Seq<Result<Frame, String>>>,
    states: Seq<DumpView>,
)
    requires
        reads_walked(decode, reads, steps, states),
        states.last().0 is Done,
    ensures
        dump_of_reads(decode, reads, states),
        outcome_of(states.last().0, states.last().1) == Ok::<Seq<TcMessage>, Seq<char>>(
            qdiscs_of(stream_of(steps)),
        ),
        reads.len() > 0,
        met(steps.last().last()) is Done,
        forall|r: int, j: int|
            0 <= r < steps.len() && 0 <= j < steps[r].len() && !(r == steps.len() - 1 && j
                == steps[r].len() - 1) ==> met(#[trigger] steps[r][j]) is Qdisc || met(steps[r][j])
                is Other,
{
    let n = reads.len() as int;
    assert(states.last() == states[n]);
    lemma_kept_after_reads(decode, reads, steps, states, n);
    assert(steps.take(n) =~= steps);
    assert forall|i: int| 0 <= i < reads.len() implies fed(
        decode,
        #[trigger] states[i],
        reads[i]@,
        states[i + 1],
    ) by {
        assert(states[i].0 is AwaitingData);
        assert(steps_of_read(decode, reads[i]@, states[i].1, steps[i]));
    }
    assert forall|r: int, j: int|
        0 <= r < steps.len() && 0 <= j < steps[r].len() && !(r == steps.len() - 1 && j
            == steps[r].len() - 1) implies met(#[trigger] steps[r][j]) is Qdisc || met(steps[r][j])
        is Other by {
        let start = (
            DumpStateView::Parsing { offset: 0, size: reads[r]@.len() as usize },
            states[r].1,
        );
        assert(states[r].0 is AwaitingData);
        assert(steps_of_read(decode, reads[r]@, states[r].1, steps[r]));
        assert forall|k: int| 0 <= k < steps[r].len() implies (#[trigger] walk(
            start,
            steps[r].take(k),
        )).0 is Parsing by {
            assert(steps_at(decode, reads[r]@, walk(start, steps[r].take(k)).0, steps[r][k]));
        }
        lemma_walk_keeps_in_order(start, steps[r]);
        if j == steps[r].len() - 1 {
            assert(states[r + 1].0 is AwaitingData);
            assert(steps[r].take(steps[r].len() - 1) =~= steps[r].drop_last());
            assert(walk(start, steps[r].drop_last()).0 is Parsing);
        }
    }
    if n > 0 {
        let r = n - 1;
        let start = (
            DumpStateView::Parsing { offset: 0, size: reads[r]@.len() as usize },
            states[r].1,
        );
        assert(states[r].0 is AwaitingData);
        assert(steps_of_read(decode, reads[r]@, states[r].1, steps[r]));
        assert(steps[r].take(steps[r].len() - 1) =~= steps[r].drop_last());
        assert(steps_at(
            decode,
            reads[r]@,
            walk(start, steps[r].take(steps[r].len() - 1)).0,
            steps[r][steps[r].len() - 1],
        ));
        assert(steps.last() == steps[r]);
    }
}

/// Reads the queueing disciplines of a host from the reads that answered the
/// dump request, in the order in which they were received. `decode` gives
/// the message that bytes begin with. The reads are walked up to the marker
/// that ends the dump; reads after it are not looked at. It fails if a
/// message cannot be decoded, if the kernel reports an error, or if the
/// reads end before the marker.
pub fn tc_stats<D: Fn(&[u8]) -> Result<Frame, String>>(reads: &Vec<Vec<u8>>, decode: &D) -> (r:
    Result<TcStats, TcError>)
    requires
        forall|bytes: &[u8]| call_requires(*decode, (bytes,)),
    ensures
        exists|states: Seq<DumpView>| #[trigger]
            dump_of_reads(*decode, reads@, states) && stats_of_dump(states.last(), r),
        reads@.len() == 0 ==> r is Err,
        r matches Ok(stats) ==> forall|k: u32|
            stats@.contains_key(k) ==> (#[trigger] stats@[k]).index == k,
{
    let mut dump = QdiscDump::new();
    let ghost states = seq![dump@];
    let mut i: usize = 0;
    while i < reads.len() && dump.wants_data()
        invariant
            i <= reads@.len(),
            forall|bytes: &[u8]| call_requires(*decode, (bytes,)),
            i == 0 ==> dump.state.deep_view() is AwaitingData,
            states.len() == i + 1,
            states[0] == (DumpStateView::AwaitingData, Seq::<TcMessage>::empty()),
            states.last() == dump@,
            forall|j: int|
                0 <= j < i ==> fed(*decode, #[trigger] states[j], reads@[j]@, states[j + 1]),
        decreases reads@.len() - i,
    {
        let ghost before = states;
        dump.feed(reads[i].as_slice(), decode);
        proof {
            states = before.push(dump@);
            assert forall|j: int| 0 <= j < i + 1 implies fed(
                *decode,
                #[trigger] states[j],
                reads@[j]@,
                states[j + 1],
            ) by {
                if j < i {
                    assert(states[j] == before[j]);
                    assert(states[j + 1] == before[j + 1]);
                }
            }
        }
        i += 1;
    }
    proof {
        let rest = (reads@.len() - i) as nat;
        let all = states + Seq::new(rest, |j: int| dump@);
        assert(all.last() == dump@);
        assert forall|j: int| 0 <= j < reads@.len() implies fed(
            *decode,
            #[trigger] all[j],
            reads@[j]@,
            all[j + 1],
        ) by {
            if j < i {
                assert(all[j] == states[j]);
                assert(all[j + 1] == states[j + 1]);
            }
        }
        assert(dump_of_reads(*decode, reads@, all));
    }
    let ghost end = dump@;
    let r = read_tc_stats(dump.finish());
    proof {
        assert(stats_of_dump(end, r));
    }
    r
}

} // verus!
