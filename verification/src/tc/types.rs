//! One queueing discipline as the library holds it, and what a netlink
//! message says of one, as plain values.

use vstd::prelude::*;
use netlink_packet_route::tc::TcMessage;
use crate::name_map::same_name;
use crate::tc::netlink::attribute_count;
use crate::tc::netlink::attribute_kind;
use crate::tc::netlink::attribute_stats;
use crate::tc::netlink::attribute_xstats;
use crate::tc::netlink::fq_codel_option;
use crate::tc::netlink::header_of;
use crate::tc::netlink::option_count;
use crate::tc::netlink::stats2_count;
use crate::tc::netlink::stats2_item;
use crate::tc::netlink::tc_attributes;
use crate::tc::netlink::tc_header;

verus! {

/// One option of an fq_codel queueing discipline.
#[derive(Clone, Copy, Debug, PartialEq, Eq, Structural)]
pub enum FqCodelOption {
    Target(u32),
    Limit(u32),
    Interval(u32),
    Ecn(u32),
    Flows(u32),
    Quantum(u32),
    CeThreshold(u32),
    DropBatchSize(u32),
    MemoryLimit(u32),
}

/// The counters of the older, single statistics attribute.
#[derive(Clone, Copy, Debug, PartialEq, Eq, Structural)]
pub struct LegacyStats {
    pub bytes: u64,
    pub packets: u32,
    pub drops: u32,
    pub overlimits: u32,
    pub bps: u32,
    pub pps: u32,
    pub qlen: u32,
    pub backlog: u32,
}

/// One entry of the newer list of statistics.
#[derive(Clone, Copy, Debug, PartialEq, Eq, Structural)]
pub enum Stats2Item {
    /// Bytes and packets sent.
    Basic { bytes: u64, packets: u32 },
    /// The state of the queue.
    Queue { qlen: u32, backlog: u32, drops: u32, requeues: u32, overlimits: u32 },
    /// An entry that the library does not read.
    Other,
}

/// The options of an fq_codel queueing discipline.
#[derive(Clone, Copy, Debug, PartialEq, Eq, Structural, Default)]
pub struct FqCodelQDisc {
    pub target: u32,
    pub limit: u32,
    pub interval: u32,
    pub ecn: u32,
    pub flows: u32,
    pub quantum: u32,
    pub ce_threshold: u32,
    pub drop_batch_size: u32,
    pub memory_limit: u32,
}

/// The options of a queueing discipline, by its kind.
#[derive(Clone, Copy, Debug, PartialEq, Eq, Structural)]
pub enum QDisc {
    FqCodel(FqCodelQDisc),
}

/// The extended statistics of an fq_codel queueing discipline.
#[derive(Clone, Copy, Debug, PartialEq, Eq, Structural, Default)]
pub struct FqCodelXStats {
    pub maxpacket: u32,
    pub drop_overlimit: u32,
    pub ecn_mark: u32,
    pub new_flow_count: u32,
    pub new_flows_len: u32,
    pub old_flows_len: u32,
    pub ce_mark: u32,
    pub memory_usage: u32,
    pub drop_overmemory: u32,
}

/// The extended statistics of a queueing discipline, by its kind.
#[derive(Clone, Copy, Debug, PartialEq, Eq, Structural)]
pub enum XStats {
    FqCodel(FqCodelXStats),
}

/// The counters of a queueing discipline. A counter that no attribute of
/// the message gave is absent.
#[derive(Clone, Copy, Debug, PartialEq, Eq, Structural, Default)]
pub struct Stats {
    pub bytes: Option<u64>,
    pub packets: Option<u32>,
    pub qlen: Option<u32>,
    pub backlog: Option<u32>,
    pub drops: Option<u32>,
    pub requeues: Option<u32>,
    pub overlimits: Option<u32>,
    pub xstats: Option<XStats>,
    pub bps: Option<u32>,
    pub pps: Option<u32>,
}

/// One queueing discipline or class.
#[derive(Clone, Debug, PartialEq, Eq, Default)]
pub struct Tc {
    /// The index of the interface that it is attached to.
    pub index: u32,
    pub handle: u32,
    pub parent: u32,
    /// Its kind, such as `fq_codel`.
    pub kind: String,
    pub stats: Stats,
    /// Its options, where the library knows its kind.
    pub qdisc: Option<QDisc>,
}

/// A queueing discipline as plain values.
pub struct TcView {
    pub index: u32,
    pub handle: u32,
    pub parent: u32,
    pub kind: Seq<char>,
    pub stats: Stats,
    pub qdisc: Option<QDisc>,
}

impl DeepView for Tc {
    type V = TcView;

    open spec fn deep_view(&self) -> TcView {
        TcView {
            index: self.index,
            handle: self.handle,
            parent: self.parent,
            kind: self.kind@,
            stats: self.stats,
            qdisc: self.qdisc,
        }
    }
}

/// What the header of a message says: the interface's index, the handle and
/// the parent's handle.
#[derive(Clone, Copy, Debug, PartialEq, Eq, Structural)]
pub struct TcIdent {
    pub index: u32,
    pub handle: u32,
    pub parent: u32,
}

/// One attribute of a message, as far as the library reads it.
pub enum TcAttr {
    /// The kind of the queueing discipline.
    Kind(Seq<char>),
    /// Its options; `None` stands for an option that is not one of fq_codel.
    Options(Seq<Option<FqCodelOption>>),
    /// The older, single statistics attribute.
    Stats(LegacyStats),
    /// The newer list of statistics.
    Stats2(Seq<Stats2Item>),
    /// The extended statistics; `None` where they are not those of an
    /// fq_codel queueing discipline.
    Xstats(Option<FqCodelXStats>),
    /// An attribute that the library does not read.
    Other,
}

/// What the attributes of a message come to, before the kind decides what
/// is kept of it.
pub struct TcDraft {
    /// The kind that the last kind attribute gave; empty where there is none.
    pub kind: Seq<char>,
    /// The options of the last options attribute.
    pub options: Seq<Option<FqCodelOption>>,
    /// The counters gathered, without extended statistics.
    pub stats: Stats,
    /// What the last attribute of extended statistics gave.
    pub xstats: Option<FqCodelXStats>,
}

/// No counter at all.
pub open spec fn no_stats() -> Stats {
    Stats {
        bytes: None,
        packets: None,
        qlen: None,
        backlog: None,
        drops: None,
        requeues: None,
        overlimits: None,
        xstats: None,
        bps: None,
        pps: None,
    }
}

/// The options of fq_codel, each 0.
pub open spec fn no_options() -> FqCodelQDisc {
    FqCodelQDisc {
        target: 0,
        limit: 0,
        interval: 0,
        ecn: 0,
        flows: 0,
        quantum: 0,
        ce_threshold: 0,
        drop_batch_size: 0,
        memory_limit: 0,
    }
}

/// The counters after the older statistics attribute: it gives all of its
/// eight.
pub open spec fn legacy_applied(stats: Stats, s: LegacyStats) -> Stats {
    Stats {
        bytes: Some(s.bytes),
        packets: Some(s.packets),
        drops: Some(s.drops),
        overlimits: Some(s.overlimits),
        bps: Some(s.bps),
        pps: Some(s.pps),
        qlen: Some(s.qlen),
        backlog: Some(s.backlog),
        ..stats
    }
}

/// The counters after one entry of the newer list of statistics.
pub open spec fn item_applied(stats: Stats, item: Stats2Item) -> Stats {
    match item {
        Stats2Item::Basic { bytes, packets } => Stats {
            bytes: Some(bytes),
            packets: Some(packets),
            ..stats
        },
        Stats2Item::Queue { qlen, backlog, drops, requeues, overlimits } => Stats {
            qlen: Some(qlen),
            backlog: Some(backlog),
            drops: Some(drops),
            requeues: Some(requeues),
            overlimits: Some(overlimits),
            ..stats
        },
        Stats2Item::Other => stats,
    }
}

/// The counters after all entries of the newer list, in order.
pub open spec fn items_applied(stats: Stats, items: Seq<Stats2Item>) -> Stats
    decreases items.len(),
{
    if items.len() == 0 {
        stats
    } else {
        item_applied(items_applied(stats, items.drop_last()), items.last())
    }
}

/// The options of fq_codel after one option of a message: an option of
/// fq_codel sets its field.
pub open spec fn option_applied(q: FqCodelQDisc, option: Option<FqCodelOption>) -> FqCodelQDisc {
    match option {
        Some(FqCodelOption::Target(v)) => FqCodelQDisc { target: v, ..q },
        Some(FqCodelOption::Limit(v)) => FqCodelQDisc { limit: v, ..q },
        Some(FqCodelOption::Interval(v)) => FqCodelQDisc { interval: v, ..q },
        Some(FqCodelOption::Ecn(v)) => FqCodelQDisc { ecn: v, ..q },
        Some(FqCodelOption::Flows(v)) => FqCodelQDisc { flows: v, ..q },
        Some(FqCodelOption::Quantum(v)) => FqCodelQDisc { quantum: v, ..q },
        Some(FqCodelOption::CeThreshold(v)) => FqCodelQDisc { ce_threshold: v, ..q },
        Some(FqCodelOption::DropBatchSize(v)) => FqCodelQDisc { drop_batch_size: v, ..q },
        Some(FqCodelOption::MemoryLimit(v)) => FqCodelQDisc { memory_limit: v, ..q },
        None => q,
    }
}

/// The options of fq_codel that a list of options gives, taken in order.
pub open spec fn fq_codel_of(options: Seq<Option<FqCodelOption>>) -> FqCodelQDisc
    decreases options.len(),
{
    if options.len() == 0 {
        no_options()
    } else {
        option_applied(fq_codel_of(options.drop_last()), options.last())
    }
}

/// The draft after one attribute.
pub open spec fn attr_applied(draft: TcDraft, attr: TcAttr) -> TcDraft {
    match attr {
        TcAttr::Kind(kind) => TcDraft { kind, ..draft },
        TcAttr::Options(options) => TcDraft { options, ..draft },
        TcAttr::Stats(s) => TcDraft { stats: legacy_applied(draft.stats, s), ..draft },
        TcAttr::Stats2(items) => TcDraft { stats: items_applied(draft.stats, items), ..draft },
        TcAttr::Xstats(xstats) => TcDraft { xstats, ..draft },
        TcAttr::Other => draft,
    }
}

/// The draft after all attributes of a message, in order.
pub open spec fn draft_of(attrs: Seq<TcAttr>) -> TcDraft
    decreases attrs.len(),
{
    if attrs.len() == 0 {
        TcDraft { kind: Seq::empty(), options: Seq::empty(), stats: no_stats(), xstats: None }
    } else {
        attr_applied(draft_of(attrs.drop_last()), attrs.last())
    }
}

/// Whether the library decodes the options and the extended statistics of
/// queueing disciplines of this kind.
pub open spec fn is_known_kind(kind: Seq<char>) -> bool {
    kind == "fq_codel"@
}

/// The record of a message with the header `ident` and the attributes
/// `attrs`. The header and the counters are kept whatever the kind; the
/// options and the extended statistics only where the kind is known.
pub open spec fn tc_of(ident: TcIdent, attrs: Seq<TcAttr>) -> TcView {
    let draft = draft_of(attrs);
    TcView {
        index: ident.index,
        handle: ident.handle,
        parent: ident.parent,
        kind: draft.kind,
        stats: Stats {
            xstats: if is_known_kind(draft.kind) {
                match draft.xstats {
                    Some(x) => Some(XStats::FqCodel(x)),
                    None => None,
                }
            } else {
                None
            },
            ..draft.stats
        },
        qdisc: if is_known_kind(draft.kind) {
            Some(QDisc::FqCodel(fq_codel_of(draft.options)))
        } else {
            None
        },
    }
}

/// The record of the message `msg`.
pub open spec fn tc_of_message(msg: TcMessage) -> TcView {
    tc_of(tc_header(msg), tc_attributes(msg))
}

/// Applies one entry of the newer list of statistics to the counters.
fn apply_item(stats: &mut Stats, item: Stats2Item)
    ensures
        *final(stats) == item_applied(*old(stats), item),
{
    match item {
        Stats2Item::Basic { bytes, packets } => {
            stats.bytes = Some(bytes);
            stats.packets = Some(packets);
        },
        Stats2Item::Queue { qlen, backlog, drops, requeues, overlimits } => {
            stats.qlen = Some(qlen);
            stats.backlog = Some(backlog);
            stats.drops = Some(drops);
            stats.requeues = Some(requeues);
            stats.overlimits = Some(overlimits);
        },
        Stats2Item::Other => {},
    }
}

/// Applies one option of a message to the options of fq_codel.
fn apply_option(q: &mut FqCodelQDisc, option: Option<FqCodelOption>)
    ensures
        *final(q) == option_applied(*old(q), option),
{
    match option {
        Some(FqCodelOption::Target(v)) => {
            q.target = v;
        },
        Some(FqCodelOption::Limit(v)) => {
            q.limit = v;
        },
        Some(FqCodelOption::Interval(v)) => {
            q.interval = v;
        },
        Some(FqCodelOption::Ecn(v)) => {
            q.ecn = v;
        },
        Some(FqCodelOption::Flows(v)) => {
            q.flows = v;
        },
        Some(FqCodelOption::Quantum(v)) => {
            q.quantum = v;
        },
        Some(FqCodelOption::CeThreshold(v)) => {
            q.ce_threshold = v;
        },
        Some(FqCodelOption::DropBatchSize(v)) => {
            q.drop_batch_size = v;
        },
        Some(FqCodelOption::MemoryLimit(v)) => {
            q.memory_limit = v;
        },
        None => {},
    }
}

/// The options of fq_codel that attribute `i` of `msg`, a list of `n`
/// options, gives.
fn read_options(msg: &TcMessage, i: usize, n: usize) -> (q: FqCodelQDisc)
    requires
        i < tc_attributes(*msg).len(),
        tc_attributes(*msg)[i as int] matches TcAttr::Options(options) && options.len() == n,
    ensures
        q == fq_codel_of(tc_attributes(*msg)[i as int]->Options_0),
{
    let ghost options = tc_attributes(*msg)[i as int]->Options_0;
    let mut q = FqCodelQDisc {
        target: 0,
        limit: 0,
        interval: 0,
        ecn: 0,
        flows: 0,
        quantum: 0,
        ce_threshold: 0,
        drop_batch_size: 0,
        memory_limit: 0,
    };
    let mut j: usize = 0;
    while j < n
        invariant
            j <= n,
            i < tc_attributes(*msg).len(),
            tc_attributes(*msg)[i as int] is Options,
            options == tc_attributes(*msg)[i as int]->Options_0,
            options.len() == n,
            q == fq_codel_of(options.take(j as int)),
        decreases n - j,
    {
        let option = fq_codel_option(msg, i, j);
        apply_option(&mut q, option);
        proof {
            assert(options.take(j + 1).drop_last() =~= options.take(j as int));
        }
        j += 1;
    }
    assert(options.take(n as int) =~= options);
    q
}

/// The counters after attribute `i` of `msg`, a list of `n` statistics.
fn read_items(msg: &TcMessage, i: usize, n: usize, stats: &mut Stats)
    requires
        i < tc_attributes(*msg).len(),
        tc_attributes(*msg)[i as int] matches TcAttr::Stats2(items) && items.len() == n,
    ensures
        *final(stats) == items_applied(*old(stats), tc_attributes(*msg)[i as int]->Stats2_0),
        final(stats).xstats == old(stats).xstats,
{
    let ghost items = tc_attributes(*msg)[i as int]->Stats2_0;
    let ghost before = *stats;
    let mut j: usize = 0;
    while j < n
        invariant
            j <= n,
            i < tc_attributes(*msg).len(),
            tc_attributes(*msg)[i as int] is Stats2,
            items == tc_attributes(*msg)[i as int]->Stats2_0,
            items.len() == n,
            *stats == items_applied(before, items.take(j as int)),
            stats.xstats == before.xstats,
        decreases n - j,
    {
        let item = stats2_item(msg, i, j);
        apply_item(stats, item);
        proof {
            assert(items.take(j + 1).drop_last() =~= items.take(j as int));
        }
        j += 1;
    }
    assert(items.take(n as int) =~= items);
}

impl Tc {
    /// The record of one traffic-control message: its header, its kind, the
    /// counters that its statistics attributes give, and, where the kind is
    /// known, its options and extended statistics. A kind that the library
    /// does not know leaves those two absent and is no error.
    pub fn new(msg: &TcMessage) -> (tc: Tc)
        ensures
            tc.deep_view() == tc_of_message(*msg),
    {
        let ident = header_of(msg);
        let n = attribute_count(msg);
        let ghost attrs = tc_attributes(*msg);
        let mut kind = String::new();
        let mut options = FqCodelQDisc {
            target: 0,
            limit: 0,
            interval: 0,
            ecn: 0,
            flows: 0,
            quantum: 0,
            ce_threshold: 0,
            drop_batch_size: 0,
            memory_limit: 0,
        };
        let mut stats = Stats {
            bytes: None,
            packets: None,
            qlen: None,
            backlog: None,
            drops: None,
            requeues: None,
            overlimits: None,
            xstats: None,
            bps: None,
            pps: None,
        };
        let mut xstats: Option<FqCodelXStats> = None;
        let mut i: usize = 0;
        while i < n
            invariant
                i <= n,
                n == attrs.len(),
                attrs == tc_attributes(*msg),
                kind@ == draft_of(attrs.take(i as int)).kind,
                options == fq_codel_of(draft_of(attrs.take(i as int)).options),
                stats == draft_of(attrs.take(i as int)).stats,
                stats.xstats is None,
                xstats == draft_of(attrs.take(i as int)).xstats,
            decreases n - i,
        {
            proof {
                assert(attrs.take(i + 1).drop_last() =~= attrs.take(i as int));
                assert(attrs.take(i + 1).last() == attrs[i as int]);
            }
            if let Some(name) = attribute_kind(msg, i) {
                kind = name;
            } else if let Some(legacy) = attribute_stats(msg, i) {
                stats.bytes = Some(legacy.bytes);
                stats.packets = Some(legacy.packets);
                stats.drops = Some(legacy.drops);
                stats.overlimits = Some(legacy.overlimits);
                stats.bps = Some(legacy.bps);
                stats.pps = Some(legacy.pps);
                stats.qlen = Some(legacy.qlen);
                stats.backlog = Some(legacy.backlog);
            } else if let Some(count) = stats2_count(msg, i) {
                read_items(msg, i, count, &mut stats);
            } else if let Some(count) = option_count(msg, i) {
                options = read_options(msg, i, count);
            } else if let Some(found) = attribute_xstats(msg, i) {
                xstats = found;
            } else {
                assert(attrs[i as int] is Other);
            }
            i += 1;
        }
        assert(attrs.take(n as int) =~= attrs);
        let known = same_name(kind.as_str(), "fq_codel");
        if known {
            stats.xstats = match xstats {
                Some(x) => Some(XStats::FqCodel(x)),
                None => None,
            };
        }
        Tc {
            index: ident.index,
            handle: ident.handle,
            parent: ident.parent,
            kind,
            stats,
            qdisc: if known {
                Some(QDisc::FqCodel(options))
            } else {
                None
            },
        }
    }
}

} // verus!
