//! The traffic-control messages of the crate `netlink-packet-route`, and
//! the request that asks for them. Nothing in this file is proved: each
//! function states what the crate's source shows.

use vstd::prelude::*;
use netlink_packet_core::NetlinkHeader;
use netlink_packet_core::NetlinkMessage;
use netlink_packet_core::NetlinkPayload;
use netlink_packet_route::RouteNetlinkMessage;
use netlink_packet_route::tc::TcAttribute;
use netlink_packet_route::tc::TcFqCodelXstats;
use netlink_packet_route::tc::TcMessage;
use netlink_packet_route::tc::TcOption;
use netlink_packet_route::tc::TcQdiscFqCodelOption::CeThreshold;
use netlink_packet_route::tc::TcQdiscFqCodelOption::DropBatchSize;
use netlink_packet_route::tc::TcQdiscFqCodelOption::Ecn;
use netlink_packet_route::tc::TcQdiscFqCodelOption::Flows;
use netlink_packet_route::tc::TcQdiscFqCodelOption::Interval;
use netlink_packet_route::tc::TcQdiscFqCodelOption::Limit;
use netlink_packet_route::tc::TcQdiscFqCodelOption::MemoryLimit;
use netlink_packet_route::tc::TcQdiscFqCodelOption::Quantum;
use netlink_packet_route::tc::TcQdiscFqCodelOption::Target;
use netlink_packet_route::tc::TcStats2;
use netlink_packet_route::tc::TcXstats;
use crate::tc::types::FqCodelOption;
use crate::tc::types::FqCodelXStats;
use crate::tc::types::LegacyStats;
use crate::tc::types::Stats2Item;
use crate::tc::types::TcAttr;
use crate::tc::types::TcIdent;

verus! {

/// `netlink_packet_route::tc::TcMessage`: one decoded traffic-control
/// message.
#[verifier::external_type_specification]
#[verifier::external_body]
pub struct ExTcMessage(TcMessage);

/// The attributes that a message holds, in their order.
pub uninterp spec fn tc_attributes(msg: TcMessage) -> Seq<TcAttr>;

/// What the header of a message holds.
pub uninterp spec fn tc_header(msg: TcMessage) -> TcIdent;

/// The fields `index`, `handle` and `parent` of the message's `TcHeader`,
/// the index as an unsigned number and each handle as the one number that
/// `u32::from` makes of its two halves.
#[verifier::external_body]
pub(crate) fn header_of(msg: &TcMessage) -> (r: TcIdent)
    ensures
        r == tc_header(*msg),
{
    TcIdent {
        index: msg.header.index as u32,
        handle: u32::from(msg.header.handle),
        parent: u32::from(msg.header.parent),
    }
}

/// The length of the message's `attributes`.
#[verifier::external_body]
pub(crate) fn attribute_count(msg: &TcMessage) -> (n: usize)
    ensures
        n == tc_attributes(*msg).len(),
{
    msg.attributes.len()
}

/// The string of attribute `i`, if it is a `TcAttribute::Kind`.
#[verifier::external_body]
pub(crate) fn attribute_kind(msg: &TcMessage, i: usize) -> (r: Option<String>)
    requires
        i < tc_attributes(*msg).len(),
    ensures
        match r {
            Some(kind) => tc_attributes(*msg)[i as int] == TcAttr::Kind(kind@),
            None => !(tc_attributes(*msg)[i as int] is Kind),
        },
{
    match &msg.attributes[i] {
        TcAttribute::Kind(kind) => Some(kind.clone()),
        _ => None,
    }
}

/// The eight counters of attribute `i`, if it is a `TcAttribute::Stats`.
#[verifier::external_body]
pub(crate) fn attribute_stats(msg: &TcMessage, i: usize) -> (r: Option<LegacyStats>)
    requires
        i < tc_attributes(*msg).len(),
    ensures
        match r {
            Some(stats) => tc_attributes(*msg)[i as int] == TcAttr::Stats(stats),
            None => !(tc_attributes(*msg)[i as int] is Stats),
        },
{
    let TcAttribute::Stats(s) = &msg.attributes[i] else { return None };
    Some(LegacyStats {
        bytes: s.bytes,
        packets: s.packets,
        drops: s.drops,
        overlimits: s.overlimits,
        bps: s.bps,
        pps: s.pps,
        qlen: s.qlen,
        backlog: s.backlog,
    })
}

/// Whether attribute `i` is a `TcAttribute::Xstats`, and then the nine
/// counters that it holds where it is the `Qdisc` variant of the fq_codel
/// statistics.
#[verifier::external_body]
pub(crate) fn attribute_xstats(msg: &TcMessage, i: usize) -> (r: Option<Option<FqCodelXStats>>)
    requires
        i < tc_attributes(*msg).len(),
    ensures
        match r {
            Some(xstats) => tc_attributes(*msg)[i as int] == TcAttr::Xstats(xstats),
            None => !(tc_attributes(*msg)[i as int] is Xstats),
        },
{
    let TcAttribute::Xstats(xstats) = &msg.attributes[i] else { return None };
    let TcXstats::FqCodel(TcFqCodelXstats::Qdisc(s)) = xstats else { return Some(None) };
    Some(Some(FqCodelXStats {
        maxpacket: s.maxpacket,
        drop_overlimit: s.drop_overlimit,
        ecn_mark: s.ecn_mark,
        new_flow_count: s.new_flow_count,
        new_flows_len: s.new_flows_len,
        old_flows_len: s.old_flows_len,
        ce_mark: s.ce_mark,
        memory_usage: s.memory_usage,
        drop_overmemory: s.drop_overmemory,
    }))
}

/// The number of entries of attribute `i`, if it is a `TcAttribute::Stats2`.
#[verifier::external_body]
pub(crate) fn stats2_count(msg: &TcMessage, i: usize) -> (r: Option<usize>)
    requires
        i < tc_attributes(*msg).len(),
    ensures
        match r {
            Some(n) => tc_attributes(*msg)[i as int] is Stats2 && n == tc_attributes(
                *msg,
            )[i as int]->Stats2_0.len(),
            None => !(tc_attributes(*msg)[i as int] is Stats2),
        },
{
    match &msg.attributes[i] {
        TcAttribute::Stats2(entries) => Some(entries.len()),
        _ => None,
    }
}

/// Entry `j` of the `TcAttribute::Stats2` that attribute `i` is: the fields
/// of a `TcStats2::Basic` or a `TcStats2::Queue`.
#[verifier::external_body]
pub(crate) fn stats2_item(msg: &TcMessage, i: usize, j: usize) -> (r: Stats2Item)
    requires
        i < tc_attributes(*msg).len(),
        tc_attributes(*msg)[i as int] is Stats2,
        j < tc_attributes(*msg)[i as int]->Stats2_0.len(),
    ensures
        r == tc_attributes(*msg)[i as int]->Stats2_0[j as int],
{
    let TcAttribute::Stats2(entries) = &msg.attributes[i] else { return Stats2Item::Other };
    match &entries[j] {
        TcStats2::Basic(b) => Stats2Item::Basic { bytes: b.bytes, packets: b.packets },
        TcStats2::Queue(q) => Stats2Item::Queue {
            qlen: q.qlen,
            backlog: q.backlog,
            drops: q.drops,
            requeues: q.requeues,
            overlimits: q.overlimits,
        },
        _ => Stats2Item::Other,
    }
}

/// The number of options of attribute `i`, if it is a
/// `TcAttribute::Options`.
#[verifier::external_body]
pub(crate) fn option_count(msg: &TcMessage, i: usize) -> (r: Option<usize>)
    requires
        i < tc_attributes(*msg).len(),
    ensures
        match r {
            Some(n) => tc_attributes(*msg)[i as int] is Options && n == tc_attributes(
                *msg,
            )[i as int]->Options_0.len(),
            None => !(tc_attributes(*msg)[i as int] is Options),
        },
{
    match &msg.attributes[i] {
        TcAttribute::Options(options) => Some(options.len()),
        _ => None,
    }
}

/// Option `j` of the `TcAttribute::Options` that attribute `i` is, if it is
/// a `TcOption::FqCodel` of one of the nine kinds that hold a `u32`.
#[verifier::external_body]
pub(crate) fn fq_codel_option(msg: &TcMessage, i: usize, j: usize) -> (r: Option<FqCodelOption>)
    requires
        i < tc_attributes(*msg).len(),
        tc_attributes(*msg)[i as int] is Options,
        j < tc_attributes(*msg)[i as int]->Options_0.len(),
    ensures
        r == tc_attributes(*msg)[i as int]->Options_0[j as int],
{
    let TcAttribute::Options(options) = &msg.attributes[i] else { return None };
    let TcOption::FqCodel(option) = &options[j] else { return None };
    match option {
        Target(v) => Some(FqCodelOption::Target(*v)),
        Limit(v) => Some(FqCodelOption::Limit(*v)),
        Interval(v) => Some(FqCodelOption::Interval(*v)),
        Ecn(v) => Some(FqCodelOption::Ecn(*v)),
        Flows(v) => Some(FqCodelOption::Flows(*v)),
        Quantum(v) => Some(FqCodelOption::Quantum(*v)),
        CeThreshold(v) => Some(FqCodelOption::CeThreshold(*v)),
        DropBatchSize(v) => Some(FqCodelOption::DropBatchSize(*v)),
        MemoryLimit(v) => Some(FqCodelOption::MemoryLimit(*v)),
        _ => None,
    }
}

/// Bytes of the request for a dump of the queueing disciplines.
pub const QDISC_REQUEST_LEN: usize = 36;

/// The type of the message that asks for queueing disciplines.
pub const RTM_GETQDISC: u8 = 38;

/// The request with `flags` as a machine of little-endian byte order writes
/// it: the length 36 in four bytes, the message's type and the flags in two
/// bytes each, and 28 bytes of zero for the sequence number, the port and an
/// empty traffic-control header.
pub open spec fn qdisc_request_le(flags: u16) -> Seq<u8> {
    seq![36u8, 0u8, 0u8, 0u8, RTM_GETQDISC, 0u8, (flags % 256) as u8, (flags / 256) as u8]
        + Seq::new(28, |i: int| 0u8)
}

/// The same request as a machine of big-endian byte order writes it.
pub open spec fn qdisc_request_be(flags: u16) -> Seq<u8> {
    seq![0u8, 0u8, 0u8, 36u8, 0u8, RTM_GETQDISC, (flags / 256) as u8, (flags % 256) as u8]
        + Seq::new(28, |i: int| 0u8)
}

/// Whether `bytes` are the request with `flags`, in the byte order of one
/// machine or the other.
pub open spec fn is_qdisc_request(bytes: Seq<u8>, flags: u16) -> bool {
    bytes == qdisc_request_le(flags) || bytes == qdisc_request_be(flags)
}

/// `NetlinkMessage::serialize` of a `GetQueueDiscipline` request whose
/// header carries `flags`, after `finalize`: the netlink header with the
/// length 36, the type 38 and the flags, each in the machine's byte order,
/// then zeros for the sequence number, the port and the header of an empty
/// traffic-control message.
#[verifier::external_body]
pub(crate) fn encode_qdisc_request(flags: u16) -> (bytes: Vec<u8>)
    ensures
        is_qdisc_request(bytes@, flags),
{
    let mut header = NetlinkHeader::default();
    header.flags = flags;
    let request = RouteNetlinkMessage::GetQueueDiscipline(TcMessage::default());
    let mut packet = NetlinkMessage::new(header, NetlinkPayload::from(request));
    packet.finalize();
    let mut bytes = vec![0; packet.header.length as usize];
    packet.serialize(&mut bytes[..]);
    bytes
}

} // verus!
