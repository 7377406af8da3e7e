use std::num::NonZeroI32;

use netlink_packet_core::DoneMessage;
use netlink_packet_core::ErrorMessage;
use netlink_packet_core::NetlinkHeader;
use netlink_packet_core::NetlinkMessage;
use netlink_packet_core::NetlinkPayload;
use netlink_packet_route::link::LinkMessage;
use netlink_packet_route::tc::TcAttribute;
use netlink_packet_route::tc::TcFqCodelQdStats;
use netlink_packet_route::tc::TcFqCodelXstats;
use netlink_packet_route::tc::TcHandle;
use netlink_packet_route::tc::TcHeader;
use netlink_packet_route::tc::TcMessage;
use netlink_packet_route::tc::TcOption;
use netlink_packet_route::tc::TcQdiscFqCodelOption;
use netlink_packet_route::tc::TcStats;
use netlink_packet_route::tc::TcStats2;
use netlink_packet_route::tc::TcStatsBasic;
use netlink_packet_route::tc::TcStatsQueue;
use netlink_packet_route::tc::TcXstats;
use netlink_packet_route::RouteNetlinkMessage;
use nicstats::tc::dump::qdisc_dump_request;
use nicstats::tc::dump::DumpState;
use nicstats::tc::dump::QdiscDump;
use nicstats::tc::errors::TcError;
use nicstats::tc::dump::Frame;
use nicstats::tc::dump::FrameBody;
use nicstats::tc::read_tc_stats;
use nicstats::tc::tc_stats;
use nicstats::tc::types::FqCodelQDisc;
use nicstats::tc::types::FqCodelXStats;
use nicstats::tc::types::QDisc;
use nicstats::tc::types::Tc;
use nicstats::tc::types::XStats;

fn fq_codel_message() -> TcMessage {
    TcMessage::from_parts(
        TcHeader {
            index: 2,
            handle: TcHandle::from(0),
            parent: TcHandle::from(2),
            ..Default::default()
        },
        vec![
            TcAttribute::Kind("fq_codel".to_string()),
            TcAttribute::Options(vec![
                TcOption::FqCodel(TcQdiscFqCodelOption::Target(4999u32)),
                TcOption::FqCodel(TcQdiscFqCodelOption::Limit(10240u32)),
                TcOption::FqCodel(TcQdiscFqCodelOption::Interval(99999u32)),
                TcOption::FqCodel(TcQdiscFqCodelOption::Ecn(1u32)),
                TcOption::FqCodel(TcQdiscFqCodelOption::Flows(1024u32)),
                TcOption::FqCodel(TcQdiscFqCodelOption::Quantum(1514u32)),
                TcOption::FqCodel(TcQdiscFqCodelOption::CeThreshold(0u32)),
                TcOption::FqCodel(TcQdiscFqCodelOption::DropBatchSize(64u32)),
                TcOption::FqCodel(TcQdiscFqCodelOption::MemoryLimit(33554432u32)),
            ]),
            TcAttribute::Stats({
                let mut stats = TcStats::default();
                stats.bytes = 39902796u64;
                stats.packets = 165687u32;
                stats.drops = 100u32;
                stats.overlimits = 200u32;
                stats.bps = 300u32;
                stats.pps = 400u32;
                stats.qlen = 500u32;
                stats.backlog = 10u32;
                stats
            }),
            TcAttribute::Stats2(vec![
                TcStats2::Basic({
                    let mut basic = TcStatsBasic::default();
                    basic.bytes = 39902796u64;
                    basic.packets = 165687u32;
                    basic
                }),
                TcStats2::Queue({
                    let mut queue = TcStatsQueue::default();
                    queue.qlen = 500u32;
                    queue.drops = 100u32;
                    queue.requeues = 50u32;
                    queue.overlimits = 20u32;
                    queue
                }),
            ]),
            TcAttribute::Xstats(TcXstats::FqCodel(TcFqCodelXstats::Qdisc({
                let mut fq_codel = TcFqCodelQdStats::default();
                fq_codel.maxpacket = 258;
                fq_codel.drop_overlimit = 0;
                fq_codel.ecn_mark = 0;
                fq_codel.new_flow_count = 91;
                fq_codel.new_flows_len = 0;
                fq_codel.old_flows_len = 0;
                fq_codel.ce_mark = 0;
                fq_codel.memory_usage = 0;
                fq_codel.drop_overmemory = 0;
                fq_codel
            }))),
        ],
    )
}

fn get_netlink_qdiscs() -> Result<Vec<TcMessage>, TcError> {
    let mut tc_msgs = Vec::new();
    tc_msgs.push(fq_codel_message());
    Ok(tc_msgs)
}

/// A message of an interface with a kind and the newer statistics only.
fn plain_message(index: i32, kind: &str, bytes: u64) -> TcMessage {
    let mut basic = TcStatsBasic::default();
    basic.bytes = bytes;
    basic.packets = 3;
    let mut header = TcHeader::default();
    header.index = index;
    header.handle = TcHandle::from(0x0001_0000);
    header.parent = TcHandle::from(0xffff_ffff);
    TcMessage::from_parts(
        header,
        vec![TcAttribute::Kind(kind.to_string()), TcAttribute::Stats2(vec![TcStats2::Basic(basic)])],
    )
}

fn bytes_of(payload: NetlinkPayload<RouteNetlinkMessage>) -> Vec<u8> {
    let mut packet = NetlinkMessage::new(NetlinkHeader::default(), payload);
    packet.finalize();
    let mut buf = vec![0; packet.header.length as usize];
    packet.serialize(&mut buf[..]);
    buf
}

fn qdisc_bytes(message: TcMessage) -> Vec<u8> {
    bytes_of(NetlinkPayload::InnerMessage(RouteNetlinkMessage::NewQueueDiscipline(message)))
}

fn done_bytes() -> Vec<u8> {
    bytes_of(NetlinkPayload::Done(DoneMessage::default()))
}

fn error_bytes(code: i32) -> Vec<u8> {
    let mut error = ErrorMessage::default();
    error.code = NonZeroI32::new(code);
    bytes_of(NetlinkPayload::Error(error))
}

/// Decodes the netlink message that `bytes` begin with.
fn decode(bytes: &[u8]) -> Result<Frame, String> {
    let message = match NetlinkMessage::<RouteNetlinkMessage>::deserialize(bytes) {
        Ok(message) => message,
        Err(e) => return Err(e.to_string()),
    };
    let body = match message.payload {
        NetlinkPayload::Error(e) => FrameBody::Error(e.to_string()),
        NetlinkPayload::Done(_) => FrameBody::Done,
        NetlinkPayload::InnerMessage(RouteNetlinkMessage::NewQueueDiscipline(tc)) => FrameBody::Qdisc(tc),
        _ => FrameBody::Other,
    };
    Ok(Frame { length: message.header.length, body })
}

fn joined(parts: Vec<Vec<u8>>) -> Vec<u8> {
    parts.into_iter().flatten().collect()
}

#[test]
fn test_tc_stats() {
    let tc_map = read_tc_stats(get_netlink_qdiscs()).unwrap();

    let tc = tc_map.get(&2).unwrap();
    assert_eq!(tc.index, 2);
    assert_eq!(tc.handle, 0);
    assert_eq!(tc.parent, 2);

    assert_eq!(tc.kind, "fq_codel");
    assert_eq!(tc.stats.bytes, Some(39902796));
    assert_eq!(tc.stats.packets, Some(165687));
    assert_eq!(tc.stats.qlen, Some(500));
    assert_eq!(tc.stats.bps, Some(300));
    assert_eq!(tc.stats.pps, Some(400));

    // qdisc
    assert_eq!(
        tc.qdisc,
        Some(QDisc::FqCodel(FqCodelQDisc {
            target: 4999,
            limit: 10240,
            interval: 99999,
            ecn: 1,
            flows: 1024,
            quantum: 1514,
            ce_threshold: 0,
            drop_batch_size: 64,
            memory_limit: 33554432,
        }))
    );

    // xstats
    assert_eq!(
        tc.stats.xstats,
        Some(XStats::FqCodel(FqCodelXStats {
            maxpacket: 258,
            drop_overlimit: 0,
            ecn_mark: 0,
            new_flow_count: 91,
            new_flows_len: 0,
            old_flows_len: 0,
            ce_mark: 0,
            memory_usage: 0,
            drop_overmemory: 0,
        }))
    );
}

#[test]
fn later_statistics_attributes_override_earlier_ones() {
    let tc = Tc::new(&fq_codel_message());
    // the older attribute says 200, the newer list after it says 20
    assert_eq!(tc.stats.overlimits, Some(20));
    assert_eq!(tc.stats.drops, Some(100));
    assert_eq!(tc.stats.requeues, Some(50));
    // the newer list gives a backlog too: the default of its queue entry
    assert_eq!(tc.stats.backlog, Some(0));
}

#[test]
fn an_unknown_kind_keeps_header_and_counters_only() {
    let mut message = fq_codel_message();
    message.attributes[0] = TcAttribute::Kind("htb".to_string());
    let tc = Tc::new(&message);
    assert_eq!(tc.kind, "htb");
    assert_eq!(tc.qdisc, None);
    assert_eq!(tc.stats.xstats, None);
    assert_eq!(tc.index, 2);
    assert_eq!(tc.handle, 0);
    assert_eq!(tc.parent, 2);
    assert_eq!(tc.stats.bytes, Some(39902796));
    assert_eq!(tc.stats.packets, Some(165687));
    assert_eq!(tc.stats.qlen, Some(500));
    assert_eq!(tc.stats.bps, Some(300));
    assert_eq!(tc.stats.pps, Some(400));
}

#[test]
fn a_message_without_attributes_gives_an_empty_record() {
    let tc = Tc::new(&TcMessage::with_index(7));
    assert_eq!(tc.index, 7);
    assert_eq!(tc.kind, "");
    assert_eq!(tc.stats, Default::default());
    assert_eq!(tc.qdisc, None);
}

#[test]
fn a_handle_is_one_number_of_its_two_halves() {
    let tc = Tc::new(&plain_message(3, "pfifo", 10));
    assert_eq!(tc.handle, 0x0001_0000);
    assert_eq!(tc.parent, 0xffff_ffff);
}

#[test]
fn of_two_records_of_one_interface_the_later_stays() {
    let messages = vec![plain_message(4, "htb", 1), plain_message(5, "htb", 2), plain_message(4, "pfifo", 3)];
    let map = read_tc_stats(Ok(messages)).unwrap();
    assert_eq!(map.len(), 2);
    assert_eq!(map[&4].kind, "pfifo");
    assert_eq!(map[&4].stats.bytes, Some(3));
    assert_eq!(map[&5].stats.bytes, Some(2));
    for (index, tc) in &map {
        assert_eq!(*index, tc.index);
    }
}

#[test]
fn an_error_of_the_dump_stays_the_error() {
    let r = read_tc_stats(Err(TcError::Netlink("no socket".to_string())));
    assert_eq!(r, Err(TcError::Netlink("no socket".to_string())));
}

#[test]
fn a_dump_in_two_reads_of_two_messages_is_put_together() {
    let first = joined(vec![qdisc_bytes(plain_message(1, "a", 11)), qdisc_bytes(plain_message(2, "b", 22))]);
    let second = joined(vec![qdisc_bytes(plain_message(3, "c", 33)), done_bytes()]);

    let mut dump = QdiscDump::new();
    assert!(dump.wants_data());
    dump.feed(&first, &decode);
    assert!(dump.wants_data());
    assert_eq!(dump.messages.len(), 2);
    dump.feed(&second, &decode);
    assert!(!dump.wants_data());
    assert!(matches!(dump.state, DumpState::Done));
    let messages = dump.finish().unwrap();
    assert_eq!(messages, vec![plain_message(1, "a", 11), plain_message(2, "b", 22), plain_message(3, "c", 33)]);

    let map = tc_stats(&vec![first, second], &decode).unwrap();
    let indices: Vec<u32> = map.keys().copied().collect();
    assert_eq!(indices, vec![1, 2, 3]);
    assert_eq!(map[&1].kind, "a");
    assert_eq!(map[&2].stats.bytes, Some(22));
    assert_eq!(map[&3].stats.packets, Some(3));
}

#[test]
fn what_follows_the_marker_is_not_read() {
    let first = joined(vec![qdisc_bytes(plain_message(1, "a", 11)), done_bytes(), qdisc_bytes(plain_message(2, "b", 22))]);
    let later = qdisc_bytes(plain_message(3, "c", 33));
    let map = tc_stats(&vec![first, later], &decode).unwrap();
    assert_eq!(map.len(), 1);
    assert!(map.contains_key(&1));
}

#[test]
fn an_error_payload_fails_the_dump_and_hides_what_was_kept() {
    let first = qdisc_bytes(plain_message(1, "a", 11));
    let second = joined(vec![qdisc_bytes(plain_message(2, "b", 22)), error_bytes(-95)]);

    let mut dump = QdiscDump::new();
    dump.feed(&first, &decode);
    dump.feed(&second, &decode);
    assert_eq!(dump.messages.len(), 2);
    assert!(matches!(dump.state, DumpState::Failed(_)));
    assert!(matches!(dump.finish(), Err(TcError::Netlink(_))));

    let r = tc_stats(&vec![first, second], &decode);
    assert!(matches!(r, Err(TcError::Netlink(_))));
}

#[test]
fn other_messages_are_stepped_over() {
    let link = bytes_of(NetlinkPayload::InnerMessage(RouteNetlinkMessage::NewLink(LinkMessage::default())));
    let read = joined(vec![link, qdisc_bytes(plain_message(9, "x", 1)), done_bytes()]);
    let map = tc_stats(&vec![read], &decode).unwrap();
    assert_eq!(map.len(), 1);
    assert_eq!(map[&9].kind, "x");
}

#[test]
fn reads_that_end_before_the_marker_fail() {
    let r = tc_stats(&vec![qdisc_bytes(plain_message(1, "a", 11))], &decode);
    assert_eq!(r, Err(TcError::Netlink("netlink dump ended before its end was marked".to_string())));
    assert!(tc_stats(&vec![], &decode).is_err());
}

#[test]
fn bytes_that_hold_no_message_fail_the_dump() {
    assert!(matches!(tc_stats(&vec![vec![1, 2, 3]], &decode), Err(TcError::Netlink(_))));
    assert!(matches!(tc_stats(&vec![vec![]], &decode), Err(TcError::Netlink(_))));
    let mut cut = qdisc_bytes(plain_message(1, "a", 11));
    cut.truncate(20);
    assert!(matches!(tc_stats(&vec![cut], &decode), Err(TcError::Netlink(_))));
}

#[test]
fn the_walk_steps_by_the_declared_length() {
    let mut dump = QdiscDump { state: DumpState::Parsing { offset: 0, size: 100 }, messages: vec![] };
    dump.on_frame(Ok(Frame { length: 40, body: FrameBody::Other }));
    assert!(matches!(dump.state, DumpState::Parsing { offset: 40, size: 100 }));
    dump.on_frame(Ok(Frame { length: 60, body: FrameBody::Qdisc(plain_message(1, "a", 1)) }));
    assert!(matches!(dump.state, DumpState::AwaitingData));
    assert_eq!(dump.messages.len(), 1);

    let mut dump = QdiscDump { state: DumpState::Parsing { offset: 16, size: 100 }, messages: vec![] };
    dump.on_frame(Ok(Frame { length: 0, body: FrameBody::Other }));
    assert!(matches!(dump.state, DumpState::AwaitingData));

    let mut dump = QdiscDump { state: DumpState::Parsing { offset: 90, size: 100 }, messages: vec![] };
    dump.on_frame(Ok(Frame { length: 20, body: FrameBody::Other }));
    match dump.state {
        DumpState::Failed(text) => assert_eq!(text, "netlink message runs past the data received"),
        _ => panic!("a message past the read must fail the dump"),
    }

    let mut dump = QdiscDump { state: DumpState::Parsing { offset: 0, size: 100 }, messages: vec![] };
    dump.on_frame(Err("bad header".to_string()));
    assert_eq!(dump.finish(), Err(TcError::Netlink("bad header".to_string())));

    let mut dump = QdiscDump { state: DumpState::Parsing { offset: 0, size: 100 }, messages: vec![plain_message(1, "a", 1)] };
    dump.on_frame(Ok(Frame { length: 20, body: FrameBody::Error("denied".to_string()) }));
    assert_eq!(dump.finish(), Err(TcError::Netlink("denied".to_string())));
}

#[test]
fn a_socket_failure_fails_a_dump_that_has_not_ended() {
    let mut dump = QdiscDump::new();
    dump.abort("recv failed".to_string());
    assert_eq!(dump.finish(), Err(TcError::Netlink("recv failed".to_string())));

    let mut dump = QdiscDump::new();
    dump.feed(&done_bytes(), &decode);
    dump.abort("too late".to_string());
    assert_eq!(dump.finish(), Ok(vec![]));
}

#[test]
fn the_request_asks_for_a_dump_of_queueing_disciplines() {
    let bytes = qdisc_dump_request();
    let mut expected = Vec::new();
    expected.extend_from_slice(&36u32.to_ne_bytes());
    expected.extend_from_slice(&38u16.to_ne_bytes());
    expected.extend_from_slice(&0x301u16.to_ne_bytes());
    expected.extend_from_slice(&[0u8; 28]);
    assert_eq!(bytes, expected);
    assert_ne!(bytes, vec![0u8; 36]);

    let packet = NetlinkMessage::<RouteNetlinkMessage>::deserialize(&bytes).unwrap();
    assert_eq!(packet.header.flags, 0x301);
    assert_eq!(packet.header.length, 36);
    assert!(matches!(
        packet.payload,
        NetlinkPayload::InnerMessage(RouteNetlinkMessage::GetQueueDiscipline(_))
    ));
}

#[test]
fn the_walk_asks_the_decoder_at_each_offset() {
    // a decoder of a toy format: the first byte of a message is its length,
    // the second says what it is
    let toy = |bytes: &[u8]| -> Result<Frame, String> {
        if bytes.len() < 2 || bytes[0] as usize > bytes.len() {
            return Err(format!("cut short at {} bytes", bytes.len()));
        }
        let body = match bytes[1] {
            b'q' => FrameBody::Qdisc(TcMessage::with_index(bytes[0] as i32)),
            b'd' => FrameBody::Done,
            b'e' => FrameBody::Error("refused".to_string()),
            _ => FrameBody::Other,
        };
        Ok(Frame { length: bytes[0] as u32, body })
    };
    let mut dump = QdiscDump::new();
    dump.feed(&[3, b'q', 0, 2, b'x', 4, b'q', 0, 0], &toy);
    assert!(dump.wants_data());
    assert_eq!(dump.messages, vec![TcMessage::with_index(3), TcMessage::with_index(4)]);
    dump.feed(&[2, b'q', 2, b'd', 2, b'q'], &toy);
    assert!(!dump.wants_data());
    dump.feed(&[2, b'q'], &toy);
    assert_eq!(
        dump.finish(),
        Ok(vec![TcMessage::with_index(3), TcMessage::with_index(4), TcMessage::with_index(2)])
    );

    // a message of no length ends the read
    let mut dump = QdiscDump::new();
    dump.feed(&[0, b'q', 2, b'q'], &toy);
    assert!(dump.wants_data());
    assert_eq!(dump.messages.len(), 1);

    // bytes that end inside a message fail the dump with the decoder's words
    let mut dump = QdiscDump::new();
    dump.feed(&[2, b'q', 9, b'q'], &toy);
    assert_eq!(dump.finish(), Err(TcError::Netlink("cut short at 2 bytes".to_string())));

    let reads = vec![vec![2, b'q', 2, b'e', 2, b'q'], vec![2, b'd']];
    assert_eq!(tc_stats(&reads, &toy), Err(TcError::Netlink("refused".to_string())));
}
