use nicstats::ethtool::errors::Error;
use nicstats::ethtool::errors::ParseFailure;
use nicstats::ethtool::is_queue_stat;
use nicstats::ethtool::parse_queue_stat;
use nicstats::ethtool::translate_stats;
use nicstats::ethtool::types::insert_custom;
use nicstats::ethtool::types::insert_stat;
use nicstats::ethtool::types::NicStats;
use nicstats::ethtool::types::QueueStats;

fn stats(pairs: &[(&str, u64)]) -> Vec<(String, u64)> {
    pairs.iter().map(|(name, value)| (name.to_string(), *value)).collect()
}

#[test]
fn a_queue_statistic_sets_the_field_of_its_queue() {
    let nic = translate_stats(stats(&[
        ("queue_0_tx_cnt", 1),
        ("queue_1_tx_cnt", 2),
        ("queue_2_tx_cnt", 3),
        ("queue_3_rx_bytes", 77),
    ]))
    .unwrap();
    let queues = nic.queue.unwrap();
    assert_eq!(queues.len(), 4);
    assert_eq!(queues[3].rx_bytes, Some(77));
    assert_eq!(queues[3].custom_stats, None);
    assert_eq!(queues[3].tx_count, None);
    assert_eq!(queues[0].tx_count, Some(1));
    assert_eq!(nic.custom_stats, None);
    assert_eq!(nic.tx_timeout, None);
}

#[test]
fn the_timeout_count_is_no_custom_statistic() {
    let nic = translate_stats(stats(&[("tx_timeout", 4), ("rx_errors", 9), ("tx_timeout", 5)])).unwrap();
    assert_eq!(nic.tx_timeout, Some(5));
    let custom = nic.custom_stats.unwrap();
    assert_eq!(custom.len(), 1);
    assert_eq!(custom.get("rx_errors"), Some(&9));
    assert_eq!(custom.get("tx_timeout"), None);
    assert_eq!(nic.queue, None);
}

#[test]
fn queues_stand_in_the_order_of_their_indices() {
    let nic = translate_stats(stats(&[
        ("queue_10_rx_bytes", 10),
        ("queue_2_rx_bytes", 2),
        ("queue_007_rx_bytes", 7),
        ("queue_2_tx_bytes", 22),
        ("queue_10_rx_cnt", 100),
    ]))
    .unwrap();
    let queues = nic.queue.unwrap();
    assert_eq!(queues.len(), 3);
    assert_eq!(queues[0].rx_bytes, Some(2));
    assert_eq!(queues[0].tx_bytes, Some(22));
    assert_eq!(queues[1].rx_bytes, Some(7));
    assert_eq!(queues[2].rx_bytes, Some(10));
    assert_eq!(queues[2].rx_count, Some(100));
}

#[test]
fn each_known_counter_has_its_field() {
    let mut queue = QueueStats::default();
    insert_stat(&mut queue, "rx_bytes", 1);
    insert_stat(&mut queue, "tx_bytes", 2);
    insert_stat(&mut queue, "rx_cnt", 3);
    insert_stat(&mut queue, "tx_cnt", 4);
    insert_stat(&mut queue, "tx_missed_tx", 5);
    insert_stat(&mut queue, "tx_unmask_interrupt", 6);
    assert_eq!(
        queue,
        QueueStats {
            rx_bytes: Some(1),
            tx_bytes: Some(2),
            rx_count: Some(3),
            tx_count: Some(4),
            tx_missed_tx: Some(5),
            tx_unmask_interrupt: Some(6),
            custom_stats: None,
        }
    );
    insert_stat(&mut queue, "rx_bytes", 10);
    assert_eq!(queue.rx_bytes, Some(10));
}

#[test]
fn an_unknown_counter_of_a_queue_goes_to_its_custom_mapping() {
    let mut queue = QueueStats::default();
    insert_stat(&mut queue, "rx_count", 8);
    insert_stat(&mut queue, "tx_timeout", 9);
    insert_stat(&mut queue, "rx_count", 10);
    assert_eq!(queue.rx_count, None);
    let custom = queue.custom_stats.unwrap();
    assert_eq!(custom.len(), 2);
    assert_eq!(custom.get("rx_count"), Some(&10));
    assert_eq!(custom.get("tx_timeout"), Some(&9));

    let nic = translate_stats(stats(&[("queue_1_napi_polls", 3)])).unwrap();
    assert_eq!(nic.queue.unwrap()[0].custom_stats.as_ref().unwrap().get("napi_polls"), Some(&3));
    assert_eq!(nic.custom_stats, None);
}

#[test]
fn a_custom_mapping_is_made_where_there_was_none() {
    let mut custom = None;
    insert_custom(&mut custom, "a", 1);
    insert_custom(&mut custom, "b", 2);
    insert_custom(&mut custom, "a", 3);
    let custom = custom.unwrap();
    assert_eq!(custom.len(), 2);
    assert_eq!(custom.get("a"), Some(&3));
    assert_eq!(custom.get("b"), Some(&2));
}

#[test]
fn a_queue_index_that_is_no_number_is_an_error() {
    let error = Err(Error::ParseError(ParseFailure::QueueId));
    assert_eq!(translate_stats(stats(&[("queue_x_rx_bytes", 1)])), error);
    assert_eq!(translate_stats(stats(&[("tx_timeout", 1), ("queue__rx_bytes", 1)])), error);
    assert_eq!(translate_stats(stats(&[("queue_+3_rx_bytes", 1)])), error);
    assert_eq!(translate_stats(stats(&[("queue_-3_rx_bytes", 1)])), error);
    assert_eq!(translate_stats(stats(&[("queue_3a_rx_bytes", 1)])), error);
    assert_eq!(translate_stats(stats(&[("queue_", 1)])), error);
    assert_eq!(translate_stats(stats(&[("queue_abc", 1)])), error);
    assert_eq!(
        translate_stats(stats(&[("queue_99999999999999999999999999_rx_bytes", 1)])),
        error
    );
}

#[test]
fn a_queue_name_without_counter_is_a_custom_statistic() {
    let nic = translate_stats(stats(&[("queue_3", 5)])).unwrap();
    assert_eq!(nic.queue, None);
    assert_eq!(nic.custom_stats.unwrap().get("queue_3"), Some(&5));
}

#[test]
fn the_counter_name_is_all_that_follows_the_second_underscore() {
    assert_eq!(parse_queue_stat("queue_3_rx_bytes"), Ok((3, Some("rx_bytes"))));
    assert_eq!(parse_queue_stat("queue_12_a_b_c"), Ok((12, Some("a_b_c"))));
    assert_eq!(parse_queue_stat("queue_0_"), Ok((0, Some(""))));
    assert_eq!(parse_queue_stat("queue_5"), Ok((5, None)));
    assert_eq!(parse_queue_stat("q_18446744073709551615_x"), Ok((usize::MAX, Some("x"))));
    assert_eq!(
        parse_queue_stat("q_18446744073709551616_x"),
        Err(Error::ParseError(ParseFailure::QueueId))
    );
    assert_eq!(parse_queue_stat("nounderscore"), Err(Error::ParseError(ParseFailure::QueueId)));
    assert_eq!(parse_queue_stat("ä_1_ö"), Ok((1, Some("ö"))));
}

#[test]
fn a_per_queue_name_begins_with_queue_and_an_underscore() {
    assert!(is_queue_stat("queue_0_rx_bytes"));
    assert!(is_queue_stat("queue_"));
    assert!(!is_queue_stat("queue"));
    assert!(!is_queue_stat("Queue_0_rx"));
    assert!(!is_queue_stat("tx_queue_0"));
    assert!(!is_queue_stat(""));
}

#[test]
fn no_statistics_give_an_empty_record() {
    assert_eq!(translate_stats(vec![]), Ok(NicStats::default()));
}
