use nicstats::ethtool::types::EthtoolStats;
use nicstats::ethtool::types::NicStats;
use nicstats::ethtool::types::QueueStats;
use nicstats::model::count_per_sec;
use nicstats::model::eth::EthtoolModel;
use nicstats::model::eth::NicModel;
use nicstats::model::get_option_rate;
use nicstats::model::net::NetModel;
use nicstats::model::net::QueueModel;
use nicstats::model::net::SingleQueueModel;
use nicstats::model::pair_queues;
use nicstats::model::rate_per_sec;
use nicstats::model::Elapsed;
use nicstats::model::QueuePairing;
use nicstats::name_map::NameMap;

fn queue(rx_bytes: u64) -> QueueStats {
    QueueStats {
        rx_bytes: Some(rx_bytes),
        tx_bytes: Some(2 * rx_bytes),
        rx_count: None,
        tx_count: Some(rx_bytes / 10),
        tx_missed_tx: Some(1),
        tx_unmask_interrupt: Some(2),
        custom_stats: None,
    }
}

fn nic(tx_timeout: Option<u64>, queues: Option<Vec<QueueStats>>) -> NicStats {
    NicStats { queue: queues, tx_timeout, custom_stats: None }
}

fn snapshot(nics: Vec<(&str, NicStats)>) -> EthtoolStats {
    let mut map = NameMap::new();
    for (name, stats) in nics {
        map.insert(name.to_string(), stats);
    }
    EthtoolStats { nic: Some(map) }
}

#[test]
fn a_rate_is_the_rise_divided_by_the_seconds() {
    let current = QueueStats { rx_bytes: Some(1000), ..Default::default() };
    let previous = QueueStats { rx_bytes: Some(500), ..Default::default() };
    let model = SingleQueueModel::new(&current, Some((&previous, Elapsed::from_secs(5))));
    assert_eq!(model.rx_bytes_per_sec, Some(100));
    assert_eq!(model.tx_bytes_per_sec, None);

    assert_eq!(rate_per_sec(1000, 500, Elapsed::from_secs(5)), Some(100));
    assert_eq!(rate_per_sec(1000, 500, Elapsed::from_millis(500)), Some(1000));
    assert_eq!(rate_per_sec(1000, 500, Elapsed::new(2, 500_000_000)), Some(200));
    assert_eq!(rate_per_sec(7, 0, Elapsed::from_secs(2)), Some(3));
    assert_eq!(rate_per_sec(5, 5, Elapsed::from_secs(1)), Some(0));
    assert_eq!(rate_per_sec(u64::MAX, 0, Elapsed::from_secs(1)), Some(u64::MAX));
}

#[test]
fn a_rate_too_large_for_its_field_is_the_largest() {
    assert_eq!(rate_per_sec(u64::MAX, 0, Elapsed { nanos: 1 }), Some(u64::MAX));
    assert_eq!(rate_per_sec(u64::MAX, 0, Elapsed::from_millis(999)), Some(u64::MAX));
}

#[test]
fn there_is_no_rate_of_a_counter_that_fell_nor_over_no_time() {
    assert_eq!(rate_per_sec(500, 1000, Elapsed::from_secs(5)), None);
    assert_eq!(rate_per_sec(1000, 500, Elapsed::from_secs(0)), None);
    assert_eq!(rate_per_sec(1000, 500, Elapsed { nanos: 0 }), None);
}

#[test]
fn a_rate_needs_the_counter_in_both_snapshots() {
    let d = Elapsed::from_secs(1);
    assert_eq!(count_per_sec(Some(9), Some(4), d), Some(5));
    assert_eq!(count_per_sec(Some(9), None, d), None);
    assert_eq!(count_per_sec(None, Some(4), d), None);
    assert_eq!(count_per_sec(None, None, d), None);
    assert_eq!(get_option_rate(Some(9), Some((Some(4), d))), Some(5));
    assert_eq!(get_option_rate(Some(9), None), None);
}

#[test]
fn the_model_is_the_same_for_the_same_snapshots() {
    let current = snapshot(vec![("eth0", nic(Some(9), Some(vec![queue(1000), queue(500)])))]);
    let previous = snapshot(vec![("eth0", nic(Some(4), Some(vec![queue(100), queue(50)])))]);
    let d = Elapsed::from_secs(5);
    assert_eq!(EthtoolModel::new(&current, Some((&previous, d))), EthtoolModel::new(&current, Some((&previous, d))));
    assert_eq!(NetModel::new(&current, Some((&previous, d))), NetModel::new(&current, Some((&previous, d))));
    assert_eq!(EthtoolModel::new(&current, None), EthtoolModel::new(&current, None));
}

#[test]
fn queues_are_paired_by_position() {
    let current = snapshot(vec![("eth0", nic(Some(9), Some(vec![queue(1000), queue(500)])))]);
    let previous = snapshot(vec![("eth0", nic(Some(4), Some(vec![queue(100), queue(50)])))]);
    let model = EthtoolModel::new(&current, Some((&previous, Elapsed::from_secs(5))));
    assert_eq!(model.nic.len(), 1);
    let eth0 = model.nic.get("eth0").unwrap();
    assert_eq!(eth0.nic.interface, "eth0");
    assert_eq!(eth0.nic.tx_timeout_per_sec, Some(1));
    assert_eq!(eth0.queues.len(), 2);
    assert_eq!(eth0.queues[0].interface, "eth0");
    assert_eq!(eth0.queues[0].queue_id, 0);
    assert_eq!(eth0.queues[0].rx_bytes_per_sec, Some(180));
    assert_eq!(eth0.queues[0].tx_bytes_per_sec, Some(360));
    assert_eq!(eth0.queues[0].rx_count_per_sec, None);
    assert_eq!(eth0.queues[0].tx_count_per_sec, Some(18));
    assert_eq!(eth0.queues[0].tx_missed_tx, Some(1));
    assert_eq!(eth0.queues[0].tx_unmask_interrupt, Some(2));
    assert_eq!(eth0.queues[1].queue_id, 1);
    assert_eq!(eth0.queues[1].rx_bytes_per_sec, Some(90));

    let net = NetModel::new(&current, Some((&previous, Elapsed::from_secs(5))));
    let queues = &net.nic.nics.get("eth0").unwrap().queues;
    assert_eq!(queues.len(), 2);
    assert_eq!(queues[0].rx_bytes_per_sec, Some(180));
    assert_eq!(queues[1].tx_bytes_per_sec, Some(180));
    assert_eq!(queues[1].tx_missed_tx, Some(1));
}

#[test]
fn an_interface_that_the_earlier_snapshot_lacks_has_no_model() {
    let current = snapshot(vec![
        ("eth0", nic(Some(9), Some(vec![queue(1000)]))),
        ("eth1", nic(Some(9), Some(vec![queue(1000)]))),
    ]);
    let previous = snapshot(vec![
        ("eth0", nic(Some(4), Some(vec![queue(100)]))),
        ("eth2", nic(Some(4), Some(vec![queue(100)]))),
    ]);
    let d = Elapsed::from_secs(1);
    let model = EthtoolModel::new(&current, Some((&previous, d)));
    assert_eq!(model.nic.len(), 1);
    assert!(model.nic.contains_key("eth0"));
    assert!(!model.nic.contains_key("eth1"));
    assert!(!model.nic.contains_key("eth2"));
    let net = NetModel::new(&current, Some((&previous, d)));
    assert_eq!(net.nic.nics.len(), 1);
    assert!(net.nic.nics.contains_key("eth0"));
}

#[test]
fn queue_lists_of_different_lengths_are_not_paired() {
    let current = snapshot(vec![("eth0", nic(Some(9), Some(vec![queue(1000), queue(500), queue(7)])))]);
    let previous = snapshot(vec![("eth0", nic(Some(4), Some(vec![queue(100), queue(50)])))]);
    let d = Elapsed::from_secs(1);
    // the model with names keeps the interface, without any queue
    let model = EthtoolModel::new(&current, Some((&previous, d)));
    let eth0 = model.nic.get("eth0").unwrap();
    assert_eq!(eth0.nic.tx_timeout_per_sec, Some(5));
    assert!(eth0.queues.is_empty());
    // the model of the queues alone leaves the interface out
    let net = NetModel::new(&current, Some((&previous, d)));
    assert!(net.nic.nics.is_empty());
    let net = NetModel::new(&previous, Some((&current, d)));
    assert!(net.nic.nics.is_empty());
}

#[test]
fn queues_in_one_snapshot_only_give_no_queue_rates() {
    let with = snapshot(vec![("eth0", nic(Some(9), Some(vec![queue(1000)])))]);
    let without = snapshot(vec![("eth0", nic(Some(4), None))]);
    let d = Elapsed::from_secs(1);
    assert!(EthtoolModel::new(&with, Some((&without, d))).nic.get("eth0").unwrap().queues.is_empty());
    assert!(EthtoolModel::new(&without, Some((&with, d))).nic.get("eth0").unwrap().queues.is_empty());
    assert!(NetModel::new(&with, Some((&without, d))).nic.nics.is_empty());
    assert!(NetModel::new(&without, Some((&with, d))).nic.nics.is_empty());
    assert_eq!(QueueModel::new(&nic(None, None), None), None);
}

#[test]
fn without_an_earlier_snapshot_there_are_names_and_no_rates() {
    let current = snapshot(vec![
        ("eth0", nic(Some(9), Some(vec![queue(1000), queue(500)]))),
        ("lo", nic(None, None)),
    ]);
    let model = EthtoolModel::new(&current, None);
    assert_eq!(model.nic.len(), 2);
    let eth0 = model.nic.get("eth0").unwrap();
    assert_eq!(eth0.nic.interface, "eth0");
    assert_eq!(eth0.nic.tx_timeout_per_sec, None);
    assert_eq!(eth0.queues.len(), 2);
    assert_eq!(eth0.queues[1].queue_id, 1);
    assert_eq!(eth0.queues[1].interface, "eth0");
    assert_eq!(eth0.queues[1].rx_bytes_per_sec, None);
    assert_eq!(eth0.queues[1].tx_bytes_per_sec, None);
    assert_eq!(eth0.queues[1].rx_count_per_sec, None);
    assert_eq!(eth0.queues[1].tx_count_per_sec, None);
    assert_eq!(eth0.queues[1].tx_missed_tx, Some(1));
    assert!(model.nic.get("lo").unwrap().queues.is_empty());

    let net = NetModel::new(&current, None);
    assert_eq!(net.nic.nics.len(), 1);
    let queues = &net.nic.nics.get("eth0").unwrap().queues;
    assert_eq!(queues.len(), 2);
    assert_eq!(queues[0].rx_bytes_per_sec, None);
    assert_eq!(queues[0].tx_unmask_interrupt, Some(2));
}

#[test]
fn a_snapshot_without_nics_gives_an_empty_model() {
    let none = EthtoolStats { nic: None };
    let some = snapshot(vec![("eth0", nic(Some(9), Some(vec![queue(1000)])))]);
    let d = Elapsed::from_secs(1);
    assert!(EthtoolModel::new(&none, Some((&some, d))).nic.is_empty());
    assert!(EthtoolModel::new(&some, Some((&none, d))).nic.is_empty());
    assert!(EthtoolModel::new(&none, None).nic.is_empty());
    assert!(NetModel::new(&none, Some((&some, d))).nic.nics.is_empty());
    assert!(NetModel::new(&some, Some((&none, d))).nic.nics.is_empty());
    assert!(NetModel::new(&none, None).nic.nics.is_empty());
}

#[test]
fn the_model_of_one_nic_follows_its_snapshots() {
    let current = nic(Some(30), Some(vec![queue(300)]));
    let previous = nic(Some(10), Some(vec![queue(100)]));
    let model = NicModel::new("ens5", &current, Some((&previous, Elapsed::from_secs(10))));
    assert_eq!(model.nic.tx_timeout_per_sec, Some(2));
    assert_eq!(model.queues[0].rx_bytes_per_sec, Some(20));
    assert_eq!(model.queues[0].interface, "ens5");
}

#[test]
fn the_pairing_of_two_queue_lists_has_a_name() {
    let two = Some(vec![queue(1), queue(2)]);
    let three = Some(vec![queue(1), queue(2), queue(3)]);
    let empty = Some(vec![]);
    assert_eq!(pair_queues(&two, &two), QueuePairing::Matched);
    assert_eq!(pair_queues(&empty, &empty), QueuePairing::Matched);
    assert_eq!(pair_queues(&two, &three), QueuePairing::LengthMismatch);
    assert_eq!(pair_queues(&three, &two), QueuePairing::LengthMismatch);
    assert_eq!(pair_queues(&two, &None), QueuePairing::MissingInPrevious);
    assert_eq!(pair_queues(&None, &two), QueuePairing::MissingInCurrent);
    assert_eq!(pair_queues(&None, &None), QueuePairing::MissingInBoth);
}

#[test]
fn elapsed_time_counts_nanoseconds() {
    assert_eq!(Elapsed::from_secs(5).nanos, 5_000_000_000);
    assert_eq!(Elapsed::from_millis(5).nanos, 5_000_000);
    assert_eq!(Elapsed::new(1, 5).nanos, 1_000_000_005);
    assert_eq!(Elapsed::from_secs(u64::MAX).nanos, u64::MAX as u128 * 1_000_000_000);
}

#[test]
fn all_queues_come_nic_after_nic() {
    let current = snapshot(vec![
        ("eth1", nic(None, Some(vec![queue(30)]))),
        ("eth0", nic(None, Some(vec![queue(10), queue(20)]))),
        ("lo", nic(None, None)),
    ]);
    let model = EthtoolModel::new(&current, None);
    let queues = model.queues();
    let seen: Vec<(&str, u32)> = queues.iter().map(|q| (q.interface.as_str(), q.queue_id)).collect();
    assert_eq!(seen, vec![("eth0", 0), ("eth0", 1), ("eth1", 0)]);

    let previous = snapshot(vec![
        ("eth1", nic(None, Some(vec![queue(0)]))),
        ("eth0", nic(None, Some(vec![queue(0), queue(0)]))),
    ]);
    let net = NetModel::new(&current, Some((&previous, Elapsed::from_secs(1))));
    let rates: Vec<Option<u64>> = net.queues().iter().map(|q| q.rx_bytes_per_sec).collect();
    assert_eq!(rates, vec![Some(10), Some(20), Some(30)]);
    assert!(EthtoolModel::default().queues().is_empty());
}
