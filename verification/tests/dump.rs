use nicstats::dump::closing;
use nicstats::dump::Closing;
use nicstats::dump::Ethtool;
use nicstats::dump::EthtoolField;
use nicstats::dump::GeneralOpt;
use nicstats::dump::IterExecResult;
use nicstats::dump::Net;
use nicstats::dump::NetField;
use nicstats::dump::OutputFormat;
use nicstats::ethtool::types::EthtoolStats;
use nicstats::ethtool::types::NicStats;
use nicstats::ethtool::types::QueueStats;
use nicstats::model::eth::EthtoolModel;
use nicstats::model::net::NetModel;
use nicstats::name_map::NameMap;

fn options(output_format: Option<OutputFormat>) -> GeneralOpt {
    GeneralOpt { output_format, repeat_title: None, disable_title: false, raw: false }
}

fn snapshot(queues: usize) -> EthtoolStats {
    let mut map = NameMap::new();
    let queue = if queues == 0 { None } else { Some(vec![QueueStats::default(); queues]) };
    map.insert("eth0".to_string(), NicStats { queue, tx_timeout: None, custom_stats: None });
    EthtoolStats { nic: Some(map) }
}

#[test]
fn a_round_without_rows_is_skipped() {
    let dumper = Ethtool::new(&options(None), vec![EthtoolField::Interface, EthtoolField::QueueId]);
    assert_eq!(dumper.fields, vec![EthtoolField::Interface, EthtoolField::QueueId]);
    let empty = EthtoolModel::new(&snapshot(0), None);
    let round = dumper.dump_model(&empty, false);
    assert_eq!(round.result, IterExecResult::Skip);
    assert!(round.rows.is_empty());

    let two = EthtoolModel::new(&snapshot(2), None);
    let round = dumper.dump_model(&two, false);
    assert_eq!(round.result, IterExecResult::Success);
    assert_eq!(round.rows.len(), 2);
    assert_eq!(round.rows[1].queue_id, 1);
    assert_eq!(round.closing, Closing::Newline);

    let dumper = Net::new(&options(Some(OutputFormat::Json)), vec![NetField::RxBytesPerSec]);
    assert_eq!(dumper.opts, options(Some(OutputFormat::Json)));
    let three = NetModel::new(&snapshot(3), None);
    let round = dumper.dump_model(&three, true);
    assert_eq!(round.result, IterExecResult::Success);
    assert_eq!(round.rows.len(), 3);
    assert_eq!(round.closing, Closing::JsonArray { comma: true });
    let none = NetModel::new(&snapshot(0), None);
    let round = dumper.dump_model(&none, true);
    assert_eq!(round.result, IterExecResult::Skip);
}

#[test]
fn each_form_has_its_closing() {
    assert_eq!(closing(None, false), Closing::Newline);
    assert_eq!(closing(None, true), Closing::Newline);
    assert_eq!(closing(Some(OutputFormat::Raw), true), Closing::Newline);
    assert_eq!(closing(Some(OutputFormat::Csv), false), Closing::Newline);
    assert_eq!(closing(Some(OutputFormat::Tsv), false), Closing::Newline);
    assert_eq!(closing(Some(OutputFormat::KeyVal), false), Closing::Newline);
    assert_eq!(closing(Some(OutputFormat::Json), false), Closing::JsonArray { comma: false });
    assert_eq!(closing(Some(OutputFormat::Json), true), Closing::JsonArray { comma: true });
    assert_eq!(closing(Some(OutputFormat::OpenMetrics), true), Closing::Nothing);
}
