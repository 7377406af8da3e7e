use nicstats::ethtool::collector::Ethtool;
use nicstats::ethtool::collector::IfRequest;
use nicstats::ethtool::collector::Reply;
use nicstats::ethtool::errors::Error;
use nicstats::ethtool::errors::ParseFailure;
use nicstats::ethtool::EthtoolReader;

/// A kernel that knows the given interface and reports the given statistics
/// for it.
fn kernel(if_name: &'static str, stats: Vec<(&'static str, u64)>) -> impl Fn(IfRequest) -> Reply {
    move |request: IfRequest| {
        let mut field = [0u8; 16];
        field[..if_name.len()].copy_from_slice(if_name.as_bytes());
        if request.if_name != field {
            return Err(19);
        }
        let mut data = request.data;
        let command = u32::from_le_bytes([data[0], data[1], data[2], data[3]]);
        match command {
            0x37 => {
                data[16..20].copy_from_slice(&(stats.len() as u32).to_le_bytes());
            }
            0x1b => {
                for (i, (name, _)) in stats.iter().enumerate() {
                    let at = 12 + 32 * i;
                    data[at..at + name.len()].copy_from_slice(name.as_bytes());
                }
            }
            0x1d => {
                for (i, (_, value)) in stats.iter().enumerate() {
                    let at = 8 + 8 * i;
                    data[at..at + 8].copy_from_slice(&value.to_le_bytes());
                }
            }
            _ => return Err(95),
        }
        Ok(data)
    }
}

#[test]
fn test_read_tc_stats() {
    let reader = EthtoolReader::new();
    let ioctl = kernel("ens5", vec![("tx_timeout", 7), ("queue_0_rx_bytes", 1000)]);
    let result = reader.read_stats(&ioctl);
    assert!(result.is_ok());

    let net_stats = result.unwrap();
    assert!(net_stats.nic.is_some());
    assert!(net_stats.nic.unwrap().get("ens5").unwrap().tx_timeout.is_some());
}

#[test]
fn stats_come_in_the_kernels_order() {
    let ioctl = kernel("eth0", vec![("rx_packets", 1), ("tx_timeout", 2), ("queue_1_tx_cnt", 3)]);
    let pairs = Ethtool::init("eth0").stats(&ioctl).unwrap();
    assert_eq!(
        pairs,
        vec![
            ("rx_packets".to_string(), 1),
            ("tx_timeout".to_string(), 2),
            ("queue_1_tx_cnt".to_string(), 3),
        ]
    );
}

#[test]
fn a_failing_size_query_is_its_own_error() {
    let ioctl = |_request: IfRequest| -> Reply { Err(95) };
    let r = Ethtool::init("eth0").stats(&ioctl);
    assert_eq!(r, Err(Error::GSSetInfoReadError(95)));
}

#[test]
fn an_interface_that_cannot_be_read_is_left_out() {
    let reader = EthtoolReader::with_interfaces(vec!["eth0".to_string(), "ens5".to_string()]);
    let ioctl = kernel("ens5", vec![("tx_timeout", 7)]);
    let nics = reader.read_stats(&ioctl).unwrap().nic.unwrap();
    assert_eq!(nics.len(), 1);
    assert!(nics.get("eth0").is_none());
    assert_eq!(nics.get("ens5").unwrap().tx_timeout, Some(7));
}

#[test]
fn a_count_above_the_capacity_is_a_parse_error() {
    let ioctl = |request: IfRequest| -> Reply {
        let mut data = request.data;
        data[16..20].copy_from_slice(&8193u32.to_le_bytes());
        Ok(data)
    };
    let r = Ethtool::init("eth0").stats(&ioctl);
    assert_eq!(r, Err(Error::ParseError(ParseFailure::NameOutOfBounds { index: 8192 })));
}
