use nicstats::ethtool::collector::gstats_request;
use nicstats::ethtool::collector::gstrings_request;
use nicstats::ethtool::collector::name_field;
use nicstats::ethtool::collector::pair_stats;
use nicstats::ethtool::collector::parse_names;
use nicstats::ethtool::collector::parse_values;
use nicstats::ethtool::collector::sset_info_request;
use nicstats::ethtool::collector::stat_count;
use nicstats::ethtool::collector::stat_names;
use nicstats::ethtool::collector::stat_values;
use nicstats::ethtool::collector::Ethtool;
use nicstats::ethtool::collector::IfRequest;
use nicstats::ethtool::collector::Reply;
use nicstats::ethtool::errors::Error;
use nicstats::ethtool::errors::ParseFailure;

fn slots(names: &[&[u8]]) -> Vec<u8> {
    let mut data = vec![0u8; 32 * names.len()];
    for (i, name) in names.iter().enumerate() {
        data[32 * i..32 * i + name.len()].copy_from_slice(name);
    }
    data
}

#[test]
fn names_are_read_up_to_the_first_nul() {
    let mut data = slots(&[b"rx_bytes", b"", b"queue_0_tx_cnt"]);
    // what follows the NUL of a slot is not part of the name
    data[10] = b'x';
    assert_eq!(
        parse_names(&data, 3),
        Ok(vec!["rx_bytes".to_string(), "".to_string(), "queue_0_tx_cnt".to_string()])
    );
    assert_eq!(parse_names(&data, 1), Ok(vec!["rx_bytes".to_string()]));
    assert_eq!(parse_names(&data, 0), Ok(vec![]));
    assert_eq!(parse_names(&[], 0), Ok(vec![]));
}

#[test]
fn a_name_of_thirty_one_bytes_fits_its_slot() {
    let name = [b'a'; 31];
    let data = slots(&[&name]);
    assert_eq!(parse_names(&data, 1), Ok(vec!["a".repeat(31)]));
}

#[test]
fn a_slot_without_nul_is_an_error() {
    let mut data = slots(&[b"ok", b"second"]);
    for byte in data[32..64].iter_mut() {
        *byte = b'z';
    }
    assert_eq!(
        parse_names(&data, 2),
        Err(Error::ParseError(ParseFailure::NameUnterminated { index: 1 }))
    );
    assert_eq!(parse_names(&data, 1), Ok(vec!["ok".to_string()]));
}

#[test]
fn a_slot_that_is_not_text_is_an_error() {
    let data = slots(&[b"ok", &[0xff, 0xfe]]);
    assert_eq!(
        parse_names(&data, 2),
        Err(Error::ParseError(ParseFailure::NameNotText { index: 1 }))
    );
}

#[test]
fn names_that_are_not_ascii_are_decoded() {
    let data = slots(&["größe".as_bytes()]);
    assert_eq!(parse_names(&data, 1), Ok(vec!["größe".to_string()]));
}

#[test]
fn a_slot_outside_the_buffer_is_an_error() {
    let data = slots(&[b"a", b"b"]);
    assert_eq!(
        parse_names(&data, 3),
        Err(Error::ParseError(ParseFailure::NameOutOfBounds { index: 2 }))
    );
    assert_eq!(
        parse_names(&data[..63], 2),
        Err(Error::ParseError(ParseFailure::NameOutOfBounds { index: 1 }))
    );
    assert_eq!(
        parse_names(&data, usize::MAX),
        Err(Error::ParseError(ParseFailure::NameOutOfBounds { index: 2 }))
    );
}

#[test]
fn the_first_slot_that_fails_gives_the_error() {
    let mut data = slots(&[b"a", &[0xff], b"c"]);
    for byte in data[64..96].iter_mut() {
        *byte = b'z';
    }
    assert_eq!(
        parse_names(&data, 3),
        Err(Error::ParseError(ParseFailure::NameNotText { index: 1 }))
    );
}

#[test]
fn values_are_little_endian_words_of_eight_bytes() {
    let mut data = Vec::new();
    data.extend_from_slice(&[1, 0, 0, 0, 0, 0, 0, 0]);
    data.extend_from_slice(&[0, 1, 0, 0, 0, 0, 0, 0]);
    data.extend_from_slice(&u64::MAX.to_le_bytes());
    data.extend_from_slice(&0x0102_0304_0506_0708u64.to_le_bytes());
    assert_eq!(parse_values(&data, 4), Ok(vec![1, 256, u64::MAX, 0x0102_0304_0506_0708]));
    assert_eq!(parse_values(&data, 2), Ok(vec![1, 256]));
    assert_eq!(parse_values(&data, 0), Ok(vec![]));
}

#[test]
fn a_value_outside_the_buffer_is_an_error() {
    let data = vec![0u8; 20];
    assert_eq!(parse_values(&data, 2), Ok(vec![0, 0]));
    assert_eq!(
        parse_values(&data, 3),
        Err(Error::ParseError(ParseFailure::ValueOutOfBounds { index: 2 }))
    );
    assert_eq!(
        parse_values(&data, usize::MAX),
        Err(Error::ParseError(ParseFailure::ValueOutOfBounds { index: 2 }))
    );
    assert_eq!(
        parse_values(&[], 1),
        Err(Error::ParseError(ParseFailure::ValueOutOfBounds { index: 0 }))
    );
}

#[test]
fn the_requests_have_the_kernels_layout() {
    let size = sset_info_request();
    assert_eq!(size.len(), 24);
    assert_eq!(&size[..12], &[0x37, 0, 0, 0, 1, 0, 0, 0, 2, 0, 0, 0]);
    assert!(size[12..].iter().all(|b| *b == 0));

    let names = gstrings_request(3);
    assert_eq!(names.len(), 12 + 8192 * 32);
    assert_eq!(&names[..12], &[0x1b, 0, 0, 0, 1, 0, 0, 0, 3, 0, 0, 0]);
    assert!(names[12..].iter().all(|b| *b == 0));

    let values = gstats_request(0x0102);
    assert_eq!(values.len(), 8 + 8192 * 8);
    assert_eq!(&values[..8], &[0x1d, 0, 0, 0, 2, 1, 0, 0]);
    assert!(values[8..].iter().all(|b| *b == 0));
}

#[test]
fn the_name_field_is_padded_with_nul() {
    assert_eq!(name_field("ens5"), [b'e', b'n', b's', b'5', 0, 0, 0, 0, 0, 0, 0, 0, 0, 0, 0, 0]);
    assert_eq!(name_field(""), [0u8; 16]);
    assert_eq!(name_field("0123456789abcdef"), *b"0123456789abcdef");
    let request = Ethtool::init("eth0").request(vec![9, 9]);
    assert_eq!(&request.if_name[..5], b"eth0\0");
    assert_eq!(request.data, vec![9, 9]);
}

#[test]
fn the_count_is_the_word_at_byte_sixteen() {
    let mut buffer = vec![0u8; 24];
    buffer[16..20].copy_from_slice(&0x0001_0203u32.to_le_bytes());
    assert_eq!(stat_count(&Ok(buffer)), Ok(0x0001_0203));
    assert_eq!(stat_count(&Ok(vec![0u8; 20])), Ok(0));
    assert_eq!(
        stat_count(&Ok(vec![0u8; 19])),
        Err(Error::ParseError(ParseFailure::CountOutOfBounds))
    );
    assert_eq!(stat_count(&Err(19)), Err(Error::GSSetInfoReadError(19)));
}

#[test]
fn the_answers_are_read_behind_their_headers() {
    let mut names = vec![0xffu8; 12];
    names.extend_from_slice(&slots(&[b"a", b"b"]));
    assert_eq!(stat_names(&Ok(names), 2), Ok(vec!["a".to_string(), "b".to_string()]));
    assert_eq!(stat_names(&Err(1), 2), Err(Error::GStringsReadError(1)));
    assert_eq!(
        stat_names(&Ok(vec![0u8; 5]), 1),
        Err(Error::ParseError(ParseFailure::NameOutOfBounds { index: 0 }))
    );

    let mut values = vec![0xffu8; 8];
    values.extend_from_slice(&5u64.to_le_bytes());
    assert_eq!(stat_values(&Ok(values), 1), Ok(vec![5]));
    assert_eq!(stat_values(&Err(2), 1), Err(Error::GStatsReadError(2)));
    assert_eq!(
        stat_values(&Ok(vec![0u8; 3]), 1),
        Err(Error::ParseError(ParseFailure::ValueOutOfBounds { index: 0 }))
    );
}

#[test]
fn names_and_values_are_paired_by_position() {
    let pairs = pair_stats(vec!["a".to_string(), "b".to_string(), "c".to_string()], vec![3, 2, 1]);
    assert_eq!(pairs, vec![("a".to_string(), 3), ("b".to_string(), 2), ("c".to_string(), 1)]);
    assert_eq!(pair_stats(vec![], vec![]), vec![]);
}

#[test]
fn each_step_that_fails_gives_its_own_error() {
    let names_fail = |request: IfRequest| -> Reply {
        let mut data = request.data;
        match data[0] {
            0x37 => {
                data[16] = 2;
                Ok(data)
            }
            _ => Err(5),
        }
    };
    assert_eq!(Ethtool::init("eth0").stats(&names_fail), Err(Error::GStringsReadError(5)));

    let values_fail = |request: IfRequest| -> Reply {
        let mut data = request.data;
        match data[0] {
            0x37 => {
                data[16] = 1;
                Ok(data)
            }
            0x1b => {
                data[12] = b'a';
                Ok(data)
            }
            _ => Err(6),
        }
    };
    assert_eq!(Ethtool::init("eth0").stats(&values_fail), Err(Error::GStatsReadError(6)));

    let no_nul = |request: IfRequest| -> Reply {
        let mut data = request.data;
        match data[0] {
            0x37 => data[16] = 1,
            _ => {
                for byte in data[12..44].iter_mut() {
                    *byte = b'a';
                }
            }
        }
        Ok(data)
    };
    assert_eq!(
        Ethtool::init("eth0").stats(&no_nul),
        Err(Error::ParseError(ParseFailure::NameUnterminated { index: 0 }))
    );
}

#[test]
fn the_queries_carry_the_count_of_the_step_before() {
    // the command and the count that each query carried
    let seen = std::cell::RefCell::new(Vec::new());
    let ioctl = |request: IfRequest| -> Reply {
        let mut data = request.data;
        let word = |at: usize| u32::from_le_bytes([data[at], data[at + 1], data[at + 2], data[at + 3]]);
        match word(0) {
            0x37 => {
                seen.borrow_mut().push((0x37, 0));
                data[16] = 2;
            }
            0x1b => {
                seen.borrow_mut().push((0x1b, word(8)));
                data[12] = b'a';
                data[44] = b'b';
            }
            command => {
                seen.borrow_mut().push((command, word(4)));
                data[8] = 10;
                data[16] = 20;
            }
        }
        Ok(data)
    };
    let pairs = Ethtool::init("eth0").stats(&ioctl).unwrap();
    assert_eq!(pairs, vec![("a".to_string(), 10), ("b".to_string(), 20)]);
    assert_eq!(*seen.borrow(), vec![(0x37, 0), (0x1b, 2), (0x1d, 2)]);
}
