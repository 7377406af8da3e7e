use nicstats::status_bar::decimal;
use nicstats::status_bar::get_content;
use nicstats::status_bar::get_spacing;

#[test]
fn the_pieces_are_parted_by_five_spaces() {
    assert_eq!(get_spacing(), "     ");
    assert_eq!(
        get_content("01/02/2024 03:04:05 UTC+00:00", 5, "devbox", "0.7.1", "live", false),
        "01/02/2024 03:04:05 UTC+00:00     Elapsed: 5s     devbox     0.7.1     live"
    );
}

#[test]
fn a_paused_view_says_so() {
    assert_eq!(
        get_content("now", 120, "h", "v", "replay", true),
        "now     Elapsed: 120s     h     v     replay      live-paused"
    );
    assert_eq!(get_content("", 0, "", "", "", false), "     Elapsed: 0s               ");
}

#[test]
fn numbers_are_written_in_decimal() {
    assert_eq!(decimal(0), "0");
    assert_eq!(decimal(7), "7");
    assert_eq!(decimal(10), "10");
    assert_eq!(decimal(1234567890), "1234567890");
    assert_eq!(decimal(u64::MAX), "18446744073709551615");
    assert_eq!(decimal(1000), "1000");
}
