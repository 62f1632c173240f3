use sstp_proto::log::{tail, vpn_log_path};

#[test]
fn tail_keeps_the_last_lines() {
    assert_eq!(tail(Some("a\nb\nc\n"), 2), "b\nc");
    assert_eq!(tail(Some("a\nb\nc"), 2), "b\nc");
    assert_eq!(tail(Some("a\nb\nc\n"), 3), "a\nb\nc");
    assert_eq!(tail(Some("a\nb\nc\n"), 9), "a\nb\nc");
    assert_eq!(tail(Some("a\nb"), 0), "");
}

#[test]
fn carriage_returns_go_with_their_line_feeds() {
    assert_eq!(tail(Some("a\r\nb\r"), 5), "a\nb\r");
    assert_eq!(tail(Some("\n\nx\n"), 2), "\nx");
    assert_eq!(tail(Some("\r\r\n"), 1), "\r");
}

#[test]
fn a_log_that_cannot_be_read_is_empty() {
    assert_eq!(tail(None, 10), "");
    assert_eq!(tail(Some(""), 10), "");
}

#[test]
fn the_log_lies_below_the_home_directory() {
    assert_eq!(vpn_log_path(Some("/Users/x")), "/Users/x/Library/Logs/sstp-gui.log");
    assert_eq!(vpn_log_path(None), "./Library/Logs/sstp-gui.log");
}
