use sstp_proto::addr::Ipv4Addr;
use sstp_proto::utun::{
    configure_args, control_name, ctliocginfo, frame_packet, interface_name, iowr, unframe_packet,
    UtunError, CTL_INFO_LEN, CTL_NAME_LEN, IPV4_FAMILY_HEADER,
};

#[test]
fn ctliocginfo_matches_known_macos_constant() {
    assert_eq!(ctliocginfo(), 0xc0644e03);
}

#[test]
fn ipv4_family_header_is_network_byte_order_af_inet() {
    assert_eq!(IPV4_FAMILY_HEADER, [0, 0, 0, libc::AF_INET as u8]);
}

#[test]
fn request_codes_hold_direction_length_group_and_number() {
    assert_eq!(iowr(b'N', 3, 100), 0xc064_4e03);
    assert_eq!(iowr(0, 0, 0), 0xc000_0000);
    assert_eq!(iowr(255, 255, 0x1fff), 0xdfff_ffff);
    assert_eq!(iowr(1, 2, 0x2001), 0xc001_0102);
}

#[test]
fn control_name_is_padded_with_zeros() {
    let name = control_name();
    assert_eq!(name.len(), CTL_NAME_LEN);
    assert_eq!(CTL_INFO_LEN as usize, 4 + CTL_NAME_LEN);
    assert_eq!(&name[..26], b"com.apple.net.utun_control");
    assert!(name[26..].iter().all(|b| *b == 0));
}

#[test]
fn interface_names_end_before_their_zeros() {
    assert_eq!(interface_name(b"utun7\0"), "utun7");
    assert_eq!(interface_name(b"utun12\0\0\0"), "utun12");
    assert_eq!(interface_name(b"a\0b\0"), "a\0b");
    assert_eq!(interface_name(b""), "");
    assert_eq!(interface_name(b"\xff\0"), "\u{FFFD}");
}

#[test]
fn interfaces_are_configured_with_both_addresses() {
    let args = configure_args("utun3", Ipv4Addr::new(10, 100, 1, 21), Ipv4Addr::new(10, 100, 1, 250));
    assert_eq!(args, ["utun3", "inet", "10.100.1.21", "10.100.1.250", "up"]);
}

#[test]
fn packets_come_off_the_interface_as_they_were_written() {
    let framed = frame_packet(&[0x45, 9]);
    assert_eq!(framed, vec![0, 0, 0, 2, 0x45, 9]);
    assert_eq!(unframe_packet(&framed), &[0x45, 9]);
    assert_eq!(unframe_packet(&[0, 0, 0]), &[] as &[u8]);
    assert_eq!(unframe_packet(&[0, 0, 0, 2]), &[] as &[u8]);
}

#[test]
fn interface_errors_have_their_words() {
    let e = || "why".to_string();
    assert_eq!(UtunError::Socket(e()).message(), "failed to open the utun control socket: why");
    assert_eq!(UtunError::ControlInfo(e()).message(), "CTLIOCGINFO failed (only works on macOS): why");
    assert_eq!(
        UtunError::Connect(e()).message(),
        "connect() to the utun kernel control failed (this needs root): why"
    );
    assert_eq!(UtunError::GetIfName(e()).message(), "could not read back the assigned utun interface name: why");
}
