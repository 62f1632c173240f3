use sstp_proto::keychain::{delete_args, get_args, password_from_output, read_password, set_args};

#[test]
fn keychain_arguments_are_exact() {
    assert_eq!(delete_args("id"), ["delete-generic-password", "-a", "id", "-s", "sstp-gui"]);
    assert_eq!(get_args("id"), ["find-generic-password", "-a", "id", "-s", "sstp-gui", "-w"]);
    assert_eq!(
        set_args("id", "pw"),
        ["add-generic-password", "-a", "id", "-s", "sstp-gui", "-w", "pw", "-U"]
    );
}

#[test]
fn printed_passwords_lose_the_white_space_around_them() {
    assert_eq!(password_from_output(true, b"secret word\n"), Some("secret word".to_string()));
    assert_eq!(password_from_output(true, " \u{00a0}\n".as_bytes()), None);
    assert_eq!(password_from_output(true, b""), None);
    assert_eq!(password_from_output(false, b"secret\n"), None);
    assert_eq!(read_password("\tx\r\n"), Some("x".to_string()));
}
