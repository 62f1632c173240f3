use sstp_proto::i18n::{t, Current, Lang, Strings};

fn as_list(s: &Strings) -> Vec<&'static str> {
    vec![
        s.connect,
        s.cancel,
        s.disconnect,
        s.not_connected,
        s.connecting,
        s.connected,
        s.settings,
        s.settings_hover,
        s.back,
        s.servers,
        s.add_server,
        s.remove_server_hover,
        s.profile_name_label,
        s.server_label,
        s.username_label,
        s.password_label,
        s.save_password_in_keychain,
        s.save_settings,
        s.connection_log,
        s.fill_server_username_password,
        s.default_server_name_prefix,
        s.tray_status_disconnected,
        s.tray_status_connecting,
        s.tray_status_connected,
        s.tray_connect,
        s.tray_disconnect,
        s.tray_show_window,
        s.tray_quit,
        s.notif_app_name,
        s.notif_restored_after_failure,
        s.notif_restore_failed,
    ]
}

#[test]
fn no_string_is_accidentally_empty() {
    for s in as_list(&Lang::Ru.strings()).into_iter().chain(as_list(&Lang::En.strings())) {
        assert!(!s.is_empty());
    }
}

#[test]
fn ru_and_en_are_not_the_same_table() {
    let (ru, en) = (Lang::Ru.strings(), Lang::En.strings());
    let same = as_list(&ru).into_iter().zip(as_list(&en)).filter(|(ru, en)| ru == en).count();
    assert!(same < as_list(&ru).len(), "RU and EN tables are identical");
}

#[test]
fn detect_never_panics() {
    for output in [None, Some(&b""[..]), Some(&b"ru_RU\n"[..]), Some(&b"\xff\xfe"[..])] {
        let _ = Lang::detect(output);
    }
}

#[test]
fn t_self_initializes_and_is_internally_consistent() {
    for output in [None, Some(&b"ru_RU\n"[..]), Some(&b"en_US\n"[..])] {
        let mut current = Current::new();
        assert!(!current.is_picked());
        let strings = t(&mut current, output);
        assert!(strings == Lang::Ru.strings() || strings == Lang::En.strings());
        assert!(current.is_picked());
    }
}

#[test]
fn language_follows_the_locale() {
    assert_eq!(Lang::detect(Some(b"ru_RU\n")), Lang::Ru);
    assert_eq!(Lang::detect(Some(b"  ru\n")), Lang::Ru);
    assert_eq!(Lang::detect(Some(b"en_US\n")), Lang::En);
    assert_eq!(Lang::detect(Some(b"RU")), Lang::En);
    assert_eq!(Lang::detect(Some(b"\xffru")), Lang::En);
    assert_eq!(Lang::detect(None), Lang::En);
    assert_eq!(Lang::of_locale(Some("ru_KZ")), Lang::Ru);
    assert_eq!(Lang::of_locale(Some("de_DE")), Lang::En);
    assert_eq!(Lang::of_locale(Some("ru")), Lang::Ru);
    assert_eq!(Lang::of_locale(Some("ru-RU")), Lang::Ru);
    assert_eq!(Lang::of_locale(Some("ru_RU@calendar=gregorian")), Lang::Ru);
    assert_eq!(Lang::of_locale(Some("rue_UA")), Lang::En);
    assert_eq!(Lang::detect(Some(b"rue_UA\n")), Lang::En);
    assert_eq!(Lang::of_locale(Some("run")), Lang::En);
    assert_eq!(Lang::of_locale(Some("r")), Lang::En);
    assert_eq!(Lang::of_locale(Some("")), Lang::En);
}

#[test]
fn the_first_language_stays() {
    let mut current = Current::new();
    assert_eq!(t(&mut current, Some(b"ru_RU\n")), Lang::Ru.strings());
    assert_eq!(t(&mut current, Some(b"en_US\n")), Lang::Ru.strings());
    assert_eq!(t(&mut current, None), Lang::Ru.strings());
    let mut current = Current::default();
    assert_eq!(t(&mut current, None), Lang::En.strings());
    assert_eq!(t(&mut current, Some(b"ru_RU\n")), Lang::En.strings());
    assert_eq!(current.settle(Lang::Ru), Lang::En.strings());
}

#[test]
fn texts_are_in_their_language() {
    assert_eq!(t(&mut Current::new(), Some(b"ru_RU")).connect, "Подключиться");
    assert_eq!(t(&mut Current::new(), None).connect, "Connect");
    assert_eq!(Lang::Ru.strings().tray_status_disconnected, "\u{25CF} Отключено");
    assert_eq!(Lang::En.strings().notif_restore_failed, "Could not restore internet access automatically, see the log");
}
