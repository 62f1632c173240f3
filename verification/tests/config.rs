use sstp_proto::config::{gen_id, AfterRemoval, Config, Profile};

fn ids(config: &Config) -> Vec<&str> {
    config.profiles.iter().map(|p| p.id.as_str()).collect()
}

fn three() -> Config {
    let mut config = Config::default();
    config.complete("a".to_string());
    config.add_profile("b".to_string());
    config.add_profile("c".to_string());
    config
}

#[test]
fn identifiers_are_hexadecimal() {
    assert_eq!(gen_id(0), "0");
    assert_eq!(gen_id(0x1234_abcd), "1234abcd");
    assert_eq!(gen_id(u128::MAX), "ffffffffffffffffffffffffffffffff");
    assert_eq!(gen_id(1_700_000_000_123_456_789), format!("{:x}", 1_700_000_000_123_456_789u128));
}

#[test]
fn a_blank_profile_has_a_name_only() {
    let p = Profile::blank(12, "id".to_string());
    assert_eq!(p.name, "Сервер 12");
    assert_eq!(p.id, "id");
    assert!(p.server.is_empty() && p.username.is_empty());
}

#[test]
fn a_first_start_has_one_selected_profile() {
    let mut config = Config::default();
    assert!(config.selected_profile().is_none());
    config.complete("a".to_string());
    assert_eq!(config.selected.as_deref(), Some("a"));
    assert_eq!(config.selected_profile().unwrap().name, "Сервер 1");
}

#[test]
fn a_loaded_configuration_keeps_its_selection() {
    let mut config = three();
    config.select("b".to_string());
    config.complete("x".to_string());
    assert_eq!(config.selected_index(), Some(1));
    config.selected = None;
    config.complete("x".to_string());
    assert_eq!(config.selected.as_deref(), Some("a"));
    assert_eq!(ids(&config), ["a", "b", "c"]);
}

#[test]
fn a_selection_may_name_no_profile() {
    let mut config = three();
    config.select("gone".to_string());
    assert_eq!(config.selected_index(), None);
    assert!(config.selected_profile().is_none());
}

#[test]
fn a_new_profile_stands_last_and_is_selected() {
    let config = three();
    assert_eq!(ids(&config), ["a", "b", "c"]);
    assert_eq!(config.selected_index(), Some(2));
    assert_eq!(config.selected_profile().unwrap().name, "Сервер 3");
}

#[test]
fn a_removed_profile_is_gone_and_the_first_other_selected() {
    let mut config = three();
    assert_eq!(config.remove_profile("a"), AfterRemoval::Keep);
    assert_eq!(ids(&config), ["b", "c"]);
    assert_eq!(config.selected.as_deref(), Some("c"));
    assert_eq!(config.remove_profile("c"), AfterRemoval::LoadPassword);
    assert_eq!(config.selected.as_deref(), Some("b"));
    assert_eq!(config.remove_profile("b"), AfterRemoval::ClearPassword);
    assert_eq!(config.selected, None);
    assert!(config.profiles.is_empty());
    assert_eq!(config.remove_profile("b"), AfterRemoval::Keep);
}

#[test]
fn removing_keeps_what_the_others_hold() {
    let mut config = three();
    config.profiles[1].server = "h:1".to_string();
    config.profiles[1].username = "u".to_string();
    config.remove_profile("a");
    assert_eq!(config.profiles[0].server, "h:1");
    assert_eq!(config.profiles[0].username, "u");
    assert_eq!(config.profiles[0].name, "Сервер 2");
}
