use sstp_proto::elevate::{
    applescript_quote, command_outcome, elevated_script, notification_script, shell_quote,
};

fn shell_reads(word: &str) -> Option<String> {
    let mut out = String::new();
    let mut quoted = false;
    let mut chars = word.chars();
    while let Some(c) = chars.next() {
        match (quoted, c) {
            (_, '\'') => quoted = !quoted,
            (true, c) => out.push(c),
            (false, '\\') => out.push(chars.next()?),
            (false, _) => return None,
        }
    }
    if quoted {
        None
    } else {
        Some(out)
    }
}

fn applescript_reads(body: &str) -> Option<String> {
    let mut out = String::new();
    let mut chars = body.chars();
    while let Some(c) = chars.next() {
        match c {
            '"' => return None,
            '\\' => out.push(chars.next()?),
            c => out.push(c),
        }
    }
    Some(out)
}

#[test]
fn the_shell_reads_what_was_quoted() {
    for s in [
        "",
        "plain",
        "with space",
        "it's a trap",
        "''; rm -rf / #",
        "$(rm -rf /)",
        "`rm -rf /`",
        "back\\slash",
        "new\nline",
        "quote\"double",
        "мультибайт пароль",
    ] {
        assert_eq!(shell_reads(&shell_quote(s)).as_deref(), Some(s));
    }
}

#[test]
fn shell_quoting_is_exact() {
    assert_eq!(shell_quote(""), "''");
    assert_eq!(shell_quote("it's"), "'it'\\''s'");
}

#[test]
fn applescript_reads_what_was_quoted() {
    for s in ["", "plain", "with space", "back\\slash", "quote\"double", "both\\ and \" together", "мультибайт пароль"] {
        assert_eq!(applescript_reads(&applescript_quote(s)).as_deref(), Some(s));
    }
}

#[test]
fn applescript_quoting_is_exact() {
    assert_eq!(applescript_quote("a\\b\"c"), "a\\\\b\\\"c");
}

#[test]
fn scripts_are_exact() {
    assert_eq!(
        notification_script("SSTP \"GUI\"", "a\\b"),
        "display notification \"a\\\\b\" with title \"SSTP \\\"GUI\\\"\""
    );
    assert_eq!(
        elevated_script("echo \"x\""),
        "do shell script \"echo \\\"x\\\"\" with administrator privileges"
    );
}

#[test]
fn a_command_speaks_through_one_of_its_outputs() {
    assert_eq!(command_outcome(true, b"out\n", b"err"), Ok("out\n".to_string()));
    assert_eq!(command_outcome(false, b"out", b"err\xff"), Err("err\u{FFFD}".to_string()));
}
