//! Descriptor parsing: acceptance rules, value processing, and the
//! hidden-entry rejections.

use rlaunch::entry::parse_desktop_file;

fn parse(text: &str) -> Option<(String, String, bool)> {
    let content = text.as_bytes().to_vec();
    parse_desktop_file(&content).map(|e| {
        (
            String::from_utf8(e.name).unwrap(),
            String::from_utf8(e.exec_command).unwrap(),
            e.requires_terminal,
        )
    })
}

#[test]
fn accepts_minimal_application() {
    let r = parse("Name=Foo\nType=Application\nExec=/usr/bin/foo\n");
    assert_eq!(r, Some(("Foo".to_string(), "/usr/bin/foo".to_string(), false)));
}

#[test]
fn rejects_missing_name() {
    assert_eq!(parse("Type=Application\nExec=/usr/bin/foo\n"), None);
}

#[test]
fn rejects_empty_name() {
    assert_eq!(parse("Name=\nType=Application\nExec=/usr/bin/foo\n"), None);
}

#[test]
fn rejects_wrong_type() {
    assert_eq!(parse("Name=Foo\nType=Link\nExec=/usr/bin/foo\n"), None);
    assert_eq!(parse("Name=Foo\nExec=/usr/bin/foo\n"), None);
}

#[test]
fn type_must_equal_application_exactly() {
    assert_eq!(parse("Name=Foo\nType=application\nExec=/usr/bin/foo\n"), None);
    assert_eq!(parse("Name=Foo\nType=Application \nExec=/usr/bin/foo\n"), None);
}

#[test]
fn rejects_missing_or_empty_exec() {
    assert_eq!(parse("Name=Foo\nType=Application\n"), None);
    assert_eq!(parse("Name=Foo\nType=Application\nExec=\n"), None);
    assert_eq!(parse("Name=Foo\nType=Application\nExec=%f\n"), None);
}

#[test]
fn field_code_stripping_keeps_interior_double_space() {
    // Removing the two-byte token leaves two adjacent spaces; the final
    // trim touches only the ends of the value.
    let r = parse("Name=Foo\nType=Application\nExec=/usr/bin/foo %f --flag\n");
    assert_eq!(
        r,
        Some(("Foo".to_string(), "/usr/bin/foo  --flag".to_string(), false))
    );
}

#[test]
fn field_codes_everywhere() {
    let r = parse("Name=Foo\nType=Application\nExec=%Uvlc%F --started-from-file %U\n");
    assert_eq!(r, Some(("Foo".to_string(), "vlc --started-from-file".to_string(), false)));
}

#[test]
fn lone_trailing_percent_is_dropped() {
    let r = parse("Name=Foo\nType=Application\nExec=foo %\n");
    assert_eq!(r, Some(("Foo".to_string(), "foo".to_string(), false)));
}

#[test]
fn exec_quotes_stripped_then_trimmed() {
    let r = parse("Name=Foo\nType=Application\nExec=\" /usr/bin/foo \"\n");
    assert_eq!(r, Some(("Foo".to_string(), "/usr/bin/foo".to_string(), false)));
}

#[test]
fn name_quotes_stripped() {
    let r = parse("Name=\"My App\"\nType=Application\nExec=foo\n");
    assert_eq!(r, Some(("My App".to_string(), "foo".to_string(), false)));
}

#[test]
fn hidden_true_rejects() {
    assert_eq!(
        parse("Name=Foo\nType=Application\nExec=foo\nHidden=true\n"),
        None
    );
}

#[test]
fn hidden_garbage_rejects() {
    assert_eq!(
        parse("Name=Foo\nType=Application\nExec=foo\nHidden=garbage\n"),
        None
    );
}

#[test]
fn hidden_false_accepts() {
    assert!(parse("Name=Foo\nType=Application\nExec=foo\nHidden=false\n").is_some());
}

#[test]
fn hidden_value_is_trimmed_quoted_case_folded() {
    assert!(parse("Name=Foo\nType=Application\nExec=foo\nHidden=\" False \"\n").is_some());
    assert_eq!(
        parse("Name=Foo\nType=Application\nExec=foo\nHidden= True \n"),
        None
    );
}

#[test]
fn nodisplay_behaves_like_hidden() {
    assert_eq!(
        parse("Name=Foo\nType=Application\nExec=foo\nNoDisplay=true\n"),
        None
    );
    assert_eq!(
        parse("Name=Foo\nType=Application\nExec=foo\nNoDisplay=whatever\n"),
        None
    );
    assert!(parse("Name=Foo\nType=Application\nExec=foo\nNoDisplay=false\n").is_some());
}

#[test]
fn terminal_absent_empty_or_false_is_false() {
    assert_eq!(
        parse("Name=Foo\nType=Application\nExec=foo\n").unwrap().2,
        false
    );
    assert_eq!(
        parse("Name=Foo\nType=Application\nExec=foo\nTerminal=\n").unwrap().2,
        false
    );
    assert_eq!(
        parse("Name=Foo\nType=Application\nExec=foo\nTerminal=false\n").unwrap().2,
        false
    );
    assert_eq!(
        parse("Name=Foo\nType=Application\nExec=foo\nTerminal=FALSE\n").unwrap().2,
        false
    );
}

#[test]
fn terminal_anything_else_is_true() {
    assert_eq!(
        parse("Name=Foo\nType=Application\nExec=foo\nTerminal=true\n").unwrap().2,
        true
    );
    assert_eq!(
        parse("Name=Foo\nType=Application\nExec=foo\nTerminal=1\n").unwrap().2,
        true
    );
    assert_eq!(
        parse("Name=Foo\nType=Application\nExec=foo\nTerminal=yes\n").unwrap().2,
        true
    );
}

#[test]
fn first_occurrence_of_a_key_wins() {
    let r = parse("Name=First\nName=Second\nType=Application\nExec=one\nExec=two\n");
    assert_eq!(r, Some(("First".to_string(), "one".to_string(), false)));
}

#[test]
fn crlf_line_endings_are_handled() {
    let r = parse("Name=Foo\r\nType=Application\r\nExec=/usr/bin/foo\r\n");
    assert_eq!(r, Some(("Foo".to_string(), "/usr/bin/foo".to_string(), false)));
}

#[test]
fn unrelated_keys_are_ignored() {
    let r = parse(
        "[Desktop Entry]\nVersion=1.0\nName=Foo\nComment=A thing\nType=Application\nExec=foo\nIcon=foo\n",
    );
    assert_eq!(r, Some(("Foo".to_string(), "foo".to_string(), false)));
}
