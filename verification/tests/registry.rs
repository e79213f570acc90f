//! Registry behavior: name-keyed insertion, identifier deduplication
//! across precedence-ordered directories, and search-path entries.

use rlaunch::applications::{
    build_search_dirs, compute_file_id, insert_path_entry, is_desktop_file, process_desktop_file,
    Registry,
};

fn b(s: &str) -> Vec<u8> {
    s.as_bytes().to_vec()
}

#[test]
fn insert_and_get() {
    let mut reg = Registry::new();
    assert_eq!(reg.len(), 0);
    rlaunch::applications::insert_path_entry(&mut reg, &b("foo"), &b("/usr/bin/foo"));
    assert_eq!(reg.len(), 1);
    let app = reg.get(&b("foo")).unwrap();
    assert_eq!(app.exec_command, b("/usr/bin/foo"));
    assert!(!app.show_terminal);
    assert!(reg.get(&b("bar")).is_none());
}

#[test]
fn same_name_overwrites() {
    let mut reg = Registry::new();
    insert_path_entry(&mut reg, &b("foo"), &b("/usr/bin/foo"));
    insert_path_entry(&mut reg, &b("foo"), &b("/opt/foo"));
    assert_eq!(reg.len(), 1);
    assert_eq!(reg.get(&b("foo")).unwrap().exec_command, b("/opt/foo"));
}

#[test]
fn is_desktop_file_checks_extension() {
    assert!(is_desktop_file(&b("firefox.desktop")));
    assert!(is_desktop_file(&b("org.gnome.Maps.desktop")));
    assert!(!is_desktop_file(&b("firefox.png")));
    assert!(!is_desktop_file(&b("firefox")));
    assert!(!is_desktop_file(&b(".desktop")));
}

#[test]
fn file_id_prefixes_subdirectory_tag() {
    assert_eq!(compute_file_id(&b(""), &b("firefox.desktop")), b("firefox"));
    assert_eq!(
        compute_file_id(&b("/kde4"), &b("kate.desktop")),
        b("kde4-kate")
    );
    assert_eq!(
        compute_file_id(&b("/a/b"), &b("x.desktop")),
        b("a-b-x")
    );
}

#[test]
fn first_identifier_wins_across_directories() {
    // The same logical descriptor in two precedence-ordered
    // directories: the earlier-scanned one keeps its registry entry.
    let mut reg = Registry::new();
    let mut seen: Vec<Vec<u8>> = Vec::new();
    let high = b("Name=Editor\nType=Application\nExec=/usr/local/bin/edit\n");
    let low = b("Name=Editor\nType=Application\nExec=/usr/bin/edit\n");
    process_desktop_file(&mut reg, &mut seen, &b(""), &b("edit.desktop"), &high);
    process_desktop_file(&mut reg, &mut seen, &b(""), &b("edit.desktop"), &low);
    assert_eq!(reg.len(), 1);
    assert_eq!(
        reg.get(&b("Editor")).unwrap().exec_command,
        b("/usr/local/bin/edit")
    );
}

#[test]
fn rejected_file_still_claims_its_identifier() {
    // A hidden descriptor is rejected but its identifier is recorded,
    // so a later file with the same identifier is still skipped.
    let mut reg = Registry::new();
    let mut seen: Vec<Vec<u8>> = Vec::new();
    let hidden = b("Name=Editor\nType=Application\nExec=edit\nHidden=true\n");
    let plain = b("Name=Editor\nType=Application\nExec=edit\n");
    process_desktop_file(&mut reg, &mut seen, &b(""), &b("edit.desktop"), &hidden);
    assert_eq!(reg.len(), 0);
    process_desktop_file(&mut reg, &mut seen, &b(""), &b("edit.desktop"), &plain);
    assert_eq!(reg.len(), 0);
}

#[test]
fn non_desktop_files_are_ignored() {
    let mut reg = Registry::new();
    let mut seen: Vec<Vec<u8>> = Vec::new();
    let content = b("Name=Editor\nType=Application\nExec=edit\n");
    process_desktop_file(&mut reg, &mut seen, &b(""), &b("edit.txt"), &content);
    assert_eq!(reg.len(), 0);
    assert!(seen.is_empty());
}

#[test]
fn same_display_name_different_id_overwrites_registry() {
    // Two distinct identifiers with one display name: both pass the
    // dedup, the later insertion wins the name-keyed registry slot.
    let mut reg = Registry::new();
    let mut seen: Vec<Vec<u8>> = Vec::new();
    let one = b("Name=Editor\nType=Application\nExec=one\n");
    let two = b("Name=Editor\nType=Application\nExec=two\n");
    process_desktop_file(&mut reg, &mut seen, &b(""), &b("one.desktop"), &one);
    process_desktop_file(&mut reg, &mut seen, &b(""), &b("two.desktop"), &two);
    assert_eq!(reg.len(), 1);
    assert_eq!(reg.get(&b("Editor")).unwrap().exec_command, b("two"));
}

#[test]
fn path_entry_overwrites_descriptor_entry() {
    let mut reg = Registry::new();
    let mut seen: Vec<Vec<u8>> = Vec::new();
    let content = b("Name=edit\nType=Application\nExec=edit --fancy\nTerminal=true\n");
    process_desktop_file(&mut reg, &mut seen, &b(""), &b("edit.desktop"), &content);
    assert!(reg.get(&b("edit")).unwrap().show_terminal);
    insert_path_entry(&mut reg, &b("edit"), &b("/usr/bin/edit"));
    let app = reg.get(&b("edit")).unwrap();
    assert_eq!(app.exec_command, b("/usr/bin/edit"));
    assert!(!app.show_terminal);
}

#[test]
fn search_dirs_from_explicit_environment() {
    let dirs = build_search_dirs(
        Some(b("/home/u/.data")),
        Some(b("/home/u")),
        Some(b("/a:/b")),
    );
    assert_eq!(
        dirs,
        vec![
            b("/home/u/.data/applications"),
            b("/a/applications"),
            b("/b/applications"),
        ]
    );
}

#[test]
fn search_dirs_fall_back_to_home_and_defaults() {
    let dirs = build_search_dirs(None, Some(b("/home/u")), None);
    assert_eq!(
        dirs,
        vec![
            b("/home/u/.local/share/applications"),
            b("/usr/local/share//applications"),
            b("/usr/share//applications"),
        ]
    );
}

#[test]
fn search_dirs_without_any_environment() {
    let dirs = build_search_dirs(None, None, None);
    assert_eq!(dirs[0], b(""));
    assert_eq!(dirs.len(), 3);
}
