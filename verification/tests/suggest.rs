//! Suggestion ranking and layout truncation.

use rlaunch::applications::{insert_path_entry, Registry};
use rlaunch::suggestions::{ranked_matches, truncate_suggestions};

fn b(s: &str) -> Vec<u8> {
    s.as_bytes().to_vec()
}

fn registry_of(names: &[&str]) -> Registry {
    let mut reg = Registry::new();
    for n in names {
        let path = format!("/usr/bin/{}", n);
        insert_path_entry(&mut reg, &b(n), &path.into_bytes());
    }
    reg
}

fn names_of(sugs: &[(i64, Vec<u8>)]) -> Vec<String> {
    sugs.iter()
        .map(|s| String::from_utf8(s.1.clone()).unwrap())
        .collect()
}

#[test]
fn ranking_for_fx_query() {
    // Golden ranking for the chosen scoring function (skim's matcher):
    // the head-of-word match in firefox beats the adjacent "fx" inside
    // gfx-tool, and xfce-settings has no in-order match at all.
    let reg = registry_of(&["firefox", "gfx-tool", "xfce-settings"]);
    let sugs = ranked_matches(&reg, &b("fx"));
    assert_eq!(
        names_of(&sugs),
        vec!["firefox".to_string(), "gfx-tool".to_string()],
        "scores: {:?}",
        sugs
    );
    assert!(sugs[0].0 > sugs[1].0);
}

#[test]
fn empty_query_matches_everything_alphabetically() {
    let reg = registry_of(&["zeta", "alpha", "midway"]);
    let sugs = ranked_matches(&reg, &b(""));
    assert_eq!(
        names_of(&sugs),
        vec!["alpha".to_string(), "midway".to_string(), "zeta".to_string()]
    );
    assert!(sugs.iter().all(|s| s.0 == 0));
}

#[test]
fn query_whitespace_is_removed_before_matching() {
    let reg = registry_of(&["firefox"]);
    let with_spaces = ranked_matches(&reg, &b("fire fox"));
    let without = ranked_matches(&reg, &b("firefox"));
    assert_eq!(names_of(&with_spaces), vec!["firefox".to_string()]);
    assert_eq!(with_spaces[0].0, without[0].0);
}

#[test]
fn non_matching_entries_are_excluded() {
    let reg = registry_of(&["alpha", "beta"]);
    let sugs = ranked_matches(&reg, &b("zzz"));
    assert!(sugs.is_empty());
}

#[test]
fn truncation_keeps_only_the_fitting_prefix() {
    // Widths 50, 60, 70 with 16px padding each cost 66, 142, 228
    // cumulatively against a budget of seventy percent of the width.
    let sugs = vec![(3i64, b("a")), (2i64, b("bb")), (1i64, b("ccc"))];
    let widths: Vec<u32> = vec![50, 60, 70];

    // Budget 140: only the first entry fits.
    let kept = truncate_suggestions(sugs.clone(), &widths, 200);
    assert_eq!(kept.len(), 1);
    assert_eq!(kept[0].1, b("a"));

    // Budget 210: two entries fit.
    let kept = truncate_suggestions(sugs.clone(), &widths, 300);
    assert_eq!(kept.len(), 2);

    // Budget 280: all three fit.
    let kept = truncate_suggestions(sugs.clone(), &widths, 400);
    assert_eq!(kept.len(), 3);

    // Budget 0: nothing fits.
    let kept = truncate_suggestions(sugs, &widths, 0);
    assert!(kept.is_empty());
}
