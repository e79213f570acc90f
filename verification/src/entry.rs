//! Parser for one application descriptor file: recognizes the `Exec`,
//! `Name`, `Type`, `Terminal`, `Hidden` and `NoDisplay` keys (first
//! occurrence of each wins), applies the value-processing rules, and
//! either accepts the file as a launchable entry or rejects it.

use vstd::prelude::*;

use crate::text::{
    copy_range, eq_bytes, lines_spec, lower_spec, remove_quotes, seq_views, split_lines,
    starts_with, starts_with_spec, strip_codes_spec, strip_field_codes, strip_quotes,
    to_ascii_lowercase, trim, trim_spec,
};

verus! {

/// The bytes of `"Hidden="`.
pub open spec fn key_hidden() -> Seq<u8> {
    seq![
        'H' as u8,
        'i' as u8,
        'd' as u8,
        'd' as u8,
        'e' as u8,
        'n' as u8,
        '=' as u8,
    ]
}

/// The bytes of `"NoDisplay="`.
pub open spec fn key_nodisplay() -> Seq<u8> {
    seq![
        'N' as u8,
        'o' as u8,
        'D' as u8,
        'i' as u8,
        's' as u8,
        'p' as u8,
        'l' as u8,
        'a' as u8,
        'y' as u8,
        '=' as u8,
    ]
}

/// The bytes of `"Exec="`.
pub open spec fn key_exec() -> Seq<u8> {
    seq!['E' as u8, 'x' as u8, 'e' as u8, 'c' as u8, '=' as u8]
}

/// The bytes of `"Name="`.
pub open spec fn key_name() -> Seq<u8> {
    seq!['N' as u8, 'a' as u8, 'm' as u8, 'e' as u8, '=' as u8]
}

/// The bytes of `"Type="`.
pub open spec fn key_type() -> Seq<u8> {
    seq!['T' as u8, 'y' as u8, 'p' as u8, 'e' as u8, '=' as u8]
}

/// The bytes of `"Terminal="`.
pub open spec fn key_terminal() -> Seq<u8> {
    seq![
        'T' as u8,
        'e' as u8,
        'r' as u8,
        'm' as u8,
        'i' as u8,
        'n' as u8,
        'a' as u8,
        'l' as u8,
        '=' as u8,
    ]
}

/// The bytes of `"false"`.
pub open spec fn word_false() -> Seq<u8> {
    seq!['f' as u8, 'a' as u8, 'l' as u8, 's' as u8, 'e' as u8]
}

/// The bytes of `"Application"`.
pub open spec fn word_application() -> Seq<u8> {
    seq![
        'A' as u8,
        'p' as u8,
        'p' as u8,
        'l' as u8,
        'i' as u8,
        'c' as u8,
        'a' as u8,
        't' as u8,
        'i' as u8,
        'o' as u8,
        'n' as u8,
    ]
}

fn key_hidden_vec() -> (v: Vec<u8>)
    ensures
        v@ == key_hidden(),
{
    let v: Vec<u8> = vec![
        'H' as u8,
        'i' as u8,
        'd' as u8,
        'd' as u8,
        'e' as u8,
        'n' as u8,
        '=' as u8,
    ];
    proof {
        assert(v@ =~= key_hidden());
    }
    v
}

fn key_nodisplay_vec() -> (v: Vec<u8>)
    ensures
        v@ == key_nodisplay(),
{
    let v: Vec<u8> = vec![
        'N' as u8,
        'o' as u8,
        'D' as u8,
        'i' as u8,
        's' as u8,
        'p' as u8,
        'l' as u8,
        'a' as u8,
        'y' as u8,
        '=' as u8,
    ];
    proof {
        assert(v@ =~= key_nodisplay());
    }
    v
}

fn key_exec_vec() -> (v: Vec<u8>)
    ensures
        v@ == key_exec(),
{
    let v: Vec<u8> = vec!['E' as u8, 'x' as u8, 'e' as u8, 'c' as u8, '=' as u8];
    proof {
        assert(v@ =~= key_exec());
    }
    v
}

fn key_name_vec() -> (v: Vec<u8>)
    ensures
        v@ == key_name(),
{
    let v: Vec<u8> = vec!['N' as u8, 'a' as u8, 'm' as u8, 'e' as u8, '=' as u8];
    proof {
        assert(v@ =~= key_name());
    }
    v
}

fn key_type_vec() -> (v: Vec<u8>)
    ensures
        v@ == key_type(),
{
    let v: Vec<u8> = vec!['T' as u8, 'y' as u8, 'p' as u8, 'e' as u8, '=' as u8];
    proof {
        assert(v@ =~= key_type());
    }
    v
}

fn key_terminal_vec() -> (v: Vec<u8>)
    ensures
        v@ == key_terminal(),
{
    let v: Vec<u8> = vec![
        'T' as u8,
        'e' as u8,
        'r' as u8,
        'm' as u8,
        'i' as u8,
        'n' as u8,
        'a' as u8,
        'l' as u8,
        '=' as u8,
    ];
    proof {
        assert(v@ =~= key_terminal());
    }
    v
}

fn word_false_vec() -> (v: Vec<u8>)
    ensures
        v@ == word_false(),
{
    let v: Vec<u8> = vec!['f' as u8, 'a' as u8, 'l' as u8, 's' as u8, 'e' as u8];
    proof {
        assert(v@ =~= word_false());
    }
    v
}

fn word_application_vec() -> (v: Vec<u8>)
    ensures
        v@ == word_application(),
{
    let v: Vec<u8> = vec![
        'A' as u8,
        'p' as u8,
        'p' as u8,
        'l' as u8,
        'i' as u8,
        'c' as u8,
        'a' as u8,
        't' as u8,
        'i' as u8,
        'o' as u8,
        'n' as u8,
    ];
    proof {
        assert(v@ =~= word_application());
    }
    v
}

/// The value of the first line that begins with `key`, with the key
/// removed; `None` when no line carries the key.
pub open spec fn first_value(lines: Seq<Seq<u8>>, key: Seq<u8>) -> Option<Seq<u8>>
    decreases lines.len(),
{
    if lines.len() == 0 {
        None
    } else if starts_with_spec(lines[0], key) {
        Some(lines[0].skip(key.len() as int))
    } else {
        first_value(lines.drop_first(), key)
    }
}

/// Scans the lines for the first one that begins with `key` and returns
/// the rest of that line.
fn find_key_value(lines: &Vec<Vec<u8>>, key: &Vec<u8>) -> (r: Option<Vec<u8>>)
    ensures
        match r {
            Some(v) => first_value(seq_views(lines@), key@) == Some(v@),
            None => first_value(seq_views(lines@), key@) is None,
        },
{
    let ghost all = seq_views(lines@);
    let mut i: usize = 0;
    proof {
        assert(all.skip(0) =~= all);
    }
    while i < lines.len()
        invariant
            i <= lines.len(),
            all == seq_views(lines@),
            first_value(all, key@) == first_value(all.skip(i as int), key@),
        decreases lines.len() - i,
    {
        let line = &lines[i];
        if starts_with(line, key) {
            let v = copy_range(line, key.len(), line.len());
            proof {
                assert(all.skip(i as int)[0] == line@);
                assert(v@ =~= line@.skip(key@.len() as int));
            }
            return Some(v);
        }
        proof {
            assert(all.skip(i as int)[0] == lines@[i as int]@);
            assert(all.skip(i as int).drop_first() =~= all.skip(i + 1));
        }
        i += 1;
    }
    proof {
        assert(all.skip(lines@.len() as int).len() == 0);
    }
    None
}

/// A `Hidden` or `NoDisplay` value after quote stripping, trimming and
/// case folding; anything but this exact result rejects the file.
pub open spec fn bool_value(raw: Seq<u8>) -> Seq<u8> {
    lower_spec(trim_spec(strip_quotes(raw)))
}

/// A present `Hidden`/`NoDisplay` key rejects the file unless its
/// processed value is exactly `"false"`: `"true"` hides the entry and an
/// unparsable value is treated the same way.
pub open spec fn rejects(raw: Option<Seq<u8>>) -> bool {
    match raw {
        None => false,
        Some(v) => bool_value(v) != word_false(),
    }
}

/// An `Exec` value after field-code stripping, quote stripping and
/// trimming.
pub open spec fn exec_value(raw: Seq<u8>) -> Seq<u8> {
    trim_spec(strip_quotes(strip_codes_spec(raw)))
}

/// A `Name` value after quote stripping.
pub open spec fn name_value(raw: Seq<u8>) -> Seq<u8> {
    strip_quotes(raw)
}

/// Whether a `Terminal` value asks for a terminal: everything but an
/// absent key, an empty value and the word `"false"` (case-folded,
/// quote-stripped) does.
pub open spec fn terminal_value(raw: Option<Seq<u8>>) -> bool {
    match raw {
        None => false,
        Some(v) => {
            let p = lower_spec(strip_quotes(v));
            p.len() > 0 && p != word_false()
        },
    }
}

/// A parsed, accepted descriptor: its display name, its command line and
/// whether launching needs a terminal.
pub struct EntryView {
    pub name: Seq<u8>,
    pub exec_command: Seq<u8>,
    pub requires_terminal: bool,
}

/// What parsing a descriptor file yields: `None` when the file is hidden,
/// of the wrong type, or misses a required key; otherwise the entry.
pub open spec fn parse_desktop_spec(content: Seq<u8>) -> Option<EntryView> {
    let ls = lines_spec(content);
    if rejects(first_value(ls, key_hidden())) || rejects(first_value(ls, key_nodisplay())) {
        None
    } else {
        let name = match first_value(ls, key_name()) {
            None => Seq::<u8>::empty(),
            Some(raw) => name_value(raw),
        };
        let cmd = match first_value(ls, key_exec()) {
            None => Seq::<u8>::empty(),
            Some(raw) => exec_value(raw),
        };
        let ty = match first_value(ls, key_type()) {
            None => Seq::<u8>::empty(),
            Some(raw) => raw,
        };
        if name.len() > 0 && ty == word_application() && cmd.len() > 0 {
            Some(
                EntryView {
                    name,
                    exec_command: cmd,
                    requires_terminal: terminal_value(first_value(ls, key_terminal())),
                },
            )
        } else {
            None
        }
    }
}

/// An accepted descriptor, ready for registry insertion.
pub struct ParsedEntry {
    pub name: Vec<u8>,
    pub exec_command: Vec<u8>,
    pub requires_terminal: bool,
}

impl View for ParsedEntry {
    type V = EntryView;

    open spec fn view(&self) -> EntryView {
        EntryView { name: self.name@, exec_command: self.exec_command@, requires_terminal: self.requires_terminal }
    }
}

fn process_bool_value(raw: Vec<u8>) -> (r: Vec<u8>)
    ensures
        r@ == bool_value(raw@),
{
    let mut v = raw;
    remove_quotes(&mut v);
    let t = trim(&v);
    to_ascii_lowercase(&t)
}

/// Parses the full text of one descriptor file.
pub fn parse_desktop_file(content: &Vec<u8>) -> (r: Option<ParsedEntry>)
    ensures
        match r {
            Some(e) => parse_desktop_spec(content@) == Some(e@),
            None => parse_desktop_spec(content@) is None,
        },
{
    let lines = split_lines(content);
    let word_false_v = word_false_vec();

    if let Some(raw) = find_key_value(&lines, &key_hidden_vec()) {
        let v = process_bool_value(raw);
        if !eq_bytes(&v, &word_false_v) {
            return None;
        }
    }
    if let Some(raw) = find_key_value(&lines, &key_nodisplay_vec()) {
        let v = process_bool_value(raw);
        if !eq_bytes(&v, &word_false_v) {
            return None;
        }
    }

    let name = match find_key_value(&lines, &key_name_vec()) {
        None => Vec::new(),
        Some(raw) => {
            let mut v = raw;
            remove_quotes(&mut v);
            v
        },
    };
    let cmd = match find_key_value(&lines, &key_exec_vec()) {
        None => Vec::new(),
        Some(raw) => {
            let mut v = strip_field_codes(&raw);
            remove_quotes(&mut v);
            trim(&v)
        },
    };
    let ty = match find_key_value(&lines, &key_type_vec()) {
        None => Vec::new(),
        Some(raw) => raw,
    };

    if name.len() == 0 {
        return None;
    }
    if !eq_bytes(&ty, &word_application_vec()) {
        return None;
    }
    if cmd.len() == 0 {
        return None;
    }

    let requires_terminal = match find_key_value(&lines, &key_terminal_vec()) {
        None => false,
        Some(raw) => {
            let mut v = raw;
            remove_quotes(&mut v);
            let p = to_ascii_lowercase(&v);
            !(p.len() == 0 || eq_bytes(&p, &word_false_v))
        },
    };

    Some(ParsedEntry { name, exec_command: cmd, requires_terminal })
}

/// Every accepted descriptor carries `Type=Application` exactly, a
/// non-empty processed name and a non-empty processed command line;
/// a file missing any of these is never accepted.
pub proof fn lemma_accepted_is_valid(content: Seq<u8>)
    ensures
        match parse_desktop_spec(content) {
            Some(e) => {
                &&& e.name.len() > 0
                &&& e.exec_command.len() > 0
                &&& first_value(lines_spec(content), key_type()) == Some(word_application())
            },
            None => true,
        },
{
}

/// A `Hidden` or `NoDisplay` key whose processed value is anything but
/// `"false"` excludes the file, whatever the other keys say.
pub proof fn lemma_hidden_excludes(content: Seq<u8>)
    requires
        rejects(first_value(lines_spec(content), key_hidden())) || rejects(
            first_value(lines_spec(content), key_nodisplay()),
        ),
    ensures
        parse_desktop_spec(content) is None,
{
}

/// An accepted entry requires a terminal exactly when a `Terminal` key is
/// present and its processed value is neither empty nor `"false"`.
pub proof fn lemma_terminal_rule(content: Seq<u8>)
    ensures
        match parse_desktop_spec(content) {
            Some(e) => e.requires_terminal == terminal_value(
                first_value(lines_spec(content), key_terminal()),
            ),
            None => true,
        },
{
}

} // verus!
