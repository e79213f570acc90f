//! The application registry: entries parsed from descriptor files or
//! taken from executable-search-path scans, keyed by display name, with
//! identifier-based deduplication across precedence-ordered directories,
//! and the search-path list derived from environment values.

use vstd::prelude::*;

use crate::entry::{parse_desktop_file, parse_desktop_spec, EntryView};
use crate::text::{
    append_bytes, clone_bytes, copy_range, eq_bytes, seq_views, slashes_to_dashes,
    slashes_to_dashes_spec, split_byte, split_spec,
};

verus! {

/// One launchable application: its command line and whether launching
/// must be wrapped in the configured terminal program.
pub struct App {
    pub exec_command: Vec<u8>,
    pub show_terminal: bool,
}

/// The mathematical content of an [`App`].
pub struct AppView {
    pub exec_command: Seq<u8>,
    pub show_terminal: bool,
}

impl View for App {
    type V = AppView;

    open spec fn view(&self) -> AppView {
        AppView { exec_command: self.exec_command@, show_terminal: self.show_terminal }
    }
}

/// The registry of discovered applications, keyed by display name: a
/// later insertion under the same name overwrites the earlier one.
pub struct Registry {
    entries: Vec<(Vec<u8>, App)>,
}

/// The name-to-application map held by a sequence of registry slots,
/// later slots winning.
pub open spec fn map_of(es: Seq<(Vec<u8>, App)>) -> Map<Seq<u8>, AppView>
    decreases es.len(),
{
    if es.len() == 0 {
        Map::empty()
    } else {
        map_of(es.drop_last()).insert(es.last().0@, es.last().1@)
    }
}

impl View for Registry {
    type V = Map<Seq<u8>, AppView>;

    closed spec fn view(&self) -> Map<Seq<u8>, AppView> {
        map_of(self.entries@)
    }
}

proof fn lemma_map_of_domain(es: Seq<(Vec<u8>, App)>, name: Seq<u8>)
    ensures
        map_of(es).contains_key(name) <==> exists|i: int| 0 <= i < es.len() && es[i].0@ == name,
    decreases es.len(),
{
    if es.len() > 0 {
        lemma_map_of_domain(es.drop_last(), name);
        if es.last().0@ == name {
            assert(es[es.len() - 1].0@ == name);
        } else if map_of(es).contains_key(name) {
            let i = choose|i: int| 0 <= i < es.drop_last().len() && es.drop_last()[i].0@ == name;
            assert(es[i].0@ == name);
        } else {
            assert forall|i: int| 0 <= i < es.len() implies es[i].0@ != name by {
                if i < es.len() - 1 {
                    assert(es.drop_last()[i].0@ == es[i].0@);
                }
            }
        }
    }
}

proof fn lemma_map_of_at(es: Seq<(Vec<u8>, App)>, i: int)
    requires
        0 <= i < es.len(),
        forall|k: int, l: int| 0 <= k < l < es.len() ==> es[k].0@ != es[l].0@,
    ensures
        map_of(es).contains_key(es[i].0@),
        map_of(es)[es[i].0@] == es[i].1@,
    decreases es.len(),
{
    if i == es.len() - 1 {
    } else {
        assert(es.drop_last()[i] == es[i]);
        lemma_map_of_at(es.drop_last(), i);
        assert(es.last().0@ != es[i].0@);
    }
}

impl Registry {
    /// Registry slots carry pairwise distinct names.
    pub closed spec fn inv(&self) -> bool {
        forall|k: int, l: int|
            0 <= k < l < self.entries@.len() ==> self.entries@[k].0@ != self.entries@[l].0@
    }

    /// The display names, in insertion order.
    pub closed spec fn names(&self) -> Seq<Seq<u8>> {
        self.entries@.map_values(|e: (Vec<u8>, App)| e.0@)
    }

    /// An empty registry.
    pub fn new() -> (r: Registry)
        ensures
            r.inv(),
            r@ == Map::<Seq<u8>, AppView>::empty(),
            r.names() == Seq::<Seq<u8>>::empty(),
    {
        let r = Registry { entries: Vec::new() };
        proof {
            assert(r.names() =~= Seq::<Seq<u8>>::empty());
        }
        r
    }

    /// How many applications the registry holds.
    pub fn len(&self) -> (n: usize)
        ensures
            n == self.names().len(),
    {
        self.entries.len()
    }

    /// The display name of the application at one slot.
    pub fn name_at(&self, i: usize) -> (name: &Vec<u8>)
        requires
            i < self.names().len(),
        ensures
            name@ == self.names()[i as int],
    {
        &self.entries[i].0
    }

    /// Looks an application up by display name.
    pub fn get(&self, name: &Vec<u8>) -> (r: Option<&App>)
        requires
            self.inv(),
        ensures
            match r {
                Some(app) => self@.contains_key(name@) && self@[name@] == app@,
                None => !self@.contains_key(name@),
            },
    {
        let mut i: usize = 0;
        while i < self.entries.len()
            invariant
                i <= self.entries@.len(),
                self.inv(),
                forall|k: int| 0 <= k < i ==> self.entries@[k].0@ != name@,
            decreases self.entries@.len() - i,
        {
            if eq_bytes(&self.entries[i].0, name) {
                proof {
                    lemma_map_of_at(self.entries@, i as int);
                }
                return Some(&self.entries[i].1);
            }
            i += 1;
        }
        proof {
            lemma_map_of_domain(self.entries@, name@);
        }
        None
    }

    /// Inserts an application under a display name, overwriting any
    /// earlier entry with that name.
    pub fn insert(&mut self, name: Vec<u8>, app: App)
        requires
            old(self).inv(),
        ensures
            final(self).inv(),
            final(self)@ == old(self)@.insert(name@, app@),
            final(self).names() == if old(self)@.contains_key(name@) {
                old(self).names()
            } else {
                old(self).names().push(name@)
            },
    {
        let ghost old_entries = self.entries@;
        let mut i: usize = 0;
        while i < self.entries.len()
            invariant
                i <= self.entries@.len(),
                self.entries@ == old_entries,
                old_entries == old(self).entries@,
                forall|k: int, l: int| 0 <= k < l < old_entries.len() ==> old_entries[k].0@ != old_entries[l].0@,
                forall|k: int| 0 <= k < i ==> self.entries@[k].0@ != name@,
            decreases self.entries@.len() - i,
        {
            if eq_bytes(&self.entries[i].0, &name) {
                let ghost gname = name@;
                let ghost gapp = app@;
                self.entries[i] = (name, app);
                proof {
                    let e = self.entries@[i as int];
                    assert(e.0@ == gname && e.1@ == gapp);
                    assert(self.entries@ == old_entries.update(i as int, e));
                    lemma_map_of_update(old_entries, i as int, gname, gapp);
                    assert(map_of(old_entries.update(i as int, e)) == map_of(old_entries).insert(
                        gname,
                        gapp,
                    ));
                    lemma_map_of_domain(old_entries, gname);
                    assert(0 <= i < old_entries.len() && old_entries[i as int].0@ == gname);
                    assert(map_of(old_entries).contains_key(gname));
                    assert forall|k: int, l: int|
                        0 <= k < l < self.entries@.len() implies self.entries@[k].0@
                        != self.entries@[l].0@ by {
                        assert(self.entries@[k].0@ == old_entries[k].0@);
                        assert(self.entries@[l].0@ == old_entries[l].0@);
                    }
                    assert(self.names() =~= old_entries.map_values(|e: (Vec<u8>, App)| e.0@));
                }
                return ;
            }
            i += 1;
        }
        let ghost gname = name@;
        self.entries.push((name, app));
        proof {
            assert(self.entries@.drop_last() =~= old_entries);
            lemma_map_of_domain(old_entries, gname);
            assert(self.names() =~= old_entries.map_values(|e: (Vec<u8>, App)| e.0@).push(gname));
        }
    }
}

/// Index of the last `.` in a file name, or -1 when there is none.
pub open spec fn last_dot(s: Seq<u8>) -> int
    decreases s.len(),
{
    if s.len() == 0 {
        -1
    } else if s[s.len() - 1] == '.' as u8 {
        s.len() - 1
    } else {
        last_dot(s.drop_last())
    }
}

/// The base name without its extension; a name whose only `.` leads it
/// has no extension and is its own stem.
pub open spec fn stem_spec(fname: Seq<u8>) -> Seq<u8> {
    let p = last_dot(fname);
    if p <= 0 {
        fname
    } else {
        fname.take(p)
    }
}

/// The extension after the last `.`, if the name has one.
pub open spec fn ext_spec(fname: Seq<u8>) -> Option<Seq<u8>> {
    let p = last_dot(fname);
    if p <= 0 {
        None
    } else {
        Some(fname.skip(p + 1))
    }
}

/// The bytes of `"desktop"`.
pub open spec fn ext_desktop() -> Seq<u8> {
    seq!['d' as u8, 'e' as u8, 's' as u8, 'k' as u8, 't' as u8, 'o' as u8, 'p' as u8]
}

/// A file name that descriptor scanning considers at all.
pub open spec fn is_desktop_name(fname: Seq<u8>) -> bool {
    ext_spec(fname) == Some(ext_desktop())
}

/// The deduplication identifier of a descriptor file: the directory tag
/// relative to the scanned root, separators turned to dashes, prefixed
/// to the file's stem.
pub open spec fn file_id_spec(tag: Seq<u8>, fname: Seq<u8>) -> Seq<u8> {
    if tag.len() > 0 {
        slashes_to_dashes_spec(tag.skip(1)) + seq!['-' as u8] + stem_spec(fname)
    } else {
        stem_spec(fname)
    }
}

proof fn lemma_last_dot_at(s: Seq<u8>, j: int)
    requires
        0 <= j < s.len(),
        s[j] == '.' as u8,
        forall|k: int| j < k < s.len() ==> s[k] != '.' as u8,
    ensures
        last_dot(s) == j,
    decreases s.len(),
{
    if j < s.len() - 1 {
        assert(s.drop_last()[j] == s[j]);
        assert forall|k: int| j < k < s.drop_last().len() implies s.drop_last()[k] != '.' as u8 by {
            assert(s.drop_last()[k] == s[k]);
        }
        lemma_last_dot_at(s.drop_last(), j);
    }
}

proof fn lemma_last_dot_none(s: Seq<u8>)
    requires
        forall|k: int| 0 <= k < s.len() ==> s[k] != '.' as u8,
    ensures
        last_dot(s) == -1,
    decreases s.len(),
{
    if s.len() > 0 {
        assert forall|k: int| 0 <= k < s.drop_last().len() implies s.drop_last()[k]
            != '.' as u8 by {
            assert(s.drop_last()[k] == s[k]);
        }
        lemma_last_dot_none(s.drop_last());
    }
}

fn find_last_dot(s: &Vec<u8>) -> (r: Option<usize>)
    ensures
        match r {
            Some(j) => j < s@.len() && last_dot(s@) == j,
            None => last_dot(s@) == -1,
        },
{
    let mut i: usize = s.len();
    while i > 0
        invariant
            i <= s@.len(),
            forall|k: int| i <= k < s@.len() ==> s@[k] != '.' as u8,
        decreases i,
    {
        if s[i - 1] == '.' as u8 {
            proof {
                lemma_last_dot_at(s@, i - 1);
            }
            return Some(i - 1);
        }
        i -= 1;
    }
    proof {
        lemma_last_dot_none(s@);
    }
    None
}

/// The base name of a file without its extension.
pub fn file_stem(fname: &Vec<u8>) -> (r: Vec<u8>)
    ensures
        r@ == stem_spec(fname@),
{
    match find_last_dot(fname) {
        Some(p) if p > 0 => copy_range(fname, 0, p),
        _ => clone_bytes(fname),
    }
}

fn ext_desktop_vec() -> (v: Vec<u8>)
    ensures
        v@ == ext_desktop(),
{
    let v: Vec<u8> = vec![
        'd' as u8,
        'e' as u8,
        's' as u8,
        'k' as u8,
        't' as u8,
        'o' as u8,
        'p' as u8,
    ];
    proof {
        assert(v@ =~= ext_desktop());
    }
    v
}

/// Whether a file name carries the descriptor extension.
pub fn is_desktop_file(fname: &Vec<u8>) -> (r: bool)
    ensures
        r == is_desktop_name(fname@),
{
    let n = fname.len();
    match find_last_dot(fname) {
        Some(p) => {
            if p > 0 {
                let ext = copy_range(fname, p + 1, n);
                eq_bytes(&ext, &ext_desktop_vec())
            } else {
                false
            }
        },
        None => false,
    }
}

/// The deduplication identifier of a descriptor file.
pub fn compute_file_id(tag: &Vec<u8>, fname: &Vec<u8>) -> (r: Vec<u8>)
    ensures
        r@ == file_id_spec(tag@, fname@),
{
    let stem = file_stem(fname);
    if tag.len() == 0 {
        stem
    } else {
        let rest = copy_range(tag, 1, tag.len());
        let mut id = slashes_to_dashes(&rest);
        id.push('-' as u8);
        let ghost prefix = id@;
        append_bytes(&mut id, &stem);
        proof {
            assert(id@ =~= slashes_to_dashes_spec(tag@.skip(1)) + seq!['-' as u8] + stem_spec(
                fname@,
            ));
        }
        id
    }
}

/// Whether a byte string is among the identifiers already seen.
pub fn contains_id(seen: &Vec<Vec<u8>>, id: &Vec<u8>) -> (r: bool)
    ensures
        r == seq_views(seen@).contains(id@),
{
    let mut i: usize = 0;
    while i < seen.len()
        invariant
            i <= seen@.len(),
            forall|k: int| 0 <= k < i ==> seen@[k]@ != id@,
        decreases seen@.len() - i,
    {
        if eq_bytes(&seen[i], id) {
            assert(seq_views(seen@)[i as int] == id@);
            return true;
        }
        i += 1;
    }
    assert forall|k: int| 0 <= k < seq_views(seen@).len() implies seq_views(seen@)[k] != id@ by {
        assert(seq_views(seen@)[k] == seen@[k]@);
    }
    false
}

/// Whether the dedup check lets a file through: it must carry the
/// descriptor extension and its identifier must be new to this scan.
pub open spec fn scan_accepts(seen: Seq<Seq<u8>>, tag: Seq<u8>, fname: Seq<u8>) -> bool {
    is_desktop_name(fname) && !seen.contains(file_id_spec(tag, fname))
}

/// Handles one file found during the descriptor scan: skips files
/// without the descriptor extension, skips identifiers already seen
/// (the earlier, higher-precedence file keeps its registry entry),
/// records the identifier, and inserts the entry if the parser accepts
/// the file.
pub fn process_desktop_file(
    reg: &mut Registry,
    seen: &mut Vec<Vec<u8>>,
    tag: &Vec<u8>,
    fname: &Vec<u8>,
    content: &Vec<u8>,
)
    requires
        old(reg).inv(),
    ensures
        final(reg).inv(),
        !scan_accepts(seq_views(old(seen)@), tag@, fname@) ==> final(reg)@ == old(reg)@
            && final(seen)@ == old(seen)@,
        scan_accepts(seq_views(old(seen)@), tag@, fname@) ==> {
            &&& seq_views(final(seen)@) == seq_views(old(seen)@).push(file_id_spec(tag@, fname@))
            &&& match parse_desktop_spec(content@) {
                Some(e) => final(reg)@ == old(reg)@.insert(
                    e.name,
                    AppView { exec_command: e.exec_command, show_terminal: e.requires_terminal },
                ),
                None => final(reg)@ == old(reg)@,
            }
        },
{
    if !is_desktop_file(fname) {
        return ;
    }
    let id = compute_file_id(tag, fname);
    if contains_id(seen, &id) {
        return ;
    }
    let ghost gid = id@;
    seen.push(id);
    proof {
        assert(seq_views(seen@) =~= seq_views(old(seen)@).push(gid));
    }
    match parse_desktop_file(content) {
        Some(e) => {
            reg.insert(
                e.name,
                App { exec_command: e.exec_command, show_terminal: e.requires_terminal },
            );
        },
        None => {},
    }
}

/// Records one executable found on the search path: display name and
/// identifier are the file name, the command is the absolute path, no
/// terminal is required; it overwrites any same-named entry.
pub fn insert_path_entry(reg: &mut Registry, fname: &Vec<u8>, full_path: &Vec<u8>)
    requires
        old(reg).inv(),
    ensures
        final(reg).inv(),
        final(reg)@ == old(reg)@.insert(
            fname@,
            AppView { exec_command: full_path@, show_terminal: false },
        ),
{
    reg.insert(
        clone_bytes(fname),
        App { exec_command: clone_bytes(full_path), show_terminal: false },
    );
}

/// Once the higher-precedence file of an identifier has been recorded,
/// the dedup check refuses every later file with that identifier: only
/// the earlier-scanned descriptor keeps its registry entry.
pub proof fn lemma_first_identifier_wins(
    seen: Seq<Seq<u8>>,
    tag_a: Seq<u8>,
    fname_a: Seq<u8>,
    tag_b: Seq<u8>,
    fname_b: Seq<u8>,
)
    requires
        scan_accepts(seen, tag_a, fname_a),
        file_id_spec(tag_a, fname_a) == file_id_spec(tag_b, fname_b),
    ensures
        !scan_accepts(seen.push(file_id_spec(tag_a, fname_a)), tag_b, fname_b),
{
    let id = file_id_spec(tag_a, fname_a);
    assert(seen.push(id)[seen.len() as int] == id);
}

/// The bytes of `"/applications"`, the subpath under each data directory.
pub open spec fn suffix_applications() -> Seq<u8> {
    seq![
        '/' as u8,
        'a' as u8,
        'p' as u8,
        'p' as u8,
        'l' as u8,
        'i' as u8,
        'c' as u8,
        'a' as u8,
        't' as u8,
        'i' as u8,
        'o' as u8,
        'n' as u8,
        's' as u8,
    ]
}

/// The bytes of `"/.local/share/applications"`, the fallback under the
/// home directory.
pub open spec fn suffix_local_share() -> Seq<u8> {
    seq![
        '/' as u8,
        '.' as u8,
        'l' as u8,
        'o' as u8,
        'c' as u8,
        'a' as u8,
        'l' as u8,
        '/' as u8,
        's' as u8,
        'h' as u8,
        'a' as u8,
        'r' as u8,
        'e' as u8,
    ] + suffix_applications()
}

/// The bytes of `"/usr/local/share/:/usr/share/"`, the default data
/// directory list.
pub open spec fn default_data_dirs() -> Seq<u8> {
    seq![
        '/' as u8,
        'u' as u8,
        's' as u8,
        'r' as u8,
        '/' as u8,
        'l' as u8,
        'o' as u8,
        'c' as u8,
        'a' as u8,
        'l' as u8,
        '/' as u8,
        's' as u8,
        'h' as u8,
        'a' as u8,
        'r' as u8,
        'e' as u8,
        '/' as u8,
        ':' as u8,
        '/' as u8,
        'u' as u8,
        's' as u8,
        'r' as u8,
        '/' as u8,
        's' as u8,
        'h' as u8,
        'a' as u8,
        'r' as u8,
        'e' as u8,
        '/' as u8,
    ]
}

fn suffix_applications_vec() -> (v: Vec<u8>)
    ensures
        v@ == suffix_applications(),
{
    let v: Vec<u8> = vec![
        '/' as u8,
        'a' as u8,
        'p' as u8,
        'p' as u8,
        'l' as u8,
        'i' as u8,
        'c' as u8,
        'a' as u8,
        't' as u8,
        'i' as u8,
        'o' as u8,
        'n' as u8,
        's' as u8,
    ];
    proof {
        assert(v@ =~= suffix_applications());
    }
    v
}

fn suffix_local_share_vec() -> (v: Vec<u8>)
    ensures
        v@ == suffix_local_share(),
{
    let mut v: Vec<u8> = vec![
        '/' as u8,
        '.' as u8,
        'l' as u8,
        'o' as u8,
        'c' as u8,
        'a' as u8,
        'l' as u8,
        '/' as u8,
        's' as u8,
        'h' as u8,
        'a' as u8,
        'r' as u8,
        'e' as u8,
    ];
    append_bytes(&mut v, &suffix_applications_vec());
    proof {
        assert(v@ =~= suffix_local_share());
    }
    v
}

fn default_data_dirs_vec() -> (v: Vec<u8>)
    ensures
        v@ == default_data_dirs(),
{
    let v: Vec<u8> = vec![
        '/' as u8,
        'u' as u8,
        's' as u8,
        'r' as u8,
        '/' as u8,
        'l' as u8,
        'o' as u8,
        'c' as u8,
        'a' as u8,
        'l' as u8,
        '/' as u8,
        's' as u8,
        'h' as u8,
        'a' as u8,
        'r' as u8,
        'e' as u8,
        '/' as u8,
        ':' as u8,
        '/' as u8,
        'u' as u8,
        's' as u8,
        'r' as u8,
        '/' as u8,
        's' as u8,
        'h' as u8,
        'a' as u8,
        'r' as u8,
        'e' as u8,
        '/' as u8,
    ];
    proof {
        assert(v@ =~= default_data_dirs());
    }
    v
}

/// The view of an optional environment value.
pub open spec fn opt_view(o: Option<Vec<u8>>) -> Option<Seq<u8>> {
    match o {
        None => None,
        Some(v) => Some(v@),
    }
}

/// The precedence-ordered descriptor search directories derived from the
/// environment: the user-local data directory first (from the dedicated
/// variable, else under the home directory, else an unusable empty
/// path), then every entry of the data-directory list (or its default),
/// each with the applications subpath appended.
pub open spec fn search_dirs_spec(
    xdg_data_home: Option<Seq<u8>>,
    home: Option<Seq<u8>>,
    xdg_data_dirs: Option<Seq<u8>>,
) -> Seq<Seq<u8>> {
    let first = match xdg_data_home {
        Some(h) => h + suffix_applications(),
        None => match home {
            Some(s) => s + suffix_local_share(),
            None => Seq::<u8>::empty(),
        },
    };
    let base = match xdg_data_dirs {
        Some(d) => d,
        None => default_data_dirs(),
    };
    seq![first] + split_spec(base, ':' as u8).map_values(|d: Seq<u8>| d + suffix_applications())
}

/// Builds the descriptor search directories from the environment values
/// the caller read.
pub fn build_search_dirs(
    xdg_data_home: Option<Vec<u8>>,
    home: Option<Vec<u8>>,
    xdg_data_dirs: Option<Vec<u8>>,
) -> (dirs: Vec<Vec<u8>>)
    ensures
        seq_views(dirs@) == search_dirs_spec(
            opt_view(xdg_data_home),
            opt_view(home),
            opt_view(xdg_data_dirs),
        ),
{
    let ghost spec_dirs = search_dirs_spec(
        opt_view(xdg_data_home),
        opt_view(home),
        opt_view(xdg_data_dirs),
    );
    let first: Vec<u8> = match xdg_data_home {
        Some(h) => {
            let mut v = h;
            append_bytes(&mut v, &suffix_applications_vec());
            v
        },
        None => match home {
            Some(s) => {
                let mut v = s;
                append_bytes(&mut v, &suffix_local_share_vec());
                v
            },
            None => Vec::new(),
        },
    };
    let base: Vec<u8> = match xdg_data_dirs {
        Some(d) => d,
        None => default_data_dirs_vec(),
    };
    let parts = split_byte(&base, ':' as u8);
    let mut dirs: Vec<Vec<u8>> = Vec::new();
    dirs.push(first);
    let mut i: usize = 0;
    while i < parts.len()
        invariant
            i <= parts@.len(),
            dirs@.len() == i + 1,
            seq_views(dirs@) == spec_dirs.take(i + 1),
            spec_dirs == seq![dirs@[0]@] + seq_views(parts@).map_values(
                |d: Seq<u8>| d + suffix_applications(),
            ),
        decreases parts@.len() - i,
    {
        let mut d = clone_bytes(&parts[i]);
        append_bytes(&mut d, &suffix_applications_vec());
        dirs.push(d);
        proof {
            assert(seq_views(dirs@) =~= spec_dirs.take(i + 2));
        }
        i += 1;
    }
    proof {
        assert(spec_dirs.take(parts@.len() as int + 1) =~= spec_dirs);
        assert(seq_views(dirs@) =~= spec_dirs.take(i + 1));
    }
    dirs
}

proof fn lemma_map_of_update(es: Seq<(Vec<u8>, App)>, i: int, name: Seq<u8>, app: AppView)
    requires
        0 <= i < es.len(),
        forall|k: int, l: int| 0 <= k < l < es.len() ==> es[k].0@ != es[l].0@,
        es[i].0@ == name,
    ensures
        forall|e: (Vec<u8>, App)|
            e.0@ == name && e.1@ == app ==> map_of(es.update(i, e)) == map_of(es).insert(name, app),
    decreases es.len(),
{
    assert forall|e: (Vec<u8>, App)| e.0@ == name && e.1@ == app implies map_of(es.update(i, e))
        == map_of(es).insert(name, app) by {
        let up = es.update(i, e);
        if i == es.len() - 1 {
            assert(up.drop_last() =~= es.drop_last());
            assert(up.last() == e);
            assert(map_of(es).insert(name, app) =~= map_of(es.drop_last()).insert(name, app));
        } else {
            assert(up.drop_last() =~= es.drop_last().update(i, e));
            assert(up.last() == es.last());
            assert forall|k: int, l: int|
                0 <= k < l < es.drop_last().len() implies es.drop_last()[k].0@
                != es.drop_last()[l].0@ by {
                assert(es.drop_last()[k] == es[k]);
                assert(es.drop_last()[l] == es[l]);
            }
            assert(es.drop_last()[i] == es[i]);
            lemma_map_of_update(es.drop_last(), i, name, app);
            assert(es.last().0@ != name);
            assert(map_of(es.drop_last()).insert(name, app).insert(es.last().0@, es.last().1@)
                =~= map_of(es.drop_last()).insert(es.last().0@, es.last().1@).insert(name, app));
        }
    }
}

} // verus!
