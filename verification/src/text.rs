//! Byte-string helpers shared by the descriptor parser and the launcher:
//! quote stripping, whitespace trimming, ASCII case folding, field-code
//! removal, byte replacement, splitting and lexicographic comparison.

use vstd::prelude::*;

verus! {

/// ASCII whitespace, the characters trimmed from descriptor values.
pub open spec fn is_ws(b: u8) -> bool {
    b == 9 || b == 10 || b == 11 || b == 12 || b == 13 || b == 32
}

/// A value wrapped in one pair of double quotes.
pub open spec fn is_quoted(s: Seq<u8>) -> bool {
    s.len() > 1 && s[0] == '"' as u8 && s[s.len() - 1] == '"' as u8
}

/// The value with one pair of surrounding double quotes removed, if both
/// are present.
pub open spec fn strip_quotes(s: Seq<u8>) -> Seq<u8> {
    if is_quoted(s) {
        s.subrange(1, s.len() - 1)
    } else {
        s
    }
}

/// Removes one pair of surrounding double quotes, if present.
pub fn remove_quotes(s: &mut Vec<u8>)
    ensures
        final(s)@ == strip_quotes(old(s)@),
{
    if s.len() > 1 && s[0] == '"' as u8 && s[s.len() - 1] == '"' as u8 {
        s.remove(s.len() - 1);
        s.remove(0);
        assert(s@ =~= strip_quotes(old(s)@));
    }
}

/// The suffix of `s` that remains after dropping leading ASCII whitespace.
pub open spec fn trim_start_spec(s: Seq<u8>) -> Seq<u8>
    decreases s.len(),
{
    if s.len() > 0 && is_ws(s[0]) {
        trim_start_spec(s.drop_first())
    } else {
        s
    }
}

/// The prefix of `s` that remains after dropping trailing ASCII whitespace.
pub open spec fn trim_end_spec(s: Seq<u8>) -> Seq<u8>
    decreases s.len(),
{
    if s.len() > 0 && is_ws(s[s.len() - 1]) {
        trim_end_spec(s.drop_last())
    } else {
        s
    }
}

/// `s` without leading and trailing ASCII whitespace.
pub open spec fn trim_spec(s: Seq<u8>) -> Seq<u8> {
    trim_end_spec(trim_start_spec(s))
}

proof fn lemma_trim_start_skip(s: Seq<u8>, i: int)
    requires
        0 <= i <= s.len(),
        forall|k: int| 0 <= k < i ==> is_ws(s[k]),
        i == s.len() || !is_ws(s[i]),
    ensures
        trim_start_spec(s) == s.skip(i),
    decreases i,
{
    if i == 0 {
        assert(s.skip(0) =~= s);
    } else {
        assert(is_ws(s[0]));
        lemma_trim_start_skip(s.drop_first(), i - 1);
        assert(s.drop_first().skip(i - 1) =~= s.skip(i));
    }
}

proof fn lemma_trim_end_take(s: Seq<u8>, j: int)
    requires
        0 <= j <= s.len(),
        forall|k: int| j <= k < s.len() ==> is_ws(s[k]),
        j == 0 || !is_ws(s[j - 1]),
    ensures
        trim_end_spec(s) == s.take(j),
    decreases s.len() - j,
{
    if j == s.len() {
        assert(s.take(j) =~= s);
    } else {
        assert(is_ws(s[s.len() - 1]));
        lemma_trim_end_take(s.drop_last(), j);
        assert(s.drop_last().take(j) =~= s.take(j));
    }
}

/// Drops leading and trailing ASCII whitespace.
pub fn trim(s: &Vec<u8>) -> (r: Vec<u8>)
    ensures
        r@ == trim_spec(s@),
{
    let mut start: usize = 0;
    while start < s.len() && is_ws_byte(s[start])
        invariant
            start <= s.len(),
            forall|k: int| 0 <= k < start ==> is_ws(s@[k]),
        decreases s.len() - start,
    {
        start += 1;
    }
    let mut end: usize = s.len();
    while end > start && is_ws_byte(s[end - 1])
        invariant
            start <= end <= s.len(),
            forall|k: int| end <= k < s.len() ==> is_ws(s@[k]),
        decreases end,
    {
        end -= 1;
    }
    proof {
        lemma_trim_start_skip(s@, start as int);
        if end == start {
            lemma_trim_end_take(s@.skip(start as int), 0);
        } else {
            lemma_trim_end_take(s@.skip(start as int), end - start);
        }
        assert(s@.skip(start as int).take(end - start) =~= s@.subrange(
            start as int,
            end as int,
        ));
    }
    copy_range(s, start, end)
}

fn is_ws_byte(b: u8) -> (r: bool)
    ensures
        r == is_ws(b),
{
    b == 9 || b == 10 || b == 11 || b == 12 || b == 13 || b == 32
}

/// A fresh vector holding the bytes of `s` from `from` (inclusive) to `to`
/// (exclusive).
pub fn copy_range(s: &Vec<u8>, from: usize, to: usize) -> (r: Vec<u8>)
    requires
        from <= to <= s.len(),
    ensures
        r@ == s@.subrange(from as int, to as int),
{
    let mut r: Vec<u8> = Vec::new();
    let mut i: usize = from;
    while i < to
        invariant
            from <= i <= to <= s.len(),
            r@ =~= s@.subrange(from as int, i as int),
        decreases to - i,
    {
        r.push(s[i]);
        i += 1;
        assert(r@ =~= s@.subrange(from as int, i as int));
    }
    r
}

/// ASCII lower-casing of one byte.
pub open spec fn lower_byte(b: u8) -> u8 {
    if 'A' as u8 <= b <= 'Z' as u8 {
        (b + 32) as u8
    } else {
        b
    }
}

/// ASCII lower-casing of a whole value.
pub open spec fn lower_spec(s: Seq<u8>) -> Seq<u8> {
    s.map_values(|b: u8| lower_byte(b))
}

/// ASCII lower-casing, as `str::make_ascii_lowercase` performs it.
pub fn to_ascii_lowercase(s: &Vec<u8>) -> (r: Vec<u8>)
    ensures
        r@ == lower_spec(s@),
{
    let mut r: Vec<u8> = Vec::new();
    let mut i: usize = 0;
    while i < s.len()
        invariant
            i <= s.len(),
            r@.len() == i,
            forall|k: int| 0 <= k < i ==> r@[k] == lower_byte(s@[k]),
        decreases s.len() - i,
    {
        let b = s[i];
        if 'A' as u8 <= b && b <= 'Z' as u8 {
            r.push(b + 32);
        } else {
            r.push(b);
        }
        i += 1;
    }
    assert(r@ =~= lower_spec(s@));
    r
}

/// Replaces every path separator with a dash, byte for byte.
pub open spec fn dash_byte(b: u8) -> u8 {
    if b == '/' as u8 {
        '-' as u8
    } else {
        b
    }
}

/// The value with every `/` replaced by `-`.
pub open spec fn slashes_to_dashes_spec(s: Seq<u8>) -> Seq<u8> {
    s.map_values(|b: u8| dash_byte(b))
}

/// Replaces every `/` with `-`, as identifier prefixes require.
pub fn slashes_to_dashes(s: &Vec<u8>) -> (r: Vec<u8>)
    ensures
        r@ == slashes_to_dashes_spec(s@),
{
    let mut r: Vec<u8> = Vec::new();
    let mut i: usize = 0;
    while i < s.len()
        invariant
            i <= s.len(),
            r@.len() == i,
            forall|k: int| 0 <= k < i ==> r@[k] == dash_byte(s@[k]),
        decreases s.len() - i,
    {
        if s[i] == '/' as u8 {
            r.push('-' as u8);
        } else {
            r.push(s[i]);
        }
        i += 1;
    }
    assert(r@ =~= slashes_to_dashes_spec(s@));
    r
}

/// A command line with every `%`-introduced two-byte field code removed:
/// each `%` is dropped together with the single byte that follows it.
pub open spec fn strip_codes_spec(s: Seq<u8>) -> Seq<u8>
    decreases s.len(),
{
    if s.len() == 0 {
        Seq::empty()
    } else if s[0] == '%' as u8 {
        if s.len() == 1 {
            Seq::empty()
        } else {
            strip_codes_spec(s.skip(2))
        }
    } else {
        seq![s[0]] + strip_codes_spec(s.skip(1))
    }
}

/// Removes every two-byte field code (`%f`, `%U`, ...) from a command line.
pub fn strip_field_codes(s: &Vec<u8>) -> (r: Vec<u8>)
    ensures
        r@ == strip_codes_spec(s@),
{
    let mut r: Vec<u8> = Vec::new();
    let mut i: usize = 0;
    proof {
        assert(s@.skip(0) =~= s@);
        assert(r@ + strip_codes_spec(s@) =~= strip_codes_spec(s@));
    }
    while i < s.len()
        invariant
            i <= s.len(),
            strip_codes_spec(s@) == r@ + strip_codes_spec(s@.skip(i as int)),
        decreases s.len() - i,
    {
        if s[i] == '%' as u8 {
            if s.len() - i >= 2 {
                proof {
                    assert(s@.skip(i as int).skip(2) =~= s@.skip(i + 2));
                }
                i += 2;
            } else {
                proof {
                    assert(s@.skip(i as int).len() == 1);
                }
                i += 1;
            }
        } else {
            let ghost prev = r@;
            r.push(s[i]);
            proof {
                let suffix = s@.skip(i as int);
                assert(suffix[0] == s@[i as int]);
                assert(suffix.skip(1) =~= s@.skip(i + 1));
                assert(suffix.drop_first() =~= suffix.skip(1));
                assert(strip_codes_spec(suffix) == seq![s@[i as int]] + strip_codes_spec(
                    s@.skip(i + 1),
                ));
                assert(r@ + strip_codes_spec(s@.skip(i + 1)) =~= prev + strip_codes_spec(suffix));
            }
            i += 1;
        }
    }
    proof {
        assert(s@.skip(s@.len() as int) =~= Seq::<u8>::empty());
        assert(r@ + Seq::<u8>::empty() =~= r@);
    }
    r
}

/// Index of the first occurrence of `sep` in `s`, or -1 if absent.
pub open spec fn find_spec(s: Seq<u8>, sep: u8) -> int
    decreases s.len(),
{
    if s.len() == 0 {
        -1
    } else if s[0] == sep {
        0
    } else {
        let r = find_spec(s.drop_first(), sep);
        if r == -1 {
            -1
        } else {
            r + 1
        }
    }
}

pub proof fn lemma_find_spec_at(s: Seq<u8>, sep: u8, i: int)
    requires
        0 <= i < s.len(),
        s[i] == sep,
        forall|k: int| 0 <= k < i ==> s[k] != sep,
    ensures
        find_spec(s, sep) == i,
    decreases i,
{
    if i > 0 {
        lemma_find_spec_at(s.drop_first(), sep, i - 1);
    }
}

pub proof fn lemma_find_spec_none(s: Seq<u8>, sep: u8)
    requires
        forall|k: int| 0 <= k < s.len() ==> s[k] != sep,
    ensures
        find_spec(s, sep) == -1,
    decreases s.len(),
{
    if s.len() > 0 {
        lemma_find_spec_none(s.drop_first(), sep);
    }
}

/// The fields of `s` between occurrences of `sep`. An empty input yields
/// one empty field; `n` separators yield `n + 1` fields.
pub open spec fn split_spec(s: Seq<u8>, sep: u8) -> Seq<Seq<u8>>
    decreases s.len(),
{
    let i = find_spec(s, sep);
    if 0 <= i < s.len() {
        seq![s.take(i)] + split_spec(s.skip(i + 1), sep)
    } else {
        seq![s]
    }
}

/// The views of a vector of byte vectors.
pub open spec fn seq_views(vs: Seq<Vec<u8>>) -> Seq<Seq<u8>> {
    vs.map_values(|v: Vec<u8>| v@)
}

/// Index of the first occurrence of `sep` at or after `from`.
pub fn find_byte_from(s: &Vec<u8>, sep: u8, from: usize) -> (r: Option<usize>)
    requires
        from <= s.len(),
    ensures
        match r {
            Some(j) => {
                &&& from <= j < s.len()
                &&& s@[j as int] == sep
                &&& forall|k: int| from <= k < j ==> s@[k] != sep
            },
            None => forall|k: int| from <= k < s.len() ==> s@[k] != sep,
        },
{
    let mut i: usize = from;
    while i < s.len()
        invariant
            from <= i <= s.len(),
            forall|k: int| from <= k < i ==> s@[k] != sep,
        decreases s.len() - i,
    {
        if s[i] == sep {
            return Some(i);
        }
        i += 1;
    }
    None
}

/// Splits on every occurrence of `sep`, keeping empty fields.
pub fn split_byte(s: &Vec<u8>, sep: u8) -> (parts: Vec<Vec<u8>>)
    ensures
        seq_views(parts@) == split_spec(s@, sep),
{
    let mut parts: Vec<Vec<u8>> = Vec::new();
    let mut start: usize = 0;
    proof {
        assert(s@.skip(0) =~= s@);
        assert(seq_views(parts@) + split_spec(s@, sep) =~= split_spec(s@, sep));
    }
    loop
        invariant_except_break
            start <= s.len(),
            split_spec(s@, sep) == seq_views(parts@) + split_spec(s@.skip(start as int), sep),
        ensures
            seq_views(parts@) == split_spec(s@, sep),
        decreases s.len() - start,
    {
        let ghost old_views = seq_views(parts@);
        let ghost suffix = s@.skip(start as int);
        match find_byte_from(s, sep, start) {
            Some(j) => {
                let part = copy_range(s, start, j);
                proof {
                    assert forall|k: int| 0 <= k < j - start implies suffix[k] != sep by {
                        assert(suffix[k] == s@[start + k]);
                    }
                    assert(suffix[j - start] == s@[j as int]);
                    lemma_find_spec_at(suffix, sep, j - start);
                    assert(split_spec(suffix, sep) == seq![suffix.take(j - start)] + split_spec(
                        suffix.skip(j - start + 1),
                        sep,
                    ));
                    assert(suffix.take(j - start) =~= part@);
                    assert(suffix.skip(j - start + 1) =~= s@.skip(j + 1));
                }
                parts.push(part);
                proof {
                    assert(seq_views(parts@) =~= old_views.push(part@));
                    assert(old_views + (seq![part@] + split_spec(s@.skip(j + 1), sep)) =~= old_views.push(
                        part@,
                    ) + split_spec(s@.skip(j + 1), sep));
                }
                start = j + 1;
            },
            None => {
                let part = copy_range(s, start, s.len());
                proof {
                    lemma_find_spec_none(suffix, sep);
                    assert(split_spec(suffix, sep) == seq![suffix]);
                    assert(suffix =~= part@);
                }
                parts.push(part);
                proof {
                    assert(seq_views(parts@) =~= old_views.push(part@));
                    assert(old_views + seq![part@] =~= old_views.push(part@));
                }
                break;
            },
        }
    }
    parts
}

/// A line with one trailing carriage return removed, as line splitting
/// treats `\r\n` endings.
pub open spec fn strip_cr(s: Seq<u8>) -> Seq<u8> {
    if s.len() > 0 && s[s.len() - 1] == 13 {
        s.drop_last()
    } else {
        s
    }
}

/// The lines of a descriptor file: split on `\n`, each line with one
/// trailing `\r` removed.
pub open spec fn lines_spec(content: Seq<u8>) -> Seq<Seq<u8>> {
    split_spec(content, 10).map_values(|l: Seq<u8>| strip_cr(l))
}

/// Splits file contents into lines.
pub fn split_lines(content: &Vec<u8>) -> (r: Vec<Vec<u8>>)
    ensures
        seq_views(r@) == lines_spec(content@),
{
    let raw = split_byte(content, 10);
    let mut out: Vec<Vec<u8>> = Vec::new();
    let mut i: usize = 0;
    while i < raw.len()
        invariant
            i <= raw.len(),
            seq_views(raw@) == split_spec(content@, 10),
            out@.len() == i,
            forall|k: int| 0 <= k < i ==> #[trigger] out@[k]@ == strip_cr(raw@[k]@),
        decreases raw.len() - i,
    {
        let line = &raw[i];
        if line.len() > 0 && line[line.len() - 1] == 13 {
            let shorter = copy_range(line, 0, line.len() - 1);
            proof {
                assert(shorter@ =~= strip_cr(line@));
            }
            out.push(shorter);
        } else {
            out.push(clone_bytes(line));
        }
        i += 1;
    }
    proof {
        assert(seq_views(out@) =~= lines_spec(content@));
    }
    out
}

/// `p` is a prefix of `s`.
pub open spec fn starts_with_spec(s: Seq<u8>, p: Seq<u8>) -> bool {
    p.len() <= s.len() && s.take(p.len() as int) == p
}

/// Tests whether `s` begins with the bytes of `p`.
pub fn starts_with(s: &Vec<u8>, p: &Vec<u8>) -> (r: bool)
    ensures
        r == starts_with_spec(s@, p@),
{
    if p.len() > s.len() {
        assert(!starts_with_spec(s@, p@));
        return false;
    }
    let mut i: usize = 0;
    while i < p.len()
        invariant
            i <= p.len() <= s.len(),
            forall|k: int| 0 <= k < i ==> s@[k] == p@[k],
        decreases p.len() - i,
    {
        if s[i] != p[i] {
            assert(s@.take(p@.len() as int)[i as int] != p@[i as int]);
            return false;
        }
        i += 1;
    }
    assert(s@.take(p@.len() as int) =~= p@);
    true
}

/// Byte-for-byte equality.
pub fn eq_bytes(a: &Vec<u8>, b: &Vec<u8>) -> (r: bool)
    ensures
        r == (a@ == b@),
{
    if a.len() != b.len() {
        return false;
    }
    let mut i: usize = 0;
    while i < a.len()
        invariant
            i <= a.len() == b.len(),
            forall|k: int| 0 <= k < i ==> a@[k] == b@[k],
        decreases a.len() - i,
    {
        if a[i] != b[i] {
            return false;
        }
        i += 1;
    }
    assert(a@ =~= b@);
    true
}

/// Appends the bytes of `src` to `dst`.
pub fn append_bytes(dst: &mut Vec<u8>, src: &Vec<u8>)
    ensures
        final(dst)@ == old(dst)@ + src@,
{
    let mut i: usize = 0;
    proof {
        assert(dst@ =~= old(dst)@ + src@.take(0));
    }
    while i < src.len()
        invariant
            i <= src.len(),
            dst@ == old(dst)@ + src@.take(i as int),
        decreases src.len() - i,
    {
        dst.push(src[i]);
        i += 1;
        proof {
            assert(dst@ =~= old(dst)@ + src@.take(i as int));
        }
    }
    proof {
        assert(src@.take(src@.len() as int) =~= src@);
    }
}

/// A fresh copy of a byte vector.
pub fn clone_bytes(v: &Vec<u8>) -> (r: Vec<u8>)
    ensures
        r@ == v@,
{
    copy_range(v, 0, v.len())
}

/// Lexicographic byte order; equal values compare as less-or-equal.
pub open spec fn lex_le(a: Seq<u8>, b: Seq<u8>) -> bool
    decreases a.len(),
{
    if a.len() == 0 {
        true
    } else if b.len() == 0 {
        false
    } else if a[0] < b[0] {
        true
    } else if a[0] > b[0] {
        false
    } else {
        lex_le(a.drop_first(), b.drop_first())
    }
}

/// Lexicographic order is total.
pub proof fn lemma_lex_total(a: Seq<u8>, b: Seq<u8>)
    ensures
        lex_le(a, b) || lex_le(b, a),
    decreases a.len(),
{
    if a.len() > 0 && b.len() > 0 && a[0] == b[0] {
        lemma_lex_total(a.drop_first(), b.drop_first());
    }
}

/// Lexicographic order is transitive.
pub proof fn lemma_lex_trans(a: Seq<u8>, b: Seq<u8>, c: Seq<u8>)
    requires
        lex_le(a, b),
        lex_le(b, c),
    ensures
        lex_le(a, c),
    decreases a.len(),
{
    if a.len() > 0 && b.len() > 0 && c.len() > 0 && a[0] == b[0] && b[0] == c[0] {
        lemma_lex_trans(a.drop_first(), b.drop_first(), c.drop_first());
    }
}

/// Lexicographic order is antisymmetric.
pub proof fn lemma_lex_antisym(a: Seq<u8>, b: Seq<u8>)
    requires
        lex_le(a, b),
        lex_le(b, a),
    ensures
        a == b,
    decreases a.len(),
{
    if a.len() == 0 {
        assert(b.len() == 0);
        assert(a =~= b);
    } else {
        assert(a[0] == b[0]);
        lemma_lex_antisym(a.drop_first(), b.drop_first());
        assert(a =~= seq![a[0]] + a.drop_first());
        assert(b =~= seq![b[0]] + b.drop_first());
    }
}

/// Compares two byte strings lexicographically.
pub fn bytes_le(a: &Vec<u8>, b: &Vec<u8>) -> (r: bool)
    ensures
        r == lex_le(a@, b@),
{
    let mut i: usize = 0;
    proof {
        assert(a@.skip(0) =~= a@);
        assert(b@.skip(0) =~= b@);
    }
    loop
        invariant_except_break
            i <= a.len(),
            i <= b.len(),
            forall|k: int| 0 <= k < i ==> a@[k] == b@[k],
            lex_le(a@, b@) == lex_le(a@.skip(i as int), b@.skip(i as int)),
        ensures
            lex_le(a@, b@) == lex_le(a@.skip(i as int), b@.skip(i as int)),
            ({
                let x = a@.skip(i as int);
                let y = b@.skip(i as int);
                ||| x.len() == 0
                ||| y.len() == 0
                ||| x[0] != y[0]
            }),
            i <= a.len(),
            i <= b.len(),
        decreases a.len() - i,
    {
        if i >= a.len() || i >= b.len() || a[i] != b[i] {
            break;
        }
        proof {
            let x = a@.skip(i as int);
            let y = b@.skip(i as int);
            assert(x[0] == y[0]);
            assert(x.drop_first() =~= a@.skip(i + 1));
            assert(y.drop_first() =~= b@.skip(i + 1));
        }
        i += 1;
    }
    if i >= a.len() {
        assert(a@.skip(i as int).len() == 0);
        true
    } else if i >= b.len() {
        assert(b@.skip(i as int).len() == 0);
        assert(a@.skip(i as int).len() > 0);
        false
    } else {
        assert(a@.skip(i as int)[0] == a@[i as int]);
        assert(b@.skip(i as int)[0] == b@[i as int]);
        a[i] < b[i]
    }
}

} // verus!
