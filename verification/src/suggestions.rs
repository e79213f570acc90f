//! The suggestion engine: fuzzy-matches every registry name against the
//! query (with its whitespace removed), ranks matches by score descending
//! with lexicographic ties, and truncates the ranked list to the layout
//! width budget.

use vstd::prelude::*;

use fuzzy_matcher::FuzzyMatcher;

use crate::applications::Registry;
use crate::text::{
    bytes_le, clone_bytes, is_ws, lemma_lex_antisym, lemma_lex_total, lemma_lex_trans, lex_le,
    seq_views,
};

verus! {

/// The score that the skim fuzzy matcher, with default options, assigns
/// to a candidate byte string against a pattern; `None` when the pattern
/// is no fuzzy subsequence of the candidate.
pub uninterp spec fn fuzzy_score(name: Seq<u8>, query: Seq<u8>) -> Option<i64>;

/// Relies on fuzzy_matcher's `SkimMatcherV2::fuzzy_match` with default
/// options: a deterministic dynamic program over the two strings alone.
/// Its source returns score 0 for an empty pattern before any matching.
#[verifier::external_body]
fn fuzzy_match_score(name: &Vec<u8>, query: &Vec<u8>) -> (r: Option<i64>)
    ensures
        r == fuzzy_score(name@, query@),
        query@.len() == 0 ==> r == Some(0i64),
{
    let matcher = fuzzy_matcher::skim::SkimMatcherV2::default();
    let name_str = String::from_utf8_lossy(name);
    let query_str = String::from_utf8_lossy(query);
    matcher.fuzzy_match(&name_str, &query_str)
}

/// The query with every ASCII whitespace byte removed.
pub open spec fn remove_ws_spec(q: Seq<u8>) -> Seq<u8>
    decreases q.len(),
{
    if q.len() == 0 {
        Seq::empty()
    } else if is_ws(q[0]) {
        remove_ws_spec(q.drop_first())
    } else {
        seq![q[0]] + remove_ws_spec(q.drop_first())
    }
}

/// Removes every ASCII whitespace byte from the query.
pub fn remove_whitespace(q: &Vec<u8>) -> (r: Vec<u8>)
    ensures
        r@ == remove_ws_spec(q@),
{
    let mut r: Vec<u8> = Vec::new();
    let mut i: usize = 0;
    proof {
        assert(q@.skip(0) =~= q@);
        assert(r@ + remove_ws_spec(q@) =~= remove_ws_spec(q@));
    }
    while i < q.len()
        invariant
            i <= q.len(),
            remove_ws_spec(q@) == r@ + remove_ws_spec(q@.skip(i as int)),
        decreases q.len() - i,
    {
        let ghost suffix = q@.skip(i as int);
        proof {
            assert(suffix[0] == q@[i as int]);
            assert(suffix.drop_first() =~= q@.skip(i + 1));
        }
        let b = q[i];
        if b == 9 || b == 10 || b == 11 || b == 12 || b == 13 || b == 32 {
        } else {
            let ghost prev = r@;
            r.push(b);
            proof {
                assert(r@ + remove_ws_spec(q@.skip(i + 1)) =~= prev + remove_ws_spec(suffix));
            }
        }
        i += 1;
    }
    proof {
        assert(q@.skip(q@.len() as int) =~= Seq::<u8>::empty());
        assert(r@ + Seq::<u8>::empty() =~= r@);
    }
    r
}

/// The views of a suggestion list: each entry a score and a name.
pub open spec fn sug_views(v: Seq<(i64, Vec<u8>)>) -> Seq<(i64, Seq<u8>)> {
    v.map_values(|s: (i64, Vec<u8>)| (s.0, s.1@))
}

/// The matching entries among `names`, in registry order, each paired
/// with its fuzzy score against the cleaned query; names the matcher
/// refuses are absent.
pub open spec fn matched_list(names: Seq<Seq<u8>>, clean: Seq<u8>) -> Seq<(i64, Seq<u8>)>
    decreases names.len(),
{
    if names.len() == 0 {
        Seq::empty()
    } else {
        let rest = matched_list(names.drop_first(), clean);
        match fuzzy_score(names[0], clean) {
            Some(score) => seq![(score, names[0])] + rest,
            None => rest,
        }
    }
}

/// Scores every registry name against the query (whitespace removed)
/// and keeps the matches, in registry order.
pub fn compute_matches(reg: &Registry, query: &Vec<u8>) -> (v: Vec<(i64, Vec<u8>)>)
    ensures
        sug_views(v@) == matched_list(reg.names(), remove_ws_spec(query@)),
{
    let clean = remove_whitespace(query);
    let ghost names = reg.names();
    let mut v: Vec<(i64, Vec<u8>)> = Vec::new();
    let mut i: usize = 0;
    proof {
        assert(names.skip(0) =~= names);
        assert(sug_views(v@) + matched_list(names, clean@) =~= matched_list(names, clean@));
    }
    while i < reg.len()
        invariant
            i <= names.len(),
            names == reg.names(),
            clean@ == remove_ws_spec(query@),
            matched_list(names, clean@) == sug_views(v@) + matched_list(
                names.skip(i as int),
                clean@,
            ),
        decreases names.len() - i,
    {
        let ghost suffix = names.skip(i as int);
        proof {
            assert(suffix[0] == names[i as int]);
            assert(suffix.drop_first() =~= names.skip(i + 1));
        }
        let name = reg.name_at(i);
        match fuzzy_match_score(name, &clean) {
            Some(score) => {
                let ghost prev = sug_views(v@);
                v.push((score, clone_bytes(name)));
                proof {
                    assert(sug_views(v@) =~= prev.push((score, names[i as int])));
                    assert(sug_views(v@) + matched_list(names.skip(i + 1), clean@) =~= prev + (seq![
                        (score, names[i as int]),
                    ] + matched_list(names.skip(i + 1), clean@)));
                }
            },
            None => {},
        }
        i += 1;
    }
    proof {
        assert(names.skip(names.len() as int) =~= Seq::<(i64, Seq<u8>)>::empty().map_values(
            |s: (i64, Seq<u8>)| s.1,
        ).map_values(|s: Seq<u8>| s));
        assert(names.skip(names.len() as int).len() == 0);
        assert(sug_views(v@) + Seq::<(i64, Seq<u8>)>::empty() =~= sug_views(v@));
    }
    v
}

/// The ranking order: higher scores first, ties by display name
/// ascending; equal entries compare both ways.
pub open spec fn sug_le(a: (i64, Seq<u8>), b: (i64, Seq<u8>)) -> bool {
    a.0 > b.0 || (a.0 == b.0 && lex_le(a.1, b.1))
}

/// A suggestion list in ranking order.
pub open spec fn sorted_sugs(s: Seq<(i64, Seq<u8>)>) -> bool {
    forall|i: int, j: int| 0 <= i < j < s.len() ==> sug_le(s[i], s[j])
}

/// The ranking order is total.
pub proof fn lemma_sug_total(a: (i64, Seq<u8>), b: (i64, Seq<u8>))
    ensures
        sug_le(a, b) || sug_le(b, a),
{
    if a.0 == b.0 {
        lemma_lex_total(a.1, b.1);
    }
}

/// The ranking order is transitive.
pub proof fn lemma_sug_trans(a: (i64, Seq<u8>), b: (i64, Seq<u8>), c: (i64, Seq<u8>))
    requires
        sug_le(a, b),
        sug_le(b, c),
    ensures
        sug_le(a, c),
{
    if a.0 == b.0 && b.0 == c.0 {
        lemma_lex_trans(a.1, b.1, c.1);
    }
}

/// The ranking order is antisymmetric: entries ordered both ways are
/// equal.
pub proof fn lemma_sug_antisym(a: (i64, Seq<u8>), b: (i64, Seq<u8>))
    requires
        sug_le(a, b),
        sug_le(b, a),
    ensures
        a == b,
{
    assert(a.0 == b.0);
    lemma_lex_antisym(a.1, b.1);
}

/// The ranking admits exactly one sorted arrangement of a given set of
/// matches: two suggestion lists in ranking order that hold the same
/// entries are equal, so a ranked list is pinned down by its entries.
pub proof fn lemma_ranking_deterministic(a: Seq<(i64, Seq<u8>)>, b: Seq<(i64, Seq<u8>)>)
    requires
        sorted_sugs(a),
        sorted_sugs(b),
        a.to_multiset() == b.to_multiset(),
    ensures
        a == b,
    decreases a.len(),
{
    a.to_multiset_ensures();
    b.to_multiset_ensures();
    assert(a.len() == b.len());
    if a.len() == 0 {
        assert(a =~= b);
    } else {
        assert(a.contains(a[0]));
        assert(a.to_multiset().count(a[0]) > 0);
        assert(b.contains(a[0]));
        let j = choose|j: int| 0 <= j < b.len() && b[j] == a[0];
        assert(b.contains(b[0]));
        assert(b.to_multiset().count(b[0]) > 0);
        assert(a.contains(b[0]));
        let k = choose|k: int| 0 <= k < a.len() && a[k] == b[0];
        if j > 0 && k > 0 {
            assert(sug_le(b[0], b[j]));
            assert(sug_le(a[0], a[k]));
            lemma_sug_antisym(a[0], b[0]);
        }
        assert(a[0] == b[0]);

        let a1 = a.drop_first();
        let b1 = b.drop_first();
        assert(a.remove(0) =~= a1);
        assert(b.remove(0) =~= b1);
        assert(a.remove(0).to_multiset() =~= a.to_multiset().remove(a[0]));
        assert(b.remove(0).to_multiset() =~= b.to_multiset().remove(b[0]));
        assert forall|x: int, y: int| 0 <= x < y < a1.len() implies sug_le(a1[x], a1[y]) by {
            assert(a1[x] == a[x + 1]);
            assert(a1[y] == a[y + 1]);
        }
        assert forall|x: int, y: int| 0 <= x < y < b1.len() implies sug_le(b1[x], b1[y]) by {
            assert(b1[x] == b[x + 1]);
            assert(b1[y] == b[y + 1]);
        }
        lemma_ranking_deterministic(a1, b1);
        assert(a =~= seq![a[0]] + a1);
        assert(b =~= seq![b[0]] + b1);
    }
}

fn sug_le_exec(a: &(i64, Vec<u8>), b: &(i64, Vec<u8>)) -> (r: bool)
    ensures
        r == sug_le((a.0, a.1@), (b.0, b.1@)),
{
    if a.0 > b.0 {
        true
    } else if a.0 < b.0 {
        false
    } else {
        bytes_le(&a.1, &b.1)
    }
}

/// Sorts a suggestion list into ranking order; the result holds exactly
/// the entries of the input.
pub fn sort_suggestions(input: Vec<(i64, Vec<u8>)>) -> (out: Vec<(i64, Vec<u8>)>)
    ensures
        sorted_sugs(sug_views(out@)),
        sug_views(out@).to_multiset() == sug_views(input@).to_multiset(),
{
    broadcast use vstd::seq_lib::group_to_multiset_ensures;

    let mut v = input;
    let mut out: Vec<(i64, Vec<u8>)> = Vec::new();
    proof {
        sug_views(out@).to_multiset_ensures();
        assert(sug_views(out@).to_multiset().add(sug_views(v@).to_multiset()) =~= sug_views(
            v@,
        ).to_multiset());
    }
    while v.len() > 0
        invariant
            sorted_sugs(sug_views(out@)),
            sug_views(out@).to_multiset().add(sug_views(v@).to_multiset()) == sug_views(
                input@,
            ).to_multiset(),
            forall|a: int, j: int|
                0 <= a < out@.len() && 0 <= j < v@.len() ==> sug_le(
                    sug_views(out@)[a],
                    sug_views(v@)[j],
                ),
        decreases v.len(),
    {
        let mut m: usize = 0;
        let mut j: usize = 1;
        proof {
            lemma_sug_total(sug_views(v@)[0], sug_views(v@)[0]);
        }
        while j < v.len()
            invariant
                m < j <= v@.len(),
                forall|k: int| 0 <= k < j ==> sug_le(sug_views(v@)[m as int], sug_views(v@)[k]),
            decreases v.len() - j,
        {
            if sug_le_exec(&v[j], &v[m]) {
                proof {
                    assert forall|k: int| 0 <= k < j + 1 implies sug_le(
                        sug_views(v@)[j as int],
                        sug_views(v@)[k],
                    ) by {
                        if k == j {
                            lemma_sug_total(sug_views(v@)[j as int], sug_views(v@)[j as int]);
                        } else {
                            lemma_sug_trans(
                                sug_views(v@)[j as int],
                                sug_views(v@)[m as int],
                                sug_views(v@)[k],
                            );
                        }
                    }
                }
                m = j;
            } else {
                proof {
                    lemma_sug_total(sug_views(v@)[m as int], sug_views(v@)[j as int]);
                }
            }
            j += 1;
        }
        let ghost old_v = v@;
        let ghost old_out = out@;
        let item = v.remove(m);
        out.push(item);
        proof {
            let ghost x = (item.0, item.1@);
            assert(sug_views(old_v)[m as int] == x);
            assert(sug_views(v@) =~= sug_views(old_v).remove(m as int));
            assert(sug_views(out@) =~= sug_views(old_out).push(x));
            vstd::seq_lib::to_multiset_remove(sug_views(old_v), m as int);
            vstd::seq_lib::to_multiset_build(sug_views(old_out), x);
            sug_views(old_v).to_multiset_ensures();
            assert(sug_views(old_v).contains(x));
            assert(sug_views(old_v).to_multiset().count(x) > 0);
            assert(sug_views(out@).to_multiset().add(sug_views(v@).to_multiset()) =~= sug_views(
                old_out,
            ).to_multiset().add(sug_views(old_v).to_multiset()));
            assert forall|a: int, jj: int|
                0 <= a < out@.len() && 0 <= jj < v@.len() implies sug_le(
                sug_views(out@)[a],
                sug_views(v@)[jj],
            ) by {
                if a < out@.len() - 1 {
                    assert(sug_views(out@)[a] == sug_views(old_out)[a]);
                }
                if jj < m {
                    assert(sug_views(v@)[jj] == sug_views(old_v)[jj]);
                } else {
                    assert(sug_views(v@)[jj] == sug_views(old_v)[jj + 1]);
                }
            }
            assert forall|a: int, b: int|
                0 <= a < b < out@.len() implies sug_le(sug_views(out@)[a], sug_views(out@)[b]) by {
                if b < out@.len() - 1 {
                    assert(sug_views(out@)[a] == sug_views(old_out)[a]);
                    assert(sug_views(out@)[b] == sug_views(old_out)[b]);
                } else {
                    assert(sug_views(out@)[a] == sug_views(old_out)[a]);
                    assert(sug_views(old_v)[m as int] == x);
                }
            }
        }
    }
    proof {
        sug_views(v@).to_multiset_ensures();
        assert(sug_views(out@).to_multiset().add(sug_views(v@).to_multiset()) =~= sug_views(
            out@,
        ).to_multiset());
    }
    out
}

/// Every registry entry the matcher accepts, ranked: scores descending,
/// ties by name ascending.
pub fn ranked_matches(reg: &Registry, query: &Vec<u8>) -> (out: Vec<(i64, Vec<u8>)>)
    ensures
        sorted_sugs(sug_views(out@)),
        sug_views(out@).to_multiset() == matched_list(
            reg.names(),
            remove_ws_spec(query@),
        ).to_multiset(),
{
    let matches = compute_matches(reg, query);
    sort_suggestions(matches)
}

/// The layout budget: seventy percent of the available width, in integer
/// arithmetic.
pub open spec fn layout_budget(avail_width: u32) -> int {
    (avail_width * 7) / 10
}

/// How many leading suggestions fit: each one costs its rendered width
/// plus sixteen pixels of padding, and the running total may not pass
/// the budget.
pub open spec fn fit_len(widths: Seq<u32>, budget: int) -> nat
    decreases widths.len(),
{
    if widths.len() == 0 {
        0
    } else if widths[0] + 16 <= budget {
        1 + fit_len(widths.drop_first(), budget - widths[0] - 16)
    } else {
        0
    }
}

/// Keeps the longest prefix of the ranked list whose cumulative width,
/// padding included, stays within seventy percent of the available
/// width; the first overflowing entry and everything after it are
/// dropped.
pub fn truncate_suggestions(
    sugs: Vec<(i64, Vec<u8>)>,
    widths: &Vec<u32>,
    avail_width: u32,
) -> (out: Vec<(i64, Vec<u8>)>)
    requires
        widths@.len() == sugs@.len(),
    ensures
        out@ == sugs@.take(fit_len(widths@, layout_budget(avail_width)) as int),
{
    let ghost budget0 = layout_budget(avail_width);
    let mut rem: u64 = (avail_width as u64) * 7 / 10;
    let mut i: usize = 0;
    proof {
        assert(widths@.skip(0) =~= widths@);
    }
    while i < widths.len() && widths[i] as u64 + 16 <= rem
        invariant
            i <= widths@.len(),
            fit_len(widths@, budget0) == i + fit_len(widths@.skip(i as int), rem as int),
            rem <= budget0,
        decreases widths@.len() - i,
    {
        let ghost suffix = widths@.skip(i as int);
        proof {
            assert(suffix[0] == widths@[i as int]);
            assert(suffix.drop_first() =~= widths@.skip(i + 1));
        }
        rem = rem - (widths[i] as u64 + 16);
        i += 1;
    }
    proof {
        let suffix = widths@.skip(i as int);
        if i < widths@.len() {
            assert(suffix[0] == widths@[i as int]);
            assert(fit_len(suffix, rem as int) == 0);
        } else {
            assert(suffix.len() == 0);
        }
        assert(fit_len(widths@, budget0) == i);
    }
    let mut out = sugs;
    out.truncate(i);
    out
}

} // verus!
