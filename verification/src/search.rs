//! The line filter: returns, in original order, every line of a text that
//! contains a query, either exactly or after lowercasing both sides, and the
//! laws that hold of it.

use crate::config::Config;
use crate::lines::lines_of;
use crate::lines::split_lines;
use crate::lower::lemma_lower_of_concat;
use crate::lower::lower_of;
use crate::lower::to_lower_chars;
use crate::substr::chars_of;
use crate::substr::contains_chars;
use crate::substr::has_substring;
use crate::substr::substring_at;
use vstd::prelude::*;

verus! {

/// A line matches `q` exactly when it holds `q` as a contiguous substring.
pub open spec fn line_matches(q: Seq<char>) -> spec_fn(Seq<char>) -> bool {
    |l: Seq<char>| has_substring(l, q)
}

/// A line matches `q` up to case when its lowercase form holds the
/// lowercase form of `q` as a contiguous substring.
pub open spec fn line_matches_ci(q: Seq<char>) -> spec_fn(Seq<char>) -> bool {
    |l: Seq<char>| has_substring(lower_of(l), lower_of(q))
}

/// What `search` returns: the lines of `t` that hold `q`, in their
/// original order.
pub open spec fn search_spec(q: Seq<char>, t: Seq<char>) -> Seq<Seq<char>> {
    lines_of(t).filter(line_matches(q))
}

/// What `search_case_insensitive` returns: the lines of `t` whose lowercase
/// form holds the lowercase form of `q`, in their original order.
pub open spec fn search_ci_spec(q: Seq<char>, t: Seq<char>) -> Seq<Seq<char>> {
    lines_of(t).filter(line_matches_ci(q))
}

/// Every line of `contents` that contains `query`, case-sensitively, in
/// the original order, as borrowed slices of `contents`.
pub fn search<'a>(query: &str, contents: &'a str) -> (r: Vec<&'a str>)
    ensures
        r.deep_view() == search_spec(query@, contents@),
{
    let q = chars_of(query);
    let lines = split_lines(contents);
    let mut r: Vec<&'a str> = Vec::new();
    let ghost ld = lines.deep_view();
    proof {
        reveal(Seq::filter);
        assert(ld.take(0) =~= Seq::<Seq<char>>::empty());
        assert(Seq::<Seq<char>>::empty().filter(line_matches(query@))
            =~= Seq::<Seq<char>>::empty());
        assert(r.deep_view() =~= Seq::<Seq<char>>::empty());
    }
    let n = lines.len();
    let mut i: usize = 0;
    while i < n
        invariant
            n == lines@.len(),
            i <= n,
            q@ == query@,
            ld == lines.deep_view(),
            ld == lines_of(contents@),
            r.deep_view() == ld.take(i as int).filter(line_matches(query@)),
        decreases n - i,
    {
        let line = lines[i];
        let lc = chars_of(line);
        let ghost r0 = r.deep_view();
        let hit = contains_chars(&lc, &q);
        if hit {
            r.push(line);
        }
        proof {
            let pred = line_matches(query@);
            assert(line@ == ld[i as int]);
            assert(pred(ld[i as int]) == hit);
            lemma_filter_one_more(ld, pred, i as int);
            if hit {
                assert(r.deep_view() =~= r0.push(ld[i as int]));
            }
        }
        i = i + 1;
    }
    proof {
        assert(ld.take(n as int) =~= ld);
    }
    r
}

/// Every line of `contents` whose lowercase form contains the lowercase
/// form of `query`, in the original order, as borrowed slices of
/// `contents`.
pub fn search_case_insensitive<'a>(query: &str, contents: &'a str) -> (r: Vec<&'a str>)
    ensures
        r.deep_view() == search_ci_spec(query@, contents@),
{
    let qc = chars_of(query);
    let q = to_lower_chars(&qc);
    let lines = split_lines(contents);
    let mut r: Vec<&'a str> = Vec::new();
    let ghost ld = lines.deep_view();
    proof {
        reveal(Seq::filter);
        assert(ld.take(0) =~= Seq::<Seq<char>>::empty());
        assert(Seq::<Seq<char>>::empty().filter(line_matches_ci(query@))
            =~= Seq::<Seq<char>>::empty());
        assert(r.deep_view() =~= Seq::<Seq<char>>::empty());
    }
    let n = lines.len();
    let mut i: usize = 0;
    while i < n
        invariant
            n == lines@.len(),
            i <= n,
            q@ == lower_of(query@),
            ld == lines.deep_view(),
            ld == lines_of(contents@),
            r.deep_view() == ld.take(i as int).filter(line_matches_ci(query@)),
        decreases n - i,
    {
        let line = lines[i];
        let lc = chars_of(line);
        let ll = to_lower_chars(&lc);
        let ghost r0 = r.deep_view();
        let hit = contains_chars(&ll, &q);
        if hit {
            r.push(line);
        }
        proof {
            let pred = line_matches_ci(query@);
            assert(line@ == ld[i as int]);
            assert(pred(ld[i as int]) == hit);
            lemma_filter_one_more(ld, pred, i as int);
            if hit {
                assert(r.deep_view() =~= r0.push(ld[i as int]));
            }
        }
        i = i + 1;
    }
    proof {
        assert(ld.take(n as int) =~= ld);
    }
    r
}

/// Selects the matching lines of `contents` the way `config` asks:
/// lowercased matching when its flag is set, exact matching otherwise.
pub fn matching_lines<'a>(config: &Config, contents: &'a str) -> (r: Vec<&'a str>)
    ensures
        config.case_insensitive ==> r.deep_view() == search_ci_spec(config.query@, contents@),
        !config.case_insensitive ==> r.deep_view() == search_spec(config.query@, contents@),
{
    if config.case_insensitive {
        search_case_insensitive(config.query.as_str(), contents)
    } else {
        search(config.query.as_str(), contents)
    }
}

/// Filtering one element more: extending the filtered prefix of `s` by the
/// element at `i` appends that element exactly when it satisfies `pred`.
proof fn lemma_filter_one_more<A>(s: Seq<A>, pred: spec_fn(A) -> bool, i: int)
    requires
        0 <= i < s.len(),
    ensures
        pred(s[i]) ==> s.take(i + 1).filter(pred) == s.take(i).filter(pred).push(s[i]),
        !pred(s[i]) ==> s.take(i + 1).filter(pred) == s.take(i).filter(pred),
{
    reveal(Seq::filter);
    assert(s.take(i + 1).drop_last() =~= s.take(i));
    assert(s.take(i + 1).last() == s[i]);
    assert(s.take(i + 1).len() == i + 1);
}

/// `sub` can be had from `full` by deleting elements without reordering.
pub open spec fn is_subsequence<A>(sub: Seq<A>, full: Seq<A>) -> bool
    decreases full.len(),
{
    if sub.len() == 0 {
        true
    } else if full.len() == 0 {
        false
    } else if sub.last() == full.last() {
        is_subsequence(sub.drop_last(), full.drop_last())
    } else {
        is_subsequence(sub, full.drop_last())
    }
}

/// What a filter keeps is a subsequence of what it was given.
proof fn lemma_filter_is_subsequence<A>(s: Seq<A>, pred: spec_fn(A) -> bool)
    ensures
        is_subsequence(s.filter(pred), s),
    decreases s.len(),
{
    broadcast use vstd::seq_lib::group_filter_ensures;

    reveal(Seq::filter);
    if s.len() == 0 {
    } else {
        let d = s.drop_last();
        lemma_filter_is_subsequence(d, pred);
        if pred(s.last()) {
            assert(s.filter(pred).drop_last() =~= d.filter(pred));
            assert(s.filter(pred).last() == s.last());
        } else {
            assert(s.filter(pred) == d.filter(pred));
            if s.filter(pred).len() > 0 {
                assert(pred(s.filter(pred).last()));
                assert(s.filter(pred).last() != s.last());
            }
        }
    }
}

/// Membership in a filtered sequence: exactly the members of the original
/// that satisfy the predicate.
proof fn lemma_filter_membership<A>(s: Seq<A>, pred: spec_fn(A) -> bool, x: A)
    ensures
        s.filter(pred).contains(x) <==> s.contains(x) && pred(x),
    decreases s.len(),
{
    broadcast use vstd::seq_lib::group_filter_ensures;

    reveal(Seq::filter);
    if s.len() == 0 {
    } else {
        let d = s.drop_last();
        lemma_filter_membership(d, pred, x);
        if d.contains(x) {
            let j = choose|j: int| 0 <= j < d.len() && d[j] == x;
            assert(s[j] == x);
        }
        if s.contains(x) && x != s.last() {
            let j = choose|j: int| 0 <= j < s.len() && s[j] == x;
            assert(d[j] == x);
        }
        if pred(s.last()) {
            assert(s.filter(pred) == d.filter(pred).push(s.last()));
            let f = d.filter(pred);
            assert forall|j: int| 0 <= j < f.len() implies f.push(s.last())[j] == f[j] by {}
            if f.contains(x) {
                let j = choose|j: int| 0 <= j < f.len() && f[j] == x;
                assert(f.push(s.last())[j] == x);
            }
            if f.push(s.last()).contains(x) && x != s.last() {
                let j = choose|j: int| 0 <= j < f.len() + 1 && f.push(s.last())[j] == x;
                assert(j < f.len());
                assert(f[j] == x);
            }
            assert(f.push(s.last())[f.len() as int] == s.last());
        } else {
            assert(s.filter(pred) == d.filter(pred));
        }
    }
}

/// Lowering both sides of a containment preserves it: when `t` holds `q`
/// as a substring, the lowercase form of `t` holds the lowercase form of
/// `q`.
pub proof fn lemma_lower_preserves_substring(t: Seq<char>, q: Seq<char>)
    requires
        has_substring(t, q),
    ensures
        has_substring(lower_of(t), lower_of(q)),
{
    let i = choose|i: int| substring_at(t, q, i);
    let pre = t.subrange(0, i);
    let mid = t.subrange(i, i + q.len() as int);
    let post = t.subrange(i + q.len() as int, t.len() as int);
    assert(t =~= (pre + mid) + post);
    assert(mid == q);
    lemma_lower_of_concat(pre + mid, post);
    lemma_lower_of_concat(pre, mid);
    let lp = lower_of(pre);
    let lq = lower_of(q);
    assert(lower_of(t) == (lp + lq) + lower_of(post));
    assert(((lp + lq) + lower_of(post)).subrange(lp.len() as int, lp.len() + lq.len() as int)
        =~= lq);
    assert(substring_at(lower_of(t), lq, lp.len() as int));
}

/// Every line that `search` returns holds the query as a substring, and
/// the returned lines are a subsequence of the text's lines, in their
/// original order.
pub proof fn lemma_search_sound(q: Seq<char>, t: Seq<char>)
    ensures
        forall|i: int|
            0 <= i < search_spec(q, t).len() ==> has_substring(
                #[trigger] search_spec(q, t)[i],
                q,
            ),
        is_subsequence(search_spec(q, t), lines_of(t)),
{
    broadcast use vstd::seq_lib::group_filter_ensures;

    assert forall|i: int| 0 <= i < search_spec(q, t).len() implies has_substring(
        search_spec(q, t)[i],
        q,
    ) by {
        assert(line_matches(q)(search_spec(q, t)[i]));
    }
    lemma_filter_is_subsequence(lines_of(t), line_matches(q));
}

/// Case-insensitive search returns every line that exact search returns.
pub proof fn lemma_case_insensitive_superset(q: Seq<char>, t: Seq<char>)
    ensures
        forall|l: Seq<char>|
            #[trigger] search_spec(q, t).contains(l) ==> search_ci_spec(q, t).contains(l),
{
    assert forall|l: Seq<char>| #[trigger] search_spec(q, t).contains(l) implies search_ci_spec(
        q,
        t,
    ).contains(l) by {
        lemma_filter_membership(lines_of(t), line_matches(q), l);
        assert(has_substring(l, q));
        lemma_lower_preserves_substring(l, q);
        lemma_filter_membership(lines_of(t), line_matches_ci(q), l);
    }
}

/// Filtering with a predicate that holds everywhere changes nothing.
proof fn lemma_filter_all_true<A>(s: Seq<A>, pred: spec_fn(A) -> bool)
    requires
        forall|i: int| 0 <= i < s.len() ==> pred(#[trigger] s[i]),
    ensures
        s.filter(pred) == s,
    decreases s.len(),
{
    reveal(Seq::filter);
    if s.len() == 0 {
        assert(s.filter(pred) =~= s);
    } else {
        let d = s.drop_last();
        assert forall|i: int| 0 <= i < d.len() implies pred(#[trigger] d[i]) by {
            assert(d[i] == s[i]);
        }
        lemma_filter_all_true(d, pred);
        assert(pred(s.last()));
        assert(s.filter(pred) =~= s);
    }
}

/// The empty query matches every line: searching for it returns all the
/// lines of the text, unchanged and in order.
pub proof fn lemma_search_empty_query(t: Seq<char>)
    ensures
        search_spec(Seq::empty(), t) == lines_of(t),
{
    assert forall|i: int| 0 <= i < lines_of(t).len() implies line_matches(Seq::empty())(
        #[trigger] lines_of(t)[i],
    ) by {
        let l = lines_of(t)[i];
        assert(l.subrange(0, 0) =~= Seq::<char>::empty());
        assert(substring_at(l, Seq::empty(), 0));
    }
    lemma_filter_all_true(lines_of(t), line_matches(Seq::empty()));
}

/// Empty text has no lines, so searching it returns nothing, whatever the
/// query.
pub proof fn lemma_search_empty_text(q: Seq<char>)
    ensures
        search_spec(q, Seq::empty()) == Seq::<Seq<char>>::empty(),
{
    reveal(Seq::filter);
    assert(lines_of(Seq::<char>::empty()) =~= Seq::<Seq<char>>::empty());
    assert(Seq::<Seq<char>>::empty().filter(line_matches(q)) =~= Seq::<Seq<char>>::empty());
}

} // verus!
