//! Partitioning text into lines: the specification of the line structure of
//! a character sequence, and a verified splitter that returns each line as a
//! borrowed slice of the original text.

use vstd::prelude::*;
use vstd::string::StrSliceExecFns;

verus! {

/// The lines of `t`, delimited by line feeds. Empty text has no lines, and
/// a final line feed closes the last line rather than opening an empty one;
/// text after the last line feed still forms a line.
pub open spec fn lines_of(t: Seq<char>) -> Seq<Seq<char>>
    decreases t.len(),
{
    if t.len() == 0 {
        Seq::empty()
    } else if t[0] == '\n' {
        seq![Seq::<char>::empty()] + lines_of(t.drop_first())
    } else {
        let rest = lines_of(t.drop_first());
        if rest.len() == 0 {
            seq![seq![t[0]]]
        } else {
            seq![seq![t[0]] + rest[0]] + rest.drop_first()
        }
    }
}

/// Peeling the first line off the front: when the first line feed of `t`
/// stands at index `k` (or `t` holds none and `k` is `t.len()`), the lines
/// of `t` are the prefix before `k` followed by the lines of what comes
/// after the feed.
pub proof fn lemma_lines_of_peel(t: Seq<char>, k: int)
    requires
        0 <= k <= t.len(),
        forall|j: int| 0 <= j < k ==> t[j] != '\n',
        k < t.len() ==> t[k] == '\n',
    ensures
        t.len() > 0 && k == t.len() ==> lines_of(t) == seq![t],
        k < t.len() ==> lines_of(t) == seq![t.take(k)] + lines_of(t.skip(k + 1)),
    decreases t.len(),
{
    if t.len() == 0 {
    } else if t[0] == '\n' {
        assert(k == 0) by {
            if k > 0 {
                assert(t[0] != '\n');
            }
        }
        assert(t.take(0) =~= Seq::<char>::empty());
        assert(t.skip(1) =~= t.drop_first());
    } else {
        assert(k >= 1) by {
            if k == 0 {
                assert(t[k] == '\n');
            }
        }
        let d = t.drop_first();
        assert(forall|j: int| 0 <= j < k - 1 ==> d[j] != '\n');
        lemma_lines_of_peel(d, k - 1);
        if k == t.len() {
            if d.len() == 0 {
                assert(lines_of(d) =~= Seq::<Seq<char>>::empty());
                assert(t =~= seq![t[0]]);
                assert(lines_of(t) =~= seq![t]);
            } else {
                assert(lines_of(d) == seq![d]);
                assert(seq![t[0]] + d =~= t);
                assert(seq![d].drop_first() =~= Seq::<Seq<char>>::empty());
                assert(lines_of(t) =~= seq![t]);
            }
        } else {
            let rest = lines_of(d);
            assert(rest == seq![d.take(k - 1)] + lines_of(d.skip(k)));
            assert(rest.len() >= 1);
            assert(rest[0] == d.take(k - 1));
            assert(seq![t[0]] + d.take(k - 1) =~= t.take(k));
            assert(rest.drop_first() =~= lines_of(d.skip(k)));
            assert(d.skip(k) =~= t.skip(k + 1));
            assert(lines_of(t) =~= seq![t.take(k)] + lines_of(t.skip(k + 1)));
        }
    }
}

/// Splits text into its lines, each returned as a borrowed slice of the
/// text itself.
pub fn split_lines<'a>(contents: &'a str) -> (r: Vec<&'a str>)
    ensures
        r.deep_view() == lines_of(contents@),
{
    let n = contents.unicode_len();
    let mut r: Vec<&'a str> = Vec::new();
    if n == 0 {
        proof {
            assert(r.deep_view() =~= lines_of(contents@));
        }
        return r;
    }
    let mut start: usize = 0;
    let mut pos: usize = 0;
    proof {
        assert(contents@.skip(0) =~= contents@);
        assert(r.deep_view() + lines_of(contents@) =~= lines_of(contents@));
    }
    while pos < n
        invariant
            n == contents@.len(),
            0 < n,
            start <= pos <= n,
            forall|j: int| start <= j < pos ==> contents@[j] != '\n',
            lines_of(contents@) == r.deep_view() + lines_of(contents@.skip(start as int)),
        decreases n - pos,
    {
        if contents.get_char(pos) == '\n' {
            let line = contents.substring_char(start, pos);
            let ghost r0 = r.deep_view();
            proof {
                let s = contents@.skip(start as int);
                assert(forall|j: int| 0 <= j < pos - start ==> s[j] != '\n');
                lemma_lines_of_peel(s, pos - start);
                assert(s.take(pos - start) =~= contents@.subrange(start as int, pos as int));
                assert(s.skip(pos - start + 1) =~= contents@.skip(pos + 1));
            }
            r.push(line);
            proof {
                assert(r.deep_view() =~= r0.push(line@));
                assert(r0 + (seq![line@] + lines_of(contents@.skip(pos + 1))) =~= r0.push(
                    line@,
                ) + lines_of(contents@.skip(pos + 1)));
            }
            start = pos + 1;
        }
        pos = pos + 1;
    }
    if start < n {
        let line = contents.substring_char(start, n);
        let ghost r0 = r.deep_view();
        proof {
            let s = contents@.skip(start as int);
            assert(forall|j: int| 0 <= j < s.len() ==> s[j] != '\n');
            lemma_lines_of_peel(s, s.len() as int);
            assert(s =~= contents@.subrange(start as int, n as int));
        }
        r.push(line);
        proof {
            assert(r.deep_view() =~= r0.push(line@));
            assert(r0 + seq![line@] =~= r0.push(line@));
        }
    } else {
        proof {
            assert(contents@.skip(start as int) =~= Seq::<char>::empty());
            assert(r.deep_view() + lines_of(Seq::<char>::empty()) =~= r.deep_view());
        }
    }
    r
}

} // verus!
