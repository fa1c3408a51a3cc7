//! Lowercasing: a character's lowercase mapping is taken from the standard
//! library; lowering whole text, character by character in order, is
//! specified and verified here.

use vstd::prelude::*;

verus! {

/// The lowercase mapping of a single character, as `char::to_lowercase`
/// yields it: one or more characters, a function of `c` alone.
pub uninterp spec fn lower_char(c: char) -> Seq<char>;

/// The lowercase form of whole text: each character replaced by its
/// lowercase mapping, in order.
pub open spec fn lower_of(s: Seq<char>) -> Seq<char>
    decreases s.len(),
{
    if s.len() == 0 {
        Seq::empty()
    } else {
        lower_char(s[0]) + lower_of(s.drop_first())
    }
}

/// Relies on `char::to_lowercase`: the lowercase mapping of a character
/// depends on that character alone, independent of locale and surroundings.
#[verifier::external_body]
fn char_to_lower(c: char) -> (r: Vec<char>)
    ensures
        r@ == lower_char(c),
{
    c.to_lowercase().collect()
}

/// Lowering distributes over concatenation.
pub proof fn lemma_lower_of_concat(a: Seq<char>, b: Seq<char>)
    ensures
        lower_of(a + b) == lower_of(a) + lower_of(b),
    decreases a.len(),
{
    if a.len() == 0 {
        assert(a + b =~= b);
        assert(lower_of(a) =~= Seq::<char>::empty());
        assert(lower_of(a) + lower_of(b) =~= lower_of(b));
    } else {
        assert((a + b)[0] == a[0]);
        assert((a + b).drop_first() =~= a.drop_first() + b);
        lemma_lower_of_concat(a.drop_first(), b);
        assert(lower_char(a[0]) + (lower_of(a.drop_first()) + lower_of(b)) =~= (lower_char(a[0])
            + lower_of(a.drop_first())) + lower_of(b));
    }
}

/// The lowercase form of `s`, character by character.
pub fn to_lower_chars(s: &Vec<char>) -> (r: Vec<char>)
    ensures
        r@ == lower_of(s@),
{
    let n = s.len();
    let mut r: Vec<char> = Vec::new();
    let mut i: usize = 0;
    proof {
        assert(s@.take(0) =~= Seq::<char>::empty());
    }
    while i < n
        invariant
            n == s@.len(),
            i <= n,
            r@ == lower_of(s@.take(i as int)),
        decreases n - i,
    {
        let mut piece = char_to_lower(s[i]);
        proof {
            let c = s@[i as int];
            lemma_lower_of_concat(s@.take(i as int), seq![c]);
            assert(s@.take(i + 1) =~= s@.take(i as int) + seq![c]);
            assert(seq![c].drop_first() =~= Seq::<char>::empty());
            assert(lower_of(Seq::<char>::empty()) =~= Seq::<char>::empty());
            assert(seq![c][0] == c);
            assert(lower_of(seq![c]) =~= lower_char(c));
        }
        r.append(&mut piece);
        i = i + 1;
    }
    proof {
        assert(s@.take(n as int) =~= s@);
    }
    r
}

} // verus!
