//! Lexicographic order on strings, by code point.

use vstd::prelude::*;
use vstd::std_specs::iter::IteratorSpec;

verus! {

/// The outcome of comparing two strings.
#[derive(Clone, Copy, Debug, PartialEq, Eq, Structural)]
pub enum Rank {
    Before,
    Same,
    After,
}

/// Position of `a` relative to `b` in lexicographic order: the first position at
/// which they differ decides, and a proper prefix comes before the longer string.
pub open spec fn rank(a: Seq<char>, b: Seq<char>) -> Rank
    decreases a.len(),
{
    if a.len() == 0 {
        if b.len() == 0 {
            Rank::Same
        } else {
            Rank::Before
        }
    } else if b.len() == 0 {
        Rank::After
    } else if a[0] == b[0] {
        rank(a.drop_first(), b.drop_first())
    } else if (a[0] as u32) < (b[0] as u32) {
        Rank::Before
    } else {
        Rank::After
    }
}

/// Compares two strings in lexicographic order.
pub fn compare(a: &str, b: &str) -> (r: Rank)
    ensures
        r == rank(a@, b@),
{
    let mut left = a.chars();
    let mut right = b.chars();
    let ghost mut n: int = 0;
    proof {
        assert(a@.skip(0) == a@);
        assert(b@.skip(0) == b@);
    }
    loop
        invariant
            0 <= n <= a@.len(),
            n <= b@.len(),
            left.remaining() == a@.skip(n),
            right.remaining() == b@.skip(n),
            rank(a@, b@) == rank(a@.skip(n), b@.skip(n)),
        decreases a@.len() - n,
    {
        let x = left.next();
        let y = right.next();
        proof {
            if n < a@.len() && n < b@.len() {
                assert(a@.skip(n).drop_first() == a@.skip(n + 1));
                assert(b@.skip(n).drop_first() == b@.skip(n + 1));
            }
        }
        match (x, y) {
            (None, None) => {
                return Rank::Same;
            },
            (None, Some(_)) => {
                return Rank::Before;
            },
            (Some(_), None) => {
                return Rank::After;
            },
            (Some(c), Some(d)) => {
                if c != d {
                    if (c as u32) < (d as u32) {
                        return Rank::Before;
                    } else {
                        return Rank::After;
                    }
                }
                proof {
                    n = n + 1;
                }
            },
        }
    }
}

/// Two strings rank the same exactly when they are equal.
pub proof fn lemma_rank_same(a: Seq<char>, b: Seq<char>)
    ensures
        rank(a, b) is Same <==> a == b,
    decreases a.len(),
{
    if a.len() > 0 && b.len() > 0 {
        lemma_rank_same(a.drop_first(), b.drop_first());
        if a[0] == b[0] && a.drop_first() == b.drop_first() {
            assert(a =~= seq![a[0]] + a.drop_first());
            assert(b =~= seq![b[0]] + b.drop_first());
        }
    } else if a.len() == 0 && b.len() == 0 {
        assert(a =~= b);
    }
}

/// Swapping the arguments swaps `Before` and `After`.
pub proof fn lemma_rank_flip(a: Seq<char>, b: Seq<char>)
    ensures
        rank(a, b) is Before <==> rank(b, a) is After,
        rank(a, b) is Same <==> rank(b, a) is Same,
    decreases a.len(),
{
    if a.len() > 0 && b.len() > 0 {
        lemma_rank_flip(a.drop_first(), b.drop_first());
        vstd::utf8::char_u32_cast(a[0], a[0] as u32);
        vstd::utf8::char_u32_cast(b[0], b[0] as u32);
    }
}

/// The order is transitive.
pub proof fn lemma_rank_transitive(a: Seq<char>, b: Seq<char>, c: Seq<char>)
    requires
        rank(a, b) is Before,
        rank(b, c) is Before,
    ensures
        rank(a, c) is Before,
    decreases a.len(),
{
    if a.len() > 0 && b.len() > 0 && c.len() > 0 {
        if a[0] == b[0] && b[0] == c[0] {
            lemma_rank_transitive(a.drop_first(), b.drop_first(), c.drop_first());
        }
    }
}

} // verus!
