//! Character-exact text predicates and their executable counterparts:
//! full-string equality and contiguous-substring containment, both
//! case-sensitive.

use vstd::prelude::*;
use vstd::string::StrSliceExecFns;

verus! {

/// `frag` occurs somewhere in `s` as a contiguous run of characters.
/// The empty fragment occurs in every sequence.
pub open spec fn contains_fragment(s: Seq<char>, frag: Seq<char>) -> bool {
    exists|k: int| 0 <= k && k + frag.len() <= s.len() && #[trigger] s.subrange(k, k + frag.len()) == frag
}

/// The empty fragment is contained in every sequence of characters.
pub proof fn lemma_empty_fragment(s: Seq<char>)
    ensures
        contains_fragment(s, Seq::<char>::empty()),
{
    let frag = Seq::<char>::empty();
    let k: int = 0;
    assert(s.subrange(k, k + frag.len()) =~= frag);
}

/// `frag` matches the characters of `s` starting at position `k`.
fn fragment_at(s: &str, frag: &str, k: usize) -> (r: bool)
    requires
        k + frag@.len() <= s@.len(),
    ensures
        r == (s@.subrange(k as int, k + frag@.len()) == frag@),
{
    let m = frag.unicode_len();
    let n = s.unicode_len();
    let mut j: usize = 0;
    while j < m
        invariant
            j <= m,
            m == frag@.len(),
            n == s@.len(),
            k + m <= n,
            forall|t: int| 0 <= t < j ==> s@[k + t] == frag@[t],
        decreases m - j,
    {
        if s.get_char(k + j) != frag.get_char(j) {
            assert(s@.subrange(k as int, k + frag@.len())[j as int] == s@[k + j]);
            return false;
        }
        j += 1;
    }
    assert(s@.subrange(k as int, k + frag@.len()) =~= frag@);
    true
}

/// Whether the characters of `a` and `b` are equal, position by position.
pub fn str_eq(a: &str, b: &str) -> (r: bool)
    ensures
        r == (a@ == b@),
{
    let an = a.unicode_len();
    let bn = b.unicode_len();
    if an != bn {
        return false;
    }
    let r = fragment_at(a, b, 0);
    proof {
        assert(a@.subrange(0, a@.len() as int) =~= a@);
    }
    r
}

/// Whether `frag` occurs in `s` as a contiguous, case-sensitive substring.
pub fn str_contains(s: &str, frag: &str) -> (r: bool)
    ensures
        r == contains_fragment(s@, frag@),
{
    let n = s.unicode_len();
    let m = frag.unicode_len();
    if m > n {
        return false;
    }
    if m == 0 {
        proof {
            assert(frag@ =~= Seq::<char>::empty());
            lemma_empty_fragment(s@);
        }
        return true;
    }
    let mut k: usize = 0;
    while k <= n - m
        invariant
            1 <= m <= n,
            n == s@.len(),
            m == frag@.len(),
            k <= n - m + 1,
            forall|t: int| 0 <= t < k ==> #[trigger] s@.subrange(t, t + frag@.len()) != frag@,
        decreases n - m - k + 1,
    {
        if fragment_at(s, frag, k) {
            return true;
        }
        k += 1;
    }
    false
}

} // verus!
