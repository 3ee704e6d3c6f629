//! Matching a fixed piece of text at a position.

use vstd::prelude::*;
use vstd::string::StrSliceExecFns;

verus! {

/// True when the text `t` stands in `s` at position `i`.
pub open spec fn has_at(s: Seq<char>, i: int, t: Seq<char>) -> bool {
    0 <= i && i + t.len() <= s.len() && s.subrange(i, i + t.len() as int) == t
}

/// Whether the literal `lit` stands at position `i` of `s`, executably.
pub(crate) fn expect_lit(s: &str, i: usize, len: usize, lit: &str) -> (r: bool)
    requires
        len == s@.len(),
        i <= len,
    ensures
        r == has_at(s@, i as int, lit@),
{
    let lit_len = lit.unicode_len();
    if lit_len > len - i {
        return false;
    }
    let mut j: usize = 0;
    while j < lit_len
        invariant
            j <= lit_len,
            i + lit_len <= len,
            len == s@.len(),
            lit_len == lit@.len(),
            forall|x: int| 0 <= x < j ==> s@[i + x] == lit@[x],
        decreases lit_len - j,
    {
        if s.get_char(i + j) != lit.get_char(j) {
            proof {
                assert(s@.subrange(i as int, i + lit@.len() as int)[j as int] == s@[i + j]);
            }
            return false;
        }
        j = j + 1;
    }
    proof {
        assert forall|x: int| 0 <= x < lit@.len() implies s@.subrange(
            i as int,
            i + lit@.len() as int,
        )[x] == lit@[x] by {
            assert(s@.subrange(i as int, i + lit@.len() as int)[x] == s@[i + x]);
        };
        assert(s@.subrange(i as int, i + lit@.len() as int) =~= lit@);
    }
    true
}

/// Whether two string slices hold the same characters.
pub(crate) fn str_eq(a: &str, b: &str) -> (r: bool)
    ensures
        r == (a@ == b@),
{
    let la = a.unicode_len();
    let lb = b.unicode_len();
    if la != lb {
        return false;
    }
    let mut i: usize = 0;
    while i < la
        invariant
            i <= la,
            la == a@.len(),
            la == b@.len(),
            forall|x: int| 0 <= x < i ==> a@[x] == b@[x],
        decreases la - i,
    {
        if a.get_char(i) != b.get_char(i) {
            return false;
        }
        i = i + 1;
    }
    proof {
        assert(a@ =~= b@);
    }
    true
}

} // verus!
