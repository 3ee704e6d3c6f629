//! Canonical decimal text for unsigned integers: rendering, parsing, and the
//! lemmas that make the two inverse to each other.

use vstd::prelude::*;
use vstd::string::StrSliceExecFns;

verus! {

/// True of the ten ASCII digit characters.
pub open spec fn is_digit_char(c: char) -> bool {
    c == '0' || c == '1' || c == '2' || c == '3' || c == '4' || c == '5' || c == '6' || c == '7'
        || c == '8' || c == '9'
}

/// The digit character for a value below ten.
pub open spec fn digit_char(n: nat) -> char {
    if n == 0 {
        '0'
    } else if n == 1 {
        '1'
    } else if n == 2 {
        '2'
    } else if n == 3 {
        '3'
    } else if n == 4 {
        '4'
    } else if n == 5 {
        '5'
    } else if n == 6 {
        '6'
    } else if n == 7 {
        '7'
    } else if n == 8 {
        '8'
    } else {
        '9'
    }
}

/// The numeric value of a digit character.
pub open spec fn digit_value(c: char) -> nat {
    if c == '0' {
        0
    } else if c == '1' {
        1
    } else if c == '2' {
        2
    } else if c == '3' {
        3
    } else if c == '4' {
        4
    } else if c == '5' {
        5
    } else if c == '6' {
        6
    } else if c == '7' {
        7
    } else if c == '8' {
        8
    } else {
        9
    }
}

/// The canonical decimal rendering of `n`: base ten, no sign, no leading zero.
pub open spec fn dec_digits(n: nat) -> Seq<char>
    decreases n,
{
    if n < 10 {
        seq![digit_char(n)]
    } else {
        dec_digits(n / 10) + seq![digit_char(n % 10)]
    }
}

/// The value of a digit string read in base ten.
pub open spec fn val_of_digits(s: Seq<char>) -> nat
    decreases s.len(),
{
    if s.len() == 0 {
        0
    } else {
        val_of_digits(s.drop_last()) * 10 + digit_value(s.last())
    }
}

/// The canonical rendering is non-empty, consists of digits, reads back to the
/// value it renders, and starts with `'0'` only for zero itself.
pub proof fn lemma_dec_digits(n: nat)
    ensures
        dec_digits(n).len() >= 1,
        forall|i: int|
            0 <= i < dec_digits(n).len() ==> is_digit_char(#[trigger] dec_digits(n)[i]),
        val_of_digits(dec_digits(n)) == n,
        (dec_digits(n)[0] == '0') <==> n == 0,
    decreases n,
{
    if n < 10 {
        let s = dec_digits(n);
        assert(s =~= seq![digit_char(n)]);
        assert(s.drop_last() =~= Seq::<char>::empty());
        assert(val_of_digits(Seq::<char>::empty()) == 0);
        assert(s.last() == digit_char(n));
        assert(val_of_digits(s) == digit_value(digit_char(n)));
    } else {
        lemma_dec_digits(n / 10);
        let a = dec_digits(n / 10);
        let s = dec_digits(n);
        assert(s == a + seq![digit_char(n % 10)]);
        assert(s.drop_last() =~= a);
        assert(s.last() == digit_char(n % 10));
        assert(val_of_digits(s) == val_of_digits(a) * 10 + digit_value(digit_char(n % 10)));
        assert((n / 10) * 10 + n % 10 == n) by {
            vstd::arithmetic::div_mod::lemma_fundamental_div_mod(n as int, 10);
        };
        assert(s[0] == a[0]);
    }
}

/// Reading one more digit multiplies the value by ten and adds the digit.
pub proof fn lemma_val_of_digits_push(s: Seq<char>, c: char)
    ensures
        val_of_digits(s.push(c)) == val_of_digits(s) * 10 + digit_value(c),
{
    assert(s.push(c).drop_last() =~= s);
    assert(s.push(c).last() == c);
}

/// A prefix of a digit string never reads to a larger value than the whole.
pub proof fn lemma_val_of_digits_prefix(s: Seq<char>, k: int)
    requires
        0 <= k <= s.len(),
    ensures
        val_of_digits(s.take(k)) <= val_of_digits(s),
    decreases s.len() - k,
{
    if k < s.len() {
        assert(s.take(k + 1) =~= s.take(k).push(s[k]));
        lemma_val_of_digits_push(s.take(k), s[k]);
        lemma_val_of_digits_prefix(s, k + 1);
    } else {
        assert(s.take(k) =~= s);
    }
}

/// The index just past the run of digit characters that starts at `i`.
pub open spec fn digit_run_end(s: Seq<char>, i: int) -> int
    decreases s.len() - i,
{
    if 0 <= i < s.len() && is_digit_char(s[i]) {
        digit_run_end(s, i + 1)
    } else {
        i
    }
}

/// Where the digit run ends: between `i` and the length, every character
/// before it is a digit, and the character at it (if any) is not.
pub proof fn lemma_digit_run_end_bounds(s: Seq<char>, i: int)
    requires
        0 <= i <= s.len(),
    ensures
        i <= digit_run_end(s, i) <= s.len(),
        forall|j: int| i <= j < digit_run_end(s, i) ==> is_digit_char(#[trigger] s[j]),
        digit_run_end(s, i) == s.len() || !is_digit_char(s[digit_run_end(s, i)]),
    decreases s.len() - i,
{
    if i < s.len() && is_digit_char(s[i]) {
        lemma_digit_run_end_bounds(s, i + 1);
    }
}

/// A stretch of digits followed by a non-digit (or the end) is exactly the
/// digit run.
pub proof fn lemma_digit_run_end_of(s: Seq<char>, i: int, e: int)
    requires
        0 <= i <= e <= s.len(),
        forall|j: int| i <= j < e ==> is_digit_char(#[trigger] s[j]),
        e == s.len() || !is_digit_char(s[e]),
    ensures
        digit_run_end(s, i) == e,
    decreases e - i,
{
    if i < e {
        lemma_digit_run_end_of(s, i + 1, e);
    }
}

/// The number that starts at position `i`, if a canonically written `u64`
/// stands there: its value and the position just past its digits.
///
/// There is no number when no digit stands at `i`, when a leading zero is
/// followed by more digits, or when the digits read to a value above
/// `u64::MAX`.
pub open spec fn parse_u64_at(s: Seq<char>, i: int) -> Option<(u64, int)> {
    let e = digit_run_end(s, i);
    if e == i {
        None
    } else if s[i] == '0' && e > i + 1 {
        None
    } else if val_of_digits(s.subrange(i, e)) > u64::MAX {
        None
    } else {
        Some((val_of_digits(s.subrange(i, e)) as u64, e))
    }
}

/// Parsing recovers a canonically rendered number: where `dec_digits(n)`
/// stands at `i` with no digit right after it, the number parsed at `i` is
/// `n`, ending just past the rendering.
pub proof fn lemma_parse_u64_complete(s: Seq<char>, i: int, n: u64)
    requires
        0 <= i,
        i + dec_digits(n as nat).len() <= s.len(),
        s.subrange(i, i + dec_digits(n as nat).len() as int) =~= dec_digits(n as nat),
        i + dec_digits(n as nat).len() == s.len() || !is_digit_char(
            s[i + dec_digits(n as nat).len()],
        ),
    ensures
        parse_u64_at(s, i) == Some((n, i + dec_digits(n as nat).len() as int)),
{
    lemma_dec_digits(n as nat);
    let d = dec_digits(n as nat);
    let e = i + d.len() as int;
    assert forall|j: int| i <= j < e implies is_digit_char(#[trigger] s[j]) by {
        assert(s[j] == s.subrange(i, e)[j - i]);
        assert(s.subrange(i, e)[j - i] == d[j - i]);
    };
    lemma_digit_run_end_of(s, i, e);
    assert(s[i] == d[0]);
    if n == 0 {
        assert(d.len() == 1);
    }
}

/// Executable counterpart of [`is_digit_char`].
pub(crate) fn is_digit_exec(c: char) -> (r: bool)
    ensures
        r == is_digit_char(c),
{
    c == '0' || c == '1' || c == '2' || c == '3' || c == '4' || c == '5' || c == '6' || c == '7'
        || c == '8' || c == '9'
}

/// The value of a digit character, executably.
fn digit_value_exec(c: char) -> (d: u64)
    requires
        is_digit_char(c),
    ensures
        d == digit_value(c),
        d < 10,
{
    if c == '0' {
        0
    } else if c == '1' {
        1
    } else if c == '2' {
        2
    } else if c == '3' {
        3
    } else if c == '4' {
        4
    } else if c == '5' {
        5
    } else if c == '6' {
        6
    } else if c == '7' {
        7
    } else if c == '8' {
        8
    } else {
        9
    }
}

/// The index just past the digit run starting at `i`, executably.
pub(crate) fn run_end(s: &str, i: usize, len: usize) -> (e: usize)
    requires
        len == s@.len(),
        i <= len,
    ensures
        e as int == digit_run_end(s@, i as int),
        i <= e <= len,
{
    let mut j = i;
    while j < len && is_digit_exec(s.get_char(j))
        invariant
            i <= j <= len,
            len == s@.len(),
            digit_run_end(s@, i as int) == digit_run_end(s@, j as int),
        decreases len - j,
    {
        assert(digit_run_end(s@, j as int) == digit_run_end(s@, j + 1));
        j = j + 1;
    }
    j
}

/// Parses the number standing at position `i`, returning exactly what
/// [`parse_u64_at`] describes.
pub(crate) fn parse_u64_exec(s: &str, i: usize, len: usize) -> (r: Option<(u64, usize)>)
    requires
        len == s@.len(),
        i <= len,
    ensures
        match r {
            Some(p) => parse_u64_at(s@, i as int) == Some((p.0, p.1 as int)) && i < p.1 <= len,
            None => parse_u64_at(s@, i as int) is None,
        },
{
    let e = run_end(s, i, len);
    proof {
        lemma_digit_run_end_bounds(s@, i as int);
    }
    if e == i {
        return None;
    }
    if s.get_char(i) == '0' && e > i + 1 {
        return None;
    }
    let full = Ghost(s@.subrange(i as int, e as int));
    let mut val: u64 = 0;
    let mut j = i;
    while j < e
        invariant
            i <= j <= e <= len,
            len == s@.len(),
            e as int == digit_run_end(s@, i as int),
            forall|k: int| i <= k < e ==> is_digit_char(#[trigger] s@[k]),
            full@ == s@.subrange(i as int, e as int),
            val == val_of_digits(s@.subrange(i as int, j as int)),
        decreases e - j,
    {
        let c = s.get_char(j);
        let d = digit_value_exec(c);
        proof {
            assert(s@.subrange(i as int, j + 1) =~= s@.subrange(i as int, j as int).push(s@[j as int]));
            lemma_val_of_digits_push(s@.subrange(i as int, j as int), s@[j as int]);
        }
        if val > (u64::MAX - d) / 10 {
            proof {
                assert(val * 10 + d > u64::MAX);
                assert(val_of_digits(s@.subrange(i as int, j + 1)) > u64::MAX);
                assert(full@.take(j + 1 - i) =~= s@.subrange(i as int, j + 1));
                lemma_val_of_digits_prefix(full@, j + 1 - i);
            }
            return None;
        }
        assert(val * 10 + d <= u64::MAX);
        val = val * 10 + d;
        j = j + 1;
    }
    assert(s@.subrange(i as int, e as int) =~= full@);
    Some((val, e))
}

/// The rendering of `n`, executably: a string whose characters are
/// [`dec_digits`]`(n)`.
pub(crate) fn u64_to_string(n: u64) -> (r: String)
    ensures
        r@ == dec_digits(n as nat),
{
    let mut rev: Vec<u64> = Vec::new();
    let mut m = n;
    while m >= 10
        invariant
            forall|k: int| 0 <= k < rev@.len() ==> #[trigger] rev@[k] < 10,
            dec_digits(n as nat) =~= dec_digits(m as nat) + rev_chars(rev@),
        decreases m,
    {
        let d = m % 10;
        proof {
            assert(dec_digits(m as nat) == dec_digits((m / 10) as nat) + seq![digit_char((m % 10) as nat)]);
            assert(rev@.push(d).drop_last() =~= rev@);
            assert(rev@.push(d).last() == d);
            assert(rev_chars(rev@.push(d)) =~= seq![digit_char(d as nat)] + rev_chars(rev@));
        }
        rev.push(d);
        m = m / 10;
    }
    let mut out = digit_str(m).to_owned();
    proof {
        lemma_rev_chars_len(rev@);
        assert(out@ =~= dec_digits(m as nat));
        assert(dec_digits(n as nat).take(1) =~= dec_digits(m as nat));
    }
    let mut k = rev.len();
    while k > 0
        invariant
            k <= rev@.len(),
            forall|kk: int| 0 <= kk < rev@.len() ==> #[trigger] rev@[kk] < 10,
            out@ =~= dec_digits(n as nat).take(dec_digits(n as nat).len() - k),
            dec_digits(n as nat).len() == 1 + rev@.len(),
            dec_digits(n as nat) =~= dec_digits(n as nat).take(1) + rev_chars(rev@),
        decreases k,
    {
        k = k - 1;
        let d = rev[k];
        proof {
            lemma_rev_chars_index(rev@, rev@.len() - 1 - k);
            let full = dec_digits(n as nat);
            assert(full[full.len() - (k + 1)] == rev_chars(rev@)[rev@.len() - 1 - k]);
            assert(full.take(full.len() - k) =~= full.take(full.len() - (k + 1)).push(
                full[full.len() - (k + 1)],
            ));
        }
        out.append(digit_str(d));
    }
    proof {
        assert(dec_digits(n as nat).take(dec_digits(n as nat).len() as int) =~= dec_digits(n as nat));
    }
    out
}

/// The characters of a low-to-high digit list, highest digit first.
pub open spec fn rev_chars(v: Seq<u64>) -> Seq<char>
    decreases v.len(),
{
    if v.len() == 0 {
        Seq::empty()
    } else {
        seq![digit_char(v.last() as nat)] + rev_chars(v.drop_last())
    }
}

/// Indexing [`rev_chars`]: position `j` holds the digit `v.len() - 1 - j`.
pub proof fn lemma_rev_chars_index(v: Seq<u64>, j: int)
    requires
        0 <= j < v.len(),
    ensures
        rev_chars(v).len() == v.len(),
        rev_chars(v)[j] == digit_char(v[v.len() - 1 - j] as nat),
    decreases v.len(),
{
    lemma_rev_chars_len(v);
    if j > 0 {
        lemma_rev_chars_index(v.drop_last(), j - 1);
    }
}

/// [`rev_chars`] keeps the length.
pub proof fn lemma_rev_chars_len(v: Seq<u64>)
    ensures
        rev_chars(v).len() == v.len(),
    decreases v.len(),
{
    if v.len() > 0 {
        lemma_rev_chars_len(v.drop_last());
    }
}

/// The one-character string for a digit value.
fn digit_str(d: u64) -> (r: &'static str)
    requires
        d < 10,
    ensures
        r@ =~= seq![digit_char(d as nat)],
{
    proof {
        reveal_strlit("0");
        reveal_strlit("1");
        reveal_strlit("2");
        reveal_strlit("3");
        reveal_strlit("4");
        reveal_strlit("5");
        reveal_strlit("6");
        reveal_strlit("7");
        reveal_strlit("8");
        reveal_strlit("9");
    }
    if d == 0 {
        "0"
    } else if d == 1 {
        "1"
    } else if d == 2 {
        "2"
    } else if d == 3 {
        "3"
    } else if d == 4 {
        "4"
    } else if d == 5 {
        "5"
    } else if d == 6 {
        "6"
    } else if d == 7 {
        "7"
    } else if d == 8 {
        "8"
    } else {
        "9"
    }
}

} // verus!
