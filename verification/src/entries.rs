//! The registry's listing: a sequence of (name, description) pairs with
//! unique names, its insertion semantics, its text rendering and its parser.

use vstd::prelude::*;
use crate::quoted::{escape, parse_quoted, lemma_parse_quoted_complete};
use crate::quoted::{escape_string, parse_quoted_exec};
use crate::text::{has_at, expect_lit};
use vstd::string::StrSliceExecFns;
use vstd::string::StringExecFns;

verus! {

/// The mathematical contents of a list of owned string pairs.
pub open spec fn pairs_view(v: Seq<(String, String)>) -> Seq<(Seq<char>, Seq<char>)> {
    v.map_values(|p: (String, String)| (p.0@, p.1@))
}

/// No two entries share a name.
pub open spec fn entries_unique(es: Seq<(Seq<char>, Seq<char>)>) -> bool {
    forall|i: int, j: int|
        0 <= i < j < es.len() ==> (#[trigger] es[i]).0 != (#[trigger] es[j]).0
}

/// Some entry bears the name `k`.
pub open spec fn has_key(es: Seq<(Seq<char>, Seq<char>)>, k: Seq<char>) -> bool {
    exists|i: int| 0 <= i < es.len() && (#[trigger] es[i]).0 == k
}

/// The description of the first entry named `k` (the empty string when none
/// is; callers guard with [`has_key`]).
pub open spec fn value_of(es: Seq<(Seq<char>, Seq<char>)>, k: Seq<char>) -> Seq<char>
    decreases es.len(),
{
    if es.len() == 0 {
        Seq::empty()
    } else if es[0].0 == k {
        es[0].1
    } else {
        value_of(es.drop_first(), k)
    }
}

/// Inserting `(k, v)`: the first entry named `k` has its description
/// replaced in place; when none is, the pair is appended.
pub open spec fn upsert(
    es: Seq<(Seq<char>, Seq<char>)>,
    k: Seq<char>,
    v: Seq<char>,
) -> Seq<(Seq<char>, Seq<char>)>
    decreases es.len(),
{
    if es.len() == 0 {
        seq![(k, v)]
    } else if es[0].0 == k {
        seq![(k, v)] + es.drop_first()
    } else {
        seq![es[0]] + upsert(es.drop_first(), k, v)
    }
}

/// The listing built by inserting a sequence of pairs in order, a later
/// pair overwriting the description of an earlier one with the same name.
pub open spec fn entries_of(ts: Seq<(Seq<char>, Seq<char>)>) -> Seq<(Seq<char>, Seq<char>)>
    decreases ts.len(),
{
    if ts.len() == 0 {
        Seq::empty()
    } else {
        upsert(entries_of(ts.drop_last()), ts.last().0, ts.last().1)
    }
}

/// The description paired with the last occurrence of the name `k` in `ts`
/// (the empty string when none is).
pub open spec fn last_value(ts: Seq<(Seq<char>, Seq<char>)>, k: Seq<char>) -> Seq<char>
    decreases ts.len(),
{
    if ts.len() == 0 {
        Seq::empty()
    } else if ts.last().0 == k {
        ts.last().1
    } else {
        last_value(ts.drop_last(), k)
    }
}

/// Membership and first-match description of a listing with one pair in
/// front.
proof fn lemma_cons_key(p: (Seq<char>, Seq<char>), rest: Seq<(Seq<char>, Seq<char>)>, q: Seq<char>)
    ensures
        has_key(seq![p] + rest, q) <==> (p.0 == q || has_key(rest, q)),
        value_of(seq![p] + rest, q) == if p.0 == q {
            p.1
        } else {
            value_of(rest, q)
        },
{
    let s = seq![p] + rest;
    assert(s[0] == p);
    assert(s.drop_first() =~= rest);
    if has_key(s, q) {
        let i = choose|i: int| 0 <= i < s.len() && (#[trigger] s[i]).0 == q;
        if i > 0 {
            assert(rest[i - 1] == s[i]);
            assert(has_key(rest, q));
        }
    }
    if has_key(rest, q) {
        let i = choose|i: int| 0 <= i < rest.len() && (#[trigger] rest[i]).0 == q;
        assert(s[i + 1] == rest[i]);
        assert(has_key(s, q));
    }
    if p.0 == q {
        assert(has_key(s, q));
    }
}

/// What one insertion does to membership and description, seen from any
/// name `q`.
pub proof fn lemma_upsert_key(
    es: Seq<(Seq<char>, Seq<char>)>,
    k: Seq<char>,
    v: Seq<char>,
    q: Seq<char>,
)
    ensures
        has_key(upsert(es, k, v), q) <==> (q == k || has_key(es, q)),
        q == k ==> value_of(upsert(es, k, v), q) == v,
        q != k ==> value_of(upsert(es, k, v), q) == value_of(es, q),
    decreases es.len(),
{
    if es.len() == 0 {
        lemma_cons_key((k, v), Seq::empty(), q);
        assert(seq![(k, v)] + Seq::<(Seq<char>, Seq<char>)>::empty() =~= seq![(k, v)]);
        assert(!has_key(Seq::<(Seq<char>, Seq<char>)>::empty(), q));
    } else if es[0].0 == k {
        lemma_cons_key((k, v), es.drop_first(), q);
        lemma_cons_key(es[0], es.drop_first(), q);
        assert(seq![es[0]] + es.drop_first() =~= es);
    } else {
        lemma_upsert_key(es.drop_first(), k, v, q);
        lemma_cons_key(es[0], upsert(es.drop_first(), k, v), q);
        lemma_cons_key(es[0], es.drop_first(), q);
        assert(seq![es[0]] + es.drop_first() =~= es);
    }
}

/// When no entry is named `k`, insertion appends the pair.
pub proof fn lemma_upsert_append(es: Seq<(Seq<char>, Seq<char>)>, k: Seq<char>, v: Seq<char>)
    requires
        forall|i: int| 0 <= i < es.len() ==> (#[trigger] es[i]).0 != k,
    ensures
        upsert(es, k, v) == es + seq![(k, v)],
    decreases es.len(),
{
    if es.len() == 0 {
        assert(upsert(es, k, v) =~= es + seq![(k, v)]);
    } else {
        let rest = es.drop_first();
        assert forall|i: int| 0 <= i < rest.len() implies (#[trigger] rest[i]).0 != k by {
            assert(rest[i] == es[i + 1]);
        };
        lemma_upsert_append(rest, k, v);
        assert(seq![es[0]] + (rest + seq![(k, v)]) =~= es + seq![(k, v)]);
    }
}

/// When the first entry named `k` stands at `f`, insertion replaces its
/// description in place.
pub proof fn lemma_upsert_update(
    es: Seq<(Seq<char>, Seq<char>)>,
    k: Seq<char>,
    v: Seq<char>,
    f: int,
)
    requires
        0 <= f < es.len(),
        es[f].0 == k,
        forall|i: int| 0 <= i < f ==> (#[trigger] es[i]).0 != k,
    ensures
        upsert(es, k, v) == es.update(f, (k, v)),
    decreases es.len(),
{
    if f == 0 {
        assert(seq![(k, v)] + es.drop_first() =~= es.update(0, (k, v)));
    } else {
        let rest = es.drop_first();
        assert(es[0].0 != k);
        assert forall|i: int| 0 <= i < f - 1 implies (#[trigger] rest[i]).0 != k by {
            assert(rest[i] == es[i + 1]);
        };
        assert(rest[f - 1] == es[f]);
        lemma_upsert_update(rest, k, v, f - 1);
        assert(seq![es[0]] + rest.update(f - 1, (k, v)) =~= es.update(f, (k, v)));
    }
}

/// Insertion keeps names unique.
pub proof fn lemma_upsert_unique(es: Seq<(Seq<char>, Seq<char>)>, k: Seq<char>, v: Seq<char>)
    requires
        entries_unique(es),
    ensures
        entries_unique(upsert(es, k, v)),
{
    if has_key(es, k) {
        let f = choose|f: int| 0 <= f < es.len() && (#[trigger] es[f]).0 == k;
        assert forall|i: int| 0 <= i < f implies (#[trigger] es[i]).0 != k by {
            if es[i].0 == k {
                assert(es[i].0 != es[f].0);
            }
        };
        lemma_upsert_update(es, k, v, f);
        let u = es.update(f, (k, v));
        assert forall|i: int, j: int| 0 <= i < j < u.len() implies (#[trigger] u[i]).0 != (
        #[trigger] u[j]).0 by {
            assert(es[i].0 != es[j].0);
        };
    } else {
        assert forall|i: int| 0 <= i < es.len() implies (#[trigger] es[i]).0 != k by {
            if es[i].0 == k {
                assert(has_key(es, k));
            }
        };
        lemma_upsert_append(es, k, v);
        let u = es + seq![(k, v)];
        assert forall|i: int, j: int| 0 <= i < j < u.len() implies (#[trigger] u[i]).0 != (
        #[trigger] u[j]).0 by {
            if j < es.len() {
                assert(es[i].0 != es[j].0);
            } else {
                assert(u[j] == (k, v));
                assert(u[i] == es[i]);
            }
        };
    }
}

/// The listing built from `ts` has unique names.
pub proof fn lemma_entries_of_unique(ts: Seq<(Seq<char>, Seq<char>)>)
    ensures
        entries_unique(entries_of(ts)),
    decreases ts.len(),
{
    if ts.len() > 0 {
        lemma_entries_of_unique(ts.drop_last());
        lemma_upsert_unique(entries_of(ts.drop_last()), ts.last().0, ts.last().1);
    }
}

/// The listing built from `ts` holds exactly the names of `ts`, each with
/// the description of its last occurrence.
pub proof fn lemma_entries_of_key(ts: Seq<(Seq<char>, Seq<char>)>, k: Seq<char>)
    ensures
        has_key(entries_of(ts), k) <==> exists|i: int|
            0 <= i < ts.len() && (#[trigger] ts[i]).0 == k,
        has_key(entries_of(ts), k) ==> value_of(entries_of(ts), k) == last_value(ts, k),
    decreases ts.len(),
{
    if ts.len() == 0 {
        assert(!has_key(entries_of(ts), k));
    } else {
        let prev = ts.drop_last();
        lemma_entries_of_key(prev, k);
        lemma_upsert_key(entries_of(prev), ts.last().0, ts.last().1, k);
        if ts.last().0 == k {
            assert(ts[ts.len() - 1].0 == k);
        }
        if has_key(entries_of(ts), k) && ts.last().0 != k {
            let i = choose|i: int| 0 <= i < prev.len() && (#[trigger] prev[i]).0 == k;
            assert(ts[i] == prev[i]);
        }
        if (exists|i: int| 0 <= i < ts.len() && (#[trigger] ts[i]).0 == k) && ts.last().0 != k {
            let i = choose|i: int| 0 <= i < ts.len() && (#[trigger] ts[i]).0 == k;
            assert(prev[i] == ts[i]);
        }
    }
}

/// The line an entry is written as: its name and description quoted and
/// escaped, joined by ` = `, ended by a newline.
pub open spec fn entry_text(k: Seq<char>, v: Seq<char>) -> Seq<char> {
    seq!['"'] + escape(k) + seq!['"', ' ', '=', ' ', '"'] + escape(v) + seq!['"', '\n']
}

/// The lines of a whole listing, in order.
pub open spec fn entries_text(es: Seq<(Seq<char>, Seq<char>)>) -> Seq<char>
    decreases es.len(),
{
    if es.len() == 0 {
        Seq::empty()
    } else {
        entry_text(es[0].0, es[0].1) + entries_text(es.drop_first())
    }
}

/// The listing text of a concatenation is the concatenation of the texts.
pub proof fn lemma_entries_text_concat(
    a: Seq<(Seq<char>, Seq<char>)>,
    b: Seq<(Seq<char>, Seq<char>)>,
)
    ensures
        entries_text(a + b) == entries_text(a) + entries_text(b),
    decreases a.len(),
{
    if a.len() == 0 {
        assert(a + b =~= b);
        assert(entries_text(a) + entries_text(b) =~= entries_text(b));
    } else {
        assert((a + b).drop_first() =~= a.drop_first() + b);
        assert((a + b)[0] == a[0]);
        lemma_entries_text_concat(a.drop_first(), b);
        assert(entry_text(a[0].0, a[0].1) + (entries_text(a.drop_first()) + entries_text(b)) =~= (
        entry_text(a[0].0, a[0].1) + entries_text(a.drop_first())) + entries_text(b));
    }
}

/// The listing that stands at position `i` and reaches to the end of the
/// text: entry lines one after the other, in order.
///
/// There is no listing when anything but a well-formed entry line stands
/// between `i` and the end.
pub open spec fn parse_entries(s: Seq<char>, i: int) -> Option<Seq<(Seq<char>, Seq<char>)>>
    decreases s.len() - i,
{
    if i == s.len() {
        Some(Seq::empty())
    } else if 0 <= i < s.len() && s[i] == '"' {
        match parse_quoted(s, i + 1) {
            Some(kp) => if has_at(s, kp.1, seq![' ', '=', ' ', '"']) {
                match parse_quoted(s, kp.1 + 4) {
                    Some(vp) => if vp.1 < s.len() && s[vp.1] == '\n' && vp.1 + 1 > i {
                        match parse_entries(s, vp.1 + 1) {
                            Some(es) => Some(seq![(kp.0, vp.0)] + es),
                            None => None,
                        }
                    } else {
                        None
                    },
                    None => None,
                }
            } else {
                None
            },
            None => None,
        }
    } else {
        None
    }
}

/// Parsing recovers a rendered listing: where `entries_text(es)` fills the
/// text from `i` to its end, the listing parsed at `i` is `es`.
pub proof fn lemma_parse_entries_complete(s: Seq<char>, i: int, es: Seq<(Seq<char>, Seq<char>)>)
    requires
        0 <= i <= s.len(),
        s.subrange(i, s.len() as int) =~= entries_text(es),
    ensures
        parse_entries(s, i) == Some(es),
    decreases es.len(),
{
    if es.len() == 0 {
        assert(entries_text(es).len() == 0);
        assert(i == s.len());
        assert(es =~= Seq::<(Seq<char>, Seq<char>)>::empty());
    } else {
        let k = es[0].0;
        let v = es[0].1;
        let rest = es.drop_first();
        let line = entry_text(k, v);
        let tailtext = entries_text(rest);
        assert(entries_text(es) == line + tailtext);
        let tail = s.subrange(i, s.len() as int);
        assert forall|x: int| 0 <= x < tail.len() implies s[i + x] == tail[x] by {
            assert(tail[x] == s[i + x]);
        };
        let ek = escape(k);
        let ev = escape(v);
        // offsets inside the line
        let q1 = 1 + ek.len() as int;  // index of the quote closing the name
        let mid = q1 + 1;  // the four characters of `" = ""`... the ` = "` group
        let vstart = mid + 4;  // first character of the escaped description
        let q2 = vstart + ev.len() as int;  // quote closing the description
        let nl = q2 + 1;  // the newline ending the line
        assert(line.len() == nl + 1);
        assert(s[i] == tail[0]);
        assert(tail[0] == line[0]);
        assert(line[0] == '"');
        // the name: escape(k) then a quote, starting at i + 1
        assert forall|y: int| 0 <= y < ek.len() + 1 implies s.subrange(
            i + 1,
            i + 1 + ek.len() + 1,
        )[y] == (ek + seq!['"'])[y] by {
            assert(s.subrange(i + 1, i + 1 + ek.len() + 1)[y] == s[i + 1 + y]);
            assert(s[i + 1 + y] == tail[1 + y]);
            assert(tail[1 + y] == line[1 + y]);
            if y < ek.len() {
                assert(line[1 + y] == ek[y]);
            } else {
                assert(line[1 + y] == '"');
            }
        };
        assert(s.subrange(i + 1, i + 1 + ek.len() + 1) =~= ek + seq!['"']);
        lemma_parse_quoted_complete(s, i + 1, k);
        let j = i + 1 + ek.len() + 1;
        assert(parse_quoted(s, i + 1) == Some((k, j)));
        // the ` = "` group at j
        assert forall|y: int| 0 <= y < 4 implies s.subrange(j, j + 4)[y] == (seq![
            ' ',
            '=',
            ' ',
            '"',
        ])[y] by {
            assert(s.subrange(j, j + 4)[y] == s[j + y]);
            assert(s[j + y] == tail[mid + y]);
            assert(tail[mid + y] == line[mid + y]);
        };
        assert(s.subrange(j, j + 4) =~= seq![' ', '=', ' ', '"']);
        assert(has_at(s, j, seq![' ', '=', ' ', '"']));
        // the description: escape(v) then a quote, starting at j + 4
        assert forall|y: int| 0 <= y < ev.len() + 1 implies s.subrange(
            j + 4,
            j + 4 + ev.len() + 1,
        )[y] == (ev + seq!['"'])[y] by {
            assert(s.subrange(j + 4, j + 4 + ev.len() + 1)[y] == s[j + 4 + y]);
            assert(s[j + 4 + y] == tail[vstart + y]);
            assert(tail[vstart + y] == line[vstart + y]);
            if y < ev.len() {
                assert(line[vstart + y] == ev[y]);
            } else {
                assert(line[vstart + y] == '"');
            }
        };
        assert(s.subrange(j + 4, j + 4 + ev.len() + 1) =~= ev + seq!['"']);
        lemma_parse_quoted_complete(s, j + 4, v);
        let m = j + 4 + ev.len() + 1;
        assert(parse_quoted(s, j + 4) == Some((v, m)));
        // the newline ending the line
        assert(s[m] == tail[nl]);
        assert(tail[nl] == line[nl]);
        assert(line[nl] == '\n');
        // the remaining lines fill the text from m + 1 to its end
        assert forall|x: int| 0 <= x < s.len() - (m + 1) implies s.subrange(
            m + 1,
            s.len() as int,
        )[x] == tailtext[x] by {
            assert(s.subrange(m + 1, s.len() as int)[x] == s[m + 1 + x]);
            assert(s[m + 1 + x] == tail[nl + 1 + x]);
            assert(tail[nl + 1 + x] == tailtext[x]);
        };
        assert(s.subrange(m + 1, s.len() as int) =~= tailtext);
        lemma_parse_entries_complete(s, m + 1, rest);
        assert((es[0].0, es[0].1) == es[0]);
        assert(seq![(k, v)] + rest =~= es);
    }
}

/// Renders the lines of a listing, executably: exactly
/// [`entries_text`]`(pairs_view(es@))`.
pub(crate) fn render_entries(es: &Vec<(String, String)>) -> (r: String)
    ensures
        r@ == entries_text(pairs_view(es@)),
{
    let view = Ghost(pairs_view(es@));
    let mut out = String::new();
    let mut i: usize = 0;
    proof {
        reveal_strlit("\"");
        reveal_strlit("\" = \"");
        reveal_strlit("\"\n");
        assert("\""@ =~= seq!['"']);
        assert("\" = \""@ =~= seq!['"', ' ', '=', ' ', '"']);
        assert("\"\n"@ =~= seq!['"', '\n']);
    }
    while i < es.len()
        invariant
            i <= es@.len(),
            view@ == pairs_view(es@),
            view@.len() == es@.len(),
            out@ == entries_text(view@.take(i as int)),
            "\""@ == seq!['"'],
            "\" = \""@ == seq!['"', ' ', '=', ' ', '"'],
            "\"\n"@ == seq!['"', '\n'],
        decreases es@.len() - i,
    {
        let ek = escape_string(es[i].0.as_str());
        let ev = escape_string(es[i].1.as_str());
        out.append("\"");
        out.append(ek.as_str());
        out.append("\" = \"");
        out.append(ev.as_str());
        out.append("\"\n");
        proof {
            let p = view@[i as int];
            assert(p == (es@[i as int].0@, es@[i as int].1@));
            assert(view@.take(i + 1) =~= view@.take(i as int) + seq![p]);
            lemma_entries_text_concat(view@.take(i as int), seq![p]);
            assert(seq![p].drop_first() =~= Seq::<(Seq<char>, Seq<char>)>::empty());
            assert(entries_text(Seq::<(Seq<char>, Seq<char>)>::empty()) == Seq::<char>::empty());
            assert(entries_text(seq![p]) =~= entry_text(p.0, p.1));
            assert(out@ =~= entries_text(view@.take(i as int)) + entry_text(p.0, p.1));
        }
        i = i + 1;
    }
    proof {
        assert(view@.take(es@.len() as int) =~= view@);
    }
    out
}

/// Parses the listing that fills the text from `i` to its end, returning
/// exactly what [`parse_entries`] describes.
pub(crate) fn parse_entries_exec(s: &str, i: usize, len: usize) -> (r: Option<
    Vec<(String, String)>,
>)
    requires
        len == s@.len(),
        i <= len,
    ensures
        match r {
            Some(v) => parse_entries(s@, i as int) == Some(pairs_view(v@)),
            None => parse_entries(s@, i as int) is None,
        },
{
    let mut acc: Vec<(String, String)> = Vec::new();
    let mut j = i;
    proof {
        reveal_strlit(" = \"");
        assert(" = \""@ =~= seq![' ', '=', ' ', '"']);
    }
    loop
        invariant
            i <= j <= len,
            len == s@.len(),
            " = \""@ == seq![' ', '=', ' ', '"'],
            parse_entries(s@, i as int) == (match parse_entries(s@, j as int) {
                Some(es) => Some(pairs_view(acc@) + es),
                None => None::<Seq<(Seq<char>, Seq<char>)>>,
            }),
        decreases len - j,
    {
        if j == len {
            proof {
                assert(pairs_view(acc@) + Seq::<(Seq<char>, Seq<char>)>::empty() =~= pairs_view(
                    acc@,
                ));
            }
            return Some(acc);
        }
        if s.get_char(j) != '"' {
            return None;
        }
        let kp = match parse_quoted_exec(s, j + 1, len) {
            Some(p) => p,
            None => {
                return None;
            },
        };
        if !expect_lit(s, kp.1, len, " = \"") {
            return None;
        }
        let vp = match parse_quoted_exec(s, kp.1 + 4, len) {
            Some(p) => p,
            None => {
                return None;
            },
        };
        if vp.1 >= len || s.get_char(vp.1) != '\n' {
            return None;
        }
        let next = vp.1 + 1;
        proof {
            let pair = (kp.0@, vp.0@);
            assert(match parse_entries(s@, next as int) {
                Some(es) => parse_entries(s@, j as int) == Some(seq![pair] + es),
                None => parse_entries(s@, j as int) is None,
            });
            assert(pairs_view(acc@.push((kp.0, vp.0))) =~= pairs_view(acc@) + seq![pair]);
            if let Some(es) = parse_entries(s@, next as int) {
                assert((pairs_view(acc@) + seq![pair]) + es =~= pairs_view(acc@) + (seq![pair]
                    + es));
            }
        }
        acc.push((kp.0, vp.0));
        j = next;
    }
}

/// Whether the names of a listing are pairwise distinct, executably.
pub(crate) fn keys_unique_exec(es: &Vec<(String, String)>) -> (r: bool)
    ensures
        r == entries_unique(pairs_view(es@)),
{
    let view = Ghost(pairs_view(es@));
    let n = es.len();
    let mut a: usize = 0;
    while a < n
        invariant
            a <= n,
            n == es@.len(),
            view@ == pairs_view(es@),
            view@.len() == es@.len(),
            forall|i: int, j: int|
                0 <= i < j < n && i < a ==> (#[trigger] view@[i]).0 != (#[trigger] view@[j]).0,
        decreases n - a,
    {
        let mut b: usize = a + 1;
        while b < n
            invariant
                a < b <= n,
                a < n,
                n == es@.len(),
                view@ == pairs_view(es@),
                view@.len() == es@.len(),
                forall|i: int, j: int|
                    0 <= i < j < n && i < a ==> (#[trigger] view@[i]).0 != (#[trigger] view@[j]).0,
                forall|j: int| a < j < b ==> (#[trigger] view@[j]).0 != view@[a as int].0,
            decreases n - b,
        {
            if es[a].0 == es[b].0 {
                proof {
                    assert(view@[a as int].0 == view@[b as int].0);
                }
                return false;
            }
            b = b + 1;
        }
        a = a + 1;
    }
    true
}

} // verus!
