//! Quoted, escaped string fields of the structured text format: rendering,
//! parsing, and the proof that parsing undoes rendering.
//!
//! Inside quotes, a backslash escapes the three characters that would break
//! the line- and quote-structure of the format: `\\` for a backslash, `\"`
//! for a double quote and `\n` for a newline.  Every other character stands
//! for itself.

use vstd::prelude::*;
use vstd::string::StrSliceExecFns;
use vstd::string::StringExecFns;

verus! {

/// The escaped rendering of one character.
pub open spec fn escape_char(c: char) -> Seq<char> {
    if c == '\\' {
        seq!['\\', '\\']
    } else if c == '"' {
        seq!['\\', '"']
    } else if c == '\n' {
        seq!['\\', 'n']
    } else {
        seq![c]
    }
}

/// The escaped rendering of a string: each character in turn.
pub open spec fn escape(s: Seq<char>) -> Seq<char>
    decreases s.len(),
{
    if s.len() == 0 {
        Seq::empty()
    } else {
        escape_char(s[0]) + escape(s.drop_first())
    }
}

/// Escaping distributes over concatenation.
pub proof fn lemma_escape_concat(a: Seq<char>, b: Seq<char>)
    ensures
        escape(a + b) == escape(a) + escape(b),
    decreases a.len(),
{
    if a.len() == 0 {
        assert(a + b =~= b);
        assert(escape(a) + escape(b) =~= escape(b));
    } else {
        assert((a + b).drop_first() =~= a.drop_first() + b);
        assert((a + b)[0] == a[0]);
        lemma_escape_concat(a.drop_first(), b);
        assert(escape_char(a[0]) + (escape(a.drop_first()) + escape(b)) =~= (escape_char(a[0])
            + escape(a.drop_first())) + escape(b));
    }
}

/// The character an escape pair `\\c` stands for, if `c` is a valid escape.
pub open spec fn unescape_char(c: char) -> Option<char> {
    if c == '\\' {
        Some('\\')
    } else if c == '"' {
        Some('"')
    } else if c == 'n' {
        Some('\n')
    } else {
        None
    }
}

/// The string field whose opening quote has just been read: its unescaped
/// content up to the matching closing quote, and the position just past that
/// quote.
///
/// There is no field when the text ends before a closing quote, when a
/// backslash is followed by an invalid escape, or when a raw newline stands
/// inside the quotes.
pub open spec fn parse_quoted(s: Seq<char>, i: int) -> Option<(Seq<char>, int)>
    decreases s.len() - i,
{
    if !(0 <= i < s.len()) {
        None
    } else if s[i] == '"' {
        Some((Seq::empty(), i + 1))
    } else if s[i] == '\\' {
        if i + 1 < s.len() {
            match unescape_char(s[i + 1]) {
                Some(c) => match parse_quoted(s, i + 2) {
                    Some(p) => Some((seq![c] + p.0, p.1)),
                    None => None,
                },
                None => None,
            }
        } else {
            None
        }
    } else if s[i] == '\n' {
        None
    } else {
        match parse_quoted(s, i + 1) {
            Some(p) => Some((seq![s[i]] + p.0, p.1)),
            None => None,
        }
    }
}

/// Parsing recovers an escaped rendering: where `escape(t)` followed by a
/// closing quote stands at `i`, the field parsed at `i` is `t`, ending just
/// past the quote.
pub proof fn lemma_parse_quoted_complete(s: Seq<char>, i: int, t: Seq<char>)
    requires
        0 <= i,
        i + escape(t).len() + 1 <= s.len(),
        s.subrange(i, i + escape(t).len() + 1) =~= escape(t) + seq!['"'],
    ensures
        parse_quoted(s, i) == Some((t, i + escape(t).len() + 1)),
    decreases t.len(),
{
    let et = escape(t);
    let sub = s.subrange(i, i + et.len() + 1);
    if t.len() == 0 {
        assert(et =~= Seq::<char>::empty());
        assert(s[i] == sub[0]);
        assert(sub[0] == (et + seq!['"'])[0]);
        assert(s[i] == '"');
    } else {
        let t1 = t.drop_first();
        let e1 = escape(t1);
        assert(et == escape_char(t[0]) + e1);
        let w = escape_char(t[0]).len() as int;
        assert forall|y: int| 0 <= y < e1.len() + 1 implies s.subrange(
            i + w,
            i + w + e1.len() + 1,
        )[y] == (e1 + seq!['"'])[y] by {
            assert(s.subrange(i + w, i + w + e1.len() + 1)[y] == s[i + w + y]);
            assert(s[i + w + y] == sub[w + y]);
            assert(sub[w + y] == (et + seq!['"'])[w + y]);
            if y < e1.len() {
                assert((et + seq!['"'])[w + y] == et[w + y]);
                assert(et[w + y] == e1[y]);
            } else {
                assert((et + seq!['"'])[w + y] == '"');
            }
        };
        assert(s.subrange(i + w, i + w + e1.len() + 1) =~= e1 + seq!['"']);
        lemma_parse_quoted_complete(s, i + w, t1);
        assert(s[i] == sub[0]);
        assert(sub[0] == (et + seq!['"'])[0]);
        assert(s[i] == et[0]);
        if t[0] == '\\' || t[0] == '"' || t[0] == '\n' {
            assert(w == 2);
            assert(s[i] == '\\');
            assert(s[i + 1] == sub[1]);
            assert(sub[1] == (et + seq!['"'])[1]);
            assert(s[i + 1] == et[1]);
            assert(unescape_char(s[i + 1]) == Some(t[0]));
            assert(seq![t[0]] + t1 =~= t);
        } else {
            assert(w == 1);
            assert(s[i] == t[0]);
            assert(seq![s[i]] + t1 =~= t);
        }
    }
}

/// The escaped rendering of a string, executably.
pub(crate) fn escape_string(s: &str) -> (r: String)
    ensures
        r@ == escape(s@),
{
    let len = s.unicode_len();
    let mut out = String::new();
    let mut i: usize = 0;
    while i < len
        invariant
            i <= len,
            len == s@.len(),
            out@ == escape(s@.take(i as int)),
        decreases len - i,
    {
        let c = s.get_char(i);
        proof {
            reveal_strlit("\\\\");
            reveal_strlit("\\\"");
            reveal_strlit("\\n");
            assert(s@.take(i + 1) =~= s@.take(i as int) + seq![s@[i as int]]);
            lemma_escape_concat(s@.take(i as int), seq![s@[i as int]]);
            assert(seq![s@[i as int]].drop_first() =~= Seq::<char>::empty());
            assert(escape(Seq::<char>::empty()) =~= Seq::<char>::empty());
            assert(escape(seq![s@[i as int]]) =~= escape_char(s@[i as int]));
        }
        if c == '\\' {
            proof {
                assert("\\\\"@ =~= seq!['\\', '\\']);
            }
            out.append("\\\\");
        } else if c == '"' {
            proof {
                assert("\\\""@ =~= seq!['\\', '"']);
            }
            out.append("\\\"");
        } else if c == '\n' {
            proof {
                assert("\\n"@ =~= seq!['\\', 'n']);
            }
            out.append("\\n");
        } else {
            out.append(s.substring_char(i, i + 1));
            proof {
                assert(s@.subrange(i as int, i + 1) =~= seq![s@[i as int]]);
            }
        }
        i = i + 1;
    }
    proof {
        assert(s@.take(len as int) =~= s@);
    }
    out
}

/// Parses the string field whose opening quote stands just before `start`,
/// returning exactly what [`parse_quoted`] describes.
pub(crate) fn parse_quoted_exec(s: &str, start: usize, len: usize) -> (r: Option<(String, usize)>)
    requires
        len == s@.len(),
        start <= len,
    ensures
        match r {
            Some(p) => parse_quoted(s@, start as int) == Some((p.0@, p.1 as int)) && start < p.1
                <= len,
            None => parse_quoted(s@, start as int) is None,
        },
{
    let mut out = String::new();
    let mut j = start;
    loop
        invariant
            start <= j <= len,
            len == s@.len(),
            parse_quoted(s@, start as int) == (match parse_quoted(s@, j as int) {
                Some(p) => Some((out@ + p.0, p.1)),
                None => None::<(Seq<char>, int)>,
            }),
        decreases len - j,
    {
        if j >= len {
            return None;
        }
        let c = s.get_char(j);
        if c == '"' {
            proof {
                assert(out@ + Seq::<char>::empty() =~= out@);
            }
            return Some((out, j + 1));
        } else if c == '\\' {
            if j + 1 >= len {
                return None;
            }
            let c2 = s.get_char(j + 1);
            proof {
                reveal_strlit("\\");
                reveal_strlit("\"");
                reveal_strlit("\n");
                assert("\\"@ =~= seq!['\\']);
                assert("\""@ =~= seq!['"']);
                assert("\n"@ =~= seq!['\n']);
            }
            let piece: &str = if c2 == '\\' {
                "\\"
            } else if c2 == '"' {
                "\""
            } else if c2 == 'n' {
                "\n"
            } else {
                return None;
            };
            proof {
                assert(match unescape_char(s@[j + 1]) {
                    Some(u) => piece@ =~= seq![u],
                    None => false,
                });
                if let Some(p) = parse_quoted(s@, j + 2) {
                    assert((out@ + piece@) + p.0 =~= out@ + (piece@ + p.0));
                }
            }
            out.append(piece);
            j = j + 2;
        } else if c == '\n' {
            return None;
        } else {
            proof {
                assert(s@.subrange(j as int, j + 1) =~= seq![s@[j as int]]);
                if let Some(p) = parse_quoted(s@, j + 1) {
                    assert((out@ + seq![s@[j as int]]) + p.0 =~= out@ + (seq![s@[j as int]] + p.0));
                }
            }
            out.append(s.substring_char(j, j + 1));
            j = j + 1;
        }
    }
}

} // verus!
