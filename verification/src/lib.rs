//! A small versioned registry of named templates, together with a builder
//! for human-readable release notes derived from it.
//!
//! A [`Repo`] records a release version, an advertised template count and a
//! name-to-description listing.  It is rendered to, and parsed back from, a
//! canonical line-based structured text; parsing is proved to undo
//! rendering exactly.  The release module assembles a Markdown release note
//! from a [`Repo`] and a release descriptor.
//!
//! Network retrieval and file access stand outside this crate; its
//! functions take and return plain text.

use vstd::prelude::*;

pub mod decimal;
pub mod entries;
mod error;
pub mod quoted;
pub mod release;
pub mod text;

pub use error::Error;

use crate::decimal::{dec_digits, parse_u64_at, lemma_parse_u64_complete, u64_to_string,
    parse_u64_exec};
use crate::entries::{pairs_view, entries_unique, has_key, value_of, upsert, entries_of,
    last_value, entries_text, parse_entries, lemma_parse_entries_complete,
    lemma_upsert_update, lemma_upsert_append, lemma_upsert_unique, lemma_entries_of_unique,
    lemma_entries_of_key, render_entries, parse_entries_exec, keys_unique_exec};
use crate::text::{has_at, expect_lit, str_eq};
use vstd::string::StrSliceExecFns;
use vstd::string::StringExecFns;

verus! {

/// The name and description of a single template, as the registry records
/// them.
#[derive(Debug)]
pub struct Template {
    /// Unique name of the template.
    pub name: String,
    /// Free-form description of the template.
    pub description: String,
}

/// The mathematical contents of a list of templates.
pub open spec fn templates_view(ts: Seq<Template>) -> Seq<(Seq<char>, Seq<char>)> {
    ts.map_values(|t: Template| (t.name@, t.description@))
}

/// What a [`Repo`] holds: its version, its advertised template count, and
/// its listing of (name, description) entries in order.
#[verifier::ext_equal]
pub ghost struct RepoModel {
    /// Current version of the repo.
    pub current_vers: u64,
    /// Advertised number of templates; equal to the listing's length at
    /// construction, carried as stored on parsing.
    pub num: u64,
    /// The (name, description) entries, in order, names unique.
    pub entries: Seq<(Seq<char>, Seq<char>)>,
}

/// A metadata record maintaining a set of template releases: a version, an
/// advertised template count, and a listing of template names with their
/// descriptions.
#[derive(Debug)]
pub struct Repo {
    current_vers: u64,
    num: u64,
    info: Vec<(String, String)>,
}

impl View for Repo {
    type V = RepoModel;

    closed spec fn view(&self) -> RepoModel {
        RepoModel {
            current_vers: self.current_vers,
            num: self.num,
            entries: pairs_view(self.info@),
        }
    }
}

/// The canonical structured text of a registry: a `current_vers` line, a
/// `num` line, an `[info]` heading, then one quoted line per entry.
pub open spec fn repo_text(m: RepoModel) -> Seq<char> {
    "current_vers = "@ + dec_digits(m.current_vers as nat) + seq!['\n'] + "num = "@ + dec_digits(
        m.num as nat,
    ) + seq!['\n'] + "[info]\n"@ + entries_text(m.entries)
}

/// The registry a structured text denotes, if it is well-formed: the two
/// number lines, the `[info]` heading and the entry lines in order, with no
/// two entries sharing a name.
pub open spec fn parse_repo(s: Seq<char>) -> Option<RepoModel> {
    if !has_at(s, 0, "current_vers = "@) {
        None
    } else {
        match parse_u64_at(s, "current_vers = "@.len() as int) {
            None => None,
            Some(vp) => if !(vp.1 < s.len() && s[vp.1] == '\n') {
                None
            } else if !has_at(s, vp.1 + 1, "num = "@) {
                None
            } else {
                match parse_u64_at(s, vp.1 + 1 + "num = "@.len()) {
                    None => None,
                    Some(np) => if !(np.1 < s.len() && s[np.1] == '\n') {
                        None
                    } else if !has_at(s, np.1 + 1, "[info]\n"@) {
                        None
                    } else {
                        match parse_entries(s, np.1 + 1 + "[info]\n"@.len()) {
                            None => None,
                            Some(es) => if entries_unique(es) {
                                Some(RepoModel { current_vers: vp.0, num: np.0, entries: es })
                            } else {
                                None
                            },
                        }
                    },
                }
            },
        }
    }
}

/// Round-trip law: parsing the canonical text of any registry whose entry
/// names are unique yields that registry back, field for field.
pub proof fn lemma_repo_round_trip(m: RepoModel)
    requires
        entries_unique(m.entries),
    ensures
        parse_repo(repo_text(m)) == Some(m),
{
    let s = repo_text(m);
    let h1 = "current_vers = "@;
    let d1 = dec_digits(m.current_vers as nat);
    let h2 = "num = "@;
    let d2 = dec_digits(m.num as nat);
    let h3 = "[info]\n"@;
    let et = entries_text(m.entries);
    let o1 = h1.len() as int;
    let o2 = o1 + d1.len() as int;
    let o3 = o2 + 1;
    let o4 = o3 + h2.len() as int;
    let o5 = o4 + d2.len() as int;
    let o6 = o5 + 1;
    let o7 = o6 + h3.len() as int;
    assert(s.len() == o7 + et.len());
    assert forall|x: int| 0 <= x < o1 implies s.subrange(0, o1)[x] == h1[x] by {
        assert(s.subrange(0, o1)[x] == s[x]);
    };
    assert(s.subrange(0, o1) =~= h1);
    assert(has_at(s, 0, h1));
    assert forall|x: int| 0 <= x < d1.len() implies s.subrange(o1, o2)[x] == d1[x] by {
        assert(s.subrange(o1, o2)[x] == s[o1 + x]);
    };
    assert(s.subrange(o1, o1 + d1.len() as int) =~= d1);
    assert(s[o2] == '\n');
    lemma_parse_u64_complete(s, o1, m.current_vers);
    assert(parse_u64_at(s, o1) == Some((m.current_vers, o2)));
    assert forall|x: int| 0 <= x < h2.len() implies s.subrange(o3, o4)[x] == h2[x] by {
        assert(s.subrange(o3, o4)[x] == s[o3 + x]);
    };
    assert(s.subrange(o3, o3 + h2.len() as int) =~= h2);
    assert(has_at(s, o3, h2));
    assert forall|x: int| 0 <= x < d2.len() implies s.subrange(o4, o5)[x] == d2[x] by {
        assert(s.subrange(o4, o5)[x] == s[o4 + x]);
    };
    assert(s.subrange(o4, o4 + d2.len() as int) =~= d2);
    assert(s[o5] == '\n');
    lemma_parse_u64_complete(s, o4, m.num);
    assert(parse_u64_at(s, o4) == Some((m.num, o5)));
    assert forall|x: int| 0 <= x < h3.len() implies s.subrange(o6, o7)[x] == h3[x] by {
        assert(s.subrange(o6, o7)[x] == s[o6 + x]);
    };
    assert(s.subrange(o6, o6 + h3.len() as int) =~= h3);
    assert(has_at(s, o6, h3));
    assert forall|x: int| 0 <= x < et.len() implies s.subrange(o7, s.len() as int)[x] == et[x] by {
        assert(s.subrange(o7, s.len() as int)[x] == s[o7 + x]);
    };
    assert(s.subrange(o7, s.len() as int) =~= et);
    lemma_parse_entries_complete(s, o7, m.entries);
}

impl Repo {
    /// Names in the listing are pairwise distinct.  Construction and
    /// parsing both establish this.
    pub open spec fn wf(&self) -> bool {
        entries_unique(self@.entries)
    }

    /// Creates a new `Repo`: the advertised count is the number of
    /// templates given, and the listing holds exactly their names, each
    /// with the description of its last occurrence, in first-insertion
    /// order.
    pub fn new(current_vers: u64, templates: &Vec<Template>) -> (r: Repo)
        ensures
            r@.current_vers == current_vers,
            r@.num == templates@.len(),
            r@.entries == entries_of(templates_view(templates@)),
            r.wf(),
    {
        let ghost tv = templates_view(templates@);
        let mut info: Vec<(String, String)> = Vec::new();
        let mut i: usize = 0;
        while i < templates.len()
            invariant
                i <= templates@.len(),
                tv == templates_view(templates@),
                tv.len() == templates@.len(),
                pairs_view(info@) == entries_of(tv.take(i as int)),
                entries_unique(pairs_view(info@)),
            decreases templates@.len() - i,
        {
            let name = templates[i].name.clone();
            let desc = templates[i].description.clone();
            proof {
                assert(tv.take(i + 1) =~= tv.take(i as int).push(tv[i as int]));
                assert(tv.take(i + 1).drop_last() =~= tv.take(i as int));
                assert(tv[i as int] == (templates@[i as int].name@, templates@[i as int].description@));
                lemma_upsert_unique(pairs_view(info@), name@, desc@);
            }
            upsert_exec(&mut info, name, desc);
            i = i + 1;
        }
        proof {
            assert(tv.take(templates@.len() as int) =~= tv);
        }
        Repo { current_vers, num: templates.len() as u64, info }
    }

    /// Returns the version of the repo.
    pub fn version(&self) -> (v: u64)
        ensures
            v == self@.current_vers,
    {
        self.current_vers
    }

    /// Returns the advertised number of templates.
    pub fn num(&self) -> (n: u64)
        ensures
            n == self@.num,
    {
        self.num
    }

    /// Returns an independent copy of the listing, in order.
    pub fn info(&self) -> (r: Vec<(String, String)>)
        ensures
            pairs_view(r@) == self@.entries,
    {
        let mut out: Vec<(String, String)> = Vec::new();
        let mut i: usize = 0;
        while i < self.info.len()
            invariant
                i <= self.info@.len(),
                out@.len() == i,
                forall|x: int|
                    0 <= x < i ==> (#[trigger] out@[x]).0@ == self.info@[x].0@ && out@[x].1@
                        == self.info@[x].1@,
            decreases self.info@.len() - i,
        {
            out.push((self.info[i].0.clone(), self.info[i].1.clone()));
            i = i + 1;
        }
        proof {
            assert(pairs_view(out@) =~= pairs_view(self.info@));
        }
        out
    }

    /// Checks whether a template of exactly this name stands in the
    /// listing (case-sensitive).
    pub fn template_exist(&self, name: &str) -> (r: bool)
        ensures
            r == has_key(self@.entries, name@),
    {
        let mut i: usize = 0;
        while i < self.info.len()
            invariant
                i <= self.info@.len(),
                forall|x: int| 0 <= x < i ==> (#[trigger] pairs_view(self.info@)[x]).0 != name@,
            decreases self.info@.len() - i,
        {
            if str_eq(self.info[i].0.as_str(), name) {
                proof {
                    assert(pairs_view(self.info@)[i as int].0 == name@);
                }
                return true;
            }
            i = i + 1;
        }
        proof {
            if has_key(self@.entries, name@) {
                let x = choose|x: int|
                    0 <= x < self@.entries.len() && (#[trigger] self@.entries[x]).0 == name@;
                assert(pairs_view(self.info@)[x].0 == name@);
            }
        }
        false
    }

    /// Creates a `Repo` from its structured text; fails with
    /// [`Error::Parse`] exactly when the text is not a well-formed
    /// registry.
    pub fn from_string(s: &str) -> (r: Result<Repo, Error>)
        ensures
            match r {
                Ok(repo) => parse_repo(s@) == Some(repo@) && repo.wf(),
                Err(e) => parse_repo(s@) is None && e == Error::Parse,
            },
    {
        let len = s.unicode_len();
        if !expect_lit(s, 0, len, "current_vers = ") {
            return Err(Error::Parse);
        }
        let h1 = "current_vers = ".unicode_len();
        let vp = match parse_u64_exec(s, h1, len) {
            Some(p) => p,
            None => {
                return Err(Error::Parse);
            },
        };
        if vp.1 >= len || s.get_char(vp.1) != '\n' {
            return Err(Error::Parse);
        }
        if !expect_lit(s, vp.1 + 1, len, "num = ") {
            return Err(Error::Parse);
        }
        let h2 = "num = ".unicode_len();
        let np = match parse_u64_exec(s, vp.1 + 1 + h2, len) {
            Some(p) => p,
            None => {
                return Err(Error::Parse);
            },
        };
        if np.1 >= len || s.get_char(np.1) != '\n' {
            return Err(Error::Parse);
        }
        if !expect_lit(s, np.1 + 1, len, "[info]\n") {
            return Err(Error::Parse);
        }
        let h3 = "[info]\n".unicode_len();
        let es = match parse_entries_exec(s, np.1 + 1 + h3, len) {
            Some(v) => v,
            None => {
                return Err(Error::Parse);
            },
        };
        if !keys_unique_exec(&es) {
            return Err(Error::Parse);
        }
        Ok(Repo { current_vers: vp.0, num: np.0, info: es })
    }

    /// Renders the registry as its canonical structured text;
    /// [`Repo::from_string`] parses it back to an equal registry
    /// ([`lemma_repo_round_trip`]).
    pub fn to_string(&self) -> (r: String)
        ensures
            r@ == repo_text(self@),
    {
        proof {
            reveal_strlit("\n");
            assert("\n"@ =~= seq!['\n']);
        }
        let mut out = String::new();
        out.append("current_vers = ");
        out.append(u64_to_string(self.current_vers).as_str());
        out.append("\n");
        out.append("num = ");
        out.append(u64_to_string(self.num).as_str());
        out.append("\n");
        out.append("[info]\n");
        out.append(render_entries(&self.info).as_str());
        proof {
            assert(out@ =~= repo_text(self@));
        }
        out
    }
}

/// Inserts one pair into the listing: the first entry of that name has its
/// description replaced in place, a fresh name is appended.
fn upsert_exec(info: &mut Vec<(String, String)>, name: String, desc: String)
    ensures
        pairs_view(final(info)@) == upsert(pairs_view(old(info)@), name@, desc@),
{
    let ghost es = pairs_view(info@);
    let n = info.len();
    let mut f: usize = 0;
    while f < n && !str_eq(info[f].0.as_str(), name.as_str())
        invariant
            f <= n,
            n == info@.len(),
            *info == *old(info),
            es == pairs_view(info@),
            forall|x: int| 0 <= x < f ==> (#[trigger] es[x]).0 != name@,
        decreases n - f,
    {
        f = f + 1;
    }
    if f < n {
        proof {
            assert(es[f as int].0 == name@);
            lemma_upsert_update(es, name@, desc@, f as int);
        }
        info.remove(f);
        info.insert(f, (name, desc));
        proof {
            assert(pairs_view(info@) =~= es.update(f as int, (name@, desc@)));
        }
    } else {
        proof {
            lemma_upsert_append(es, name@, desc@);
        }
        info.push((name, desc));
        proof {
            assert(pairs_view(info@) =~= es + seq![(name@, desc@)]);
        }
    }
}

/// The lines of the display rendering that list the entries: one
/// `=> name: description` line per entry, in order.
pub open spec fn display_entries_text(es: Seq<(Seq<char>, Seq<char>)>) -> Seq<char>
    decreases es.len(),
{
    if es.len() == 0 {
        Seq::empty()
    } else {
        "=> "@ + es[0].0 + ": "@ + es[0].1 + seq!['\n'] + display_entries_text(es.drop_first())
    }
}

/// The display listing of a concatenation is the concatenation of the
/// display listings.
pub proof fn lemma_display_entries_concat(
    a: Seq<(Seq<char>, Seq<char>)>,
    b: Seq<(Seq<char>, Seq<char>)>,
)
    ensures
        display_entries_text(a + b) == display_entries_text(a) + display_entries_text(b),
    decreases a.len(),
{
    if a.len() == 0 {
        assert(a + b =~= b);
        assert(display_entries_text(a) + display_entries_text(b) =~= display_entries_text(b));
    } else {
        assert((a + b).drop_first() =~= a.drop_first() + b);
        assert((a + b)[0] == a[0]);
        lemma_display_entries_concat(a.drop_first(), b);
        assert("=> "@ + a[0].0 + ": "@ + a[0].1 + seq!['\n'] + (display_entries_text(
            a.drop_first(),
        ) + display_entries_text(b)) =~= ("=> "@ + a[0].0 + ": "@ + a[0].1 + seq!['\n']
            + display_entries_text(a.drop_first())) + display_entries_text(b));
    }
}

/// The fixed human-readable rendering of a registry: a version header, the
/// advertised count, and the entries between two rules.
pub open spec fn display_text(m: RepoModel) -> Seq<char> {
    "TexCreate Repo: v"@ + dec_digits(m.current_vers as nat) + seq!['\n']
        + "Number of Templates: "@ + dec_digits(m.num as nat) + seq!['\n']
        + "======TEMPLATES======\n"@ + display_entries_text(m.entries)
        + "=====================\n"@
}

impl Repo {
    /// The human-readable multi-line rendering of the registry, as
    /// [`display_text`] lays it out; a caller prints it verbatim.
    pub fn display_string(&self) -> (r: String)
        ensures
            r@ == display_text(self@),
    {
        proof {
            reveal_strlit("\n");
            assert("\n"@ =~= seq!['\n']);
        }
        let mut out = String::new();
        out.append("TexCreate Repo: v");
        out.append(u64_to_string(self.current_vers).as_str());
        out.append("\n");
        out.append("Number of Templates: ");
        out.append(u64_to_string(self.num).as_str());
        out.append("\n");
        out.append("======TEMPLATES======\n");
        let ghost head = out@;
        let ghost view = pairs_view(self.info@);
        let mut i: usize = 0;
        while i < self.info.len()
            invariant
                i <= self.info@.len(),
                view == pairs_view(self.info@),
                view.len() == self.info@.len(),
                out@ == head + display_entries_text(view.take(i as int)),
                "\n"@ == seq!['\n'],
            decreases self.info@.len() - i,
        {
            out.append("=> ");
            out.append(self.info[i].0.as_str());
            out.append(": ");
            out.append(self.info[i].1.as_str());
            out.append("\n");
            proof {
                let p = view[i as int];
                assert(p == (self.info@[i as int].0@, self.info@[i as int].1@));
                assert(view.take(i + 1) =~= view.take(i as int) + seq![p]);
                lemma_display_entries_concat(view.take(i as int), seq![p]);
                assert(seq![p].drop_first() =~= Seq::<(Seq<char>, Seq<char>)>::empty());
                assert(display_entries_text(Seq::<(Seq<char>, Seq<char>)>::empty())
                    == Seq::<char>::empty());
                assert(display_entries_text(seq![p]) =~= "=> "@ + p.0 + ": "@ + p.1 + seq!['\n']);
                assert(out@ =~= head + display_entries_text(view.take(i as int))
                    + display_entries_text(seq![p]));
            }
            i = i + 1;
        }
        out.append("=====================\n");
        proof {
            assert(view.take(self.info@.len() as int) =~= view);
            assert(out@ =~= display_text(self@));
        }
        out
    }

    /// The listing as held, for this crate's own renderers.
    pub(crate) fn entries_ref(&self) -> (r: &Vec<(String, String)>)
        ensures
            pairs_view(r@) == self@.entries,
    {
        &self.info
    }
}

/// Construction invariant: the listing built from a template list has
/// unique names, holds a name exactly when some template bears it, and
/// pairs it with the description of the last template of that name.
pub proof fn lemma_construction_exact(ts: Seq<Template>, k: Seq<char>)
    ensures
        entries_unique(entries_of(templates_view(ts))),
        has_key(entries_of(templates_view(ts)), k) <==> exists|i: int|
            0 <= i < ts.len() && (#[trigger] ts[i]).name@ == k,
        has_key(entries_of(templates_view(ts)), k) ==> value_of(entries_of(templates_view(ts)), k)
            == last_value(templates_view(ts), k),
{
    let tv = templates_view(ts);
    lemma_entries_of_unique(tv);
    lemma_entries_of_key(tv, k);
    if exists|i: int| 0 <= i < tv.len() && (#[trigger] tv[i]).0 == k {
        let i = choose|i: int| 0 <= i < tv.len() && (#[trigger] tv[i]).0 == k;
        assert(ts[i].name@ == k);
    }
    if exists|i: int| 0 <= i < ts.len() && (#[trigger] ts[i]).name@ == k {
        let i = choose|i: int| 0 <= i < ts.len() && (#[trigger] ts[i]).name@ == k;
        assert(tv[i].0 == k);
    }
}

/// The canonical name of the raw registry file a caller downloads to.
pub fn repo_file_name() -> (r: &'static str)
    ensures
        r@ == "repo.toml"@,
{
    "repo.toml"
}

} // verus!
