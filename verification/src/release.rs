//! Generating release notes: a release descriptor parsed from structured
//! text, and the assembly of a Markdown document from it and a registry.

use vstd::prelude::*;

use crate::Error;
use crate::Repo;
use crate::RepoModel;
use crate::decimal::{dec_digits, u64_to_string};
use crate::entries::pairs_view;
use crate::quoted::parse_quoted;
use crate::quoted::parse_quoted_exec;
use crate::text::{has_at, expect_lit};
use vstd::string::StrSliceExecFns;
use vstd::string::StringExecFns;

verus! {

/// What a [`Release`] holds: the two version strings, the free-text
/// description, and the path of the registry the release describes.
#[verifier::ext_equal]
pub ghost struct ReleaseModel {
    /// Minimum TexCreate version the release asks for (documentary).
    pub min_texc: Seq<char>,
    /// TexCore version the release was built with (documentary).
    pub texc_vers: Seq<char>,
    /// Free-form description, embedded verbatim into the note.
    pub description: Seq<char>,
    /// Where the serialized registry of this release can be loaded from.
    pub repo: Seq<char>,
}

/// A release descriptor: the version strings and description a release
/// note is assembled from, and the location of the registry it describes.
#[derive(Debug)]
pub struct Release {
    min_texc: String,
    texc_vers: String,
    description: String,
    repo: String,
}

impl View for Release {
    type V = ReleaseModel;

    closed spec fn view(&self) -> ReleaseModel {
        ReleaseModel {
            min_texc: self.min_texc@,
            texc_vers: self.texc_vers@,
            description: self.description@,
            repo: self.repo@,
        }
    }
}

/// The descriptor a structured text denotes, if it is well-formed: four
/// quoted fields, one per line, in the fixed order `min_texc`,
/// `texc_vers`, `description`, `repo`, with nothing after them.
pub open spec fn parse_release(s: Seq<char>) -> Option<ReleaseModel> {
    if !has_at(s, 0, "min_texc = \""@) {
        None
    } else {
        match parse_quoted(s, "min_texc = \""@.len() as int) {
            None => None,
            Some(mp) => if !(mp.1 < s.len() && s[mp.1] == '\n') {
                None
            } else if !has_at(s, mp.1 + 1, "texc_vers = \""@) {
                None
            } else {
                match parse_quoted(s, mp.1 + 1 + "texc_vers = \""@.len()) {
                    None => None,
                    Some(tp) => if !(tp.1 < s.len() && s[tp.1] == '\n') {
                        None
                    } else if !has_at(s, tp.1 + 1, "description = \""@) {
                        None
                    } else {
                        match parse_quoted(s, tp.1 + 1 + "description = \""@.len()) {
                            None => None,
                            Some(dp) => if !(dp.1 < s.len() && s[dp.1] == '\n') {
                                None
                            } else if !has_at(s, dp.1 + 1, "repo = \""@) {
                                None
                            } else {
                                match parse_quoted(s, dp.1 + 1 + "repo = \""@.len()) {
                                    None => None,
                                    Some(rp) => if rp.1 + 1 == s.len() && s[rp.1] == '\n' {
                                        Some(
                                            ReleaseModel {
                                                min_texc: mp.0,
                                                texc_vers: tp.0,
                                                description: dp.0,
                                                repo: rp.0,
                                            },
                                        )
                                    } else {
                                        None
                                    },
                                }
                            },
                        }
                    },
                }
            },
        }
    }
}

/// The specification block of a release note: a heading with the release
/// number, then the minimum TexCreate version and the TexCore version,
/// each prefixed with a `v`.
pub open spec fn specification_text(m: ReleaseModel, release: u64) -> Seq<char> {
    "# Specifications of Release "@ + dec_digits(release as nat)
        + "  \n- Minimum TexCreate Version: v"@ + m.min_texc + "\n- TexCore Version: v"@
        + m.texc_vers
}

/// The description block of a release note: a fixed heading, then the
/// descriptor's description verbatim.
pub open spec fn description_text(m: ReleaseModel) -> Seq<char> {
    "# Description:  \n"@ + m.description
}

/// The entry lines of the registry-information block: one `- name:
/// description` line per entry, in order, each on a fresh line.
pub open spec fn repo_info_entries(es: Seq<(Seq<char>, Seq<char>)>) -> Seq<char>
    decreases es.len(),
{
    if es.len() == 0 {
        Seq::empty()
    } else {
        seq!['\n', '-', ' '] + es[0].0 + ": "@ + es[0].1 + repo_info_entries(es.drop_first())
    }
}

/// The registry-information lines of a concatenation are the
/// concatenation of the lines.
pub proof fn lemma_repo_info_entries_concat(
    a: Seq<(Seq<char>, Seq<char>)>,
    b: Seq<(Seq<char>, Seq<char>)>,
)
    ensures
        repo_info_entries(a + b) == repo_info_entries(a) + repo_info_entries(b),
    decreases a.len(),
{
    if a.len() == 0 {
        assert(a + b =~= b);
        assert(repo_info_entries(a) + repo_info_entries(b) =~= repo_info_entries(b));
    } else {
        assert((a + b).drop_first() =~= a.drop_first() + b);
        assert((a + b)[0] == a[0]);
        lemma_repo_info_entries_concat(a.drop_first(), b);
        assert(seq!['\n', '-', ' '] + a[0].0 + ": "@ + a[0].1 + (repo_info_entries(a.drop_first())
            + repo_info_entries(b)) =~= (seq!['\n', '-', ' '] + a[0].0 + ": "@ + a[0].1
            + repo_info_entries(a.drop_first())) + repo_info_entries(b));
    }
}

/// The registry-information block of a release note: a fixed heading, the
/// advertised template count, a `Templates:` line, then one line per
/// entry.
pub open spec fn repo_info_text(rm: RepoModel) -> Seq<char> {
    "# Repo Information  \nNumber of Templates: "@ + dec_digits(rm.num as nat) + "\nTemplates: "@
        + repo_info_entries(rm.entries)
}

/// A whole release note: the specification, description and
/// registry-information blocks, joined by newlines, in that fixed order.
pub open spec fn release_note_text(m: ReleaseModel, rm: RepoModel) -> Seq<char> {
    specification_text(m, rm.current_vers) + seq!['\n'] + description_text(m) + seq!['\n']
        + repo_info_text(rm)
}

/// The name of the file a release note is written to: the registry's
/// version between `v` and `-release_note.md`.
pub open spec fn release_note_file_text(version: u64) -> Seq<char> {
    "v"@ + dec_digits(version as nat) + "-release_note.md"@
}

impl Release {
    /// Creates a `Release` from its structured text; fails with
    /// [`Error::Parse`] exactly when the text is not a well-formed
    /// descriptor.
    pub fn from_string(s: &str) -> (r: Result<Release, Error>)
        ensures
            match r {
                Ok(rel) => parse_release(s@) == Some(rel@),
                Err(e) => parse_release(s@) is None && e == Error::Parse,
            },
    {
        let len = s.unicode_len();
        if !expect_lit(s, 0, len, "min_texc = \"") {
            return Err(Error::Parse);
        }
        let h1 = "min_texc = \"".unicode_len();
        let mp = match parse_quoted_exec(s, h1, len) {
            Some(p) => p,
            None => {
                return Err(Error::Parse);
            },
        };
        if mp.1 >= len || s.get_char(mp.1) != '\n' {
            return Err(Error::Parse);
        }
        if !expect_lit(s, mp.1 + 1, len, "texc_vers = \"") {
            return Err(Error::Parse);
        }
        let h2 = "texc_vers = \"".unicode_len();
        let tp = match parse_quoted_exec(s, mp.1 + 1 + h2, len) {
            Some(p) => p,
            None => {
                return Err(Error::Parse);
            },
        };
        if tp.1 >= len || s.get_char(tp.1) != '\n' {
            return Err(Error::Parse);
        }
        if !expect_lit(s, tp.1 + 1, len, "description = \"") {
            return Err(Error::Parse);
        }
        let h3 = "description = \"".unicode_len();
        let dp = match parse_quoted_exec(s, tp.1 + 1 + h3, len) {
            Some(p) => p,
            None => {
                return Err(Error::Parse);
            },
        };
        if dp.1 >= len || s.get_char(dp.1) != '\n' {
            return Err(Error::Parse);
        }
        if !expect_lit(s, dp.1 + 1, len, "repo = \"") {
            return Err(Error::Parse);
        }
        let h4 = "repo = \"".unicode_len();
        let rp = match parse_quoted_exec(s, dp.1 + 1 + h4, len) {
            Some(p) => p,
            None => {
                return Err(Error::Parse);
            },
        };
        if !(rp.1 == len - 1 && s.get_char(rp.1) == '\n') {
            return Err(Error::Parse);
        }
        Ok(
            Release {
                min_texc: mp.0,
                texc_vers: tp.0,
                description: dp.0,
                repo: rp.0,
            },
        )
    }

    /// The minimum TexCreate version the release asks for.
    pub fn min_texc(&self) -> (r: &String)
        ensures
            r@ == self@.min_texc,
    {
        &self.min_texc
    }

    /// The TexCore version the release was built with.
    pub fn texc_vers(&self) -> (r: &String)
        ensures
            r@ == self@.texc_vers,
    {
        &self.texc_vers
    }

    /// The release's free-form description.
    pub fn description(&self) -> (r: &String)
        ensures
            r@ == self@.description,
    {
        &self.description
    }

    /// Where the serialized registry of this release is to be loaded from.
    pub fn repo(&self) -> (r: &String)
        ensures
            r@ == self@.repo,
    {
        &self.repo
    }

    /// Builds the specification block for the given release number, as
    /// [`specification_text`] lays it out.
    pub fn build_specification(&self, release: u64) -> (r: String)
        ensures
            r@ == specification_text(self@, release),
    {
        let mut out = String::new();
        out.append("# Specifications of Release ");
        out.append(u64_to_string(release).as_str());
        out.append("  \n- Minimum TexCreate Version: v");
        out.append(self.min_texc.as_str());
        out.append("\n- TexCore Version: v");
        out.append(self.texc_vers.as_str());
        proof {
            assert(out@ =~= specification_text(self@, release));
        }
        out
    }

    /// Builds the description block, as [`description_text`] lays it out.
    pub fn build_description(&self) -> (r: String)
        ensures
            r@ == description_text(self@),
    {
        let mut out = String::new();
        out.append("# Description:  \n");
        out.append(self.description.as_str());
        proof {
            assert(out@ =~= description_text(self@));
        }
        out
    }

    /// Builds the registry-information block of the given registry, as
    /// [`repo_info_text`] lays it out.
    pub fn build_repo_info(&self, repo: &Repo) -> (r: String)
        ensures
            r@ == repo_info_text(repo@),
    {
        proof {
            reveal_strlit("\n- ");
            assert("\n- "@ =~= seq!['\n', '-', ' ']);
        }
        let mut out = String::new();
        out.append("# Repo Information  \nNumber of Templates: ");
        out.append(u64_to_string(repo.num()).as_str());
        out.append("\nTemplates: ");
        let es = repo.entries_ref();
        let ghost head = out@;
        let ghost view = pairs_view(es@);
        let mut i: usize = 0;
        while i < es.len()
            invariant
                i <= es@.len(),
                view == pairs_view(es@),
                view.len() == es@.len(),
                out@ == head + repo_info_entries(view.take(i as int)),
                "\n- "@ == seq!['\n', '-', ' '],
            decreases es@.len() - i,
        {
            out.append("\n- ");
            out.append(es[i].0.as_str());
            out.append(": ");
            out.append(es[i].1.as_str());
            proof {
                let p = view[i as int];
                assert(p == (es@[i as int].0@, es@[i as int].1@));
                assert(view.take(i + 1) =~= view.take(i as int) + seq![p]);
                lemma_repo_info_entries_concat(view.take(i as int), seq![p]);
                assert(seq![p].drop_first() =~= Seq::<(Seq<char>, Seq<char>)>::empty());
                assert(repo_info_entries(Seq::<(Seq<char>, Seq<char>)>::empty())
                    == Seq::<char>::empty());
                assert(repo_info_entries(seq![p]) =~= seq!['\n', '-', ' '] + p.0 + ": "@ + p.1);
                assert(out@ =~= head + repo_info_entries(view.take(i as int)) + repo_info_entries(
                    seq![p],
                ));
            }
            i = i + 1;
        }
        proof {
            assert(view.take(es@.len() as int) =~= view);
            assert(out@ =~= repo_info_text(repo@));
        }
        out
    }

    /// Assembles the whole release note for the given registry: the three
    /// blocks joined by newlines, as [`release_note_text`] lays it out.
    pub fn build_note(&self, repo: &Repo) -> (r: String)
        ensures
            r@ == release_note_text(self@, repo@),
    {
        proof {
            reveal_strlit("\n");
            assert("\n"@ =~= seq!['\n']);
        }
        let mut out = self.build_specification(repo.version());
        out.append("\n");
        let desc = self.build_description();
        out.append(desc.as_str());
        out.append("\n");
        let info = self.build_repo_info(repo);
        out.append(info.as_str());
        proof {
            assert(out@ =~= release_note_text(self@, repo@));
        }
        out
    }
}

/// Release document structure law: a release note consists of, in order
/// and separated by newlines, a `# Specifications of Release {version}`
/// heading, a line with the minimum TexCreate version, a line with the
/// TexCore version, a `# Description:` heading followed by the verbatim
/// description, a `# Repo Information` heading, a line with the advertised
/// template count, a `Templates:` line, and one `- name: description`
/// line per registry entry ([`repo_info_entries`]).
#[verifier::rlimit(50)]
pub proof fn lemma_release_note_structure(m: ReleaseModel, rm: RepoModel)
    ensures
        release_note_text(m, rm) == "# Specifications of Release "@ + dec_digits(
            rm.current_vers as nat,
        ) + "  "@ + seq!['\n'] + "- Minimum TexCreate Version: v"@ + m.min_texc + seq!['\n']
            + "- TexCore Version: v"@ + m.texc_vers + seq!['\n'] + "# Description:  "@
            + seq!['\n'] + m.description + seq!['\n'] + "# Repo Information  "@ + seq!['\n']
            + "Number of Templates: "@ + dec_digits(rm.num as nat) + seq!['\n'] + "Templates: "@
            + repo_info_entries(rm.entries),
{
    reveal_strlit("  \n- Minimum TexCreate Version: v");
    reveal_strlit("  ");
    reveal_strlit("- Minimum TexCreate Version: v");
    reveal_strlit("\n- TexCore Version: v");
    reveal_strlit("- TexCore Version: v");
    reveal_strlit("# Description:  \n");
    reveal_strlit("# Description:  ");
    reveal_strlit("# Repo Information  \nNumber of Templates: ");
    reveal_strlit("# Repo Information  ");
    reveal_strlit("Number of Templates: ");
    reveal_strlit("\nTemplates: ");
    reveal_strlit("Templates: ");
    assert("  \n- Minimum TexCreate Version: v"@ =~= "  "@ + seq!['\n']
        + "- Minimum TexCreate Version: v"@);
    assert("\n- TexCore Version: v"@ =~= seq!['\n'] + "- TexCore Version: v"@);
    assert("# Description:  \n"@ =~= "# Description:  "@ + seq!['\n']);
    assert("# Repo Information  \nNumber of Templates: "@ =~= "# Repo Information  "@
        + seq!['\n'] + "Number of Templates: "@);
    assert("\nTemplates: "@ =~= seq!['\n'] + "Templates: "@);
    assert(release_note_text(m, rm) =~= "# Specifications of Release "@ + dec_digits(
        rm.current_vers as nat,
    ) + "  "@ + seq!['\n'] + "- Minimum TexCreate Version: v"@ + m.min_texc + seq!['\n']
        + "- TexCore Version: v"@ + m.texc_vers + seq!['\n'] + "# Description:  "@ + seq!['\n']
        + m.description + seq!['\n'] + "# Repo Information  "@ + seq!['\n']
        + "Number of Templates: "@ + dec_digits(rm.num as nat) + seq!['\n'] + "Templates: "@
        + repo_info_entries(rm.entries));
}

/// The name of the file a release note for this registry version is
/// written to.
pub fn release_note_file_name(version: u64) -> (r: String)
    ensures
        r@ == release_note_file_text(version),
{
    let mut out = String::new();
    out.append("v");
    out.append(u64_to_string(version).as_str());
    out.append("-release_note.md");
    proof {
        assert(out@ =~= release_note_file_text(version));
    }
    out
}

} // verus!
