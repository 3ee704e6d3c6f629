use texcreate_repo::{Error, Repo, Template, repo_file_name};

fn tpl(name: &str, description: &str) -> Template {
    Template { name: name.to_string(), description: description.to_string() }
}

fn sample_repo() -> Repo {
    Repo::new(3, &vec![tpl("basic", "A basic template"), tpl("article", "An article template")])
}

#[test]
fn construction_sets_count_and_entries() {
    let r = sample_repo();
    assert_eq!(r.version(), 3);
    assert_eq!(r.num(), 2);
    let info = r.info();
    assert_eq!(
        info,
        vec![
            ("basic".to_string(), "A basic template".to_string()),
            ("article".to_string(), "An article template".to_string()),
        ]
    );
}

#[test]
fn construction_later_duplicate_overwrites() {
    let r = Repo::new(
        9,
        &vec![tpl("a", "first"), tpl("b", "second"), tpl("a", "third")],
    );
    // the advertised count is the number of templates given, duplicates included
    assert_eq!(r.num(), 3);
    let info = r.info();
    assert_eq!(
        info,
        vec![("a".to_string(), "third".to_string()), ("b".to_string(), "second".to_string())]
    );
}

#[test]
fn lookup_is_exact_and_case_sensitive() {
    let r = sample_repo();
    assert!(r.template_exist("basic"));
    assert!(r.template_exist("article"));
    assert!(!r.template_exist("Basic"));
    assert!(!r.template_exist("basi"));
    assert!(!r.template_exist(""));
}

#[test]
fn info_returns_independent_copy() {
    let r = sample_repo();
    let mut copy = r.info();
    copy.clear();
    assert_eq!(r.info().len(), 2);
    assert!(r.template_exist("basic"));
}

#[test]
fn to_string_is_canonical() {
    let r = sample_repo();
    assert_eq!(
        r.to_string(),
        "current_vers = 3\nnum = 2\n[info]\n\"basic\" = \"A basic template\"\n\"article\" = \"An article template\"\n"
    );
}

#[test]
fn round_trip_plain() {
    let r = sample_repo();
    let back = Repo::from_string(&r.to_string()).unwrap();
    assert_eq!(back.version(), r.version());
    assert_eq!(back.num(), r.num());
    assert_eq!(back.info(), r.info());
}

#[test]
fn round_trip_special_characters() {
    let r = Repo::new(
        1,
        &vec![
            tpl("quo\"te", "has \"quotes\" inside"),
            tpl("back\\slash", "a \\ and a\nnewline"),
            tpl("", "empty name"),
        ],
    );
    let text = r.to_string();
    let back = Repo::from_string(&text).unwrap();
    assert_eq!(back.version(), 1);
    assert_eq!(back.num(), 3);
    assert_eq!(back.info(), r.info());
    assert!(back.template_exist("quo\"te"));
    assert!(back.template_exist("back\\slash"));
    assert!(back.template_exist(""));
}

#[test]
fn round_trip_extreme_versions() {
    let r = Repo::new(0, &vec![]);
    let back = Repo::from_string(&r.to_string()).unwrap();
    assert_eq!(back.version(), 0);
    assert_eq!(back.num(), 0);
    assert_eq!(back.info(), vec![]);

    let big = Repo::new(u64::MAX, &vec![tpl("x", "y")]);
    let back = Repo::from_string(&big.to_string()).unwrap();
    assert_eq!(back.version(), u64::MAX);
}

#[test]
fn from_string_parses_handwritten_text() {
    let text = "current_vers = 12\nnum = 1\n[info]\n\"letter\" = \"A letter template\"\n";
    let r = Repo::from_string(text).unwrap();
    assert_eq!(r.version(), 12);
    assert_eq!(r.num(), 1);
    assert!(r.template_exist("letter"));
    assert_eq!(r.to_string(), text);
}

#[test]
fn from_string_keeps_stored_count_as_written() {
    // the advertised count is not validated against the listing's length
    let text = "current_vers = 1\nnum = 7\n[info]\n\"only\" = \"one entry\"\n";
    let r = Repo::from_string(text).unwrap();
    assert_eq!(r.num(), 7);
    assert_eq!(r.info().len(), 1);
}

#[test]
fn from_string_rejects_malformed_text() {
    let cases = [
        "",
        "current_vers = 3",
        "current_vers = 3\n",
        "current_vers = 3\nnum = 2\n",
        "current_vers = 3\nnum = 2\n[info]\n\"basic\" = \"A basic",
        "current_vers = 3\nnum = 2\n[info]\n\"basic\" = A\n",
        "current_vers = 03\nnum = 2\n[info]\n",
        "current_vers = -3\nnum = 2\n[info]\n",
        "current_vers = 18446744073709551616\nnum = 0\n[info]\n",
        "num = 2\ncurrent_vers = 3\n[info]\n",
        "current_vers = 3\nnum = 2\n[info]\n\"a\" = \"x\"\n\"a\" = \"y\"\n",
        "current_vers = 3\nnum = 2\n[info]\nstray\n",
        "current_vers = 3\nnum = 2\n[info]\n\"bad\\q\" = \"escape\"\n",
    ];
    for text in cases {
        assert_eq!(Repo::from_string(text).unwrap_err(), Error::Parse, "accepted: {text:?}");
    }
}

#[test]
fn from_string_accepts_largest_version() {
    let text = "current_vers = 18446744073709551615\nnum = 0\n[info]\n";
    let r = Repo::from_string(text).unwrap();
    assert_eq!(r.version(), u64::MAX);
}

#[test]
fn display_string_lists_entries() {
    let r = sample_repo();
    assert_eq!(
        r.display_string(),
        "TexCreate Repo: v3\nNumber of Templates: 2\n======TEMPLATES======\n=> basic: A basic template\n=> article: An article template\n=====================\n"
    );
}

#[test]
fn repo_file_name_is_fixed() {
    assert_eq!(repo_file_name(), "repo.toml");
}

#[test]
fn error_kinds_are_distinct() {
    assert_ne!(Error::Network, Error::Parse);
    assert_ne!(Error::Parse, Error::Io);
    assert_ne!(Error::Network, Error::Io);
    assert_eq!(Error::Parse.describe(), "malformed structured text");
}
