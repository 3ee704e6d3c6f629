use texcreate_repo::{Error, Repo, Template};
use texcreate_repo::release::{Release, release_note_file_name};

fn tpl(name: &str, description: &str) -> Template {
    Template { name: name.to_string(), description: description.to_string() }
}

const DESCRIPTOR: &str = "min_texc = \"1.0\"\ntexc_vers = \"2.1\"\ndescription = \"Bug fixes.\"\nrepo = \"repo.toml\"\n";

#[test]
fn descriptor_parses_into_fields() {
    let rel = Release::from_string(DESCRIPTOR).unwrap();
    assert_eq!(rel.min_texc().as_str(), "1.0");
    assert_eq!(rel.texc_vers().as_str(), "2.1");
    assert_eq!(rel.description().as_str(), "Bug fixes.");
    assert_eq!(rel.repo().as_str(), "repo.toml");
}

#[test]
fn descriptor_rejects_malformed_text() {
    let cases = [
        "",
        "min_texc = \"1.0\"\n",
        "min_texc = \"1.0\"\ntexc_vers = \"2.1\"\ndescription = \"d\"\n",
        "min_texc = \"1.0\"\ntexc_vers = \"2.1\"\ndescription = \"d\"\nrepo = \"r\"",
        "min_texc = \"1.0\"\ntexc_vers = \"2.1\"\ndescription = \"d\"\nrepo = \"r\"\nextra\n",
        "min_texc = 1.0\ntexc_vers = \"2.1\"\ndescription = \"d\"\nrepo = \"r\"\n",
        "repo = \"r\"\nmin_texc = \"1.0\"\ntexc_vers = \"2.1\"\ndescription = \"d\"\n",
    ];
    for text in cases {
        assert_eq!(Release::from_string(text).unwrap_err(), Error::Parse, "accepted: {text:?}");
    }
}

#[test]
fn specification_block_layout() {
    let rel = Release::from_string(DESCRIPTOR).unwrap();
    assert_eq!(
        rel.build_specification(3),
        "# Specifications of Release 3  \n- Minimum TexCreate Version: v1.0\n- TexCore Version: v2.1"
    );
}

#[test]
fn description_block_layout() {
    let rel = Release::from_string(DESCRIPTOR).unwrap();
    assert_eq!(rel.build_description(), "# Description:  \nBug fixes.");
}

#[test]
fn repo_info_block_layout() {
    let rel = Release::from_string(DESCRIPTOR).unwrap();
    let repo = Repo::new(
        3,
        &vec![tpl("basic", "A basic template"), tpl("article", "An article template")],
    );
    assert_eq!(
        rel.build_repo_info(&repo),
        "# Repo Information  \nNumber of Templates: 2\nTemplates: \n- basic: A basic template\n- article: An article template"
    );
}

#[test]
fn release_note_file_name_from_version() {
    assert_eq!(release_note_file_name(7), "v7-release_note.md");
    assert_eq!(release_note_file_name(0), "v0-release_note.md");
}

#[test]
fn end_to_end_note_for_version_three() {
    let repo = Repo::new(
        3,
        &vec![tpl("basic", "A basic template"), tpl("article", "An article template")],
    );
    // the descriptor references the registry's serialized form; here the
    // registry text round-trips through the same format the descriptor names
    let registry_text = repo.to_string();
    let loaded = Repo::from_string(&registry_text).unwrap();
    let rel = Release::from_string(DESCRIPTOR).unwrap();

    assert_eq!(release_note_file_name(loaded.version()), "v3-release_note.md");
    let note = rel.build_note(&loaded);
    let expected = "# Specifications of Release 3  \n- Minimum TexCreate Version: v1.0\n- TexCore Version: v2.1\n# Description:  \nBug fixes.\n# Repo Information  \nNumber of Templates: 2\nTemplates: \n- basic: A basic template\n- article: An article template";
    assert_eq!(note, expected);
}

#[test]
fn note_embeds_descriptor_fields_verbatim() {
    let text = "min_texc = \"0.9-beta\"\ntexc_vers = \"4.2\"\ndescription = \"Line one.\\nLine two.\"\nrepo = \"elsewhere/repo.toml\"\n";
    let rel = Release::from_string(text).unwrap();
    assert_eq!(rel.description().as_str(), "Line one.\nLine two.");
    let repo = Repo::new(5, &vec![]);
    let note = rel.build_note(&repo);
    assert!(note.contains("# Specifications of Release 5  "));
    assert!(note.contains("- Minimum TexCreate Version: v0.9-beta"));
    assert!(note.contains("- TexCore Version: v4.2"));
    assert!(note.contains("Line one.\nLine two."));
    assert!(note.contains("Number of Templates: 0"));
}
