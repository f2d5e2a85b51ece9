use obsidian_rs::data::{
    apply_title_default, file_name, file_stem, split_front_matter, stem_of, FrontMatter,
    FrontMatterError,
};

fn lines(raw: &[&str]) -> Vec<String> {
    raw.iter().map(|s| s.to_string()).collect()
}

fn bare() -> FrontMatter {
    FrontMatter {
        title: None,
        github: None,
        created: None,
        tags: None,
        authors: None,
    }
}

#[test]
fn document_without_opening_delimiter_has_no_front_matter() {
    let doc = lines(&["# heading", "body"]);
    assert_eq!(split_front_matter(&doc), Ok(None));
}

#[test]
fn empty_document_has_no_front_matter() {
    let doc: Vec<String> = Vec::new();
    assert_eq!(split_front_matter(&doc), Ok(None));
}

#[test]
fn front_matter_block_is_framed() {
    let doc = lines(&["---", "title: Alpha", "tags: [a, b]", "---", "body"]);
    assert_eq!(
        split_front_matter(&doc),
        Ok(Some(String::from("title: Alpha\ntags: [a, b]\n")))
    );
}

#[test]
fn delimiter_tolerates_surrounding_blanks() {
    let doc = lines(&["  --- \t", "title: Alpha", " ---"]);
    assert_eq!(
        split_front_matter(&doc),
        Ok(Some(String::from("title: Alpha\n")))
    );
}

#[test]
fn blank_block_counts_as_no_front_matter() {
    let doc = lines(&["---", "   ", "", "---", "body"]);
    assert_eq!(split_front_matter(&doc), Ok(None));
}

#[test]
fn unclosed_block_is_malformed() {
    let doc = lines(&["---", "title: Alpha", "body goes on"]);
    assert_eq!(
        split_front_matter(&doc),
        Err(FrontMatterError::MissingClosingDelimiter)
    );
}

#[test]
fn file_name_takes_the_final_component() {
    assert_eq!(file_name("/vault/notes/a.md"), Some(String::from("a.md")));
    assert_eq!(file_name("a.md"), Some(String::from("a.md")));
    assert_eq!(file_name("/vault/notes/"), Some(String::from("notes")));
    assert_eq!(file_name("/"), None);
    assert_eq!(file_name(""), None);
}

#[test]
fn stem_cuts_at_the_last_dot() {
    assert_eq!(stem_of("a.md"), "a");
    assert_eq!(stem_of("archive.tar.gz"), "archive.tar");
    assert_eq!(stem_of("README"), "README");
    assert_eq!(stem_of(".gitignore"), ".gitignore");
}

#[test]
fn file_stem_combines_both() {
    assert_eq!(file_stem("/vault/notes/a.md"), Some(String::from("a")));
    assert_eq!(file_stem("/"), None);
}

#[test]
fn missing_title_falls_back_to_the_file_stem() {
    let fm = apply_title_default(bare(), "/vault/note.md");
    assert_eq!(fm.title, Some(String::from("note")));
}

#[test]
fn present_title_is_kept() {
    let mut with_title = bare();
    with_title.title = Some(String::from("Alpha"));
    let fm = apply_title_default(with_title, "/vault/note.md");
    assert_eq!(fm.title, Some(String::from("Alpha")));
}

#[test]
fn display_string_lists_present_fields() {
    let fm = FrontMatter {
        title: Some(String::from("Alpha")),
        github: Some(String::from("octo/alpha")),
        created: Some(vec![String::from("2023-01-01")]),
        tags: Some(vec![String::from("a"), String::from("b")]),
        authors: Some(Vec::new()),
    };
    assert_eq!(
        fm.display_string(),
        "Title: Alpha\ngithub: octo/alpha\nCreated: 2023-01-01\nTags: a, b"
    );
}

#[test]
fn display_string_of_empty_front_matter_is_empty() {
    assert_eq!(bare().display_string(), "");
}
