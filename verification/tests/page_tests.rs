use journal_pages::metadata::{Metadata, ParseError};
use journal_pages::page::{Content, Page};

const METADATA: &str = "month:: [[2024/September]]\nfilters:: {\"month\" false}\n";
const CONTENT: &str =
    "- TODO Something\n- DONE Something else\n  :LOGBOOK:\n  :END:\n- One other thing\n";

#[test]
fn page() {
    let first_text = format!("{}\n{}", METADATA, CONTENT);
    let page = Page::from_text("page.md", &first_text).unwrap();
    assert_eq!(page.to_string(), format!("{}\n-\n{}", METADATA, CONTENT));

    let second_text = "filters:: {\"month\" false}\nweek:: yes\n\n-\n- DONE Something else\n- TODO Something\n- One other thing\n";
    let second_page = Page::from_text("another page.md", second_text).unwrap();
    let final_page = second_page + page;
    assert_eq!(final_page.path(), "another page.md");
    assert_eq!(
        final_page.to_string(),
        "filters:: {\"month\" false}\nweek:: yes\nmonth:: [[2024/September]]\n\n-\n- DONE Something else\n- TODO Something\n- One other thing\n- DONE Something else\n  :LOGBOOK:\n  :END:\n"
    );
}

#[test]
fn parse_splits_header_and_outline() {
    let content = Content::from_str("a:: 1\nb:: x:: y\n\n- one\n  more\n\n- two\n").unwrap();
    assert_eq!(
        content.metadata(),
        &vec![Metadata::new("a", "1"), Metadata::new("b", "x:: y")]
    );
    assert_eq!(
        content.outline(),
        &vec!["- one\n  more\n".to_string(), "- two".to_string()]
    );
}

#[test]
fn parse_rejects_header_line_without_separator() {
    let r = Content::from_str("a:: 1\nnot an entry\nb:: 2\nalso bad\n- x\n");
    assert_eq!(
        r,
        Err(ParseError::MalformedMetadataLine { line: "not an entry".to_string() })
    );
}

fn content_of(metadata: &[(&str, &str)], outline: &[&str]) -> Content {
    let mut content = Content::new();
    for (key, value) in metadata {
        content.push_metadata(Metadata::new(key, value));
    }
    for entry in outline {
        content.push_entry(entry.to_string());
    }
    content
}

#[test]
fn full_file_merge() {
    let existing = content_of(
        &[("month", "[[2024/September]]")],
        &["- DONE Something else", "- TODO Something", "- One other thing"],
    );
    let fresh = content_of(
        &[("filters", "{\"month\" false}"), ("week", "yes")],
        &[
            "- TODO Something",
            "- DONE Something else\n  :LOGBOOK:\n  :END:",
            "- One other thing",
        ],
    );
    let merged = existing.combine(fresh);
    assert_eq!(
        merged,
        content_of(
            &[
                ("month", "[[2024/September]]"),
                ("filters", "{\"month\" false}"),
                ("week", "yes"),
            ],
            &[
                "- DONE Something else",
                "- TODO Something",
                "- One other thing",
                "- DONE Something else\n  :LOGBOOK:\n  :END:",
            ],
        )
    );
}

#[test]
fn empty_text_is_the_empty_content() {
    assert_eq!(Content::from_str(""), Ok(Content::new()));
    assert_eq!(Content::from_str("\n\n\n"), Ok(Content::new()));
    assert_eq!(Content::new().metadata().len(), 0);
    assert_eq!(Content::new().outline().len(), 0);
}

#[test]
fn header_without_outline() {
    assert_eq!(
        Content::from_str("a:: 1\n\nb:: 2"),
        Ok(content_of(&[("a", "1"), ("b", "2")], &[]))
    );
}

#[test]
fn header_keeps_entries_with_the_same_key() {
    assert_eq!(
        Content::from_str("a:: 1\na:: 2\n"),
        Ok(content_of(&[("a", "1"), ("a", "2")], &[]))
    );
}

#[test]
fn outline_opens_with_any_line_that_begins_with_a_dash() {
    assert_eq!(
        Content::from_str("-no space\n-still the first\n- second"),
        Ok(content_of(&[], &["-no space\n-still the first", "- second"]))
    );
    assert_eq!(
        Content::from_str("-\n- a\n"),
        Ok(content_of(&[], &["-", "- a"]))
    );
}

#[test]
fn outline_keeps_blank_and_header_like_lines() {
    assert_eq!(
        Content::from_str("- a\n\nkey:: value\nplain\n-\n- b\n\n"),
        Ok(content_of(&[], &["- a\n\nkey:: value\nplain\n-", "- b\n"]))
    );
}

#[test]
fn carriage_returns_before_line_feeds_are_dropped() {
    assert_eq!(
        Content::from_str("a:: 1\r\n\r\n- x\r\n  y\r\n"),
        Ok(content_of(&[("a", "1")], &["- x\n  y"]))
    );
}

#[test]
fn first_malformed_line_is_reported() {
    assert_eq!(
        Content::from_str("one\ntwo\n"),
        Err(ParseError::MalformedMetadataLine { line: "one".to_string() })
    );
    assert_eq!(
        Page::from_text("p.md", "a:: 1\n\nb::2\n- x").unwrap_err(),
        ParseError::MalformedMetadataLine { line: "b::2".to_string() }
    );
    // Once the outline has begun, nothing is a metadata line.
    assert!(Content::from_str("- x\nno separator here\n").is_ok());
}

#[test]
fn writing_the_empty_content() {
    assert_eq!(Content::new().to_string(), "\n");
}

#[test]
fn writing_a_header_alone() {
    assert_eq!(
        content_of(&[("a", "1"), ("b", "2")], &[]).to_string(),
        "a:: 1\nb:: 2\n\n"
    );
}

#[test]
fn writing_puts_a_bare_bullet_before_the_outline() {
    assert_eq!(content_of(&[], &["- a", "- b"]).to_string(), "\n-\n- a\n- b\n");
    assert_eq!(
        content_of(&[("k", "v")], &["- a\n  more"]).to_string(),
        "k:: v\n\n-\n- a\n  more\n"
    );
}

#[test]
fn writing_does_not_repeat_the_bare_bullet() {
    assert_eq!(content_of(&[], &["-", "- a"]).to_string(), "\n-\n- a\n");
    assert_eq!(content_of(&[], &["-"]).to_string(), "\n-\n");
    // Only the first entry counts.
    assert_eq!(content_of(&[], &["- a", "-"]).to_string(), "\n-\n- a\n-\n");
    // A first entry that only begins like the bare bullet is not one.
    assert_eq!(content_of(&[], &["- "]).to_string(), "\n-\n- \n");
    assert_eq!(content_of(&[], &["-\nx"]).to_string(), "\n-\n-\nx\n");
}

#[test]
fn reading_back_what_was_written() {
    let text = "a:: 1\nfilters:: {\"month\" false}\n\n- one\n  nested\n\n  more\n- two\n";
    let content = Content::from_str(text).unwrap();
    let written = content.to_string();
    assert_eq!(
        written,
        "a:: 1\nfilters:: {\"month\" false}\n\n-\n- one\n  nested\n\n  more\n- two\n"
    );
    let again = Content::from_str(&written).unwrap();
    assert_eq!(again.metadata(), content.metadata());
    assert_eq!(again.outline()[0], "-");
    assert_eq!(&again.outline()[1..], &content.outline()[..]);
    // From then on nothing changes.
    assert_eq!(again.to_string(), written);
    assert_eq!(Content::from_str(&again.to_string()), Ok(again));
}

#[test]
fn reading_back_a_text_that_opens_with_the_bare_bullet() {
    let text = "k:: v\n\n-\n- a\n- b\n";
    let content = Content::from_str(text).unwrap();
    assert_eq!(content.to_string(), text);
    assert_eq!(Content::from_str(&content.to_string()), Ok(content));
}

#[test]
fn reading_back_fails_where_a_line_ends_in_a_carriage_return() {
    let content = Content::from_str("- a\r").unwrap();
    assert_eq!(content.outline(), &vec!["- a\r".to_string()]);
    let again = Content::from_str(&content.to_string()).unwrap();
    assert_eq!(again.outline(), &vec!["-".to_string(), "- a".to_string()]);
}

#[test]
fn reading_back_fails_where_the_outline_opens_without_the_marker() {
    let content = Content::from_str("-foo").unwrap();
    assert_eq!(content.outline(), &vec!["-foo".to_string()]);
    let again = Content::from_str(&content.to_string()).unwrap();
    assert_eq!(again.outline(), &vec!["-\n-foo".to_string()]);
}

#[test]
fn combining_with_itself_changes_nothing() {
    let content = content_of(
        &[("a", "1"), ("b", "2")],
        &["- x", "- y\n  z", "- x"],
    );
    assert_eq!(content.clone().combine(content.clone()), content);
    assert_eq!(content.clone() + content.clone(), content);
}

#[test]
fn combining_with_itself_where_a_key_stands_twice() {
    let content = content_of(&[("a", "1"), ("a", "2")], &[]);
    assert_eq!(
        content.clone().combine(content),
        content_of(&[("a", "2"), ("a", "2")], &[])
    );
}

#[test]
fn incoming_value_takes_the_place_of_the_old_one() {
    let base = content_of(
        &[("prev", "[[2024/July]]"), ("next", "[[2024/September]]"), ("note", "mine")],
        &[],
    );
    let incoming = content_of(
        &[("week", "yes"), ("next", "[[2024/October]]"), ("month", "m"), ("week", "no")],
        &[],
    );
    assert_eq!(
        base.combine(incoming),
        content_of(
            &[
                ("prev", "[[2024/July]]"),
                ("next", "[[2024/October]]"),
                ("note", "mine"),
                ("week", "no"),
                ("month", "m"),
            ],
            &[],
        )
    );
}

#[test]
fn incoming_entries_are_added_once_and_in_order() {
    let base = content_of(&[], &["- b", "- a", "- b"]);
    let incoming = content_of(&[], &["- c", "- a", "- d\n  x", "- c", "- d", "- d\n  x"]);
    assert_eq!(
        base.combine(incoming),
        content_of(&[], &["- b", "- a", "- b", "- c", "- d\n  x", "- d"])
    );
}

#[test]
fn pushing_to_a_page() {
    let mut page = Page::new("pages/x.md");
    assert_eq!(page.path(), "pages/x.md");
    assert_eq!(page.content(), &Content::new());
    page.push_content("{{embed [[2024-09-01]]}}");
    page.push_metadata(Metadata::new("next", "[[n]]"));
    page.push_content("");
    assert_eq!(
        page.content(),
        &content_of(&[("next", "[[n]]")], &["- {{embed [[2024-09-01]]}}", "- "])
    );
    assert_eq!(page.to_string(), "next:: [[n]]\n\n-\n- {{embed [[2024-09-01]]}}\n- \n");
}

#[test]
fn page_meets_the_file_that_is_there() {
    let mut fresh = Page::new("pages/x.md");
    fresh.push_metadata(Metadata::new("next", "[[new]]"));
    fresh.push_content("a");
    fresh.push_content("c");

    assert_eq!(fresh.clone().onto_existing(None), Ok(fresh.clone()));

    let merged = fresh
        .clone()
        .onto_existing(Some("prev:: [[p]]\nnext:: [[old]]\n\n-\n- b\n- a\n"))
        .unwrap();
    assert_eq!(merged.path(), "pages/x.md");
    assert_eq!(
        merged.to_string(),
        "prev:: [[p]]\nnext:: [[new]]\n\n-\n- b\n- a\n- c\n"
    );

    assert_eq!(
        fresh.onto_existing(Some("not a page\n")),
        Err(ParseError::MalformedMetadataLine { line: "not a page".to_string() })
    );
}

#[test]
fn combining_with_itself_where_a_key_stands_twice_with_one_value() {
    let content = content_of(&[("a", "1"), ("b", "2"), ("a", "1")], &["- x", "- x"]);
    assert_eq!(content.clone().combine(content.clone()), content);
}
