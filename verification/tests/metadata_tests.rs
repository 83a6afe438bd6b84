use journal_pages::metadata::{Embedded, Filters, Link, Metadata, ParseError};

#[test]
fn entry_splits_at_the_first_separator() {
    assert_eq!(
        Metadata::from_str("month:: [[2024/September]]"),
        Ok(Metadata::new("month", "[[2024/September]]"))
    );
    assert_eq!(Metadata::from_str("a:: b:: c"), Ok(Metadata::new("a", "b:: c")));
    assert_eq!(Metadata::from_str(":: "), Ok(Metadata::new("", "")));
    assert_eq!(Metadata::from_str("key:: "), Ok(Metadata::new("key", "")));
    assert_eq!(Metadata::from_str("a::: b"), Ok(Metadata::new("a:", "b")));
}

#[test]
fn entry_without_separator_is_malformed() {
    for line in ["", "key", "key::", "key::value", "key: : value"] {
        assert_eq!(
            Metadata::from_str(line),
            Err(ParseError::MalformedMetadataLine { line: line.to_string() })
        );
    }
}

#[test]
fn entry_as_a_line() {
    assert_eq!(Metadata::new("week", "yes").to_string(), "week:: yes");
    assert_eq!(Metadata::new("", "").to_string(), ":: ");
    let line = "filters:: {\"month\" false}";
    assert_eq!(Metadata::from_str(line).unwrap().to_string(), line);
}

#[test]
fn update_takes_the_value_and_keeps_the_key() {
    let mut m = Metadata::new("next", "[[2024/October]]");
    m.update(Metadata::new("other", "[[2024/November]]"));
    assert_eq!(m, Metadata::new("next", "[[2024/November]]"));
}

#[test]
fn error_message_quotes_the_line() {
    let e = ParseError::MalformedMetadataLine { line: "oops".to_string() };
    assert_eq!(e.message(), "metadata line without separator: oops");
}

#[test]
fn link_and_embedding() {
    let link = Link::new("2024/September");
    assert_eq!(link.name, "2024/September");
    assert_eq!(link.to_string(), "[[2024/September]]");
    assert_eq!(
        link.to_metadata("month"),
        Metadata::new("month", "[[2024/September]]")
    );
    let embedded: Embedded = link.clone().into_embedded();
    assert_eq!(embedded.link, link);
    assert_eq!(embedded.to_string(), "{{embed [[2024/September]]}}");
    assert_eq!(Link::new("").into_embedded().to_string(), "{{embed [[]]}}");
}

#[test]
fn filters_as_an_entry() {
    assert_eq!(
        Filters::new().to_metadata(),
        Metadata::new("filters", "{}")
    );
    assert_eq!(
        Filters::new().push("month", false).to_metadata(),
        Metadata::new("filters", "{\"month\" false}")
    );
    assert_eq!(
        Filters::new().push("week", false).push("month", true).to_metadata(),
        Metadata::new("filters", "{\"week\" false, \"month\" true}")
    );
    assert_eq!(
        Filters::new().push("a", true).push("b", true).push("c", false).to_metadata().to_string(),
        "filters:: {\"a\" true, \"b\" true, \"c\" false}"
    );
}
