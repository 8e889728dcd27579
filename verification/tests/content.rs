use notevault::content::{CodeBlock, Content, Entry, Property};
use notevault::metadata::Metadata;

#[test]
fn basic_document() {
    let string = "Hello World\n";
    let content = Content::parse(string).unwrap();
    assert_eq!(content.properties.len(), 0);
    assert_eq!(content.entries.len(), 1);

    assert_eq!(string, content.render().as_str());
}

#[test]
fn adds_final_new_line() {
    let string = "Hello World";
    let content = Content::parse(string).unwrap();
    assert_eq!(content.properties.len(), 0);
    assert_eq!(content.entries.len(), 1);

    assert_eq!("Hello World\n", content.render().as_str());
}

#[test]
fn parse_block_code_as_single_entry() {
    let string = "```\nfoo\n```\n";
    let content = Content::parse(string).unwrap();
    assert_eq!(content.properties.len(), 0);
    assert_eq!(content.entries.len(), 1);

    let Entry::CodeBlock(ref code_block) = content.entries[0] else {
        panic!("code block not parsed as code block");
    };

    assert_eq!("", code_block.kind());
    assert_eq!("foo\n", code_block.code());

    assert_eq!(string, content.render().as_str());
}

#[test]
fn parse_toml_block_code_as_single_entry() {
    let string = "```toml\nfoo\n```\n";
    let content = Content::parse(string).unwrap();
    assert_eq!(content.properties.len(), 0);
    assert_eq!(content.entries.len(), 1);

    let Entry::CodeBlock(ref code_block) = content.entries[0] else {
        panic!("code block not parsed as code block");
    };

    assert_eq!("toml", code_block.kind());
    assert!(code_block.is_toml());
    assert_eq!("foo\n", code_block.code());

    assert_eq!(string, content.render().as_str());
}

#[test]
fn parse_multiple_entries_and_remove_initial_empty_lines() {
    let string = "\n\nHello World\n```toml\nBlock\n```\n\n- test\n- foo\n```sh\nfkjdlsk\n```\n";
    let content = Content::parse(string).unwrap();
    assert_eq!(content.properties.len(), 0);
    // The two leading blank lines are dropped when parsing; the blank line
    // inside the body is kept.
    assert_eq!(content.entries.len(), 6);

    assert_eq!(string, format!("\n\n{}", content.render()).as_str());
}

#[test]
fn parse_simple_metadata() {
    let string = "---\nfoo: bar\n---\n";
    let content = Content::parse(string).unwrap();
    assert_eq!(content.properties.len(), 1);
    assert_eq!(content.entries.len(), 0);
    assert_eq!(string, content.render().as_str());

    assert_eq!("foo", content.properties[0].key.as_str());
    assert_eq!("bar", content.properties[0].value.as_str());
}

#[test]
fn parse_multiple_metadata() {
    let string = "---\nfoo: bar\nbaz: 1\ndate: 2026-01-29\n---\n";
    let content = Content::parse(string).unwrap();
    assert_eq!(content.properties.len(), 3);
    assert_eq!(content.entries.len(), 0);
    assert_eq!(string, content.render().as_str());

    assert_eq!("foo", content.properties[0].key.as_str());
    assert_eq!("bar", content.properties[0].value.as_str());
    assert_eq!("baz", content.properties[1].key.as_str());
    assert_eq!("1", content.properties[1].value.as_str());
    assert_eq!("date", content.properties[2].key.as_str());
    assert_eq!("2026-01-29", content.properties[2].value.as_str());
}

#[test]
fn front_matter_must_be_a_mapping() {
    let string = "---\nnot a mapping\n---\n";
    assert!(Content::parse(string).is_err());
}

#[test]
fn front_matter_with_body() {
    let string = "---\nweek: yes\n---\n\n- DONE Something\n- TODO Something\n";
    let content = Content::parse(string).unwrap();
    assert_eq!(content.properties.len(), 1);
    assert_eq!(content.entries.len(), 2);
    assert_eq!(string, content.render().as_str());
}

#[test]
fn insert_property_on_default_content() {
    let mut content = Content::new();
    assert!(content.insert_property("foo".to_owned(), "bar".to_owned()));

    assert_eq!("---\nfoo: bar\n---\n", content.render().as_str());
}

#[test]
fn insert_property_update_existing() {
    let string = "---\nfoo: bar\n---\n";
    let mut content = Content::parse(string).unwrap();
    assert!(!content.insert_property("foo".to_owned(), "bar".to_owned()));
    assert!(content.insert_property("foo".to_owned(), "baz".to_owned()));

    assert_eq!("---\nfoo: baz\n---\n", content.render().as_str());
}

#[test]
fn prepend_unique_entry_on_default_content() {
    let mut content = Content::new();

    let entry = Entry::Line("Hello, World".to_owned());
    assert!(content.prepend_unique_entry(entry.clone()));
    assert!(!content.prepend_unique_entry(entry));
}

#[test]
fn prepend_unique_entry_update_existing() {
    let string = "Hello, World\n";
    let mut content = Content::parse(string).unwrap();
    let entry = Entry::Line("Hello, World".to_owned());
    assert!(!content.prepend_unique_entry(entry));
}

#[test]
fn render_parse_round_trip() {
    let mut content = Content::new();
    content.insert_property("week".to_owned(), "[[2025/Week 02]]".to_owned());
    content.insert_property("day".to_owned(), "Sunday".to_owned());
    content.prepend_unique_entry(Entry::Line("- One other thing".to_owned()));
    content.prepend_unique_entry(Entry::CodeBlock(CodeBlock::toml(
        "frequency = \"daily\"\n".to_owned(),
    )));
    content.prepend_unique_entry(Entry::Line("Hello".to_owned()));

    let text = content.render();
    let reparsed = Content::parse(text.as_str()).unwrap();
    assert_eq!(text, reparsed.render());
    assert_eq!(content.properties, reparsed.properties);
    assert_eq!(content.entries, reparsed.entries);
}

#[test]
fn merge_documents() {
    let first = "---\nweek: yes\n---\n\n- DONE Something\n- TODO Something\n- One other thing\n";
    let second = "---\nmonth: [[2024/September]]\n---\n\n- TODO Something\n- DONE Something else\n";
    let mut target = Content::parse(first).unwrap();
    let rhs = Content::parse(second).unwrap();
    target.merge(rhs);

    assert_eq!(
        "---\nweek: yes\nmonth: [[2024/September]]\n---\n\n- DONE Something\n- TODO Something\n- One other thing\n- DONE Something else\n",
        target.render().as_str()
    );
}

#[test]
fn merge_overwrites_value_by_key() {
    let mut target = Content::parse("---\nfoo: bar\n---\n").unwrap();
    let rhs = Content::parse("---\nfoo: baz\nother: x\n---\n").unwrap();
    target.merge(rhs);
    assert_eq!("---\nfoo: baz\nother: x\n---\n", target.render().as_str());
}

#[test]
fn property_display_parse() {
    let s = r#"month: "January""#;
    let m = Property::parse(s).unwrap();

    assert_eq!("month", m.key.as_str());
    assert_eq!(s, m.render().as_str());
    assert_eq!("January".to_owned(), m.value);

    let s = r#"filters: "{"month" false}""#;
    let m = Property::parse(s).unwrap();

    assert_eq!("filters", m.key.as_str());
    assert_eq!(s, m.render().as_str());
    assert_eq!(r#"{"month" false}"#, m.value);
}

#[test]
fn property_update() {
    let v1 = Property::parse(r#"month: true"#).unwrap();
    let v2 = Property::parse(r#"month: false"#).unwrap();
    let v3 = Property::parse(r#"week: false"#).unwrap();

    // different keys
    let mut v4 = v3.clone();
    v4.update(v2.clone());
    assert_eq!(v4, v3);

    let mut v4 = v1.clone();
    v4.update(v2.clone());
    assert_eq!(v2, v4);
}

#[test]
fn metadata_display_parse() {
    let s = r#"month: "January""#;
    let m = Metadata::parse(s).unwrap();

    assert_eq!("month", m.key.as_str());
    assert_eq!(s, m.render().as_str());
    assert_eq!("January".to_owned(), m.value);

    let s = r#"filters: "{"month" false}""#;
    let m = Metadata::parse(s).unwrap();

    assert_eq!("filters", m.key.as_str());
    assert_eq!(s, m.render().as_str());
    assert_eq!(r#"{"month" false}"#, m.value);
}

#[test]
fn metadata_update() {
    let v1 = Metadata::parse(r#"month: true"#).unwrap();
    let v2 = Metadata::parse(r#"month: false"#).unwrap();
    let v3 = Metadata::parse(r#"week: false"#).unwrap();

    // different keys
    let mut v4 = v3.clone();
    v4.update(v2.clone());
    assert_eq!(v4, v3);

    let mut v4 = v1.clone();
    v4.update(v2.clone());
    assert_eq!(v2, v4);
}

#[test]
fn entry_is_empty() {
    assert!(Entry::Line(String::new()).is_empty());
    assert!(!Entry::Line("x".to_owned()).is_empty());
    assert!(Entry::CodeBlock(CodeBlock::new("toml", String::new())).is_empty());
    assert!(!Entry::CodeBlock(CodeBlock::toml("x\n".to_owned())).is_empty());
}
