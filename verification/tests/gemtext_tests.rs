use remi::gemtext::{Gemtext, GemtextEntry, GemtextParseError};

fn parse(s: &str) -> Vec<GemtextEntry> {
    Gemtext::from_str(s).data
}

#[test]
fn empty_input_yields_no_blocks() {
    assert!(parse("").is_empty());
}

#[test]
fn text_lines_round_trip() {
    let original = "first line\nsecond line\n  indented third";
    let blocks = parse(original);
    assert_eq!(blocks.len(), 3);
    let mut lines = Vec::new();
    for b in &blocks {
        match b {
            GemtextEntry::Text(t) => lines.push(t.clone()),
            other => panic!("expected only text blocks, got {:?}", other),
        }
    }
    assert_eq!(lines.join("\n"), original);
}

#[test]
fn headings() {
    let blocks = parse("# Hi\n## Mid\n### Small\n#Hi\n###Nospace");
    assert_eq!(blocks.len(), 5);
    assert!(matches!(&blocks[0], GemtextEntry::MajorHeading(t) if t == "Hi"));
    assert!(matches!(&blocks[1], GemtextEntry::MediumHeading(t) if t == "Mid"));
    assert!(matches!(&blocks[2], GemtextEntry::MinorHeading(t) if t == "Small"));
    assert!(matches!(&blocks[3], GemtextEntry::Text(t) if t == "#Hi"));
    assert!(matches!(&blocks[4], GemtextEntry::Text(t) if t == "###Nospace"));
}

#[test]
fn success_body_parses_to_major_heading() {
    let blocks = parse("# Hi\n");
    assert_eq!(blocks.len(), 1);
    assert!(matches!(&blocks[0], GemtextEntry::MajorHeading(t) if t == "Hi"));
}

#[test]
fn three_list_lines_merge_into_one_block() {
    let blocks = parse("* one\n* two\n* three");
    assert_eq!(blocks.len(), 1);
    match &blocks[0] {
        GemtextEntry::List(items) => assert_eq!(items, &["one", "two", "three"]),
        other => panic!("expected a list, got {:?}", other),
    }
}

#[test]
fn text_line_separates_lists() {
    let blocks = parse("* one\nplain\n* two");
    assert_eq!(blocks.len(), 3);
    assert!(matches!(&blocks[0], GemtextEntry::List(items) if items == &["one"]));
    assert!(matches!(&blocks[1], GemtextEntry::Text(t) if t == "plain"));
    assert!(matches!(&blocks[2], GemtextEntry::List(items) if items == &["two"]));
}

#[test]
fn empty_list_item() {
    let blocks = parse("* ");
    assert_eq!(blocks.len(), 1);
    assert!(matches!(&blocks[0], GemtextEntry::List(items) if items == &[""]));
}

#[test]
fn quotes_do_not_merge() {
    let blocks = parse(">one\n> two");
    assert_eq!(blocks.len(), 2);
    assert!(matches!(&blocks[0], GemtextEntry::Quote(t) if t == "one"));
    assert!(matches!(&blocks[1], GemtextEntry::Quote(t) if t == " two"));
}

#[test]
fn link_with_url_and_label() {
    let blocks = parse("=> gemini://example.org/ Example site");
    assert_eq!(blocks.len(), 1);
    match &blocks[0] {
        GemtextEntry::Link { url, label } => {
            assert_eq!(url, "gemini://example.org/");
            assert_eq!(label, "Example site");
        }
        other => panic!("expected a link, got {:?}", other),
    }
}

#[test]
fn link_without_label() {
    let blocks = parse("=> gemini://example.org/");
    match &blocks[0] {
        GemtextEntry::Link { url, label } => {
            assert_eq!(url, "gemini://example.org/");
            assert_eq!(label, "");
        }
        other => panic!("expected a link, got {:?}", other),
    }
}

#[test]
fn link_without_space_after_prefix() {
    let blocks = parse("=>url label tail");
    match &blocks[0] {
        GemtextEntry::Link { url, label } => {
            assert_eq!(url, "url");
            assert_eq!(label, "label tail");
        }
        other => panic!("expected a link, got {:?}", other),
    }
}

#[test]
fn link_with_only_whitespace_after_prefix() {
    let blocks = parse("=>   ");
    match &blocks[0] {
        GemtextEntry::Link { url, label } => {
            assert_eq!(url, "");
            assert_eq!(label, "");
        }
        other => panic!("expected a link, got {:?}", other),
    }
}

#[test]
fn preformatted_block_kept_verbatim() {
    let blocks = parse("```py\nx = 1\n  y = 2\n```\nafter");
    assert_eq!(blocks.len(), 2);
    match &blocks[0] {
        GemtextEntry::Preformatted { alt_text, body } => {
            assert_eq!(alt_text, "py");
            assert_eq!(body, "x = 1\n  y = 2");
        }
        other => panic!("expected a preformatted block, got {:?}", other),
    }
    assert!(matches!(&blocks[1], GemtextEntry::Text(t) if t == "after"));
}

#[test]
fn preformatted_keeps_empty_first_line() {
    let blocks = parse("```\n\nx\n```");
    assert_eq!(blocks.len(), 1);
    match &blocks[0] {
        GemtextEntry::Preformatted { alt_text, body } => {
            assert_eq!(alt_text, "");
            assert_eq!(body, "\nx");
        }
        other => panic!("expected a preformatted block, got {:?}", other),
    }
}

#[test]
fn unterminated_fence_drops_content() {
    let blocks = parse("```alt\nburied content\nmore");
    assert!(blocks.is_empty());
    let blocks = parse("before\n```alt\nburied");
    assert_eq!(blocks.len(), 1);
    assert!(matches!(&blocks[0], GemtextEntry::Text(t) if t == "before"));
}

#[test]
fn markup_inside_fences_is_not_classified() {
    let blocks = parse("```\n# not a heading\n* not a list\n```");
    assert_eq!(blocks.len(), 1);
    match &blocks[0] {
        GemtextEntry::Preformatted { body, .. } => {
            assert_eq!(body, "# not a heading\n* not a list");
        }
        other => panic!("expected a preformatted block, got {:?}", other),
    }
}

#[test]
fn carriage_return_line_endings() {
    let blocks = parse("one\r\ntwo\r\n");
    assert_eq!(blocks.len(), 2);
    assert!(matches!(&blocks[0], GemtextEntry::Text(t) if t == "one"));
    assert!(matches!(&blocks[1], GemtextEntry::Text(t) if t == "two"));
}

#[test]
fn classification_trims_but_text_keeps_original() {
    let blocks = parse("   # spaced heading\n   plain with spaces");
    assert_eq!(blocks.len(), 2);
    assert!(matches!(&blocks[0], GemtextEntry::MajorHeading(t) if t == "spaced heading"));
    assert!(matches!(&blocks[1], GemtextEntry::Text(t) if t == "   plain with spaces"));
}

#[test]
fn parse_error_carries_line_and_message() {
    let err = GemtextParseError::new("bad line", "why it failed");
    assert_eq!(err.line, "bad line");
    assert_eq!(err.msg, "why it failed");
    assert_eq!(err.message(), "'why it failed' in line:\n    bad line");
}
