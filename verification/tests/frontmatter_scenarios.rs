use blog::errors::{AppError, Field};
use blog::frontmatter::{
    extract_frontmatter_from_content_file, frontmatter_pairs, strip_frontmatter, Frontmatter,
};
use blog::render::without_frontmatter;

fn micros(text: &str) -> i64 {
    chrono::DateTime::parse_from_rfc3339(text)
        .unwrap()
        .timestamp_micros()
}

const HELLO_DOC: &str = "---\ntitle: Hello\nslug: hello\ndescription: d\npreview: p\npublished_at: 2023-01-01T00:00:00Z\n---\n# Hi";

#[test]
fn scenario_hello_frontmatter() {
    let fm = extract_frontmatter_from_content_file(HELLO_DOC).unwrap();
    assert_eq!(fm.title, "Hello");
    assert_eq!(fm.slug, "hello");
    assert_eq!(fm.description, "d");
    assert_eq!(fm.preview, "p");
    assert_eq!(fm.published_at, Some(micros("2023-01-01T00:00:00Z")));
    assert_eq!(fm.revised_at, None);
}

#[test]
fn scenario_hello_rendered_body() {
    let html = without_frontmatter(HELLO_DOC);
    assert!(html.contains("Hi"));
    assert!(html.contains("<h1>"));
    assert!(!html.contains("published_at"));
}

#[test]
fn strip_frontmatter_removes_exactly_the_block() {
    assert_eq!(strip_frontmatter(HELLO_DOC), "# Hi");
    assert_eq!(strip_frontmatter("no block\nhere"), "no block\nhere");
    assert_eq!(strip_frontmatter("---\na: b\n---\nbody\nmore"), "body\nmore");
    assert_eq!(strip_frontmatter("---\na: b\n---"), "");
}

#[test]
fn strip_is_idempotent_on_ordinary_documents() {
    let body = strip_frontmatter(HELLO_DOC);
    assert_eq!(strip_frontmatter(&body), body);
}

#[test]
fn unterminated_block_is_not_a_block() {
    let doc = "---\ntitle: T\nslug: s";
    assert_eq!(strip_frontmatter(doc), doc);
    let extracted = extract_frontmatter_from_content_file(doc);
    assert_eq!(
        extracted.unwrap_err(),
        AppError::MissingField(Field::Description)
    );
}

#[test]
fn round_trip_extraction_matches_isolated_block() {
    // Re-extracting from the whole document equals parsing the isolated
    // frontmatter block taken from the same document.
    let block = "title: Hello\nslug: hello\ndescription: d\npreview: p\npublished_at: 2023-01-01T00:00:00Z";
    let from_doc = extract_frontmatter_from_content_file(HELLO_DOC).unwrap();
    let from_block = Frontmatter::from_pairs(&frontmatter_pairs(block)).unwrap();
    assert_eq!(from_doc.title, from_block.title);
    assert_eq!(from_doc.slug, from_block.slug);
    assert_eq!(from_doc.description, from_block.description);
    assert_eq!(from_doc.preview, from_block.preview);
    assert_eq!(from_doc.published_at, from_block.published_at);
    assert_eq!(from_doc.revised_at, from_block.revised_at);
}

#[test]
fn pairs_split_on_first_colon_and_trim() {
    let pairs = frontmatter_pairs("  key :  a:b:c  \nplain line\n\nx:1");
    assert_eq!(pairs.len(), 2);
    assert_eq!(pairs[0].0, "key");
    assert_eq!(pairs[0].1, "a:b:c");
    assert_eq!(pairs[1].0, "x");
    assert_eq!(pairs[1].1, "1");
}

#[test]
fn pairs_marker_lines_are_ignored() {
    let pairs = frontmatter_pairs("---\ntitle: T\n---\n");
    assert_eq!(pairs.len(), 1);
    assert_eq!(pairs[0].0, "title");
    assert_eq!(pairs[0].1, "T");
}

#[test]
fn later_duplicate_key_wins() {
    let fm = extract_frontmatter_from_content_file(
        "---\ntitle: First\ntitle: Second\nslug: s\ndescription: d\npreview: p\n---\n",
    )
    .unwrap();
    assert_eq!(fm.title, "Second");
}

#[test]
fn each_missing_required_field_is_named() {
    let full = "description: d\npreview: p\nslug: s\ntitle: t";
    for (field, key) in [
        (Field::Description, "description"),
        (Field::Preview, "preview"),
        (Field::Slug, "slug"),
        (Field::Title, "title"),
    ] {
        let without: Vec<&str> = full
            .lines()
            .filter(|line| !line.starts_with(key))
            .collect();
        let doc = format!("---\n{}\n---\n", without.join("\n"));
        let got = extract_frontmatter_from_content_file(&doc).unwrap_err();
        assert_eq!(got, AppError::MissingField(field));
    }
}

#[test]
fn unparsable_timestamp_becomes_absent() {
    let fm = extract_frontmatter_from_content_file(
        "---\ntitle: t\nslug: s\ndescription: d\npreview: p\npublished_at: tomorrow\n---\n",
    )
    .unwrap();
    assert_eq!(fm.published_at, None);
    assert_eq!(fm.revised_at, None);
}

#[test]
fn revised_at_is_parsed_independently() {
    let fm = extract_frontmatter_from_content_file(
        "---\ntitle: t\nslug: s\ndescription: d\npreview: p\npublished_at: 2023-01-01T00:00:00Z\nrevised_at: 2023-01-15T12:30:00+02:00\n---\n",
    )
    .unwrap();
    assert_eq!(fm.published_at, Some(micros("2023-01-01T00:00:00Z")));
    assert_eq!(fm.revised_at, Some(micros("2023-01-15T12:30:00+02:00")));
}

#[test]
fn text_outside_markers_is_not_metadata() {
    let fm = extract_frontmatter_from_content_file(
        "---\ntitle: t\nslug: s\ndescription: d\npreview: p\npublished_at: 2023-01-01T00:00:00Z\n---\nignored: pair",
    )
    .unwrap();
    assert_eq!(fm.title, "t");
    // The body line looks like a pair but sits outside the block.
    assert_eq!(fm.published_at, Some(micros("2023-01-01T00:00:00Z")));
}
