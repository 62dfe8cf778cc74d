use blog::errors::{AppError, Field};
use blog::home::home_view;
use blog::sitemap::sitemap_view;
use blog::store::{published_pages, ContentItem, PublishedPages};

fn micros(text: &str) -> i64 {
    chrono::DateTime::parse_from_rfc3339(text)
        .unwrap()
        .timestamp_micros()
}

fn item(path: &str, slug: &str, published_at: Option<&str>) -> ContentItem {
    let date_line = match published_at {
        Some(date) => format!("published_at: {date}\n"),
        None => String::new(),
    };
    ContentItem {
        path: path.to_string(),
        content: format!(
            "---\ntitle: Title of {slug}\nslug: {slug}\ndescription: d\npreview: p\n{date_line}---\nBody of {slug}"
        ),
    }
}

#[test]
fn builder_indexes_published_items_in_descending_order() {
    let items = vec![
        item("one.md", "one", Some("2023-01-01T00:00:00Z")),
        item("three.md", "three", Some("2023-03-01T00:00:00Z")),
        item("two.md", "two", Some("2023-02-01T00:00:00Z")),
    ];
    let pages = published_pages(&items).unwrap();

    assert_eq!(pages.len(), 3);
    assert_eq!(pages[0].frontmatter.slug, "three");
    assert_eq!(pages[1].frontmatter.slug, "two");
    assert_eq!(pages[2].frontmatter.slug, "one");
    assert!(pages[0].published_at >= pages[1].published_at);
    assert!(pages[1].published_at >= pages[2].published_at);
    assert_eq!(pages[0].published_at, micros("2023-03-01T00:00:00Z"));
}

#[test]
fn builder_indexes_each_published_item_exactly_once() {
    let items = vec![
        item("a.md", "a", Some("2023-01-01T00:00:00Z")),
        item("b.md", "b", Some("2023-01-02T00:00:00Z")),
    ];
    let pages = published_pages(&items).unwrap();
    let count_a = pages.iter().filter(|p| p.path == "a.md").count();
    let count_b = pages.iter().filter(|p| p.path == "b.md").count();
    assert_eq!(count_a, 1);
    assert_eq!(count_b, 1);
}

#[test]
fn builder_skips_drafts_silently() {
    let items = vec![
        item("draft.md", "draft", None),
        item("live.md", "live", Some("2023-01-01T00:00:00Z")),
    ];
    let pages = published_pages(&items).unwrap();
    assert_eq!(pages.len(), 1);
    assert!(pages.iter().all(|p| p.path != "draft.md"));
    assert_eq!(pages[0].frontmatter.slug, "live");
}

#[test]
fn builder_treats_unparsable_date_as_draft() {
    let items = vec![item("odd.md", "odd", Some("not-a-date"))];
    let pages = published_pages(&items).unwrap();
    assert!(pages.is_empty());
}

#[test]
fn builder_fails_fast_on_one_bad_item() {
    // One item missing the required slug field fails the whole build,
    // even though every other item is well-formed.
    let mut items = vec![
        item("good1.md", "good1", Some("2023-01-01T00:00:00Z")),
        item("good2.md", "good2", Some("2023-01-02T00:00:00Z")),
    ];
    items.push(ContentItem {
        path: "bad.md".to_string(),
        content: "---\ntitle: t\ndescription: d\npreview: p\n---\n".to_string(),
    });
    let result = published_pages(&items);
    assert_eq!(result.unwrap_err(), AppError::MissingField(Field::Slug));
}

#[test]
fn ties_keep_enumeration_order() {
    let items = vec![
        item("first.md", "first", Some("2023-01-01T00:00:00Z")),
        item("second.md", "second", Some("2023-01-01T00:00:00Z")),
    ];
    let pages = published_pages(&items).unwrap();
    assert_eq!(pages[0].frontmatter.slug, "first");
    assert_eq!(pages[1].frontmatter.slug, "second");
}

#[test]
fn store_publish_installs_and_reports_count() {
    let mut store = PublishedPages::default();
    let items = vec![
        item("one.md", "one", Some("2023-01-01T00:00:00Z")),
        item("draft.md", "draft", None),
        item("two.md", "two", Some("2023-02-01T00:00:00Z")),
    ];
    let count = store.publish(&items).unwrap();
    assert_eq!(count, 2);
    let pages = store.get_all().unwrap();
    assert_eq!(pages.len(), 2);
    assert_eq!(pages[0].frontmatter.slug, "two");
}

#[test]
fn failed_rebuild_leaves_prior_snapshot_serving() {
    let mut store = PublishedPages::default();
    let good = vec![
        item("one.md", "one", Some("2023-01-01T00:00:00Z")),
        item("two.md", "two", Some("2023-02-01T00:00:00Z")),
    ];
    let count = store.publish(&good).unwrap();
    assert_eq!(count, 2);

    // A later rebuild with one item missing its slug fails the whole
    // build and must not touch the snapshot.
    let bad = vec![
        item("one.md", "one", Some("2023-01-01T00:00:00Z")),
        ContentItem {
            path: "broken.md".to_string(),
            content: "---\ntitle: t\ndescription: d\npreview: p\npublished_at: 2023-03-01T00:00:00Z\n---\n".to_string(),
        },
    ];
    let result = store.publish(&bad);
    assert_eq!(result.unwrap_err(), AppError::MissingField(Field::Slug));

    let pages = store.get_all().unwrap();
    assert_eq!(pages.len(), 2);
    assert_eq!(pages[0].frontmatter.slug, "two");
    assert_eq!(pages[1].frontmatter.slug, "one");
}

#[test]
fn empty_source_home_fails_sitemap_succeeds() {
    let mut store = PublishedPages::default();
    let count = store.publish(&Vec::new()).unwrap();
    assert_eq!(count, 0);
    let pages = store.get_all().unwrap();

    assert_eq!(home_view(&pages).unwrap_err(), AppError::NoPublishedContent);

    let sitemap = sitemap_view(&pages, chrono::Utc::now().timestamp_micros());
    assert!(sitemap.starts_with("<?xml"));
    assert!(sitemap.contains("urlset"));
    assert_eq!(sitemap.matches("<url>").count(), 0);
}

#[test]
fn store_starts_empty() {
    let store = PublishedPages::default();
    assert!(store.get_all().unwrap().is_empty());
}
