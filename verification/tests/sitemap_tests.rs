use blog::frontmatter::Frontmatter;
use blog::sitemap::{sitemap_entries, sitemap_view};
use blog::store::PublishedPage;

fn micros(text: &str) -> i64 {
    chrono::DateTime::parse_from_rfc3339(text)
        .unwrap()
        .timestamp_micros()
}

fn now_micros() -> i64 {
    chrono::Utc::now().timestamp_micros()
}

fn create_page(
    path: &str,
    slug: &str,
    title: &str,
    description: &str,
    published_at: i64,
    revised_at: Option<i64>,
) -> PublishedPage {
    PublishedPage {
        published_at,
        path: path.to_string(),
        frontmatter: Frontmatter {
            description: description.to_string(),
            preview: format!("{title} preview"),
            published_at: Some(published_at),
            revised_at,
            slug: slug.to_string(),
            title: title.to_string(),
        },
    }
}

#[test]
fn sitemap_test_build_response_success() {
    let published_date = micros("2023-01-01T00:00:00Z");
    let revised_date = micros("2023-01-15T00:00:00Z");

    let pages = vec![
        create_page(
            "test-home",
            "home",
            "Home",
            "Home page description",
            published_date,
            None,
        ),
        create_page(
            "test-page1",
            "page1",
            "Page 1",
            "Page 1 description",
            published_date,
            Some(revised_date),
        ),
    ];

    let body_string = sitemap_view(&pages, now_micros());

    // Valid XML with the sitemap namespace.
    assert!(body_string.starts_with("<?xml"));
    assert!(body_string.contains("urlset"));
    assert!(body_string.contains("http://www.sitemaps.org/schemas/sitemap/0.9"));

    // The homepage URL is included.
    assert!(body_string.contains("https://corybuecker.com</loc>"));

    // Other pages carry their own URLs.
    assert!(body_string.contains("https://corybuecker.com/post/page1"));

    // The lastmod dates are included.
    assert!(body_string.contains("2023-01-15T00:00:00+00:00"));
    assert!(body_string.contains("2023-01-01T00:00:00+00:00"));
}

#[test]
fn test_build_response_uses_revised_date_when_available() {
    let published_date = micros("2023-01-01T00:00:00Z");
    let revised_date = micros("2023-01-15T00:00:00Z");

    let pages = vec![create_page(
        "test-revised",
        "revised",
        "Revised Page",
        "Revised page description",
        published_date,
        Some(revised_date),
    )];

    let body_string = sitemap_view(&pages, now_micros());

    // The revised date stands, not the published date.
    assert!(body_string.contains("2023-01-15T00:00:00+00:00"));
    assert!(!body_string.contains("2023-01-01T00:00:00+00:00"));
}

#[test]
fn test_build_response_uses_published_date_when_no_revised() {
    let published_date = micros("2023-01-01T00:00:00Z");

    let pages = vec![create_page(
        "test-published",
        "published",
        "Published Page",
        "Published page description",
        published_date,
        None,
    )];

    let body_string = sitemap_view(&pages, now_micros());
    assert!(body_string.contains("2023-01-01T00:00:00+00:00"));
}

#[test]
fn test_build_response_no_dates_uses_current_time() {
    let pages = vec![PublishedPage {
        published_at: now_micros(),
        path: "test-no-dates".to_string(),
        frontmatter: Frontmatter {
            description: "No dates page description".to_string(),
            preview: "No dates preview".to_string(),
            published_at: None,
            revised_at: None,
            slug: "no-dates".to_string(),
            title: "No Dates Page".to_string(),
        },
    }];

    let body_string = sitemap_view(&pages, now_micros());

    // Some valid RFC 3339 timestamp (the fallback time) is present.
    assert!(body_string.contains("T"));
    assert!(body_string.contains("+00:00"));
}

#[test]
fn test_build_response_empty_pages() {
    let body_string = sitemap_view(&Vec::new(), now_micros());

    // Still a valid document, with an empty urlset.
    assert!(body_string.starts_with("<?xml"));
    assert!(body_string.contains("urlset"));
    assert_eq!(body_string.matches("<url>").count(), 0);
}

#[test]
fn test_build_response_multiple_pages() {
    let published_date = micros("2023-01-01T00:00:00Z");

    let pages = vec![
        create_page(
            "test-home",
            "home",
            "Home",
            "Home page",
            published_date,
            None,
        ),
        create_page(
            "test-page1",
            "page1",
            "Page 1",
            "Page 1",
            published_date,
            None,
        ),
        create_page(
            "test-page2",
            "page2",
            "Page 2",
            "Page 2",
            published_date,
            None,
        ),
    ];

    let body_string = sitemap_view(&pages, now_micros());

    // The first page is the homepage.
    assert!(body_string.contains("https://corybuecker.com</loc>"));

    // The other pages sit below /post/.
    assert!(body_string.contains("https://corybuecker.com/post/page1"));
    assert!(body_string.contains("https://corybuecker.com/post/page2"));

    // Three URL entries in total.
    assert_eq!(body_string.matches("<url>").count(), 3);
    assert_eq!(body_string.matches("</url>").count(), 3);
}

#[test]
fn sitemap_entries_shape() {
    let published_date = micros("2023-01-01T00:00:00Z");
    let pages = vec![
        create_page("a", "home", "Home", "home", published_date, None),
        create_page("b", "second", "Second", "second", published_date, None),
    ];
    let entries = sitemap_entries(&pages, now_micros());

    // As many entries as indexed pages; entry 0 is the site root, entry
    // i > 0 is {root}/post/{slug}.
    assert_eq!(entries.len(), pages.len());
    assert_eq!(entries[0].loc, "https://corybuecker.com");
    assert_eq!(entries[1].loc, "https://corybuecker.com/post/second");
    assert_eq!(entries[0].lastmod, "2023-01-01T00:00:00+00:00");
}

#[test]
fn sitemap_exact_document() {
    let published_date = micros("2023-01-01T00:00:00Z");
    let pages = vec![create_page("a", "home", "Home", "home", published_date, None)];
    let body_string = sitemap_view(&pages, now_micros());
    let expected = "<?xml version=\"1.1\" encoding=\"UTF-8\"?>\n\
        <urlset xmlns=\"http://www.sitemaps.org/schemas/sitemap/0.9\">\n\
        \t<url>\n\
        \t\t<loc>https://corybuecker.com</loc>\n\
        \t\t<lastmod>2023-01-01T00:00:00+00:00</lastmod>\n\
        \t</url>\n\
        </urlset>\n";
    assert_eq!(body_string, expected);
}

#[test]
fn sitemap_exact_empty_document() {
    let body_string = sitemap_view(&Vec::new(), now_micros());
    assert_eq!(
        body_string,
        "<?xml version=\"1.1\" encoding=\"UTF-8\"?>\n<urlset xmlns=\"http://www.sitemaps.org/schemas/sitemap/0.9\" />\n"
    );
}
