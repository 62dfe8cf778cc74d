use blog::errors::AppError;
use blog::frontmatter::Frontmatter;
use blog::home::home_view;
use blog::page::{compose_title, find_page, redirect_path};
use blog::store::PublishedPage;

fn create_page(
    path: &str,
    slug: &str,
    title: &str,
    description: &str,
    revised_at: Option<i64>,
) -> PublishedPage {
    let now = chrono::Utc::now().timestamp_micros();
    PublishedPage {
        published_at: now,
        path: path.to_string(),
        frontmatter: Frontmatter {
            description: description.to_string(),
            preview: format!("{title} preview"),
            published_at: Some(now),
            revised_at,
            slug: slug.to_string(),
            title: title.to_string(),
        },
    }
}

#[test]
fn home_test_build_response_success() {
    let pages = vec![
        create_page("test-home", "home", "Home", "Home page description", None),
        create_page("test-page1", "page1", "Page 1", "Page 1 description", None),
        create_page("test-page2", "page2", "Page 2", "Page 2 description", None),
    ];

    let home = home_view(&pages).unwrap();

    // The home page title and description come from position 0.
    assert!(home.homepage.frontmatter.title.contains("Home"));
    assert!(home
        .homepage
        .frontmatter
        .description
        .contains("Home page description"));

    // The other pages are listed; the first page is excluded from the list.
    assert_eq!(home.links.len(), 2);
    assert!(home.links.iter().any(|link| link.title == "Page 1"));
    assert!(home.links.iter().any(|link| link.title == "Page 2"));
    assert!(!home.links.iter().any(|link| link.title == "Home"));
}

#[test]
fn test_build_response_with_revised_at() {
    let revised_date = chrono::Utc::now().timestamp_micros();
    let pages = vec![create_page(
        "test-revised",
        "revised",
        "Revised Page",
        "Revised page description",
        Some(revised_date),
    )];

    let home = home_view(&pages).unwrap();
    assert!(home.homepage.frontmatter.title.contains("Revised Page"));
}

#[test]
fn test_build_response_no_pages_error() {
    let result = home_view(&Vec::new());
    assert!(result.is_err());
}

#[test]
fn no_pages_error_is_no_published_content() {
    assert_eq!(
        home_view(&Vec::new()).unwrap_err(),
        AppError::NoPublishedContent
    );
}

#[test]
fn test_build_response_single_page() {
    let pages = vec![create_page(
        "test-single",
        "single",
        "Single Page",
        "Single page description",
        None,
    )];

    let home = home_view(&pages).unwrap();

    // With only one page, the navigation list is empty.
    assert!(home.homepage.frontmatter.title.contains("Single Page"));
    assert!(home.links.is_empty());
}

#[test]
fn test_valid_response() {
    let pages = vec![create_page("test", "test", "Test", "test", None)];
    let index = find_page(&pages, "test").unwrap();
    assert!(pages[index].frontmatter.title.contains("Test"));
}

#[test]
fn test_build_response_with_revised_date() {
    let revised_date = chrono::DateTime::parse_from_rfc3339("2023-01-15T00:00:00Z")
        .unwrap()
        .timestamp_micros();
    let pages = vec![create_page(
        "test-revised",
        "revised-page",
        "Revised Page",
        "Revised page description",
        Some(revised_date),
    )];

    let index = find_page(&pages, "revised-page").unwrap();
    assert!(pages[index].frontmatter.title.contains("Revised Page"));
    assert!(pages[index]
        .frontmatter
        .description
        .contains("Revised page description"));
}

#[test]
fn test_build_response_page_not_found() {
    let pages = vec![create_page(
        "test-existing",
        "existing",
        "Existing Page",
        "Existing page",
        None,
    )];

    let result = find_page(&pages, "non-existent");
    assert!(result.is_err());
    assert_eq!(result.unwrap_err(), AppError::PageNotFound);
}

#[test]
fn test_build_response_title_includes_suffix() {
    let pages = vec![create_page(
        "test-title",
        "title-test",
        "My Great Article",
        "Title test page",
        None,
    )];

    let index = find_page(&pages, "title-test").unwrap();
    let title = compose_title(&pages[index].frontmatter.title, " - corybuecker.com");
    assert!(title.contains("My Great Article"));
    assert!(title.ends_with(" - corybuecker.com"));
}

#[test]
fn test_build_response_multiple_pages_finds_correct_one() {
    let pages = vec![
        create_page("test-page1", "page1", "Page 1", "Page 1 description", None),
        create_page("test-page2", "page2", "Page 2", "Page 2 description", None),
        create_page("test-page3", "page3", "Page 3", "Page 3 description", None),
    ];

    let index = find_page(&pages, "page2").unwrap();

    // The correct page is selected.
    assert!(pages[index].frontmatter.title.contains("Page 2"));
    assert!(pages[index]
        .frontmatter
        .description
        .contains("Page 2 description"));
    // Not any of the other pages.
    assert!(!pages[index]
        .frontmatter
        .description
        .contains("Page 1 description"));
    assert!(!pages[index]
        .frontmatter
        .description
        .contains("Page 3 description"));
}

#[test]
fn test_build_response_empty_pages_list() {
    let result = find_page(&Vec::new(), "any-slug");
    assert!(result.is_err());
}

#[test]
fn test_remove_slash_redirect() {
    let location = redirect_path("my-awesome-post");
    assert_eq!(location, "/post/my-awesome-post");
    assert!(location.starts_with("/post/"));
}

#[test]
fn test_remove_slash_redirect_with_special_characters() {
    let location = redirect_path("post-with-dashes-and_underscores");
    assert!(location.starts_with("/post/"));
    assert_eq!(location, "/post/post-with-dashes-and_underscores");
}

#[test]
fn test_remove_slash_redirect_empty_slug() {
    let location = redirect_path("");
    assert!(location.starts_with("/post/"));
    assert_eq!(location, "/post/");
}

#[test]
fn duplicate_slugs_find_the_first_match() {
    let pages = vec![
        create_page("a", "dup", "First", "first", None),
        create_page("b", "dup", "Second", "second", None),
    ];
    let index = find_page(&pages, "dup").unwrap();
    assert_eq!(index, 0);
    assert_eq!(pages[index].frontmatter.title, "First");
}
