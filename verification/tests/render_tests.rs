use blog::render::{without_frontmatter, SyntaxAdapter};

#[test]
fn markdown_heading_renders_to_html() {
    let html = without_frontmatter("# Hi");
    assert_eq!(html, "<h1>Hi</h1>\n");
}

#[test]
fn markdown_renders_after_stripping_block() {
    let html = without_frontmatter("---\ntitle: t\n---\nplain *emphasis* text");
    assert_eq!(html, "<p>plain <em>emphasis</em> text</p>\n");
}

#[test]
fn adapter_pre_tag_with_language() {
    let adapter = SyntaxAdapter::new();
    assert_eq!(
        adapter.pre_tag(Some("rust")),
        "<pre class=\"not-prose\" lang=\"rust\">"
    );
    assert_eq!(adapter.pre_tag(None), "<pre class=\"not-prose\">");
}

#[test]
fn adapter_code_tag_with_class() {
    let adapter = SyntaxAdapter::new();
    assert_eq!(
        adapter.code_tag(Some("language-rust")),
        "<code class=\"language-rust\">"
    );
    assert_eq!(adapter.code_tag(None), "<code>");
}

#[test]
fn adapter_keeps_code_verbatim() {
    let adapter = SyntaxAdapter::new();
    assert_eq!(adapter.highlighted("let x = 1;"), "let x = 1;");
}
