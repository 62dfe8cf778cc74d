use vstd::prelude::*;

use crate::frontmatter::{strip_frontmatter, strip_frontmatter_spec};

verus! {

/// The HTML that the markdown renderer produces for a text; a function of
/// the text alone.
pub uninterp spec fn html_of(md: Seq<char>) -> Seq<char>;

/// Relies on comrak's `markdown_to_html` with default options: the output
/// depends on the markdown text alone.
#[verifier::external_body]
pub(crate) fn render_markdown(md: &str) -> (r: String)
    ensures
        r@ == html_of(md@),
{
    comrak::markdown_to_html(md, &comrak::Options::default())
}

/// Strips the frontmatter block of one content item and renders the
/// remaining body to HTML.
pub fn without_frontmatter(content: &str) -> (r: String)
    ensures
        r@ == html_of(strip_frontmatter_spec(content@)),
{
    let body = strip_frontmatter(content);
    render_markdown(body.as_str())
}

/// The code-block formatting policy handed to the renderer: fenced code
/// is kept verbatim, inside tags that opt out of prose styling.
#[derive(Debug, Clone, Copy)]
pub struct SyntaxAdapter;

impl SyntaxAdapter {
    pub fn new() -> (r: Self) {
        SyntaxAdapter
    }

    /// Code is emitted verbatim, with no highlighting markup.
    pub fn highlighted(&self, code: &str) -> (r: String)
        ensures
            r@ == code@,
    {
        String::from_str(code)
    }

    /// The opening `pre` tag, carrying the language when one is named.
    pub fn pre_tag(&self, lang: Option<&str>) -> (r: String)
        ensures
            match lang {
                Some(l) => r@ == "<pre class=\"not-prose\" lang=\""@ + l@ + "\">"@,
                None => r@ == "<pre class=\"not-prose\">"@,
            },
    {
        match lang {
            Some(l) => {
                let mut s = String::from_str("<pre class=\"not-prose\" lang=\"");
                s.append(l);
                s.append("\">");
                s
            },
            None => String::from_str("<pre class=\"not-prose\">"),
        }
    }

    /// The opening `code` tag, carrying the class when one is named.
    pub fn code_tag(&self, class: Option<&str>) -> (r: String)
        ensures
            match class {
                Some(c) => r@ == "<code class=\""@ + c@ + "\">"@,
                None => r@ == "<code>"@,
            },
    {
        match class {
            Some(c) => {
                let mut s = String::from_str("<code class=\"");
                s.append(c);
                s.append("\">");
                s
            },
            None => String::from_str("<code>"),
        }
    }
}

} // verus!
