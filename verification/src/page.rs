use vstd::prelude::*;

use crate::errors::AppError;
use crate::store::{pages_view, PublishedPage};

verus! {

/// Single-Page View lookup: the index of the first page whose slug equals
/// the requested one, or `PageNotFound`.
pub fn find_page(pages: &Vec<PublishedPage>, slug: &str) -> (r: Result<usize, AppError>)
    ensures
        match r {
            Ok(i) => i < pages@.len() && pages_view(pages@)[i as int].frontmatter.slug == slug@
                && forall|j: int|
                    0 <= j < i ==> pages_view(pages@)[j].frontmatter.slug != slug@,
            Err(e) => e == AppError::PageNotFound && forall|j: int|
                0 <= j < pages@.len() ==> pages_view(pages@)[j].frontmatter.slug != slug@,
        },
{
    let target = String::from_str(slug);
    let mut i: usize = 0;
    while i < pages.len()
        invariant
            0 <= i <= pages@.len(),
            target@ == slug@,
            forall|j: int| 0 <= j < i ==> pages_view(pages@)[j].frontmatter.slug != slug@,
        decreases pages@.len() - i,
    {
        let hit = pages[i].frontmatter.slug == target;
        proof {
            assert(pages_view(pages@)[i as int] == pages@[i as int]@);
        }
        if hit {
            return Ok(i);
        }
        i += 1;
    }
    Err(AppError::PageNotFound)
}

/// The canonical location of a page: `/post/` followed by its slug; the
/// redirect that removes a trailing slash points here.
pub fn redirect_path(slug: &str) -> (r: String)
    ensures
        r@ == "/post/"@ + slug@,
{
    let mut r = String::from_str("/post/");
    r.append(slug);
    r
}

/// A page title composed with the configured site suffix.
pub fn compose_title(title: &str, suffix: &str) -> (r: String)
    ensures
        r@ == title@ + suffix@,
{
    let mut r = String::from_str(title);
    r.append(suffix);
    r
}

} // verus!
