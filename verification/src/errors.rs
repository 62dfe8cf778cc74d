use vstd::prelude::*;

verus! {

/// A required frontmatter attribute that a content item may be missing.
#[derive(Clone, Copy, Debug, PartialEq, Eq, Structural)]
pub enum Field {
    Description,
    Preview,
    Slug,
    Title,
}

/// The failures the publication pipeline can report.
///
/// `MissingField` aborts an index build (fail-fast); `NoPublishedContent`
/// and `PageNotFound` are scoped to a single view request.
#[derive(Clone, Copy, Debug, PartialEq, Eq, Structural)]
pub enum AppError {
    PageNotFound,
    NoPublishedContent,
    MissingField(Field),
}

} // verus!
