use vstd::prelude::*;

verus! {

/// An administrator allowed to edit content, identified by email.
#[derive(Debug)]
pub struct User {
    pub email: String,
}

/// A failure of the administrator sign-in flow.
#[derive(Clone, Copy, Debug, PartialEq, Eq, Structural)]
pub enum AuthenticationError {
    NoEmail,
}

/// The form an administrator submits to create or update a content item;
/// the optional dates arrive as text and are parsed later.
#[derive(Debug)]
pub struct PostForm {
    pub content: String,
    pub description: String,
    pub preview: String,
    pub published_at: Option<String>,
    pub revised_at: Option<String>,
    pub slug: String,
    pub title: String,
}

/// The query parameters the identity provider sends back after sign-in.
#[derive(Debug)]
pub struct GoogleCallback {
    pub code: String,
}

} // verus!
