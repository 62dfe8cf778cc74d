pub mod admin;
pub mod assets;
pub mod errors;
pub mod frontmatter;
pub mod home;
pub mod page;
pub mod render;
pub mod sitemap;
pub mod store;
pub mod text;
pub mod time;
pub mod xml;
