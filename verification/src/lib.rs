//! Document-viewer logic: text search, page-colour themes, the page texture
//! cache, text selection, reading-position bookmarks and the viewer's
//! keyboard/search/jump state.

pub mod search;
pub mod text;
pub mod theme;
pub mod cache;
pub mod selection;
pub mod bookmarks;
pub mod viewer;
