//! Content normalisation for a chat bot: gallery metadata merging, link
//! rewriting and the small persisted reply/group state.

pub mod config;
pub mod gallery;
pub mod links;
pub mod matching;
pub mod messages;
pub mod planabrain;
pub mod state;
pub mod text;
pub mod url_parts;
