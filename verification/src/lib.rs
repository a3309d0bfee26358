//! Management of CSS style snippets spliced into shared browser style sheets.

pub mod add;
pub mod config;
pub mod errors;
pub mod input;
pub mod lifecycle;
pub mod list;
pub mod region;
pub mod remove;
pub mod settings;
pub mod text;
pub mod update;
pub mod userstyle;
