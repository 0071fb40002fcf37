//! Include processing for MarkPlus documents, with a verified core.

pub mod json;
pub mod text;
pub mod frontmatter;
pub mod error;
pub mod paths;
pub mod resolve;
pub mod handlers;
pub mod loads;
pub mod includes;
pub mod tabs;
pub mod document;
pub mod guarantees;
pub mod cli;
pub mod markdown;
