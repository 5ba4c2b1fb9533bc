//! Versioned markdown canned-response corpus: quality rules, front matter,
//! scaffolding, search helpers and Jira publication helpers.

pub mod check;
pub mod config;
pub mod convert;
pub mod corpus;
pub mod doctor;
pub mod index;
pub mod jira_import;
pub mod json;
pub mod lint;
pub mod scaffold;
pub mod text;
pub mod tui;
