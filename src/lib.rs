//! Browsing a project's commits side by side with the reasoning entries
//! recorded for them: the commit catalog, the changeset classifier and the
//! interactive review session.
pub mod catalog;
pub mod classify;
pub mod history;
pub mod session;
pub mod text;
