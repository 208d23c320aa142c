//! Inspection of the external extensions that a workspace configures: joining
//! the linter and analyzer registrations of every extension, rendering them as
//! text or as a report, and deciding what the `extension` command answers.

pub mod command;
pub mod hosts;
pub mod laws;
pub mod listing;
pub mod registration;
pub mod render;
pub mod report;
pub mod text;
