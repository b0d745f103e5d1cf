//! Declarative version bumping: a schema of named version components, a
//! bump/reset state machine per component, minimal-form serialization through
//! candidate templates, and a search/replace engine that applies configured
//! changes to file content.

pub mod change;
pub mod component;
pub mod digits;
pub mod f_string;
pub mod files;
pub mod laws;
pub mod pattern;
pub mod strutil;
pub mod version;
