//! Verified core of the yudao project scaffolder.
//!
//! The scaffolder generates a project from the yudao templates: it picks the
//! templates and their download addresses, keeps the selected business
//! modules and UI variant, renames packages and the project, and sets ports,
//! the tenant switch and the super administrator in the template's
//! configuration texts. Every such decision and text edit is a function of
//! this crate with a contract; reading and writing files, downloading and
//! extracting archives are left to the caller.
pub mod error;
pub mod text;
pub mod config;
pub mod catalog;
pub mod pom;
pub mod sql;
pub mod archive;
pub mod settings;
pub mod project;
pub mod paths;
pub mod download;
