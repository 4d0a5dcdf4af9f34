//! Discovery of Python environments: the rules by which search roots are
//! enumerated, cached records are trusted or withheld, and candidate
//! executables are identified by an ordered registry of locators.
//!
//! The library decides; it does not look. Whatever a decision rests on
//! outside the program (what a directory holds, when a file was changed,
//! what a command printed) is handed to it as a plain value, so that every
//! rule here holds of every file system.

pub mod text;
pub mod paths;
pub mod platform;
pub mod hash;
pub mod times;
pub mod environment;
pub mod reporter;
pub mod locator;
pub mod registry;
pub mod executable;
pub mod workspace;
pub mod virtualenvs;
pub mod cache;
pub mod validate;
pub mod find;
pub mod poetry;
