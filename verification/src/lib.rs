//! Turns arbitrary text into URL-friendly slugs and file-system-safe names.
//!
//! A [`Slugifier`] holds the configuration; [`Slugifier::slugify`],
//! [`Slugifier::slugify_ascii`] and [`Slugifier::sanitize_filename`] are pure
//! functions of the configuration and their input, each with a contract over
//! sequences of characters.

pub mod filename;
pub mod laws;
pub mod shape;
pub mod slug;
pub mod slugifier;
pub mod text;

pub use crate::slugifier::{slugify, slugify_ascii, Settings, Slugifier};
