//! Mirroring a directory tree through a flat manifest of tagged paths.
//!
//! The verified library decides everything that the tool computes: how a base
//! URL is cleaned, which walked entries reach the manifest and how each line
//! reads, how the manifest text splits into lines, and what each line asks for
//! when the tree is fetched back. Walking the disk, talking HTTP and writing
//! files are left to the program around it.

pub mod exclude;
pub mod fetch;
pub mod laws;
pub mod manifest;
mod text;
pub mod url;

pub use text::{is_space, trim};
pub use url::{file_url, filename, manifest_url, sanitized_url};
pub use exclude::{keep_name, Exclusion, InvalidPattern};
pub use manifest::{generate_manifest, WalkEntry};
pub use fetch::{line_action, split_lines, Action, UnknownKind};
