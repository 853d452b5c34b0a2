//! Verified core of a filesystem facade for a markdown note-taking shell.
//!
//! The facade exposes six operations to a host GUI shell: list a directory,
//! read a text file, write a text file (creating missing parents), delete a
//! path recursively, rename a path, and save an image under a chosen or
//! default directory. The filesystem calls themselves are plain OS calls made
//! by the surrounding application; this crate holds everything the facade
//! decides or computes around them, with proofs:
//!
//! - the order of a directory listing (directories first, then names in
//!   ascending lexicographic order) in [`listing`],
//! - the path arithmetic (parent of a path, joining a directory and a file
//!   name) in [`paths`],
//! - the target-directory rule of the image-save operation in [`save`],
//! - the delete command's directory-or-file decision in [`delete`],
//! - the two error kinds the facade reports in [`error`].
pub mod delete;
pub mod error;
pub mod listing;
pub mod order;
pub mod paths;
pub mod save;
