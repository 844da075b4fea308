//! Verified core of a page-renaming tool for scanned books and comics.
//!
//! The library decides, from a directory listing handed in as plain values,
//! how each page image is renamed: portrait images take one canonical index,
//! landscape or square images take two, and every staged name carries a
//! protective `.bak` suffix so that no rename can overwrite a file that has
//! not been renamed yet. A second pass strips the suffix. All filesystem
//! work is left to the caller, which applies the returned rename actions.

pub mod canonical;
pub mod classify;
pub mod ext;
pub mod image;
pub mod laws;
pub mod offset;
pub mod plan;
pub mod sort;
