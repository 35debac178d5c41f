//! Turns a written scripture citation, such as `1 Nephi 3:4`, into the
//! address of that passage in the online scripture library.
//!
//! A citation is cut into book name, chapter and verse (`grammar`), the book
//! name is resolved against a registry of known spellings (`registry`,
//! `resolve`), and the resolved reference is written out as an address
//! (`reference`, `address`).

pub mod address;
pub mod grammar;
pub mod laws;
pub mod reference;
pub mod registry;
pub mod resolve;
pub mod text;

pub use crate::reference::{Reference, ToUriString, Verse};
pub use crate::registry::BookRegistry;
pub use crate::resolve::BookAbbreviation;
