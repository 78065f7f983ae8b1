//! Conversion of text between naming conventions such as `snake_case`,
//! `camelCase` and `Title Case`.
//!
//! A conversion has two steps. The text is first split into words at the
//! boundaries that a set of rules finds ([`words::segment`]); the words are
//! then cased and joined as the target convention asks ([`render::render`]).
//! The trait [`Casing`] binds the two together for `str`, `String` and
//! [`FromCasing`].

pub mod boundary;
pub mod case;
pub mod casing;
pub mod laws;
pub mod layout;
pub mod render;
pub mod spans;
pub mod unicode;
pub mod words;

pub use crate::boundary::{CharClass, Ruleset};
pub use crate::case::{Case, Pattern};
pub use crate::casing::{Casing, FromCasing};
