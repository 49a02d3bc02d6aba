//! Shorthand construction of associative containers and strings.
//!
//! The heart of the crate is a flexible container-construction facility: a
//! dispatcher ([`builder::build`]) that accepts an argument list written in any
//! of several notations for key-value entries and folds it into one
//! [`container::Container`] with last-write-wins semantics, and a pair-iterable
//! normalizer ([`helpers::mapper`], [`helpers::normalize`]) that turns a plain
//! sequence of pairs into such a container. A small string-assembly utility
//! ([`assemble`]) lives beside them as an independent leaf.

pub mod assemble;
pub mod builder;
pub mod container;
pub mod helpers;
pub mod laws;
