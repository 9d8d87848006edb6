//! The request logic of a collaborative story forest: trees of text nodes,
//! their stories from root to leaf, and the accounts that write them.
//!
//! Each request is answered here from the rows the database returned for
//! it; fetching those rows and speaking HTTP is left to the program that
//! embeds the library. Passwords are hashed and checked with bcrypt.

pub mod error;
pub mod tree;
pub mod story;
pub mod account;
pub mod flat;
