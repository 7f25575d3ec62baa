//! Named fragments of a source file as documentation snippets.
//!
//! A declaration is marked for lookup with an export tag, an attribute that is
//! written `export`, alone or under the namespace `docify`, and that may name
//! the key under which the declaration is found. A lookup takes the parsed
//! file and a key, and gives the matching declarations as fenced blocks of
//! formatted source text; without a key it gives the whole file as one block.
//!
//! The formatter is not called from here. A lookup by key has two steps: the
//! first gives the source texts of the matches, the caller has them laid out,
//! and the second makes the blocks of the layouts.
//!
//! - [`model`]: the declarations of a file, one shape for all kinds;
//! - [`resolve`]: which attributes are export tags, and their keys;
//! - [`matcher`]: the search through the tree of declarations;
//! - [`order`]: what is proved of every search;
//! - [`render`]: the fenced blocks;
//! - [`embed`]: the lookup as a whole, and its errors;
//! - [`text`]: lines and joins over the characters of a text;
//! - [`outside`]: the calls that are taken on trust.

pub mod embed;
pub mod matcher;
pub mod model;
pub mod order;
pub mod outside;
pub mod render;
pub mod resolve;
pub mod text;
