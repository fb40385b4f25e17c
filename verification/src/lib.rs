//! The distribution of file sizes under a directory tree.
//!
//! The library holds the rules of the traversal and proves them: which
//! entries are recorded, skipped, entered or reported ([`policy`]), how a
//! directory is enumerated into a growing buffer ([`enumerator`]), how the
//! lookups of a directory wait in a ring of fixed capacity ([`ring`],
//! [`engine`]) and pass through it in batches ([`batch`]), how directories
//! are handed to the workers of a pool ([`scheduler`]), and how the sizes
//! are gathered in histograms that merge ([`histogram`], [`resolution`]).
//! What the whole comes to is stated once, over a tree of plain values
//! ([`tree`]), and every traversal is held to it ([`traverse`]).
//!
//! The file system itself is asked by the caller, who hands the answers in
//! as plain values.

pub mod batch;
pub mod config;
pub mod engine;
pub mod entry;
pub mod enumerator;
pub mod histogram;
pub mod policy;
pub mod resolution;
pub mod ring;
pub mod scheduler;
pub mod traverse;
pub mod tree;

pub use config::Config;
pub use traverse::dir_size_histogram;
