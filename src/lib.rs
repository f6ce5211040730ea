//! Tree engine for browsing large hierarchical record files.
//!
//! A record file (blank-line separated records, each opened by a
//! hierarchical key) is read line by line (`ldif`), its records are placed
//! under their parents in one forward pass (`builder`), and the result is a
//! structural index (`index`) that a streaming tree answers from with a
//! bounded cache (`streaming`). The same queries are answered by the
//! in-memory arena tree (`tree`), and `facade` puts the two behind one
//! contract. `laws` states what every built index satisfies.

pub mod attrs;
pub mod builder;
pub mod config;
pub mod dn;
pub mod error;
pub mod facade;
pub mod formats;
pub mod index;
pub mod json;
pub mod laws;
pub mod ldif;
pub mod node;
pub mod streaming;
pub mod text;
pub mod tree;
pub mod values;
