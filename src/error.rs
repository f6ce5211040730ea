//! Errors of the library.
use vstd::prelude::*;

verus! {

/// What can go wrong while reading a file or a configuration.
#[derive(Debug)]
pub enum XtvError {
    /// A record file breaks the grammar at the given line (counted from 1).
    LdifParse { line: usize, message: String },
    /// A file extension or format name that no reader handles.
    UnsupportedFormat(String),
    /// A node id that the tree does not hold.
    InvalidNodeId(usize),
    /// A configuration value out of its range.
    Config(String),
    /// A JSON text that does not decode.
    JsonParse(String),
    /// A document with more nodes than a tree can number.
    TooLarge(String),
}

impl XtvError {
    /// The message shown to the user.
    pub fn message(&self) -> String {
        match self {
            XtvError::LdifParse { line, message } => {
                let mut s = String::new();
                crate::text::append_str(&mut s, "LDIF parsing error at line ");
                crate::text::append_decimal(&mut s, *line);
                crate::text::append_str(&mut s, ": ");
                crate::text::append_str(&mut s, message.as_str());
                s
            },
            XtvError::UnsupportedFormat(m) => {
                let mut s = String::new();
                crate::text::append_str(&mut s, "Unsupported file format: ");
                crate::text::append_str(&mut s, m.as_str());
                s
            },
            XtvError::InvalidNodeId(id) => {
                let mut s = String::new();
                crate::text::append_str(&mut s, "Invalid node ID: ");
                crate::text::append_decimal(&mut s, *id);
                s
            },
            XtvError::JsonParse(m) => {
                let mut s = String::new();
                crate::text::append_str(&mut s, "JSON parsing error: ");
                crate::text::append_str(&mut s, m.as_str());
                s
            },
            XtvError::TooLarge(m) => {
                let mut s = String::new();
                crate::text::append_str(&mut s, "Document too large: ");
                crate::text::append_str(&mut s, m.as_str());
                s
            },
            XtvError::Config(m) => {
                let mut s = String::new();
                crate::text::append_str(&mut s, "Configuration error: ");
                crate::text::append_str(&mut s, m.as_str());
                s
            },
        }
    }
}

} // verus!
