//! A minimal command-line token parser.
//!
//! [`Arguments::parse`] scans an ordered sequence of string tokens once, left
//! to right, classifying each token that begins with `-` as a flag occurrence
//! and peeking at the following token for an optional value. The result is an
//! immutable multi-valued index queried through [`Arguments`]'s methods.
//!
//! The parsing rule and its edge cases (a flag at the end of input, a flag
//! followed by another flag, repeated flag names) are stated precisely by the
//! specification functions in [`model`], and the query methods' contracts are
//! proved against that model. General properties relating several operations
//! are stated and proved in [`laws`].

pub mod model;
mod backing;
mod args;
pub mod laws;

pub use args::Arguments;
