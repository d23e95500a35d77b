//! A range-repetition code-templating engine over an abstract token tree.
//!
//! An invocation `<ident> in <start>..<end> { <body> }` is expanded into a
//! replacement token sequence: either the body with a single `#( ... )*`
//! repetition marker expanded in place, or, when no marker is present,
//! the whole body repeated once per integer in the range.

pub mod decimal;
pub mod expand;
pub mod header;
pub mod laws;
pub mod scan;
pub mod subst;
pub mod token;
