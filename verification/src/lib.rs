//! Splits a composite markup document into its HTML, embedded script and
//! embedded style fragments, strips comments and non-semantic whitespace from
//! each fragment kind, and reassembles the fragments into one minified
//! document that preserves the original interleaving order.

pub mod assemble;
pub mod css;
pub mod html;
pub mod js;
pub mod minify;
pub mod parse;
pub mod text;

use vstd::prelude::*;

verus! {

} // verus!
