//! The whole pipeline: carriage returns stripped, the document split, each
//! fragment kind minified by its own transform, and the fragments
//! reassembled in the recorded interleaving order.

use vstd::prelude::*;

use crate::assemble::{assemble_spec, generate_file_from_structure, FileParts};
use crate::css::css_fragment_spec;
use crate::html::html_fragment_spec;
use crate::js::js_fragment_spec;
use crate::parse::{split_file_into_parts, split_spec, FileStructure};
use crate::text::{strip_cr, strip_cr_from};

verus! {

/// The minified document: the split of the carriage-return-free input, each
/// fragment sequence passed through its transform, reassembled in block
/// order.
pub open spec fn minify_file_spec(doc: Seq<char>) -> Seq<char> {
    let s = strip_cr_from(doc, 0);
    let parts = split_spec(s);
    assemble_spec(
        parts.0.map_values(|f: Seq<char>| html_fragment_spec(f)),
        parts.1.map_values(|f: Seq<char>| js_fragment_spec(f)),
        parts.2.map_values(|f: Seq<char>| css_fragment_spec(f)),
        parts.3,
    )
}

/// Minifies a whole document. Never fails: every scanning and transform step
/// is total over any input text.
pub fn minify_file(file_given: String) -> (r: String)
    ensures
        r@ == minify_file_spec(file_given@),
{
    let file = strip_cr(file_given.as_str());
    let parsed = match split_file_into_parts(file.as_str()) {
        Ok(p) => p,
        Err(_) => FileStructure::new(),
    };
    let block_order = parsed.block_order;
    let html_min = match crate::html::minify(parsed.html) {
        Ok(v) => v,
        Err(_) => Vec::new(),
    };
    let js_min = match crate::js::minify(parsed.js) {
        Ok(v) => v,
        Err(_) => Vec::new(),
    };
    let css_min = match crate::css::minify(parsed.css) {
        Ok(v) => v,
        Err(_) => Vec::new(),
    };
    let file_parts = FileParts { html: html_min, js: js_min, css: css_min, block_order };
    generate_file_from_structure(&file_parts)
}

} // verus!
