//! The reassembler: interleaves the minified fragments back into a single
//! document, using the block-order sequence to decide, at each interleaving
//! point, whether the next script or the next style fragment is inserted.

use vstd::prelude::*;
use vstd::string::*;

use crate::parse::BlockType;

verus! {

/// The minified fragments of each kind together with the block-order
/// sequence, ready for reassembly.
pub struct FileParts {
    pub html: Vec<String>,
    pub js: Vec<String>,
    pub css: Vec<String>,
    pub block_order: Vec<BlockType>,
}

impl FileParts {
    pub fn new() -> (r: Self)
        ensures
            r.html@.len() == 0,
            r.js@.len() == 0,
            r.css@.len() == 0,
            r.block_order@.len() == 0,
    {
        Self { html: Vec::new(), js: Vec::new(), css: Vec::new(), block_order: Vec::new() }
    }
}

/// The fragment at cursor `i`, or nothing once the sequence is exhausted.
pub open spec fn piece(v: Seq<Seq<char>>, i: int) -> Seq<char> {
    if 0 <= i < v.len() {
        v[i]
    } else {
        Seq::empty()
    }
}

/// The cursor after taking a fragment: it advances only while fragments
/// remain.
pub open spec fn bump(v: Seq<Seq<char>>, i: int) -> int {
    if 0 <= i < v.len() {
        i + 1
    } else {
        i
    }
}

/// The document tail emitted from block-order position `k` on, with the
/// three cursors at `hi`, `ji` and `ci`: each block-order entry inserts the
/// next fragment of its kind, then the next markup fragment, and an
/// exhausted cursor inserts nothing.
pub open spec fn assemble_from(
    html: Seq<Seq<char>>,
    js: Seq<Seq<char>>,
    css: Seq<Seq<char>>,
    order: Seq<BlockType>,
    hi: int,
    ji: int,
    ci: int,
    k: int,
) -> Seq<char>
    decreases order.len() - k
        when 0 <= k
{
    if k >= order.len() {
        Seq::empty()
    } else {
        let block = match order[k] {
            BlockType::Script => piece(js, ji),
            BlockType::Style => piece(css, ci),
        };
        let ji2 = match order[k] {
            BlockType::Script => bump(js, ji),
            BlockType::Style => ji,
        };
        let ci2 = match order[k] {
            BlockType::Script => ci,
            BlockType::Style => bump(css, ci),
        };
        block + piece(html, hi) + assemble_from(html, js, css, order, bump(html, hi), ji2, ci2, k + 1)
    }
}

/// The whole reassembled document: the first markup fragment, then the tail
/// driven by the block-order sequence.
pub open spec fn assemble_spec(
    html: Seq<Seq<char>>,
    js: Seq<Seq<char>>,
    css: Seq<Seq<char>>,
    order: Seq<BlockType>,
) -> Seq<char> {
    piece(html, 0) + assemble_from(html, js, css, order, bump(html, 0), 0, 0, 0)
}

/// Interleaves the fragments back into one document in the recorded order.
pub fn generate_file_from_structure(file_parts: &FileParts) -> (r: String)
    ensures
        r@ == assemble_spec(
            file_parts.html.deep_view(),
            file_parts.js.deep_view(),
            file_parts.css.deep_view(),
            file_parts.block_order@,
        ),
{
    let ghost gh = file_parts.html.deep_view();
    let ghost gj = file_parts.js.deep_view();
    let ghost gc = file_parts.css.deep_view();
    let ghost go = file_parts.block_order@;
    let mut result = String::new();
    let mut js_index: usize = 0;
    let mut css_index: usize = 0;
    let mut html_index: usize = 0;
    if html_index < file_parts.html.len() {
        result.append(file_parts.html[html_index].as_str());
        html_index += 1;
    }
    let mut k: usize = 0;
    while k < file_parts.block_order.len()
        invariant
            k <= file_parts.block_order.len(),
            gh == file_parts.html.deep_view(),
            gj == file_parts.js.deep_view(),
            gc == file_parts.css.deep_view(),
            go == file_parts.block_order@,
            html_index <= gh.len(),
            js_index <= gj.len(),
            css_index <= gc.len(),
            assemble_spec(gh, gj, gc, go) == result@ + assemble_from(
                gh,
                gj,
                gc,
                go,
                html_index as int,
                js_index as int,
                css_index as int,
                k as int,
            ),
        decreases file_parts.block_order.len() - k,
    {
        match file_parts.block_order[k] {
            BlockType::Script => {
                if js_index < file_parts.js.len() {
                    result.append(file_parts.js[js_index].as_str());
                    js_index += 1;
                }
            },
            BlockType::Style => {
                if css_index < file_parts.css.len() {
                    result.append(file_parts.css[css_index].as_str());
                    css_index += 1;
                }
            },
        }
        if html_index < file_parts.html.len() {
            result.append(file_parts.html[html_index].as_str());
            html_index += 1;
        }
        k += 1;
    }
    result
}

} // verus!
