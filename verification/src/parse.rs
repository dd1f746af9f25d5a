//! The splitter: a single left-to-right scan that partitions a document into
//! markup fragments, script fragments and style fragments, together with the
//! block-order sequence that records which kind of block stood at each
//! interleaving point. Splitting is total: it never fails, whatever the input.

use vstd::prelude::*;
use vstd::string::*;

use crate::text::{find_at, find_from, lemma_find_at, trim_exec, trim_spec};

verus! {

/// The kind of one embedded block, in document order.
#[derive(Debug, Clone, Copy, PartialEq, Eq, Structural)]
pub enum BlockType {
    Script,
    Style,
}

/// The splitter's result: fragments of each kind in document order, and the
/// block-order sequence.
#[derive(Debug)]
pub struct FileStructure<'a> {
    pub html: Vec<&'a str>,
    pub js: Vec<&'a str>,
    pub css: Vec<&'a str>,
    pub block_order: Vec<BlockType>,
}

impl FileStructure<'_> {
    pub fn new() -> (r: Self)
        ensures
            r.html@.len() == 0,
            r.js@.len() == 0,
            r.css@.len() == 0,
            r.block_order@.len() == 0,
    {
        Self { html: Vec::new(), js: Vec::new(), css: Vec::new(), block_order: Vec::new() }
    }
}

pub open spec fn script_open_seq() -> Seq<char> {
    seq!['<', 's', 'c', 'r', 'i', 'p', 't']
}

pub open spec fn style_open_seq() -> Seq<char> {
    seq!['<', 's', 't', 'y', 'l', 'e']
}

pub open spec fn script_close_seq() -> Seq<char> {
    seq!['<', '/', 's', 'c', 'r', 'i', 'p', 't', '>']
}

pub open spec fn style_close_seq() -> Seq<char> {
    seq!['<', '/', 's', 't', 'y', 'l', 'e', '>']
}

pub open spec fn gt_seq() -> Seq<char> {
    seq!['>']
}

/// The pending markup span `[a, b)`, trimmed; an empty trimmed span yields no
/// fragment.
pub open spec fn html_flush(s: Seq<char>, a: int, b: int) -> Seq<Seq<char>> {
    if 0 <= a <= b <= s.len() && trim_spec(s.subrange(a, b)).len() > 0 {
        seq![trim_spec(s.subrange(a, b))]
    } else {
        Seq::empty()
    }
}

/// The position of the earlier of the two tag openings, given where each was
/// found.
pub open spec fn pick_pos(sc: Option<int>, st: Option<int>) -> int {
    match (sc, st) {
        (Some(a), Some(b)) => if a < b {
            a
        } else {
            b
        },
        (Some(a), None) => a,
        (None, Some(b)) => b,
        (None, None) => 0,
    }
}

/// Whether the earlier of the two tag openings is a script opening.
pub open spec fn pick_script(sc: Option<int>, st: Option<int>) -> bool {
    match (sc, st) {
        (Some(a), Some(b)) => a < b,
        (Some(a), None) => true,
        (None, Some(b)) => false,
        (None, None) => true,
    }
}

/// One step of the scan, from position `pos` with pending markup starting at
/// `lhe`. The next `<script` or `<style` opening is selected; a tag whose
/// opening never closes with `>` is ordinary text; a block whose closing tag
/// is missing consumes the rest of the document and ends the scan; an empty
/// trimmed block is dropped without a block-order entry. The result lists the
/// markup, script and style fragments, and the block kinds, that the scan
/// emits from this point on.
pub open spec fn split_from(s: Seq<char>, pos: int, lhe: int) -> (
    Seq<Seq<char>>,
    Seq<Seq<char>>,
    Seq<Seq<char>>,
    Seq<BlockType>,
)
    decreases s.len() - pos
        when 0 <= lhe <= pos <= s.len()
{
    let none = (html_flush(s, lhe, s.len() as int), Seq::<Seq<char>>::empty(), Seq::<
        Seq<char>,
    >::empty(), Seq::<BlockType>::empty());
    if pos >= s.len() {
        none
    } else {
        let sc = find_at(s, script_open_seq(), pos);
        let st = find_at(s, style_open_seq(), pos);
        if sc is None && st is None {
            none
        } else {
            let ts = pick_pos(sc, st);
            let is_script = pick_script(sc, st);
            match find_at(s, gt_seq(), ts) {
                None => if pos < ts + 1 <= s.len() {
                    split_from(s, ts + 1, lhe)
                } else {
                    none
                },
                Some(g) => {
                    let oe = g + 1;
                    let close = if is_script {
                        script_close_seq()
                    } else {
                        style_close_seq()
                    };
                    match find_at(s, close, oe) {
                        None => if lhe <= oe <= s.len() {
                            let h = html_flush(s, lhe, oe);
                            let c = trim_spec(s.subrange(oe, s.len() as int));
                            if c.len() == 0 {
                                (h, Seq::empty(), Seq::empty(), Seq::empty())
                            } else if is_script {
                                (h, seq![c], Seq::empty(), seq![BlockType::Script])
                            } else {
                                (h, Seq::empty(), seq![c], seq![BlockType::Style])
                            }
                        } else {
                            none
                        },
                        Some(cs) => {
                            let ce = cs + close.len();
                            if lhe <= oe <= cs && pos < ce <= s.len() {
                                let h = html_flush(s, lhe, oe);
                                let c = trim_spec(s.subrange(oe, cs));
                                let rest = split_from(s, ce, cs);
                                if c.len() == 0 {
                                    (h + rest.0, rest.1, rest.2, rest.3)
                                } else if is_script {
                                    (
                                        h + rest.0,
                                        seq![c] + rest.1,
                                        rest.2,
                                        seq![BlockType::Script] + rest.3,
                                    )
                                } else {
                                    (
                                        h + rest.0,
                                        rest.1,
                                        seq![c] + rest.2,
                                        seq![BlockType::Style] + rest.3,
                                    )
                                }
                            } else {
                                none
                            }
                        },
                    }
                },
            }
        }
    }
}

/// The whole document split, scanning from its start.
pub open spec fn split_spec(s: Seq<char>) -> (
    Seq<Seq<char>>,
    Seq<Seq<char>>,
    Seq<Seq<char>>,
    Seq<BlockType>,
) {
    split_from(s, 0, 0)
}

/// Pushes the trimmed markup span `[a, b)` of `file` unless it trims to
/// nothing.
fn push_flush<'a>(html: &mut Vec<&'a str>, file: &'a str, a: usize, b: usize)
    requires
        a <= b,
        b <= file@.len(),
    ensures
        final(html).deep_view() == old(html).deep_view() + html_flush(file@, a as int, b as int),
{
    let ghost prev = html.deep_view();
    let chunk = trim_exec(file.substring_char(a, b));
    if !chunk.is_empty() {
        html.push(chunk);
        proof {
            assert(html.deep_view() =~= prev + html_flush(file@, a as int, b as int));
        }
    } else {
        proof {
            assert(html.deep_view() =~= prev + html_flush(file@, a as int, b as int));
        }
    }
}

/// Splits a document into markup, script and style fragments and the
/// block-order sequence, by one left-to-right scan. Never fails: any input,
/// including the empty or a malformed one, yields `Ok`.
pub fn split_file_into_parts<'a>(file: &'a str) -> (r: Result<FileStructure<'a>, ()>)
    ensures
        r is Ok,
        r->Ok_0.html.deep_view() == split_spec(file@).0,
        r->Ok_0.js.deep_view() == split_spec(file@).1,
        r->Ok_0.css.deep_view() == split_spec(file@).2,
        r->Ok_0.block_order@ == split_spec(file@).3,
{
    let n = file.unicode_len();
    proof {
        reveal_strlit("<script");
        reveal_strlit("<style");
        reveal_strlit("</script>");
        reveal_strlit("</style>");
        reveal_strlit(">");
        assert("<script"@ =~= script_open_seq());
        assert("<style"@ =~= style_open_seq());
        assert("</script>"@ =~= script_close_seq());
        assert("</style>"@ =~= style_close_seq());
        assert(">"@ =~= gt_seq());
    }
    let mut html: Vec<&'a str> = Vec::new();
    let mut js: Vec<&'a str> = Vec::new();
    let mut css: Vec<&'a str> = Vec::new();
    let mut block_order: Vec<BlockType> = Vec::new();
    let mut pos: usize = 0;
    let mut lhe: usize = 0;
    loop
        invariant_except_break
            lhe <= pos <= n,
            n == file@.len(),
            "<script"@ == script_open_seq(),
            "<style"@ == style_open_seq(),
            "</script>"@ == script_close_seq(),
            "</style>"@ == style_close_seq(),
            ">"@ == gt_seq(),
            split_spec(file@).0 == html.deep_view() + split_from(file@, pos as int, lhe as int).0,
            split_spec(file@).1 == js.deep_view() + split_from(file@, pos as int, lhe as int).1,
            split_spec(file@).2 == css.deep_view() + split_from(file@, pos as int, lhe as int).2,
            split_spec(file@).3 == block_order@ + split_from(file@, pos as int, lhe as int).3,
        ensures
            html.deep_view() == split_spec(file@).0,
            js.deep_view() == split_spec(file@).1,
            css.deep_view() == split_spec(file@).2,
            block_order@ == split_spec(file@).3,
        decreases n - pos,
    {
        let ghost rest = split_from(file@, pos as int, lhe as int);
        if pos >= n {
            push_flush(&mut html, file, lhe, n);
            proof {
                assert(html.deep_view() =~= split_spec(file@).0);
            }
            break;
        }
        let sc = find_from(file, "<script", pos);
        let st = find_from(file, "<style", pos);
        proof {
            lemma_find_at(file@, script_open_seq(), pos as int);
            lemma_find_at(file@, style_open_seq(), pos as int);
        }
        let picked: Option<(usize, bool)> = match (sc, st) {
            (Some(a), Some(b)) => if a < b {
                Some((a, true))
            } else {
                Some((b, false))
            },
            (Some(a), None) => Some((a, true)),
            (None, Some(b)) => Some((b, false)),
            (None, None) => None,
        };
        match picked {
            None => {
                push_flush(&mut html, file, lhe, n);
                proof {
                    assert(html.deep_view() =~= split_spec(file@).0);
                }
                break;
            },
            Some((ts, is_script)) => {
                match find_from(file, ">", ts) {
                    None => {
                        pos = ts + 1;
                    },
                    Some(g) => {
                        proof {
                            lemma_find_at(file@, gt_seq(), ts as int);
                        }
                        let oe = g + 1;
                        let close_str: &str = if is_script {
                            "</script>"
                        } else {
                            "</style>"
                        };
                        match find_from(file, close_str, oe) {
                            None => {
                                let ghost prev_html = html.deep_view();
                                push_flush(&mut html, file, lhe, oe);
                                let content = trim_exec(file.substring_char(oe, n));
                                if !content.is_empty() {
                                    if is_script {
                                        js.push(content);
                                        block_order.push(BlockType::Script);
                                    } else {
                                        css.push(content);
                                        block_order.push(BlockType::Style);
                                    }
                                }
                                proof {
                                    assert(html.deep_view() =~= prev_html + rest.0);
                                    assert(html.deep_view() =~= split_spec(file@).0);
                                    assert(js.deep_view() =~= split_spec(file@).1);
                                    assert(css.deep_view() =~= split_spec(file@).2);
                                    assert(block_order@ =~= split_spec(file@).3);
                                }
                                break;
                            },
                            Some(cs) => {
                                proof {
                                    if is_script {
                                        lemma_find_at(file@, script_close_seq(), oe as int);
                                    } else {
                                        lemma_find_at(file@, style_close_seq(), oe as int);
                                    }
                                }
                                let ce = cs + close_str.unicode_len();
                                let ghost prev_html = html.deep_view();
                                let ghost prev_js = js.deep_view();
                                let ghost prev_css = css.deep_view();
                                let ghost prev_order = block_order@;
                                push_flush(&mut html, file, lhe, oe);
                                let content = trim_exec(file.substring_char(oe, cs));
                                if !content.is_empty() {
                                    if is_script {
                                        js.push(content);
                                        block_order.push(BlockType::Script);
                                    } else {
                                        css.push(content);
                                        block_order.push(BlockType::Style);
                                    }
                                }
                                proof {
                                    let nxt = split_from(file@, ce as int, cs as int);
                                    assert(rest.0 == html_flush(file@, lhe as int, oe as int)
                                        + nxt.0);
                                    assert(html.deep_view() + nxt.0 =~= prev_html + rest.0);
                                    assert(js.deep_view() + nxt.1 =~= prev_js + rest.1);
                                    assert(css.deep_view() + nxt.2 =~= prev_css + rest.2);
                                    assert(block_order@ + nxt.3 =~= prev_order + rest.3);
                                }
                                lhe = cs;
                                pos = ce;
                            },
                        }
                    },
                }
            },
        }
    }
    Ok(FileStructure { html, js, css, block_order })
}

/// The closing tag text for a tag name: `</`, the name, `>`.
pub open spec fn close_tag_seq(tag: Seq<char>) -> Seq<char> {
    seq!['<', '/'] + tag + seq!['>']
}

/// What extracting a single block yields: `None` when no `>` closes the
/// opening tag; otherwise the content up to the matching closing tag together
/// with the position just past it, or up to the end of the document when the
/// closing tag is missing.
pub open spec fn extract_spec(s: Seq<char>, start: int, tag: Seq<char>) -> Option<(Seq<char>, int)> {
    match find_at(s, gt_seq(), start) {
        None => None,
        Some(g) => {
            let oe = g + 1;
            if 0 <= oe <= s.len() {
                match find_at(s, close_tag_seq(tag), oe) {
                    None => Some((s.subrange(oe, s.len() as int), s.len() as int)),
                    Some(cs) => if oe <= cs && cs + close_tag_seq(tag).len() <= s.len() {
                        Some((s.subrange(oe, cs), cs + close_tag_seq(tag).len()))
                    } else {
                        Some((s.subrange(oe, s.len() as int), s.len() as int))
                    },
                }
            } else {
                None
            }
        },
    }
}

/// Extracts the content of the block whose opening tag begins at `start`:
/// the span from the first `>` after `start` to the closing tag of `tag`, or
/// to the end of the document when that closing tag is missing.
pub fn extract_single_tag_content<'a>(input: &'a str, start: usize, tag: &str) -> (r: Result<
    Option<(&'a str, usize)>,
    (),
>)
    requires
        start <= input@.len(),
    ensures
        r is Ok,
        match extract_spec(input@, start as int, tag@) {
            None => r->Ok_0 is None,
            Some(p) => (match r->Ok_0 {
                Some(ce) => ce.0@ == p.0 && ce.1 == p.1,
                None => false,
            }),
        },
{
    let n = input.unicode_len();
    let mut close = String::new();
    close.append("</");
    close.append(tag);
    close.append(">");
    proof {
        reveal_strlit("</");
        reveal_strlit(">");
        assert(close@ =~= close_tag_seq(tag@));
        assert(">"@ =~= gt_seq());
    }
    match find_from(input, ">", start) {
        None => Ok(None),
        Some(g) => {
            proof {
                lemma_find_at(input@, gt_seq(), start as int);
            }
            let oe = g + 1;
            match find_from(input, close.as_str(), oe) {
                Some(cs) => {
                    proof {
                        lemma_find_at(input@, close_tag_seq(tag@), oe as int);
                    }
                    let e = cs + close.unicode_len();
                    Ok(Some((input.substring_char(oe, cs), e)))
                },
                None => Ok(Some((input.substring_char(oe, n), n))),
            }
        },
    }
}

/// How many entries of `order` hold the kind `k`.
pub open spec fn count_kind(order: Seq<BlockType>, k: BlockType) -> nat
    decreases order.len(),
{
    if order.len() == 0 {
        0
    } else {
        (if order[0] == k {
            1nat
        } else {
            0nat
        }) + count_kind(order.drop_first(), k)
    }
}

/// Every block-order entry is a script or a style entry, so the two counts
/// partition the sequence.
pub proof fn lemma_count_total(order: Seq<BlockType>)
    ensures
        order.len() == count_kind(order, BlockType::Script) + count_kind(order, BlockType::Style),
    decreases order.len(),
{
    if order.len() > 0 {
        lemma_count_total(order.drop_first());
        match order[0] {
            BlockType::Script => {},
            BlockType::Style => {},
        }
    }
}

proof fn lemma_count_prepend(x: BlockType, rest: Seq<BlockType>, k: BlockType)
    ensures
        count_kind(seq![x] + rest, k) == (if x == k {
            1nat
        } else {
            0nat
        }) + count_kind(rest, k),
{
    assert((seq![x] + rest).drop_first() =~= rest);
    assert((seq![x] + rest)[0] == x);
}

proof fn lemma_split_from_counts(s: Seq<char>, pos: int, lhe: int)
    requires
        0 <= lhe <= pos <= s.len(),
    ensures
        ({
            let r = split_from(s, pos, lhe);
            r.1.len() == count_kind(r.3, BlockType::Script) && r.2.len() == count_kind(
                r.3,
                BlockType::Style,
            )
        }),
    decreases s.len() - pos,
{
    let r = split_from(s, pos, lhe);
    assert(count_kind(Seq::<BlockType>::empty(), BlockType::Script) == 0);
    assert(count_kind(Seq::<BlockType>::empty(), BlockType::Style) == 0);
    if pos >= s.len() {
    } else {
        let sc = find_at(s, script_open_seq(), pos);
        let st = find_at(s, style_open_seq(), pos);
        if sc is None && st is None {
        } else {
            let ts = pick_pos(sc, st);
            let is_script = pick_script(sc, st);
            match find_at(s, gt_seq(), ts) {
                None => {
                    if pos < ts + 1 <= s.len() {
                        lemma_split_from_counts(s, ts + 1, lhe);
                    }
                },
                Some(g) => {
                    let oe = g + 1;
                    let close = if is_script {
                        script_close_seq()
                    } else {
                        style_close_seq()
                    };
                    match find_at(s, close, oe) {
                        None => {
                            if lhe <= oe <= s.len() {
                                let c = trim_spec(s.subrange(oe, s.len() as int));
                                if c.len() == 0 {
                                } else {
                                    assert(seq![BlockType::Script].drop_first()
                                        =~= Seq::<BlockType>::empty());
                                    assert(seq![BlockType::Style].drop_first()
                                        =~= Seq::<BlockType>::empty());
                                }
                            }
                        },
                        Some(cs) => {
                            let ce = cs + close.len();
                            if lhe <= oe <= cs && pos < ce <= s.len() {
                                let c = trim_spec(s.subrange(oe, cs));
                                let rest = split_from(s, ce, cs);
                                lemma_split_from_counts(s, ce, cs);
                                if c.len() == 0 {
                                } else if is_script {
                                    lemma_count_prepend(BlockType::Script, rest.3, BlockType::Script);
                                    lemma_count_prepend(BlockType::Script, rest.3, BlockType::Style);
                                } else {
                                    lemma_count_prepend(BlockType::Style, rest.3, BlockType::Script);
                                    lemma_count_prepend(BlockType::Style, rest.3, BlockType::Style);
                                }
                            }
                        },
                    }
                },
            }
        }
    }
}

/// For every document, the block-order sequence is exactly as long as the
/// script count plus the style count, the script count equals the number of
/// script fragments, and the style count equals the number of style
/// fragments.
pub proof fn lemma_split_block_order(s: Seq<char>)
    ensures
        ({
            let r = split_spec(s);
            r.3.len() == count_kind(r.3, BlockType::Script) + count_kind(r.3, BlockType::Style)
                && r.1.len() == count_kind(r.3, BlockType::Script) && r.2.len() == count_kind(
                r.3,
                BlockType::Style,
            ) && r.3.len() == r.1.len() + r.2.len()
        }),
{
    lemma_split_from_counts(s, 0, 0);
    lemma_count_total(split_spec(s).3);
}

} // verus!
