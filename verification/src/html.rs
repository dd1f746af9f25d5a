//! The markup transform: strips carriage returns and `<!-- -->` comments from
//! each markup fragment, removes whitespace runs that sit strictly between a
//! `>` and the next `<`, and strips such runs at the fragment's very start
//! and end. Whitespace inside text nodes is left untouched.

use vstd::prelude::*;
use vstd::string::*;

use crate::text::{
    find_at, is_ws_char, is_ws_exec, lemma_ws_end, lemma_ws_start, strip_cr, strip_cr_from,
    strip_enclosed, strip_enclosed_from, ws_end, ws_end_exec, ws_start, ws_start_exec,
};

verus! {

/// The opening delimiter of a markup comment.
pub open spec fn html_comment_open() -> Seq<char> {
    seq!['<', '!', '-', '-']
}

/// The closing delimiter of a markup comment.
pub open spec fn html_comment_close() -> Seq<char> {
    seq!['-', '-', '>']
}

/// A whitespace run starts right after a `>` at `p` and reaches the next `<`.
pub open spec fn gap_at(s: Seq<char>, p: int) -> bool {
    0 <= p && p + 1 < s.len() && s[p] == '>' && is_ws_char(s[p + 1]) && ws_end(s, p + 1) < s.len()
        && s[ws_end(s, p + 1)] == '<'
}

/// The least position at or after `from` where an inter-tag whitespace gap
/// begins.
pub open spec fn next_gap(s: Seq<char>, from: int) -> Option<int>
    decreases s.len() - from
        when 0 <= from <= s.len()
{
    if from >= s.len() {
        None
    } else if gap_at(s, from) {
        Some(from)
    } else {
        next_gap(s, from + 1)
    }
}

pub proof fn lemma_next_gap(s: Seq<char>, from: int)
    requires
        0 <= from <= s.len(),
    ensures
        match next_gap(s, from) {
            Some(p) => from <= p && gap_at(s, p),
            None => true,
        },
    decreases s.len() - from,
{
    if from >= s.len() {
    } else if gap_at(s, from) {
    } else {
        lemma_next_gap(s, from + 1);
    }
}

/// `s` with every whitespace run that sits strictly between a `>` and the
/// next `<` removed.
pub open spec fn strip_gaps_from(s: Seq<char>, from: int) -> Seq<char>
    decreases s.len() - from
        when 0 <= from <= s.len()
{
    match next_gap(s, from) {
        None => s.subrange(from, s.len() as int),
        Some(p) => {
            let e = ws_end(s, p + 1);
            if from <= p && p + 2 <= e <= s.len() {
                s.subrange(from, p + 1) + strip_gaps_from(s, e)
            } else {
                s.subrange(from, s.len() as int)
            }
        },
    }
}

/// The next inter-tag gap at or after `from`, as the position of its `>` and
/// the position of its `<`.
fn next_gap_exec(s: &str, from: usize, n: usize) -> (r: Option<(usize, usize)>)
    requires
        from <= n,
        n == s@.len(),
    ensures
        match r {
            Some((p, e)) => next_gap(s@, from as int) == Some(p as int) && e == ws_end(s@, p + 1)
                && gap_at(s@, p as int),
            None => next_gap(s@, from as int) is None,
        },
{
    let mut p = from;
    loop
        invariant
            from <= p <= n,
            n == s@.len(),
            next_gap(s@, from as int) == next_gap(s@, p as int),
        decreases n - p,
    {
        if p >= n {
            return None;
        }
        let mut is_gap = false;
        let mut e: usize = 0;
        if s.get_char(p) == '>' && p + 1 < n && is_ws_exec(s.get_char(p + 1)) {
            e = ws_end_exec(s, p + 1, n);
            proof {
                lemma_ws_end(s@, p + 1);
            }
            if e < n && s.get_char(e) == '<' {
                is_gap = true;
            }
        }
        if is_gap {
            return Some((p, e));
        }
        proof {
            assert(!gap_at(s@, p as int));
        }
        p += 1;
    }
}

fn strip_gaps(s: &str) -> (r: String)
    ensures
        r@ == strip_gaps_from(s@, 0),
{
    let n = s.unicode_len();
    let mut out = String::new();
    let mut from: usize = 0;
    loop
        invariant_except_break
            strip_gaps_from(s@, 0) == out@ + strip_gaps_from(s@, from as int),
        invariant
            from <= n,
            n == s@.len(),
        ensures
            out@ == strip_gaps_from(s@, 0),
        decreases n - from,
    {
        match next_gap_exec(s, from, n) {
            None => {
                out.append(s.substring_char(from, n));
                break;
            },
            Some((p, e)) => {
                proof {
                    lemma_next_gap(s@, from as int);
                    lemma_ws_end(s@, p + 1);
                }
                out.append(s.substring_char(from, p + 1));
                from = e;
            },
        }
    }
    out
}

/// A leading whitespace run is stripped when it is followed by a `<`.
pub open spec fn strip_lead_ws_lt(s: Seq<char>) -> Seq<char> {
    let a = ws_end(s, 0);
    if 0 < a && a < s.len() && s[a] == '<' {
        s.subrange(a, s.len() as int)
    } else {
        s
    }
}

/// A trailing whitespace run is stripped when it is preceded by a `>`.
pub open spec fn strip_trail_ws_gt(s: Seq<char>) -> Seq<char> {
    let b = ws_start(s, s.len() as int);
    if 1 <= b && b < s.len() && s[b - 1] == '>' {
        s.subrange(0, b)
    } else {
        s
    }
}

fn strip_lead(s: &str) -> (r: String)
    ensures
        r@ == strip_lead_ws_lt(s@),
{
    let n = s.unicode_len();
    let a = ws_end_exec(s, 0, n);
    proof {
        lemma_ws_end(s@, 0);
    }
    if 0 < a && a < n && s.get_char(a) == '<' {
        s.substring_char(a, n).to_owned()
    } else {
        s.to_owned()
    }
}

fn strip_trail(s: &str) -> (r: String)
    ensures
        r@ == strip_trail_ws_gt(s@),
{
    let n = s.unicode_len();
    let b = ws_start_exec(s, n, n);
    proof {
        lemma_ws_start(s@, n as int);
    }
    if 1 <= b && b < n && s.get_char(b - 1) == '>' {
        s.substring_char(0, b).to_owned()
    } else {
        s.to_owned()
    }
}

/// One markup fragment minified: carriage returns removed, comments removed,
/// inter-tag whitespace gaps removed, and boundary runs stripped.
pub open spec fn html_fragment_spec(s: Seq<char>) -> Seq<char> {
    strip_trail_ws_gt(
        strip_lead_ws_lt(
            strip_gaps_from(
                strip_enclosed_from(strip_cr_from(s, 0), html_comment_open(), html_comment_close(), 0),
                0,
            ),
        ),
    )
}

fn minify_fragment(part: &str) -> (r: String)
    ensures
        r@ == html_fragment_spec(part@),
{
    let no_cr = strip_cr(part);
    proof {
        reveal_strlit("<!--");
        reveal_strlit("-->");
        assert("<!--"@ =~= html_comment_open());
        assert("-->"@ =~= html_comment_close());
    }
    let no_comments = strip_enclosed(no_cr.as_str(), "<!--", "-->");
    let no_gaps = strip_gaps(no_comments.as_str());
    let lead = strip_lead(no_gaps.as_str());
    strip_trail(lead.as_str())
}

/// Minifies each markup fragment in order; the result always holds exactly
/// one output per input.
pub fn minify(html_parts: Vec<&str>) -> (r: Result<Vec<String>, ()>)
    ensures
        r is Ok,
        r->Ok_0.deep_view() == html_parts.deep_view().map_values(
            |f: Seq<char>| html_fragment_spec(f),
        ),
{
    let mut out: Vec<String> = Vec::new();
    let mut i: usize = 0;
    while i < html_parts.len()
        invariant
            i <= html_parts.len(),
            out.len() == i,
            forall|k: int|
                0 <= k < i ==> out.deep_view()[k] == html_fragment_spec(html_parts.deep_view()[k]),
        decreases html_parts.len() - i,
    {
        let m = minify_fragment(html_parts[i]);
        let ghost prev = out.deep_view();
        out.push(m);
        proof {
            assert forall|k: int| 0 <= k < i + 1 implies out.deep_view()[k] == html_fragment_spec(
                html_parts.deep_view()[k],
            ) by {
                if k < i {
                    assert(out@[k] == out@.drop_last()[k]);
                    assert(out.deep_view()[k] == prev[k]);
                } else {
                    assert(out@[k].deep_view() == m@);
                }
            }
        }
        i += 1;
    }
    proof {
        assert(out.deep_view() =~= html_parts.deep_view().map_values(
            |f: Seq<char>| html_fragment_spec(f),
        ));
    }
    Ok(out)
}

} // verus!
