//! The style transform: strips carriage returns and block comments from each
//! style fragment, then collapses whitespace outside quoted string literals,
//! copying the literals through unchanged.

use vstd::prelude::*;
use vstd::string::*;

use crate::text::{
    block_comment_close, block_comment_open, find_at, is_ws_char, strip_cr, strip_cr_from,
    strip_enclosed, strip_enclosed_from, trim_exec, trim_spec, ws_end, ws_start,
};

verus! {

/// The punctuation characters that shed the spaces around them.
pub open spec fn is_css_punct(c: char) -> bool {
    c == '{' || c == '}' || c == ':' || c == ';' || c == ','
}

fn is_css_punct_exec(c: char) -> (b: bool)
    ensures
        b == is_css_punct(c),
{
    c == '{' || c == '}' || c == ':' || c == ';' || c == ','
}

/// `s` without its newlines, carriage returns and tabs.
pub open spec fn strip_nrt_from(s: Seq<char>, from: int) -> Seq<char>
    decreases s.len() - from
        when 0 <= from <= s.len()
{
    if from >= s.len() {
        Seq::empty()
    } else if s[from] == '\n' || s[from] == '\r' || s[from] == '\t' {
        strip_nrt_from(s, from + 1)
    } else {
        seq![s[from]] + strip_nrt_from(s, from + 1)
    }
}

fn strip_nrt(s: &str) -> (r: String)
    ensures
        r@ == strip_nrt_from(s@, 0),
{
    let n = s.unicode_len();
    let mut out = String::new();
    let mut from: usize = 0;
    while from < n
        invariant
            from <= n,
            n == s@.len(),
            strip_nrt_from(s@, 0) == out@ + strip_nrt_from(s@, from as int),
        decreases n - from,
    {
        let c = s.get_char(from);
        if c != '\n' && c != '\r' && c != '\t' {
            out.append(s.substring_char(from, from + 1));
            proof {
                assert(s@.subrange(from as int, from + 1) =~= seq![s@[from as int]]);
            }
        }
        from += 1;
    }
    out
}

/// `s` with every run of two or more spaces collapsed to a single space.
pub open spec fn collapse_spaces_from(s: Seq<char>, from: int) -> Seq<char>
    decreases s.len() - from
        when 0 <= from <= s.len()
{
    if from >= s.len() {
        Seq::empty()
    } else if s[from] == ' ' && from + 1 < s.len() && s[from + 1] == ' ' {
        collapse_spaces_from(s, from + 1)
    } else {
        seq![s[from]] + collapse_spaces_from(s, from + 1)
    }
}

fn collapse_spaces(s: &str) -> (r: String)
    ensures
        r@ == collapse_spaces_from(s@, 0),
{
    let n = s.unicode_len();
    let mut out = String::new();
    let mut from: usize = 0;
    while from < n
        invariant
            from <= n,
            n == s@.len(),
            collapse_spaces_from(s@, 0) == out@ + collapse_spaces_from(s@, from as int),
        decreases n - from,
    {
        let c = s.get_char(from);
        if !(c == ' ' && from + 1 < n && s.get_char(from + 1) == ' ') {
            out.append(s.substring_char(from, from + 1));
            proof {
                assert(s@.subrange(from as int, from + 1) =~= seq![s@[from as int]]);
            }
        }
        from += 1;
    }
    out
}

/// `s` without any space that stands immediately before or after one of the
/// punctuation characters `{ } : ; ,`.
pub open spec fn drop_punct_spaces_from(s: Seq<char>, from: int) -> Seq<char>
    decreases s.len() - from
        when 0 <= from <= s.len()
{
    if from >= s.len() {
        Seq::empty()
    } else if s[from] == ' ' && ((from > 0 && is_css_punct(s[from - 1])) || (from + 1 < s.len()
        && is_css_punct(s[from + 1]))) {
        drop_punct_spaces_from(s, from + 1)
    } else {
        seq![s[from]] + drop_punct_spaces_from(s, from + 1)
    }
}

fn drop_punct_spaces(s: &str) -> (r: String)
    ensures
        r@ == drop_punct_spaces_from(s@, 0),
{
    let n = s.unicode_len();
    let mut out = String::new();
    let mut from: usize = 0;
    while from < n
        invariant
            from <= n,
            n == s@.len(),
            drop_punct_spaces_from(s@, 0) == out@ + drop_punct_spaces_from(s@, from as int),
        decreases n - from,
    {
        let c = s.get_char(from);
        let before_punct = from > 0 && is_css_punct_exec(s.get_char(from - 1));
        let after_punct = from + 1 < n && is_css_punct_exec(s.get_char(from + 1));
        if !(c == ' ' && (before_punct || after_punct)) {
            out.append(s.substring_char(from, from + 1));
            proof {
                assert(s@.subrange(from as int, from + 1) =~= seq![s@[from as int]]);
            }
        }
        from += 1;
    }
    out
}

/// One non-literal segment cleaned: newlines, carriage returns and tabs
/// removed, space runs collapsed, spaces around punctuation dropped, and the
/// ends trimmed.
pub open spec fn css_clean_segment(seg: Seq<char>) -> Seq<char> {
    trim_spec(drop_punct_spaces_from(collapse_spaces_from(strip_nrt_from(seg, 0), 0), 0))
}

fn clean_segment(seg: &str) -> (r: String)
    ensures
        r@ == css_clean_segment(seg@),
{
    let a = strip_nrt(seg);
    let b = collapse_spaces(a.as_str());
    let c = drop_punct_spaces(b.as_str());
    trim_exec(c.as_str()).to_owned()
}

pub open spec fn is_quote(c: char) -> bool {
    c == '"' || c == '\''
}

/// The end (exclusive) of a string literal opened with quote `q`, scanning
/// from `j`: a backslash escapes the character after it, and a literal whose
/// quote is never closed has no end.
pub open spec fn lit_end_from(s: Seq<char>, q: char, j: int) -> Option<int>
    decreases s.len() - j
        when 0 <= j <= s.len()
{
    if j >= s.len() {
        None
    } else if s[j] == q {
        Some(j + 1)
    } else if s[j] == '\\' {
        if j + 2 <= s.len() {
            lit_end_from(s, q, j + 2)
        } else {
            None
        }
    } else {
        lit_end_from(s, q, j + 1)
    }
}

pub proof fn lemma_lit_end(s: Seq<char>, q: char, j: int)
    requires
        0 <= j <= s.len(),
    ensures
        match lit_end_from(s, q, j) {
            Some(e) => j < e <= s.len(),
            None => true,
        },
    decreases s.len() - j,
{
    if j >= s.len() {
    } else if s[j] == q {
    } else if s[j] == '\\' {
        if j + 2 <= s.len() {
            lemma_lit_end(s, q, j + 2);
        }
    } else {
        lemma_lit_end(s, q, j + 1);
    }
}

/// The start of the next terminated string literal at or after `from`: the
/// least position holding a quote character from which a matching close quote
/// is reached.
pub open spec fn next_lit_start(s: Seq<char>, from: int) -> Option<int>
    decreases s.len() - from
        when 0 <= from <= s.len()
{
    if from >= s.len() {
        None
    } else if is_quote(s[from]) && lit_end_from(s, s[from], from + 1) is Some {
        Some(from)
    } else {
        next_lit_start(s, from + 1)
    }
}

pub proof fn lemma_next_lit_start(s: Seq<char>, from: int)
    requires
        0 <= from <= s.len(),
    ensures
        match next_lit_start(s, from) {
            Some(a) => from <= a < s.len() && is_quote(s[a]) && lit_end_from(s, s[a], a + 1)
                is Some,
            None => true,
        },
    decreases s.len() - from,
{
    if from >= s.len() {
    } else if is_quote(s[from]) && lit_end_from(s, s[from], from + 1) is Some {
    } else {
        lemma_next_lit_start(s, from + 1);
    }
}

fn lit_end_exec(s: &str, q: char, j: usize, n: usize) -> (r: Option<usize>)
    requires
        j <= n,
        n == s@.len(),
    ensures
        match r {
            Some(e) => lit_end_from(s@, q, j as int) == Some(e as int),
            None => lit_end_from(s@, q, j as int) is None,
        },
{
    let mut p = j;
    loop
        invariant
            p <= n,
            n == s@.len(),
            lit_end_from(s@, q, j as int) == lit_end_from(s@, q, p as int),
        decreases n - p,
    {
        if p >= n {
            return None;
        }
        let c = s.get_char(p);
        if c == q {
            return Some(p + 1);
        }
        if c == '\\' {
            if n - p >= 2 {
                p += 2;
            } else {
                return None;
            }
        } else {
            p += 1;
        }
    }
}

/// The next terminated string literal at or after `from`, as a start and end
/// pair matching `next_lit_start` and `lit_end_from`.
fn next_literal(s: &str, from: usize, n: usize) -> (r: Option<(usize, usize)>)
    requires
        from <= n,
        n == s@.len(),
    ensures
        match r {
            Some((a, e)) => next_lit_start(s@, from as int) == Some(a as int) && lit_end_from(
                s@,
                s@[a as int],
                a + 1,
            ) == Some(e as int),
            None => next_lit_start(s@, from as int) is None,
        },
{
    let mut p = from;
    loop
        invariant
            from <= p <= n,
            n == s@.len(),
            next_lit_start(s@, from as int) == next_lit_start(s@, p as int),
        decreases n - p,
    {
        if p >= n {
            return None;
        }
        let c = s.get_char(p);
        if c == '"' || c == '\'' {
            match lit_end_exec(s, c, p + 1, n) {
                Some(e) => {
                    return Some((p, e));
                },
                None => {
                    p += 1;
                },
            }
        } else {
            p += 1;
        }
    }
}

/// Whitespace collapsing applied outside string literals only: the segments
/// between literals are cleaned, and the literals themselves are copied
/// through byte for byte.
pub open spec fn css_unquoted_from(s: Seq<char>, from: int) -> Seq<char>
    decreases s.len() - from
        when 0 <= from <= s.len()
{
    match next_lit_start(s, from) {
        None => css_clean_segment(s.subrange(from, s.len() as int)),
        Some(a) => match lit_end_from(s, s[a], a + 1) {
            Some(e) => {
                if from <= a < e <= s.len() {
                    css_clean_segment(s.subrange(from, a)) + s.subrange(a, e)
                        + css_unquoted_from(s, e)
                } else {
                    css_clean_segment(s.subrange(from, s.len() as int))
                }
            },
            None => css_clean_segment(s.subrange(from, s.len() as int)),
        },
    }
}

fn css_unquoted(s: &str) -> (r: String)
    ensures
        r@ == css_unquoted_from(s@, 0),
{
    let n = s.unicode_len();
    let mut out = String::new();
    let mut from: usize = 0;
    loop
        invariant_except_break
            css_unquoted_from(s@, 0) == out@ + css_unquoted_from(s@, from as int),
        invariant
            from <= n,
            n == s@.len(),
        ensures
            out@ == css_unquoted_from(s@, 0),
        decreases n - from,
    {
        match next_literal(s, from, n) {
            None => {
                out.append(clean_segment(s.substring_char(from, n)).as_str());
                break;
            },
            Some((a, e)) => {
                proof {
                    lemma_next_lit_start(s@, from as int);
                    lemma_lit_end(s@, s@[a as int], a + 1);
                }
                out.append(clean_segment(s.substring_char(from, a)).as_str());
                out.append(s.substring_char(a, e));
                from = e;
            },
        }
    }
    out
}

/// One style fragment minified: carriage returns removed, block comments
/// removed, then whitespace collapsed outside string literals.
pub open spec fn css_fragment_spec(s: Seq<char>) -> Seq<char> {
    css_unquoted_from(
        strip_enclosed_from(strip_cr_from(s, 0), block_comment_open(), block_comment_close(), 0),
        0,
    )
}

fn minify_fragment(part: &str) -> (r: String)
    ensures
        r@ == css_fragment_spec(part@),
{
    let no_cr = strip_cr(part);
    proof {
        reveal_strlit("/*");
        reveal_strlit("*/");
        assert("/*"@ =~= block_comment_open());
        assert("*/"@ =~= block_comment_close());
    }
    let no_comments = strip_enclosed(no_cr.as_str(), "/*", "*/");
    css_unquoted(no_comments.as_str())
}

/// Minifies each style fragment in order; the result always holds exactly one
/// output per input.
pub fn minify(css_parts: Vec<&str>) -> (r: Result<Vec<String>, ()>)
    ensures
        r is Ok,
        r->Ok_0.deep_view() == css_parts.deep_view().map_values(
            |f: Seq<char>| css_fragment_spec(f),
        ),
{
    let mut out: Vec<String> = Vec::new();
    let mut i: usize = 0;
    while i < css_parts.len()
        invariant
            i <= css_parts.len(),
            out.len() == i,
            forall|k: int|
                0 <= k < i ==> out.deep_view()[k] == css_fragment_spec(css_parts.deep_view()[k]),
        decreases css_parts.len() - i,
    {
        let m = minify_fragment(css_parts[i]);
        let ghost prev = out.deep_view();
        out.push(m);
        proof {
            assert forall|k: int| 0 <= k < i + 1 implies out.deep_view()[k] == css_fragment_spec(
                css_parts.deep_view()[k],
            ) by {
                if k < i {
                    assert(out@[k] == out@.drop_last()[k]);
                    assert(out.deep_view()[k] == prev[k]);
                } else {
                    assert(out@[k].deep_view() == m@);
                }
            }
        }
        i += 1;
    }
    proof {
        assert(out.deep_view() =~= css_parts.deep_view().map_values(
            |f: Seq<char>| css_fragment_spec(f),
        ));
    }
    Ok(out)
}

} // verus!
