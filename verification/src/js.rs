//! The script transform: strips carriage returns, block comments and
//! line comments from each script fragment, then strips the space characters
//! anchored to the very start and very end of the fragment as a whole.
//! Line-comment removal is unaware of string and regex literals, and interior
//! line indentation is kept: both follow the documented scanning rules.

use vstd::prelude::*;
use vstd::string::*;

use crate::text::{
    block_comment_close, block_comment_open, find_at, lemma_find_at, find_from, strip_cr,
    strip_cr_from, strip_enclosed, strip_enclosed_from,
};

verus! {

/// The two characters that open a line comment.
pub open spec fn line_comment_open() -> Seq<char> {
    seq!['/', '/']
}

pub open spec fn nl_seq() -> Seq<char> {
    seq!['\n']
}

/// `s` with every span from a `//` to the end of its line removed; the
/// newline itself is kept, and a comment on the last line runs to the end.
pub open spec fn strip_line_comments_from(s: Seq<char>, from: int) -> Seq<char>
    decreases s.len() - from
        when 0 <= from <= s.len()
{
    match find_at(s, line_comment_open(), from) {
        None => s.subrange(from, s.len() as int),
        Some(a) => match find_at(s, nl_seq(), a) {
            None => if from <= a <= s.len() {
                s.subrange(from, a)
            } else {
                s.subrange(from, s.len() as int)
            },
            Some(x) => {
                if from <= a <= x && x + 1 <= s.len() {
                    s.subrange(from, a) + seq!['\n'] + strip_line_comments_from(s, x + 1)
                } else {
                    s.subrange(from, s.len() as int)
                }
            },
        },
    }
}

fn strip_line_comments(s: &str) -> (r: String)
    ensures
        r@ == strip_line_comments_from(s@, 0),
{
    let n = s.unicode_len();
    proof {
        reveal_strlit("//");
        reveal_strlit("\n");
        assert("//"@ =~= line_comment_open());
        assert("\n"@ =~= nl_seq());
    }
    let mut out = String::new();
    let mut from: usize = 0;
    loop
        invariant_except_break
            strip_line_comments_from(s@, 0) == out@ + strip_line_comments_from(s@, from as int),
        invariant
            from <= n,
            n == s@.len(),
            "//"@ == line_comment_open(),
            "\n"@ == nl_seq(),
        ensures
            out@ == strip_line_comments_from(s@, 0),
        decreases n - from,
    {
        match find_from(s, "//", from) {
            None => {
                out.append(s.substring_char(from, n));
                break;
            },
            Some(a) => {
                proof {
                    lemma_find_at(s@, line_comment_open(), from as int);
                }
                match find_from(s, "\n", a) {
                    None => {
                        out.append(s.substring_char(from, a));
                        break;
                    },
                    Some(x) => {
                        proof {
                            lemma_find_at(s@, nl_seq(), a as int);
                        }
                        out.append(s.substring_char(from, a));
                        out.append("\n");
                        from = x + 1;
                    },
                }
            },
        }
    }
    out
}

/// The end of the run of space characters that starts at `i`.
pub open spec fn sp_end(s: Seq<char>, i: int) -> int
    decreases s.len() - i
        when 0 <= i <= s.len()
{
    if i < s.len() && s[i] == ' ' {
        sp_end(s, i + 1)
    } else {
        i
    }
}

/// The start of the run of space characters that ends just before `j`.
pub open spec fn sp_start(s: Seq<char>, j: int) -> int
    decreases j
        when 0 <= j <= s.len()
{
    if j > 0 && s[j - 1] == ' ' {
        sp_start(s, j - 1)
    } else {
        j
    }
}

/// `s` without the space characters at its very start.
pub open spec fn strip_lead_spaces(s: Seq<char>) -> Seq<char> {
    let a = sp_end(s, 0);
    if 0 <= a <= s.len() {
        s.subrange(a, s.len() as int)
    } else {
        s
    }
}

/// `s` without the space characters at its very end.
pub open spec fn strip_trail_spaces(s: Seq<char>) -> Seq<char> {
    let b = sp_start(s, s.len() as int);
    if 0 <= b <= s.len() {
        s.subrange(0, b)
    } else {
        s
    }
}

fn strip_lead(s: &str) -> (r: String)
    ensures
        r@ == strip_lead_spaces(s@),
{
    let n = s.unicode_len();
    let mut a: usize = 0;
    while a < n
        invariant_except_break
            a <= n,
            n == s@.len(),
            sp_end(s@, 0) == sp_end(s@, a as int),
        ensures
            a <= n,
            sp_end(s@, 0) == a,
        decreases n - a,
    {
        if s.get_char(a) != ' ' {
            break;
        }
        a += 1;
    }
    s.substring_char(a, n).to_owned()
}

fn strip_trail(s: &str) -> (r: String)
    ensures
        r@ == strip_trail_spaces(s@),
{
    let n = s.unicode_len();
    let mut b: usize = n;
    while b > 0
        invariant_except_break
            b <= n,
            n == s@.len(),
            sp_start(s@, n as int) == sp_start(s@, b as int),
        ensures
            b <= n,
            sp_start(s@, n as int) == b,
        decreases b,
    {
        if s.get_char(b - 1) != ' ' {
            break;
        }
        b -= 1;
    }
    s.substring_char(0, b).to_owned()
}

/// One script fragment minified: carriage returns removed, block comments
/// removed, line comments removed, and the fragment's outermost space
/// characters stripped.
pub open spec fn js_fragment_spec(s: Seq<char>) -> Seq<char> {
    strip_trail_spaces(
        strip_lead_spaces(
            strip_line_comments_from(
                strip_enclosed_from(
                    strip_cr_from(s, 0),
                    block_comment_open(),
                    block_comment_close(),
                    0,
                ),
                0,
            ),
        ),
    )
}

fn minify_fragment(part: &str) -> (r: String)
    ensures
        r@ == js_fragment_spec(part@),
{
    let no_cr = strip_cr(part);
    proof {
        reveal_strlit("/*");
        reveal_strlit("*/");
        assert("/*"@ =~= block_comment_open());
        assert("*/"@ =~= block_comment_close());
    }
    let no_block = strip_enclosed(no_cr.as_str(), "/*", "*/");
    let no_line = strip_line_comments(no_block.as_str());
    let lead = strip_lead(no_line.as_str());
    strip_trail(lead.as_str())
}

/// Minifies each script fragment in order; the result always holds exactly
/// one output per input.
pub fn minify(js_parts: Vec<&str>) -> (r: Result<Vec<String>, ()>)
    ensures
        r is Ok,
        r->Ok_0.deep_view() == js_parts.deep_view().map_values(
            |f: Seq<char>| js_fragment_spec(f),
        ),
{
    let mut out: Vec<String> = Vec::new();
    let mut i: usize = 0;
    while i < js_parts.len()
        invariant
            i <= js_parts.len(),
            out.len() == i,
            forall|k: int|
                0 <= k < i ==> out.deep_view()[k] == js_fragment_spec(js_parts.deep_view()[k]),
        decreases js_parts.len() - i,
    {
        let m = minify_fragment(js_parts[i]);
        let ghost prev = out.deep_view();
        out.push(m);
        proof {
            assert forall|k: int| 0 <= k < i + 1 implies out.deep_view()[k] == js_fragment_spec(
                js_parts.deep_view()[k],
            ) by {
                if k < i {
                    assert(out@[k] == out@.drop_last()[k]);
                    assert(out.deep_view()[k] == prev[k]);
                } else {
                    assert(out@[k].deep_view() == m@);
                }
            }
        }
        i += 1;
    }
    proof {
        assert(out.deep_view() =~= js_parts.deep_view().map_values(
            |f: Seq<char>| js_fragment_spec(f),
        ));
    }
    Ok(out)
}

} // verus!
