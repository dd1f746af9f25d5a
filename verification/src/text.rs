//! Character-level scanning primitives shared by the splitter and the three
//! fragment transforms: substring search, whitespace runs, trimming, and
//! removal of delimited spans, each with a specification over `Seq<char>`.

use vstd::prelude::*;
use vstd::string::*;

verus! {

/// The whitespace characters recognised when trimming fragments and
/// collapsing inter-tag gaps.
pub open spec fn is_ws_char(c: char) -> bool {
    c == ' ' || c == '\t' || c == '\n' || c == '\r' || c == '\u{b}' || c == '\u{c}'
}

pub fn is_ws_exec(c: char) -> (b: bool)
    ensures
        b == is_ws_char(c),
{
    c == ' ' || c == '\t' || c == '\n' || c == '\r' || c == '\u{b}' || c == '\u{c}'
}

/// The pattern `pat` occurs in `s` starting at position `i`.
pub open spec fn match_at(s: Seq<char>, pat: Seq<char>, i: int) -> bool {
    0 <= i && i + pat.len() <= s.len() && s.subrange(i, i + pat.len()) == pat
}

/// The least position at or after `from` where `pat` occurs in `s`, if any.
pub open spec fn find_at(s: Seq<char>, pat: Seq<char>, from: int) -> Option<int>
    decreases s.len() - from
        when 0 <= from <= s.len() && pat.len() >= 1
{
    if from + pat.len() > s.len() {
        None
    } else if match_at(s, pat, from) {
        Some(from)
    } else {
        find_at(s, pat, from + 1)
    }
}

pub proof fn lemma_find_at(s: Seq<char>, pat: Seq<char>, from: int)
    requires
        0 <= from <= s.len(),
        pat.len() >= 1,
    ensures
        match find_at(s, pat, from) {
            Some(i) => from <= i && match_at(s, pat, i) && forall|j: int|
                from <= j < i ==> !match_at(s, pat, j),
            None => forall|j: int| from <= j ==> !match_at(s, pat, j),
        },
    decreases s.len() - from,
{
    if from + pat.len() > s.len() {
    } else if match_at(s, pat, from) {
    } else {
        lemma_find_at(s, pat, from + 1);
    }
}

fn match_at_exec(s: &str, pat: &str, i: usize, n: usize) -> (b: bool)
    requires
        n == s@.len(),
        i <= n,
    ensures
        b == match_at(s@, pat@, i as int),
{
    let m = pat.unicode_len();
    if m > n - i {
        assert(!match_at(s@, pat@, i as int));
        return false;
    }
    let mut k: usize = 0;
    while k < m
        invariant
            k <= m,
            m == pat@.len(),
            n == s@.len(),
            i + m <= n,
            forall|t: int| 0 <= t < k ==> s@[i + t] == pat@[t],
        decreases m - k,
    {
        if s.get_char(i + k) != pat.get_char(k) {
            proof {
                if match_at(s@, pat@, i as int) {
                    assert(s@.subrange(i as int, i + m)[k as int] == pat@[k as int]);
                }
            }
            return false;
        }
        k += 1;
    }
    proof {
        assert(s@.subrange(i as int, i + m) =~= pat@);
    }
    true
}

/// The least position at or after `from` where `pat` occurs in `s`, as
/// `find_at` gives it.
pub fn find_from(s: &str, pat: &str, from: usize) -> (r: Option<usize>)
    requires
        from <= s@.len(),
        pat@.len() >= 1,
    ensures
        match r {
            Some(i) => find_at(s@, pat@, from as int) == Some(i as int),
            None => find_at(s@, pat@, from as int) is None,
        },
{
    let n = s.unicode_len();
    let m = pat.unicode_len();
    let mut i = from;
    while m <= n - i
        invariant
            from <= i <= n,
            n == s@.len(),
            m == pat@.len(),
            m >= 1,
            find_at(s@, pat@, from as int) == find_at(s@, pat@, i as int),
        decreases n - i,
    {
        if match_at_exec(s, pat, i, n) {
            return Some(i);
        }
        i += 1;
    }
    None
}

/// The end of the whitespace run that starts at `i`: the first position at or
/// after `i` that holds no whitespace character.
pub open spec fn ws_end(s: Seq<char>, i: int) -> int
    decreases s.len() - i
        when 0 <= i <= s.len()
{
    if i < s.len() && is_ws_char(s[i]) {
        ws_end(s, i + 1)
    } else {
        i
    }
}

/// The start of the whitespace run that ends just before `j`: the least
/// position from which every character up to `j` is whitespace.
pub open spec fn ws_start(s: Seq<char>, j: int) -> int
    decreases j
        when 0 <= j <= s.len()
{
    if j > 0 && is_ws_char(s[j - 1]) {
        ws_start(s, j - 1)
    } else {
        j
    }
}

pub proof fn lemma_ws_end(s: Seq<char>, i: int)
    requires
        0 <= i <= s.len(),
    ensures
        i <= ws_end(s, i) <= s.len(),
        forall|t: int| i <= t < ws_end(s, i) ==> is_ws_char(s[t]),
        ws_end(s, i) < s.len() ==> !is_ws_char(s[ws_end(s, i)]),
    decreases s.len() - i,
{
    if i < s.len() && is_ws_char(s[i]) {
        lemma_ws_end(s, i + 1);
    }
}

pub proof fn lemma_ws_start(s: Seq<char>, j: int)
    requires
        0 <= j <= s.len(),
    ensures
        0 <= ws_start(s, j) <= j,
        forall|t: int| ws_start(s, j) <= t < j ==> is_ws_char(s[t]),
        ws_start(s, j) > 0 ==> !is_ws_char(s[ws_start(s, j) - 1]),
    decreases j,
{
    if j > 0 && is_ws_char(s[j - 1]) {
        lemma_ws_start(s, j - 1);
    }
}

pub fn ws_end_exec(s: &str, i: usize, n: usize) -> (r: usize)
    requires
        n == s@.len(),
        i <= n,
    ensures
        r == ws_end(s@, i as int),
{
    let mut a = i;
    while a < n
        invariant_except_break
            i <= a <= n,
            n == s@.len(),
            ws_end(s@, i as int) == ws_end(s@, a as int),
        ensures
            a <= n,
            ws_end(s@, i as int) == a,
        decreases n - a,
    {
        if !is_ws_exec(s.get_char(a)) {
            break;
        }
        a += 1;
    }
    a
}

pub fn ws_start_exec(s: &str, j: usize, n: usize) -> (r: usize)
    requires
        n == s@.len(),
        j <= n,
    ensures
        r == ws_start(s@, j as int),
{
    let mut b = j;
    while b > 0
        invariant_except_break
            b <= j <= n,
            n == s@.len(),
            ws_start(s@, j as int) == ws_start(s@, b as int),
        ensures
            b <= j,
            ws_start(s@, j as int) == b,
        decreases b,
    {
        if !is_ws_exec(s.get_char(b - 1)) {
            break;
        }
        b -= 1;
    }
    b
}

/// `s` without its leading and trailing whitespace.
pub open spec fn trim_spec(s: Seq<char>) -> Seq<char> {
    let a = ws_end(s, 0);
    let b = ws_start(s, s.len() as int);
    if 0 <= a && a <= b && b <= s.len() {
        s.subrange(a, b)
    } else {
        Seq::empty()
    }
}

/// Trims leading and trailing whitespace, borrowing from the input.
pub fn trim_exec<'a>(s: &'a str) -> (r: &'a str)
    ensures
        r@ == trim_spec(s@),
{
    let n = s.unicode_len();
    let a = ws_end_exec(s, 0, n);
    let b = ws_start_exec(s, n, n);
    proof {
        lemma_ws_end(s@, 0);
        lemma_ws_start(s@, n as int);
    }
    if a >= b {
        proof {
            if ws_end(s@, 0) > ws_start(s@, n as int) {
                // the run from the left and the run from the right overlap,
                // so every character is whitespace and both runs span `s`
                assert(is_ws_char(s@[ws_start(s@, n as int)]));
                assert(ws_start(s@, n as int) > 0 ==> !is_ws_char(
                    s@[ws_start(s@, n as int) - 1],
                ));
                if ws_start(s@, n as int) > 0 {
                    assert(is_ws_char(s@[ws_start(s@, n as int) - 1]));
                }
            }
            assert(trim_spec(s@) =~= Seq::<char>::empty());
            reveal_strlit("");
            assert(""@ =~= Seq::<char>::empty());
        }
        ""
    } else {
        s.substring_char(a, b)
    }
}

/// Removes every span that runs from an occurrence of `open` to the first
/// following occurrence of `close`, scanning left to right from `from`; an
/// occurrence of `open` with no terminator is kept as ordinary text.
pub open spec fn strip_enclosed_from(
    s: Seq<char>,
    open: Seq<char>,
    close: Seq<char>,
    from: int,
) -> Seq<char>
    decreases s.len() - from
        when 0 <= from <= s.len() && open.len() >= 1 && close.len() >= 1
{
    match find_at(s, open, from) {
        None => s.subrange(from, s.len() as int),
        Some(a) => match find_at(s, close, a + open.len()) {
            None => s.subrange(from, s.len() as int),
            Some(q) => {
                let nxt = q + close.len();
                if from <= a <= s.len() && from < nxt <= s.len() {
                    s.subrange(from, a) + strip_enclosed_from(s, open, close, nxt)
                } else {
                    s.subrange(from, s.len() as int)
                }
            },
        },
    }
}

/// Removes every `open`..`close` span of `s`, as `strip_enclosed_from` gives it.
pub fn strip_enclosed(s: &str, open: &str, close: &str) -> (r: String)
    requires
        open@.len() >= 1,
        close@.len() >= 1,
    ensures
        r@ == strip_enclosed_from(s@, open@, close@, 0),
{
    let n = s.unicode_len();
    let mut out = String::new();
    let mut from: usize = 0;
    loop
        invariant_except_break
            strip_enclosed_from(s@, open@, close@, 0) == out@ + strip_enclosed_from(
                s@,
                open@,
                close@,
                from as int,
            ),
        invariant
            from <= n,
            n == s@.len(),
            open@.len() >= 1,
            close@.len() >= 1,
        ensures
            out@ == strip_enclosed_from(s@, open@, close@, 0),
        decreases n - from,
    {
        match find_from(s, open, from) {
            None => {
                out.append(s.substring_char(from, n));
                break;
            },
            Some(a) => {
                proof {
                    lemma_find_at(s@, open@, from as int);
                }
                let oe = a + open.unicode_len();
                match find_from(s, close, oe) {
                    None => {
                        out.append(s.substring_char(from, n));
                        break;
                    },
                    Some(q) => {
                        proof {
                            lemma_find_at(s@, close@, oe as int);
                        }
                        out.append(s.substring_char(from, a));
                        from = q + close.unicode_len();
                    },
                }
            },
        }
    }
    out
}

/// The opening delimiter of a CSS or script block comment.
pub open spec fn block_comment_open() -> Seq<char> {
    seq!['/', '*']
}

/// The closing delimiter of a CSS or script block comment.
pub open spec fn block_comment_close() -> Seq<char> {
    seq!['*', '/']
}

/// `s` without its carriage-return characters.
pub open spec fn strip_cr_from(s: Seq<char>, from: int) -> Seq<char>
    decreases s.len() - from
        when 0 <= from <= s.len()
{
    if from >= s.len() {
        Seq::empty()
    } else if s[from] == '\r' {
        strip_cr_from(s, from + 1)
    } else {
        seq![s[from]] + strip_cr_from(s, from + 1)
    }
}

/// Removes every carriage return of `s`.
pub fn strip_cr(s: &str) -> (r: String)
    ensures
        r@ == strip_cr_from(s@, 0),
{
    let n = s.unicode_len();
    let mut out = String::new();
    let mut from: usize = 0;
    while from < n
        invariant
            from <= n,
            n == s@.len(),
            strip_cr_from(s@, 0) == out@ + strip_cr_from(s@, from as int),
        decreases n - from,
    {
        if s.get_char(from) != '\r' {
            out.append(s.substring_char(from, from + 1));
            proof {
                assert(s@.subrange(from as int, from + 1) =~= seq![s@[from as int]]);
            }
        }
        from += 1;
    }
    out
}

} // verus!
