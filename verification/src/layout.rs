//! Layout insensitivity of the lexer: how much whitespace separates tokens,
//! and `//` comments at the end of a line, never change the tokens or the
//! error a source text gives.
//!
//! The core is a simulation: two texts that agree on a window of characters,
//! and whose windows end where a scan cannot run on (a blank, a newline or the
//! end), lex the same from the start of the window once they lex the same from
//! its end.
use vstd::prelude::*;
use crate::lexer::{
    digits_end, is_digit, is_white_space, is_word_char, is_word_start, lemma_digits_end,
    lemma_line_end, lex, lex_from, line_end, pair_tok, single_tok, word_end,
};

verus! {

/// A blank: a space or a tab.
pub open spec fn is_blank(c: char) -> bool {
    c == ' ' || c == '\t'
}

/// A non-empty run of blanks.
pub open spec fn blank_run(w: Seq<char>) -> bool {
    w.len() > 0 && forall|j: int| 0 <= j < w.len() ==> is_blank(#[trigger] w[j])
}

/// Position `e` of `s` ends every scan: it is the end, a blank or a newline.
pub open spec fn scan_stops(s: Seq<char>, e: int) -> bool {
    e == s.len() || (0 <= e < s.len() && (is_blank(s[e]) || s[e] == '\n'))
}

/// `s1[i..e]` equals `s2[i + d..e + d]`.
pub open spec fn window_agrees(s1: Seq<char>, s2: Seq<char>, d: int, i: int, e: int) -> bool {
    &&& 0 <= i <= e <= s1.len()
    &&& 0 <= i + d
    &&& e + d <= s2.len()
    &&& forall|j: int| i <= j < e ==> #[trigger] s1[j] == s2[j + d]
}

proof fn lemma_digits_window(s1: Seq<char>, s2: Seq<char>, d: int, i: int, e: int)
    requires
        window_agrees(s1, s2, d, i, e),
        scan_stops(s1, e),
        scan_stops(s2, e + d),
    ensures
        i <= digits_end(s1, i) <= e,
        digits_end(s2, i + d) == digits_end(s1, i) + d,
    decreases e - i,
{
    if i < e {
        assert(s1[i] == s2[i + d]);
        if is_digit(s1[i]) {
            lemma_digits_window(s1, s2, d, i + 1, e);
        }
    }
}

proof fn lemma_word_window(s1: Seq<char>, s2: Seq<char>, d: int, i: int, e: int)
    requires
        window_agrees(s1, s2, d, i, e),
        scan_stops(s1, e),
        scan_stops(s2, e + d),
    ensures
        i <= word_end(s1, i) <= e,
        word_end(s2, i + d) == word_end(s1, i) + d,
    decreases e - i,
{
    if i < e {
        assert(s1[i] == s2[i + d]);
        if is_word_char(s1[i]) {
            lemma_word_window(s1, s2, d, i + 1, e);
        }
    }
}

proof fn lemma_line_window(s1: Seq<char>, s2: Seq<char>, d: int, i: int, e: int)
    requires
        window_agrees(s1, s2, d, i, e),
    ensures
        i <= line_end(s1, i),
        (line_end(s1, i) < e && line_end(s2, i + d) == line_end(s1, i) + d) || (line_end(s1, i)
            == line_end(s1, e) && line_end(s2, i + d) == line_end(s2, e + d)),
    decreases e - i,
{
    lemma_line_end(s1, i);
    if i < e {
        assert(s1[i] == s2[i + d]);
        if s1[i] != '\n' {
            lemma_line_window(s1, s2, d, i + 1, e);
        }
    }
}

/// Two texts lex the same from the start of a window on which they agree,
/// given that the window ends where no scan runs on, and that they lex the
/// same from its end and from the end of the line its end is on.
proof fn lemma_lex_window(s1: Seq<char>, s2: Seq<char>, d: int, i: int, e: int, line: nat)
    requires
        window_agrees(s1, s2, d, i, e),
        scan_stops(s1, e),
        scan_stops(s2, e + d),
        forall|l: nat| lex_from(s1, e, l) == #[trigger] lex_from(s2, e + d, l),
        forall|l: nat| lex_from(s1, line_end(s1, e), l) == #[trigger] lex_from(s2, line_end(s2, e + d), l),
    ensures
        lex_from(s1, i, line) == lex_from(s2, i + d, line),
    decreases e - i,
{
    if i == e {
        assert(lex_from(s1, e, line) == lex_from(s2, e + d, line));
    } else {
        let c = s1[i];
        assert(s2[i + d] == c);
        if i + 1 < e {
            assert(s2[i + 1 + d] == s1[i + 1]);
        }
        if c == '\n' {
            lemma_lex_window(s1, s2, d, i + 1, e, line + 1);
        } else if is_white_space(c) {
            lemma_lex_window(s1, s2, d, i + 1, e, line);
        } else if c == '/' && i + 1 < s1.len() && s1[i + 1] == '/' {
            lemma_line_window(s1, s2, d, i, e);
            lemma_line_end(s1, i + 1);
            if line_end(s1, i) < e {
                lemma_lex_window(s1, s2, d, line_end(s1, i), e, line);
            } else {
                assert(lex_from(s1, line_end(s1, e), line) == lex_from(
                    s2,
                    line_end(s2, e + d),
                    line,
                ));
            }
        } else if pair_tok(s1, i) is Some {
            assert(pair_tok(s2, i + d) == pair_tok(s1, i));
            lemma_lex_window(s1, s2, d, i + 2, e, line);
        } else if single_tok(c) is Some {
            assert(pair_tok(s2, i + d) is None);
            lemma_lex_window(s1, s2, d, i + 1, e, line);
        } else if is_digit(c) {
            assert(pair_tok(s2, i + d) is None);
            lemma_digits_window(s1, s2, d, i, e);
            lemma_digits_end(s1, i + 1);
            let x = digits_end(s1, i);
            assert(s1.subrange(i, x) =~= s2.subrange(i + d, x + d));
            lemma_lex_window(s1, s2, d, x, e, line);
        } else if is_word_start(c) {
            assert(pair_tok(s2, i + d) is None);
            lemma_word_window(s1, s2, d, i + 1, e);
            let x = word_end(s1, i + 1);
            assert(s1.subrange(i, x) =~= s2.subrange(i + d, x + d));
            lemma_lex_window(s1, s2, d, x, e, line);
        } else {
            assert(pair_tok(s2, i + d) is None);
        }
    }
}

/// Two texts that agree from `i` to their ends, the second shifted by `d`,
/// lex the same from there.
proof fn lemma_lex_shift(s1: Seq<char>, s2: Seq<char>, d: int, i: int, line: nat)
    requires
        window_agrees(s1, s2, d, i, s1.len() as int),
        s2.len() == s1.len() + d,
    ensures
        lex_from(s1, i, line) == lex_from(s2, i + d, line),
{
    let e = s1.len() as int;
    assert forall|l: nat| lex_from(s1, e, l) == #[trigger] lex_from(s2, e + d, l) by {}
    assert forall|l: nat| lex_from(s1, line_end(s1, e), l) == #[trigger] lex_from(
        s2,
        line_end(s2, e + d),
        l,
    ) by {}
    lemma_lex_window(s1, s2, d, i, e, line);
}

/// Lexing skips a run of blanks.
proof fn lemma_skip_blanks(s: Seq<char>, a: int, b: int, line: nat)
    requires
        0 <= a <= b <= s.len(),
        forall|j: int| a <= j < b ==> is_blank(#[trigger] s[j]),
    ensures
        lex_from(s, a, line) == lex_from(s, b, line),
        line_end(s, a) == line_end(s, b),
    decreases b - a,
{
    if a < b {
        assert(is_blank(s[a]));
        lemma_skip_blanks(s, a + 1, b, line);
    }
}

/// A line ends at the first newline: characters before it do not matter.
proof fn lemma_line_end_skip(s: Seq<char>, a: int, b: int)
    requires
        0 <= a <= b <= s.len(),
        forall|j: int| a <= j < b ==> #[trigger] s[j] != '\n',
    ensures
        line_end(s, a) == line_end(s, b),
    decreases b - a,
{
    if a < b {
        lemma_line_end_skip(s, a + 1, b);
    }
}

/// Replacing a non-empty run of spaces and tabs by another never changes
/// what the text lexes to: the same tokens on the same lines, or the same
/// error.
pub proof fn law_blank_runs_do_not_matter(pre: Seq<char>, w1: Seq<char>, w2: Seq<char>, post: Seq<char>)
    requires
        blank_run(w1),
        blank_run(w2),
    ensures
        lex(pre + w1 + post) == lex(pre + w2 + post),
{
    let s1 = pre + w1 + post;
    let s2 = pre + w2 + post;
    let n = pre.len() as int;
    let m1 = n + w1.len();
    let m2 = n + w2.len();
    let d = m2 - m1;
    assert forall|j: int| n <= j < m1 implies is_blank(#[trigger] s1[j]) by {
        assert(s1[j] == w1[j - n]);
    }
    assert forall|j: int| n <= j < m2 implies is_blank(#[trigger] s2[j]) by {
        assert(s2[j] == w2[j - n]);
    }
    assert(window_agrees(s1, s2, d, m1, s1.len() as int)) by {
        assert forall|j: int| m1 <= j < s1.len() implies #[trigger] s1[j] == s2[j + d] by {
            assert(s1[j] == post[j - m1]);
            assert(s2[j + d] == post[j - m1]);
        }
    }
    assert forall|l: nat| lex_from(s1, n, l) == #[trigger] lex_from(s2, n + 0, l) by {
        lemma_skip_blanks(s1, n, m1, l);
        lemma_skip_blanks(s2, n, m2, l);
        lemma_lex_shift(s1, s2, d, m1, l);
    }
    lemma_skip_blanks(s1, n, m1, 1);
    lemma_skip_blanks(s2, n, m2, 1);
    lemma_line_window(s1, s2, d, m1, s1.len() as int);
    let e1 = line_end(s1, n);
    assert(window_agrees(s1, s2, d, e1, s1.len() as int));
    assert forall|l: nat| lex_from(s1, line_end(s1, n), l) == #[trigger] lex_from(
        s2,
        line_end(s2, n + 0),
        l,
    ) by {
        lemma_lex_shift(s1, s2, d, e1, l);
    }
    assert(s1[n] == w1[0]);
    assert(s2[n] == w2[0]);
    assert(window_agrees(s1, s2, 0, 0, n)) by {
        assert forall|j: int| 0 <= j < n implies #[trigger] s1[j] == s2[j + 0] by {
            assert(s1[j] == pre[j]);
            assert(s2[j] == pre[j]);
        }
    }
    lemma_lex_window(s1, s2, 0, 0, n, 1);
}

/// Adding a comment (blanks, `//` and text without a newline) at the end of
/// a line, or at the end of the text, never changes what the text lexes to.
pub proof fn law_trailing_comments_do_not_matter(
    pre: Seq<char>,
    w: Seq<char>,
    text: Seq<char>,
    post: Seq<char>,
)
    requires
        blank_run(w),
        forall|j: int| 0 <= j < text.len() ==> #[trigger] text[j] != '\n',
        post.len() == 0 || post[0] == '\n',
    ensures
        lex(pre + post) == lex(pre + (w + "//"@ + text) + post),
{
    let s1 = pre + post;
    let c = w + "//"@ + text;
    let s2 = pre + c + post;
    let n = pre.len() as int;
    let a = n + w.len();
    let m = n + c.len();
    let d = m - n;
    assert(c.len() == w.len() + 2 + text.len()) by {
        reveal_strlit("//");
    }
    assert forall|j: int| n <= j < a implies is_blank(#[trigger] s2[j]) by {
        assert(s2[j] == c[j - n]);
        assert(c[j - n] == w[j - n]);
    }
    assert(s2[a] == '/' && s2[a + 1] == '/') by {
        reveal_strlit("//");
        assert(s2[a] == c[w.len() as int]);
        assert(s2[a + 1] == c[w.len() + 1int]);
    }
    assert forall|j: int| a <= j < m implies #[trigger] s2[j] != '\n' by {
        reveal_strlit("//");
        assert(s2[j] == c[j - n]);
        if j >= a + 2 {
            assert(c[j - n] == text[j - a - 2]);
        }
    }
    lemma_line_end_skip(s2, a, m);
    lemma_line_end_skip(s2, n, m);
    assert(line_end(s2, m) == m) by {
        if post.len() > 0 {
            assert(s2[m] == post[0]);
        }
    }
    assert(line_end(s1, n) == n) by {
        if post.len() > 0 {
            assert(s1[n] == post[0]);
        }
    }
    assert(window_agrees(s1, s2, d, n, s1.len() as int)) by {
        assert forall|j: int| n <= j < s1.len() implies #[trigger] s1[j] == s2[j + d] by {
            assert(s1[j] == post[j - n]);
            assert(s2[j + d] == post[j - n]);
        }
    }
    assert forall|l: nat| lex_from(s1, n, l) == #[trigger] lex_from(s2, n + 0, l) by {
        lemma_skip_blanks(s2, n, a, l);
        lemma_lex_shift(s1, s2, d, n, l);
    }
    assert forall|l: nat| lex_from(s1, line_end(s1, n), l) == #[trigger] lex_from(
        s2,
        line_end(s2, n + 0),
        l,
    ) by {
        lemma_lex_shift(s1, s2, d, n, l);
    }
    assert(s2[n] == w[0]) by {
        assert(s2[n] == c[0]);
    }
    if post.len() > 0 {
        assert(s1[n] == post[0]);
    }
    assert(window_agrees(s1, s2, 0, 0, n)) by {
        assert forall|j: int| 0 <= j < n implies #[trigger] s1[j] == s2[j + 0] by {
            assert(s1[j] == pre[j]);
            assert(s2[j] == pre[j]);
        }
    }
    lemma_lex_window(s1, s2, 0, 0, n, 1);
}

} // verus!
