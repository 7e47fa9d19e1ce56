//! The lexer: source text to a list of tokens, each tagged with its line.
//!
//! Whitespace and `//` comments are skipped; a newline advances the line
//! counter. Two-character operators are recognised before one-character ones,
//! digit runs become integer literals and identifier runs become keywords or
//! names.
use vstd::prelude::*;
use vstd::string::*;
use crate::text::{nat_decimal, push_char, push_usize, push_str};

verus! {

/// The kinds of token in the `.tent` language.
#[derive(Debug, PartialEq)]
pub enum Tok {
    Sort,
    Relation,
    Law,
    Forbidden,
    Ident(String),
    Int(i64),
    LBrace,
    RBrace,
    LParen,
    RParen,
    Comma,
    Dot,
    Colon,
    EqEq,
    Le,
    Lt,
    Ge,
    Gt,
    FatArrow,
}

/// The mathematical model of a token kind: names are character sequences.
pub enum TokV {
    Sort,
    Relation,
    Law,
    Forbidden,
    Ident(Seq<char>),
    Int(i64),
    LBrace,
    RBrace,
    LParen,
    RParen,
    Comma,
    Dot,
    Colon,
    EqEq,
    Le,
    Lt,
    Ge,
    Gt,
    FatArrow,
}

impl View for Tok {
    type V = TokV;

    open spec fn view(&self) -> TokV {
        match self {
            Tok::Sort => TokV::Sort,
            Tok::Relation => TokV::Relation,
            Tok::Law => TokV::Law,
            Tok::Forbidden => TokV::Forbidden,
            Tok::Ident(s) => TokV::Ident(s@),
            Tok::Int(v) => TokV::Int(*v),
            Tok::LBrace => TokV::LBrace,
            Tok::RBrace => TokV::RBrace,
            Tok::LParen => TokV::LParen,
            Tok::RParen => TokV::RParen,
            Tok::Comma => TokV::Comma,
            Tok::Dot => TokV::Dot,
            Tok::Colon => TokV::Colon,
            Tok::EqEq => TokV::EqEq,
            Tok::Le => TokV::Le,
            Tok::Lt => TokV::Lt,
            Tok::Ge => TokV::Ge,
            Tok::Gt => TokV::Gt,
            Tok::FatArrow => TokV::FatArrow,
        }
    }
}

/// A token plus the source line it came from (1-indexed).
#[derive(Debug, PartialEq)]
pub struct Token {
    pub tok: Tok,
    pub line: usize,
}

/// The model of a token.
pub struct TokenV {
    pub tok: TokV,
    pub line: nat,
}

impl View for Token {
    type V = TokenV;

    open spec fn view(&self) -> TokenV {
        TokenV { tok: self.tok@, line: self.line as nat }
    }
}

/// The models of a vector of tokens.
pub open spec fn tokens_view(v: Seq<Token>) -> Seq<TokenV> {
    v.map_values(|t: Token| t@)
}

/// The Unicode `White_Space` property, which `char::is_whitespace` answers:
/// tab through carriage return, space, next line, no-break space, ogham space
/// mark, en quad through hair space, the line and paragraph separators, narrow
/// no-break space, medium mathematical space and ideographic space.
pub open spec fn is_white_space(c: char) -> bool {
    let u = c as u32;
    ||| 0x9 <= u <= 0xD
    ||| u == 0x20
    ||| u == 0x85
    ||| u == 0xA0
    ||| u == 0x1680
    ||| 0x2000 <= u <= 0x200A
    ||| u == 0x2028
    ||| u == 0x2029
    ||| u == 0x202F
    ||| u == 0x205F
    ||| u == 0x3000
}

/// What `char::is_alphabetic` answers (the Unicode `Alphabetic` property).
pub uninterp spec fn char_is_alphabetic(c: char) -> bool;

/// What `char::is_alphanumeric` answers (`Alphabetic` or `Numeric`).
pub uninterp spec fn char_is_alphanumeric(c: char) -> bool;

/// An ASCII character.
pub open spec fn is_ascii(c: char) -> bool {
    (c as u32) < 0x80
}

/// An ASCII letter.
pub open spec fn is_ascii_letter(c: char) -> bool {
    ('a' <= c && c <= 'z') || ('A' <= c && c <= 'Z')
}

/// Whether `c` has the `White_Space` property.
fn is_whitespace(c: char) -> (r: bool)
    ensures
        r == is_white_space(c),
{
    let u = c as u32;
    (0x9 <= u && u <= 0xD) || u == 0x20 || u == 0x85 || u == 0xA0 || u == 0x1680 || (0x2000 <= u
        && u <= 0x200A) || u == 0x2028 || u == 0x2029 || u == 0x202F || u == 0x205F || u == 0x3000
}

/// `char::is_alphabetic`. Among ASCII characters the `Alphabetic` property
/// holds of the letters alone.
#[verifier::external_body]
fn is_alphabetic(c: char) -> (r: bool)
    ensures
        r == char_is_alphabetic(c),
        is_ascii(c) ==> (r <==> is_ascii_letter(c)),
{
    c.is_alphabetic()
}

/// `char::is_alphanumeric`; its documentation defines it as alphabetic or
/// numeric, so every alphabetic character is alphanumeric, and among ASCII
/// characters it holds of the letters and the decimal digits alone.
#[verifier::external_body]
fn is_alphanumeric(c: char) -> (r: bool)
    ensures
        r == char_is_alphanumeric(c),
        char_is_alphabetic(c) ==> r,
        is_ascii(c) ==> (r <==> (is_ascii_letter(c) || is_digit(c))),
{
    c.is_alphanumeric()
}

/// An ASCII decimal digit.
pub open spec fn is_digit(c: char) -> bool {
    '0' <= c && c <= '9'
}

/// A character that may continue an identifier.
pub open spec fn is_word_char(c: char) -> bool {
    if is_ascii(c) {
        is_ascii_letter(c) || is_digit(c) || c == '_'
    } else {
        char_is_alphanumeric(c)
    }
}

/// A character that may start an identifier.
pub open spec fn is_word_start(c: char) -> bool {
    if is_ascii(c) {
        is_ascii_letter(c) || c == '_'
    } else {
        char_is_alphabetic(c)
    }
}

/// The end of the run of digits starting at `i`.
pub open spec fn digits_end(s: Seq<char>, i: int) -> int
    decreases s.len() - i,
{
    if 0 <= i < s.len() && is_digit(s[i]) {
        digits_end(s, i + 1)
    } else {
        i
    }
}

/// The end of the run of identifier characters starting at `i`.
pub open spec fn word_end(s: Seq<char>, i: int) -> int
    decreases s.len() - i,
{
    if 0 <= i < s.len() && is_word_char(s[i]) {
        word_end(s, i + 1)
    } else {
        i
    }
}

/// The position of the first newline at or after `i` (or the end of input).
pub open spec fn line_end(s: Seq<char>, i: int) -> int
    decreases s.len() - i,
{
    if 0 <= i < s.len() && s[i] != '\n' {
        line_end(s, i + 1)
    } else {
        i
    }
}

/// The value of a run of decimal digits.
pub open spec fn digits_value(d: Seq<char>) -> int
    decreases d.len(),
{
    if d.len() == 0 {
        0
    } else {
        digits_value(d.drop_last()) * 10 + (d.last() as int - 48)
    }
}

/// The token a word stands for: a keyword, or else a name.
pub open spec fn word_tok(w: Seq<char>) -> TokV {
    if w == "sort"@ {
        TokV::Sort
    } else if w == "relation"@ {
        TokV::Relation
    } else if w == "law"@ {
        TokV::Law
    } else if w == "forbidden"@ {
        TokV::Forbidden
    } else {
        TokV::Ident(w)
    }
}

/// The two-character operator starting at `i`, if any.
pub open spec fn pair_tok(s: Seq<char>, i: int) -> Option<TokV> {
    if 0 <= i && i + 1 < s.len() {
        let (a, b) = (s[i], s[i + 1]);
        if a == '=' && b == '=' {
            Some(TokV::EqEq)
        } else if a == '=' && b == '>' {
            Some(TokV::FatArrow)
        } else if a == '<' && b == '=' {
            Some(TokV::Le)
        } else if a == '>' && b == '=' {
            Some(TokV::Ge)
        } else {
            None
        }
    } else {
        None
    }
}

/// The one-character token `c` stands for, if any.
pub open spec fn single_tok(c: char) -> Option<TokV> {
    if c == '{' {
        Some(TokV::LBrace)
    } else if c == '}' {
        Some(TokV::RBrace)
    } else if c == '(' {
        Some(TokV::LParen)
    } else if c == ')' {
        Some(TokV::RParen)
    } else if c == ',' {
        Some(TokV::Comma)
    } else if c == '.' {
        Some(TokV::Dot)
    } else if c == ':' {
        Some(TokV::Colon)
    } else if c == '<' {
        Some(TokV::Lt)
    } else if c == '>' {
        Some(TokV::Gt)
    } else {
        None
    }
}

/// Why lexing stopped.
pub enum LexError {
    /// A digit run whose value does not fit in an `i64`.
    InvalidInt { line: nat, text: Seq<char> },
    /// A character that starts no token.
    Unexpected { line: nat, c: char },
}

/// The message reported for a lexing error.
pub open spec fn lex_error_message(e: LexError) -> Seq<char> {
    match e {
        LexError::InvalidInt { line, text } => "line "@ + nat_decimal(line) + ": invalid integer `"@
            + text + "`"@,
        LexError::Unexpected { line, c } => "line "@ + nat_decimal(line) + ": unexpected character `"@
            + seq![c] + "`"@,
    }
}

/// Prefixes `p` to the tokens of a successful result.
pub open spec fn prepend(p: Seq<TokenV>, r: Result<Seq<TokenV>, LexError>) -> Result<
    Seq<TokenV>,
    LexError,
> {
    match r {
        Ok(t) => Ok(p + t),
        Err(e) => Err(e),
    }
}

/// Prefixing in two steps is prefixing once with the concatenation.
pub proof fn lemma_prepend_twice(a: Seq<TokenV>, b: Seq<TokenV>, r: Result<Seq<TokenV>, LexError>)
    ensures
        prepend(a, prepend(b, r)) == prepend(a + b, r),
{
    match r {
        Ok(t) => {
            assert(a + (b + t) =~= (a + b) + t);
        },
        Err(_) => {},
    }
}

pub proof fn lemma_line_end(s: Seq<char>, i: int)
    requires
        0 <= i <= s.len(),
    ensures
        i <= line_end(s, i) <= s.len(),
    decreases s.len() - i,
{
    if i < s.len() && s[i] != '\n' {
        lemma_line_end(s, i + 1);
    }
}

pub proof fn lemma_digits_end(s: Seq<char>, i: int)
    requires
        0 <= i <= s.len(),
    ensures
        i <= digits_end(s, i) <= s.len(),
        forall|k: int| i <= k < digits_end(s, i) ==> is_digit(#[trigger] s[k]),
    decreases s.len() - i,
{
    if i < s.len() && is_digit(s[i]) {
        lemma_digits_end(s, i + 1);
    }
}

pub proof fn lemma_word_end(s: Seq<char>, i: int)
    requires
        0 <= i <= s.len(),
    ensures
        i <= word_end(s, i) <= s.len(),
        forall|k: int| i <= k < word_end(s, i) ==> is_word_char(#[trigger] s[k]),
    decreases s.len() - i,
{
    if i < s.len() && is_word_char(s[i]) {
        lemma_word_end(s, i + 1);
    }
}

/// Lexes `s` from position `i`, where the current line is `line`.
pub open spec fn lex_from(s: Seq<char>, i: int, line: nat) -> Result<Seq<TokenV>, LexError>
    decreases s.len() - i,
{
    if i < 0 || i >= s.len() {
        Ok(seq![])
    } else {
        let c = s[i];
        if c == '\n' {
            lex_from(s, i + 1, line + 1)
        } else if is_white_space(c) {
            lex_from(s, i + 1, line)
        } else if c == '/' && i + 1 < s.len() && s[i + 1] == '/' {
            let e = line_end(s, i);
            proof {
                lemma_line_end(s, i + 1);
            }
            lex_from(s, e, line)
        } else if pair_tok(s, i) is Some {
            prepend(seq![TokenV { tok: pair_tok(s, i)->0, line }], lex_from(s, i + 2, line))
        } else if single_tok(c) is Some {
            prepend(seq![TokenV { tok: single_tok(c)->0, line }], lex_from(s, i + 1, line))
        } else if is_digit(c) {
            let e = digits_end(s, i);
            proof {
                lemma_digits_end(s, i + 1);
            }
            let text = s.subrange(i, e);
            if digits_value(text) > i64::MAX {
                Err(LexError::InvalidInt { line, text })
            } else {
                prepend(
                    seq![TokenV { tok: TokV::Int(digits_value(text) as i64), line }],
                    lex_from(s, e, line),
                )
            }
        } else if is_word_start(c) {
            let e = word_end(s, i + 1);
            proof {
                lemma_word_end(s, i + 1);
            }
            prepend(seq![TokenV { tok: word_tok(s.subrange(i, e)), line }], lex_from(s, e, line))
        } else {
            Err(LexError::Unexpected { line, c })
        }
    }
}

/// The tokens of a whole source text, or the error that stops lexing.
pub open spec fn lex(s: Seq<char>) -> Result<Seq<TokenV>, LexError> {
    lex_from(s, 0, 1)
}

/// A word that the lexer reserves as a keyword.
pub open spec fn is_keyword(w: Seq<char>) -> bool {
    w == "sort"@ || w == "relation"@ || w == "law"@ || w == "forbidden"@
}

/// Every token's line is at least `first`, and lines never decrease.
pub open spec fn lines_ordered(t: Seq<TokenV>, first: nat) -> bool {
    &&& forall|k: int| 0 <= k < t.len() ==> first <= #[trigger] t[k].line
    &&& forall|j: int, k: int| 0 <= j <= k < t.len() ==> #[trigger] t[j].line <= #[trigger] t[k].line
}

/// No name token holds a keyword.
pub open spec fn names_not_keywords(t: Seq<TokenV>) -> bool {
    forall|k: int|
        0 <= k < t.len() ==> (#[trigger] t[k].tok matches TokV::Ident(w) ==> !is_keyword(w))
}

proof fn lemma_lex_from_shape(s: Seq<char>, i: int, line: nat)
    ensures
        lex_from(s, i, line) matches Ok(t) ==> lines_ordered(t, line) && names_not_keywords(t),
    decreases s.len() - i,
{
    if i < 0 || i >= s.len() {
    } else {
        let c = s[i];
        if c == '\n' {
            lemma_lex_from_shape(s, i + 1, line + 1);
        } else if is_white_space(c) {
            lemma_lex_from_shape(s, i + 1, line);
        } else if c == '/' && i + 1 < s.len() && s[i + 1] == '/' {
            lemma_line_end(s, i + 1);
            lemma_lex_from_shape(s, line_end(s, i), line);
        } else {
            let next: int = if pair_tok(s, i) is Some {
                i + 2
            } else if single_tok(c) is Some {
                i + 1
            } else if is_digit(c) {
                lemma_digits_end(s, i + 1);
                digits_end(s, i)
            } else {
                lemma_word_end(s, i + 1);
                word_end(s, i + 1)
            };
            if pair_tok(s, i) is Some || single_tok(c) is Some || is_digit(c) || is_word_start(c) {
                lemma_lex_from_shape(s, next, line);
                if let Ok(t) = lex_from(s, i, line) {
                    let rest = lex_from(s, next, line)->Ok_0;
                    assert(t == seq![t[0]] + rest);
                    assert forall|k: int| 0 <= k < t.len() implies line <= #[trigger] t[k].line by {
                        if k > 0 {
                            assert(t[k] == rest[k - 1]);
                        }
                    }
                    assert forall|j: int, k: int| 0 <= j <= k < t.len() implies #[trigger] t[j].line
                        <= #[trigger] t[k].line by {
                        if j > 0 {
                            assert(t[j] == rest[j - 1]);
                            assert(t[k] == rest[k - 1]);
                        } else if k > 0 {
                            assert(t[k] == rest[k - 1]);
                        }
                    }
                    assert forall|k: int| 0 <= k < t.len() implies (#[trigger] t[k].tok matches TokV::Ident(
                        w,
                    ) ==> !is_keyword(w)) by {
                        if k > 0 {
                            assert(t[k] == rest[k - 1]);
                        }
                    }
                }
            }
        }
    }
}

/// Lexing tags tokens with lines that start at 1 and never decrease, so every
/// later stage can point an error at a line in source order.
pub proof fn law_token_lines_ordered(s: Seq<char>)
    ensures
        lex(s) matches Ok(t) ==> lines_ordered(t, 1),
{
    lemma_lex_from_shape(s, 0, 1);
}

/// Keywords are distinct from names: the lexer never yields a name token that
/// spells `sort`, `relation`, `law` or `forbidden`.
pub proof fn law_keywords_are_not_names(s: Seq<char>)
    ensures
        lex(s) matches Ok(t) ==> names_not_keywords(t),
{
    lemma_lex_from_shape(s, 0, 1);
}

/// The characters of a string slice, in order.
fn source_chars(src: &str) -> (v: Vec<char>)
    ensures
        v@ == src@,
{
    let mut v: Vec<char> = Vec::new();
    let n = src.unicode_len();
    let mut k: usize = 0;
    while k < n
        invariant
            n == src@.len(),
            k <= n,
            v@ == src@.subrange(0, k as int),
        decreases n - k,
    {
        v.push(src.get_char(k));
        k = k + 1;
    }
    v
}

/// The string made of `chars[start..end]`.
fn span_string(chars: &Vec<char>, start: usize, end: usize) -> (r: String)
    requires
        start <= end <= chars@.len(),
    ensures
        r@ == chars@.subrange(start as int, end as int),
{
    let mut r = String::new();
    let mut k = start;
    while k < end
        invariant
            start <= k <= end <= chars@.len(),
            r@ == chars@.subrange(start as int, k as int),
        decreases end - k,
    {
        push_char(&mut r, chars[k]);
        k = k + 1;
        assert(r@ =~= chars@.subrange(start as int, k as int));
    }
    r
}

/// A keyword token, or a name token holding `w`.
fn word_token(w: String) -> (t: Tok)
    ensures
        t@ == word_tok(w@),
{
    if w == String::from_str("sort") {
        Tok::Sort
    } else if w == String::from_str("relation") {
        Tok::Relation
    } else if w == String::from_str("law") {
        Tok::Law
    } else if w == String::from_str("forbidden") {
        Tok::Forbidden
    } else {
        Tok::Ident(w)
    }
}

/// Appending a digit to a digit run multiplies its value by ten and adds the digit.
pub proof fn lemma_digits_value_push(d: Seq<char>, c: char)
    ensures
        digits_value(d.push(c)) == digits_value(d) * 10 + (c as int - 48),
{
    assert(d.push(c).drop_last() =~= d);
}

/// A prefix of a digit run has no greater value than the run.
pub proof fn lemma_digits_value_prefix(d: Seq<char>, k: int)
    requires
        0 <= k <= d.len(),
        forall|j: int| 0 <= j < d.len() ==> is_digit(#[trigger] d[j]),
    ensures
        0 <= digits_value(d.subrange(0, k)) <= digits_value(d),
    decreases d.len(),
{
    if d.len() > 0 {
        if k == d.len() {
            assert(d.subrange(0, k) =~= d);
            lemma_digits_value_prefix(d.drop_last(), d.len() - 1);
            assert(d.drop_last().subrange(0, d.len() - 1) =~= d.drop_last());
        } else {
            lemma_digits_value_prefix(d.drop_last(), k);
            assert(d.drop_last().subrange(0, k) =~= d.subrange(0, k));
            lemma_digits_value_prefix(d.drop_last(), d.len() - 1);
            assert(d.drop_last().subrange(0, d.len() - 1) =~= d.drop_last());
        }
    } else {
        assert(d.subrange(0, k) =~= d);
    }
}

/// The value of the digit run `chars[start..end]`, or `None` when it exceeds `i64::MAX`.
fn digits_number(chars: &Vec<char>, start: usize, end: usize) -> (r: Option<i64>)
    requires
        start <= end <= chars@.len(),
        forall|j: int| start <= j < end ==> is_digit(#[trigger] chars@[j]),
    ensures
        match r {
            Some(v) => v as int == digits_value(chars@.subrange(start as int, end as int)),
            None => digits_value(chars@.subrange(start as int, end as int)) > i64::MAX,
        },
{
    let ghost d = chars@.subrange(start as int, end as int);
    assert forall|j: int| 0 <= j < d.len() implies is_digit(#[trigger] d[j]) by {
        assert(d[j] == chars@[start + j]);
    }
    let mut acc: i64 = 0;
    let mut k = start;
    while k < end
        invariant
            start <= k <= end <= chars@.len(),
            forall|j: int| start <= j < end ==> is_digit(#[trigger] chars@[j]),
            d == chars@.subrange(start as int, end as int),
            forall|j: int| 0 <= j < d.len() ==> is_digit(#[trigger] d[j]),
            acc as int == digits_value(chars@.subrange(start as int, k as int)),
            acc >= 0,
        decreases end - k,
    {
        let c = chars[k];
        let dv: i64 = (c as u32 - 48) as i64;
        proof {
            lemma_digits_value_push(chars@.subrange(start as int, k as int), c);
            assert(chars@.subrange(start as int, k as int).push(c) =~= chars@.subrange(
                start as int,
                k + 1,
            ));
        }
        match acc.checked_mul(10) {
            Some(m) => match m.checked_add(dv) {
                Some(n) => {
                    acc = n;
                },
                None => {
                    proof {
                        lemma_digits_value_prefix(d, k + 1 - start);
                        assert(d.subrange(0, k + 1 - start) =~= chars@.subrange(
                            start as int,
                            k + 1,
                        ));
                    }
                    return None;
                },
            },
            None => {
                proof {
                    lemma_digits_value_prefix(d, k + 1 - start);
                    assert(d.subrange(0, k + 1 - start) =~= chars@.subrange(start as int, k + 1));
                }
                return None;
            },
        }
        k = k + 1;
    }
    Some(acc)
}

/// Turns source text into tokens, each tagged with its 1-indexed line.
///
/// Fails on the first character that starts no token, or on an integer
/// literal too large for an `i64`, with a message naming the line.
#[verifier::loop_isolation(false)]
pub fn tokenize(src: &str) -> (r: Result<Vec<Token>, String>)
    requires
        src@.len() < usize::MAX,
    ensures
        match (r, lex(src@)) {
            (Ok(v), Ok(t)) => tokens_view(v@) == t,
            (Err(m), Err(e)) => m@ == lex_error_message(e),
            _ => false,
        },
{
    let chars = source_chars(src);
    let ghost s = src@;
    let mut tokens: Vec<Token> = Vec::new();
    let mut i: usize = 0;
    let mut line: usize = 1;
    let n = chars.len();
    assert(tokens_view(tokens@) =~= seq![]);
    while i < n
        invariant
            chars@ == s,
            n == s.len(),
            s.len() < usize::MAX,
            i <= n,
            1 <= line <= i + 1,
            lex(s) == prepend(tokens_view(tokens@), lex_from(s, i as int, line as nat)),
        decreases n - i,
    {
        let c = chars[i];
        let ghost t0 = tokens_view(tokens@);
        let ghost i0 = i as int;
        if c == '\n' {
            line = line + 1;
            i = i + 1;
            continue;
        }
        if is_whitespace(c) {
            i = i + 1;
            continue;
        }
        if c == '/' && i + 1 < n && chars[i + 1] == '/' {
            proof {
                lemma_line_end(s, i0 + 1);
            }
            while i < n && chars[i] != '\n'
                invariant
                    chars@ == s,
                    n == s.len(),
                    i0 <= i <= n,
                    line_end(s, i as int) == line_end(s, i0),
                decreases n - i,
            {
                i = i + 1;
            }
            continue;
        }
        let pair: Option<Tok> = if i + 1 < n {
            let d = chars[i + 1];
            if c == '=' && d == '=' {
                Some(Tok::EqEq)
            } else if c == '=' && d == '>' {
                Some(Tok::FatArrow)
            } else if c == '<' && d == '=' {
                Some(Tok::Le)
            } else if c == '>' && d == '=' {
                Some(Tok::Ge)
            } else {
                None
            }
        } else {
            None
        };
        if let Some(tok) = pair {
            tokens.push(Token { tok, line });
            i = i + 2;
            proof {
                let x = seq![TokenV { tok: pair_tok(s, i0)->0, line: line as nat }];
                assert(tokens_view(tokens@) =~= t0 + x);
                lemma_prepend_twice(t0, x, lex_from(s, i as int, line as nat));
            }
            continue;
        }
        let single: Option<Tok> = match c {
            '{' => Some(Tok::LBrace),
            '}' => Some(Tok::RBrace),
            '(' => Some(Tok::LParen),
            ')' => Some(Tok::RParen),
            ',' => Some(Tok::Comma),
            '.' => Some(Tok::Dot),
            ':' => Some(Tok::Colon),
            '<' => Some(Tok::Lt),
            '>' => Some(Tok::Gt),
            _ => None,
        };
        if let Some(tok) = single {
            tokens.push(Token { tok, line });
            i = i + 1;
            proof {
                let x = seq![TokenV { tok: single_tok(c)->0, line: line as nat }];
                assert(tokens_view(tokens@) =~= t0 + x);
                lemma_prepend_twice(t0, x, lex_from(s, i as int, line as nat));
            }
            continue;
        }
        if '0' <= c && c <= '9' {
            let start = i;
            proof {
                lemma_digits_end(s, i0);
            }
            while i < n && '0' <= chars[i] && chars[i] <= '9'
                invariant
                    chars@ == s,
                    n == s.len(),
                    i0 <= i <= n,
                    digits_end(s, i as int) == digits_end(s, i0),
                    forall|j: int| i0 <= j < i ==> #[trigger] is_digit(s[j]),
                decreases n - i,
            {
                i = i + 1;
            }
            match digits_number(&chars, start, i) {
                Some(value) => {
                    tokens.push(Token { tok: Tok::Int(value), line });
                    proof {
                        let x = seq![TokenV { tok: TokV::Int(value), line: line as nat }];
                        assert(tokens_view(tokens@) =~= t0 + x);
                        lemma_prepend_twice(t0, x, lex_from(s, i as int, line as nat));
                    }
                    continue;
                },
                None => {
                    let mut m = String::new();
                    push_str(&mut m, "line ");
                    push_usize(&mut m, line);
                    push_str(&mut m, ": invalid integer `");
                    let text = span_string(&chars, start, i);
                    push_str(&mut m, text.as_str());
                    push_str(&mut m, "`");
                    assert(i as int == digits_end(s, i0));
                    assert(m@ =~= lex_error_message(
                        LexError::InvalidInt { line: line as nat, text: s.subrange(i0, i as int) },
                    ));
                    return Err(m);
                },
            }
        }
        if is_alphabetic(c) || c == '_' {
            let start = i;
            let _ = is_alphanumeric(c);
            proof {
                lemma_word_end(s, i0 + 1);
            }
            while i < n && (is_alphanumeric(chars[i]) || chars[i] == '_')
                invariant
                    chars@ == s,
                    n == s.len(),
                    i0 <= i <= n,
                    i > i0 ==> word_end(s, i as int) == word_end(s, i0 + 1),
                    i == i0 ==> is_word_char(s[i0]),
                decreases n - i,
            {
                i = i + 1;
            }
            let word = span_string(&chars, start, i);
            let tok = word_token(word);
            tokens.push(Token { tok, line });
            proof {
                let x = seq![TokenV { tok: word_tok(s.subrange(i0, i as int)), line: line as nat }];
                assert(tokens_view(tokens@) =~= t0 + x);
                lemma_prepend_twice(t0, x, lex_from(s, i as int, line as nat));
            }
            continue;
        }
        let mut m = String::new();
        push_str(&mut m, "line ");
        push_usize(&mut m, line);
        push_str(&mut m, ": unexpected character `");
        push_char(&mut m, c);
        push_str(&mut m, "`");
        assert(m@ =~= lex_error_message(LexError::Unexpected { line: line as nat, c }));
        return Err(m);
    }
    Ok(tokens)
}

} // verus!
