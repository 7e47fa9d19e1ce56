use hiker::lexer::{tokenize, Tok};

const TEMPORAL: &str = "\
sort MediaItem
sort TemporalPoint { media: MediaItem, t: Int }
sort TemporalInterval { media: MediaItem, t0: Int, t1: Int }

relation temporal_overlap(a: TemporalInterval, b: TemporalInterval)
relation point_in_interval(p: TemporalPoint, i: TemporalInterval)

law temporal_overlap(a, b) {
  a.media == b.media
  a.t0 <= b.t1
  b.t0 <= a.t1
}

law point_in_interval(p, i) {
  p.media == i.media
  i.t0 <= p.t
  p.t <= i.t1
}
";

fn kinds(src: &str) -> Vec<Tok> {
    tokenize(src).unwrap().into_iter().map(|t| t.tok).collect()
}

#[test]
fn tokenizes_a_predicate() {
    assert_eq!(
        kinds("i.t0 <= p.t"),
        vec![
            Tok::Ident("i".into()),
            Tok::Dot,
            Tok::Ident("t0".into()),
            Tok::Le,
            Tok::Ident("p".into()),
            Tok::Dot,
            Tok::Ident("t".into()),
        ]
    );
}

#[test]
fn keywords_are_distinct_from_idents() {
    assert_eq!(
        kinds("sort relation law foo"),
        vec![Tok::Sort, Tok::Relation, Tok::Law, Tok::Ident("foo".into())]
    );
}

#[test]
fn skips_comments_and_tracks_lines() {
    let toks = tokenize("// a comment\nsort X").unwrap();
    assert_eq!(toks[0].tok, Tok::Sort);
    assert_eq!(toks[0].line, 2);
}

#[test]
fn two_char_ops_beat_single_char() {
    assert_eq!(
        kinds("== <= >= < >"),
        vec![Tok::EqEq, Tok::Le, Tok::Ge, Tok::Lt, Tok::Gt]
    );
}

#[test]
fn lexes_the_real_spec_without_error() {
    assert!(tokenize(TEMPORAL).is_ok());
}

#[test]
fn rejects_unknown_char() {
    let err = tokenize("sort X @").unwrap_err();
    assert!(err.contains("unexpected character"));
}

#[test]
fn unexpected_character_message_is_exact() {
    assert_eq!(
        tokenize("sort X\n  @").unwrap_err(),
        "line 2: unexpected character `@`"
    );
}

#[test]
fn fat_arrow_and_forbidden_keyword() {
    assert_eq!(
        kinds("forbidden a => b"),
        vec![
            Tok::Forbidden,
            Tok::Ident("a".into()),
            Tok::FatArrow,
            Tok::Ident("b".into())
        ]
    );
}

#[test]
fn integer_literals_and_their_value() {
    assert_eq!(kinds("0 42 9223372036854775807"), vec![Tok::Int(0), Tok::Int(42), Tok::Int(i64::MAX)]);
}

#[test]
fn integer_overflow_is_reported() {
    assert_eq!(
        tokenize("\n9223372036854775808").unwrap_err(),
        "line 2: invalid integer `9223372036854775808`"
    );
}

#[test]
fn underscores_and_digits_continue_names() {
    assert_eq!(
        kinds("_a1 b_2c sorts"),
        vec![
            Tok::Ident("_a1".into()),
            Tok::Ident("b_2c".into()),
            Tok::Ident("sorts".into())
        ]
    );
}

#[test]
fn lines_never_decrease_and_start_at_one() {
    let toks = tokenize(TEMPORAL).unwrap();
    assert_eq!(toks[0].line, 1);
    for w in toks.windows(2) {
        assert!(w[0].line <= w[1].line);
    }
    assert_eq!(toks.last().unwrap().line, 18);
}

#[test]
fn empty_and_comment_only_sources_have_no_tokens() {
    assert!(tokenize("").unwrap().is_empty());
    assert!(tokenize("// only a comment").unwrap().is_empty());
    assert!(tokenize("  \t\n\n").unwrap().is_empty());
}

#[test]
fn a_single_slash_is_unexpected() {
    assert_eq!(tokenize("/").unwrap_err(), "line 1: unexpected character `/`");
}

fn kinds_and_lines(src: &str) -> Vec<(Tok, usize)> {
    tokenize(src).unwrap().into_iter().map(|t| (t.tok, t.line)).collect()
}

#[test]
fn blank_runs_of_any_width_lex_the_same() {
    let narrow = "law r(a) {\n  a.x <= 3\n}";
    let wide = "law \t  r(a)\t{\n  a.x   <=\t3\n}";
    assert_eq!(kinds_and_lines(narrow), kinds_and_lines(wide));
    assert_eq!(tokenize("1 x ?").unwrap_err(), tokenize("1\t\tx  ?").unwrap_err());
}

#[test]
fn trailing_comments_lex_the_same() {
    let bare = "sort A\nrelation r(a: A)";
    let commented = "sort A // the only sort\nrelation r(a: A)\t// one parameter";
    assert_eq!(kinds_and_lines(bare), kinds_and_lines(commented));
}

#[test]
fn unicode_white_space_separates_tokens() {
    assert_eq!(
        kinds("sort\u{000B}A\u{00A0}sort\u{3000}B\u{000C}"),
        vec![
            Tok::Sort,
            Tok::Ident("A".into()),
            Tok::Sort,
            Tok::Ident("B".into()),
        ]
    );
    assert_eq!(tokenize("a\u{200B}").unwrap_err(), "line 1: unexpected character `\u{200B}`");
}
