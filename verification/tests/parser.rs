use hiker::ast::{Clause, CmpOp, Expr, Ty};
use hiker::parser::parse;

const TEMPORAL: &str = "\
sort MediaItem
sort TemporalPoint { media: MediaItem, t: Int }
sort TemporalInterval { media: MediaItem, t0: Int, t1: Int }

relation temporal_overlap(a: TemporalInterval, b: TemporalInterval)
relation point_in_interval(p: TemporalPoint, i: TemporalInterval)

law temporal_overlap(a, b) {
  a.media == b.media
  a.t0 <= b.t1
  b.t0 <= a.t1
}

law point_in_interval(p, i) {
  p.media == i.media
  i.t0 <= p.t
  p.t <= i.t1
}
";

#[test]
fn parses_a_bare_sort() {
    let spec = parse("sort MediaItem").unwrap();
    assert_eq!(spec.sorts.len(), 1);
    assert_eq!(spec.sorts[0].name, "MediaItem");
    assert!(spec.sorts[0].fields.is_empty());
}

#[test]
fn parses_sort_fields_with_types() {
    let spec = parse("sort P { media: MediaItem, t: Int }").unwrap();
    let f = &spec.sorts[0].fields;
    assert_eq!(f[0].name, "media");
    assert_eq!(f[0].ty, Ty::Sort("MediaItem".into()));
    assert_eq!(f[1].name, "t");
    assert_eq!(f[1].ty, Ty::Int);
}

#[test]
fn parses_relation_and_law() {
    let src = "\
relation r(a: P, b: Q)
law r(a, b) {
  a.t <= b.t
  a.media == b.media
}";
    let spec = parse(src).unwrap();
    assert_eq!(spec.relations[0].params.len(), 2);
    let law = &spec.laws[0];
    assert_eq!(law.relation, "r");
    assert_eq!(law.args, vec!["a", "b"]);
    assert_eq!(law.clauses.len(), 2);
    let Clause::Compare(p0) = &law.clauses[0] else {
        panic!("expected a comparison clause");
    };
    assert_eq!(p0.op, CmpOp::Le);
    assert_eq!(
        p0.lhs,
        Expr::Field {
            arg: "a".into(),
            field: "t".into()
        }
    );
}

#[test]
fn parses_an_implication_clause() {
    let src = "\
relation det(a: E, b: E)
law det(a, b) {
  a.tag == b.tag => a.status == b.status
}";
    let spec = parse(src).unwrap();
    let law = &spec.laws[0];
    assert_eq!(law.clauses.len(), 1);
    let Clause::Implies { ante, cons, .. } = &law.clauses[0] else {
        panic!("expected an implication clause");
    };
    assert_eq!(ante.op, CmpOp::Eq);
    assert_eq!(cons.op, CmpOp::Eq);
    assert_eq!(
        ante.lhs,
        Expr::Field {
            arg: "a".into(),
            field: "tag".into()
        }
    );
}

#[test]
fn parses_the_real_spec() {
    let spec = parse(TEMPORAL).unwrap();
    assert_eq!(spec.sorts.len(), 3);
    assert_eq!(spec.relations.len(), 2);
    assert_eq!(spec.laws.len(), 2);
}

#[test]
fn reports_line_on_error() {
    let err = parse("sort X\nrelation r(p P)").unwrap_err();
    assert!(err.contains("line 2"), "got: {err}");
}

#[test]
fn expected_token_message_is_exact() {
    assert_eq!(
        parse("sort X\nrelation r(p P)").unwrap_err(),
        "line 2: expected Colon, found Some(Ident(\"P\"))"
    );
}

#[test]
fn parses_a_forbidden_relation() {
    let spec = parse("sort File\nforbidden relation fs(f: File)\nrelation ok(f: File)").unwrap();
    assert_eq!(spec.relations.len(), 2);
    assert!(spec.relations[0].forbidden);
    assert_eq!(spec.relations[0].line, 2);
    assert!(!spec.relations[1].forbidden);
}

#[test]
fn items_must_start_with_a_keyword() {
    assert_eq!(
        parse("sort X\n)").unwrap_err(),
        "line 2: expected `sort`, `relation`, or `law`, found RParen"
    );
}

#[test]
fn missing_name_at_end_of_input() {
    assert_eq!(parse("sort").unwrap_err(), "line 1: expected a name, found None");
}

#[test]
fn missing_operator_is_reported() {
    assert_eq!(
        parse("law r(a) { a.t a.t }").unwrap_err(),
        "line 1: expected a comparison operator, found Some(Ident(\"a\"))"
    );
}

#[test]
fn missing_expression_is_reported() {
    assert_eq!(
        parse("law r(a) { a.t <= }").unwrap_err(),
        "line 1: expected an expression, found Some(RBrace)"
    );
}

#[test]
fn lexer_errors_pass_through() {
    assert_eq!(parse("sort $").unwrap_err(), "line 1: unexpected character `$`");
}

#[test]
fn integer_literals_and_bare_arguments_are_expressions() {
    let spec = parse("law r(a, b) {\n  a == b\n  3 < a.n\n}").unwrap();
    let law = &spec.laws[0];
    let Clause::Compare(p0) = &law.clauses[0] else { panic!("compare") };
    assert_eq!(p0.lhs, Expr::Arg("a".into()));
    assert_eq!(p0.line, 2);
    let Clause::Compare(p1) = &law.clauses[1] else { panic!("compare") };
    assert_eq!(p1.lhs, Expr::Int(3));
    assert_eq!(p1.op, CmpOp::Lt);
    assert_eq!(p1.line, 3);
}

#[test]
fn trailing_comma_and_empty_bodies_are_accepted() {
    let spec = parse("sort P { t: Int, }\nsort Q { }\nrelation r()\nlaw r() { }").unwrap();
    assert_eq!(spec.sorts[0].fields.len(), 1);
    assert!(spec.sorts[1].fields.is_empty());
    assert!(spec.relations[0].params.is_empty());
    assert!(spec.laws[0].clauses.is_empty());
}

#[test]
fn empty_source_is_an_empty_spec() {
    let spec = parse("").unwrap();
    assert!(spec.sorts.is_empty() && spec.relations.is_empty() && spec.laws.is_empty());
}

#[test]
fn found_name_is_rendered_with_debug_quotes() {
    let e = parse("x").unwrap_err();
    assert_eq!(e, "line 1: expected `sort`, `relation`, or `law`, found Ident(\"x\")");
    let name = "a\u{345}";
    let e = parse(name).unwrap_err();
    assert_eq!(
        e,
        format!("line 1: expected `sort`, `relation`, or `law`, found Ident({:?})", name)
    );
}

#[test]
fn items_follow_their_keywords_in_order_and_by_line() {
    let spec = parse("sort A\n\nforbidden\nrelation r(a: A)\nrelation q(a: A)\nlaw q(a) { a.x == 1 }\nsort B")
        .unwrap();
    let sorts: Vec<(String, usize)> = spec.sorts.iter().map(|s| (s.name.clone(), s.line)).collect();
    assert_eq!(sorts, vec![("A".to_string(), 1), ("B".to_string(), 7)]);
    let rels: Vec<(String, usize, bool)> =
        spec.relations.iter().map(|r| (r.name.clone(), r.line, r.forbidden)).collect();
    assert_eq!(rels, vec![("r".to_string(), 3, true), ("q".to_string(), 5, false)]);
    assert_eq!(spec.laws.len(), 1);
    assert_eq!(spec.laws[0].line, 6);
}
