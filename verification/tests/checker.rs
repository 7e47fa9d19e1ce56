use hiker::checker::{check, warnings};
use hiker::parser::parse;

const TEMPORAL: &str = "\
sort MediaItem
sort TemporalPoint { media: MediaItem, t: Int }
sort TemporalInterval { media: MediaItem, t0: Int, t1: Int }

relation temporal_overlap(a: TemporalInterval, b: TemporalInterval)
relation point_in_interval(p: TemporalPoint, i: TemporalInterval)

law temporal_overlap(a, b) {
  a.media == b.media
  a.t0 <= b.t1
  b.t0 <= a.t1
}

law point_in_interval(p, i) {
  p.media == i.media
  i.t0 <= p.t
  p.t <= i.t1
}
";

fn check_src(src: &str) -> Result<(), Vec<String>> {
    check(&parse(src).unwrap())
}

#[test]
fn real_spec_compiles() {
    assert!(check_src(TEMPORAL).is_ok());
}

#[test]
fn rejects_unknown_param_sort() {
    let errs = check_src("relation r(a: Ghost)").unwrap_err();
    assert!(errs.iter().any(|e| e.contains("unknown sort `Ghost`")));
}

#[test]
fn rejects_unknown_relation_in_law() {
    let errs = check_src("law nope(a) { }").unwrap_err();
    assert!(errs.iter().any(|e| e.contains("unknown relation `nope`")));
}

#[test]
fn rejects_arity_mismatch() {
    let src = "\
sort P
relation r(a: P, b: P)
law r(a) { }";
    let errs = check_src(src).unwrap_err();
    assert!(errs.iter().any(|e| e.contains("argument(s)")));
}

#[test]
fn rejects_collapsing_point_into_interval() {
    let src = "\
sort MediaItem
sort TemporalPoint { media: MediaItem, t: Int }
sort TemporalInterval { media: MediaItem, t0: Int, t1: Int }
relation point_in_interval(p: TemporalPoint, i: TemporalInterval)
law point_in_interval(p, i) {
  p.t0 <= i.t1
}";
    let errs = check_src(src).unwrap_err();
    assert!(
        errs.iter().any(|e| e.contains("has no field `t0`")),
        "got: {errs:?}"
    );
}

#[test]
fn rejects_empty_law_body() {
    let src = "\
sort P
relation r(a: P)
law r(a) { }";
    let errs = check_src(src).unwrap_err();
    assert!(
        errs.iter().any(|e| e.contains("empty body")),
        "got: {errs:?}"
    );
}

#[test]
fn rejects_law_on_forbidden_relation() {
    let src = "\
sort File
forbidden relation fs(f: File)
law fs(f) { }";
    let errs = check_src(src).unwrap_err();
    assert!(
        errs.iter().any(|e| e.contains("forbidden")),
        "got: {errs:?}"
    );
}

#[test]
fn no_unlawed_warning_for_forbidden_relation() {
    let spec = parse("sort File\nforbidden relation fs(f: File)").unwrap();
    assert!(warnings(&spec).is_empty(), "got: {:?}", warnings(&spec));
}

#[test]
fn warns_on_unlawed_relation() {
    let spec = parse("sort P\nrelation r(a: P, b: P)").unwrap();
    let warns = warnings(&spec);
    assert!(
        warns.iter().any(|w| w.contains("relation `r` has no law")),
        "got: {warns:?}"
    );
}

#[test]
fn real_spec_has_no_warnings() {
    let spec = parse(TEMPORAL).unwrap();
    assert!(warnings(&spec).is_empty(), "got: {:?}", warnings(&spec));
}

#[test]
fn rejects_ordering_on_non_int() {
    let src = "\
sort MediaItem
sort P { media: MediaItem }
relation r(a: P, b: P)
law r(a, b) {
  a.media <= b.media
}";
    let errs = check_src(src).unwrap_err();
    assert!(errs.iter().any(|e| e.contains("needs integers")));
}

#[test]
fn rejects_eq_type_mismatch() {
    let src = "\
sort MediaItem
sort P { media: MediaItem, t: Int }
relation r(a: P)
law r(a) {
  a.media == a.t
}";
    let errs = check_src(src).unwrap_err();
    assert!(errs.iter().any(|e| e.contains("mismatched types")));
}

#[test]
fn every_error_is_collected_in_order_with_exact_messages() {
    let src = "\
sort P
sort P { x: Ghost, n: Int }
relation r(a: P, b: Nope)
relation r(a: P)
law r(a) {
  a.n <= a
  b == 1
  a.zz == 3
}
law missing(a) { a.n == 1 }";
    let errs = check_src(src).unwrap_err();
    assert_eq!(
        errs,
        vec![
            "line 2: sort `P` declared twice".to_string(),
            "line 4: relation `r` declared twice".to_string(),
            "line 2: field `P.x` has unknown type `Ghost`".to_string(),
            "line 3: relation `r` parameter `b` has unknown sort `Nope`".to_string(),
            "line 6: comparison `<=` needs integers, got Int and P".to_string(),
            "line 7: unknown argument `b`".to_string(),
            "line 8: sort `P` has no field `zz` (in `a.zz`)".to_string(),
            "line 10: law refers to unknown relation `missing`".to_string(),
        ]
    );
}

#[test]
fn forbidden_and_arity_messages_are_exact() {
    let errs = check_src("sort F\nforbidden relation f(x: F)\nlaw f(x) { x == x }\nrelation g(x: F)\nlaw g(x, y) { x == y }")
        .unwrap_err();
    assert_eq!(
        errs,
        vec![
            "line 3: law on `forbidden` relation `f` \u{2014} forbidden relations allow no facts, so a law is meaningless".to_string(),
            "line 5: law `g` has 2 argument(s) but the relation takes 1".to_string(),
        ]
    );
}

#[test]
fn empty_body_and_mismatch_messages_are_exact() {
    let errs = check_src("sort A\nsort B\nrelation r(a: A, b: B)\nlaw r(a, b) { }\nrelation q(a: A, b: B)\nlaw q(a, b) { a == b }")
        .unwrap_err();
    assert_eq!(
        errs,
        vec![
            "line 4: law `r` has an empty body (constrains nothing)".to_string(),
            "line 6: `==` compares mismatched types A and B".to_string(),
        ]
    );
}

#[test]
fn later_declaration_wins_for_lookups() {
    let errs = check_src("sort P { t: Int }\nsort P\nrelation r(a: P)\nlaw r(a) { a.t == 1 }").unwrap_err();
    assert_eq!(
        errs,
        vec![
            "line 2: sort `P` declared twice".to_string(),
            "line 4: sort `P` has no field `t` (in `a.t`)".to_string(),
        ]
    );
}

#[test]
fn implication_checks_both_sides() {
    let errs = check_src("sort E { tag: Int }\nrelation d(a: E, b: E)\nlaw d(a, b) { a.tag == b.tag => a.status == b.tag }")
        .unwrap_err();
    assert_eq!(errs, vec!["line 3: sort `E` has no field `status` (in `a.status`)".to_string()]);
}

#[test]
fn warning_message_is_exact() {
    let spec = parse("sort P\nrelation r(a: P)\nrelation s(a: P)\nlaw s(a) { a == a }").unwrap();
    assert_eq!(
        warnings(&spec),
        vec!["warning: relation `r` has no law \u{2014} declared intent is not enforced".to_string()]
    );
}
