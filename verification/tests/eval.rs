use hiker::ast::Law;
use hiker::eval::{eval_law, Binding, Instance};
use hiker::parser::parse;

fn inst(id: &str, fields: &[(&str, i64)]) -> Instance {
    Instance {
        id: id.to_string(),
        fields: fields.iter().map(|(k, v)| (k.to_string(), *v)).collect(),
    }
}

fn first_law(src: &str) -> Law {
    parse(src).unwrap().laws.into_iter().next().unwrap()
}

#[test]
fn ordering_law_holds_inward_and_fails_outward() {
    let law = first_law(
        "\
sort Module { layer: Int }
relation depends_on(importer: Module, imported: Module)
law depends_on(importer, imported) { imported.layer <= importer.layer }",
    );
    let importer = inst("a", &[("layer", 2)]);
    let imported = inst("b", &[("layer", 1)]);
    let b = Binding::new(&law.args, &[&importer, &imported]).unwrap();
    assert_eq!(eval_law(&law, &b), Ok(true));

    let importer = inst("a", &[("layer", 0)]);
    let imported = inst("b", &[("layer", 2)]);
    let b = Binding::new(&law.args, &[&importer, &imported]).unwrap();
    assert_eq!(eval_law(&law, &b), Ok(false));
}

#[test]
fn implication_lowers_to_not_ante_or_cons() {
    let law = first_law(
        "\
sort E { tag: Int, status: Int }
relation det(a: E, b: E)
law det(a, b) { a.tag == b.tag => a.status == b.status }",
    );
    let eval = |a: Instance, c: Instance| {
        let b = Binding::new(&law.args, &[&a, &c]).unwrap();
        eval_law(&law, &b)
    };
    assert_eq!(
        eval(
            inst("a", &[("tag", 1), ("status", 5)]),
            inst("b", &[("tag", 2), ("status", 9)])
        ),
        Ok(true)
    );
    assert_eq!(
        eval(
            inst("a", &[("tag", 1), ("status", 5)]),
            inst("b", &[("tag", 1), ("status", 5)])
        ),
        Ok(true)
    );
    assert_eq!(
        eval(
            inst("a", &[("tag", 1), ("status", 5)]),
            inst("b", &[("tag", 1), ("status", 9)])
        ),
        Ok(false)
    );
}

#[test]
fn empty_body_is_true() {
    let law = first_law(
        "\
sort P
relation r(a: P)
law r(a) { }",
    );
    let p = inst("x", &[]);
    let b = Binding::new(&law.args, &[&p]).unwrap();
    assert_eq!(eval_law(&law, &b), Ok(true));
}

#[test]
fn missing_field_is_an_error_not_a_panic() {
    let law = first_law(
        "\
sort Module { layer: Int }
relation depends_on(importer: Module, imported: Module)
law depends_on(importer, imported) { imported.layer <= importer.layer }",
    );
    let importer = inst("a", &[("layer", 2)]);
    let imported = inst("b", &[]);
    let b = Binding::new(&law.args, &[&importer, &imported]).unwrap();
    let err = eval_law(&law, &b).unwrap_err();
    assert!(err.contains("no field `layer`"), "got: {err}");
}

#[test]
fn ordering_on_identity_is_an_error() {
    let law = first_law(
        "\
sort P
relation r(a: P, b: P)
law r(a, b) { a <= b }",
    );
    let x = inst("x", &[]);
    let y = inst("y", &[]);
    let b = Binding::new(&law.args, &[&x, &y]).unwrap();
    let err = eval_law(&law, &b).unwrap_err();
    assert!(err.contains("needs integers"), "got: {err}");
}

#[test]
fn binding_arity_mismatch_is_an_error() {
    let law = first_law("sort P\nrelation r(a: P, b: P)\nlaw r(a, b) { a == b }");
    let x = inst("x", &[]);
    let err = Binding::new(&law.args, &[&x]).err().unwrap();
    assert_eq!(err, "binding arity mismatch: 2 argument(s), 1 instance(s)");
}

#[test]
fn identity_equality_compares_ids() {
    let law = first_law("sort P\nrelation r(a: P, b: P)\nlaw r(a, b) { a == b }");
    let x = inst("x", &[]);
    let y = inst("y", &[]);
    let b = Binding::new(&law.args, &[&x, &x]).unwrap();
    assert_eq!(eval_law(&law, &b), Ok(true));
    let b = Binding::new(&law.args, &[&x, &y]).unwrap();
    assert_eq!(eval_law(&law, &b), Ok(false));
}

#[test]
fn mismatched_kinds_and_unknown_argument_messages() {
    let law = first_law("sort P { n: Int }\nrelation r(a: P)\nlaw r(a) {\n  a == a.n\n}");
    let x = inst("x", &[("n", 1)]);
    let b = Binding::new(&law.args, &[&x]).unwrap();
    assert_eq!(
        eval_law(&law, &b).unwrap_err(),
        "line 4: `==` compares mismatched value kinds"
    );
    let law = first_law("sort P { n: Int }\nrelation r(a: P)\nlaw r(a) { z.n == 1 }");
    let b = Binding::new(&law.args, &[&x]).unwrap();
    assert_eq!(eval_law(&law, &b).unwrap_err(), "unknown argument `z`");
}

#[test]
fn each_comparison_operator_and_literals() {
    let x = inst("x", &[("n", 3)]);
    for (op, expected) in [("==", false), ("<=", true), ("<", true), (">=", false), (">", false)] {
        let law = first_law(&format!("sort P {{ n: Int }}\nrelation r(a: P)\nlaw r(a) {{ a.n {op} 4 }}"));
        let b = Binding::new(&law.args, &[&x]).unwrap();
        assert_eq!(eval_law(&law, &b), Ok(expected), "op {op}");
    }
}

#[test]
fn first_false_clause_stops_evaluation() {
    let law = first_law("sort P { n: Int }\nrelation r(a: P)\nlaw r(a) {\n  a.n == 0\n  a.missing == 1\n}");
    let x = inst("x", &[("n", 3)]);
    let b = Binding::new(&law.args, &[&x]).unwrap();
    assert_eq!(eval_law(&law, &b), Ok(false));
}

#[test]
fn false_antecedent_skips_the_consequent() {
    let law = first_law("sort P { n: Int }\nrelation r(a: P)\nlaw r(a) { a.n == 0 => a.missing == 1 }");
    let x = inst("x", &[("n", 3)]);
    let b = Binding::new(&law.args, &[&x]).unwrap();
    assert_eq!(eval_law(&law, &b), Ok(true));
}
