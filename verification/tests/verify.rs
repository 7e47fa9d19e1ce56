use hiker::facts::{FactInstance, Facts};
use hiker::parser::parse;
use hiker::verify::verify;

type Inst<'a> = (&'a str, &'a [(&'a str, i64)]);

fn facts(instances: &[(&str, &[Inst])], tuples: &[(&str, &[&[&str]])]) -> Facts {
    Facts {
        instances: instances
            .iter()
            .map(|(sort, insts)| {
                (
                    sort.to_string(),
                    insts
                        .iter()
                        .map(|(id, fields)| FactInstance {
                            id: id.to_string(),
                            fields: fields.iter().map(|(k, v)| (k.to_string(), *v)).collect(),
                        })
                        .collect(),
                )
            })
            .collect(),
        tuples: tuples
            .iter()
            .map(|(rel, ts)| {
                (
                    rel.to_string(),
                    ts.iter()
                        .map(|t| t.iter().map(|s| s.to_string()).collect())
                        .collect(),
                )
            })
            .collect(),
    }
}

#[test]
fn dependency_direction_passes_inward_and_flags_the_outward_edge() {
    let spec = parse(
        "\
sort Module { layer: Int }
relation depends_on(a: Module, b: Module)
law depends_on(a, b) { b.layer <= a.layer }",
    )
    .unwrap();

    let inward = facts(
        &[(
            "Module",
            &[("m0", &[("layer", 0)]), ("m1", &[("layer", 1)]), ("m2", &[("layer", 2)])],
        )],
        &[("depends_on", &[&["m2", "m1"], &["m1", "m0"]])],
    );
    assert_eq!(verify(&spec, &inward), Vec::new());

    let outward = facts(
        &[("Module", &[("m0", &[("layer", 0)]), ("m2", &[("layer", 2)])])],
        &[("depends_on", &[&["m2", "m0"], &["m0", "m2"]])],
    );
    let v = verify(&spec, &outward);
    assert_eq!(v.len(), 1, "exactly one violation, got: {v:?}");
    assert_eq!(v[0].args, vec!["m0".to_string(), "m2".to_string()]);
    assert_eq!(v[0].relation, "depends_on");
}

#[test]
fn single_source_cross_product_flags_divergent_results() {
    let spec = parse(
        "\
sort Core { usecase: Int, result: Int }
relation single_source(a: Core, b: Core)
law single_source(a, b) { a.usecase == b.usecase => a.result == b.result }",
    )
    .unwrap();

    let diverge = facts(
        &[(
            "Core",
            &[
                ("x", &[("usecase", 1), ("result", 10)]),
                ("y", &[("usecase", 1), ("result", 20)]),
            ],
        )],
        &[],
    );
    let v = verify(&spec, &diverge);
    assert!(!v.is_empty(), "expected a violation");
    assert!(v.iter().all(|viol| viol.relation == "single_source"));
    assert!(
        v.iter()
            .any(|viol| viol.args.contains(&"x".to_string()) && viol.args.contains(&"y".to_string())),
        "violation should name x and y, got: {v:?}"
    );

    let agree = facts(
        &[(
            "Core",
            &[
                ("x", &[("usecase", 1), ("result", 10)]),
                ("y", &[("usecase", 1), ("result", 10)]),
            ],
        )],
        &[],
    );
    assert_eq!(verify(&spec, &agree), Vec::new());
}

#[test]
fn forbidden_relation_flags_each_matching_fact() {
    let spec = parse(
        "\
sort File
forbidden relation fs_import_in_adapter(f: File)",
    )
    .unwrap();

    let with_fact = facts(&[], &[("fs_import_in_adapter", &[&["routers/a.ts"]])]);
    let v = verify(&spec, &with_fact);
    assert_eq!(v.len(), 1);
    assert_eq!(v[0].relation, "fs_import_in_adapter");
    assert!(v[0].detail.contains("forbidden"), "got: {:?}", v[0]);

    let no_fact = facts(&[], &[]);
    assert_eq!(verify(&spec, &no_fact), Vec::new());
}

#[test]
fn cross_product_order_and_details_are_exact() {
    let spec = parse(
        "sort Core { usecase: Int, result: Int }\nrelation s(a: Core, b: Core)\nlaw s(a, b) { a.usecase == b.usecase => a.result == b.result }",
    )
    .unwrap();
    let f = facts(
        &[(
            "Core",
            &[
                ("x", &[("usecase", 1), ("result", 10)]),
                ("y", &[("usecase", 1), ("result", 20)]),
            ],
        )],
        &[],
    );
    let v = verify(&spec, &f);
    assert_eq!(v.len(), 2);
    assert_eq!(v[0].args, vec!["x".to_string(), "y".to_string()]);
    assert_eq!(v[1].args, vec!["y".to_string(), "x".to_string()]);
    assert_eq!(v[0].detail, "law violated by these facts");
    assert_eq!(v[0].law_line, 3);
}

#[test]
fn unknown_tuple_id_and_eval_gaps_become_violations() {
    let spec = parse(
        "sort M { layer: Int }\nrelation d(a: M, b: M)\nlaw d(a, b) { b.layer <= a.layer }",
    )
    .unwrap();
    let f = facts(
        &[("M", &[("m0", &[("layer", 0)]), ("m1", &[])])],
        &[("d", &[&["m0", "ghost"], &["m0", "m1"], &["m0"]])],
    );
    let v = verify(&spec, &f);
    assert_eq!(v.len(), 3);
    assert_eq!(v[0].detail, "tuple references unknown id `ghost`");
    assert_eq!(v[1].detail, "instance `m1` has no field `layer`");
    assert_eq!(v[2].detail, "binding arity mismatch: 2 argument(s), 1 instance(s)");
}

#[test]
fn cross_product_over_the_cap_is_refused() {
    let spec = parse("sort P\nrelation r(a: P, b: P)\nlaw r(a, b) { a == b }").unwrap();
    let ids: Vec<String> = (0..101).map(|i| format!("p{i}")).collect();
    let f = Facts {
        instances: vec![(
            "P".to_string(),
            ids.iter().map(|id| FactInstance { id: id.clone(), fields: Vec::new() }).collect(),
        )],
        tuples: Vec::new(),
    };
    let v = verify(&spec, &f);
    assert_eq!(v.len(), 1);
    assert!(v[0].args.is_empty());
    assert_eq!(
        v[0].detail,
        "cross-product population for `r` exceeds cap 10000; supply explicit tuples in facts"
    );
}

#[test]
fn cross_product_with_an_empty_population_checks_nothing() {
    let spec = parse("sort P { n: Int }\nrelation r(a: P)\nlaw r(a) { a.n == 1 }").unwrap();
    assert_eq!(verify(&spec, &facts(&[], &[])), Vec::new());
}

#[test]
fn laws_on_undeclared_relations_are_skipped() {
    let spec = parse("law nope(a) { a == a }").unwrap();
    assert_eq!(verify(&spec, &facts(&[], &[])), Vec::new());
}
