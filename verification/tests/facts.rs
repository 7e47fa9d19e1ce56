use hiker::facts::{check_facts, instances_of, resolve_id, FactInstance, Facts};
use hiker::parser::parse;

const SPEC: &str = "\
sort Module { layer: Int }
relation depends_on(a: Module, b: Module)";

type Inst<'a> = (&'a str, &'a [(&'a str, i64)]);

fn facts(instances: &[(&str, &[Inst])], tuples: &[(&str, &[&[&str]])]) -> Facts {
    Facts {
        instances: instances
            .iter()
            .map(|(sort, insts)| {
                (
                    sort.to_string(),
                    insts
                        .iter()
                        .map(|(id, fields)| FactInstance {
                            id: id.to_string(),
                            fields: fields.iter().map(|(k, v)| (k.to_string(), *v)).collect(),
                        })
                        .collect(),
                )
            })
            .collect(),
        tuples: tuples
            .iter()
            .map(|(rel, ts)| {
                (
                    rel.to_string(),
                    ts.iter()
                        .map(|t| t.iter().map(|s| s.to_string()).collect())
                        .collect(),
                )
            })
            .collect(),
    }
}

#[test]
fn valid_facts_pass() {
    let spec = parse(SPEC).unwrap();
    let f = facts(
        &[(
            "Module",
            &[("core", &[("layer", 0)]), ("cli", &[("layer", 2)])],
        )],
        &[("depends_on", &[&["cli", "core"]])],
    );
    assert_eq!(check_facts(&spec, &f), Ok(()));
}

#[test]
fn tuple_arity_mismatch_is_reported() {
    let spec = parse(SPEC).unwrap();
    let f = facts(
        &[("Module", &[("cli", &[("layer", 2)])])],
        &[("depends_on", &[&["cli"]])],
    );
    let errs = check_facts(&spec, &f).unwrap_err();
    assert!(errs.iter().any(|e| e.contains("arity")), "got: {errs:?}");
}

#[test]
fn tuple_unknown_id_is_reported() {
    let spec = parse(SPEC).unwrap();
    let f = facts(
        &[("Module", &[("cli", &[("layer", 2)])])],
        &[("depends_on", &[&["cli", "ghost"]])],
    );
    let errs = check_facts(&spec, &f).unwrap_err();
    assert!(errs.iter().any(|e| e.contains("`ghost`")), "got: {errs:?}");
}

#[test]
fn instance_missing_int_field_is_reported() {
    let spec = parse(SPEC).unwrap();
    let f = facts(&[("Module", &[("core", &[])])], &[]);
    let errs = check_facts(&spec, &f).unwrap_err();
    assert!(
        errs.iter().any(|e| e.contains("missing Int field `layer`")),
        "got: {errs:?}"
    );
}

#[test]
fn unknown_sort_and_relation_keys_are_reported() {
    let spec = parse(SPEC).unwrap();
    let f = facts(&[("Ghost", &[])], &[("no_rel", &[])]);
    let errs = check_facts(&spec, &f).unwrap_err();
    assert!(errs.iter().any(|e| e.contains("unknown sort `Ghost`")));
    assert!(errs.iter().any(|e| e.contains("unknown relation `no_rel`")));
}

#[test]
fn fact_error_messages_are_exact_and_ordered() {
    let spec = parse(SPEC).unwrap();
    let f = facts(
        &[("Ghost", &[]), ("Module", &[("core", &[("other", 1)])])],
        &[("no_rel", &[]), ("depends_on", &[&["core"], &["core", "ghost"]])],
    );
    assert_eq!(
        check_facts(&spec, &f).unwrap_err(),
        vec![
            "facts: `instances` names unknown sort `Ghost`".to_string(),
            "facts: `tuples` names unknown relation `no_rel`".to_string(),
            "facts: instance `core` of sort `Module` is missing Int field `layer`".to_string(),
            "facts: tuple 0 of relation `depends_on` has arity 1 but the relation takes 2".to_string(),
            "facts: tuple 1 of relation `depends_on` references id `ghost` not declared as a `Module` instance".to_string(),
        ]
    );
}

#[test]
fn lookups_by_sort_and_id() {
    let f = facts(
        &[("Module", &[("core", &[("layer", 0)]), ("cli", &[("layer", 2)])])],
        &[],
    );
    assert_eq!(instances_of(&f, "Module").len(), 2);
    assert!(instances_of(&f, "Ghost").is_empty());
    let cli = resolve_id(&f, "Module", "cli").unwrap();
    assert_eq!(cli.fields, vec![("layer".to_string(), 2)]);
    assert!(resolve_id(&f, "Module", "ghost").is_none());
    assert!(resolve_id(&f, "Ghost", "cli").is_none());
}

#[test]
fn to_instance_copies_id_and_fields() {
    let fi = FactInstance { id: "m".to_string(), fields: vec![("layer".to_string(), 7)] };
    let i = fi.to_instance();
    assert_eq!(i.id, "m");
    assert_eq!(i.fields, vec![("layer".to_string(), 7)]);
}
