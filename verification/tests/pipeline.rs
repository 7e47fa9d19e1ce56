use hiker::facts::{FactInstance, Facts};
use hiker::pipeline::{load_checked, run_verify, LoadError, VerifyReport};

const SPEC: &str = "\
sort Module { layer: Int }
relation depends_on(a: Module, b: Module)
law depends_on(a, b) { b.layer <= a.layer }
";

fn facts(edge: (&str, &str)) -> Facts {
    Facts {
        instances: vec![(
            "Module".to_string(),
            vec![
                FactInstance { id: "cli".to_string(), fields: vec![("layer".to_string(), 2)] },
                FactInstance { id: "core".to_string(), fields: vec![("layer".to_string(), 0)] },
            ],
        )],
        tuples: vec![(
            "depends_on".to_string(),
            vec![vec![edge.0.to_string(), edge.1.to_string()]],
        )],
    }
}

#[test]
fn verify_succeeds_on_inward_facts() {
    let report = run_verify(SPEC, &facts(("cli", "core")));
    assert_eq!(report.exit_code(), 0);
}

#[test]
fn verify_fails_on_violating_edge() {
    let report = run_verify(SPEC, &facts(("core", "cli")));
    assert_eq!(report.exit_code(), 1);
    let VerifyReport::Violations(v) = report else { panic!("expected violations") };
    assert_eq!(v.len(), 1);
    assert_eq!(v[0].args, vec!["core".to_string(), "cli".to_string()]);
    assert_eq!(v[0].law_line, 3);
}

#[test]
fn verify_reports_fact_errors_before_evaluating() {
    let report = run_verify(SPEC, &facts(("cli", "ghost")));
    assert_eq!(report.exit_code(), 1);
    let VerifyReport::Facts(errs) = report else { panic!("expected fact errors") };
    assert_eq!(
        errs,
        vec!["facts: tuple 0 of relation `depends_on` references id `ghost` not declared as a `Module` instance".to_string()]
    );
}

#[test]
fn verify_refuses_incoherent_intent() {
    let report = run_verify("relation r(a: Ghost)", &facts(("cli", "core")));
    assert_eq!(report.exit_code(), 1);
    assert!(matches!(report, VerifyReport::Load(LoadError::Check(_))));
    let report = run_verify("sort", &facts(("cli", "core")));
    assert!(matches!(report, VerifyReport::Load(LoadError::Parse(_))));
}

#[test]
fn load_checked_returns_spec_and_warnings() {
    let loaded = load_checked("sort P\nrelation r(a: P)").ok().unwrap();
    assert_eq!(loaded.spec.relations.len(), 1);
    assert_eq!(loaded.warnings.len(), 1);
    let Err(LoadError::Check(errs)) = load_checked("law x(a) { a == a }") else { panic!("expected check errors") };
    assert_eq!(errs, vec!["line 1: law refers to unknown relation `x`".to_string()]);
    let Err(LoadError::Parse(m)) = load_checked("sort X @") else { panic!("expected a parse error") };
    assert_eq!(m, "line 1: unexpected character `@`");
}

#[test]
fn passing_report_counts_laws() {
    let VerifyReport::Passed { laws, warnings } = run_verify(SPEC, &facts(("cli", "core"))) else {
        panic!("expected a pass")
    };
    assert_eq!(laws, 1);
    assert!(warnings.is_empty());
}
