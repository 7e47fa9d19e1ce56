//! The command pipelines: a spec source is parsed and checked before any use,
//! and `verify` additionally type-checks the facts before evaluating laws.
//! Each stage's failure stops the pipeline and is reported as it stands.
use vstd::prelude::*;
use crate::ast::{Spec, strings_view};
use crate::checker::{
    check, check_errors, coherent, law_check_passes_iff_coherent, messages, spec_warnings, warnings,
};
use crate::facts::{
    Facts, FactsV, check_facts, fact_messages, facts_conform, facts_errors,
    law_check_facts_passes_iff_conform,
};
use crate::parser::{parse, source_error_message, spec_parse};
use crate::verify::{Violation, spec_verify, verify, violations_view};

verus! {

/// Why a spec source could not be loaded.
pub enum LoadError {
    /// The source does not lex or parse; the message names the line.
    Parse(String),
    /// The spec parses but does not compile; every error, in order.
    Check(Vec<String>),
}

/// A checked spec with its non-fatal warnings.
pub struct Loaded {
    pub spec: Spec,
    pub warnings: Vec<String>,
}

/// Whether a load outcome is what the pipeline owes for `src`.
pub open spec fn load_agrees(src: Seq<char>, r: Result<Loaded, LoadError>) -> bool {
    match spec_parse(src) {
        Err(e) => r matches Err(LoadError::Parse(m)) && m@ == source_error_message(e),
        Ok(sv) => if check_errors(sv).len() > 0 {
            r matches Err(LoadError::Check(v)) && strings_view(v@) == messages(check_errors(sv))
        } else {
            r matches Ok(l) && l.spec@ == sv && strings_view(l.warnings@) == spec_warnings(
                sv,
                sv.relations.len() as int,
            )
        },
    }
}

/// Parses and checks a spec source: a spec is only used once intent compiles.
pub fn load_checked(src: &str) -> (r: Result<Loaded, LoadError>)
    requires
        src@.len() < usize::MAX,
    ensures
        r is Ok <==> (spec_parse(src@) matches Ok(sv) && check_errors(sv).len() == 0),
        load_agrees(src@, r),
{
    let spec = match parse(src) {
        Ok(s) => s,
        Err(m) => return Err(LoadError::Parse(m)),
    };
    match check(&spec) {
        Ok(_) => {},
        Err(errors) => return Err(LoadError::Check(errors)),
    }
    let warnings = warnings(&spec);
    Ok(Loaded { spec, warnings })
}

/// The outcome of the `verify` pipeline.
pub enum VerifyReport {
    /// The spec could not be loaded.
    Load(LoadError),
    /// The facts do not match the spec; every error, in order.
    Facts(Vec<String>),
    /// Laws failed; every violation, in order.
    Violations(Vec<Violation>),
    /// Every law holds; the number of laws checked and the spec's warnings.
    Passed { laws: usize, warnings: Vec<String> },
}

impl VerifyReport {
    /// The exit code a report maps to.
    pub open spec fn exit_code_spec(&self) -> u8 {
        if self is Passed {
            0
        } else {
            1
        }
    }

    /// The process exit code: 0 when every law holds, 1 otherwise.
    pub fn exit_code(&self) -> (c: u8)
        ensures
            c == self.exit_code_spec(),
    {
        match self {
            VerifyReport::Passed { .. } => 0,
            _ => 1,
        }
    }
}

/// Loads and checks the spec, type-checks the facts against it, then
/// evaluates every law over the facts.
pub fn run_verify(src: &str, facts: &Facts) -> (r: VerifyReport)
    requires
        src@.len() < usize::MAX,
    ensures
        r is Passed <==> verify_passes(src@, facts@),
        (r.exit_code_spec() == 0) == verify_passes(src@, facts@),
        match spec_parse(src@) {
            Err(e) => r matches VerifyReport::Load(LoadError::Parse(m)) && m@ == source_error_message(e),
            Ok(sv) => if check_errors(sv).len() > 0 {
                r matches VerifyReport::Load(LoadError::Check(v)) && strings_view(v@) == messages(
                    check_errors(sv),
                )
            } else if facts_errors(sv, facts@).len() > 0 {
                r matches VerifyReport::Facts(v) && strings_view(v@) == fact_messages(
                    facts_errors(sv, facts@),
                )
            } else if spec_verify(sv, facts@).len() > 0 {
                r matches VerifyReport::Violations(v) && violations_view(v@) == spec_verify(
                    sv,
                    facts@,
                )
            } else {
                r matches VerifyReport::Passed { laws, warnings } && laws == sv.laws.len()
                    && strings_view(warnings@) == spec_warnings(sv, sv.relations.len() as int)
            },
        },
{
    let loaded = match load_checked(src) {
        Ok(l) => l,
        Err(e) => return VerifyReport::Load(e),
    };
    match check_facts(&loaded.spec, facts) {
        Ok(_) => {},
        Err(errors) => return VerifyReport::Facts(errors),
    }
    let violations = verify(&loaded.spec, facts);
    if violations.len() == 0 {
        VerifyReport::Passed { laws: loaded.spec.laws.len(), warnings: loaded.warnings }
    } else {
        VerifyReport::Violations(violations)
    }
}

/// The `verify` pipeline passes on a source and facts.
pub open spec fn verify_passes(src: Seq<char>, f: FactsV) -> bool {
    spec_parse(src) matches Ok(sv) && check_errors(sv).len() == 0 && facts_errors(sv, f).len() == 0
        && spec_verify(sv, f).len() == 0
}

/// `verify` exits 0 exactly when the spec parses to a coherent spec, the
/// facts conform to it, and no law or forbidden relation is violated.
pub proof fn law_verify_exit_zero_iff_conformant(src: Seq<char>, f: FactsV)
    ensures
        verify_passes(src, f) <==> (spec_parse(src) matches Ok(sv) && coherent(sv) && facts_conform(
            sv,
            f,
        ) && spec_verify(sv, f).len() == 0),
{
    if let Ok(sv) = spec_parse(src) {
        law_check_passes_iff_coherent(sv);
        law_check_facts_passes_iff_conform(sv, f);
    }
}

} // verus!
