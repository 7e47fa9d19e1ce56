//! Backends: the target languages a checked spec can be turned into
//! property tests for, and the knobs they take.
use vstd::prelude::*;
use vstd::string::*;

verus! {

/// Knobs a backend needs that aren't in the spec itself.
pub struct EmitOptions {
    /// The system-under-test module the generated tests import from:
    /// a Rust crate name, a TS import path, or a Python module name.
    pub module: String,
}

/// A code generator for one target language.
pub trait Backend {
    /// The conventional file name for this target's generated tests.
    fn default_filename(&self) -> &'static str;
}

/// The known targets.
#[derive(Debug, Clone, Copy, PartialEq, Eq, Structural)]
pub enum Target {
    /// Rust, with proptest.
    Rust,
    /// TypeScript, with fast-check under vitest.
    TypeScript,
    /// Python, with Hypothesis under pytest.
    Python,
}

/// The conventional file name of a target's generated tests.
pub open spec fn target_filename(t: Target) -> Seq<char> {
    match t {
        Target::Rust => "generated.rs"@,
        Target::TypeScript => "generated.test.ts"@,
        Target::Python => "test_generated.py"@,
    }
}

impl Backend for Target {
    fn default_filename(&self) -> (r: &'static str)
        ensures
            r@ == target_filename(*self),
    {
        match self {
            Target::Rust => "generated.rs",
            Target::TypeScript => "generated.test.ts",
            Target::Python => "test_generated.py",
        }
    }
}

/// The target a `--target` name selects: `rust`, `ts` or `python`.
pub open spec fn spec_for_target(name: Seq<char>) -> Option<Target> {
    if name == "rust"@ {
        Some(Target::Rust)
    } else if name == "ts"@ {
        Some(Target::TypeScript)
    } else if name == "python"@ {
        Some(Target::Python)
    } else {
        None
    }
}

/// Resolves a `--target` name to a backend; `None` for unknown targets.
pub fn for_target(target: &str) -> (r: Option<Target>)
    ensures
        r == spec_for_target(target@),
{
    let name = String::from_str(target);
    if name == String::from_str("rust") {
        Some(Target::Rust)
    } else if name == String::from_str("ts") {
        Some(Target::TypeScript)
    } else if name == String::from_str("python") {
        Some(Target::Python)
    } else {
        None
    }
}

} // verus!
