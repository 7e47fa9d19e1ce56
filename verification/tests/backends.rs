use hiker::backends::{for_target, Backend, EmitOptions, Target};
use hiker::text::{push_i64, push_usize};

#[test]
fn known_targets_resolve() {
    assert_eq!(for_target("rust"), Some(Target::Rust));
    assert_eq!(for_target("ts"), Some(Target::TypeScript));
    assert_eq!(for_target("python"), Some(Target::Python));
    assert_eq!(for_target("go"), None);
    assert_eq!(for_target("Rust"), None);
}

#[test]
fn default_filenames_per_target() {
    assert_eq!(Target::Rust.default_filename(), "generated.rs");
    assert_eq!(Target::TypeScript.default_filename(), "generated.test.ts");
    assert_eq!(Target::Python.default_filename(), "test_generated.py");
}

#[test]
fn emit_options_carry_the_module() {
    let o = EmitOptions { module: "temporal".to_string() };
    assert_eq!(o.module, "temporal");
}

#[test]
fn decimal_rendering() {
    let mut s = String::from("n=");
    push_usize(&mut s, 0);
    push_str_sep(&mut s);
    push_usize(&mut s, 1040);
    push_str_sep(&mut s);
    push_i64(&mut s, -42);
    push_str_sep(&mut s);
    push_i64(&mut s, i64::MIN);
    assert_eq!(s, "n=0,1040,-42,-9223372036854775808");
}

fn push_str_sep(s: &mut String) {
    s.push(',');
}
