//! Eval: an interpreter that decides whether a law holds for concrete instances.
//!
//! A [`Binding`] maps a law's argument names to instances; a law holds when
//! every clause holds, and an implication `a => b` is `!a || b`. Nothing here
//! panics on bad data: an unresolved argument, a missing field, or an ordering
//! comparison on identities is an `Err` naming the gap.
use vstd::prelude::*;
use vstd::string::*;
use crate::ast::{Clause, ClauseV, CmpOp, Expr, ExprV, Law, LawV, Pred, PredV, clauses_view, strings_view};
use crate::text::{nat_decimal, push_str, push_usize};
use crate::checker::is_ordering;

verus! {

/// A concrete value an expression resolves to: an integer field value or
/// literal, or an instance's identity.
#[derive(Debug, PartialEq, Eq)]
pub enum Value {
    Int(i64),
    Id(String),
}

/// Model of [`Value`].
pub enum ValueV {
    Int(i64),
    Id(Seq<char>),
}

impl View for Value {
    type V = ValueV;

    open spec fn view(&self) -> ValueV {
        match self {
            Value::Int(v) => ValueV::Int(*v),
            Value::Id(s) => ValueV::Id(s@),
        }
    }
}

/// One concrete entity: an identity plus its integer field values. A
/// well-formed instance names each field once; a lookup by name takes the
/// first field of that name.
#[derive(Debug, PartialEq, Eq)]
pub struct Instance {
    pub id: String,
    pub fields: Vec<(String, i64)>,
}

/// Model of [`Instance`].
pub struct InstanceV {
    pub id: Seq<char>,
    pub fields: Seq<(Seq<char>, i64)>,
}

/// The models of named integer fields.
pub open spec fn int_fields_view(v: Seq<(String, i64)>) -> Seq<(Seq<char>, i64)> {
    v.map_values(|p: (String, i64)| (p.0@, p.1))
}

impl View for Instance {
    type V = InstanceV;

    open spec fn view(&self) -> InstanceV {
        InstanceV { id: self.id@, fields: int_fields_view(self.fields@) }
    }
}

/// The value of the first field named `f` among `fields[i..]`.
pub open spec fn field_value(fields: Seq<(Seq<char>, i64)>, f: Seq<char>, i: int) -> Option<i64>
    decreases fields.len() - i,
{
    if i < 0 || i >= fields.len() {
        None
    } else if fields[i].0 == f {
        Some(fields[i].1)
    } else {
        field_value(fields, f, i + 1)
    }
}

/// No field name occurs twice.
pub open spec fn fields_distinct(fields: Seq<(Seq<char>, i64)>) -> bool {
    forall|j: int, k: int| 0 <= j < k < fields.len() ==> #[trigger] fields[j].0 != #[trigger] fields[k].0
}

impl InstanceV {
    /// Each field is named once, as in a map from names to values.
    pub open spec fn well_formed(self) -> bool {
        fields_distinct(self.fields)
    }
}

proof fn lemma_field_value_at(fields: Seq<(Seq<char>, i64)>, k: int, i: int)
    requires
        fields_distinct(fields),
        0 <= i <= k < fields.len(),
    ensures
        field_value(fields, fields[k].0, i) == Some(fields[k].1),
    decreases k - i,
{
    if i < k {
        assert(fields[i].0 != fields[k].0);
        lemma_field_value_at(fields, k, i + 1);
    }
}

/// When each field is named once, looking a field up by its name gives its
/// value, and a name that no field has gives nothing: the fields behave as a map.
pub proof fn law_distinct_fields_are_a_map(inst: InstanceV, name: Seq<char>)
    requires
        inst.well_formed(),
    ensures
        forall|k: int|
            0 <= k < inst.fields.len() && #[trigger] inst.fields[k].0 == name ==> field_value(
                inst.fields,
                name,
                0,
            ) == Some(inst.fields[k].1),
        (forall|k: int| 0 <= k < inst.fields.len() ==> #[trigger] inst.fields[k].0 != name)
            ==> field_value(inst.fields, name, 0) is None,
{
    assert forall|k: int|
        0 <= k < inst.fields.len() && #[trigger] inst.fields[k].0 == name implies field_value(
            inst.fields,
            name,
            0,
        ) == Some(inst.fields[k].1) by {
        lemma_field_value_at(inst.fields, k, 0);
    }
    if forall|k: int| 0 <= k < inst.fields.len() ==> #[trigger] inst.fields[k].0 != name {
        lemma_field_value_absent(inst.fields, name, 0);
    }
}

proof fn lemma_field_value_absent(fields: Seq<(Seq<char>, i64)>, name: Seq<char>, i: int)
    requires
        forall|k: int| 0 <= k < fields.len() ==> #[trigger] fields[k].0 != name,
    ensures
        field_value(fields, name, i) is None,
    decreases fields.len() - i,
{
    if 0 <= i < fields.len() {
        assert(fields[i].0 != name);
        lemma_field_value_absent(fields, name, i + 1);
    }
}

/// Law argument names bound positionally to instances.
pub struct Binding<'a> {
    args: &'a [String],
    insts: Vec<&'a Instance>,
}

/// Model of a binding: argument names paired with instances, in order.
pub type BindingV = Seq<(Seq<char>, InstanceV)>;

/// The instance bound to `n`: the last pair among `b[..k]` that names it.
pub open spec fn bound_instance(b: BindingV, n: Seq<char>, k: int) -> Option<InstanceV>
    decreases k,
{
    if k <= 0 {
        None
    } else if b[k - 1].0 == n {
        Some(b[k - 1].1)
    } else {
        bound_instance(b, n, k - 1)
    }
}

/// Pairs argument names with instances.
pub open spec fn pair_up(args: Seq<Seq<char>>, insts: Seq<InstanceV>) -> BindingV {
    Seq::new(args.len(), |i: int| (args[i], insts[i]))
}

/// The models of borrowed instances.
pub open spec fn insts_view(v: Seq<&Instance>) -> Seq<InstanceV> {
    v.map_values(|r: &Instance| r@)
}

impl<'a> View for Binding<'a> {
    type V = BindingV;

    /// The pairs of argument names and instances.
    closed spec fn view(&self) -> BindingV {
        pair_up(strings_view(self.args@), insts_view(self.insts@))
    }
}

impl<'a> Binding<'a> {
    /// Binding invariant: one instance per argument name.
    pub closed spec fn wf(&self) -> bool {
        self.args@.len() == self.insts@.len()
    }
}

/// Why a law could not be evaluated.
pub enum EvalError {
    ArityMismatch { args: nat, insts: nat },
    UnknownArg { name: Seq<char> },
    NoField { id: Seq<char>, field: Seq<char> },
    MismatchedKinds { line: nat },
    NeedsIntegers { line: nat, op: CmpOp },
}

/// The spelling of a comparison operator.
pub open spec fn op_spelling(op: CmpOp) -> Seq<char> {
    match op {
        CmpOp::Eq => "=="@,
        CmpOp::Le => "<="@,
        CmpOp::Lt => "<"@,
        CmpOp::Ge => ">="@,
        CmpOp::Gt => ">"@,
    }
}

/// The message reported for an evaluation error.
pub open spec fn eval_error_message(e: EvalError) -> Seq<char> {
    match e {
        EvalError::ArityMismatch { args, insts } => "binding arity mismatch: "@ + nat_decimal(args)
            + " argument(s), "@ + nat_decimal(insts) + " instance(s)"@,
        EvalError::UnknownArg { name } => "unknown argument `"@ + name + "`"@,
        EvalError::NoField { id, field } => "instance `"@ + id + "` has no field `"@ + field
            + "`"@,
        EvalError::MismatchedKinds { line } => "line "@ + nat_decimal(line)
            + ": `==` compares mismatched value kinds"@,
        EvalError::NeedsIntegers { line, op } => "line "@ + nat_decimal(line) + ": comparison `"@
            + op_spelling(op) + "` needs integers"@,
    }
}

/// The value an expression resolves to under a binding.
pub open spec fn spec_resolve(e: ExprV, b: BindingV) -> Result<ValueV, EvalError> {
    match e {
        ExprV::Int(n) => Ok(ValueV::Int(n)),
        ExprV::Arg(name) => match bound_instance(b, name, b.len() as int) {
            Some(inst) => Ok(ValueV::Id(inst.id)),
            None => Err(EvalError::UnknownArg { name }),
        },
        ExprV::Field { arg, field } => match bound_instance(b, arg, b.len() as int) {
            None => Err(EvalError::UnknownArg { name: arg }),
            Some(inst) => match field_value(inst.fields, field, 0) {
                Some(v) => Ok(ValueV::Int(v)),
                None => Err(EvalError::NoField { id: inst.id, field }),
            },
        },
    }
}

/// Whether `l op r` holds for integers.
pub open spec fn compare_ints(op: CmpOp, l: i64, r: i64) -> bool {
    match op {
        CmpOp::Eq => l == r,
        CmpOp::Le => l <= r,
        CmpOp::Lt => l < r,
        CmpOp::Ge => l >= r,
        CmpOp::Gt => l > r,
    }
}

/// The truth of a comparison: equality compares two integers or two
/// identities; ordering needs two integers.
pub open spec fn spec_eval_pred(p: PredV, b: BindingV) -> Result<bool, EvalError> {
    match spec_resolve(p.lhs, b) {
        Err(e) => Err(e),
        Ok(l) => match spec_resolve(p.rhs, b) {
            Err(e) => Err(e),
            Ok(r) => if is_ordering(p.op) {
                match (l, r) {
                    (ValueV::Int(x), ValueV::Int(y)) => Ok(compare_ints(p.op, x, y)),
                    _ => Err(EvalError::NeedsIntegers { line: p.line, op: p.op }),
                }
            } else {
                match (l, r) {
                    (ValueV::Int(x), ValueV::Int(y)) => Ok(x == y),
                    (ValueV::Id(x), ValueV::Id(y)) => Ok(x == y),
                    _ => Err(EvalError::MismatchedKinds { line: p.line }),
                }
            },
        },
    }
}

/// The truth of a clause; `a => b` is `!a || b`, evaluated left to right.
pub open spec fn spec_eval_clause(c: ClauseV, b: BindingV) -> Result<bool, EvalError> {
    match c {
        ClauseV::Compare(p) => spec_eval_pred(p, b),
        ClauseV::Implies { ante, cons, .. } => match spec_eval_pred(ante, b) {
            Err(e) => Err(e),
            Ok(a) => if !a {
                Ok(true)
            } else {
                spec_eval_pred(cons, b)
            },
        },
    }
}

/// The conjunction of `clauses[i..]`, stopping at the first false or failing clause.
pub open spec fn spec_eval_clauses(clauses: Seq<ClauseV>, b: BindingV, i: int) -> Result<
    bool,
    EvalError,
>
    decreases clauses.len() - i,
{
    if i < 0 || i >= clauses.len() {
        Ok(true)
    } else {
        match spec_eval_clause(clauses[i], b) {
            Err(e) => Err(e),
            Ok(false) => Ok(false),
            Ok(true) => spec_eval_clauses(clauses, b, i + 1),
        }
    }
}

/// The truth of a law under a binding: the AND of its clauses.
pub open spec fn spec_eval_law(law: LawV, b: BindingV) -> Result<bool, EvalError> {
    spec_eval_clauses(law.clauses, b, 0)
}

/// The result of evaluating a law, or the fact gap that prevented it.
pub type EvalResult = Result<bool, String>;

impl<'a> Binding<'a> {
    /// Binds `args` positionally to `instances`; the two must have the same length.
    pub fn new(args: &'a [String], instances: &[&'a Instance]) -> (r: Result<Self, String>)
        ensures
            match r {
                Ok(b) => args@.len() == instances@.len() && b.wf() && b@ == pair_up(
                    strings_view(args@),
                    insts_view(instances@),
                ),
                Err(m) => args@.len() != instances@.len() && m@ == eval_error_message(
                    EvalError::ArityMismatch { args: args@.len(), insts: instances@.len() },
                ),
            },
    {
        if args.len() != instances.len() {
            let mut m = String::new();
            push_str(&mut m, "binding arity mismatch: ");
            push_usize(&mut m, args.len());
            push_str(&mut m, " argument(s), ");
            push_usize(&mut m, instances.len());
            push_str(&mut m, " instance(s)");
            return Err(m);
        }
        let mut insts: Vec<&'a Instance> = Vec::new();
        let mut i: usize = 0;
        while i < instances.len()
            invariant
                i <= instances@.len(),
                insts@ == instances@.subrange(0, i as int),
            decreases instances.len() - i,
        {
            insts.push(instances[i]);
            i = i + 1;
            assert(insts@ =~= instances@.subrange(0, i as int));
        }
        assert(insts@ =~= instances@);
        let b = Binding { args, insts };
        assert(b@ =~= pair_up(strings_view(args@), insts_view(instances@)));
        Ok(b)
    }

    /// The instance bound to `arg`.
    fn instance(&self, arg: &String) -> (r: Result<&'a Instance, String>)
        requires
            self.wf(),
        ensures
            match r {
                Ok(i) => bound_instance(self@, arg@, self@.len() as int) == Some(i@),
                Err(m) => bound_instance(self@, arg@, self@.len() as int) is None && m@
                    == eval_error_message(EvalError::UnknownArg { name: arg@ }),
            },
    {
        let ghost bv = self@;
        let mut k: usize = self.args.len();
        while k > 0
            invariant
                bv == self@,
                self.wf(),
                k <= self.args@.len(),
                bv.len() == self.args@.len(),
                bound_instance(bv, arg@, bv.len() as int) == bound_instance(bv, arg@, k as int),
            decreases k,
        {
            k = k - 1;
            if self.args[k] == *arg {
                assert(bv[k as int].0 == arg@);
                return Ok(self.insts[k]);
            }
        }
        let mut m = String::new();
        push_str(&mut m, "unknown argument `");
        push_str(&mut m, arg.as_str());
        push_str(&mut m, "`");
        Err(m)
    }
}

/// The value of the first field named `f`.
pub(crate) fn lookup_int_field(fields: &Vec<(String, i64)>, f: &String) -> (r: Option<i64>)
    ensures
        r == field_value(int_fields_view(fields@), f@, 0),
{
    let ghost fv = int_fields_view(fields@);
    let mut k: usize = 0;
    while k < fields.len()
        invariant
            fv == int_fields_view(fields@),
            k <= fields@.len(),
            field_value(fv, f@, 0) == field_value(fv, f@, k as int),
        decreases fields.len() - k,
    {
        if fields[k].0 == *f {
            return Some(fields[k].1);
        }
        k = k + 1;
    }
    None
}

/// Resolves an expression to a concrete value under the binding.
fn resolve(expr: &Expr, b: &Binding) -> (r: Result<Value, String>)
    requires
        b.wf(),
    ensures
        match (r, spec_resolve(expr@, b@)) {
            (Ok(v), Ok(sv)) => v@ == sv,
            (Err(m), Err(e)) => m@ == eval_error_message(e),
            _ => false,
        },
{
    match expr {
        Expr::Int(n) => Ok(Value::Int(*n)),
        Expr::Arg(name) => match b.instance(name) {
            Ok(inst) => Ok(Value::Id(inst.id.clone())),
            Err(m) => Err(m),
        },
        Expr::Field { arg, field } => {
            let inst = match b.instance(arg) {
                Ok(i) => i,
                Err(m) => return Err(m),
            };
            match lookup_int_field(&inst.fields, field) {
                Some(v) => Ok(Value::Int(v)),
                None => {
                    let mut m = String::new();
                    push_str(&mut m, "instance `");
                    push_str(&mut m, inst.id.as_str());
                    push_str(&mut m, "` has no field `");
                    push_str(&mut m, field.as_str());
                    push_str(&mut m, "`");
                    Err(m)
                },
            }
        },
    }
}

/// The spelling of a comparison operator.
fn op_str(op: CmpOp) -> (r: &'static str)
    ensures
        r@ == op_spelling(op),
{
    match op {
        CmpOp::Eq => "==",
        CmpOp::Le => "<=",
        CmpOp::Lt => "<",
        CmpOp::Ge => ">=",
        CmpOp::Gt => ">",
    }
}

/// Evaluates one comparison.
fn eval_pred(pred: &Pred, b: &Binding) -> (r: EvalResult)
    requires
        b.wf(),
    ensures
        match (r, spec_eval_pred(pred@, b@)) {
            (Ok(v), Ok(sv)) => v == sv,
            (Err(m), Err(e)) => m@ == eval_error_message(e),
            _ => false,
        },
{
    let lhs = match resolve(&pred.lhs, b) {
        Ok(v) => v,
        Err(m) => return Err(m),
    };
    let rhs = match resolve(&pred.rhs, b) {
        Ok(v) => v,
        Err(m) => return Err(m),
    };
    match pred.op {
        CmpOp::Eq => match (&lhs, &rhs) {
            (Value::Int(a), Value::Int(c)) => Ok(*a == *c),
            (Value::Id(a), Value::Id(c)) => Ok(*a == *c),
            _ => {
                let mut m = String::new();
                push_str(&mut m, "line ");
                push_usize(&mut m, pred.line);
                push_str(&mut m, ": `==` compares mismatched value kinds");
                Err(m)
            },
        },
        op => match (&lhs, &rhs) {
            (Value::Int(l), Value::Int(r)) => Ok(
                match op {
                    CmpOp::Le => *l <= *r,
                    CmpOp::Lt => *l < *r,
                    CmpOp::Ge => *l >= *r,
                    CmpOp::Gt => *l > *r,
                    CmpOp::Eq => *l == *r,
                },
            ),
            _ => {
                let mut m = String::new();
                push_str(&mut m, "line ");
                push_usize(&mut m, pred.line);
                push_str(&mut m, ": comparison `");
                push_str(&mut m, op_str(op));
                push_str(&mut m, "` needs integers");
                Err(m)
            },
        },
    }
}

/// Evaluates one clause: an implication `a => b` is `!a || b`.
fn eval_clause(clause: &Clause, b: &Binding) -> (r: EvalResult)
    requires
        b.wf(),
    ensures
        match (r, spec_eval_clause(clause@, b@)) {
            (Ok(v), Ok(sv)) => v == sv,
            (Err(m), Err(e)) => m@ == eval_error_message(e),
            _ => false,
        },
{
    match clause {
        Clause::Compare(p) => eval_pred(p, b),
        Clause::Implies { ante, cons, .. } => {
            let a = match eval_pred(ante, b) {
                Ok(a) => a,
                Err(m) => return Err(m),
            };
            if !a {
                Ok(true)
            } else {
                eval_pred(cons, b)
            }
        },
    }
}

/// Evaluates a whole law under a binding: the AND of its clauses, `true` for
/// an empty body, and the first error met, if any.
pub fn eval_law(law: &Law, b: &Binding) -> (r: EvalResult)
    requires
        b.wf(),
    ensures
        match (r, spec_eval_law(law@, b@)) {
            (Ok(v), Ok(sv)) => v == sv,
            (Err(m), Err(e)) => m@ == eval_error_message(e),
            _ => false,
        },
{
    let ghost cv = clauses_view(law.clauses@);
    let mut i: usize = 0;
    while i < law.clauses.len()
        invariant
            b.wf(),
            cv == clauses_view(law.clauses@),
            i <= law.clauses@.len(),
            spec_eval_law(law@, b@) == spec_eval_clauses(cv, b@, i as int),
        decreases law.clauses.len() - i,
    {
        match eval_clause(&law.clauses[i], b) {
            Ok(true) => {},
            Ok(false) => return Ok(false),
            Err(m) => return Err(m),
        }
        i = i + 1;
    }
    Ok(true)
}

/// An implication `a => b` lowers to `!a || b`: whenever both comparisons
/// evaluate, the clause's truth is `!a || b`.
pub proof fn law_implication_is_not_ante_or_cons(ante: PredV, cons: PredV, line: nat, b: BindingV)
    requires
        spec_eval_pred(ante, b) is Ok,
        spec_eval_pred(cons, b) is Ok,
    ensures
        spec_eval_clause(ClauseV::Implies { ante, cons, line }, b) == Ok::<bool, EvalError>(
            !spec_eval_pred(ante, b)->Ok_0 || spec_eval_pred(cons, b)->Ok_0,
        ),
{
}

/// A law with an empty body holds under every binding.
pub proof fn law_empty_body_holds(law: LawV, b: BindingV)
    requires
        law.clauses.len() == 0,
    ensures
        spec_eval_law(law, b) == Ok::<bool, EvalError>(true),
{
}

proof fn lemma_clauses_hold(clauses: Seq<ClauseV>, b: BindingV, i: int)
    requires
        0 <= i <= clauses.len(),
    ensures
        spec_eval_clauses(clauses, b, i) == Ok::<bool, EvalError>(true) <==> forall|k: int|
            i <= k < clauses.len() ==> spec_eval_clause(#[trigger] clauses[k], b) == Ok::<
                bool,
                EvalError,
            >(true),
    decreases clauses.len() - i,
{
    if i < clauses.len() {
        lemma_clauses_hold(clauses, b, i + 1);
    }
}

/// A law holds exactly when every one of its clauses holds: the clauses are AND-ed.
pub proof fn law_holds_iff_every_clause_holds(law: LawV, b: BindingV)
    ensures
        spec_eval_law(law, b) == Ok::<bool, EvalError>(true) <==> forall|k: int|
            0 <= k < law.clauses.len() ==> spec_eval_clause(#[trigger] law.clauses[k], b) == Ok::<
                bool,
                EvalError,
            >(true),
{
    lemma_clauses_hold(law.clauses, b, 0);
}

/// Identity is the id string: `==` between two whole entities compares the
/// ids of the instances bound to them.
pub proof fn law_entity_equality_compares_ids(x: Seq<char>, y: Seq<char>, line: nat, b: BindingV)
    requires
        bound_instance(b, x, b.len() as int) is Some,
        bound_instance(b, y, b.len() as int) is Some,
    ensures
        spec_eval_pred(PredV { lhs: ExprV::Arg(x), op: CmpOp::Eq, rhs: ExprV::Arg(y), line }, b)
            == Ok::<bool, EvalError>(
            bound_instance(b, x, b.len() as int)->0.id == bound_instance(b, y, b.len() as int)->0.id,
        ),
{
}

/// A comparison whose two sides resolve to integers `x` and `y` evaluates to
/// the comparison of `x` and `y` that its operator names: `==` to `x == y`,
/// `<=` to `x <= y`, `<` to `x < y`, `>=` to `x >= y` and `>` to `x > y`.
pub proof fn law_integer_comparisons_mean_what_they_say(p: PredV, b: BindingV, x: i64, y: i64)
    requires
        spec_resolve(p.lhs, b) == Ok::<ValueV, EvalError>(ValueV::Int(x)),
        spec_resolve(p.rhs, b) == Ok::<ValueV, EvalError>(ValueV::Int(y)),
    ensures
        p.op == CmpOp::Eq ==> spec_eval_pred(p, b) == Ok::<bool, EvalError>(x == y),
        p.op == CmpOp::Le ==> spec_eval_pred(p, b) == Ok::<bool, EvalError>(x <= y),
        p.op == CmpOp::Lt ==> spec_eval_pred(p, b) == Ok::<bool, EvalError>(x < y),
        p.op == CmpOp::Ge ==> spec_eval_pred(p, b) == Ok::<bool, EvalError>(x >= y),
        p.op == CmpOp::Gt ==> spec_eval_pred(p, b) == Ok::<bool, EvalError>(x > y),
{
}

/// An integer literal resolves to itself; a field of a bound argument
/// resolves to that field's value in the instance bound to the argument; a
/// bare argument resolves to the identity of its instance.
pub proof fn law_expressions_resolve_to_bound_values(b: BindingV, arg: Seq<char>, field: Seq<char>, n: i64, k: int)
    requires
        0 <= k < b.len(),
        b[k].0 == arg,
        forall|j: int| k < j < b.len() ==> #[trigger] b[j].0 != arg,
    ensures
        spec_resolve(ExprV::Int(n), b) == Ok::<ValueV, EvalError>(ValueV::Int(n)),
        spec_resolve(ExprV::Arg(arg), b) == Ok::<ValueV, EvalError>(ValueV::Id(b[k].1.id)),
        b[k].1.well_formed() ==> forall|m: int|
            0 <= m < b[k].1.fields.len() && #[trigger] b[k].1.fields[m].0 == field ==> spec_resolve(
                ExprV::Field { arg, field },
                b,
            ) == Ok::<ValueV, EvalError>(ValueV::Int(b[k].1.fields[m].1)),
{
    lemma_bound_instance_last(b, arg, k, b.len() as int);
    if b[k].1.well_formed() {
        law_distinct_fields_are_a_map(b[k].1, field);
    }
}

proof fn lemma_bound_instance_last(b: BindingV, arg: Seq<char>, k: int, m: int)
    requires
        0 <= k < m <= b.len(),
        b[k].0 == arg,
        forall|j: int| k < j < b.len() ==> #[trigger] b[j].0 != arg,
    ensures
        bound_instance(b, arg, m) == Some(b[k].1),
    decreases m,
{
    if m - 1 > k {
        assert(b[m - 1].0 != arg);
        lemma_bound_instance_last(b, arg, k, m - 1);
    }
}

} // verus!
