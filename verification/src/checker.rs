//! The checker: what "intent compiles" means.
//!
//! The parser proved a file is shaped like a spec; the checker proves the spec
//! is coherent: names are declared once, every sort a field or parameter
//! names exists, every law matches its relation's arity, every `x.field`
//! exists on `x`'s sort, ordering compares integers and equality compares like
//! with like. It collects every error rather than stopping at the first.
//!
//! Lookups by name follow declaration order: when a sort or relation name is
//! declared twice (itself an error), the later declaration is the one used.
use vstd::prelude::*;
use vstd::string::*;
use crate::ast::{
    Clause, ClauseV, CmpOp, Expr, ExprV, Field, FieldV, Law, LawV, Param, ParamV, Pred, PredV,
    Relation, RelationV, Sort, SortV, Spec, SpecV, Ty, TyV, clauses_view, fields_view, laws_view,
    params_view, relations_view, sorts_view, strings_view,
};
use crate::text::{nat_decimal, push_str, push_usize};

verus! {

/// The type of an expression inside a law: the built-in integer, or a sort.
pub enum ExprTy {
    Int,
    Sort(String),
}

/// Model of [`ExprTy`].
pub enum ExprTyV {
    Int,
    Sort(Seq<char>),
}

impl View for ExprTy {
    type V = ExprTyV;

    open spec fn view(&self) -> ExprTyV {
        match self {
            ExprTy::Int => ExprTyV::Int,
            ExprTy::Sort(s) => ExprTyV::Sort(s@),
        }
    }
}

/// One way a spec fails to be coherent.
pub enum CheckError {
    DuplicateSort { line: nat, name: Seq<char> },
    DuplicateRelation { line: nat, name: Seq<char> },
    UnknownFieldType { line: nat, sort: Seq<char>, field: Seq<char>, ty: Seq<char> },
    UnknownParamSort { line: nat, relation: Seq<char>, param: Seq<char>, sort: Seq<char> },
    UnknownRelation { line: nat, relation: Seq<char> },
    LawOnForbidden { line: nat, relation: Seq<char> },
    ArityMismatch { line: nat, relation: Seq<char>, args: nat, params: nat },
    EmptyBody { line: nat, relation: Seq<char> },
    NeedsIntegers { line: nat, op: CmpOp, lhs: ExprTyV, rhs: ExprTyV },
    MismatchedTypes { line: nat, lhs: ExprTyV, rhs: ExprTyV },
    UnknownArg { line: nat, name: Seq<char> },
    NoField { line: nat, sort: Seq<char>, field: Seq<char>, arg: Seq<char> },
}

/// The spelling of a comparison operator.
pub open spec fn op_text(op: CmpOp) -> Seq<char> {
    match op {
        CmpOp::Eq => "=="@,
        CmpOp::Le => "<="@,
        CmpOp::Lt => "<"@,
        CmpOp::Ge => ">="@,
        CmpOp::Gt => ">"@,
    }
}

/// The spelling of an expression type.
pub open spec fn ty_text(t: ExprTyV) -> Seq<char> {
    match t {
        ExprTyV::Int => "Int"@,
        ExprTyV::Sort(s) => s,
    }
}

/// The message reported for a check error.
pub open spec fn check_error_message(e: CheckError) -> Seq<char> {
    match e {
        CheckError::DuplicateSort { line, name } => "line "@ + nat_decimal(line) + ": sort `"@
            + name + "` declared twice"@,
        CheckError::DuplicateRelation { line, name } => "line "@ + nat_decimal(line)
            + ": relation `"@ + name + "` declared twice"@,
        CheckError::UnknownFieldType { line, sort, field, ty } => "line "@ + nat_decimal(line)
            + ": field `"@ + sort + "."@ + field + "` has unknown type `"@ + ty + "`"@,
        CheckError::UnknownParamSort { line, relation, param, sort } => "line "@ + nat_decimal(
            line,
        ) + ": relation `"@ + relation + "` parameter `"@ + param + "` has unknown sort `"@ + sort
            + "`"@,
        CheckError::UnknownRelation { line, relation } => "line "@ + nat_decimal(line)
            + ": law refers to unknown relation `"@ + relation + "`"@,
        CheckError::LawOnForbidden { line, relation } => "line "@ + nat_decimal(line)
            + ": law on `forbidden` relation `"@ + relation
            + "` \u{2014} forbidden relations allow no facts, so a law is meaningless"@,
        CheckError::ArityMismatch { line, relation, args, params } => "line "@ + nat_decimal(line)
            + ": law `"@ + relation + "` has "@ + nat_decimal(args)
            + " argument(s) but the relation takes "@ + nat_decimal(params),
        CheckError::EmptyBody { line, relation } => "line "@ + nat_decimal(line) + ": law `"@
            + relation + "` has an empty body (constrains nothing)"@,
        CheckError::NeedsIntegers { line, op, lhs, rhs } => "line "@ + nat_decimal(line)
            + ": comparison `"@ + op_text(op) + "` needs integers, got "@ + ty_text(lhs) + " and "@
            + ty_text(rhs),
        CheckError::MismatchedTypes { line, lhs, rhs } => "line "@ + nat_decimal(line)
            + ": `==` compares mismatched types "@ + ty_text(lhs) + " and "@ + ty_text(rhs),
        CheckError::UnknownArg { line, name } => "line "@ + nat_decimal(line)
            + ": unknown argument `"@ + name + "`"@,
        CheckError::NoField { line, sort, field, arg } => "line "@ + nat_decimal(line) + ": sort `"@
            + sort + "` has no field `"@ + field + "` (in `"@ + arg + "."@ + field + "`)"@,
    }
}

/// The messages of a list of check errors.
pub open spec fn messages(es: Seq<CheckError>) -> Seq<Seq<char>> {
    es.map_values(|e: CheckError| check_error_message(e))
}

/// Whether some sort is named `n`.
pub open spec fn has_sort(sorts: Seq<SortV>, n: Seq<char>) -> bool {
    exists|k: int| 0 <= k < sorts.len() && #[trigger] sorts[k].name == n
}

/// The index of the last of `sorts[..k]` named `n`.
pub open spec fn last_sort_index(sorts: Seq<SortV>, n: Seq<char>, k: int) -> Option<int>
    decreases k,
{
    if k <= 0 {
        None
    } else if sorts[k - 1].name == n {
        Some(k - 1)
    } else {
        last_sort_index(sorts, n, k - 1)
    }
}

/// The sort a name resolves to: the last one declared with that name.
pub open spec fn find_sort(sorts: Seq<SortV>, n: Seq<char>) -> Option<SortV> {
    match last_sort_index(sorts, n, sorts.len() as int) {
        Some(i) => Some(sorts[i]),
        None => None,
    }
}

/// The index of the last of `rels[..k]` named `n`.
pub open spec fn last_relation_index(rels: Seq<RelationV>, n: Seq<char>, k: int) -> Option<int>
    decreases k,
{
    if k <= 0 {
        None
    } else if rels[k - 1].name == n {
        Some(k - 1)
    } else {
        last_relation_index(rels, n, k - 1)
    }
}

/// The relation a name resolves to: the last one declared with that name.
pub open spec fn find_relation(rels: Seq<RelationV>, n: Seq<char>) -> Option<RelationV> {
    match last_relation_index(rels, n, rels.len() as int) {
        Some(i) => Some(rels[i]),
        None => None,
    }
}

/// The index of the first of `fields[i..]` named `f`.
pub open spec fn first_field_index(fields: Seq<FieldV>, f: Seq<char>, i: int) -> Option<int>
    decreases fields.len() - i,
{
    if i < 0 || i >= fields.len() {
        None
    } else if fields[i].name == f {
        Some(i)
    } else {
        first_field_index(fields, f, i + 1)
    }
}

/// The sort a law argument is bound to: the sort of the parameter at the last
/// position where the argument appears among `args[..k]`.
pub open spec fn arg_sort(args: Seq<Seq<char>>, params: Seq<ParamV>, n: Seq<char>, k: int) -> Option<
    Seq<char>,
>
    decreases k,
{
    if k <= 0 {
        None
    } else if args[k - 1] == n {
        Some(params[k - 1].sort)
    } else {
        arg_sort(args, params, n, k - 1)
    }
}

/// The duplicate-declaration errors among `sorts[..k]`.
pub open spec fn dup_sort_errors(sorts: Seq<SortV>, k: int) -> Seq<CheckError>
    decreases k,
{
    if k <= 0 {
        seq![]
    } else {
        dup_sort_errors(sorts, k - 1) + if exists|j: int|
            0 <= j < k - 1 && #[trigger] sorts[j].name == sorts[k - 1].name {
            seq![CheckError::DuplicateSort { line: sorts[k - 1].line, name: sorts[k - 1].name }]
        } else {
            seq![]
        }
    }
}

/// The duplicate-declaration errors among `rels[..k]`.
pub open spec fn dup_relation_errors(rels: Seq<RelationV>, k: int) -> Seq<CheckError>
    decreases k,
{
    if k <= 0 {
        seq![]
    } else {
        dup_relation_errors(rels, k - 1) + if exists|j: int|
            0 <= j < k - 1 && #[trigger] rels[j].name == rels[k - 1].name {
            seq![
                CheckError::DuplicateRelation { line: rels[k - 1].line, name: rels[k - 1].name },
            ]
        } else {
            seq![]
        }
    }
}

/// The unknown-type errors of the fields `s.fields[..j]`.
pub open spec fn sort_field_errors(sorts: Seq<SortV>, s: SortV, j: int) -> Seq<CheckError>
    decreases j,
{
    if j <= 0 {
        seq![]
    } else {
        sort_field_errors(sorts, s, j - 1) + match s.fields[j - 1].ty {
            TyV::Sort(n) => if has_sort(sorts, n) {
                seq![]
            } else {
                seq![
                    CheckError::UnknownFieldType {
                        line: s.line,
                        sort: s.name,
                        field: s.fields[j - 1].name,
                        ty: n,
                    },
                ]
            },
            TyV::Int => seq![],
        }
    }
}

/// The unknown-type errors of the fields of `sorts[..k]`.
pub open spec fn field_errors(sorts: Seq<SortV>, k: int) -> Seq<CheckError>
    decreases k,
{
    if k <= 0 {
        seq![]
    } else {
        field_errors(sorts, k - 1) + sort_field_errors(
            sorts,
            sorts[k - 1],
            sorts[k - 1].fields.len() as int,
        )
    }
}

/// The unknown-sort errors of the parameters `r.params[..j]`.
pub open spec fn relation_param_errors(sorts: Seq<SortV>, r: RelationV, j: int) -> Seq<CheckError>
    decreases j,
{
    if j <= 0 {
        seq![]
    } else {
        relation_param_errors(sorts, r, j - 1) + if has_sort(sorts, r.params[j - 1].sort) {
            seq![]
        } else {
            seq![
                CheckError::UnknownParamSort {
                    line: r.line,
                    relation: r.name,
                    param: r.params[j - 1].name,
                    sort: r.params[j - 1].sort,
                },
            ]
        }
    }
}

/// The unknown-sort errors of the parameters of `rels[..k]`.
pub open spec fn param_errors(sorts: Seq<SortV>, rels: Seq<RelationV>, k: int) -> Seq<CheckError>
    decreases k,
{
    if k <= 0 {
        seq![]
    } else {
        param_errors(sorts, rels, k - 1) + relation_param_errors(
            sorts,
            rels[k - 1],
            rels[k - 1].params.len() as int,
        )
    }
}

/// The type of an expression, when every name in it resolves.
pub open spec fn expr_ty(sorts: Seq<SortV>, args: Seq<Seq<char>>, params: Seq<ParamV>, e: ExprV) -> Option<
    ExprTyV,
> {
    match e {
        ExprV::Int(_) => Some(ExprTyV::Int),
        ExprV::Arg(n) => match arg_sort(args, params, n, args.len() as int) {
            Some(s) => Some(ExprTyV::Sort(s)),
            None => None,
        },
        ExprV::Field { arg, field } => match arg_sort(args, params, arg, args.len() as int) {
            None => None,
            Some(sn) => match find_sort(sorts, sn) {
                None => None,
                Some(so) => match first_field_index(so.fields, field, 0) {
                    Some(i) => Some(
                        match so.fields[i].ty {
                            TyV::Int => ExprTyV::Int,
                            TyV::Sort(s) => ExprTyV::Sort(s),
                        },
                    ),
                    None => None,
                },
            },
        },
    }
}

/// The errors found while typing an expression.
pub open spec fn expr_errors(
    sorts: Seq<SortV>,
    args: Seq<Seq<char>>,
    params: Seq<ParamV>,
    e: ExprV,
    line: nat,
) -> Seq<CheckError> {
    match e {
        ExprV::Int(_) => seq![],
        ExprV::Arg(n) => match arg_sort(args, params, n, args.len() as int) {
            Some(_) => seq![],
            None => seq![CheckError::UnknownArg { line, name: n }],
        },
        ExprV::Field { arg, field } => match arg_sort(args, params, arg, args.len() as int) {
            None => seq![CheckError::UnknownArg { line, name: arg }],
            Some(sn) => match find_sort(sorts, sn) {
                None => seq![],
                Some(so) => match first_field_index(so.fields, field, 0) {
                    Some(_) => seq![],
                    None => seq![CheckError::NoField { line, sort: sn, field, arg }],
                },
            },
        },
    }
}

/// Whether an operator orders (rather than equates) its operands.
pub open spec fn is_ordering(op: CmpOp) -> bool {
    op != CmpOp::Eq
}

/// The operator errors of a comparison whose sides have types `l` and `r`.
pub open spec fn op_errors(p: PredV, l: ExprTyV, r: ExprTyV) -> Seq<CheckError> {
    if is_ordering(p.op) {
        if l != ExprTyV::Int || r != ExprTyV::Int {
            seq![CheckError::NeedsIntegers { line: p.line, op: p.op, lhs: l, rhs: r }]
        } else {
            seq![]
        }
    } else if l != r {
        seq![CheckError::MismatchedTypes { line: p.line, lhs: l, rhs: r }]
    } else {
        seq![]
    }
}

/// The errors of one comparison.
pub open spec fn pred_errors(sorts: Seq<SortV>, args: Seq<Seq<char>>, params: Seq<ParamV>, p: PredV) -> Seq<
    CheckError,
> {
    expr_errors(sorts, args, params, p.lhs, p.line) + expr_errors(sorts, args, params, p.rhs, p.line)
        + match (expr_ty(sorts, args, params, p.lhs), expr_ty(sorts, args, params, p.rhs)) {
        (Some(l), Some(r)) => op_errors(p, l, r),
        _ => seq![],
    }
}

/// The errors of one clause: both comparisons of an implication are checked.
pub open spec fn clause_errors(sorts: Seq<SortV>, args: Seq<Seq<char>>, params: Seq<ParamV>, c: ClauseV) -> Seq<
    CheckError,
> {
    match c {
        ClauseV::Compare(p) => pred_errors(sorts, args, params, p),
        ClauseV::Implies { ante, cons, .. } => pred_errors(sorts, args, params, ante) + pred_errors(
            sorts,
            args,
            params,
            cons,
        ),
    }
}

/// The errors of `clauses[..k]`.
pub open spec fn clauses_errors(
    sorts: Seq<SortV>,
    args: Seq<Seq<char>>,
    params: Seq<ParamV>,
    clauses: Seq<ClauseV>,
    k: int,
) -> Seq<CheckError>
    decreases k,
{
    if k <= 0 {
        seq![]
    } else {
        clauses_errors(sorts, args, params, clauses, k - 1) + clause_errors(
            sorts,
            args,
            params,
            clauses[k - 1],
        )
    }
}

/// The errors of one law: its relation must exist, not be forbidden and have
/// the law's arity; then its body must be non-empty and each clause well typed.
pub open spec fn law_errors(s: SpecV, law: LawV) -> Seq<CheckError> {
    match find_relation(s.relations, law.relation) {
        None => seq![CheckError::UnknownRelation { line: law.line, relation: law.relation }],
        Some(r) => if r.forbidden {
            seq![CheckError::LawOnForbidden { line: law.line, relation: law.relation }]
        } else if law.args.len() != r.params.len() {
            seq![
                CheckError::ArityMismatch {
                    line: law.line,
                    relation: law.relation,
                    args: law.args.len(),
                    params: r.params.len(),
                },
            ]
        } else {
            (if law.clauses.len() == 0 {
                seq![CheckError::EmptyBody { line: law.line, relation: law.relation }]
            } else {
                seq![]
            }) + clauses_errors(
                s.sorts,
                law.args,
                r.params,
                law.clauses,
                law.clauses.len() as int,
            )
        },
    }
}

/// The errors of the laws `s.laws[..k]`.
pub open spec fn laws_errors(s: SpecV, k: int) -> Seq<CheckError>
    decreases k,
{
    if k <= 0 {
        seq![]
    } else {
        laws_errors(s, k - 1) + law_errors(s, s.laws[k - 1])
    }
}

/// Every error of a spec, in the order the checker reports them.
pub open spec fn check_errors(s: SpecV) -> Seq<CheckError> {
    dup_sort_errors(s.sorts, s.sorts.len() as int) + dup_relation_errors(
        s.relations,
        s.relations.len() as int,
    ) + field_errors(s.sorts, s.sorts.len() as int) + param_errors(
        s.sorts,
        s.relations,
        s.relations.len() as int,
    ) + laws_errors(s, s.laws.len() as int)
}

/// Messages of a concatenation are the concatenation of the messages.
pub proof fn lemma_messages_concat(a: Seq<CheckError>, b: Seq<CheckError>)
    ensures
        messages(a + b) == messages(a) + messages(b),
{
    assert(messages(a + b) =~= messages(a) + messages(b));
}

/// Appends one message.
fn push_message(errors: &mut Vec<String>, m: String)
    ensures
        strings_view(final(errors)@) == strings_view(old(errors)@).push(m@),
{
    let ghost mv = m@;
    errors.push(m);
    assert(strings_view(errors@) =~= strings_view(old(errors)@).push(mv));
}

/// Appends the message of one error.
fn push_error(errors: &mut Vec<String>, m: String, Ghost(e): Ghost<CheckError>)
    requires
        m@ == check_error_message(e),
    ensures
        strings_view(final(errors)@) == strings_view(old(errors)@) + messages(seq![e]),
{
    push_message(errors, m);
    assert(messages(seq![e]) =~= seq![check_error_message(e)]);
    assert(strings_view(old(errors)@).push(m@) =~= strings_view(old(errors)@) + messages(seq![e]));
}

/// Starts a message with `line N`.
pub(crate) fn line_message(line: usize) -> (m: String)
    ensures
        m@ == "line "@ + nat_decimal(line as nat),
{
    let mut m = String::new();
    push_str(&mut m, "line ");
    push_usize(&mut m, line);
    m
}

/// The spelling of a comparison operator.
fn op_str(op: CmpOp) -> (r: &'static str)
    ensures
        r@ == op_text(op),
{
    match op {
        CmpOp::Eq => "==",
        CmpOp::Le => "<=",
        CmpOp::Lt => "<",
        CmpOp::Ge => ">=",
        CmpOp::Gt => ">",
    }
}

/// The spelling of an expression type.
fn ty_str(t: &ExprTy) -> (r: String)
    ensures
        r@ == ty_text(t@),
{
    match t {
        ExprTy::Int => String::from_str("Int"),
        ExprTy::Sort(s) => s.clone(),
    }
}

/// Whether two expression types are the same.
fn ty_eq(a: &ExprTy, b: &ExprTy) -> (r: bool)
    ensures
        r == (a@ == b@),
{
    match (a, b) {
        (ExprTy::Int, ExprTy::Int) => true,
        (ExprTy::Sort(x), ExprTy::Sort(y)) => *x == *y,
        _ => false,
    }
}

/// Whether some sort is named `name`.
pub(crate) fn sort_declared(sorts: &Vec<Sort>, name: &String) -> (b: bool)
    ensures
        b == has_sort(sorts_view(sorts@), name@),
{
    let ghost ss = sorts_view(sorts@);
    let mut k: usize = 0;
    while k < sorts.len()
        invariant
            ss == sorts_view(sorts@),
            k <= sorts@.len(),
            forall|j: int| 0 <= j < k ==> #[trigger] ss[j].name != name@,
        decreases sorts.len() - k,
    {
        if sorts[k].name == *name {
            assert(ss[k as int].name == name@);
            return true;
        }
        k = k + 1;
    }
    false
}

/// The index of the last sort named `name`.
pub(crate) fn lookup_sort(sorts: &Vec<Sort>, name: &String) -> (r: Option<usize>)
    ensures
        match r {
            Some(i) => i < sorts@.len() && last_sort_index(sorts_view(sorts@), name@, sorts@.len() as int) == Some(i as int),
            None => last_sort_index(sorts_view(sorts@), name@, sorts@.len() as int) is None,
        },
{
    let ghost ss = sorts_view(sorts@);
    let mut k: usize = sorts.len();
    while k > 0
        invariant
            ss == sorts_view(sorts@),
            k <= sorts@.len(),
            last_sort_index(ss, name@, sorts@.len() as int) == last_sort_index(ss, name@, k as int),
        decreases k,
    {
        k = k - 1;
        if sorts[k].name == *name {
            return Some(k);
        }
    }
    None
}

/// The index of the last relation named `name`.
pub(crate) fn lookup_relation(rels: &Vec<Relation>, name: &String) -> (r: Option<usize>)
    ensures
        match r {
            Some(i) => i < rels@.len() && last_relation_index(relations_view(rels@), name@, rels@.len() as int) == Some(i as int),
            None => last_relation_index(relations_view(rels@), name@, rels@.len() as int) is None,
        },
{
    let ghost rs = relations_view(rels@);
    let mut k: usize = rels.len();
    while k > 0
        invariant
            rs == relations_view(rels@),
            k <= rels@.len(),
            last_relation_index(rs, name@, rels@.len() as int) == last_relation_index(rs, name@, k as int),
        decreases k,
    {
        k = k - 1;
        if rels[k].name == *name {
            return Some(k);
        }
    }
    None
}

/// The index of the first field named `name`.
fn lookup_field(fields: &Vec<Field>, name: &String) -> (r: Option<usize>)
    ensures
        match r {
            Some(i) => i < fields@.len() && first_field_index(fields_view(fields@), name@, 0) == Some(i as int),
            None => first_field_index(fields_view(fields@), name@, 0) is None,
        },
{
    let ghost fs = fields_view(fields@);
    let mut k: usize = 0;
    while k < fields.len()
        invariant
            fs == fields_view(fields@),
            k <= fields@.len(),
            first_field_index(fs, name@, 0) == first_field_index(fs, name@, k as int),
        decreases fields.len() - k,
    {
        if fields[k].name == *name {
            return Some(k);
        }
        k = k + 1;
    }
    None
}

/// The parameter position bound to a law argument: the last position it appears at.
fn lookup_arg(args: &Vec<String>, params: &Vec<Param>, name: &String) -> (r: Option<usize>)
    requires
        args@.len() == params@.len(),
    ensures
        match r {
            Some(i) => i < args@.len() && arg_sort(
                strings_view(args@),
                params_view(params@),
                name@,
                args@.len() as int,
            ) == Some(params_view(params@)[i as int].sort),
            None => arg_sort(strings_view(args@), params_view(params@), name@, args@.len() as int) is None,
        },
{
    let ghost av = strings_view(args@);
    let ghost pv = params_view(params@);
    let mut k: usize = args.len();
    while k > 0
        invariant
            av == strings_view(args@),
            pv == params_view(params@),
            args@.len() == params@.len(),
            k <= args@.len(),
            arg_sort(av, pv, name@, args@.len() as int) == arg_sort(av, pv, name@, k as int),
        decreases k,
    {
        k = k - 1;
        if args[k] == *name {
            return Some(k);
        }
    }
    None
}

/// Works out the type of an expression, recording an error and returning
/// `None` when a name does not resolve.
fn type_of(
    expr: &Expr,
    args: &Vec<String>,
    params: &Vec<Param>,
    sorts: &Vec<Sort>,
    line: usize,
    errors: &mut Vec<String>,
) -> (r: Option<ExprTy>)
    requires
        args@.len() == params@.len(),
    ensures
        match r {
            Some(t) => expr_ty(sorts_view(sorts@), strings_view(args@), params_view(params@), expr@) == Some(t@),
            None => expr_ty(sorts_view(sorts@), strings_view(args@), params_view(params@), expr@) is None,
        },
        strings_view(final(errors)@) == strings_view(old(errors)@) + messages(
            expr_errors(sorts_view(sorts@), strings_view(args@), params_view(params@), expr@, line as nat),
        ),
{
    let ghost pv = params_view(params@);
    match expr {
        Expr::Int(_) => {
            assert(messages(seq![]) =~= seq![]);
            assert(strings_view(errors@) =~= strings_view(old(errors)@) + seq![]);
            Some(ExprTy::Int)
        },
        Expr::Arg(name) => match lookup_arg(args, params, name) {
            Some(i) => {
                assert(arg_sort(strings_view(args@), pv, name@, args@.len() as int) == Some(pv[i as int].sort));
                assert(messages(seq![]) =~= seq![]);
                assert(strings_view(errors@) =~= strings_view(old(errors)@) + seq![]);
                Some(ExprTy::Sort(params[i].sort.clone()))
            },
            None => {
                assert(arg_sort(strings_view(args@), pv, name@, args@.len() as int) is None);
                let mut m = line_message(line);
                push_str(&mut m, ": unknown argument `");
                push_str(&mut m, name.as_str());
                push_str(&mut m, "`");
                push_error(errors, m, Ghost(CheckError::UnknownArg { line: line as nat, name: name@ }));
                None
            },
        },
        Expr::Field { arg, field } => {
            let i = match lookup_arg(args, params, arg) {
                Some(i) => i,
                None => {
                    assert(arg_sort(strings_view(args@), pv, arg@, args@.len() as int) is None);
                    let mut m = line_message(line);
                    push_str(&mut m, ": unknown argument `");
                    push_str(&mut m, arg.as_str());
                    push_str(&mut m, "`");
                    push_error(errors, m, Ghost(CheckError::UnknownArg { line: line as nat, name: arg@ }));
                    return None;
                },
            };
            assert(arg_sort(strings_view(args@), pv, arg@, args@.len() as int) == Some(pv[i as int].sort));
            let sort_name = &params[i].sort;
            let si = match lookup_sort(sorts, sort_name) {
                Some(si) => si,
                None => {
                    assert(messages(seq![]) =~= seq![]);
                    assert(strings_view(errors@) =~= strings_view(old(errors)@) + seq![]);
                    return None;
                },
            };
            let sort = &sorts[si];
            match lookup_field(&sort.fields, field) {
                Some(fi) => {
                    assert(messages(seq![]) =~= seq![]);
                    assert(strings_view(errors@) =~= strings_view(old(errors)@) + seq![]);
                    match &sort.fields[fi].ty {
                        Ty::Int => Some(ExprTy::Int),
                        Ty::Sort(s) => Some(ExprTy::Sort(s.clone())),
                    }
                },
                None => {
                    let mut m = line_message(line);
                    push_str(&mut m, ": sort `");
                    push_str(&mut m, sort_name.as_str());
                    push_str(&mut m, "` has no field `");
                    push_str(&mut m, field.as_str());
                    push_str(&mut m, "` (in `");
                    push_str(&mut m, arg.as_str());
                    push_str(&mut m, ".");
                    push_str(&mut m, field.as_str());
                    push_str(&mut m, "`)");
                    push_error(
                        errors,
                        m,
                        Ghost(
                            CheckError::NoField {
                                line: line as nat,
                                sort: sort_name@,
                                field: field@,
                                arg: arg@,
                            },
                        ),
                    );
                    None
                },
            }
        },
    }
}

/// Type-checks a single comparison.
fn check_pred(
    pred: &Pred,
    args: &Vec<String>,
    params: &Vec<Param>,
    sorts: &Vec<Sort>,
    errors: &mut Vec<String>,
)
    requires
        args@.len() == params@.len(),
    ensures
        strings_view(final(errors)@) == strings_view(old(errors)@) + messages(
            pred_errors(sorts_view(sorts@), strings_view(args@), params_view(params@), pred@),
        ),
{
    let ghost sv = sorts_view(sorts@);
    let ghost av = strings_view(args@);
    let ghost pv = params_view(params@);
    let ghost p = pred@;
    let lhs = type_of(&pred.lhs, args, params, sorts, pred.line, errors);
    let ghost mid = strings_view(errors@);
    let rhs = type_of(&pred.rhs, args, params, sorts, pred.line, errors);
    let ghost e1 = expr_errors(sv, av, pv, p.lhs, p.line);
    let ghost e2 = expr_errors(sv, av, pv, p.rhs, p.line);
    let ghost before = strings_view(errors@);
    proof {
        lemma_messages_concat(e1, e2);
    }
    let (l, r) = match (lhs, rhs) {
        (Some(l), Some(r)) => (l, r),
        _ => {
            proof {
                lemma_messages_concat(e1 + e2, seq![]);
                assert(strings_view(errors@) =~= strings_view(old(errors)@) + messages(
                    pred_errors(sv, av, pv, p),
                ));
            }
            return ;
        },
    };
    let ghost ops = op_errors(p, l@, r@);
    match pred.op {
        CmpOp::Eq => {
            if !ty_eq(&l, &r) {
                let mut m = line_message(pred.line);
                push_str(&mut m, ": `==` compares mismatched types ");
                push_str(&mut m, ty_str(&l).as_str());
                push_str(&mut m, " and ");
                push_str(&mut m, ty_str(&r).as_str());
                push_error(
                    errors,
                    m,
                    Ghost(CheckError::MismatchedTypes { line: p.line, lhs: l@, rhs: r@ }),
                );
            } else {
                assert(strings_view(errors@) =~= before + messages(ops));
            }
        },
        _ => {
            let l_int = match l {
                ExprTy::Int => true,
                _ => false,
            };
            let r_int = match r {
                ExprTy::Int => true,
                _ => false,
            };
            if !l_int || !r_int {
                let mut m = line_message(pred.line);
                push_str(&mut m, ": comparison `");
                push_str(&mut m, op_str(pred.op));
                push_str(&mut m, "` needs integers, got ");
                push_str(&mut m, ty_str(&l).as_str());
                push_str(&mut m, " and ");
                push_str(&mut m, ty_str(&r).as_str());
                push_error(
                    errors,
                    m,
                    Ghost(CheckError::NeedsIntegers { line: p.line, op: p.op, lhs: l@, rhs: r@ }),
                );
            } else {
                assert(strings_view(errors@) =~= before + messages(ops));
            }
        },
    }
    proof {
        lemma_messages_concat(e1 + e2, ops);
        assert(strings_view(errors@) =~= strings_view(old(errors)@) + messages(
            pred_errors(sv, av, pv, p),
        ));
    }
}

/// Checks one law against its relation and the declared sorts.
fn check_law(law: &Law, spec: &Spec, errors: &mut Vec<String>)
    ensures
        strings_view(final(errors)@) == strings_view(old(errors)@) + messages(
            law_errors(spec@, law@),
        ),
{
    let ghost s = spec@;
    let ghost lv = law@;
    let ri = match lookup_relation(&spec.relations, &law.relation) {
        Some(ri) => ri,
        None => {
            let mut m = line_message(law.line);
            push_str(&mut m, ": law refers to unknown relation `");
            push_str(&mut m, law.relation.as_str());
            push_str(&mut m, "`");
            push_error(
                errors,
                m,
                Ghost(CheckError::UnknownRelation { line: lv.line, relation: lv.relation }),
            );
            return ;
        },
    };
    let relation = &spec.relations[ri];
    assert(find_relation(s.relations, lv.relation) == Some(relation@));
    if relation.forbidden {
        let mut m = line_message(law.line);
        push_str(&mut m, ": law on `forbidden` relation `");
        push_str(&mut m, law.relation.as_str());
        push_str(&mut m, "` \u{2014} forbidden relations allow no facts, so a law is meaningless");
        push_error(
            errors,
            m,
            Ghost(CheckError::LawOnForbidden { line: lv.line, relation: lv.relation }),
        );
        return ;
    }
    if law.args.len() != relation.params.len() {
        let mut m = line_message(law.line);
        push_str(&mut m, ": law `");
        push_str(&mut m, law.relation.as_str());
        push_str(&mut m, "` has ");
        push_usize(&mut m, law.args.len());
        push_str(&mut m, " argument(s) but the relation takes ");
        push_usize(&mut m, relation.params.len());
        push_error(
            errors,
            m,
            Ghost(
                CheckError::ArityMismatch {
                    line: lv.line,
                    relation: lv.relation,
                    args: lv.args.len(),
                    params: relation@.params.len(),
                },
            ),
        );
        return ;
    }
    let ghost head: Seq<CheckError> = if lv.clauses.len() == 0 {
        seq![CheckError::EmptyBody { line: lv.line, relation: lv.relation }]
    } else {
        seq![]
    };
    if law.clauses.len() == 0 {
        let mut m = line_message(law.line);
        push_str(&mut m, ": law `");
        push_str(&mut m, law.relation.as_str());
        push_str(&mut m, "` has an empty body (constrains nothing)");
        push_error(
            errors,
            m,
            Ghost(CheckError::EmptyBody { line: lv.line, relation: lv.relation }),
        );
    } else {
        assert(strings_view(errors@) =~= strings_view(old(errors)@) + messages(head));
    }
    let ghost base = strings_view(old(errors)@) + messages(head);
    let ghost sv = sorts_view(spec.sorts@);
    let ghost av = strings_view(law.args@);
    let ghost pv = params_view(relation.params@);
    let ghost cv = clauses_view(law.clauses@);
    let mut k: usize = 0;
    assert(strings_view(errors@) =~= base + messages(clauses_errors(sv, av, pv, cv, 0)));
    while k < law.clauses.len()
        invariant
            k <= law.clauses@.len(),
            law.args@.len() == relation.params@.len(),
            sv == sorts_view(spec.sorts@),
            av == strings_view(law.args@),
            pv == params_view(relation.params@),
            cv == clauses_view(law.clauses@),
            strings_view(errors@) == base + messages(clauses_errors(sv, av, pv, cv, k as int)),
        decreases law.clauses.len() - k,
    {
        let ghost before = strings_view(errors@);
        match &law.clauses[k] {
            Clause::Compare(p) => {
                check_pred(p, &law.args, &relation.params, &spec.sorts, errors);
            },
            Clause::Implies { ante, cons, .. } => {
                check_pred(ante, &law.args, &relation.params, &spec.sorts, errors);
                check_pred(cons, &law.args, &relation.params, &spec.sorts, errors);
                proof {
                    lemma_messages_concat(
                        pred_errors(sv, av, pv, ante@),
                        pred_errors(sv, av, pv, cons@),
                    );
                }
            },
        }
        proof {
            lemma_messages_concat(clauses_errors(sv, av, pv, cv, k as int), clause_errors(sv, av, pv, cv[k as int]));
            assert(strings_view(errors@) =~= base + messages(clauses_errors(sv, av, pv, cv, k + 1)));
        }
        k = k + 1;
    }
    proof {
        lemma_messages_concat(head, clauses_errors(sv, av, pv, cv, cv.len() as int));
        assert(strings_view(errors@) =~= strings_view(old(errors)@) + messages(law_errors(s, lv)));
    }
}

/// Whether a sort before position `i` has the same name as `sorts[i]`.
fn sort_named_earlier(sorts: &Vec<Sort>, i: usize) -> (b: bool)
    requires
        i < sorts@.len(),
    ensures
        b == exists|j: int| 0 <= j < i && #[trigger] sorts_view(sorts@)[j].name == sorts_view(sorts@)[i as int].name,
{
    let ghost ss = sorts_view(sorts@);
    let mut j: usize = 0;
    while j < i
        invariant
            ss == sorts_view(sorts@),
            i < sorts@.len(),
            j <= i,
            forall|k: int| 0 <= k < j ==> #[trigger] ss[k].name != ss[i as int].name,
        decreases i - j,
    {
        if sorts[j].name == sorts[i].name {
            assert(ss[j as int].name == ss[i as int].name);
            return true;
        }
        j = j + 1;
    }
    false
}

/// Whether a relation before position `i` has the same name as `rels[i]`.
fn relation_named_earlier(rels: &Vec<Relation>, i: usize) -> (b: bool)
    requires
        i < rels@.len(),
    ensures
        b == exists|j: int| 0 <= j < i && #[trigger] relations_view(rels@)[j].name == relations_view(rels@)[i as int].name,
{
    let ghost rs = relations_view(rels@);
    let mut j: usize = 0;
    while j < i
        invariant
            rs == relations_view(rels@),
            i < rels@.len(),
            j <= i,
            forall|k: int| 0 <= k < j ==> #[trigger] rs[k].name != rs[i as int].name,
        decreases i - j,
    {
        if rels[j].name == rels[i].name {
            assert(rs[j as int].name == rs[i as int].name);
            return true;
        }
        j = j + 1;
    }
    false
}

/// Checks a spec for coherence. `Ok(())` means intent compiles; otherwise
/// every error is reported, in order: duplicate sorts, duplicate relations,
/// unknown field types, unknown parameter sorts, then each law's errors.
pub fn check(spec: &Spec) -> (r: Result<(), Vec<String>>)
    ensures
        match r {
            Ok(_) => check_errors(spec@).len() == 0,
            Err(v) => check_errors(spec@).len() > 0 && strings_view(v@) == messages(check_errors(spec@)),
        },
{
    let ghost s = spec@;
    let ghost ss = s.sorts;
    let ghost rs = s.relations;
    let mut errors: Vec<String> = Vec::new();
    assert(strings_view(errors@) =~= messages(dup_sort_errors(ss, 0)));
    let mut i: usize = 0;
    while i < spec.sorts.len()
        invariant
            s == spec@,
            ss == s.sorts,
            i <= spec.sorts@.len(),
            strings_view(errors@) == messages(dup_sort_errors(ss, i as int)),
        decreases spec.sorts.len() - i,
    {
        let ghost before = dup_sort_errors(ss, i as int);
        if sort_named_earlier(&spec.sorts, i) {
            let sort = &spec.sorts[i];
            let mut m = line_message(sort.line);
            push_str(&mut m, ": sort `");
            push_str(&mut m, sort.name.as_str());
            push_str(&mut m, "` declared twice");
            push_error(&mut errors, m, Ghost(CheckError::DuplicateSort { line: ss[i as int].line, name: ss[i as int].name }));
            proof {
                lemma_messages_concat(before, seq![CheckError::DuplicateSort { line: ss[i as int].line, name: ss[i as int].name }]);
            }
        } else {
            assert(dup_sort_errors(ss, i + 1) =~= before);
        }
        i = i + 1;
    }
    let ghost p1 = dup_sort_errors(ss, ss.len() as int);
    assert(strings_view(errors@) =~= messages(p1 + dup_relation_errors(rs, 0)));
    let mut i: usize = 0;
    while i < spec.relations.len()
        invariant
            s == spec@,
            rs == s.relations,
            i <= spec.relations@.len(),
            strings_view(errors@) == messages(p1 + dup_relation_errors(rs, i as int)),
        decreases spec.relations.len() - i,
    {
        let ghost before = dup_relation_errors(rs, i as int);
        if relation_named_earlier(&spec.relations, i) {
            let rel = &spec.relations[i];
            let mut m = line_message(rel.line);
            push_str(&mut m, ": relation `");
            push_str(&mut m, rel.name.as_str());
            push_str(&mut m, "` declared twice");
            let ghost e = CheckError::DuplicateRelation { line: rs[i as int].line, name: rs[i as int].name };
            push_error(&mut errors, m, Ghost(e));
            proof {
                lemma_messages_concat(p1 + before, seq![e]);
                assert(p1 + dup_relation_errors(rs, i + 1) =~= (p1 + before) + seq![e]);
            }
        } else {
            assert(dup_relation_errors(rs, i + 1) =~= before);
        }
        i = i + 1;
    }
    let ghost p2 = p1 + dup_relation_errors(rs, rs.len() as int);
    assert(strings_view(errors@) =~= messages(p2 + field_errors(ss, 0)));
    let mut i: usize = 0;
    while i < spec.sorts.len()
        invariant
            s == spec@,
            ss == s.sorts,
            i <= spec.sorts@.len(),
            strings_view(errors@) == messages(p2 + field_errors(ss, i as int)),
        decreases spec.sorts.len() - i,
    {
        let sort = &spec.sorts[i];
        let ghost sv = ss[i as int];
        let ghost before = p2 + field_errors(ss, i as int);
        let mut j: usize = 0;
        assert(before + sort_field_errors(ss, sv, 0) =~= before);
        while j < sort.fields.len()
            invariant
                s == spec@,
                ss == s.sorts,
                i < spec.sorts@.len(),
                sort == &spec.sorts@[i as int],
                sv == ss[i as int],
                j <= sort.fields@.len(),
                strings_view(errors@) == messages(before + sort_field_errors(ss, sv, j as int)),
            decreases sort.fields.len() - j,
        {
            let ghost acc = before + sort_field_errors(ss, sv, j as int);
            let f = &sort.fields[j];
            match &f.ty {
                Ty::Sort(name) => {
                    if !sort_declared(&spec.sorts, name) {
                        let mut m = line_message(sort.line);
                        push_str(&mut m, ": field `");
                        push_str(&mut m, sort.name.as_str());
                        push_str(&mut m, ".");
                        push_str(&mut m, f.name.as_str());
                        push_str(&mut m, "` has unknown type `");
                        push_str(&mut m, name.as_str());
                        push_str(&mut m, "`");
                        let ghost e = CheckError::UnknownFieldType { line: sv.line, sort: sv.name, field: f.name@, ty: name@ };
                        push_error(&mut errors, m, Ghost(e));
                        proof {
                            lemma_messages_concat(acc, seq![e]);
                            assert(before + sort_field_errors(ss, sv, j + 1) =~= acc + seq![e]);
                        }
                    } else {
                        assert(before + sort_field_errors(ss, sv, j + 1) =~= acc);
                    }
                },
                Ty::Int => {
                    assert(before + sort_field_errors(ss, sv, j + 1) =~= acc);
                },
            }
            j = j + 1;
        }
        assert(p2 + field_errors(ss, i + 1) =~= before + sort_field_errors(ss, sv, sv.fields.len() as int));
        i = i + 1;
    }
    let ghost p3 = p2 + field_errors(ss, ss.len() as int);
    assert(strings_view(errors@) =~= messages(p3 + param_errors(ss, rs, 0)));
    let mut i: usize = 0;
    while i < spec.relations.len()
        invariant
            s == spec@,
            ss == s.sorts,
            rs == s.relations,
            i <= spec.relations@.len(),
            strings_view(errors@) == messages(p3 + param_errors(ss, rs, i as int)),
        decreases spec.relations.len() - i,
    {
        let rel = &spec.relations[i];
        let ghost rv = rs[i as int];
        let ghost before = p3 + param_errors(ss, rs, i as int);
        let mut j: usize = 0;
        assert(before + relation_param_errors(ss, rv, 0) =~= before);
        while j < rel.params.len()
            invariant
                s == spec@,
                ss == s.sorts,
                rs == s.relations,
                i < spec.relations@.len(),
                rel == &spec.relations@[i as int],
                rv == rs[i as int],
                j <= rel.params@.len(),
                strings_view(errors@) == messages(before + relation_param_errors(ss, rv, j as int)),
            decreases rel.params.len() - j,
        {
            let ghost acc = before + relation_param_errors(ss, rv, j as int);
            let p = &rel.params[j];
            if !sort_declared(&spec.sorts, &p.sort) {
                let mut m = line_message(rel.line);
                push_str(&mut m, ": relation `");
                push_str(&mut m, rel.name.as_str());
                push_str(&mut m, "` parameter `");
                push_str(&mut m, p.name.as_str());
                push_str(&mut m, "` has unknown sort `");
                push_str(&mut m, p.sort.as_str());
                push_str(&mut m, "`");
                let ghost e = CheckError::UnknownParamSort { line: rv.line, relation: rv.name, param: p.name@, sort: p.sort@ };
                push_error(&mut errors, m, Ghost(e));
                proof {
                    lemma_messages_concat(acc, seq![e]);
                    assert(before + relation_param_errors(ss, rv, j + 1) =~= acc + seq![e]);
                }
            } else {
                assert(before + relation_param_errors(ss, rv, j + 1) =~= acc);
            }
            j = j + 1;
        }
        assert(p3 + param_errors(ss, rs, i + 1) =~= before + relation_param_errors(ss, rv, rv.params.len() as int));
        i = i + 1;
    }
    let ghost p4 = p3 + param_errors(ss, rs, rs.len() as int);
    assert(strings_view(errors@) =~= messages(p4 + laws_errors(s, 0)));
    let mut i: usize = 0;
    while i < spec.laws.len()
        invariant
            s == spec@,
            i <= spec.laws@.len(),
            strings_view(errors@) == messages(p4 + laws_errors(s, i as int)),
        decreases spec.laws.len() - i,
    {
        let ghost before = p4 + laws_errors(s, i as int);
        check_law(&spec.laws[i], spec, &mut errors);
        proof {
            lemma_messages_concat(before, law_errors(s, s.laws[i as int]));
            assert(p4 + laws_errors(s, i + 1) =~= before + law_errors(s, s.laws[i as int]));
        }
        i = i + 1;
    }
    assert(p4 + laws_errors(s, s.laws.len() as int) =~= check_errors(s));
    if errors.len() == 0 {
        Ok(())
    } else {
        Err(errors)
    }
}

/// Whether some law constrains the relation named `name`.
pub open spec fn has_law(laws: Seq<LawV>, name: Seq<char>) -> bool {
    exists|k: int| 0 <= k < laws.len() && #[trigger] laws[k].relation == name
}

/// The warning for a relation that no law constrains.
pub open spec fn unlawed_warning(name: Seq<char>) -> Seq<char> {
    "warning: relation `"@ + name + "` has no law \u{2014} declared intent is not enforced"@
}

/// The warnings for `s.relations[..k]`: one for each non-forbidden relation
/// that no law constrains.
pub open spec fn spec_warnings(s: SpecV, k: int) -> Seq<Seq<char>>
    decreases k,
{
    if k <= 0 {
        seq![]
    } else {
        spec_warnings(s, k - 1) + if !s.relations[k - 1].forbidden && !has_law(
            s.laws,
            s.relations[k - 1].name,
        ) {
            seq![unlawed_warning(s.relations[k - 1].name)]
        } else {
            seq![]
        }
    }
}

/// Whether some law constrains the relation named `name`.
fn any_law_for(laws: &Vec<Law>, name: &String) -> (b: bool)
    ensures
        b == has_law(laws_view(laws@), name@),
{
    let ghost lv = laws_view(laws@);
    let mut k: usize = 0;
    while k < laws.len()
        invariant
            lv == laws_view(laws@),
            k <= laws@.len(),
            forall|j: int| 0 <= j < k ==> #[trigger] lv[j].relation != name@,
        decreases laws.len() - k,
    {
        if laws[k].relation == *name {
            assert(lv[k as int].relation == name@);
            return true;
        }
        k = k + 1;
    }
    false
}

/// Non-fatal lints: a relation with no law is declared intent that is never
/// enforced. A `forbidden` relation is defined to have no law, so it is
/// never warned about.
pub fn warnings(spec: &Spec) -> (out: Vec<String>)
    ensures
        strings_view(out@) == spec_warnings(spec@, spec@.relations.len() as int),
{
    let ghost s = spec@;
    let mut out: Vec<String> = Vec::new();
    let mut i: usize = 0;
    assert(strings_view(out@) =~= spec_warnings(s, 0));
    while i < spec.relations.len()
        invariant
            s == spec@,
            i <= spec.relations@.len(),
            strings_view(out@) == spec_warnings(s, i as int),
        decreases spec.relations.len() - i,
    {
        let r = &spec.relations[i];
        if !r.forbidden && !any_law_for(&spec.laws, &r.name) {
            let mut m = String::new();
            push_str(&mut m, "warning: relation `");
            push_str(&mut m, r.name.as_str());
            push_str(&mut m, "` has no law \u{2014} declared intent is not enforced");
            push_message(&mut out, m);
        } else {
            assert(spec_warnings(s, i + 1) =~= spec_warnings(s, i as int));
        }
        i = i + 1;
    }
    out
}

/// Every non-forbidden relation has a law.
pub open spec fn all_relations_lawed(s: SpecV) -> bool {
    forall|k: int|
        0 <= k < s.relations.len() ==> (#[trigger] s.relations[k]).forbidden || has_law(
            s.laws,
            s.relations[k].name,
        )
}

proof fn lemma_warnings_empty(s: SpecV, k: int)
    requires
        0 <= k <= s.relations.len(),
    ensures
        spec_warnings(s, k).len() == 0 <==> forall|j: int|
            0 <= j < k ==> (#[trigger] s.relations[j]).forbidden || has_law(
                s.laws,
                s.relations[j].name,
            ),
    decreases k,
{
    if k > 0 {
        lemma_warnings_empty(s, k - 1);
    }
}

/// A spec draws no warning exactly when every relation that is not
/// `forbidden` is constrained by some law; forbidden relations never draw one.
pub proof fn law_no_warnings_iff_all_lawed(s: SpecV)
    ensures
        spec_warnings(s, s.relations.len() as int).len() == 0 <==> all_relations_lawed(s),
{
    lemma_warnings_empty(s, s.relations.len() as int);
}

/// Sort names are pairwise distinct.
pub open spec fn sort_names_distinct(ss: Seq<SortV>) -> bool {
    forall|i: int, j: int| 0 <= j < i < ss.len() ==> #[trigger] ss[j].name != #[trigger] ss[i].name
}

/// Relation names are pairwise distinct.
pub open spec fn relation_names_distinct(rs: Seq<RelationV>) -> bool {
    forall|i: int, j: int| 0 <= j < i < rs.len() ==> #[trigger] rs[j].name != #[trigger] rs[i].name
}

/// A field's type is `Int` or a declared sort.
pub open spec fn field_type_ok(ss: Seq<SortV>, f: FieldV) -> bool {
    match f.ty {
        TyV::Sort(n) => has_sort(ss, n),
        TyV::Int => true,
    }
}

/// Every field whose type is a sort names a declared sort.
pub open spec fn field_types_declared(ss: Seq<SortV>) -> bool {
    forall|i: int, j: int|
        0 <= i < ss.len() && 0 <= j < ss[i].fields.len() ==> field_type_ok(ss, #[trigger] ss[i].fields[j])
}

/// Every relation parameter names a declared sort.
pub open spec fn param_sorts_declared(ss: Seq<SortV>, rs: Seq<RelationV>) -> bool {
    forall|i: int, j: int|
        0 <= i < rs.len() && 0 <= j < rs[i].params.len() ==> has_sort(
            ss,
            (#[trigger] rs[i].params[j]).sort,
        )
}

/// A comparison is well typed: both sides resolve, ordering compares two
/// integers, and equality compares two values of the same type.
pub open spec fn pred_well_typed(
    sorts: Seq<SortV>,
    args: Seq<Seq<char>>,
    params: Seq<ParamV>,
    p: PredV,
) -> bool {
    match (expr_ty(sorts, args, params, p.lhs), expr_ty(sorts, args, params, p.rhs)) {
        (Some(l), Some(r)) => if is_ordering(p.op) {
            l == ExprTyV::Int && r == ExprTyV::Int
        } else {
            l == r
        },
        _ => false,
    }
}

/// Every comparison of a clause is well typed.
pub open spec fn clause_well_typed(
    sorts: Seq<SortV>,
    args: Seq<Seq<char>>,
    params: Seq<ParamV>,
    c: ClauseV,
) -> bool {
    match c {
        ClauseV::Compare(p) => pred_well_typed(sorts, args, params, p),
        ClauseV::Implies { ante, cons, .. } => pred_well_typed(sorts, args, params, ante)
            && pred_well_typed(sorts, args, params, cons),
    }
}

/// A law names an existing, non-forbidden relation with its arity, has a
/// non-empty body, and every clause is well typed.
pub open spec fn law_coherent(s: SpecV, law: LawV) -> bool {
    match find_relation(s.relations, law.relation) {
        None => false,
        Some(r) => !r.forbidden && law.args.len() == r.params.len() && law.clauses.len() > 0
            && forall|k: int|
            0 <= k < law.clauses.len() ==> clause_well_typed(
                s.sorts,
                law.args,
                r.params,
                #[trigger] law.clauses[k],
            ),
    }
}

/// A coherent spec: the type rules of the `.tent` language, stated directly.
pub open spec fn coherent(s: SpecV) -> bool {
    &&& sort_names_distinct(s.sorts)
    &&& relation_names_distinct(s.relations)
    &&& field_types_declared(s.sorts)
    &&& param_sorts_declared(s.sorts, s.relations)
    &&& forall|k: int| 0 <= k < s.laws.len() ==> law_coherent(s, #[trigger] s.laws[k])
}

proof fn lemma_dup_sorts_empty(ss: Seq<SortV>, k: int)
    requires
        0 <= k <= ss.len(),
    ensures
        dup_sort_errors(ss, k).len() == 0 <==> forall|i: int, j: int|
            0 <= j < i < k ==> #[trigger] ss[j].name != #[trigger] ss[i].name,
    decreases k,
{
    if k > 0 {
        lemma_dup_sorts_empty(ss, k - 1);
        if dup_sort_errors(ss, k).len() == 0 {
            assert forall|i: int, j: int| 0 <= j < i < k implies #[trigger] ss[j].name
                != #[trigger] ss[i].name by {
                if i == k - 1 {
                    if ss[j].name == ss[i].name {
                        assert(exists|jj: int| 0 <= jj < k - 1 && #[trigger] ss[jj].name == ss[k - 1].name);
                    }
                }
            }
        }
    }
}

proof fn lemma_dup_relations_empty(rs: Seq<RelationV>, k: int)
    requires
        0 <= k <= rs.len(),
    ensures
        dup_relation_errors(rs, k).len() == 0 <==> forall|i: int, j: int|
            0 <= j < i < k ==> #[trigger] rs[j].name != #[trigger] rs[i].name,
    decreases k,
{
    if k > 0 {
        lemma_dup_relations_empty(rs, k - 1);
        if dup_relation_errors(rs, k).len() == 0 {
            assert forall|i: int, j: int| 0 <= j < i < k implies #[trigger] rs[j].name
                != #[trigger] rs[i].name by {
                if i == k - 1 {
                    if rs[j].name == rs[i].name {
                        assert(exists|jj: int| 0 <= jj < k - 1 && #[trigger] rs[jj].name == rs[k - 1].name);
                    }
                }
            }
        }
    }
}

proof fn lemma_sort_fields_empty(ss: Seq<SortV>, so: SortV, j: int)
    requires
        0 <= j <= so.fields.len(),
    ensures
        sort_field_errors(ss, so, j).len() == 0 <==> forall|m: int|
            0 <= m < j ==> field_type_ok(ss, #[trigger] so.fields[m]),
    decreases j,
{
    if j > 0 {
        lemma_sort_fields_empty(ss, so, j - 1);
    }
}

proof fn lemma_fields_empty(ss: Seq<SortV>, k: int)
    requires
        0 <= k <= ss.len(),
    ensures
        field_errors(ss, k).len() == 0 <==> forall|i: int, j: int|
            0 <= i < k && 0 <= j < ss[i].fields.len() ==> field_type_ok(ss, #[trigger] ss[i].fields[j]),
    decreases k,
{
    if k > 0 {
        lemma_fields_empty(ss, k - 1);
        lemma_sort_fields_empty(ss, ss[k - 1], ss[k - 1].fields.len() as int);
        if field_errors(ss, k).len() == 0 {
            assert forall|i: int, j: int|
                0 <= i < k && 0 <= j < ss[i].fields.len() implies field_type_ok(ss, #[trigger] ss[i].fields[j]) by {
                if i == k - 1 {
                    let m = j;
                    assert(ss[k - 1].fields[m] == ss[i].fields[j]);
                }
            }
        } else {
            if forall|i: int, j: int|
                0 <= i < k && 0 <= j < ss[i].fields.len() ==> field_type_ok(ss, #[trigger] ss[i].fields[j]) {
                assert forall|m: int| 0 <= m < ss[k - 1].fields.len() implies field_type_ok(ss, #[trigger] ss[k - 1].fields[m]) by {
                    assert(ss[k - 1].fields[m] == ss[k - 1].fields[m]);
                }
            }
        }
    }
}

proof fn lemma_relation_params_empty(ss: Seq<SortV>, r: RelationV, j: int)
    requires
        0 <= j <= r.params.len(),
    ensures
        relation_param_errors(ss, r, j).len() == 0 <==> forall|m: int|
            0 <= m < j ==> has_sort(ss, (#[trigger] r.params[m]).sort),
    decreases j,
{
    if j > 0 {
        lemma_relation_params_empty(ss, r, j - 1);
    }
}

proof fn lemma_params_empty(ss: Seq<SortV>, rs: Seq<RelationV>, k: int)
    requires
        0 <= k <= rs.len(),
    ensures
        param_errors(ss, rs, k).len() == 0 <==> forall|i: int, j: int|
            0 <= i < k && 0 <= j < rs[i].params.len() ==> has_sort(
                ss,
                (#[trigger] rs[i].params[j]).sort,
            ),
    decreases k,
{
    if k > 0 {
        lemma_params_empty(ss, rs, k - 1);
        lemma_relation_params_empty(ss, rs[k - 1], rs[k - 1].params.len() as int);
        if param_errors(ss, rs, k).len() != 0 {
            if forall|i: int, j: int|
                0 <= i < k && 0 <= j < rs[i].params.len() ==> has_sort(
                    ss,
                    (#[trigger] rs[i].params[j]).sort,
                ) {
                assert forall|m: int| 0 <= m < rs[k - 1].params.len() implies has_sort(
                    ss,
                    (#[trigger] rs[k - 1].params[m]).sort,
                ) by {
                    assert(rs[k - 1].params[m] == rs[k - 1].params[m]);
                }
            }
        }
    }
}

proof fn lemma_arg_sort_is_param(args: Seq<Seq<char>>, params: Seq<ParamV>, n: Seq<char>, k: int)
    requires
        0 <= k <= args.len(),
        args.len() == params.len(),
    ensures
        arg_sort(args, params, n, k) matches Some(s) ==> exists|m: int|
            0 <= m < params.len() && #[trigger] params[m].sort == s,
    decreases k,
{
    if k > 0 {
        if args[k - 1] == n {
            assert(params[k - 1].sort == params[k - 1].sort);
        } else {
            lemma_arg_sort_is_param(args, params, n, k - 1);
        }
    }
}

proof fn lemma_last_sort_found(ss: Seq<SortV>, n: Seq<char>, k: int)
    requires
        0 <= k <= ss.len(),
        exists|m: int| 0 <= m < k && #[trigger] ss[m].name == n,
    ensures
        last_sort_index(ss, n, k) is Some,
    decreases k,
{
    if ss[k - 1].name != n {
        let m = choose|m: int| 0 <= m < k && #[trigger] ss[m].name == n;
        assert(m < k - 1);
        lemma_last_sort_found(ss, n, k - 1);
    }
}

proof fn lemma_expr_errors_empty(sorts: Seq<SortV>, args: Seq<Seq<char>>, params: Seq<ParamV>, e: ExprV, line: nat)
    requires
        args.len() == params.len(),
        forall|m: int| 0 <= m < params.len() ==> has_sort(sorts, (#[trigger] params[m]).sort),
    ensures
        expr_errors(sorts, args, params, e, line).len() == 0 <==> expr_ty(sorts, args, params, e) is Some,
{
    if let ExprV::Field { arg, field } = e {
        lemma_arg_sort_is_param(args, params, arg, args.len() as int);
        if let Some(sn) = arg_sort(args, params, arg, args.len() as int) {
            let m = choose|m: int| 0 <= m < params.len() && #[trigger] params[m].sort == sn;
            assert(has_sort(sorts, params[m].sort));
            lemma_last_sort_found(sorts, sn, sorts.len() as int);
        }
    }
}

proof fn lemma_pred_errors_empty(sorts: Seq<SortV>, args: Seq<Seq<char>>, params: Seq<ParamV>, p: PredV)
    requires
        args.len() == params.len(),
        forall|m: int| 0 <= m < params.len() ==> has_sort(sorts, (#[trigger] params[m]).sort),
    ensures
        pred_errors(sorts, args, params, p).len() == 0 <==> pred_well_typed(sorts, args, params, p),
{
    lemma_expr_errors_empty(sorts, args, params, p.lhs, p.line);
    lemma_expr_errors_empty(sorts, args, params, p.rhs, p.line);
}

proof fn lemma_clauses_empty(
    sorts: Seq<SortV>,
    args: Seq<Seq<char>>,
    params: Seq<ParamV>,
    clauses: Seq<ClauseV>,
    k: int,
)
    requires
        0 <= k <= clauses.len(),
        args.len() == params.len(),
        forall|m: int| 0 <= m < params.len() ==> has_sort(sorts, (#[trigger] params[m]).sort),
    ensures
        clauses_errors(sorts, args, params, clauses, k).len() == 0 <==> forall|j: int|
            0 <= j < k ==> clause_well_typed(sorts, args, params, #[trigger] clauses[j]),
    decreases k,
{
    if k > 0 {
        lemma_clauses_empty(sorts, args, params, clauses, k - 1);
        match clauses[k - 1] {
            ClauseV::Compare(p) => lemma_pred_errors_empty(sorts, args, params, p),
            ClauseV::Implies { ante, cons, .. } => {
                lemma_pred_errors_empty(sorts, args, params, ante);
                lemma_pred_errors_empty(sorts, args, params, cons);
            },
        }
    }
}

proof fn lemma_last_relation_in(rs: Seq<RelationV>, n: Seq<char>, k: int)
    requires
        0 <= k <= rs.len(),
    ensures
        last_relation_index(rs, n, k) matches Some(i) ==> 0 <= i < k,
    decreases k,
{
    if k > 0 {
        lemma_last_relation_in(rs, n, k - 1);
    }
}

proof fn lemma_law_empty(s: SpecV, law: LawV)
    requires
        param_sorts_declared(s.sorts, s.relations),
    ensures
        law_errors(s, law).len() == 0 <==> law_coherent(s, law),
{
    lemma_last_relation_in(s.relations, law.relation, s.relations.len() as int);
    if let Some(r) = find_relation(s.relations, law.relation) {
        let i = last_relation_index(s.relations, law.relation, s.relations.len() as int)->0;
        assert forall|m: int| 0 <= m < r.params.len() implies has_sort(
            s.sorts,
            (#[trigger] r.params[m]).sort,
        ) by {
            assert(r.params[m] == s.relations[i].params[m]);
        }
        if !r.forbidden && law.args.len() == r.params.len() {
            lemma_clauses_empty(s.sorts, law.args, r.params, law.clauses, law.clauses.len() as int);
        }
    }
}

proof fn lemma_laws_empty(s: SpecV, k: int)
    requires
        0 <= k <= s.laws.len(),
        param_sorts_declared(s.sorts, s.relations),
    ensures
        laws_errors(s, k).len() == 0 <==> forall|j: int| 0 <= j < k ==> law_coherent(s, #[trigger] s.laws[j]),
    decreases k,
{
    if k > 0 {
        lemma_laws_empty(s, k - 1);
        lemma_law_empty(s, s.laws[k - 1]);
    }
}

/// Intent compiles exactly when the spec is coherent: the checker reports no
/// error if and only if names are declared once, every field type and
/// parameter sort is declared, and every law names an existing, non-forbidden
/// relation with matching arity, has a non-empty body, and compares only
/// well-typed expressions (integers for ordering, like with like for `==`).
pub proof fn law_check_passes_iff_coherent(s: SpecV)
    ensures
        check_errors(s).len() == 0 <==> coherent(s),
{
    lemma_dup_sorts_empty(s.sorts, s.sorts.len() as int);
    lemma_dup_relations_empty(s.relations, s.relations.len() as int);
    lemma_fields_empty(s.sorts, s.sorts.len() as int);
    lemma_params_empty(s.sorts, s.relations, s.relations.len() as int);
    if param_sorts_declared(s.sorts, s.relations) {
        lemma_laws_empty(s, s.laws.len() as int);
    }
}

} // verus!
