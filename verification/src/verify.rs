//! Verify: conformance of a spec's laws against extracted facts.
//!
//! Forbidden relations allow no facts: each tuple the facts supply for one is
//! a violation. For every other law, the population to check is inferred:
//! - tuple-driven: when the facts supply tuples for the law's relation, each
//!   tuple is one binding;
//! - cross-product: otherwise every combination of the instance populations
//!   of the relation's parameter sorts is a binding, refused past a cap.
//! A binding that fails the law, or that cannot be evaluated, is a violation.
use vstd::prelude::*;
use vstd::string::*;
use crate::ast::{Law, LawV, Relation, RelationV, Spec, SpecV, strings_view};
use crate::eval::{
    Binding, EvalError, Instance, InstanceV, eval_error_message, eval_law, insts_view, pair_up,
    spec_eval_law,
};
use crate::facts::{
    FactInstance, Facts, FactsV, instances_of, population, population_view, relation_tuples,
    resolve_id, spec_resolve_id, tuples_index, tuples_view,
};
use crate::text::{push_str};
use crate::checker::{coherent, find_relation, last_relation_index, law_coherent, relation_names_distinct};
use crate::facts::{facts_conform, tuple_resolves};

verus! {

/// One law failure: the relation, the line of its law (or of the forbidden
/// relation), the instance ids involved, and what went wrong.
#[derive(Debug, PartialEq, Eq)]
pub struct Violation {
    pub relation: String,
    pub law_line: usize,
    pub args: Vec<String>,
    pub detail: String,
}

/// Model of [`Violation`].
pub struct ViolationV {
    pub relation: Seq<char>,
    pub law_line: nat,
    pub args: Seq<Seq<char>>,
    pub detail: Seq<char>,
}

impl View for Violation {
    type V = ViolationV;

    open spec fn view(&self) -> ViolationV {
        ViolationV {
            relation: self.relation@,
            law_line: self.law_line as nat,
            args: strings_view(self.args@),
            detail: self.detail@,
        }
    }
}

/// The models of a list of violations.
pub open spec fn violations_view(v: Seq<Violation>) -> Seq<ViolationV> {
    v.map_values(|x: Violation| x@)
}

/// The most cross-product combinations checked for one law.
pub const MAX_COMBINATIONS: usize = 10000;

/// The detail of a fact matching a forbidden relation.
pub open spec fn forbidden_detail() -> Seq<char> {
    "forbidden relation has a matching fact"@
}

/// The detail of a binding that fails its law.
pub open spec fn violated_detail() -> Seq<char> {
    "law violated by these facts"@
}

/// The detail of a tuple element that names no instance.
pub open spec fn unknown_id_detail(id: Seq<char>) -> Seq<char> {
    "tuple references unknown id `"@ + id + "`"@
}

/// The detail of a cross product larger than the cap.
pub open spec fn cap_detail(relation: Seq<char>) -> Seq<char> {
    "cross-product population for `"@ + relation + "` exceeds cap 10000; supply explicit tuples in facts"@
}

/// One violation per tuple among `ts[..m]` of a forbidden relation.
pub open spec fn forbidden_tuple_violations(r: RelationV, ts: Seq<Seq<Seq<char>>>, m: int) -> Seq<
    ViolationV,
>
    decreases m,
{
    if m <= 0 {
        seq![]
    } else {
        forbidden_tuple_violations(r, ts, m - 1) + seq![
            ViolationV {
                relation: r.name,
                law_line: r.line,
                args: ts[m - 1],
                detail: forbidden_detail(),
            },
        ]
    }
}

/// The violations of the forbidden relations among `s.relations[..k]`.
pub open spec fn forbidden_violations(s: SpecV, f: FactsV, k: int) -> Seq<ViolationV>
    decreases k,
{
    if k <= 0 {
        seq![]
    } else {
        forbidden_violations(s, f, k - 1) + if s.relations[k - 1].forbidden {
            match relation_tuples(f, s.relations[k - 1].name) {
                Some(ts) => forbidden_tuple_violations(s.relations[k - 1], ts, ts.len() as int),
                None => seq![],
            }
        } else {
            seq![]
        }
    }
}

/// The index of the first of `rels[i..]` named `n`.
pub open spec fn first_relation_index(rels: Seq<RelationV>, n: Seq<char>, i: int) -> Option<int>
    decreases rels.len() - i,
{
    if i < 0 || i >= rels.len() {
        None
    } else if rels[i].name == n {
        Some(i)
    } else {
        first_relation_index(rels, n, i + 1)
    }
}

/// The verdict for one binding of instances: nothing when the law holds,
/// otherwise one violation naming the ids and the failure.
pub open spec fn combo_violations(law: LawV, ids: Seq<Seq<char>>, insts: Seq<InstanceV>) -> Seq<
    ViolationV,
> {
    let v = |detail: Seq<char>|
        ViolationV { relation: law.relation, law_line: law.line, args: ids, detail };
    if law.args.len() != insts.len() {
        seq![
            v(
                eval_error_message(
                    EvalError::ArityMismatch { args: law.args.len(), insts: insts.len() },
                ),
            ),
        ]
    } else {
        match spec_eval_law(law, pair_up(law.args, insts)) {
            Ok(true) => seq![],
            Ok(false) => seq![v(violated_detail())],
            Err(e) => seq![v(eval_error_message(e))],
        }
    }
}

/// Resolves the ids `t[j..]` against the parameter sorts, pairing each id with
/// the parameter at its position (up to the shorter of the two): the
/// instances, or the first id that names none.
pub open spec fn resolve_ids(f: FactsV, t: Seq<Seq<char>>, sorts: Seq<Seq<char>>, j: int) -> Result<
    Seq<InstanceV>,
    Seq<char>,
>
    decreases t.len() - j,
{
    if j < 0 || j >= t.len() || j >= sorts.len() {
        Ok(seq![])
    } else {
        match spec_resolve_id(f, sorts[j], t[j]) {
            None => Err(t[j]),
            Some(inst) => match resolve_ids(f, t, sorts, j + 1) {
                Ok(rest) => Ok(seq![inst] + rest),
                Err(id) => Err(id),
            },
        }
    }
}

/// The parameter sorts of a relation.
pub open spec fn param_sorts(r: RelationV) -> Seq<Seq<char>> {
    r.params.map_values(|p: crate::ast::ParamV| p.sort)
}

/// The verdict for one tuple of a law's relation.
pub open spec fn tuple_violations(law: LawV, r: RelationV, f: FactsV, t: Seq<Seq<char>>) -> Seq<
    ViolationV,
> {
    match resolve_ids(f, t, param_sorts(r), 0) {
        Err(id) => seq![
            ViolationV {
                relation: law.relation,
                law_line: law.line,
                args: t,
                detail: unknown_id_detail(id),
            },
        ],
        Ok(insts) => combo_violations(law, t, insts),
    }
}

/// The verdicts for the tuples `ts[..m]`.
pub open spec fn tuples_violations(law: LawV, r: RelationV, f: FactsV, ts: Seq<Seq<Seq<char>>>, m: int) -> Seq<
    ViolationV,
>
    decreases m,
{
    if m <= 0 {
        seq![]
    } else {
        tuples_violations(law, r, f, ts, m - 1) + tuple_violations(law, r, f, ts[m - 1])
    }
}

/// Extends each of `rows[..k]` with each item of `pop`, rows first.
pub open spec fn extend_rows(rows: Seq<Seq<InstanceV>>, pop: Seq<InstanceV>, k: int) -> Seq<
    Seq<InstanceV>,
>
    decreases k,
{
    if k <= 0 {
        seq![]
    } else {
        extend_rows(rows, pop, k - 1) + pop.map_values(|item: InstanceV| rows[k - 1].push(item))
    }
}

/// The cartesian product of `pops[..k]`, in lexicographic order; an empty
/// population gives no rows and no populations give one empty row.
pub open spec fn cartesian_rows(pops: Seq<Seq<InstanceV>>, k: int) -> Seq<Seq<InstanceV>>
    decreases k,
{
    if k <= 0 {
        seq![seq![]]
    } else {
        let rows = cartesian_rows(pops, k - 1);
        extend_rows(rows, pops[k - 1], rows.len() as int)
    }
}

/// The populations of a relation's parameter sorts.
pub open spec fn param_populations(r: RelationV, f: FactsV) -> Seq<Seq<InstanceV>> {
    r.params.map_values(|p: crate::ast::ParamV| population(f, p.sort))
}

/// The product of the population sizes `pops[..k]`, multiplied left to
/// right in `usize`; `None` once a partial product overflows.
pub open spec fn combinations(pops: Seq<Seq<InstanceV>>, k: int) -> Option<nat>
    decreases k,
{
    if k <= 0 {
        Some(1)
    } else {
        match combinations(pops, k - 1) {
            None => None,
            Some(c) => if c * pops[k - 1].len() > usize::MAX {
                None
            } else {
                Some(c * pops[k - 1].len())
            },
        }
    }
}

/// The ids of a row of instances.
pub open spec fn row_ids(row: Seq<InstanceV>) -> Seq<Seq<char>> {
    row.map_values(|i: InstanceV| i.id)
}

/// The verdicts for the rows `rows[..m]`.
pub open spec fn rows_violations(law: LawV, rows: Seq<Seq<InstanceV>>, m: int) -> Seq<ViolationV>
    decreases m,
{
    if m <= 0 {
        seq![]
    } else {
        rows_violations(law, rows, m - 1) + combo_violations(law, row_ids(rows[m - 1]), rows[m - 1])
    }
}

/// The verdicts of the cross-product mode: one cap violation when there are
/// more combinations than the cap (or their count overflows), else one
/// verdict per combination.
pub open spec fn cross_violations(law: LawV, r: RelationV, f: FactsV) -> Seq<ViolationV> {
    let pops = param_populations(r, f);
    if !(combinations(pops, pops.len() as int) matches Some(n) && n <= MAX_COMBINATIONS) {
        seq![
            ViolationV {
                relation: law.relation,
                law_line: law.line,
                args: seq![],
                detail: cap_detail(law.relation),
            },
        ]
    } else {
        let rows = cartesian_rows(pops, pops.len() as int);
        rows_violations(law, rows, rows.len() as int)
    }
}

/// The violations of one law: none when its relation is not declared,
/// tuple-driven when the facts supply tuples for it, else cross-product.
pub open spec fn law_violations(s: SpecV, f: FactsV, law: LawV) -> Seq<ViolationV> {
    match first_relation_index(s.relations, law.relation, 0) {
        None => seq![],
        Some(i) => match relation_tuples(f, law.relation) {
            Some(ts) => tuples_violations(law, s.relations[i], f, ts, ts.len() as int),
            None => cross_violations(law, s.relations[i], f),
        },
    }
}

/// The violations of `s.laws[..k]`.
pub open spec fn laws_violations(s: SpecV, f: FactsV, k: int) -> Seq<ViolationV>
    decreases k,
{
    if k <= 0 {
        seq![]
    } else {
        laws_violations(s, f, k - 1) + law_violations(s, f, s.laws[k - 1])
    }
}

/// Every violation of a spec's laws and forbidden relations by the facts.
pub open spec fn spec_verify(s: SpecV, f: FactsV) -> Seq<ViolationV> {
    forbidden_violations(s, f, s.relations.len() as int) + laws_violations(
        s,
        f,
        s.laws.len() as int,
    )
}

/// The models of a list of instances.
pub open spec fn instances_view(v: Seq<Instance>) -> Seq<InstanceV> {
    v.map_values(|i: Instance| i@)
}

/// A copy of a list of strings.
fn copy_strings(v: &Vec<String>) -> (r: Vec<String>)
    ensures
        strings_view(r@) == strings_view(v@),
{
    let mut r: Vec<String> = Vec::new();
    let mut k: usize = 0;
    while k < v.len()
        invariant
            k <= v@.len(),
            r@.len() == k,
            strings_view(r@) == strings_view(v@).subrange(0, k as int),
        decreases v.len() - k,
    {
        let ghost old_r = r@;
        r.push(v[k].clone());
        proof {
            assert forall|j: int| 0 <= j < k implies strings_view(r@)[j] == strings_view(v@)[j] by {
                assert(r@[j] == old_r[j]);
                assert(strings_view(old_r)[j] == strings_view(v@).subrange(0, k as int)[j]);
            }
        }
        k = k + 1;
        assert(strings_view(r@) =~= strings_view(v@).subrange(0, k as int));
    }
    assert(strings_view(v@).subrange(0, k as int) =~= strings_view(v@));
    r
}

/// Appends one violation.
fn push_violation(out: &mut Vec<Violation>, v: Violation)
    ensures
        violations_view(final(out)@) == violations_view(old(out)@).push(v@),
{
    let ghost vv = v@;
    out.push(v);
    assert(violations_view(out@) =~= violations_view(old(out)@).push(vv));
}

/// Binds one combination, evaluates the law, and records a violation if it fails.
fn check_combo(law: &Law, ids: Vec<String>, insts: &[Instance], out: &mut Vec<Violation>)
    ensures
        violations_view(final(out)@) == violations_view(old(out)@) + combo_violations(
            law@,
            strings_view(ids@),
            instances_view(insts@),
        ),
{
    let ghost lv = law@;
    let ghost iv = instances_view(insts@);
    let mut refs: Vec<&Instance> = Vec::new();
    let mut k: usize = 0;
    while k < insts.len()
        invariant
            k <= insts@.len(),
            refs@.len() == k,
            iv == instances_view(insts@),
            forall|j: int| 0 <= j < k ==> insts_view(refs@)[j] == iv[j],
        decreases insts.len() - k,
    {
        let ghost old_refs = refs@;
        refs.push(&insts[k]);
        proof {
            assert forall|j: int| 0 <= j < k + 1 implies insts_view(refs@)[j] == iv[j] by {
                if j < k {
                    assert(refs@[j] == old_refs[j]);
                    assert(insts_view(old_refs)[j] == iv[j]);
                }
            }
        }
        k = k + 1;
    }
    assert(insts_view(refs@) =~= iv);
    let detail = match Binding::new(law.args.as_slice(), refs.as_slice()) {
        Ok(b) => match eval_law(law, &b) {
            Ok(true) => {
                assert(violations_view(out@) =~= violations_view(old(out)@) + combo_violations(
                    lv,
                    strings_view(ids@),
                    iv,
                ));
                return ;
            },
            Ok(false) => String::from_str("law violated by these facts"),
            Err(e) => e,
        },
        Err(e) => e,
    };
    let ghost dv = detail@;
    let ghost idv = strings_view(ids@);
    push_violation(out, Violation { relation: law.relation.clone(), law_line: law.line, args: ids, detail });
    assert(violations_view(out@) =~= violations_view(old(out)@) + combo_violations(lv, idv, iv));
}

/// The index of the first tuple list the facts supply for `name`.
fn lookup_tuples(facts: &Facts, name: &String) -> (r: Option<usize>)
    ensures
        match r {
            Some(i) => i < facts.tuples@.len() && tuples_index(facts@.tuples, name@, 0) == Some(i as int),
            None => tuples_index(facts@.tuples, name@, 0) is None,
        },
{
    let ghost ts = facts@.tuples;
    let mut k: usize = 0;
    while k < facts.tuples.len()
        invariant
            ts == facts@.tuples,
            k <= facts.tuples@.len(),
            tuples_index(ts, name@, 0) == tuples_index(ts, name@, k as int),
        decreases facts.tuples.len() - k,
    {
        if facts.tuples[k].0 == *name {
            return Some(k);
        }
        k = k + 1;
    }
    None
}

/// Tuple-driven: each extracted tuple is one binding.
fn verify_tuples(
    law: &Law,
    relation: &Relation,
    tuples: &Vec<Vec<String>>,
    facts: &Facts,
    out: &mut Vec<Violation>,
)
    ensures
        violations_view(final(out)@) == violations_view(old(out)@) + tuples_violations(
            law@,
            relation@,
            facts@,
            tuples_view(tuples@),
            tuples@.len() as int,
        ),
{
    let ghost lv = law@;
    let ghost rv = relation@;
    let ghost f = facts@;
    let ghost tv = tuples_view(tuples@);
    let ghost sorts = param_sorts(rv);
    let mut m: usize = 0;
    assert(violations_view(out@) =~= violations_view(old(out)@) + tuples_violations(lv, rv, f, tv, 0));
    while m < tuples.len()
        invariant
            m <= tuples@.len(),
            lv == law@,
            rv == relation@,
            f == facts@,
            tv == tuples_view(tuples@),
            sorts == param_sorts(rv),
            violations_view(out@) == violations_view(old(out)@) + tuples_violations(lv, rv, f, tv, m as int),
        decreases tuples.len() - m,
    {
        let ghost before = violations_view(out@);
        let tuple = &tuples[m];
        let ghost t = tv[m as int];
        assert(t == strings_view(tuple@));
        let mut insts: Vec<Instance> = Vec::new();
        let mut resolved = true;
        let n = if tuple.len() < relation.params.len() { tuple.len() } else { relation.params.len() };
        let mut j: usize = 0;
        assert(instances_view(insts@) =~= seq![]);
        while j < n
            invariant_except_break
                resolved,
                resolve_ids(f, t, sorts, 0) == match resolve_ids(f, t, sorts, j as int) {
                    Ok(rest) => Ok(instances_view(insts@) + rest),
                    Err(id) => Err(id),
                },
                violations_view(out@) == before,
            invariant
                j <= n,
                n <= tuple@.len(),
                n <= relation.params@.len(),
                n == tuple@.len() || n == relation.params@.len(),
                lv == law@,
                rv == relation@,
                f == facts@,
                sorts == param_sorts(rv),
                sorts.len() == relation.params@.len(),
                t == strings_view(tuple@),
            ensures
                resolved ==> violations_view(out@) == before,
                resolved ==> resolve_ids(f, t, sorts, 0) == Ok::<Seq<InstanceV>, Seq<char>>(instances_view(insts@)),
                !resolved ==> violations_view(out@) == before + tuple_violations(lv, rv, f, t),
            decreases n - j,
        {
            let param = &relation.params[j];
            let id = &tuple[j];
            assert(sorts[j as int] == param.sort@);
            match resolve_id(facts, param.sort.as_str(), id.as_str()) {
                Some(fi) => {
                    let ghost old_iv = instances_view(insts@);
                    let inst = fi.to_instance();
                    let ghost inst_v = inst@;
                    insts.push(inst);
                    proof {
                        assert(instances_view(insts@) =~= old_iv.push(inst_v));
                        match resolve_ids(f, t, sorts, j + 1) {
                            Ok(rest) => {
                                assert(old_iv + (seq![inst_v] + rest) =~= old_iv.push(inst_v) + rest);
                            },
                            Err(_) => {},
                        }
                    }
                },
                None => {
                    let mut d = String::new();
                    push_str(&mut d, "tuple references unknown id `");
                    push_str(&mut d, id.as_str());
                    push_str(&mut d, "`");
                    push_violation(
                        out,
                        Violation {
                            relation: law.relation.clone(),
                            law_line: law.line,
                            args: copy_strings(tuple),
                            detail: d,
                        },
                    );
                    resolved = false;
                    assert(violations_view(out@) =~= before + tuple_violations(lv, rv, f, t));
                    break;
                },
            }
            j = j + 1;
        }
        if resolved {
            check_combo(law, copy_strings(tuple), insts.as_slice(), out);
        }
        assert(violations_view(out@) == before + tuple_violations(lv, rv, f, t));
        assert(tuples_violations(lv, rv, f, tv, m + 1) =~= tuples_violations(lv, rv, f, tv, m as int)
            + tuple_violations(lv, rv, f, t));
        assert(violations_view(out@) =~= violations_view(old(out)@) + tuples_violations(lv, rv, f, tv, m + 1));
        m = m + 1;
    }
}

/// The models of a row of borrowed fact instances.
pub open spec fn row_view(v: Seq<&FactInstance>) -> Seq<InstanceV> {
    v.map_values(|r: &FactInstance| r@)
}

/// The models of rows of borrowed fact instances.
pub open spec fn rows_view(v: Seq<Vec<&FactInstance>>) -> Seq<Seq<InstanceV>> {
    v.map_values(|r: Vec<&FactInstance>| row_view(r@))
}

/// The models of borrowed populations.
pub open spec fn pops_view(v: Seq<&[FactInstance]>) -> Seq<Seq<InstanceV>> {
    v.map_values(|p: &[FactInstance]| population_view(p@))
}

/// A row extended by one more instance.
fn extended_row<'a>(row: &Vec<&'a FactInstance>, item: &'a FactInstance) -> (r: Vec<&'a FactInstance>)
    ensures
        row_view(r@) == row_view(row@).push(item@),
{
    let mut r: Vec<&'a FactInstance> = Vec::new();
    let mut k: usize = 0;
    while k < row.len()
        invariant
            k <= row@.len(),
            r@ == row@.subrange(0, k as int),
        decreases row.len() - k,
    {
        r.push(row[k]);
        k = k + 1;
        assert(r@ =~= row@.subrange(0, k as int));
    }
    assert(r@ =~= row@);
    r.push(item);
    assert(row_view(r@) =~= row_view(row@).push(item@));
    r
}

/// Cartesian product of the populations, as rows of borrowed instances in
/// lexicographic order. An empty population yields no rows; no populations
/// yield one empty row.
fn cartesian<'a>(pops: &Vec<&'a [FactInstance]>) -> (rows: Vec<Vec<&'a FactInstance>>)
    ensures
        rows_view(rows@) == cartesian_rows(pops_view(pops@), pops@.len() as int),
{
    let ghost pv = pops_view(pops@);
    let mut rows: Vec<Vec<&'a FactInstance>> = Vec::new();
    rows.push(Vec::new());
    assert(rows_view(rows@) =~= cartesian_rows(pv, 0)) by {
        assert(row_view(rows@[0]@) =~= seq![]);
    }
    let mut k: usize = 0;
    while k < pops.len()
        invariant
            k <= pops@.len(),
            pv == pops_view(pops@),
            rows_view(rows@) == cartesian_rows(pv, k as int),
        decreases pops.len() - k,
    {
        let pop = pops[k];
        let ghost popv = pv[k as int];
        let ghost rv = rows_view(rows@);
        assert(popv == population_view(pop@));
        let mut next: Vec<Vec<&'a FactInstance>> = Vec::new();
        let mut r: usize = 0;
        assert(rows_view(next@) =~= extend_rows(rv, popv, 0));
        while r < rows.len()
            invariant
                r <= rows@.len(),
                rv == rows_view(rows@),
                popv == population_view(pop@),
                rows_view(next@) == extend_rows(rv, popv, r as int),
            decreases rows.len() - r,
        {
            let ghost base = rows_view(next@);
            let mut i: usize = 0;
            assert(rows_view(next@) =~= base + popv.take(0).map_values(|item: InstanceV| rv[r as int].push(item)));
            while i < pop.len()
                invariant
                    i <= pop@.len(),
                    r < rows@.len(),
                    rv == rows_view(rows@),
                    popv == population_view(pop@),
                    rows_view(next@) == base + popv.take(i as int).map_values(
                        |item: InstanceV| rv[r as int].push(item),
                    ),
                decreases pop.len() - i,
            {
                let row = extended_row(&rows[r], &pop[i]);
                let ghost old_next = rows_view(next@);
                next.push(row);
                proof {
                    assert(rows_view(next@) =~= old_next.push(rv[r as int].push(popv[i as int])));
                    assert(popv.take(i + 1).map_values(|item: InstanceV| rv[r as int].push(item))
                        =~= popv.take(i as int).map_values(|item: InstanceV| rv[r as int].push(item)).push(
                        rv[r as int].push(popv[i as int]),
                    ));
                }
                i = i + 1;
                assert(rows_view(next@) =~= base + popv.take(i as int).map_values(
                    |item: InstanceV| rv[r as int].push(item),
                ));
            }
            assert(popv.take(i as int) =~= popv);
            r = r + 1;
            assert(rows_view(next@) =~= extend_rows(rv, popv, r as int));
        }
        rows = next;
        k = k + 1;
    }
    rows
}

/// Cross-product: every combination of the parameter sorts' populations is a
/// binding, unless there are more combinations than the cap.
fn verify_cross_product(law: &Law, relation: &Relation, facts: &Facts, out: &mut Vec<Violation>)
    ensures
        violations_view(final(out)@) == violations_view(old(out)@) + cross_violations(
            law@,
            relation@,
            facts@,
        ),
{
    let ghost lv = law@;
    let ghost rv = relation@;
    let ghost f = facts@;
    let ghost all = param_populations(rv, f);
    let mut pops: Vec<&[FactInstance]> = Vec::new();
    let mut k: usize = 0;
    while k < relation.params.len()
        invariant
            k <= relation.params@.len(),
            rv == relation@,
            f == facts@,
            all == param_populations(rv, f),
            all.len() == relation.params@.len(),
            pops_view(pops@) == all.take(k as int),
        decreases relation.params.len() - k,
    {
        let pop = instances_of(facts, relation.params[k].sort.as_str());
        let ghost old_p = pops_view(pops@);
        pops.push(pop);
        assert(pops_view(pops@) =~= old_p.push(population_view(pop@)));
        k = k + 1;
        assert(all.take(k as int) =~= all.take(k - 1).push(all[k - 1]));
    }
    assert(all.take(k as int) =~= all);
    let mut total: Option<usize> = Some(1);
    let mut j: usize = 0;
    while j < pops.len()
        invariant
            j <= pops@.len(),
            pops_view(pops@) == all,
            match total {
                Some(t) => combinations(all, j as int) == Some(t as nat),
                None => combinations(all, j as int) is None,
            },
        decreases pops.len() - j,
    {
        assert(all[j as int].len() == pops@[j as int]@.len());
        total = match total {
            Some(t) => t.checked_mul(pops[j].len()),
            None => None,
        };
        j = j + 1;
    }
    let within = match total {
        Some(n) => n <= MAX_COMBINATIONS,
        None => false,
    };
    if !within {
        let mut d = String::new();
        push_str(&mut d, "cross-product population for `");
        push_str(&mut d, law.relation.as_str());
        push_str(&mut d, "` exceeds cap 10000; supply explicit tuples in facts");
        let no_args: Vec<String> = Vec::new();
        assert(strings_view(no_args@) =~= seq![]);
        push_violation(
            out,
            Violation { relation: law.relation.clone(), law_line: law.line, args: no_args, detail: d },
        );
        assert(violations_view(out@) =~= violations_view(old(out)@) + cross_violations(lv, rv, f));
        return ;
    }
    let rows = cartesian(&pops);
    let ghost all_rows = rows_view(rows@);
    let mut m: usize = 0;
    assert(violations_view(out@) =~= violations_view(old(out)@) + rows_violations(lv, all_rows, 0));
    while m < rows.len()
        invariant
            m <= rows@.len(),
            lv == law@,
            all_rows == rows_view(rows@),
            violations_view(out@) == violations_view(old(out)@) + rows_violations(lv, all_rows, m as int),
        decreases rows.len() - m,
    {
        let row = &rows[m];
        let ghost rowv = all_rows[m as int];
        let mut insts: Vec<Instance> = Vec::new();
        let mut ids: Vec<String> = Vec::new();
        let mut i: usize = 0;
        while i < row.len()
            invariant
                i <= row@.len(),
                rowv == row_view(row@),
                instances_view(insts@) == rowv.take(i as int),
                strings_view(ids@) == row_ids(rowv).take(i as int),
            decreases row.len() - i,
        {
            let inst = row[i].to_instance();
            let ghost old_i = instances_view(insts@);
            let ghost old_d = strings_view(ids@);
            let ghost iv = inst@;
            insts.push(inst);
            let id = row[i].id.clone();
            let ghost idv = id@;
            ids.push(id);
            assert(instances_view(insts@) =~= old_i.push(iv));
            assert(strings_view(ids@) =~= old_d.push(idv));
            i = i + 1;
            assert(rowv.take(i as int) =~= rowv.take(i - 1).push(rowv[i - 1]));
            assert(row_ids(rowv).take(i as int) =~= row_ids(rowv).take(i - 1).push(row_ids(rowv)[i - 1]));
        }
        assert(rowv.take(i as int) =~= rowv);
        assert(row_ids(rowv).take(i as int) =~= row_ids(rowv));
        let ghost before = violations_view(out@);
        check_combo(law, ids, insts.as_slice(), out);
        assert(violations_view(out@) =~= violations_view(old(out)@) + rows_violations(lv, all_rows, m + 1));
        m = m + 1;
    }
}

/// Evaluates every law of `spec` against `facts`, returning all violations:
/// first one per fact matching a forbidden relation, then those of each law
/// in order. It never panics on a gap in the facts: an unresolved id, a
/// missing field or an arity mismatch becomes a violation.
pub fn verify(spec: &Spec, facts: &Facts) -> (out: Vec<Violation>)
    ensures
        violations_view(out@) == spec_verify(spec@, facts@),
{
    let ghost s = spec@;
    let ghost f = facts@;
    let mut out: Vec<Violation> = Vec::new();
    let mut k: usize = 0;
    assert(violations_view(out@) =~= forbidden_violations(s, f, 0));
    while k < spec.relations.len()
        invariant
            k <= spec.relations@.len(),
            s == spec@,
            f == facts@,
            violations_view(out@) == forbidden_violations(s, f, k as int),
        decreases spec.relations.len() - k,
    {
        let relation = &spec.relations[k];
        let ghost before = violations_view(out@);
        let ghost rv = relation@;
        if relation.forbidden {
            match lookup_tuples(facts, &relation.name) {
                Some(ti) => {
                    let tuples = &facts.tuples[ti].1;
                    let ghost ts = f.tuples[ti as int].1;
                    let mut m: usize = 0;
                    while m < tuples.len()
                        invariant
                            m <= tuples@.len(),
                            ts == tuples_view(tuples@),
                            rv == relation@,
                            violations_view(out@) == before + forbidden_tuple_violations(rv, ts, m as int),
                        decreases tuples.len() - m,
                    {
                        let ghost b2 = violations_view(out@);
                        push_violation(
                            &mut out,
                            Violation {
                                relation: relation.name.clone(),
                                law_line: relation.line,
                                args: copy_strings(&tuples[m]),
                                detail: String::from_str("forbidden relation has a matching fact"),
                            },
                        );
                        m = m + 1;
                        assert(violations_view(out@) =~= before + forbidden_tuple_violations(rv, ts, m as int));
                    }
                },
                None => {
                    assert(forbidden_violations(s, f, k + 1) =~= before);
                },
            }
        } else {
            assert(forbidden_violations(s, f, k + 1) =~= before);
        }
        k = k + 1;
        assert(violations_view(out@) =~= forbidden_violations(s, f, k as int));
    }
    let ghost p1 = forbidden_violations(s, f, s.relations.len() as int);
    let mut k: usize = 0;
    assert(violations_view(out@) =~= p1 + laws_violations(s, f, 0));
    while k < spec.laws.len()
        invariant
            k <= spec.laws@.len(),
            s == spec@,
            f == facts@,
            violations_view(out@) == p1 + laws_violations(s, f, k as int),
        decreases spec.laws.len() - k,
    {
        let law = &spec.laws[k];
        let ghost before = violations_view(out@);
        let ghost lv = law@;
        let mut ri: usize = 0;
        let mut found = false;
        while ri < spec.relations.len()
            invariant_except_break
                !found,
                first_relation_index(s.relations, lv.relation, 0) == first_relation_index(
                    s.relations,
                    lv.relation,
                    ri as int,
                ),
            invariant
                ri <= spec.relations@.len(),
                s == spec@,
                lv == law@,
            ensures
                found ==> ri < spec.relations@.len() && first_relation_index(s.relations, lv.relation, 0) == Some(ri as int),
                !found ==> first_relation_index(s.relations, lv.relation, 0) is None,
            decreases spec.relations.len() - ri,
        {
            if spec.relations[ri].name == law.relation {
                found = true;
                break;
            }
            ri = ri + 1;
        }
        if found {
            let relation = &spec.relations[ri];
            match lookup_tuples(facts, &law.relation) {
                Some(ti) => {
                    verify_tuples(law, relation, &facts.tuples[ti].1, facts, &mut out);
                },
                None => {
                    verify_cross_product(law, relation, facts, &mut out);
                },
            }
        }
        assert(laws_violations(s, f, k + 1) =~= laws_violations(s, f, k as int) + law_violations(s, f, lv));
        k = k + 1;
        assert(violations_view(out@) =~= p1 + laws_violations(s, f, k as int));
    }
    assert(p1 + laws_violations(s, f, s.laws.len() as int) =~= spec_verify(s, f));
    out
}

proof fn lemma_forbidden_contains(s: SpecV, f: FactsV, k: int, kk: int, m: int)
    requires
        0 <= k < kk <= s.relations.len(),
        s.relations[k].forbidden,
        relation_tuples(f, s.relations[k].name) matches Some(ts) && 0 <= m < ts.len(),
    ensures
        forbidden_violations(s, f, kk).contains(
            ViolationV {
                relation: s.relations[k].name,
                law_line: s.relations[k].line,
                args: relation_tuples(f, s.relations[k].name)->0[m],
                detail: forbidden_detail(),
            },
        ),
    decreases kk,
{
    let v = ViolationV {
        relation: s.relations[k].name,
        law_line: s.relations[k].line,
        args: relation_tuples(f, s.relations[k].name)->0[m],
        detail: forbidden_detail(),
    };
    if kk == k + 1 {
        let r = s.relations[k];
        let ts = relation_tuples(f, r.name)->0;
        lemma_forbidden_tuples_contain(r, ts, ts.len() as int, m);
        let pre = forbidden_violations(s, f, k);
        let mid = forbidden_tuple_violations(r, ts, ts.len() as int);
        let i = choose|i: int| 0 <= i < mid.len() && mid[i] == v;
        assert((pre + mid)[pre.len() + i] == v);
    } else {
        lemma_forbidden_contains(s, f, k, kk - 1, m);
        let pre = forbidden_violations(s, f, kk - 1);
        let i = choose|i: int| 0 <= i < pre.len() && pre[i] == v;
        assert(forbidden_violations(s, f, kk)[i] == v);
    }
}

proof fn lemma_forbidden_tuples_len(r: RelationV, ts: Seq<Seq<Seq<char>>>, mm: int)
    requires
        0 <= mm,
    ensures
        forbidden_tuple_violations(r, ts, mm).len() == mm,
    decreases mm,
{
    if mm > 0 {
        lemma_forbidden_tuples_len(r, ts, mm - 1);
    }
}

proof fn lemma_forbidden_tuples_contain(r: RelationV, ts: Seq<Seq<Seq<char>>>, mm: int, m: int)
    requires
        0 <= m < mm <= ts.len(),
    ensures
        forbidden_tuple_violations(r, ts, mm).contains(
            ViolationV { relation: r.name, law_line: r.line, args: ts[m], detail: forbidden_detail() },
        ),
    decreases mm,
{
    let v = ViolationV { relation: r.name, law_line: r.line, args: ts[m], detail: forbidden_detail() };
    lemma_forbidden_tuples_len(r, ts, mm - 1);
    if mm == m + 1 {
        assert(forbidden_tuple_violations(r, ts, mm)[m] == v);
    } else {
        lemma_forbidden_tuples_contain(r, ts, mm - 1, m);
        let pre = forbidden_tuple_violations(r, ts, mm - 1);
        let i = choose|i: int| 0 <= i < pre.len() && pre[i] == v;
        assert(forbidden_tuple_violations(r, ts, mm)[i] == v);
    }
}

/// A forbidden relation allows no facts: every tuple the facts supply for it
/// is reported as a violation naming the relation, its line and the tuple.
pub proof fn law_forbidden_fact_is_flagged(s: SpecV, f: FactsV, k: int, m: int)
    requires
        0 <= k < s.relations.len(),
        s.relations[k].forbidden,
        relation_tuples(f, s.relations[k].name) matches Some(ts) && 0 <= m < ts.len(),
    ensures
        spec_verify(s, f).contains(
            ViolationV {
                relation: s.relations[k].name,
                law_line: s.relations[k].line,
                args: relation_tuples(f, s.relations[k].name)->0[m],
                detail: forbidden_detail(),
            },
        ),
{
    lemma_forbidden_contains(s, f, k, s.relations.len() as int, m);
    let v = ViolationV {
        relation: s.relations[k].name,
        law_line: s.relations[k].line,
        args: relation_tuples(f, s.relations[k].name)->0[m],
        detail: forbidden_detail(),
    };
    let pre = forbidden_violations(s, f, s.relations.len() as int);
    let i = choose|i: int| 0 <= i < pre.len() && pre[i] == v;
    assert(spec_verify(s, f)[i] == v);
}

proof fn lemma_resolve_ids_ok(f: FactsV, r: RelationV, t: Seq<Seq<char>>, j: int)
    requires
        tuple_resolves(f, r, t),
        0 <= j <= t.len(),
    ensures
        resolve_ids(f, t, param_sorts(r), j) matches Ok(insts) && insts.len() == t.len() - j,
    decreases t.len() - j,
{
    if j < t.len() {
        lemma_resolve_ids_ok(f, r, t, j + 1);
        assert(param_sorts(r)[j] == r.params[j].sort);
    }
}

proof fn lemma_first_is_last(rels: Seq<RelationV>, n: Seq<char>, i: int, l: int)
    requires
        relation_names_distinct(rels),
        0 <= i <= l < rels.len(),
        rels[l].name == n,
    ensures
        first_relation_index(rels, n, i) == Some(l),
    decreases rels.len() - i,
{
    if i < l {
        if rels[i].name == n {
            assert(rels[i].name == rels[l].name);
        }
        lemma_first_is_last(rels, n, i + 1, l);
    }
}

proof fn lemma_last_named(rels: Seq<RelationV>, n: Seq<char>, k: int)
    requires
        0 <= k <= rels.len(),
    ensures
        last_relation_index(rels, n, k) matches Some(i) ==> 0 <= i < k && rels[i].name == n,
    decreases k,
{
    if k > 0 {
        lemma_last_named(rels, n, k - 1);
    }
}

proof fn lemma_tuples_index_named(f: FactsV, n: Seq<char>, i: int)
    requires
        0 <= i,
    ensures
        tuples_index(f.tuples, n, i) matches Some(t) ==> i <= t < f.tuples.len() && f.tuples[t].0 == n,
    decreases f.tuples.len() - i,
{
    if i < f.tuples.len() && f.tuples[i].0 != n {
        lemma_tuples_index_named(f, n, i + 1);
    }
}

/// When the spec compiles and the facts conform to it, every tuple the facts
/// supply for a law's relation resolves to one instance per law argument and
/// is evaluated against the law: it draws no violation exactly when the law
/// holds for those instances.
pub proof fn law_conforming_tuples_are_evaluated(s: SpecV, f: FactsV, k: int, m: int)
    requires
        coherent(s),
        facts_conform(s, f),
        0 <= k < s.laws.len(),
        relation_tuples(f, s.laws[k].relation) matches Some(ts) && 0 <= m < ts.len(),
    ensures
        ({
            let law = s.laws[k];
            let t = relation_tuples(f, law.relation)->0[m];
            let r = find_relation(s.relations, law.relation)->0;
            &&& find_relation(s.relations, law.relation) is Some
            &&& first_relation_index(s.relations, law.relation, 0) matches Some(i) && s.relations[i]
                == r
            &&& resolve_ids(f, t, param_sorts(r), 0) matches Ok(insts) && insts.len()
                == law.args.len() && (tuple_violations(law, r, f, t).len() == 0
                <==> spec_eval_law(law, pair_up(law.args, insts)) == Ok::<bool, EvalError>(true))
        }),
{
    let law = s.laws[k];
    assert(law_coherent(s, law));
    let r = find_relation(s.relations, law.relation)->0;
    let l = last_relation_index(s.relations, law.relation, s.relations.len() as int)->0;
    lemma_last_named(s.relations, law.relation, s.relations.len() as int);
    lemma_first_is_last(s.relations, law.relation, 0, l);
    let ti = tuples_index(f.tuples, law.relation, 0)->0;
    lemma_tuples_index_named(f, law.relation, 0);
    let ts = f.tuples[ti].1;
    assert(ts[m] == f.tuples[ti].1[m]);
    assert(tuple_resolves(f, r, ts[m]));
    lemma_resolve_ids_ok(f, r, ts[m], 0);
}

/// A law whose relation has no supplied tuples is checked over the cross
/// product of its parameter populations; past 10,000 combinations it is
/// refused with a single violation asking for explicit tuples instead.
pub proof fn law_cross_product_is_capped(s: SpecV, f: FactsV, k: int)
    requires
        0 <= k < s.laws.len(),
        first_relation_index(s.relations, s.laws[k].relation, 0) matches Some(i) && !(combinations(
            param_populations(s.relations[i], f),
            s.relations[i].params.len() as int,
        ) matches Some(n) && n <= MAX_COMBINATIONS),
        relation_tuples(f, s.laws[k].relation) is None,
    ensures
        law_violations(s, f, s.laws[k]) == seq![
            ViolationV {
                relation: s.laws[k].relation,
                law_line: s.laws[k].line,
                args: seq![],
                detail: cap_detail(s.laws[k].relation),
            },
        ],
{
}

/// A forbidden relation is respected when the facts supply no tuple for it.
pub open spec fn forbidden_respected(f: FactsV, r: RelationV) -> bool {
    r.forbidden ==> (relation_tuples(f, r.name) matches Some(ts) ==> ts.len() == 0)
}

/// A binding holds when it gives one instance per law argument and the law
/// evaluates to true over it.
pub open spec fn binding_holds(law: LawV, insts: Seq<InstanceV>) -> bool {
    insts.len() == law.args.len() && spec_eval_law(law, pair_up(law.args, insts)) == Ok::<
        bool,
        EvalError,
    >(true)
}

/// A tuple passes when each of its ids names an instance of its parameter's
/// sort and the law holds over those instances.
pub open spec fn tuple_passes(law: LawV, r: RelationV, f: FactsV, t: Seq<Seq<char>>) -> bool {
    resolve_ids(f, t, param_sorts(r), 0) matches Ok(insts) && binding_holds(law, insts)
}

/// A law passes when its relation is undeclared; or, when the facts supply
/// tuples for it, every tuple passes; or else the cross product is within the
/// cap and the law holds over every combination.
pub open spec fn law_passes(s: SpecV, f: FactsV, law: LawV) -> bool {
    match first_relation_index(s.relations, law.relation, 0) {
        None => true,
        Some(i) => match relation_tuples(f, law.relation) {
            Some(ts) => forall|m: int|
                0 <= m < ts.len() ==> #[trigger] tuple_passes(law, s.relations[i], f, ts[m]),
            None => {
                let pops = param_populations(s.relations[i], f);
                let rows = cartesian_rows(pops, pops.len() as int);
                &&& combinations(pops, pops.len() as int) matches Some(n) && n <= MAX_COMBINATIONS
                &&& forall|m: int| 0 <= m < rows.len() ==> #[trigger] binding_holds(law, rows[m])
            },
        },
    }
}

proof fn lemma_combo_empty(law: LawV, ids: Seq<Seq<char>>, insts: Seq<InstanceV>)
    ensures
        combo_violations(law, ids, insts).len() == 0 <==> binding_holds(law, insts),
{
}

proof fn lemma_forbidden_empty(s: SpecV, f: FactsV, k: int)
    requires
        0 <= k <= s.relations.len(),
    ensures
        forbidden_violations(s, f, k).len() == 0 <==> forall|j: int|
            0 <= j < k ==> #[trigger] forbidden_respected(f, s.relations[j]),
    decreases k,
{
    if k > 0 {
        lemma_forbidden_empty(s, f, k - 1);
        let r = s.relations[k - 1];
        if let Some(ts) = relation_tuples(f, r.name) {
            lemma_forbidden_tuples_len(r, ts, ts.len() as int);
        }
        if forbidden_violations(s, f, k).len() == 0 {
            assert forall|j: int| 0 <= j < k implies #[trigger] forbidden_respected(
                f,
                s.relations[j],
            ) by {
                if j < k - 1 {
                    assert(forbidden_violations(s, f, k - 1).len() == 0);
                }
            }
        }
        if forall|j: int| 0 <= j < k ==> #[trigger] forbidden_respected(f, s.relations[j]) {
            assert(forbidden_respected(f, s.relations[k - 1]));
        }
    }
}

proof fn lemma_tuples_empty(law: LawV, r: RelationV, f: FactsV, ts: Seq<Seq<Seq<char>>>, m: int)
    requires
        0 <= m <= ts.len(),
    ensures
        tuples_violations(law, r, f, ts, m).len() == 0 <==> forall|j: int|
            0 <= j < m ==> #[trigger] tuple_passes(law, r, f, ts[j]),
    decreases m,
{
    if m > 0 {
        lemma_tuples_empty(law, r, f, ts, m - 1);
        if let Ok(insts) = resolve_ids(f, ts[m - 1], param_sorts(r), 0) {
            lemma_combo_empty(law, ts[m - 1], insts);
        }
        if tuples_violations(law, r, f, ts, m).len() == 0 {
            assert forall|j: int| 0 <= j < m implies #[trigger] tuple_passes(law, r, f, ts[j]) by {
                if j < m - 1 {
                    assert(tuples_violations(law, r, f, ts, m - 1).len() == 0);
                }
            }
        }
        if forall|j: int| 0 <= j < m ==> #[trigger] tuple_passes(law, r, f, ts[j]) {
            assert(tuple_passes(law, r, f, ts[m - 1]));
        }
    }
}

proof fn lemma_rows_empty(law: LawV, rows: Seq<Seq<InstanceV>>, m: int)
    requires
        0 <= m <= rows.len(),
    ensures
        rows_violations(law, rows, m).len() == 0 <==> forall|j: int|
            0 <= j < m ==> #[trigger] binding_holds(law, rows[j]),
    decreases m,
{
    if m > 0 {
        lemma_rows_empty(law, rows, m - 1);
        lemma_combo_empty(law, row_ids(rows[m - 1]), rows[m - 1]);
        if rows_violations(law, rows, m).len() == 0 {
            assert forall|j: int| 0 <= j < m implies #[trigger] binding_holds(law, rows[j]) by {
                if j < m - 1 {
                    assert(rows_violations(law, rows, m - 1).len() == 0);
                }
            }
        }
        if forall|j: int| 0 <= j < m ==> #[trigger] binding_holds(law, rows[j]) {
            assert(binding_holds(law, rows[m - 1]));
        }
    }
}

proof fn lemma_law_empty(s: SpecV, f: FactsV, law: LawV)
    ensures
        law_violations(s, f, law).len() == 0 <==> law_passes(s, f, law),
{
    if let Some(i) = first_relation_index(s.relations, law.relation, 0) {
        let r = s.relations[i];
        match relation_tuples(f, law.relation) {
            Some(ts) => lemma_tuples_empty(law, r, f, ts, ts.len() as int),
            None => {
                let pops = param_populations(r, f);
                let rows = cartesian_rows(pops, pops.len() as int);
                lemma_rows_empty(law, rows, rows.len() as int);
            },
        }
    }
}

proof fn lemma_laws_empty(s: SpecV, f: FactsV, k: int)
    requires
        0 <= k <= s.laws.len(),
    ensures
        laws_violations(s, f, k).len() == 0 <==> forall|j: int|
            0 <= j < k ==> #[trigger] law_passes(s, f, s.laws[j]),
    decreases k,
{
    if k > 0 {
        lemma_laws_empty(s, f, k - 1);
        lemma_law_empty(s, f, s.laws[k - 1]);
        if laws_violations(s, f, k).len() == 0 {
            assert forall|j: int| 0 <= j < k implies #[trigger] law_passes(s, f, s.laws[j]) by {
                if j < k - 1 {
                    assert(laws_violations(s, f, k - 1).len() == 0);
                }
            }
        }
        if forall|j: int| 0 <= j < k ==> #[trigger] law_passes(s, f, s.laws[j]) {
            assert(law_passes(s, f, s.laws[k - 1]));
        }
    }
}

/// The facts draw no violation exactly when no forbidden relation has a fact
/// and every law passes: over each supplied tuple of its relation, or else
/// over every combination of its parameter populations, within the cap.
pub proof fn law_no_violations_iff_all_pass(s: SpecV, f: FactsV)
    ensures
        spec_verify(s, f).len() == 0 <==> (forall|j: int|
            0 <= j < s.relations.len() ==> #[trigger] forbidden_respected(f, s.relations[j]))
            && (forall|j: int| 0 <= j < s.laws.len() ==> #[trigger] law_passes(s, f, s.laws[j])),
{
    lemma_forbidden_empty(s, f, s.relations.len() as int);
    lemma_laws_empty(s, f, s.laws.len() as int);
}

proof fn lemma_extend_rows(rows: Seq<Seq<InstanceV>>, pop: Seq<InstanceV>, m: int)
    requires
        0 <= m <= rows.len(),
    ensures
        extend_rows(rows, pop, m).len() == m * pop.len(),
        forall|a: int, b: int|
            0 <= a < m && 0 <= b < pop.len() ==> #[trigger] extend_rows(rows, pop, m)[a * pop.len()
                + b] == rows[a].push(pop[b]),
    decreases m,
{
    let p = pop.len() as int;
    if m > 0 {
        lemma_extend_rows(rows, pop, m - 1);
        let prev = extend_rows(rows, pop, m - 1);
        let last = pop.map_values(|item: InstanceV| rows[m - 1].push(item));
        assert(m * p == (m - 1) * p + p) by (nonlinear_arith);
        assert forall|a: int, b: int| 0 <= a < m && 0 <= b < p implies #[trigger] extend_rows(
            rows,
            pop,
            m,
        )[a * p + b] == rows[a].push(pop[b]) by {
            if a < m - 1 {
                assert(a * p + b < (m - 1) * p) by (nonlinear_arith)
                    requires
                        0 <= a < m - 1,
                        0 <= b < p,
                ;
                assert(extend_rows(rows, pop, m)[a * p + b] == prev[a * p + b]);
            } else {
                assert(a * p + b - (m - 1) * p == b) by (nonlinear_arith)
                    requires
                        a == m - 1,
                ;
                assert(extend_rows(rows, pop, m)[a * p + b] == last[b]);
            }
        }
    }
}

/// Cross-product combinations come in lexicographic order, the first
/// parameter slowest: the rows over the first `k + 1` populations are the
/// rows over the first `k`, each extended in turn by every item of the next
/// population, in that population's order.
pub proof fn law_cross_product_order(pops: Seq<Seq<InstanceV>>, k: int)
    requires
        0 <= k < pops.len(),
    ensures
        cartesian_rows(pops, k + 1).len() == cartesian_rows(pops, k).len() * pops[k].len(),
        forall|a: int, b: int|
            0 <= a < cartesian_rows(pops, k).len() && 0 <= b < pops[k].len() ==> #[trigger] cartesian_rows(
                pops,
                k + 1,
            )[a * pops[k].len() + b] == cartesian_rows(pops, k)[a].push(pops[k][b]),
{
    let rows = cartesian_rows(pops, k);
    lemma_extend_rows(rows, pops[k], rows.len() as int);
}

} // verus!
