//! Facts: the evidence extracted from a real codebase that `verify` evaluates
//! laws against, and the type-checker that validates facts against a spec.
//!
//! Facts are instance populations per sort and relation tuples of instance
//! ids. Well-formed facts key each sort and each relation once, as a map does;
//! lookups by key take the first entry with that key.
use vstd::prelude::*;
use vstd::string::*;
use crate::ast::{
    FieldV, ParamV, RelationV, SortV, Spec, SpecV, Ty, TyV, Relation, fields_view,
    params_view, relations_view, strings_view,
};
use crate::checker::{
    find_relation, find_sort, has_sort, last_relation_index, lookup_relation, lookup_sort,
    sort_declared,
};
use crate::eval::{Instance, InstanceV, field_value, int_fields_view, lookup_int_field};
use crate::text::{nat_decimal, push_str, push_usize};

verus! {

/// One real entity: a stable id plus the integer field values laws read.
#[derive(Debug, PartialEq, Eq)]
pub struct FactInstance {
    pub id: String,
    pub fields: Vec<(String, i64)>,
}

impl View for FactInstance {
    type V = InstanceV;

    open spec fn view(&self) -> InstanceV {
        InstanceV { id: self.id@, fields: int_fields_view(self.fields@) }
    }
}

/// Instance populations per sort, and relation tuples (instance ids
/// positional to the relation's parameters).
#[derive(Debug, PartialEq, Eq)]
pub struct Facts {
    pub instances: Vec<(String, Vec<FactInstance>)>,
    pub tuples: Vec<(String, Vec<Vec<String>>)>,
}

/// Model of [`Facts`].
pub struct FactsV {
    pub instances: Seq<(Seq<char>, Seq<InstanceV>)>,
    pub tuples: Seq<(Seq<char>, Seq<Seq<Seq<char>>>)>,
}

/// The models of a population.
pub open spec fn population_view(v: Seq<FactInstance>) -> Seq<InstanceV> {
    v.map_values(|i: FactInstance| i@)
}

/// The models of a list of tuples.
pub open spec fn tuples_view(v: Seq<Vec<String>>) -> Seq<Seq<Seq<char>>> {
    v.map_values(|t: Vec<String>| strings_view(t@))
}

impl View for Facts {
    type V = FactsV;

    open spec fn view(&self) -> FactsV {
        FactsV {
            instances: self.instances@.map_values(
                |p: (String, Vec<FactInstance>)| (p.0@, population_view(p.1@)),
            ),
            tuples: self.tuples@.map_values(|p: (String, Vec<Vec<String>>)| (p.0@, tuples_view(p.1@))),
        }
    }
}

impl FactsV {
    /// Each sort and each relation is keyed once, and each instance names
    /// each of its fields once.
    pub open spec fn well_formed(self) -> bool {
        &&& forall|j: int, k: int|
            0 <= j < k < self.instances.len() ==> #[trigger] self.instances[j].0
                != #[trigger] self.instances[k].0
        &&& forall|j: int, k: int|
            0 <= j < k < self.tuples.len() ==> #[trigger] self.tuples[j].0 != #[trigger] self.tuples[k].0
        &&& forall|k: int, m: int|
            0 <= k < self.instances.len() && 0 <= m < self.instances[k].1.len()
                ==> (#[trigger] self.instances[k].1[m]).well_formed()
    }
}

/// The index of the first population keyed `sort` among `pops[i..]`.
pub open spec fn population_index(pops: Seq<(Seq<char>, Seq<InstanceV>)>, sort: Seq<char>, i: int) -> Option<
    int,
>
    decreases pops.len() - i,
{
    if i < 0 || i >= pops.len() {
        None
    } else if pops[i].0 == sort {
        Some(i)
    } else {
        population_index(pops, sort, i + 1)
    }
}

/// The instance population of a sort (empty if the sort has no facts).
pub open spec fn population(f: FactsV, sort: Seq<char>) -> Seq<InstanceV> {
    match population_index(f.instances, sort, 0) {
        Some(i) => f.instances[i].1,
        None => seq![],
    }
}

/// The index of the first tuple list keyed `rel` among `ts[i..]`.
pub open spec fn tuples_index(ts: Seq<(Seq<char>, Seq<Seq<Seq<char>>>)>, rel: Seq<char>, i: int) -> Option<
    int,
>
    decreases ts.len() - i,
{
    if i < 0 || i >= ts.len() {
        None
    } else if ts[i].0 == rel {
        Some(i)
    } else {
        tuples_index(ts, rel, i + 1)
    }
}

/// The tuples the facts supply for a relation, if any.
pub open spec fn relation_tuples(f: FactsV, rel: Seq<char>) -> Option<Seq<Seq<Seq<char>>>> {
    match tuples_index(f.tuples, rel, 0) {
        Some(i) => Some(f.tuples[i].1),
        None => None,
    }
}

/// The index of the first instance with id `id` among `pop[i..]`.
pub open spec fn instance_index(pop: Seq<InstanceV>, id: Seq<char>, i: int) -> Option<int>
    decreases pop.len() - i,
{
    if i < 0 || i >= pop.len() {
        None
    } else if pop[i].id == id {
        Some(i)
    } else {
        instance_index(pop, id, i + 1)
    }
}

/// The instance of `sort` with id `id`, if declared.
pub open spec fn spec_resolve_id(f: FactsV, sort: Seq<char>, id: Seq<char>) -> Option<InstanceV> {
    let pop = population(f, sort);
    match instance_index(pop, id, 0) {
        Some(i) => Some(pop[i]),
        None => None,
    }
}

/// Whether some relation is named `n`.
pub open spec fn has_relation(rels: Seq<RelationV>, n: Seq<char>) -> bool {
    exists|k: int| 0 <= k < rels.len() && #[trigger] rels[k].name == n
}

/// One way facts fail to match a spec.
pub enum FactError {
    UnknownSort { sort: Seq<char> },
    UnknownRelation { relation: Seq<char> },
    MissingField { id: Seq<char>, sort: Seq<char>, field: Seq<char> },
    TupleArity { idx: nat, relation: Seq<char>, arity: nat, params: nat },
    UnknownId { idx: nat, relation: Seq<char>, id: Seq<char>, sort: Seq<char> },
}

/// The message reported for a fact error.
pub open spec fn fact_error_message(e: FactError) -> Seq<char> {
    match e {
        FactError::UnknownSort { sort } => "facts: `instances` names unknown sort `"@ + sort
            + "`"@,
        FactError::UnknownRelation { relation } => "facts: `tuples` names unknown relation `"@
            + relation + "`"@,
        FactError::MissingField { id, sort, field } => "facts: instance `"@ + id + "` of sort `"@
            + sort + "` is missing Int field `"@ + field + "`"@,
        FactError::TupleArity { idx, relation, arity, params } => "facts: tuple "@ + nat_decimal(
            idx,
        ) + " of relation `"@ + relation + "` has arity "@ + nat_decimal(arity)
            + " but the relation takes "@ + nat_decimal(params),
        FactError::UnknownId { idx, relation, id, sort } => "facts: tuple "@ + nat_decimal(idx)
            + " of relation `"@ + relation + "` references id `"@ + id
            + "` not declared as a `"@ + sort + "` instance"@,
    }
}

/// The messages of a list of fact errors.
pub open spec fn fact_messages(es: Seq<FactError>) -> Seq<Seq<char>> {
    es.map_values(|e: FactError| fact_error_message(e))
}

/// Rule 1 for populations `f.instances[..k]`: each key names a declared sort.
pub open spec fn unknown_sort_errors(s: SpecV, f: FactsV, k: int) -> Seq<FactError>
    decreases k,
{
    if k <= 0 {
        seq![]
    } else {
        unknown_sort_errors(s, f, k - 1) + if has_sort(s.sorts, f.instances[k - 1].0) {
            seq![]
        } else {
            seq![FactError::UnknownSort { sort: f.instances[k - 1].0 }]
        }
    }
}

/// Rule 1 for tuple lists `f.tuples[..k]`: each key names a declared relation.
pub open spec fn unknown_relation_errors(s: SpecV, f: FactsV, k: int) -> Seq<FactError>
    decreases k,
{
    if k <= 0 {
        seq![]
    } else {
        unknown_relation_errors(s, f, k - 1) + if has_relation(s.relations, f.tuples[k - 1].0) {
            seq![]
        } else {
            seq![FactError::UnknownRelation { relation: f.tuples[k - 1].0 }]
        }
    }
}

/// Rule 2 for one instance: the missing `Int` fields among `fields[..j]`.
pub open spec fn instance_field_errors(
    fields: Seq<FieldV>,
    sort: Seq<char>,
    inst: InstanceV,
    j: int,
) -> Seq<FactError>
    decreases j,
{
    if j <= 0 {
        seq![]
    } else {
        instance_field_errors(fields, sort, inst, j - 1) + if fields[j - 1].ty == TyV::Int
            && field_value(inst.fields, fields[j - 1].name, 0) is None {
            seq![FactError::MissingField { id: inst.id, sort, field: fields[j - 1].name }]
        } else {
            seq![]
        }
    }
}

/// Rule 2 for the instances `pop[..m]` of the sort `so` keyed `sort`.
pub open spec fn population_field_errors(so: SortV, sort: Seq<char>, pop: Seq<InstanceV>, m: int) -> Seq<
    FactError,
>
    decreases m,
{
    if m <= 0 {
        seq![]
    } else {
        population_field_errors(so, sort, pop, m - 1) + instance_field_errors(
            so.fields,
            sort,
            pop[m - 1],
            so.fields.len() as int,
        )
    }
}

/// Rule 2 for populations `f.instances[..k]` whose key names a sort.
pub open spec fn missing_field_errors(s: SpecV, f: FactsV, k: int) -> Seq<FactError>
    decreases k,
{
    if k <= 0 {
        seq![]
    } else {
        missing_field_errors(s, f, k - 1) + match find_sort(s.sorts, f.instances[k - 1].0) {
            None => seq![],
            Some(so) => population_field_errors(
                so,
                f.instances[k - 1].0,
                f.instances[k - 1].1,
                f.instances[k - 1].1.len() as int,
            ),
        }
    }
}

/// Rule 3 for one tuple of matching arity: its elements `tuple[..j]` resolve.
pub open spec fn tuple_id_errors(
    f: FactsV,
    rel: Seq<char>,
    params: Seq<ParamV>,
    idx: nat,
    tuple: Seq<Seq<char>>,
    j: int,
) -> Seq<FactError>
    decreases j,
{
    if j <= 0 {
        seq![]
    } else {
        tuple_id_errors(f, rel, params, idx, tuple, j - 1) + if spec_resolve_id(
            f,
            params[j - 1].sort,
            tuple[j - 1],
        ) is None {
            seq![
                FactError::UnknownId {
                    idx,
                    relation: rel,
                    id: tuple[j - 1],
                    sort: params[j - 1].sort,
                },
            ]
        } else {
            seq![]
        }
    }
}

/// Rule 3 for one tuple: arity, then each element.
pub open spec fn tuple_errors(f: FactsV, rel: Seq<char>, params: Seq<ParamV>, idx: nat, tuple: Seq<Seq<char>>) -> Seq<
    FactError,
> {
    if tuple.len() != params.len() {
        seq![FactError::TupleArity { idx, relation: rel, arity: tuple.len(), params: params.len() }]
    } else {
        tuple_id_errors(f, rel, params, idx, tuple, tuple.len() as int)
    }
}

/// Rule 3 for the tuples `ts[..m]` of a relation.
pub open spec fn relation_tuple_errors(
    f: FactsV,
    rel: Seq<char>,
    params: Seq<ParamV>,
    ts: Seq<Seq<Seq<char>>>,
    m: int,
) -> Seq<FactError>
    decreases m,
{
    if m <= 0 {
        seq![]
    } else {
        relation_tuple_errors(f, rel, params, ts, m - 1) + tuple_errors(
            f,
            rel,
            params,
            (m - 1) as nat,
            ts[m - 1],
        )
    }
}

/// Rule 3 for tuple lists `f.tuples[..k]` whose key names a relation.
pub open spec fn tuple_list_errors(s: SpecV, f: FactsV, k: int) -> Seq<FactError>
    decreases k,
{
    if k <= 0 {
        seq![]
    } else {
        tuple_list_errors(s, f, k - 1) + match find_relation(s.relations, f.tuples[k - 1].0) {
            None => seq![],
            Some(r) => relation_tuple_errors(
                f,
                f.tuples[k - 1].0,
                r.params,
                f.tuples[k - 1].1,
                f.tuples[k - 1].1.len() as int,
            ),
        }
    }
}

/// Every way the facts fail to match the spec, in the order they are reported.
pub open spec fn facts_errors(s: SpecV, f: FactsV) -> Seq<FactError> {
    unknown_sort_errors(s, f, f.instances.len() as int) + unknown_relation_errors(
        s,
        f,
        f.tuples.len() as int,
    ) + missing_field_errors(s, f, f.instances.len() as int) + tuple_list_errors(
        s,
        f,
        f.tuples.len() as int,
    )
}

/// Messages of a concatenation are the concatenation of the messages.
pub proof fn lemma_fact_messages_concat(a: Seq<FactError>, b: Seq<FactError>)
    ensures
        fact_messages(a + b) == fact_messages(a) + fact_messages(b),
{
    assert(fact_messages(a + b) =~= fact_messages(a) + fact_messages(b));
}

/// Appends the message of one fact error.
fn push_fact_error(errors: &mut Vec<String>, m: String, Ghost(e): Ghost<FactError>)
    requires
        m@ == fact_error_message(e),
    ensures
        strings_view(final(errors)@) == strings_view(old(errors)@) + fact_messages(seq![e]),
{
    errors.push(m);
    assert(strings_view(errors@) =~= strings_view(old(errors)@) + fact_messages(seq![e]));
}

/// A copy of named integer fields.
fn copy_int_fields(fields: &Vec<(String, i64)>) -> (r: Vec<(String, i64)>)
    ensures
        int_fields_view(r@) == int_fields_view(fields@),
{
    let mut r: Vec<(String, i64)> = Vec::new();
    let mut k: usize = 0;
    while k < fields.len()
        invariant
            k <= fields@.len(),
            r@.len() == k,
            int_fields_view(r@) == int_fields_view(fields@).subrange(0, k as int),
        decreases fields.len() - k,
    {
        let name = fields[k].0.clone();
        let ghost old_r = r@;
        r.push((name, fields[k].1));
        proof {
            assert(r@[k as int].0@ == fields@[k as int].0@);
            assert(int_fields_view(r@)[k as int] == int_fields_view(fields@)[k as int]);
            assert forall|j: int| 0 <= j < k implies int_fields_view(r@)[j] == int_fields_view(fields@)[j] by {
                assert(r@[j] == old_r[j]);
                assert(int_fields_view(old_r)[j] == int_fields_view(fields@).subrange(0, k as int)[j]);
            }
        }
        k = k + 1;
        assert(int_fields_view(r@) =~= int_fields_view(fields@).subrange(0, k as int));
    }
    assert(int_fields_view(fields@).subrange(0, k as int) =~= int_fields_view(fields@));
    r
}

impl FactInstance {
    /// The runtime instance the interpreter binds over.
    pub fn to_instance(&self) -> (r: Instance)
        ensures
            r@ == self@,
    {
        Instance { id: self.id.clone(), fields: copy_int_fields(&self.fields) }
    }
}

/// The instance population of a sort (empty if the sort has no facts).
pub fn instances_of<'a>(facts: &'a Facts, sort: &str) -> (r: &'a [FactInstance])
    ensures
        population_view(r@) == population(facts@, sort@),
{
    let key = String::from_str(sort);
    let ghost pops = facts@.instances;
    let mut k: usize = 0;
    while k < facts.instances.len()
        invariant
            pops == facts@.instances,
            key@ == sort@,
            k <= facts.instances@.len(),
            population_index(pops, sort@, 0) == population_index(pops, sort@, k as int),
        decreases facts.instances.len() - k,
    {
        if facts.instances[k].0 == key {
            return facts.instances[k].1.as_slice();
        }
        k = k + 1;
    }
    assert(population_view(seq![]) =~= seq![]);
    &[]
}

/// Finds an instance of `sort` by id.
pub fn resolve_id<'a>(facts: &'a Facts, sort: &str, id: &str) -> (r: Option<&'a FactInstance>)
    ensures
        match r {
            Some(i) => spec_resolve_id(facts@, sort@, id@) == Some(i@),
            None => spec_resolve_id(facts@, sort@, id@) is None,
        },
{
    let pop = instances_of(facts, sort);
    let key = String::from_str(id);
    let ghost pv = population_view(pop@);
    let mut k: usize = 0;
    while k < pop.len()
        invariant
            pv == population_view(pop@),
            population(facts@, sort@) == pv,
            key@ == id@,
            k <= pop@.len(),
            instance_index(pv, id@, 0) == instance_index(pv, id@, k as int),
        decreases pop.len() - k,
    {
        if pop[k].id == key {
            assert(pv[k as int] == pop@[k as int]@);
            assert(instance_index(pv, id@, k as int) == Some(k as int));
            assert(population(facts@, sort@) == pv);
            return Some(&pop[k]);
        }
        k = k + 1;
    }
    None
}

/// Whether some relation is named `name`.
fn relation_declared(rels: &Vec<Relation>, name: &String) -> (b: bool)
    ensures
        b == has_relation(relations_view(rels@), name@),
{
    let ghost rs = relations_view(rels@);
    let mut k: usize = 0;
    while k < rels.len()
        invariant
            rs == relations_view(rels@),
            k <= rels@.len(),
            forall|j: int| 0 <= j < k ==> #[trigger] rs[j].name != name@,
        decreases rels.len() - k,
    {
        if rels[k].name == *name {
            assert(rs[k as int].name == name@);
            return true;
        }
        k = k + 1;
    }
    false
}

/// Type-checks facts against a spec, collecting every error:
/// 1. every population key names a declared sort, every tuple key a declared relation;
/// 2. each instance supplies every `Int` field its sort declares;
/// 3. each tuple has its relation's arity, and each element is the id of an
///    instance of the corresponding parameter's sort.
#[verifier::loop_isolation(false)]
pub fn check_facts(spec: &Spec, facts: &Facts) -> (r: Result<(), Vec<String>>)
    ensures
        match r {
            Ok(_) => facts_errors(spec@, facts@).len() == 0,
            Err(v) => facts_errors(spec@, facts@).len() > 0 && strings_view(v@) == fact_messages(
                facts_errors(spec@, facts@),
            ),
        },
{
    let ghost s = spec@;
    let ghost f = facts@;
    let mut errors: Vec<String> = Vec::new();
    assert(strings_view(errors@) =~= fact_messages(unknown_sort_errors(s, f, 0)));
    let mut k: usize = 0;
    while k < facts.instances.len()
        invariant
            k <= facts.instances@.len(),
            strings_view(errors@) == fact_messages(unknown_sort_errors(s, f, k as int)),
        decreases facts.instances.len() - k,
    {
        let ghost before = unknown_sort_errors(s, f, k as int);
        let key = &facts.instances[k].0;
        if !sort_declared(&spec.sorts, key) {
            let mut m = String::new();
            push_str(&mut m, "facts: `instances` names unknown sort `");
            push_str(&mut m, key.as_str());
            push_str(&mut m, "`");
            let ghost e = FactError::UnknownSort { sort: key@ };
            push_fact_error(&mut errors, m, Ghost(e));
            proof {
                lemma_fact_messages_concat(before, seq![e]);
            }
        } else {
            assert(unknown_sort_errors(s, f, k + 1) =~= before);
        }
        k = k + 1;
    }
    let ghost p1 = unknown_sort_errors(s, f, f.instances.len() as int);
    assert(strings_view(errors@) =~= fact_messages(p1 + unknown_relation_errors(s, f, 0)));
    let mut k: usize = 0;
    while k < facts.tuples.len()
        invariant
            k <= facts.tuples@.len(),
            strings_view(errors@) == fact_messages(p1 + unknown_relation_errors(s, f, k as int)),
        decreases facts.tuples.len() - k,
    {
        let ghost before = p1 + unknown_relation_errors(s, f, k as int);
        let key = &facts.tuples[k].0;
        if !relation_declared(&spec.relations, key) {
            let mut m = String::new();
            push_str(&mut m, "facts: `tuples` names unknown relation `");
            push_str(&mut m, key.as_str());
            push_str(&mut m, "`");
            let ghost e = FactError::UnknownRelation { relation: key@ };
            push_fact_error(&mut errors, m, Ghost(e));
            proof {
                lemma_fact_messages_concat(before, seq![e]);
                assert(p1 + unknown_relation_errors(s, f, k + 1) =~= before + seq![e]);
            }
        } else {
            assert(p1 + unknown_relation_errors(s, f, k + 1) =~= before);
        }
        k = k + 1;
    }
    let ghost p2 = p1 + unknown_relation_errors(s, f, f.tuples.len() as int);
    assert(strings_view(errors@) =~= fact_messages(p2 + missing_field_errors(s, f, 0)));
    let mut k: usize = 0;
    while k < facts.instances.len()
        invariant
            k <= facts.instances@.len(),
            strings_view(errors@) == fact_messages(p2 + missing_field_errors(s, f, k as int)),
        decreases facts.instances.len() - k,
    {
        let ghost before = p2 + missing_field_errors(s, f, k as int);
        let key = &facts.instances[k].0;
        let pop = &facts.instances[k].1;
        let ghost pv = f.instances[k as int].1;
        match lookup_sort(&spec.sorts, key) {
            None => {
                assert(p2 + missing_field_errors(s, f, k + 1) =~= before);
            },
            Some(si) => {
                let sort = &spec.sorts[si];
                let ghost so = s.sorts[si as int];
                assert(find_sort(s.sorts, key@) == Some(so));
                let mut m_i: usize = 0;
                assert(before + population_field_errors(so, key@, pv, 0) =~= before);
                while m_i < pop.len()
                    invariant
                        m_i <= pop@.len(),
                        pv == population_view(pop@),
                        strings_view(errors@) == fact_messages(
                            before + population_field_errors(so, key@, pv, m_i as int),
                        ),
                    decreases pop.len() - m_i,
                {
                    let inst = &pop[m_i];
                    let ghost iv = pv[m_i as int];
                    let ghost before_i = before + population_field_errors(so, key@, pv, m_i as int);
                    let mut j: usize = 0;
                    assert(before_i + instance_field_errors(so.fields, key@, iv, 0) =~= before_i);
                    while j < sort.fields.len()
                        invariant
                            j <= sort.fields@.len(),
                            so.fields == fields_view(sort.fields@),
                            iv == inst@,
                            strings_view(errors@) == fact_messages(
                                before_i + instance_field_errors(so.fields, key@, iv, j as int),
                            ),
                        decreases sort.fields.len() - j,
                    {
                        let ghost acc = before_i + instance_field_errors(so.fields, key@, iv, j as int);
                        let field = &sort.fields[j];
                        let is_int = match field.ty {
                            Ty::Int => true,
                            _ => false,
                        };
                        if is_int && lookup_int_field(&inst.fields, &field.name).is_none() {
                            let mut m = String::new();
                            push_str(&mut m, "facts: instance `");
                            push_str(&mut m, inst.id.as_str());
                            push_str(&mut m, "` of sort `");
                            push_str(&mut m, key.as_str());
                            push_str(&mut m, "` is missing Int field `");
                            push_str(&mut m, field.name.as_str());
                            push_str(&mut m, "`");
                            let ghost e = FactError::MissingField { id: iv.id, sort: key@, field: field.name@ };
                            push_fact_error(&mut errors, m, Ghost(e));
                            proof {
                                lemma_fact_messages_concat(acc, seq![e]);
                                assert(before_i + instance_field_errors(so.fields, key@, iv, j + 1) =~= acc + seq![e]);
                            }
                        } else {
                            assert(before_i + instance_field_errors(so.fields, key@, iv, j + 1) =~= acc);
                        }
                        j = j + 1;
                    }
                    assert(before + population_field_errors(so, key@, pv, m_i + 1) =~= before_i
                        + instance_field_errors(so.fields, key@, iv, so.fields.len() as int));
                    m_i = m_i + 1;
                }
                assert(p2 + missing_field_errors(s, f, k + 1) =~= before + population_field_errors(
                    so,
                    key@,
                    pv,
                    pv.len() as int,
                ));
            },
        }
        k = k + 1;
    }
    let ghost p3 = p2 + missing_field_errors(s, f, f.instances.len() as int);
    assert(strings_view(errors@) =~= fact_messages(p3 + tuple_list_errors(s, f, 0)));
    let mut k: usize = 0;
    while k < facts.tuples.len()
        invariant
            k <= facts.tuples@.len(),
            strings_view(errors@) == fact_messages(p3 + tuple_list_errors(s, f, k as int)),
        decreases facts.tuples.len() - k,
    {
        let ghost before = p3 + tuple_list_errors(s, f, k as int);
        let key = &facts.tuples[k].0;
        let list = &facts.tuples[k].1;
        let ghost tv = f.tuples[k as int].1;
        match lookup_relation(&spec.relations, key) {
            None => {
                assert(p3 + tuple_list_errors(s, f, k + 1) =~= before);
            },
            Some(ri) => {
                let rel = &spec.relations[ri];
                let ghost params = s.relations[ri as int].params;
                assert(find_relation(s.relations, key@) == Some(s.relations[ri as int]));
                let mut idx: usize = 0;
                assert(before + relation_tuple_errors(f, key@, params, tv, 0) =~= before);
                while idx < list.len()
                    invariant
                        idx <= list@.len(),
                        tv == tuples_view(list@),
                        params == params_view(rel.params@),
                        strings_view(errors@) == fact_messages(
                            before + relation_tuple_errors(f, key@, params, tv, idx as int),
                        ),
                    decreases list.len() - idx,
                {
                    let tuple = &list[idx];
                    let ghost t = tv[idx as int];
                    let ghost acc = before + relation_tuple_errors(f, key@, params, tv, idx as int);
                    if tuple.len() != rel.params.len() {
                        let mut m = String::new();
                        push_str(&mut m, "facts: tuple ");
                        push_usize(&mut m, idx);
                        push_str(&mut m, " of relation `");
                        push_str(&mut m, key.as_str());
                        push_str(&mut m, "` has arity ");
                        push_usize(&mut m, tuple.len());
                        push_str(&mut m, " but the relation takes ");
                        push_usize(&mut m, rel.params.len());
                        let ghost e = FactError::TupleArity {
                            idx: idx as nat,
                            relation: key@,
                            arity: t.len(),
                            params: params.len(),
                        };
                        push_fact_error(&mut errors, m, Ghost(e));
                        proof {
                            lemma_fact_messages_concat(acc, seq![e]);
                            assert(before + relation_tuple_errors(f, key@, params, tv, idx + 1) =~= acc + seq![e]);
                        }
                    } else {
                        let mut j: usize = 0;
                        assert(acc + tuple_id_errors(f, key@, params, idx as nat, t, 0) =~= acc);
                        while j < tuple.len()
                            invariant
                                j <= tuple@.len(),
                                tuple@.len() == rel.params@.len(),
                                t == strings_view(tuple@),
                                params == params_view(rel.params@),
                                strings_view(errors@) == fact_messages(
                                    acc + tuple_id_errors(f, key@, params, idx as nat, t, j as int),
                                ),
                            decreases tuple.len() - j,
                        {
                            let ghost acc2 = acc + tuple_id_errors(f, key@, params, idx as nat, t, j as int);
                            let param = &rel.params[j];
                            let elem = &tuple[j];
                            if resolve_id(facts, param.sort.as_str(), elem.as_str()).is_none() {
                                let mut m = String::new();
                                push_str(&mut m, "facts: tuple ");
                                push_usize(&mut m, idx);
                                push_str(&mut m, " of relation `");
                                push_str(&mut m, key.as_str());
                                push_str(&mut m, "` references id `");
                                push_str(&mut m, elem.as_str());
                                push_str(&mut m, "` not declared as a `");
                                push_str(&mut m, param.sort.as_str());
                                push_str(&mut m, "` instance");
                                let ghost e = FactError::UnknownId {
                                    idx: idx as nat,
                                    relation: key@,
                                    id: elem@,
                                    sort: param.sort@,
                                };
                                push_fact_error(&mut errors, m, Ghost(e));
                                proof {
                                    lemma_fact_messages_concat(acc2, seq![e]);
                                    assert(acc + tuple_id_errors(f, key@, params, idx as nat, t, j + 1)
                                        =~= acc2 + seq![e]);
                                }
                            } else {
                                assert(acc + tuple_id_errors(f, key@, params, idx as nat, t, j + 1)
                                    =~= acc2);
                            }
                            j = j + 1;
                        }
                        assert(before + relation_tuple_errors(f, key@, params, tv, idx + 1) =~= acc
                            + tuple_id_errors(f, key@, params, idx as nat, t, t.len() as int));
                    }
                    idx = idx + 1;
                }
                assert(p3 + tuple_list_errors(s, f, k + 1) =~= before + relation_tuple_errors(
                    f,
                    key@,
                    params,
                    tv,
                    tv.len() as int,
                ));
            },
        }
        k = k + 1;
    }
    assert(p3 + tuple_list_errors(s, f, f.tuples.len() as int) =~= facts_errors(s, f));
    if errors.len() == 0 {
        Ok(())
    } else {
        Err(errors)
    }
}

/// Each instance of a sort supplies every `Int` field the sort declares.
pub open spec fn instance_complete(so: SortV, inst: InstanceV) -> bool {
    forall|j: int|
        0 <= j < so.fields.len() && (#[trigger] so.fields[j]).ty == TyV::Int ==> field_value(
            inst.fields,
            so.fields[j].name,
            0,
        ) is Some
}

/// A tuple has its relation's arity and each element is the id of an
/// instance of the corresponding parameter's sort.
pub open spec fn tuple_resolves(f: FactsV, r: RelationV, t: Seq<Seq<char>>) -> bool {
    &&& t.len() == r.params.len()
    &&& forall|j: int| 0 <= j < t.len() ==> spec_resolve_id(f, r.params[j].sort, #[trigger] t[j]) is Some
}

/// Facts conform to a spec: every key names a declared sort or relation,
/// every instance of a declared sort has all its `Int` fields, and every
/// tuple of a declared relation has its arity and resolves.
pub open spec fn facts_conform(s: SpecV, f: FactsV) -> bool {
    &&& forall|k: int| 0 <= k < f.instances.len() ==> has_sort(s.sorts, (#[trigger] f.instances[k]).0)
    &&& forall|k: int| 0 <= k < f.tuples.len() ==> has_relation(s.relations, (#[trigger] f.tuples[k]).0)
    &&& forall|k: int, m: int|
        0 <= k < f.instances.len() && 0 <= m < f.instances[k].1.len() ==> (find_sort(
            s.sorts,
            f.instances[k].0,
        ) matches Some(so) ==> instance_complete(so, #[trigger] f.instances[k].1[m]))
    &&& forall|k: int, m: int|
        0 <= k < f.tuples.len() && 0 <= m < f.tuples[k].1.len() ==> (find_relation(
            s.relations,
            f.tuples[k].0,
        ) matches Some(r) ==> tuple_resolves(f, r, #[trigger] f.tuples[k].1[m]))
}

proof fn lemma_unknown_sorts_empty(s: SpecV, f: FactsV, k: int)
    requires
        0 <= k <= f.instances.len(),
    ensures
        unknown_sort_errors(s, f, k).len() == 0 <==> forall|i: int|
            0 <= i < k ==> has_sort(s.sorts, (#[trigger] f.instances[i]).0),
    decreases k,
{
    if k > 0 {
        lemma_unknown_sorts_empty(s, f, k - 1);
    }
}

proof fn lemma_unknown_relations_empty(s: SpecV, f: FactsV, k: int)
    requires
        0 <= k <= f.tuples.len(),
    ensures
        unknown_relation_errors(s, f, k).len() == 0 <==> forall|i: int|
            0 <= i < k ==> has_relation(s.relations, (#[trigger] f.tuples[i]).0),
    decreases k,
{
    if k > 0 {
        lemma_unknown_relations_empty(s, f, k - 1);
    }
}

proof fn lemma_instance_fields_empty(fields: Seq<FieldV>, sort: Seq<char>, inst: InstanceV, j: int)
    requires
        0 <= j <= fields.len(),
    ensures
        instance_field_errors(fields, sort, inst, j).len() == 0 <==> forall|m: int|
            0 <= m < j && (#[trigger] fields[m]).ty == TyV::Int ==> field_value(
                inst.fields,
                fields[m].name,
                0,
            ) is Some,
    decreases j,
{
    if j > 0 {
        lemma_instance_fields_empty(fields, sort, inst, j - 1);
    }
}

proof fn lemma_population_fields_empty(so: SortV, sort: Seq<char>, pop: Seq<InstanceV>, m: int)
    requires
        0 <= m <= pop.len(),
    ensures
        population_field_errors(so, sort, pop, m).len() == 0 <==> forall|i: int|
            0 <= i < m ==> instance_complete(so, #[trigger] pop[i]),
    decreases m,
{
    if m > 0 {
        lemma_population_fields_empty(so, sort, pop, m - 1);
        lemma_instance_fields_empty(so.fields, sort, pop[m - 1], so.fields.len() as int);
    }
}

proof fn lemma_missing_fields_empty(s: SpecV, f: FactsV, k: int)
    requires
        0 <= k <= f.instances.len(),
    ensures
        missing_field_errors(s, f, k).len() == 0 <==> forall|i: int, m: int|
            0 <= i < k && 0 <= m < f.instances[i].1.len() ==> (find_sort(
                s.sorts,
                f.instances[i].0,
            ) matches Some(so) ==> instance_complete(so, #[trigger] f.instances[i].1[m])),
    decreases k,
{
    if k > 0 {
        lemma_missing_fields_empty(s, f, k - 1);
        if let Some(so) = find_sort(s.sorts, f.instances[k - 1].0) {
            let pop = f.instances[k - 1].1;
            lemma_population_fields_empty(so, f.instances[k - 1].0, pop, pop.len() as int);
            if missing_field_errors(s, f, k).len() != 0 {
                if forall|i: int, m: int|
                    0 <= i < k && 0 <= m < f.instances[i].1.len() ==> (find_sort(
                        s.sorts,
                        f.instances[i].0,
                    ) matches Some(so) ==> instance_complete(so, #[trigger] f.instances[i].1[m])) {
                    assert forall|m: int| 0 <= m < pop.len() implies instance_complete(
                        so,
                        #[trigger] pop[m],
                    ) by {
                        assert(pop[m] == f.instances[k - 1].1[m]);
                    }
                }
            }
        }
    }
}

proof fn lemma_tuple_ids_empty(
    f: FactsV,
    rel: Seq<char>,
    params: Seq<ParamV>,
    idx: nat,
    t: Seq<Seq<char>>,
    j: int,
)
    requires
        0 <= j <= t.len(),
        t.len() == params.len(),
    ensures
        tuple_id_errors(f, rel, params, idx, t, j).len() == 0 <==> forall|m: int|
            0 <= m < j ==> spec_resolve_id(f, params[m].sort, #[trigger] t[m]) is Some,
    decreases j,
{
    if j > 0 {
        lemma_tuple_ids_empty(f, rel, params, idx, t, j - 1);
    }
}

proof fn lemma_relation_tuples_empty(f: FactsV, r: RelationV, ts: Seq<Seq<Seq<char>>>, m: int)
    requires
        0 <= m <= ts.len(),
    ensures
        relation_tuple_errors(f, r.name, r.params, ts, m).len() == 0 <==> forall|i: int|
            0 <= i < m ==> tuple_resolves(f, r, #[trigger] ts[i]),
    decreases m,
{
    if m > 0 {
        lemma_relation_tuples_empty(f, r, ts, m - 1);
        let t = ts[m - 1];
        if t.len() == r.params.len() {
            lemma_tuple_ids_empty(f, r.name, r.params, (m - 1) as nat, t, t.len() as int);
        }
    }
}

proof fn lemma_tuple_lists_empty(s: SpecV, f: FactsV, k: int)
    requires
        0 <= k <= f.tuples.len(),
    ensures
        tuple_list_errors(s, f, k).len() == 0 <==> forall|i: int, m: int|
            0 <= i < k && 0 <= m < f.tuples[i].1.len() ==> (find_relation(
                s.relations,
                f.tuples[i].0,
            ) matches Some(r) ==> tuple_resolves(f, r, #[trigger] f.tuples[i].1[m])),
    decreases k,
{
    if k > 0 {
        lemma_tuple_lists_empty(s, f, k - 1);
        if let Some(r) = find_relation(s.relations, f.tuples[k - 1].0) {
            let ts = f.tuples[k - 1].1;
            lemma_last_relation_named(s.relations, f.tuples[k - 1].0, s.relations.len() as int);
            assert(r.name == f.tuples[k - 1].0);
            lemma_relation_tuples_empty(f, r, ts, ts.len() as int);
            if tuple_list_errors(s, f, k).len() != 0 {
                if forall|i: int, m: int|
                    0 <= i < k && 0 <= m < f.tuples[i].1.len() ==> (find_relation(
                        s.relations,
                        f.tuples[i].0,
                    ) matches Some(r) ==> tuple_resolves(f, r, #[trigger] f.tuples[i].1[m])) {
                    assert forall|m: int| 0 <= m < ts.len() implies tuple_resolves(
                        f,
                        r,
                        #[trigger] ts[m],
                    ) by {
                        assert(ts[m] == f.tuples[k - 1].1[m]);
                    }
                }
            }
        }
    }
}

proof fn lemma_last_relation_named(rels: Seq<RelationV>, n: Seq<char>, k: int)
    requires
        0 <= k <= rels.len(),
    ensures
        last_relation_index(rels, n, k) matches Some(i) ==> 0 <= i < k && rels[i].name == n,
    decreases k,
{
    if k > 0 {
        lemma_last_relation_named(rels, n, k - 1);
    }
}

/// Facts pass the type-check exactly when they conform to the spec: every
/// key names a declared sort or relation, every instance of a declared sort
/// supplies all its `Int` fields, and every tuple of a declared relation has
/// its arity and names only declared instances of the parameter sorts.
pub proof fn law_check_facts_passes_iff_conform(s: SpecV, f: FactsV)
    ensures
        facts_errors(s, f).len() == 0 <==> facts_conform(s, f),
{
    lemma_unknown_sorts_empty(s, f, f.instances.len() as int);
    lemma_unknown_relations_empty(s, f, f.tuples.len() as int);
    lemma_missing_fields_empty(s, f, f.instances.len() as int);
    lemma_tuple_lists_empty(s, f, f.tuples.len() as int);
}

proof fn lemma_population_index_at(f: FactsV, k: int, i: int)
    requires
        f.well_formed(),
        0 <= i <= k < f.instances.len(),
    ensures
        population_index(f.instances, f.instances[k].0, i) == Some(k),
    decreases k - i,
{
    if i < k {
        assert(f.instances[i].0 != f.instances[k].0);
        lemma_population_index_at(f, k, i + 1);
    }
}

proof fn lemma_tuples_index_at(f: FactsV, k: int, i: int)
    requires
        f.well_formed(),
        0 <= i <= k < f.tuples.len(),
    ensures
        tuples_index(f.tuples, f.tuples[k].0, i) == Some(k),
    decreases k - i,
{
    if i < k {
        assert(f.tuples[i].0 != f.tuples[k].0);
        lemma_tuples_index_at(f, k, i + 1);
    }
}

/// In well-formed facts, looking a sort up by its key gives the population
/// stored under that key, and looking a relation up gives its tuples: the
/// facts behave as the two maps they stand for.
pub proof fn law_well_formed_facts_are_maps(f: FactsV)
    requires
        f.well_formed(),
    ensures
        forall|k: int|
            0 <= k < f.instances.len() ==> population(f, #[trigger] f.instances[k].0)
                == f.instances[k].1,
        forall|k: int|
            0 <= k < f.tuples.len() ==> relation_tuples(f, #[trigger] f.tuples[k].0) == Some(
                f.tuples[k].1,
            ),
{
    assert forall|k: int| 0 <= k < f.instances.len() implies population(
        f,
        #[trigger] f.instances[k].0,
    ) == f.instances[k].1 by {
        lemma_population_index_at(f, k, 0);
    }
    assert forall|k: int| 0 <= k < f.tuples.len() implies relation_tuples(
        f,
        #[trigger] f.tuples[k].0,
    ) == Some(f.tuples[k].1) by {
        lemma_tuples_index_at(f, k, 0);
    }
}

} // verus!
