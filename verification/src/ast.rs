//! The abstract syntax tree of a `.tent` spec, and its mathematical model.
//!
//! A spec is three lists: sorts, relations and laws. Every later stage reads
//! this tree, never the raw text or tokens.
use vstd::prelude::*;

verus! {

/// A complete parsed spec.
#[derive(Debug, PartialEq)]
pub struct Spec {
    pub sorts: Vec<Sort>,
    pub relations: Vec<Relation>,
    pub laws: Vec<Law>,
}

/// `sort MediaItem` or `sort TemporalPoint { media: MediaItem, t: Int }`.
#[derive(Debug, PartialEq)]
pub struct Sort {
    pub name: String,
    pub fields: Vec<Field>,
    pub line: usize,
}

/// A single field inside a sort, e.g. `t: Int`.
#[derive(Debug, PartialEq)]
pub struct Field {
    pub name: String,
    pub ty: Ty,
}

/// A field's type: the built-in `Int` or a reference to another sort.
#[derive(Debug, PartialEq)]
pub enum Ty {
    Int,
    Sort(String),
}

/// `relation point_in_interval(p: TemporalPoint, i: TemporalInterval)`, or,
/// with `forbidden` in front, a relation that no fact may match.
#[derive(Debug, PartialEq)]
pub struct Relation {
    pub name: String,
    pub params: Vec<Param>,
    pub line: usize,
    pub forbidden: bool,
}

/// One parameter of a relation, e.g. `p: TemporalPoint`.
#[derive(Debug, PartialEq)]
pub struct Param {
    pub name: String,
    pub sort: String,
}

/// `law point_in_interval(p, i) { ...clauses... }`; the clauses are AND-ed.
#[derive(Debug, PartialEq)]
pub struct Law {
    pub relation: String,
    pub args: Vec<String>,
    pub clauses: Vec<Clause>,
    pub line: usize,
}

/// One line of a law body: a comparison, or an implication `ante => cons`.
#[derive(Debug, PartialEq)]
pub enum Clause {
    Compare(Pred),
    Implies { ante: Pred, cons: Pred, line: usize },
}

/// One comparison, e.g. `i.t0 <= p.t`.
#[derive(Debug, PartialEq)]
pub struct Pred {
    pub lhs: Expr,
    pub op: CmpOp,
    pub rhs: Expr,
    pub line: usize,
}

/// A comparison operator.
#[derive(Debug, Clone, Copy, PartialEq, Eq, Structural)]
pub enum CmpOp {
    Eq,
    Le,
    Lt,
    Ge,
    Gt,
}

/// An expression on either side of a comparison.
#[derive(Debug, PartialEq)]
pub enum Expr {
    /// `p.media`: a field of a law argument.
    Field { arg: String, field: String },
    /// An integer literal.
    Int(i64),
    /// A bare argument name, compared as a whole entity.
    Arg(String),
}

/// Model of [`Spec`].
pub struct SpecV {
    pub sorts: Seq<SortV>,
    pub relations: Seq<RelationV>,
    pub laws: Seq<LawV>,
}

/// Model of [`Sort`].
pub struct SortV {
    pub name: Seq<char>,
    pub fields: Seq<FieldV>,
    pub line: nat,
}

/// Model of [`Field`].
pub struct FieldV {
    pub name: Seq<char>,
    pub ty: TyV,
}

/// Model of [`Ty`].
pub enum TyV {
    Int,
    Sort(Seq<char>),
}

/// Model of [`Relation`].
pub struct RelationV {
    pub name: Seq<char>,
    pub params: Seq<ParamV>,
    pub line: nat,
    pub forbidden: bool,
}

/// Model of [`Param`].
pub struct ParamV {
    pub name: Seq<char>,
    pub sort: Seq<char>,
}

/// Model of [`Law`].
pub struct LawV {
    pub relation: Seq<char>,
    pub args: Seq<Seq<char>>,
    pub clauses: Seq<ClauseV>,
    pub line: nat,
}

/// Model of [`Clause`].
pub enum ClauseV {
    Compare(PredV),
    Implies { ante: PredV, cons: PredV, line: nat },
}

/// Model of [`Pred`].
pub struct PredV {
    pub lhs: ExprV,
    pub op: CmpOp,
    pub rhs: ExprV,
    pub line: nat,
}

/// Model of [`Expr`].
pub enum ExprV {
    Field { arg: Seq<char>, field: Seq<char> },
    Int(i64),
    Arg(Seq<char>),
}

/// The models of a vector of strings.
pub open spec fn strings_view(v: Seq<String>) -> Seq<Seq<char>> {
    v.map_values(|s: String| s@)
}

/// The models of a vector of fields.
pub open spec fn fields_view(v: Seq<Field>) -> Seq<FieldV> {
    v.map_values(|f: Field| f@)
}

/// The models of a vector of parameters.
pub open spec fn params_view(v: Seq<Param>) -> Seq<ParamV> {
    v.map_values(|p: Param| p@)
}

/// The models of a vector of clauses.
pub open spec fn clauses_view(v: Seq<Clause>) -> Seq<ClauseV> {
    v.map_values(|c: Clause| c@)
}

/// The models of a vector of sorts.
pub open spec fn sorts_view(v: Seq<Sort>) -> Seq<SortV> {
    v.map_values(|s: Sort| s@)
}

/// The models of a vector of relations.
pub open spec fn relations_view(v: Seq<Relation>) -> Seq<RelationV> {
    v.map_values(|r: Relation| r@)
}

/// The models of a vector of laws.
pub open spec fn laws_view(v: Seq<Law>) -> Seq<LawV> {
    v.map_values(|l: Law| l@)
}

impl View for CmpOp {
    type V = CmpOp;

    open spec fn view(&self) -> CmpOp {
        *self
    }
}

impl View for Field {
    type V = FieldV;

    open spec fn view(&self) -> FieldV {
        FieldV {
            name: self.name@,
            ty: match &self.ty {
                Ty::Int => TyV::Int,
                Ty::Sort(s) => TyV::Sort(s@),
            },
        }
    }
}

impl View for Sort {
    type V = SortV;

    open spec fn view(&self) -> SortV {
        SortV {
            name: self.name@,
            fields: fields_view(self.fields@),
            line: self.line as nat,
        }
    }
}

impl View for Param {
    type V = ParamV;

    open spec fn view(&self) -> ParamV {
        ParamV { name: self.name@, sort: self.sort@ }
    }
}

impl View for Relation {
    type V = RelationV;

    open spec fn view(&self) -> RelationV {
        RelationV {
            name: self.name@,
            params: params_view(self.params@),
            line: self.line as nat,
            forbidden: self.forbidden,
        }
    }
}

impl View for Expr {
    type V = ExprV;

    open spec fn view(&self) -> ExprV {
        match self {
            Expr::Field { arg, field } => ExprV::Field { arg: arg@, field: field@ },
            Expr::Int(v) => ExprV::Int(*v),
            Expr::Arg(a) => ExprV::Arg(a@),
        }
    }
}

impl View for Pred {
    type V = PredV;

    open spec fn view(&self) -> PredV {
        PredV { lhs: self.lhs@, op: self.op, rhs: self.rhs@, line: self.line as nat }
    }
}

impl View for Clause {
    type V = ClauseV;

    open spec fn view(&self) -> ClauseV {
        match self {
            Clause::Compare(p) => ClauseV::Compare(p@),
            Clause::Implies { ante, cons, line } => ClauseV::Implies {
                ante: ante@,
                cons: cons@,
                line: *line as nat,
            },
        }
    }
}

impl View for Law {
    type V = LawV;

    open spec fn view(&self) -> LawV {
        LawV {
            relation: self.relation@,
            args: strings_view(self.args@),
            clauses: clauses_view(self.clauses@),
            line: self.line as nat,
        }
    }
}

impl View for Spec {
    type V = SpecV;

    open spec fn view(&self) -> SpecV {
        SpecV {
            sorts: sorts_view(self.sorts@),
            relations: relations_view(self.relations@),
            laws: laws_view(self.laws@),
        }
    }
}

} // verus!
