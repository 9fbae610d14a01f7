//! Terms: types, lifetimes, generic parameters and where-clauses, together
//! with their mathematical models.
use vstd::prelude::*;

verus! {

/// A type term.
#[derive(Debug, PartialEq, Eq)]
pub enum Ty {
    /// A reference to an enclosing binder, counted from the innermost one.
    BoundVar(usize),
    /// A named type constructor applied to an ordered list of parameters.
    Apply(ApplicationTy),
    /// A rigid placeholder introduced in the given universe.
    ForAll(usize),
    /// A reference to an inference variable.
    InferenceVar(usize),
}

/// A type constructor with its parameters.
#[derive(Debug, PartialEq, Eq)]
pub struct ApplicationTy {
    pub name: u64,
    pub parameters: Vec<Parameter>,
}

/// A lifetime term; the same shapes as a type, without constructors.
#[derive(Clone, Copy, Debug, PartialEq, Eq, Structural)]
pub enum Lifetime {
    BoundVar(usize),
    ForAll(usize),
    InferenceVar(usize),
}

/// A generic parameter: a type or a lifetime.
#[derive(Debug, PartialEq, Eq)]
pub enum Parameter {
    Ty(Ty),
    Lifetime(Lifetime),
}

/// An atomic obligation: the parameters, in order, implement the trait.
#[derive(Debug, PartialEq, Eq)]
pub struct WhereClause {
    pub trait_id: u64,
    pub parameters: Vec<Parameter>,
}

/// Whether a binder or a variable stands for a type or for a lifetime.
#[derive(Clone, Copy, Debug, PartialEq, Eq, Structural)]
pub enum ParameterKind {
    Ty,
    Lifetime,
}

/// Model of a type term.
pub ghost enum TyM {
    BoundVar(nat),
    Apply(u64, Seq<ParamM>),
    ForAll(nat),
    InferenceVar(nat),
}

/// Model of a lifetime term.
pub ghost enum LtM {
    BoundVar(nat),
    ForAll(nat),
    InferenceVar(nat),
}

/// Model of a generic parameter.
pub ghost enum ParamM {
    Ty(TyM),
    Lifetime(LtM),
}

/// Model of a where-clause.
pub ghost struct ClauseM {
    pub trait_id: u64,
    pub parameters: Seq<ParamM>,
}

pub open spec fn lifetime_model(l: Lifetime) -> LtM {
    match l {
        Lifetime::BoundVar(d) => LtM::BoundVar(d as nat),
        Lifetime::ForAll(u) => LtM::ForAll(u as nat),
        Lifetime::InferenceVar(v) => LtM::InferenceVar(v as nat),
    }
}

pub open spec fn ty_model(t: Ty) -> TyM
    decreases t,
{
    match t {
        Ty::BoundVar(d) => TyM::BoundVar(d as nat),
        Ty::Apply(a) => TyM::Apply(a.name, params_model(a.parameters@)),
        Ty::ForAll(u) => TyM::ForAll(u as nat),
        Ty::InferenceVar(v) => TyM::InferenceVar(v as nat),
    }
}

pub open spec fn param_model(p: Parameter) -> ParamM
    decreases p,
{
    match p {
        Parameter::Ty(t) => ParamM::Ty(ty_model(t)),
        Parameter::Lifetime(l) => ParamM::Lifetime(lifetime_model(l)),
    }
}

pub open spec fn params_model(s: Seq<Parameter>) -> Seq<ParamM>
    decreases s,
{
    if s.len() == 0 {
        Seq::empty()
    } else {
        params_model(s.drop_last()).push(param_model(s.last()))
    }
}

impl View for Ty {
    type V = TyM;

    open spec fn view(&self) -> TyM {
        ty_model(*self)
    }
}

impl View for Lifetime {
    type V = LtM;

    open spec fn view(&self) -> LtM {
        lifetime_model(*self)
    }
}

impl View for Parameter {
    type V = ParamM;

    open spec fn view(&self) -> ParamM {
        param_model(*self)
    }
}

impl View for WhereClause {
    type V = ClauseM;

    open spec fn view(&self) -> ClauseM {
        ClauseM { trait_id: self.trait_id, parameters: params_model(self.parameters@) }
    }
}

/// The kind of a parameter.
pub open spec fn param_kind(p: ParamM) -> ParameterKind {
    match p {
        ParamM::Ty(_) => ParameterKind::Ty,
        ParamM::Lifetime(_) => ParameterKind::Lifetime,
    }
}

/// The models of a list of where-clauses, in order.
pub open spec fn clauses_model(s: Seq<WhereClause>) -> Seq<ClauseM> {
    s.map_values(|c: WhereClause| c@)
}

pub proof fn lemma_params_model(s: Seq<Parameter>)
    ensures
        params_model(s).len() == s.len(),
        forall|i: int| 0 <= i < s.len() ==> #[trigger] params_model(s)[i] == s[i]@,
    decreases s.len(),
{
    if s.len() > 0 {
        lemma_params_model(s.drop_last());
    }
}

} // verus!
