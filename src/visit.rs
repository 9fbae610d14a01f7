//! Structural visits of terms: a visitor is asked about each bound reference
//! that lies outside the term and each inference variable, and the visit
//! reports whether any answer was yes, stopping at the first one.
use vstd::prelude::*;
use crate::fold::{
    FolderM, fold_lifetime_spec, fold_param_spec, fold_params_spec, fold_ty_spec, fold_clause_spec,
};
use crate::term::{
    ClauseM, Lifetime, LtM, ParamM, Parameter, Ty, TyM, WhereClause, lemma_params_model,
    params_model,
};

verus! {

/// Which depths of bound references a visitor reports, counted from the
/// binder just outside the term being visited.
pub ghost struct VisitorM {
    pub var: spec_fn(nat) -> bool,
    pub lifetime: spec_fn(nat) -> bool,
    pub infer: spec_fn(nat) -> bool,
    pub infer_lifetime: spec_fn(nat) -> bool,
}

/// Looks for bound references and inference variables; `model` describes
/// its answers.
pub trait Visitor {
    spec fn model(&self) -> VisitorM;

    fn visit_var(&self, depth: usize) -> (r: bool)
        ensures
            r == (self.model().var)(depth as nat),
    ;

    fn visit_lifetime_var(&self, depth: usize) -> (r: bool)
        ensures
            r == (self.model().lifetime)(depth as nat),
    ;

    fn visit_inference_var(&self, var: usize) -> (r: bool)
        ensures
            r == (self.model().infer)(var as nat),
    ;

    fn visit_inference_lifetime_var(&self, var: usize) -> (r: bool)
        ensures
            r == (self.model().infer_lifetime)(var as nat),
    ;
}

pub open spec fn visit_lifetime_spec(v: VisitorM, l: LtM, outer: nat) -> bool {
    match l {
        LtM::BoundVar(d) => d >= outer && (v.lifetime)((d - outer) as nat),
        LtM::InferenceVar(x) => (v.infer_lifetime)(x),
        _ => false,
    }
}

pub open spec fn visit_ty_spec(v: VisitorM, t: TyM, outer: nat) -> bool
    decreases t,
{
    match t {
        TyM::BoundVar(d) => d >= outer && (v.var)((d - outer) as nat),
        TyM::Apply(_, ps) => visit_params_spec(v, ps, outer),
        TyM::InferenceVar(x) => (v.infer)(x),
        _ => false,
    }
}

pub open spec fn visit_param_spec(v: VisitorM, p: ParamM, outer: nat) -> bool
    decreases p,
{
    match p {
        ParamM::Ty(t) => visit_ty_spec(v, t, outer),
        ParamM::Lifetime(l) => visit_lifetime_spec(v, l, outer),
    }
}

pub open spec fn visit_params_spec(v: VisitorM, ps: Seq<ParamM>, outer: nat) -> bool
    decreases ps,
{
    if ps.len() == 0 {
        false
    } else {
        visit_params_spec(v, ps.drop_last(), outer) || visit_param_spec(v, ps.last(), outer)
    }
}

pub open spec fn visit_clause_spec(v: VisitorM, c: ClauseM, outer: nat) -> bool {
    visit_params_spec(v, c.parameters, outer)
}

/// A hit within a prefix is a hit of the whole list.
pub proof fn lemma_visit_params_prefix(v: VisitorM, ps: Seq<ParamM>, k: int, outer: nat)
    requires
        0 <= k <= ps.len(),
        visit_params_spec(v, ps.subrange(0, k), outer),
    ensures
        visit_params_spec(v, ps, outer),
    decreases ps.len() - k,
{
    if k < ps.len() {
        assert(ps.subrange(0, k + 1).drop_last() =~= ps.subrange(0, k));
        lemma_visit_params_prefix(v, ps, k + 1, outer);
    } else {
        assert(ps.subrange(0, k) =~= ps);
    }
}

pub fn visit_lifetime<V: Visitor>(l: &Lifetime, v: &V, outer: usize) -> (r: bool)
    ensures
        r == visit_lifetime_spec(v.model(), l@, outer as nat),
{
    match l {
        Lifetime::BoundVar(d) => *d >= outer && v.visit_lifetime_var(*d - outer),
        Lifetime::InferenceVar(x) => v.visit_inference_lifetime_var(*x),
        _ => false,
    }
}

pub fn visit_ty<V: Visitor>(t: &Ty, v: &V, outer: usize) -> (r: bool)
    ensures
        r == visit_ty_spec(v.model(), t@, outer as nat),
    decreases t,
{
    match t {
        Ty::BoundVar(d) => *d >= outer && v.visit_var(*d - outer),
        Ty::Apply(a) => visit_params(&a.parameters, v, outer),
        Ty::InferenceVar(x) => v.visit_inference_var(*x),
        _ => false,
    }
}

pub fn visit_param<V: Visitor>(p: &Parameter, v: &V, outer: usize) -> (r: bool)
    ensures
        r == visit_param_spec(v.model(), p@, outer as nat),
    decreases p,
{
    match p {
        Parameter::Ty(t) => visit_ty(t, v, outer),
        Parameter::Lifetime(l) => visit_lifetime(l, v, outer),
    }
}

/// Visits each parameter in order and returns at the first hit.
pub fn visit_params<V: Visitor>(ps: &Vec<Parameter>, v: &V, outer: usize) -> (r: bool)
    ensures
        r == visit_params_spec(v.model(), params_model(ps@), outer as nat),
    decreases ps,
{
    let ghost pm = params_model(ps@);
    proof {
        lemma_params_model(ps@);
    }
    let mut i: usize = 0;
    while i < ps.len()
        invariant
            0 <= i <= ps.len(),
            pm == params_model(ps@),
            pm.len() == ps@.len(),
            forall|j: int| 0 <= j < ps@.len() ==> #[trigger] pm[j] == ps@[j]@,
            !visit_params_spec(v.model(), pm.subrange(0, i as int), outer as nat),
        decreases ps.len() - i,
    {
        let hit = visit_param(&ps[i], v, outer);
        proof {
            assert(pm.subrange(0, i + 1).drop_last() =~= pm.subrange(0, i as int));
        }
        if hit {
            proof {
                lemma_visit_params_prefix(v.model(), pm, i + 1, outer as nat);
            }
            return true;
        }
        i = i + 1;
    }
    proof {
        assert(pm.subrange(0, i as int) =~= pm);
    }
    false
}

pub fn visit_clause<V: Visitor>(c: &WhereClause, v: &V, outer: usize) -> (r: bool)
    ensures
        r == visit_clause_spec(v.model(), c@, outer as nat),
{
    visit_params(&c.parameters, v, outer)
}

/// A visitor reports exactly the depths at which a folder fails.
pub open spec fn agree(v: VisitorM, f: FolderM) -> bool {
    &&& forall|d: nat| #[trigger] (v.var)(d) <==> (f.var)(d) is Err
    &&& forall|d: nat| #[trigger] (v.lifetime)(d) <==> (f.lifetime)(d) is Err
    &&& forall|x: nat| #[trigger] (v.infer)(x) <==> (f.infer)(x) is Err
    &&& forall|x: nat| #[trigger] (v.infer_lifetime)(x) <==> (f.infer_lifetime)(x) is Err
}

/// Visit and transform agree on which positions are bound references and
/// variables: when a visitor reports exactly the positions at which a folder
/// fails, the visit of a type reports a hit exactly when folding it fails.
pub proof fn lemma_visit_fold_agree_ty(v: VisitorM, f: FolderM, t: TyM, outer: nat)
    requires
        agree(v, f),
    ensures
        visit_ty_spec(v, t, outer) <==> fold_ty_spec(f, t, outer) is Err,
    decreases t,
{
    match t {
        TyM::BoundVar(d) => {
            if d >= outer {
                assert((v.var)((d - outer) as nat) <==> (f.var)((d - outer) as nat) is Err);
            }
        },
        TyM::Apply(_, ps) => lemma_visit_fold_agree_params(v, f, ps, outer),
        TyM::InferenceVar(x) => {
            assert((v.infer)(x) <==> (f.infer)(x) is Err);
        },
        _ => {},
    }
}

/// The same agreement, for a parameter.
pub proof fn lemma_visit_fold_agree_param(v: VisitorM, f: FolderM, p: ParamM, outer: nat)
    requires
        agree(v, f),
    ensures
        visit_param_spec(v, p, outer) <==> fold_param_spec(f, p, outer) is Err,
    decreases p,
{
    match p {
        ParamM::Ty(t) => lemma_visit_fold_agree_ty(v, f, t, outer),
        ParamM::Lifetime(l) => {
            match l {
                LtM::BoundVar(d) => {
                    if d >= outer {
                        assert((v.lifetime)((d - outer) as nat) <==> (f.lifetime)(
                            (d - outer) as nat,
                        ) is Err);
                    }
                },
                LtM::InferenceVar(x) => {
                    assert((v.infer_lifetime)(x) <==> (f.infer_lifetime)(x) is Err);
                },
                _ => {},
            }
        },
    }
}

/// The same agreement, for a list of parameters.
pub proof fn lemma_visit_fold_agree_params(v: VisitorM, f: FolderM, ps: Seq<ParamM>, outer: nat)
    requires
        agree(v, f),
    ensures
        visit_params_spec(v, ps, outer) <==> fold_params_spec(f, ps, outer) is Err,
    decreases ps,
{
    if ps.len() > 0 {
        lemma_visit_fold_agree_params(v, f, ps.drop_last(), outer);
        lemma_visit_fold_agree_param(v, f, ps.last(), outer);
    }
}

/// The same agreement, for a where-clause.
pub proof fn lemma_visit_fold_agree_clause(v: VisitorM, f: FolderM, c: ClauseM, outer: nat)
    requires
        agree(v, f),
    ensures
        visit_clause_spec(v, c, outer) <==> fold_clause_spec(f, c, outer) is Err,
{
    lemma_visit_fold_agree_params(v, f, c.parameters, outer);
}

} // verus!
