//! Structural transformation of terms: every bound reference and every
//! inference variable is handed to a folder, every other position is rebuilt
//! as it was, left to right, and the first failure ends the walk.
use vstd::prelude::*;
use crate::term::{
    clauses_model,
    ApplicationTy, ClauseM, Lifetime, LtM, ParamM, Parameter, Ty, TyM, WhereClause,
    lemma_params_model, params_model,
};

verus! {

/// Why a transformation could not complete.
#[derive(Clone, Copy, Debug, PartialEq, Eq, Structural)]
pub enum Error {
    /// A bound reference, at the given depth, had no binder to resolve it.
    UnboundReference(usize),
    /// The folder refused the bound reference at the given depth.
    Rejected(usize),
    /// An inference variable that the table does not hold unresolved.
    UnknownVariable(usize),
}

/// What a folder answers for each depth of a bound reference, counted from
/// the binder just outside the term being folded.
pub ghost struct FolderM {
    pub var: spec_fn(nat) -> Result<TyM, Error>,
    pub lifetime: spec_fn(nat) -> Result<LtM, Error>,
    pub infer: spec_fn(nat) -> Result<TyM, Error>,
    pub infer_lifetime: spec_fn(nat) -> Result<LtM, Error>,
}

/// Replaces bound references and inference variables. A folder is a
/// function of its own state, which `model` describes.
pub trait Folder {
    spec fn model(&self) -> FolderM;

    fn fold_var(&self, depth: usize) -> (r: Result<Ty, Error>)
        ensures
            ty_result_model(r) == (self.model().var)(depth as nat),
    ;

    fn fold_lifetime_var(&self, depth: usize) -> (r: Result<Lifetime, Error>)
        ensures
            lifetime_result_model(r) == (self.model().lifetime)(depth as nat),
    ;

    fn fold_inference_var(&self, var: usize) -> (r: Result<Ty, Error>)
        ensures
            ty_result_model(r) == (self.model().infer)(var as nat),
    ;

    fn fold_inference_lifetime_var(&self, var: usize) -> (r: Result<Lifetime, Error>)
        ensures
            lifetime_result_model(r) == (self.model().infer_lifetime)(var as nat),
    ;
}

pub open spec fn ty_result_model(r: Result<Ty, Error>) -> Result<TyM, Error> {
    match r {
        Ok(t) => Ok(t@),
        Err(e) => Err(e),
    }
}

pub open spec fn lifetime_result_model(r: Result<Lifetime, Error>) -> Result<LtM, Error> {
    match r {
        Ok(l) => Ok(l@),
        Err(e) => Err(e),
    }
}

pub open spec fn param_result_model(r: Result<Parameter, Error>) -> Result<ParamM, Error> {
    match r {
        Ok(p) => Ok(p@),
        Err(e) => Err(e),
    }
}

pub open spec fn clause_result_model(r: Result<WhereClause, Error>) -> Result<ClauseM, Error> {
    match r {
        Ok(c) => Ok(c@),
        Err(e) => Err(e),
    }
}

/// The result of folding a lifetime below `outer` binders.
pub open spec fn fold_lifetime_spec(f: FolderM, l: LtM, outer: nat) -> Result<LtM, Error> {
    match l {
        LtM::BoundVar(d) => if d < outer {
            Ok(l)
        } else {
            (f.lifetime)((d - outer) as nat)
        },
        LtM::InferenceVar(v) => (f.infer_lifetime)(v),
        _ => Ok(l),
    }
}

/// The result of folding a type below `outer` binders.
pub open spec fn fold_ty_spec(f: FolderM, t: TyM, outer: nat) -> Result<TyM, Error>
    decreases t,
{
    match t {
        TyM::BoundVar(d) => if d < outer {
            Ok(t)
        } else {
            (f.var)((d - outer) as nat)
        },
        TyM::Apply(name, ps) => match fold_params_spec(f, ps, outer) {
            Ok(qs) => Ok(TyM::Apply(name, qs)),
            Err(e) => Err(e),
        },
        TyM::InferenceVar(v) => (f.infer)(v),
        _ => Ok(t),
    }
}

pub open spec fn fold_param_spec(f: FolderM, p: ParamM, outer: nat) -> Result<ParamM, Error>
    decreases p,
{
    match p {
        ParamM::Ty(t) => match fold_ty_spec(f, t, outer) {
            Ok(u) => Ok(ParamM::Ty(u)),
            Err(e) => Err(e),
        },
        ParamM::Lifetime(l) => match fold_lifetime_spec(f, l, outer) {
            Ok(m) => Ok(ParamM::Lifetime(m)),
            Err(e) => Err(e),
        },
    }
}

/// Folds the parameters left to right; the first failure is the result.
pub open spec fn fold_params_spec(f: FolderM, ps: Seq<ParamM>, outer: nat) -> Result<
    Seq<ParamM>,
    Error,
>
    decreases ps,
{
    if ps.len() == 0 {
        Ok(Seq::empty())
    } else {
        match fold_params_spec(f, ps.drop_last(), outer) {
            Err(e) => Err(e),
            Ok(init) => match fold_param_spec(f, ps.last(), outer) {
                Ok(q) => Ok(init.push(q)),
                Err(e) => Err(e),
            },
        }
    }
}

pub open spec fn fold_clause_spec(f: FolderM, c: ClauseM, outer: nat) -> Result<ClauseM, Error> {
    match fold_params_spec(f, c.parameters, outer) {
        Ok(qs) => Ok(ClauseM { trait_id: c.trait_id, parameters: qs }),
        Err(e) => Err(e),
    }
}

/// Folds a list of where-clauses in order; the first failure is the result.
pub open spec fn fold_clauses_spec(f: FolderM, cs: Seq<ClauseM>, outer: nat) -> Result<
    Seq<ClauseM>,
    Error,
>
    decreases cs.len(),
{
    if cs.len() == 0 {
        Ok(Seq::empty())
    } else {
        match fold_clauses_spec(f, cs.drop_last(), outer) {
            Err(e) => Err(e),
            Ok(init) => match fold_clause_spec(f, cs.last(), outer) {
                Ok(c) => Ok(init.push(c)),
                Err(e) => Err(e),
            },
        }
    }
}

/// A failure within a prefix is the failure of the whole list.
pub proof fn lemma_fold_clauses_prefix_err(f: FolderM, cs: Seq<ClauseM>, k: int, outer: nat)
    requires
        0 <= k <= cs.len(),
        fold_clauses_spec(f, cs.subrange(0, k), outer) is Err,
    ensures
        fold_clauses_spec(f, cs, outer) == fold_clauses_spec(f, cs.subrange(0, k), outer),
    decreases cs.len() - k,
{
    if k < cs.len() {
        assert(cs.subrange(0, k + 1).drop_last() =~= cs.subrange(0, k));
        lemma_fold_clauses_prefix_err(f, cs, k + 1, outer);
    } else {
        assert(cs.subrange(0, k) =~= cs);
    }
}

/// A failure within a prefix is the failure of the whole list.
pub proof fn lemma_fold_params_prefix_err(f: FolderM, ps: Seq<ParamM>, k: int, outer: nat)
    requires
        0 <= k <= ps.len(),
        fold_params_spec(f, ps.subrange(0, k), outer) is Err,
    ensures
        fold_params_spec(f, ps, outer) == fold_params_spec(f, ps.subrange(0, k), outer),
    decreases ps.len() - k,
{
    if k < ps.len() {
        assert(ps.subrange(0, k + 1).drop_last() =~= ps.subrange(0, k));
        lemma_fold_params_prefix_err(f, ps, k + 1, outer);
    } else {
        assert(ps.subrange(0, k) =~= ps);
    }
}

/// A transformation fails fast: when the first parameter of a constructed
/// type fails to fold, folding the type fails with exactly that error, and
/// the later parameters have no part in the result.
pub proof fn lemma_fold_fail_fast(
    f: FolderM,
    name: u64,
    ps: Seq<ParamM>,
    qs: Seq<ParamM>,
    outer: nat,
)
    requires
        ps.len() > 0,
        qs.len() > 0,
        ps[0] == qs[0],
        fold_param_spec(f, ps[0], outer) is Err,
    ensures
        fold_ty_spec(f, TyM::Apply(name, ps), outer) == Err::<TyM, Error>(
            fold_param_spec(f, ps[0], outer)->Err_0,
        ),
        fold_ty_spec(f, TyM::Apply(name, qs), outer) == fold_ty_spec(
            f,
            TyM::Apply(name, ps),
            outer,
        ),
{
    assert(ps.subrange(0, 1).drop_last() =~= Seq::<ParamM>::empty());
    assert(qs.subrange(0, 1).drop_last() =~= Seq::<ParamM>::empty());
    assert(ps.subrange(0, 1).last() == ps[0]);
    assert(qs.subrange(0, 1).last() == qs[0]);
    assert(fold_params_spec(f, Seq::<ParamM>::empty(), outer) is Ok);
    assert(fold_params_spec(f, ps.subrange(0, 1), outer) == Err::<Seq<ParamM>, Error>(
        fold_param_spec(f, ps[0], outer)->Err_0,
    ));
    assert(fold_params_spec(f, qs.subrange(0, 1), outer) == Err::<Seq<ParamM>, Error>(
        fold_param_spec(f, ps[0], outer)->Err_0,
    ));
    lemma_fold_params_prefix_err(f, ps, 1, outer);
    lemma_fold_params_prefix_err(f, qs, 1, outer);
}

pub fn fold_lifetime<F: Folder>(l: &Lifetime, f: &F, outer: usize) -> (r: Result<Lifetime, Error>)
    ensures
        lifetime_result_model(r) == fold_lifetime_spec(f.model(), l@, outer as nat),
{
    match l {
        Lifetime::BoundVar(d) => {
            if *d < outer {
                Ok(Lifetime::BoundVar(*d))
            } else {
                f.fold_lifetime_var(*d - outer)
            }
        },
        Lifetime::ForAll(u) => Ok(Lifetime::ForAll(*u)),
        Lifetime::InferenceVar(v) => f.fold_inference_lifetime_var(*v),
    }
}

/// Rebuilds a type, handing each bound reference at depth `outer` or more to
/// the folder.
pub fn fold_ty<F: Folder>(t: &Ty, f: &F, outer: usize) -> (r: Result<Ty, Error>)
    ensures
        ty_result_model(r) == fold_ty_spec(f.model(), t@, outer as nat),
    decreases t,
{
    match t {
        Ty::BoundVar(d) => {
            if *d < outer {
                Ok(Ty::BoundVar(*d))
            } else {
                f.fold_var(*d - outer)
            }
        },
        Ty::Apply(a) => {
            match fold_params(&a.parameters, f, outer) {
                Ok(ps) => Ok(Ty::Apply(ApplicationTy { name: a.name, parameters: ps })),
                Err(e) => Err(e),
            }
        },
        Ty::ForAll(u) => Ok(Ty::ForAll(*u)),
        Ty::InferenceVar(v) => f.fold_inference_var(*v),
    }
}

pub fn fold_param<F: Folder>(p: &Parameter, f: &F, outer: usize) -> (r: Result<Parameter, Error>)
    ensures
        param_result_model(r) == fold_param_spec(f.model(), p@, outer as nat),
    decreases p,
{
    match p {
        Parameter::Ty(t) => match fold_ty(t, f, outer) {
            Ok(u) => Ok(Parameter::Ty(u)),
            Err(e) => Err(e),
        },
        Parameter::Lifetime(l) => match fold_lifetime(l, f, outer) {
            Ok(m) => Ok(Parameter::Lifetime(m)),
            Err(e) => Err(e),
        },
    }
}

/// Folds each parameter in order and stops at the first failure, which it
/// returns unchanged.
pub fn fold_params<F: Folder>(ps: &Vec<Parameter>, f: &F, outer: usize) -> (r: Result<
    Vec<Parameter>,
    Error,
>)
    ensures
        match r {
            Ok(qs) => fold_params_spec(f.model(), params_model(ps@), outer as nat) == Ok::<
                Seq<ParamM>,
                Error,
            >(params_model(qs@)),
            Err(e) => fold_params_spec(f.model(), params_model(ps@), outer as nat) == Err::<
                Seq<ParamM>,
                Error,
            >(e),
        },
    decreases ps,
{
    let ghost pm = params_model(ps@);
    proof {
        lemma_params_model(ps@);
    }
    let mut out: Vec<Parameter> = Vec::new();
    let mut i: usize = 0;
    while i < ps.len()
        invariant
            0 <= i <= ps.len(),
            pm == params_model(ps@),
            pm.len() == ps@.len(),
            forall|j: int| 0 <= j < ps@.len() ==> #[trigger] pm[j] == ps@[j]@,
            fold_params_spec(f.model(), pm.subrange(0, i as int), outer as nat) == Ok::<
                Seq<ParamM>,
                Error,
            >(params_model(out@)),
        decreases ps.len() - i,
    {
        let q = fold_param(&ps[i], f, outer);
        proof {
            assert(pm.subrange(0, i + 1).drop_last() =~= pm.subrange(0, i as int));
        }
        match q {
            Ok(q) => {
                proof {
                    assert(out@.push(q).drop_last() =~= out@);
                }
                out.push(q);
            },
            Err(e) => {
                proof {
                    lemma_fold_params_prefix_err(f.model(), pm, i + 1, outer as nat);
                }
                return Err(e);
            },
        }
        i = i + 1;
    }
    proof {
        assert(pm.subrange(0, i as int) =~= pm);
    }
    Ok(out)
}

/// Folds the parameters of a where-clause.
pub fn fold_clause<F: Folder>(c: &WhereClause, f: &F, outer: usize) -> (r: Result<
    WhereClause,
    Error,
>)
    ensures
        clause_result_model(r) == fold_clause_spec(f.model(), c@, outer as nat),
{
    match fold_params(&c.parameters, f, outer) {
        Ok(ps) => Ok(WhereClause { trait_id: c.trait_id, parameters: ps }),
        Err(e) => Err(e),
    }
}

/// Folds each where-clause in order and stops at the first failure.
pub fn fold_clauses<F: Folder>(cs: &Vec<WhereClause>, f: &F, outer: usize) -> (r: Result<
    Vec<WhereClause>,
    Error,
>)
    ensures
        match r {
            Ok(ds) => fold_clauses_spec(f.model(), clauses_model(cs@), outer as nat) == Ok::<
                Seq<ClauseM>,
                Error,
            >(clauses_model(ds@)),
            Err(e) => fold_clauses_spec(f.model(), clauses_model(cs@), outer as nat) == Err::<
                Seq<ClauseM>,
                Error,
            >(e),
        },
{
    let ghost cm = clauses_model(cs@);
    let mut out: Vec<WhereClause> = Vec::new();
    proof {
        assert(clauses_model(out@) =~= Seq::<ClauseM>::empty());
    }
    let mut i: usize = 0;
    while i < cs.len()
        invariant
            0 <= i <= cs.len(),
            cm == clauses_model(cs@),
            fold_clauses_spec(f.model(), cm.subrange(0, i as int), outer as nat) == Ok::<
                Seq<ClauseM>,
                Error,
            >(clauses_model(out@)),
        decreases cs.len() - i,
    {
        let d = fold_clause(&cs[i], f, outer);
        proof {
            assert(cm.subrange(0, i + 1).drop_last() =~= cm.subrange(0, i as int));
        }
        match d {
            Ok(d) => {
                proof {
                    assert(clauses_model(out@.push(d)) =~= clauses_model(out@).push(d@));
                }
                out.push(d);
            },
            Err(e) => {
                proof {
                    lemma_fold_clauses_prefix_err(f.model(), cm, i + 1, outer as nat);
                }
                return Err(e);
            },
        }
        i = i + 1;
    }
    proof {
        assert(cm.subrange(0, i as int) =~= cm);
    }
    Ok(out)
}

/// The folder that leaves every bound reference and variable where it is.
pub struct Identity;

pub open spec fn identity_model() -> FolderM {
    FolderM {
        var: |d: nat| Ok::<TyM, Error>(TyM::BoundVar(d)),
        lifetime: |d: nat| Ok::<LtM, Error>(LtM::BoundVar(d)),
        infer: |v: nat| Ok::<TyM, Error>(TyM::InferenceVar(v)),
        infer_lifetime: |v: nat| Ok::<LtM, Error>(LtM::InferenceVar(v)),
    }
}

impl Folder for Identity {
    open spec fn model(&self) -> FolderM {
        identity_model()
    }

    fn fold_var(&self, depth: usize) -> (r: Result<Ty, Error>) {
        Ok(Ty::BoundVar(depth))
    }

    fn fold_lifetime_var(&self, depth: usize) -> (r: Result<Lifetime, Error>) {
        Ok(Lifetime::BoundVar(depth))
    }

    fn fold_inference_var(&self, var: usize) -> (r: Result<Ty, Error>) {
        Ok(Ty::InferenceVar(var))
    }

    fn fold_inference_lifetime_var(&self, var: usize) -> (r: Result<Lifetime, Error>) {
        Ok(Lifetime::InferenceVar(var))
    }
}

/// Folding with the identity folder gives back the same type.
pub proof fn lemma_identity_ty(t: TyM)
    ensures
        fold_ty_spec(identity_model(), t, 0) == Ok::<TyM, Error>(t),
    decreases t,
{
    if let TyM::Apply(_, ps) = t {
        lemma_identity_params(ps);
    }
}

pub proof fn lemma_identity_param(p: ParamM)
    ensures
        fold_param_spec(identity_model(), p, 0) == Ok::<ParamM, Error>(p),
    decreases p,
{
    if let ParamM::Ty(t) = p {
        lemma_identity_ty(t);
    }
}

pub proof fn lemma_identity_params(ps: Seq<ParamM>)
    ensures
        fold_params_spec(identity_model(), ps, 0) == Ok::<Seq<ParamM>, Error>(ps),
    decreases ps,
{
    if ps.len() > 0 {
        lemma_identity_params(ps.drop_last());
        lemma_identity_param(ps.last());
        assert(ps.drop_last().push(ps.last()) =~= ps);
    } else {
        assert(ps =~= Seq::empty());
    }
}

impl WhereClause {
    /// A copy with the same model.
    pub fn copy(&self) -> (r: WhereClause)
        ensures
            r@ == self@,
    {
        proof {
            lemma_identity_params(self@.parameters);
        }
        match fold_clause(self, &Identity, 0) {
            Ok(c) => c,
            Err(_) => WhereClause { trait_id: self.trait_id, parameters: Vec::new() },
        }
    }
}

impl Ty {
    /// A copy with the same model.
    pub fn copy(&self) -> (r: Ty)
        ensures
            r@ == self@,
    {
        proof {
            lemma_identity_ty(self@);
        }
        match fold_ty(self, &Identity, 0) {
            Ok(t) => t,
            Err(_) => Ty::BoundVar(0),
        }
    }
}

impl Parameter {
    /// A copy with the same model.
    pub fn copy(&self) -> (r: Parameter)
        ensures
            r@ == self@,
    {
        proof {
            lemma_identity_param(self@);
        }
        match fold_param(self, &Identity, 0) {
            Ok(p) => p,
            Err(_) => Parameter::Lifetime(Lifetime::BoundVar(0)),
        }
    }
}

} // verus!
