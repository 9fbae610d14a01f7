//! The table of inference variables: each one is created in a universe,
//! may be bound once to a value that mentions no variable and no bound
//! reference, and is read back when clauses are resolved and re-quantified.
use vstd::prelude::*;
use crate::fold::{
    Error, Folder, FolderM, fold_clauses, fold_clauses_spec, lifetime_result_model,
    ty_result_model,
};
use crate::term::{
    ClauseM, Lifetime, LtM, ParamM, Parameter, ParameterKind, Ty, TyM, WhereClause,
    clauses_model, param_kind,
};
use crate::visit::{Visitor, VisitorM, visit_param, visit_param_spec};

verus! {

/// A handle on a variable of the table: its index.
#[derive(Clone, Copy, Debug, PartialEq, Eq, Structural)]
pub struct InferenceVariable {
    pub index: usize,
}

/// One variable of the table.
#[derive(Debug, PartialEq, Eq)]
pub struct VarData {
    pub kind: ParameterKind,
    pub universe: usize,
    pub value: Option<Parameter>,
}

/// Model of one variable.
pub ghost struct VarM {
    pub kind: ParameterKind,
    pub universe: nat,
    pub value: Option<ParamM>,
}

impl View for VarData {
    type V = VarM;

    open spec fn view(&self) -> VarM {
        VarM {
            kind: self.kind,
            universe: self.universe as nat,
            value: match self.value {
                Some(p) => Some(p@),
                None => None,
            },
        }
    }
}

/// The visitor that reports every bound reference outside the term and
/// every inference variable.
pub struct FindFree;

pub open spec fn find_free_model() -> VisitorM {
    VisitorM {
        var: |d: nat| true,
        lifetime: |d: nat| true,
        infer: |x: nat| true,
        infer_lifetime: |x: nat| true,
    }
}

impl Visitor for FindFree {
    open spec fn model(&self) -> VisitorM {
        find_free_model()
    }

    fn visit_var(&self, depth: usize) -> (r: bool) {
        true
    }

    fn visit_lifetime_var(&self, depth: usize) -> (r: bool) {
        true
    }

    fn visit_inference_var(&self, var: usize) -> (r: bool) {
        true
    }

    fn visit_inference_lifetime_var(&self, var: usize) -> (r: bool) {
        true
    }
}

/// A parameter with no bound reference and no inference variable in it.
pub open spec fn ground(p: ParamM) -> bool {
    !visit_param_spec(find_free_model(), p, 0)
}

/// What a variable may be bound to.
pub open spec fn valid_var(v: VarM) -> bool {
    match v.value {
        Some(p) => ground(p) && param_kind(p) == v.kind,
        None => true,
    }
}

/// Why a variable could not be bound.
#[derive(Clone, Copy, Debug, PartialEq, Eq, Structural)]
pub enum BindError {
    /// The table holds no variable with this index.
    UnknownVariable,
    /// The variable already has a value.
    AlreadyBound,
    /// The value mentions a variable or a bound reference.
    NotGround,
    /// The value is a type where a lifetime is wanted, or the reverse.
    KindMismatch,
}

/// The table of inference variables.
pub struct InferenceTable {
    vars: Vec<VarData>,
}

impl View for InferenceTable {
    type V = Seq<VarM>;

    closed spec fn view(&self) -> Seq<VarM> {
        self.vars@.map_values(|v: VarData| v@)
    }
}

/// A variable can be bound to `p` in table `t`.
pub open spec fn can_bind(t: Seq<VarM>, var: nat, p: ParamM) -> bool {
    &&& var < t.len()
    &&& t[var as int].value is None
    &&& ground(p)
    &&& param_kind(p) == t[var as int].kind
}

impl InferenceTable {
    #[verifier::type_invariant]
    spec fn inv(&self) -> bool {
        forall|i: int| 0 <= i < self.vars@.len() ==> valid_var(#[trigger] self.vars@[i]@)
    }

    /// Every variable of a table is unbound or bound to a ground value of its
    /// kind.
    pub fn lemma_valid(&self)
        ensures
            forall|i: int| 0 <= i < self@.len() ==> valid_var(#[trigger] self@[i]),
    {
        proof {
            use_type_invariant(self);
        }
    }

    /// An empty table.
    pub fn new() -> (r: InferenceTable)
        ensures
            r@ == Seq::<VarM>::empty(),
    {
        let r = InferenceTable { vars: Vec::new() };
        proof {
            assert(r@ =~= Seq::<VarM>::empty());
        }
        r
    }

    /// The number of variables.
    pub fn len(&self) -> (r: usize)
        ensures
            r == self@.len(),
    {
        self.vars.len()
    }

    /// The variable with the given index, if the table holds it.
    pub fn var(&self, index: usize) -> (r: Option<&VarData>)
        ensures
            match r {
                Some(v) => index < self@.len() && v@ == self@[index as int],
                None => index >= self@.len(),
            },
    {
        if index < self.vars.len() {
            Some(&self.vars[index])
        } else {
            None
        }
    }

    /// A new unbound variable of the given kind, created in `universe`.
    pub fn new_parameter_variable(&mut self, kind: ParameterKind, universe: usize) -> (r:
        InferenceVariable)
        requires
            old(self)@.len() < usize::MAX,
        ensures
            r.index == old(self)@.len(),
            final(self)@ == old(self)@.push(
                VarM { kind: kind, universe: universe as nat, value: None },
            ),
    {
        proof {
            use_type_invariant(&*self);
        }
        let mut vars: Vec<VarData> = Vec::new();
        std::mem::swap(&mut vars, &mut self.vars);
        let index = vars.len();
        vars.push(VarData { kind, universe, value: None });
        proof {
            assert(vars@[index as int]@ == VarM { kind: kind, universe: universe as nat, value: None });
            assert(vars@.map_values(|v: VarData| v@) =~= old(self)@.push(
                VarM { kind: kind, universe: universe as nat, value: None },
            ));
        }
        self.vars = vars;
        InferenceVariable { index }
    }

    /// Binds an unbound variable to a ground value of its kind.
    pub fn bind(&mut self, var: InferenceVariable, value: Parameter) -> (r: Result<(), BindError>)
        ensures
            r is Ok <==> can_bind(old(self)@, var.index as nat, value@),
            r is Ok ==> final(self)@ == old(self)@.update(
                var.index as int,
                VarM { value: Some(value@), ..old(self)@[var.index as int] },
            ),
            r is Err ==> final(self)@ == old(self)@,
            r == Err::<(), BindError>(BindError::UnknownVariable) <==> var.index >= old(self)@.len(),
            r == Err::<(), BindError>(BindError::AlreadyBound) <==> (var.index < old(self)@.len()
                && old(self)@[var.index as int].value is Some),
            r == Err::<(), BindError>(BindError::NotGround) <==> (var.index < old(self)@.len()
                && old(self)@[var.index as int].value is None && !ground(value@)),
            r == Err::<(), BindError>(BindError::KindMismatch) <==> (var.index < old(self)@.len()
                && old(self)@[var.index as int].value is None && ground(value@) && param_kind(
                value@,
            ) != old(self)@[var.index as int].kind),
    {
        proof {
            use_type_invariant(&*self);
        }
        let i = var.index;
        if i >= self.vars.len() {
            return Err(BindError::UnknownVariable);
        }
        if self.vars[i].value.is_some() {
            return Err(BindError::AlreadyBound);
        }
        if visit_param(&value, &FindFree, 0) {
            return Err(BindError::NotGround);
        }
        let kind = match &value {
            Parameter::Ty(_) => ParameterKind::Ty,
            Parameter::Lifetime(_) => ParameterKind::Lifetime,
        };
        if kind != self.vars[i].kind {
            return Err(BindError::KindMismatch);
        }
        let mut vars: Vec<VarData> = Vec::new();
        std::mem::swap(&mut vars, &mut self.vars);
        let universe = vars[i].universe;
        let ghost value_model = value@;
        vars.set(i, VarData { kind, universe, value: Some(value) });
        proof {
            assert(vars@.map_values(|v: VarData| v@) =~= old(self)@.update(
                i as int,
                VarM { value: Some(value_model), ..old(self)@[i as int] },
            ));
            assert forall|j: int| 0 <= j < vars@.len() implies valid_var(#[trigger] vars@[j]@) by {
                if j != i {
                    assert(old(self)@[j] == vars@[j]@);
                }
            }
        }
        self.vars = vars;
        Ok(())
    }
}

/// What a type variable reads as: its value where it is bound to a type,
/// else the variable itself.
pub open spec fn resolved_ty(t: Seq<VarM>, x: nat) -> TyM {
    if x < t.len() {
        match t[x as int].value {
            Some(ParamM::Ty(ty)) => ty,
            _ => TyM::InferenceVar(x),
        }
    } else {
        TyM::InferenceVar(x)
    }
}

/// What a lifetime variable reads as.
pub open spec fn resolved_lifetime(t: Seq<VarM>, x: nat) -> LtM {
    if x < t.len() {
        match t[x as int].value {
            Some(ParamM::Lifetime(l)) => l,
            _ => LtM::InferenceVar(x),
        }
    } else {
        LtM::InferenceVar(x)
    }
}

/// The folder that replaces each bound variable by its value.
pub open spec fn constrain_model(t: Seq<VarM>) -> FolderM {
    FolderM {
        var: |d: nat| Ok::<TyM, Error>(TyM::BoundVar(d)),
        lifetime: |d: nat| Ok::<LtM, Error>(LtM::BoundVar(d)),
        infer: |x: nat| Ok::<TyM, Error>(resolved_ty(t, x)),
        infer_lifetime: |x: nat| Ok::<LtM, Error>(resolved_lifetime(t, x)),
    }
}

/// The number of unbound variables in `t`.
pub open spec fn unbound_count(t: Seq<VarM>) -> nat
    decreases t.len(),
{
    if t.len() == 0 {
        0
    } else {
        unbound_count(t.drop_last()) + if t.last().value is None {
            1nat
        } else {
            0nat
        }
    }
}

/// The kinds of the unbound variables of `t`, in order.
pub open spec fn unbound_kinds(t: Seq<VarM>) -> Seq<ParameterKind>
    decreases t.len(),
{
    if t.len() == 0 {
        Seq::empty()
    } else if t.last().value is None {
        unbound_kinds(t.drop_last()).push(t.last().kind)
    } else {
        unbound_kinds(t.drop_last())
    }
}

/// The folder that turns the unbound variable `x` into a reference to
/// binder number `k`, where `k` unbound variables come before `x`; any other
/// variable is an error.
pub open spec fn requantify_model(t: Seq<VarM>) -> FolderM {
    FolderM {
        var: |d: nat| Ok::<TyM, Error>(TyM::BoundVar(d)),
        lifetime: |d: nat| Ok::<LtM, Error>(LtM::BoundVar(d)),
        infer: |x: nat|
            if x < t.len() && t[x as int].value is None {
                Ok::<TyM, Error>(TyM::BoundVar(unbound_count(t.subrange(0, x as int))))
            } else {
                Err::<TyM, Error>(Error::UnknownVariable(x as usize))
            },
        infer_lifetime: |x: nat|
            if x < t.len() && t[x as int].value is None {
                Ok::<LtM, Error>(LtM::BoundVar(unbound_count(t.subrange(0, x as int))))
            } else {
                Err::<LtM, Error>(Error::UnknownVariable(x as usize))
            },
    }
}

/// Clauses under existential binders: a reference at depth `i` in `value`
/// stands for the binder `binders[i]`.
#[derive(Debug, PartialEq, Eq)]
pub struct Quantified {
    pub binders: Vec<ParameterKind>,
    pub value: Vec<WhereClause>,
}

/// Model of quantified clauses.
pub ghost struct QuantM {
    pub binders: Seq<ParameterKind>,
    pub value: Seq<ClauseM>,
}

impl View for Quantified {
    type V = QuantM;

    open spec fn view(&self) -> QuantM {
        QuantM { binders: self.binders@, value: clauses_model(self.value@) }
    }
}

/// The clauses with each bound variable replaced by its value.
pub open spec fn constrained_spec(t: Seq<VarM>, cs: Seq<ClauseM>) -> Result<Seq<ClauseM>, Error> {
    fold_clauses_spec(constrain_model(t), cs, 0)
}

/// The clauses with one existential binder for each unbound variable.
pub open spec fn quantify_spec(t: Seq<VarM>, cs: Seq<ClauseM>) -> Result<QuantM, Error> {
    match fold_clauses_spec(requantify_model(t), cs, 0) {
        Ok(v) => Ok(QuantM { binders: unbound_kinds(t), value: v }),
        Err(e) => Err(e),
    }
}

struct Constrain<'a> {
    table: &'a InferenceTable,
}

impl<'a> Folder for Constrain<'a> {
    closed spec fn model(&self) -> FolderM {
        constrain_model(self.table@)
    }

    fn fold_var(&self, depth: usize) -> (r: Result<Ty, Error>) {
        Ok(Ty::BoundVar(depth))
    }

    fn fold_lifetime_var(&self, depth: usize) -> (r: Result<Lifetime, Error>) {
        Ok(Lifetime::BoundVar(depth))
    }

    fn fold_inference_var(&self, var: usize) -> (r: Result<Ty, Error>) {
        if var < self.table.vars.len() {
            proof {
                assert(self.table@[var as int] == self.table.vars@[var as int]@);
            }
            match &self.table.vars[var].value {
                Some(Parameter::Ty(t)) => Ok(t.copy()),
                _ => Ok(Ty::InferenceVar(var)),
            }
        } else {
            Ok(Ty::InferenceVar(var))
        }
    }

    fn fold_inference_lifetime_var(&self, var: usize) -> (r: Result<Lifetime, Error>) {
        if var < self.table.vars.len() {
            proof {
                assert(self.table@[var as int] == self.table.vars@[var as int]@);
            }
            match &self.table.vars[var].value {
                Some(Parameter::Lifetime(l)) => Ok(*l),
                _ => Ok(Lifetime::InferenceVar(var)),
            }
        } else {
            Ok(Lifetime::InferenceVar(var))
        }
    }
}

struct Requantify<'a> {
    table: &'a InferenceTable,
    ranks: Vec<usize>,
}

impl<'a> Requantify<'a> {
    #[verifier::type_invariant]
    spec fn inv(&self) -> bool {
        &&& self.ranks@.len() == self.table@.len()
        &&& forall|x: int|
            0 <= x < self.ranks@.len() ==> #[trigger] self.ranks@[x] as nat == unbound_count(
                self.table@.subrange(0, x),
            )
    }
}

impl<'a> Folder for Requantify<'a> {
    closed spec fn model(&self) -> FolderM {
        requantify_model(self.table@)
    }

    fn fold_var(&self, depth: usize) -> (r: Result<Ty, Error>) {
        Ok(Ty::BoundVar(depth))
    }

    fn fold_lifetime_var(&self, depth: usize) -> (r: Result<Lifetime, Error>) {
        Ok(Lifetime::BoundVar(depth))
    }

    fn fold_inference_var(&self, var: usize) -> (r: Result<Ty, Error>) {
        proof {
            use_type_invariant(self);
        }
        if var < self.table.vars.len() && self.table.vars[var].value.is_none() {
            proof {
                assert(self.table@[var as int] == self.table.vars@[var as int]@);
            }
            Ok(Ty::BoundVar(self.ranks[var]))
        } else {
            proof {
                if var < self.table.vars.len() {
                    assert(self.table@[var as int] == self.table.vars@[var as int]@);
                }
            }
            Err(Error::UnknownVariable(var))
        }
    }

    fn fold_inference_lifetime_var(&self, var: usize) -> (r: Result<Lifetime, Error>) {
        proof {
            use_type_invariant(self);
        }
        if var < self.table.vars.len() && self.table.vars[var].value.is_none() {
            proof {
                assert(self.table@[var as int] == self.table.vars@[var as int]@);
            }
            Ok(Lifetime::BoundVar(self.ranks[var]))
        } else {
            proof {
                if var < self.table.vars.len() {
                    assert(self.table@[var as int] == self.table.vars@[var as int]@);
                }
            }
            Err(Error::UnknownVariable(var))
        }
    }
}

impl InferenceTable {
    /// The clauses with each bound variable replaced by its value; unbound
    /// variables stay as they are.
    pub fn constrained(&self, values: Vec<WhereClause>) -> (r: Result<Vec<WhereClause>, Error>)
        ensures
            match r {
                Ok(cs) => constrained_spec(self@, clauses_model(values@)) == Ok::<
                    Seq<ClauseM>,
                    Error,
                >(clauses_model(cs@)),
                Err(e) => constrained_spec(self@, clauses_model(values@)) == Err::<
                    Seq<ClauseM>,
                    Error,
                >(e),
            },
    {
        fold_clauses(&values, &Constrain { table: self }, 0)
    }

    /// Wraps the clauses in one existential binder for each unbound
    /// variable, in the order of the variables; a reference to any other
    /// variable fails.
    pub fn quantify(&self, values: &Vec<WhereClause>) -> (r: Result<Quantified, Error>)
        ensures
            match r {
                Ok(q) => quantify_spec(self@, clauses_model(values@)) == Ok::<QuantM, Error>(q@),
                Err(e) => quantify_spec(self@, clauses_model(values@)) == Err::<QuantM, Error>(e),
            },
    {
        let ghost t = self@;
        let mut ranks: Vec<usize> = Vec::new();
        let mut binders: Vec<ParameterKind> = Vec::new();
        let mut count: usize = 0;
        let mut i: usize = 0;
        while i < self.vars.len()
            invariant
                0 <= i <= self.vars.len(),
                t == self@,
                t.len() == self.vars@.len(),
                ranks@.len() == i,
                forall|x: int| 0 <= x < i ==> #[trigger] ranks@[x] as nat == unbound_count(
                    t.subrange(0, x),
                ),
                count as nat == unbound_count(t.subrange(0, i as int)),
                count <= i,
                binders@ == unbound_kinds(t.subrange(0, i as int)),
            decreases self.vars.len() - i,
        {
            proof {
                assert(t[i as int] == self.vars@[i as int]@);
                assert(t.subrange(0, i + 1).drop_last() =~= t.subrange(0, i as int));
            }
            ranks.push(count);
            if self.vars[i].value.is_none() {
                binders.push(self.vars[i].kind);
                count = count + 1;
            }
            i = i + 1;
        }
        proof {
            assert(t.subrange(0, i as int) =~= t);
        }
        let folder = Requantify { table: self, ranks };
        match fold_clauses(values, &folder, 0) {
            Ok(value) => Ok(Quantified { binders, value }),
            Err(e) => Err(e),
        }
    }
}

} // verus!
