//! Goals and their decomposition: a goal tree is flattened into where-clauses,
//! each with the scope in which it is to be proved, and the clauses are handed
//! to a solver and then resolved and re-quantified.
use vstd::prelude::*;
use std::sync::Arc;
use crate::environment::{
    EnvM, Environment, InEnvM, InEnvironment, assume_clause, enter_universe, in_envs_model,
    root_env,
};
use crate::fold::{
    Error, Folder, FolderM, fold_clause, fold_clause_spec, fold_param_spec, fold_params_spec,
    fold_ty_spec,
};
use crate::infer::{
    InferenceTable, InferenceVariable, QuantM, Quantified, VarM, constrained_spec, quantify_spec,
    valid_var,
};
use crate::term::{
    ClauseM, Lifetime, LtM, ParamM, ParameterKind, Ty, TyM, WhereClause, clauses_model,
};
use crate::visit::{
    Visitor, VisitorM, agree, lemma_visit_fold_agree_clause, visit_clause_spec, visit_param_spec,
    visit_params_spec, visit_ty_spec,
};

verus! {

#[derive(Clone, Copy, Debug, PartialEq, Eq, Structural)]
pub enum QuantifierKind {
    ForAll,
    Exists,
}

/// A goal: a tree of quantifiers, implications and conjunctions over
/// where-clauses.
#[derive(Debug, PartialEq, Eq)]
pub enum Goal {
    Quantified(QuantifierKind, ParameterKind, Box<Goal>),
    Implies(WhereClause, Box<Goal>),
    And(Box<Goal>, Box<Goal>),
    Leaf(WhereClause),
}

/// Model of a goal.
pub ghost enum GoalM {
    Quantified(QuantifierKind, ParameterKind, Box<GoalM>),
    Implies(ClauseM, Box<GoalM>),
    And(Box<GoalM>, Box<GoalM>),
    Leaf(ClauseM),
}

pub open spec fn goal_model(g: Goal) -> GoalM
    decreases g,
{
    match g {
        Goal::Quantified(q, k, sub) => GoalM::Quantified(q, k, Box::new(goal_model(*sub))),
        Goal::Implies(c, sub) => GoalM::Implies(c@, Box::new(goal_model(*sub))),
        Goal::And(l, r) => GoalM::And(Box::new(goal_model(*l)), Box::new(goal_model(*r))),
        Goal::Leaf(c) => GoalM::Leaf(c@),
    }
}

impl View for Goal {
    type V = GoalM;

    open spec fn view(&self) -> GoalM {
        goal_model(*self)
    }
}

/// What a binder crossed during decomposition stands for: a placeholder
/// in a universe, or an inference variable.
#[derive(Clone, Copy, Debug, PartialEq, Eq, Structural)]
pub enum Binding {
    ForAll(usize),
    Exists(InferenceVariable),
}

/// The substitution for a binding stack whose last entry is the innermost
/// binder: depth `d` reads entry `len - 1 - d`.
pub open spec fn subst_model(b: Seq<Binding>) -> FolderM {
    FolderM {
        var: |d: nat|
            if d < b.len() {
                match b[b.len() - 1 - d] {
                    Binding::ForAll(u) => Ok::<TyM, Error>(TyM::ForAll(u as nat)),
                    Binding::Exists(v) => Ok::<TyM, Error>(TyM::InferenceVar(v.index as nat)),
                }
            } else {
                Err::<TyM, Error>(Error::UnboundReference(d as usize))
            },
        lifetime: |d: nat|
            if d < b.len() {
                match b[b.len() - 1 - d] {
                    Binding::ForAll(u) => Ok::<LtM, Error>(LtM::ForAll(u as nat)),
                    Binding::Exists(v) => Ok::<LtM, Error>(LtM::InferenceVar(v.index as nat)),
                }
            } else {
                Err::<LtM, Error>(Error::UnboundReference(d as usize))
            },
        infer: |x: nat| Ok::<TyM, Error>(TyM::InferenceVar(x)),
        infer_lifetime: |x: nat| Ok::<LtM, Error>(LtM::InferenceVar(x)),
    }
}

/// A clause with every bound reference replaced through the binding stack.
pub open spec fn subst_clause(b: Seq<Binding>, c: ClauseM) -> ClauseM {
    match fold_clause_spec(subst_model(b), c, 0) {
        Ok(d) => d,
        Err(_) => c,
    }
}

/// The visitor that reports bound references to binders beyond the `n`
/// innermost ones.
pub open spec fn beyond_model(n: nat) -> VisitorM {
    VisitorM {
        var: |d: nat| d >= n,
        lifetime: |d: nat| d >= n,
        infer: |x: nat| false,
        infer_lifetime: |x: nat| false,
    }
}

/// Every bound reference of the clause refers to one of `n` binders.
pub open spec fn clause_closed(c: ClauseM, n: nat) -> bool {
    !visit_clause_spec(beyond_model(n), c, 0)
}

/// Every bound reference of the goal refers to one of its own binders or to
/// one of `n` binders outside it.
pub open spec fn goal_closed(g: GoalM, n: nat) -> bool
    decreases g,
{
    match g {
        GoalM::Quantified(_, _, sub) => goal_closed(*sub, n + 1),
        GoalM::Implies(c, sub) => clause_closed(c, n) && goal_closed(*sub, n),
        GoalM::And(l, r) => goal_closed(*l, n) && goal_closed(*r, n),
        GoalM::Leaf(c) => clause_closed(c, n),
    }
}

/// The largest number of universal binders on one path of the goal.
pub open spec fn universe_depth(g: GoalM) -> nat
    decreases g,
{
    match g {
        GoalM::Quantified(QuantifierKind::ForAll, _, sub) => universe_depth(*sub) + 1,
        GoalM::Quantified(QuantifierKind::Exists, _, sub) => universe_depth(*sub),
        GoalM::Implies(_, sub) => universe_depth(*sub),
        GoalM::And(l, r) => if universe_depth(*l) >= universe_depth(*r) {
            universe_depth(*l)
        } else {
            universe_depth(*r)
        },
        GoalM::Leaf(_) => 0,
    }
}

/// The number of existential binders in the goal.
pub open spec fn exists_count(g: GoalM) -> nat
    decreases g,
{
    match g {
        GoalM::Quantified(QuantifierKind::ForAll, _, sub) => exists_count(*sub),
        GoalM::Quantified(QuantifierKind::Exists, _, sub) => exists_count(*sub) + 1,
        GoalM::Implies(_, sub) => exists_count(*sub),
        GoalM::And(l, r) => exists_count(*l) + exists_count(*r),
        GoalM::Leaf(_) => 0,
    }
}

/// The clauses, each in its scope, that decomposing `g` in scope `env` with
/// binding stack `b` yields, in left-to-right order, and the variable table
/// `t` extended by the variables created on the way.
pub open spec fn decompose_spec(g: GoalM, env: EnvM, b: Seq<Binding>, t: Seq<VarM>) -> (
    Seq<InEnvM>,
    Seq<VarM>,
)
    decreases g,
{
    match g {
        GoalM::Quantified(QuantifierKind::ForAll, _, sub) => {
            let e = enter_universe(env);
            decompose_spec(*sub, e, b.push(Binding::ForAll(e.universe as usize)), t)
        },
        GoalM::Quantified(QuantifierKind::Exists, k, sub) => decompose_spec(
            *sub,
            env,
            b.push(Binding::Exists(InferenceVariable { index: t.len() as usize })),
            t.push(VarM { kind: k, universe: env.universe, value: None }),
        ),
        GoalM::Implies(c, sub) => decompose_spec(*sub, assume_clause(env, subst_clause(b, c)), b, t),
        GoalM::And(l, r) => {
            let left = decompose_spec(*l, env, b, t);
            let right = decompose_spec(*r, env, b, left.1);
            (left.0 + right.0, right.1)
        },
        GoalM::Leaf(c) => (seq![InEnvM { env: env, goal: subst_clause(b, c) }], t),
    }
}

/// Decomposition creates one variable for each existential binder.
pub proof fn lemma_decompose_vars(g: GoalM, env: EnvM, b: Seq<Binding>, t: Seq<VarM>)
    ensures
        decompose_spec(g, env, b, t).1.len() == t.len() + exists_count(g),
    decreases g,
{
    match g {
        GoalM::Quantified(QuantifierKind::ForAll, _, sub) => {
            let e = enter_universe(env);
            lemma_decompose_vars(*sub, e, b.push(Binding::ForAll(e.universe as usize)), t);
        },
        GoalM::Quantified(QuantifierKind::Exists, k, sub) => {
            lemma_decompose_vars(
                *sub,
                env,
                b.push(Binding::Exists(InferenceVariable { index: t.len() as usize })),
                t.push(VarM { kind: k, universe: env.universe, value: None }),
            );
        },
        GoalM::Implies(c, sub) => {
            lemma_decompose_vars(*sub, assume_clause(env, subst_clause(b, c)), b, t);
        },
        GoalM::And(l, r) => {
            lemma_decompose_vars(*l, env, b, t);
            lemma_decompose_vars(*r, env, b, decompose_spec(*l, env, b, t).1);
        },
        GoalM::Leaf(_) => {},
    }
}

/// The folder that resolves bound references through a binding stack.
pub struct Subst<'b> {
    bindings: &'b Vec<Binding>,
}

impl<'b> Subst<'b> {
    pub fn new(bindings: &'b Vec<Binding>) -> (r: Subst<'b>)
        ensures
            r.model() == subst_model(bindings@),
    {
        Subst { bindings }
    }
}

/// The visitor that reports every bound reference outside the term.
pub struct FindBound;

impl Visitor for FindBound {
    open spec fn model(&self) -> VisitorM {
        beyond_model(0)
    }

    fn visit_var(&self, depth: usize) -> (r: bool) {
        true
    }

    fn visit_lifetime_var(&self, depth: usize) -> (r: bool) {
        true
    }

    fn visit_inference_var(&self, var: usize) -> (r: bool) {
        false
    }

    fn visit_inference_lifetime_var(&self, var: usize) -> (r: bool) {
        false
    }
}

impl<'b> Folder for Subst<'b> {
    closed spec fn model(&self) -> FolderM {
        subst_model(self.bindings@)
    }

    fn fold_var(&self, depth: usize) -> (r: Result<Ty, Error>) {
        let n = self.bindings.len();
        if depth < n {
            match self.bindings[n - 1 - depth] {
                Binding::ForAll(u) => Ok(Ty::ForAll(u)),
                Binding::Exists(v) => Ok(Ty::InferenceVar(v.index)),
            }
        } else {
            Err(Error::UnboundReference(depth))
        }
    }

    fn fold_lifetime_var(&self, depth: usize) -> (r: Result<Lifetime, Error>) {
        let n = self.bindings.len();
        if depth < n {
            match self.bindings[n - 1 - depth] {
                Binding::ForAll(u) => Ok(Lifetime::ForAll(u)),
                Binding::Exists(v) => Ok(Lifetime::InferenceVar(v.index)),
            }
        } else {
            Err(Error::UnboundReference(depth))
        }
    }

    fn fold_inference_var(&self, var: usize) -> (r: Result<Ty, Error>) {
        Ok(Ty::InferenceVar(var))
    }

    fn fold_inference_lifetime_var(&self, var: usize) -> (r: Result<Lifetime, Error>) {
        Ok(Lifetime::InferenceVar(var))
    }
}

impl<'b> Subst<'b> {
    /// Replaces every bound reference of a closed clause through the stack.
    fn apply(bindings: &Vec<Binding>, value: &WhereClause) -> (r: WhereClause)
        requires
            clause_closed(value@, bindings@.len()),
        ensures
            r@ == subst_clause(bindings@, value@),
            fold_clause_spec(subst_model(bindings@), value@, 0) is Ok,
    {
        proof {
            lemma_subst_closed(bindings@, value@);
        }
        match fold_clause(value, &Subst { bindings }, 0) {
            Ok(c) => c,
            Err(_) => value.copy(),
        }
    }
}

/// On a closed clause the substitution succeeds.
pub proof fn lemma_subst_closed(b: Seq<Binding>, c: ClauseM)
    requires
        clause_closed(c, b.len()),
    ensures
        fold_clause_spec(subst_model(b), c, 0) is Ok,
{
    let v = beyond_model(b.len());
    let f = subst_model(b);
    assert forall|d: nat| #[trigger] (v.var)(d) <==> (f.var)(d) is Err by {}
    assert forall|d: nat| #[trigger] (v.lifetime)(d) <==> (f.lifetime)(d) is Err by {}
    assert forall|x: nat| #[trigger] (v.infer)(x) <==> (f.infer)(x) is Err by {}
    assert forall|x: nat| #[trigger] (v.infer_lifetime)(x) <==> (f.infer_lifetime)(x) is Err by {}
    assert(agree(v, f));
    lemma_visit_fold_agree_clause(v, f, c, 0);
}

/// Decides whether a list of clauses, each in its scope, can all be proved.
/// It may bind variables of the table as it goes.
pub trait Solver {
    fn solve_all(&mut self, infer: &mut InferenceTable, goals: Vec<InEnvironment>) -> Result<
        bool,
        Error,
    >;
}

/// The outcome of proving a goal: whether the solver succeeded, and the
/// clauses of the goal as the solver left them, re-quantified.
#[derive(Debug, PartialEq, Eq)]
pub struct Solution {
    pub successful: bool,
    pub refined_goal: Quantified,
}

/// Model of a solution.
pub ghost struct SolutionM {
    pub successful: bool,
    pub refined_goal: QuantM,
}

impl View for Solution {
    type V = SolutionM;

    open spec fn view(&self) -> SolutionM {
        SolutionM { successful: self.successful, refined_goal: self.refined_goal@ }
    }
}

/// The clauses of a list of clauses in their scopes.
pub open spec fn goals_of(gs: Seq<InEnvM>) -> Seq<ClauseM> {
    gs.map_values(|g: InEnvM| g.goal)
}

/// The solution for clauses `gs` once the solver has answered `successful`
/// and left the table as `t`.
pub open spec fn refine_spec(t: Seq<VarM>, gs: Seq<InEnvM>, successful: bool) -> Result<
    SolutionM,
    Error,
> {
    match constrained_spec(t, goals_of(gs)) {
        Ok(cs) => match quantify_spec(t, cs) {
            Ok(q) => Ok(SolutionM { successful: successful, refined_goal: q }),
            Err(e) => Err(e),
        },
        Err(e) => Err(e),
    }
}

/// The decomposition of a goal from the root scope, with no binder around it
/// and an empty table.
pub open spec fn decompose_root(g: GoalM) -> (Seq<InEnvM>, Seq<VarM>) {
    decompose_spec(g, root_env(), Seq::empty(), Seq::empty())
}

/// A goal that can be decomposed from the root: closed, and with no more
/// universes and variables than a `usize` counts.
pub open spec fn goal_ready(g: GoalM) -> bool {
    &&& goal_closed(g, 0)
    &&& universe_depth(g) <= usize::MAX
    &&& exists_count(g) <= usize::MAX
}

/// Resolves the clauses through the table and re-quantifies them.
pub fn refine(infer: &InferenceTable, goals: &Vec<InEnvironment>, successful: bool) -> (r: Result<
    Solution,
    Error,
>)
    ensures
        match r {
            Ok(s) => refine_spec(infer@, in_envs_model(goals@), successful) == Ok::<
                SolutionM,
                Error,
            >(s@),
            Err(e) => refine_spec(infer@, in_envs_model(goals@), successful) == Err::<
                SolutionM,
                Error,
            >(e),
        },
{
    let mut clauses: Vec<WhereClause> = Vec::new();
    let mut i: usize = 0;
    while i < goals.len()
        invariant
            0 <= i <= goals.len(),
            clauses@.len() == i,
            forall|j: int| 0 <= j < i ==> #[trigger] clauses@[j]@ == goals@[j].goal@,
        decreases goals.len() - i,
    {
        clauses.push(goals[i].goal.copy());
        i = i + 1;
    }
    proof {
        assert(clauses_model(clauses@) =~= goals_of(in_envs_model(goals@)));
    }
    let constrained = match infer.constrained(clauses) {
        Ok(cs) => cs,
        Err(e) => return Err(e),
    };
    match infer.quantify(&constrained) {
        Ok(q) => Ok(Solution { successful, refined_goal: q }),
        Err(e) => Err(e),
    }
}

/// Proves one goal with a solver.
pub struct Prove<'s, S: Solver> {
    solver: &'s mut S,
    infer: InferenceTable,
    goals: Vec<InEnvironment>,
}

impl<'s, S: Solver> Prove<'s, S> {
    /// The clauses that decomposition produced, in order, with their scopes.
    pub closed spec fn goals_view(&self) -> Seq<InEnvM> {
        in_envs_model(self.goals@)
    }

    /// The table of variables.
    pub closed spec fn table_view(&self) -> Seq<VarM> {
        self.infer@
    }

    /// The clauses that decomposition produced, in order, with their scopes.
    pub fn goals(&self) -> (r: &Vec<InEnvironment>)
        ensures
            in_envs_model(r@) == self.goals_view(),
    {
        &self.goals
    }

    /// The table of variables.
    pub fn table(&self) -> (r: &InferenceTable)
        ensures
            r@ == self.table_view(),
    {
        &self.infer
    }

    /// Decomposes `goal` from the root scope, into a fresh table.
    pub fn new(solver: &'s mut S, goal: Box<Goal>) -> (r: Self)
        requires
            goal_ready(goal@),
        ensures
            r.goals_view() == decompose_root(goal@).0,
            r.table_view() == decompose_root(goal@).1,
    {
        let mut prove = Prove { solver: solver, infer: InferenceTable::new(), goals: Vec::new() };
        let environment = Environment::new();
        let mut bindings: Vec<Binding> = Vec::new();
        proof {
            assert(in_envs_model(prove.goals@) =~= Seq::<InEnvM>::empty());
        }
        prove.decompose(&goal, &environment, &mut bindings);
        proof {
            assert(Seq::<InEnvM>::empty() + decompose_root(goal@).0 =~= decompose_root(goal@).0);
        }
        prove
    }

    /// Walks `goal` depth first, left to right: a universal binder enters a
    /// new universe, an existential one creates a variable in the current
    /// universe, an implication assumes its clause for its subgoal only, and
    /// a leaf is recorded with its scope. The stack is as before on return.
    fn decompose(&mut self, goal: &Goal, environment: &Arc<Environment>, bindings: &mut Vec<Binding>)
        requires
            goal_closed(goal@, old(bindings)@.len()),
            environment@.universe + universe_depth(goal@) <= usize::MAX,
            old(self).infer@.len() + exists_count(goal@) <= usize::MAX,
        ensures
            final(bindings)@ == old(bindings)@,
            final(self).goals_view() == old(self).goals_view() + decompose_spec(
                goal@,
                environment@,
                old(bindings)@,
                old(self).infer@,
            ).0,
            final(self).infer@ == decompose_spec(goal@, environment@, old(bindings)@, old(self).infer@).1,
        decreases goal,
    {
        match goal {
            Goal::Quantified(QuantifierKind::ForAll, _, subgoal) => {
                let new_environment = environment.new_universe();
                bindings.push(Binding::ForAll(new_environment.universe));
                self.decompose(subgoal, &new_environment, bindings);
                let _ = bindings.pop();
                proof {
                    assert(bindings@ =~= old(bindings)@);
                }
            },
            Goal::Quantified(QuantifierKind::Exists, kind, subgoal) => {
                let var = self.infer.new_parameter_variable(*kind, environment.universe);
                bindings.push(Binding::Exists(var));
                self.decompose(subgoal, environment, bindings);
                let _ = bindings.pop();
                proof {
                    assert(bindings@ =~= old(bindings)@);
                }
            },
            Goal::Implies(wc, subgoal) => {
                let wc = Subst::apply(bindings, wc);
                let new_environment = environment.add_clauses(wc);
                self.decompose(subgoal, &new_environment, bindings);
            },
            Goal::And(subgoal1, subgoal2) => {
                proof {
                    lemma_decompose_vars(subgoal1@, environment@, bindings@, self.infer@);
                }
                self.decompose(subgoal1, environment, bindings);
                self.decompose(subgoal2, environment, bindings);
                proof {
                    let left = decompose_spec(subgoal1@, environment@, old(bindings)@, old(self).infer@);
                    let right = decompose_spec(subgoal2@, environment@, old(bindings)@, left.1);
                    assert(old(self).goals_view() + left.0 + right.0 =~= old(self).goals_view() + (left.0 + right.0));
                }
            },
            Goal::Leaf(wc) => {
                let wc = Subst::apply(bindings, wc);
                let g = InEnvironment::new(environment, wc);
                self.goals.push(g);
                proof {
                    assert(in_envs_model(self.goals@) =~= old(self).goals_view() + seq![g@]);
                }
            },
        }
    }

    /// Hands the clauses to the solver, then resolves them through the table
    /// as the solver left it and re-quantifies them.
    ///
    /// Whatever the solver did to the table, the solution is the one that
    /// `refine` gives for the clauses of the goal and some valid table.
    pub fn solve(self) -> (r: Result<Solution, Error>)
        ensures
            r is Ok ==> exists|t: Seq<VarM>|
                (forall|i: int| 0 <= i < t.len() ==> valid_var(#[trigger] t[i])) && refine_spec(
                    t,
                    self.goals_view(),
                    r->Ok_0.successful,
                ) == Ok::<SolutionM, Error>(r->Ok_0@),
    {
        let ghost gv = self.goals_view();
        let mut this = self;
        let goals = copy_goals(&this.goals);
        let successful = match this.solver.solve_all(&mut this.infer, goals) {
            Ok(b) => b,
            Err(e) => return Err(e),
        };
        this.infer.lemma_valid();
        let r = refine(&this.infer, &this.goals, successful);
        proof {
            if r is Ok {
                let t = this.infer@;
                assert(in_envs_model(this.goals@) == gv);
                assert(refine_spec(t, gv, r->Ok_0.successful) == Ok::<SolutionM, Error>(
                    r->Ok_0@,
                ));
                assert(forall|i: int| 0 <= i < t.len() ==> valid_var(#[trigger] t[i]));
            }
        }
        r
    }
}

/// A copy of a list of clauses in their scopes; the scopes are shared.
fn copy_goals(goals: &Vec<InEnvironment>) -> (r: Vec<InEnvironment>)
    ensures
        in_envs_model(r@) == in_envs_model(goals@),
{
    let mut out: Vec<InEnvironment> = Vec::new();
    let mut i: usize = 0;
    while i < goals.len()
        invariant
            0 <= i <= goals.len(),
            out@.len() == i,
            forall|j: int| 0 <= j < i ==> #[trigger] out@[j]@ == goals@[j]@,
        decreases goals.len() - i,
    {
        out.push(InEnvironment::new(&goals[i].environment, goals[i].goal.copy()));
        i = i + 1;
    }
    proof {
        assert(in_envs_model(out@) =~= in_envs_model(goals@));
    }
    out
}

/// Substitution leaves no bound reference in a type: whatever it succeeds on
/// comes out closed.
pub proof fn lemma_subst_no_bound_ty(b: Seq<Binding>, t: TyM)
    requires
        fold_ty_spec(subst_model(b), t, 0) is Ok,
    ensures
        !visit_ty_spec(beyond_model(0), fold_ty_spec(subst_model(b), t, 0)->Ok_0, 0),
    decreases t,
{
    if let TyM::Apply(_, ps) = t {
        lemma_subst_no_bound_params(b, ps);
    }
}

/// The same, for a parameter.
pub proof fn lemma_subst_no_bound_param(b: Seq<Binding>, p: ParamM)
    requires
        fold_param_spec(subst_model(b), p, 0) is Ok,
    ensures
        !visit_param_spec(beyond_model(0), fold_param_spec(subst_model(b), p, 0)->Ok_0, 0),
    decreases p,
{
    if let ParamM::Ty(t) = p {
        lemma_subst_no_bound_ty(b, t);
    }
}

/// The same, for a list of parameters.
pub proof fn lemma_subst_no_bound_params(b: Seq<Binding>, ps: Seq<ParamM>)
    requires
        fold_params_spec(subst_model(b), ps, 0) is Ok,
    ensures
        !visit_params_spec(beyond_model(0), fold_params_spec(subst_model(b), ps, 0)->Ok_0, 0),
    decreases ps,
{
    if ps.len() > 0 {
        lemma_subst_no_bound_params(b, ps.drop_last());
        lemma_subst_no_bound_param(b, ps.last());
        let qs = fold_params_spec(subst_model(b), ps, 0)->Ok_0;
        let init = fold_params_spec(subst_model(b), ps.drop_last(), 0)->Ok_0;
        assert(qs.drop_last() =~= init);
    }
}

/// Substituting a closed clause through a binding stack and then visiting
/// the result finds no bound reference at all: the clauses that
/// decomposition produces hold placeholders and variables only.
pub proof fn lemma_subst_closes(b: Seq<Binding>, c: ClauseM)
    requires
        clause_closed(c, b.len()),
    ensures
        clause_closed(subst_clause(b, c), 0),
{
    lemma_subst_closed(b, c);
    lemma_subst_no_bound_params(b, c.parameters);
}

/// All clauses of a scope record are closed.
pub open spec fn env_closed(e: EnvM) -> bool {
    forall|j: int| 0 <= j < e.clauses.len() ==> clause_closed(#[trigger] e.clauses[j], 0)
}

/// Decomposing a closed goal leaves no bound reference: every clause it
/// yields, and every clause assumed in its scope, holds placeholders and
/// variables only.
pub proof fn lemma_decompose_closed(g: GoalM, env: EnvM, b: Seq<Binding>, t: Seq<VarM>)
    requires
        goal_closed(g, b.len()),
        env_closed(env),
    ensures
        forall|i: int|
            0 <= i < decompose_spec(g, env, b, t).0.len() ==> {
                let r = #[trigger] decompose_spec(g, env, b, t).0[i];
                clause_closed(r.goal, 0) && env_closed(r.env)
            },
    decreases g,
{
    let r = decompose_spec(g, env, b, t).0;
    match g {
        GoalM::Quantified(QuantifierKind::ForAll, _, sub) => {
            let e = enter_universe(env);
            let b2 = b.push(Binding::ForAll(e.universe as usize));
            assert(env_closed(e)) by {
                assert forall|j: int| 0 <= j < e.clauses.len() implies clause_closed(
                    #[trigger] e.clauses[j],
                    0,
                ) by {
                    assert(e.clauses[j] == env.clauses[j]);
                }
            }
            lemma_decompose_closed(*sub, e, b2, t);
            assert forall|i: int| 0 <= i < r.len() implies {
                let x = #[trigger] decompose_spec(g, env, b, t).0[i];
                clause_closed(x.goal, 0) && env_closed(x.env)
            } by {
                assert(r[i] == decompose_spec(*sub, e, b2, t).0[i]);
            }
        },
        GoalM::Quantified(QuantifierKind::Exists, k, sub) => {
            let b2 = b.push(Binding::Exists(InferenceVariable { index: t.len() as usize }));
            let t2 = t.push(VarM { kind: k, universe: env.universe, value: None });
            lemma_decompose_closed(*sub, env, b2, t2);
            assert forall|i: int| 0 <= i < r.len() implies {
                let x = #[trigger] decompose_spec(g, env, b, t).0[i];
                clause_closed(x.goal, 0) && env_closed(x.env)
            } by {
                assert(r[i] == decompose_spec(*sub, env, b2, t2).0[i]);
            }
        },
        GoalM::Implies(c, sub) => {
            lemma_subst_closes(b, c);
            let e = assume_clause(env, subst_clause(b, c));
            assert(env_closed(e)) by {
                assert forall|j: int| 0 <= j < e.clauses.len() implies clause_closed(
                    #[trigger] e.clauses[j],
                    0,
                ) by {
                    if j < env.clauses.len() {
                        assert(e.clauses[j] == env.clauses[j]);
                    }
                }
            }
            lemma_decompose_closed(*sub, e, b, t);
            assert forall|i: int| 0 <= i < r.len() implies {
                let x = #[trigger] decompose_spec(g, env, b, t).0[i];
                clause_closed(x.goal, 0) && env_closed(x.env)
            } by {
                assert(r[i] == decompose_spec(*sub, e, b, t).0[i]);
            }
        },
        GoalM::And(l, rt) => {
            let left = decompose_spec(*l, env, b, t);
            lemma_decompose_closed(*l, env, b, t);
            lemma_decompose_closed(*rt, env, b, left.1);
            let n = left.0.len();
            assert forall|i: int| 0 <= i < r.len() implies {
                let x = #[trigger] decompose_spec(g, env, b, t).0[i];
                clause_closed(x.goal, 0) && env_closed(x.env)
            } by {
                if i < n {
                    assert(r[i] == left.0[i]);
                } else {
                    assert(r[i] == decompose_spec(*rt, env, b, left.1).0[i - n]);
                }
            }
        },
        GoalM::Leaf(c) => {
            lemma_subst_closes(b, c);
            assert(r[0] == InEnvM { env: env, goal: subst_clause(b, c) });
        },
    }
}

/// Decomposition is deterministic: two provers built from the same goal hold
/// the same clauses, in the same scopes, and the same table.
pub proof fn lemma_decompose_deterministic<'a, 'b, S: Solver>(
    g: GoalM,
    first: &Prove<'a, S>,
    second: &Prove<'b, S>,
)
    requires
        first.goals_view() == decompose_root(g).0,
        first.table_view() == decompose_root(g).1,
        second.goals_view() == decompose_root(g).0,
        second.table_view() == decompose_root(g).1,
    ensures
        first.goals_view() == second.goals_view(),
        first.table_view() == second.table_view(),
{
}

/// For each leaf of the goal, left to right: the number of universal
/// binders and the number of implications on the path down to it.
pub open spec fn leaf_scopes(g: GoalM) -> Seq<(nat, nat)>
    decreases g,
{
    match g {
        GoalM::Quantified(QuantifierKind::ForAll, _, sub) => leaf_scopes(*sub).map_values(
            |p: (nat, nat)| (p.0 + 1, p.1),
        ),
        GoalM::Quantified(QuantifierKind::Exists, _, sub) => leaf_scopes(*sub),
        GoalM::Implies(_, sub) => leaf_scopes(*sub).map_values(|p: (nat, nat)| (p.0, p.1 + 1)),
        GoalM::And(l, r) => leaf_scopes(*l) + leaf_scopes(*r),
        GoalM::Leaf(_) => seq![(0nat, 0nat)],
    }
}

/// The scope of each clause that decomposition yields: its universe is the
/// starting one plus one for each universal binder above the leaf, and its
/// assumed clauses are the starting ones followed by one for each
/// implication above the leaf and no other. Branches of a conjunction thus
/// start from the same scope and never see each other's assumptions.
pub proof fn lemma_decompose_scopes(g: GoalM, env: EnvM, b: Seq<Binding>, t: Seq<VarM>)
    ensures
        decompose_spec(g, env, b, t).0.len() == leaf_scopes(g).len(),
        forall|i: int|
            0 <= i < leaf_scopes(g).len() ==> {
                let e = (#[trigger] decompose_spec(g, env, b, t).0[i]).env;
                &&& e.universe == env.universe + leaf_scopes(g)[i].0
                &&& e.clauses.len() == env.clauses.len() + leaf_scopes(g)[i].1
                &&& e.clauses.subrange(0, env.clauses.len() as int) == env.clauses
            },
    decreases g,
{
    let r = decompose_spec(g, env, b, t).0;
    match g {
        GoalM::Quantified(QuantifierKind::ForAll, _, sub) => {
            let e = enter_universe(env);
            lemma_decompose_scopes(*sub, e, b.push(Binding::ForAll(e.universe as usize)), t);
        },
        GoalM::Quantified(QuantifierKind::Exists, k, sub) => {
            lemma_decompose_scopes(
                *sub,
                env,
                b.push(Binding::Exists(InferenceVariable { index: t.len() as usize })),
                t.push(VarM { kind: k, universe: env.universe, value: None }),
            );
        },
        GoalM::Implies(c, sub) => {
            let e = assume_clause(env, subst_clause(b, c));
            lemma_decompose_scopes(*sub, e, b, t);
            assert forall|i: int| 0 <= i < leaf_scopes(g).len() implies {
                let e2 = (#[trigger] decompose_spec(g, env, b, t).0[i]).env;
                &&& e2.universe == env.universe + leaf_scopes(g)[i].0
                &&& e2.clauses.len() == env.clauses.len() + leaf_scopes(g)[i].1
                &&& e2.clauses.subrange(0, env.clauses.len() as int) == env.clauses
            } by {
                let e2 = r[i].env;
                assert(e2.clauses.subrange(0, e.clauses.len() as int) == e.clauses);
                assert(e2.clauses.subrange(0, env.clauses.len() as int) =~= e.clauses.subrange(
                    0,
                    env.clauses.len() as int,
                ));
                assert(e.clauses.subrange(0, env.clauses.len() as int) =~= env.clauses);
            }
        },
        GoalM::And(l, rt) => {
            let left = decompose_spec(*l, env, b, t);
            lemma_decompose_scopes(*l, env, b, t);
            lemma_decompose_scopes(*rt, env, b, left.1);
            let n = leaf_scopes(*l).len();
            assert forall|i: int| 0 <= i < leaf_scopes(g).len() implies {
                let e2 = (#[trigger] decompose_spec(g, env, b, t).0[i]).env;
                &&& e2.universe == env.universe + leaf_scopes(g)[i].0
                &&& e2.clauses.len() == env.clauses.len() + leaf_scopes(g)[i].1
                &&& e2.clauses.subrange(0, env.clauses.len() as int) == env.clauses
            } by {
                if i < n {
                    assert(r[i] == left.0[i]);
                } else {
                    assert(r[i] == decompose_spec(*rt, env, b, left.1).0[i - n]);
                }
            }
        },
        GoalM::Leaf(_) => {
            assert(env.clauses.subrange(0, env.clauses.len() as int) =~= env.clauses);
        },
    }
}

/// A conjunction of two leaves yields their two clauses, in order, both in
/// the scope of the conjunction itself.
pub proof fn lemma_and_leaves_share_scope(
    a: ClauseM,
    c: ClauseM,
    env: EnvM,
    b: Seq<Binding>,
    t: Seq<VarM>,
)
    ensures
        decompose_spec(
            GoalM::And(Box::new(GoalM::Leaf(a)), Box::new(GoalM::Leaf(c))),
            env,
            b,
            t,
        ).0 == seq![
            InEnvM { env: env, goal: subst_clause(b, a) },
            InEnvM { env: env, goal: subst_clause(b, c) },
        ],
{
    let g = GoalM::And(Box::new(GoalM::Leaf(a)), Box::new(GoalM::Leaf(c)));
    let left = decompose_spec(GoalM::Leaf(a), env, b, t);
    let right = decompose_spec(GoalM::Leaf(c), env, b, left.1);
    assert(left.0 == seq![InEnvM { env: env, goal: subst_clause(b, a) }]);
    assert(right.0 == seq![InEnvM { env: env, goal: subst_clause(b, c) }]);
    assert(decompose_spec(g, env, b, t).0 == left.0 + right.0);
    assert(decompose_spec(g, env, b, t).0 =~= seq![
        InEnvM { env: env, goal: subst_clause(b, a) },
        InEnvM { env: env, goal: subst_clause(b, c) },
    ]);
}

} // verus!
