use chalk_rust::environment::{Environment, InEnvironment};
use chalk_rust::fold::Error;
use chalk_rust::goal::{Goal, Prove, QuantifierKind, Solver};
use chalk_rust::infer::InferenceTable;
use chalk_rust::term::{ApplicationTy, Parameter, ParameterKind, Ty, WhereClause};
use std::sync::Arc;

struct NoSolver;

impl Solver for NoSolver {
    fn solve_all(
        &mut self,
        _infer: &mut InferenceTable,
        _goals: Vec<InEnvironment>,
    ) -> Result<bool, Error> {
        Ok(false)
    }
}

fn ty(t: Ty) -> Parameter {
    Parameter::Ty(t)
}

fn app(name: u64, parameters: Vec<Parameter>) -> Ty {
    Ty::Apply(ApplicationTy { name, parameters })
}

fn clause(trait_id: u64, parameters: Vec<Parameter>) -> WhereClause {
    WhereClause { trait_id, parameters }
}

fn for_all(sub: Goal) -> Goal {
    Goal::Quantified(QuantifierKind::ForAll, ParameterKind::Ty, Box::new(sub))
}

fn there_is(sub: Goal) -> Goal {
    Goal::Quantified(QuantifierKind::Exists, ParameterKind::Ty, Box::new(sub))
}

fn implies(c: WhereClause, sub: Goal) -> Goal {
    Goal::Implies(c, Box::new(sub))
}

fn and(l: Goal, r: Goal) -> Goal {
    Goal::And(Box::new(l), Box::new(r))
}

fn leaf(c: WhereClause) -> Goal {
    Goal::Leaf(c)
}

// forall T. (T: C1) => exists U. (U: C2<T>)
fn nested_goal() -> Goal {
    for_all(implies(
        clause(1, vec![ty(Ty::BoundVar(0))]),
        there_is(leaf(clause(2, vec![ty(Ty::BoundVar(0)), ty(Ty::BoundVar(1))]))),
    ))
}

#[test]
fn leaf_uses_placeholder_and_sees_assumption() {
    let mut solver = NoSolver;
    let prove = Prove::new(&mut solver, Box::new(nested_goal()));
    let goals = prove.goals();
    assert_eq!(goals.len(), 1);
    assert_eq!(
        goals[0].goal,
        clause(2, vec![ty(Ty::InferenceVar(0)), ty(Ty::ForAll(1))])
    );
    assert_eq!(goals[0].environment.universe, 1);
    assert_eq!(
        goals[0].environment.clauses,
        vec![clause(1, vec![ty(Ty::ForAll(1))])]
    );
    let var = prove.table().var(0).unwrap();
    assert_eq!(var.kind, ParameterKind::Ty);
    assert_eq!(var.universe, 1);
    assert_eq!(var.value, None);
    assert!(prove.table().var(1).is_none());
}

#[test]
fn decomposition_is_deterministic() {
    let mut s1 = NoSolver;
    let mut s2 = NoSolver;
    let goal = || {
        and(
            nested_goal(),
            there_is(for_all(leaf(clause(3, vec![ty(Ty::BoundVar(1)), ty(Ty::BoundVar(0))])))),
        )
    };
    let first = Prove::new(&mut s1, Box::new(goal()));
    let second = Prove::new(&mut s2, Box::new(goal()));
    assert_eq!(first.goals(), second.goals());
    assert_eq!(first.goals().len(), 2);
    assert_eq!(first.table().len(), 2);
    assert_eq!(first.table().len(), second.table().len());
    assert_eq!(
        first.goals()[1].goal,
        clause(3, vec![ty(Ty::InferenceVar(1)), ty(Ty::ForAll(1))])
    );
}

#[test]
fn universe_grows_by_one_per_forall() {
    let mut solver = NoSolver;
    // forall. (forall. forall. A) && B, then C beside it at the root.
    let goal = and(
        for_all(and(for_all(for_all(leaf(clause(1, vec![])))), leaf(clause(2, vec![])))),
        leaf(clause(3, vec![])),
    );
    let prove = Prove::new(&mut solver, Box::new(goal));
    let universes: Vec<usize> = prove.goals().iter().map(|g| g.environment.universe).collect();
    assert_eq!(universes, vec![3, 1, 0]);
}

#[test]
fn exists_keeps_universe() {
    let mut solver = NoSolver;
    let goal = for_all(there_is(there_is(leaf(clause(1, vec![ty(Ty::BoundVar(2))])))));
    let prove = Prove::new(&mut solver, Box::new(goal));
    assert_eq!(prove.goals()[0].environment.universe, 1);
    assert_eq!(prove.goals()[0].goal, clause(1, vec![ty(Ty::ForAll(1))]));
    assert_eq!(prove.table().var(0).unwrap().universe, 1);
    assert_eq!(prove.table().var(1).unwrap().universe, 1);
}

#[test]
fn and_branches_share_scope_and_keep_assumptions_apart() {
    let mut solver = NoSolver;
    let goal = for_all(and(leaf(clause(1, vec![])), leaf(clause(2, vec![]))));
    let prove = Prove::new(&mut solver, Box::new(goal));
    let goals = prove.goals();
    assert!(Arc::ptr_eq(&goals[0].environment, &goals[1].environment));
    assert_eq!(goals[0].environment.universe, 1);
    assert!(goals[0].environment.clauses.is_empty());

    let mut solver = NoSolver;
    let assumed = clause(9, vec![ty(app(4, vec![]))]);
    let goal = and(
        implies(assumed, leaf(clause(1, vec![]))),
        leaf(clause(2, vec![])),
    );
    let prove = Prove::new(&mut solver, Box::new(goal));
    let goals = prove.goals();
    assert_eq!(goals[0].environment.clauses, vec![clause(9, vec![ty(app(4, vec![]))])]);
    assert!(goals[1].environment.clauses.is_empty());
    assert_eq!(goals[0].environment.universe, goals[1].environment.universe);
}

#[test]
fn implications_append_in_order() {
    let mut solver = NoSolver;
    let goal = implies(
        clause(1, vec![]),
        implies(clause(2, vec![]), leaf(clause(3, vec![]))),
    );
    let prove = Prove::new(&mut solver, Box::new(goal));
    assert_eq!(
        prove.goals()[0].environment.clauses,
        vec![clause(1, vec![]), clause(2, vec![])]
    );
}

#[test]
fn environment_operations() {
    let root = Environment::new();
    assert_eq!(root.universe, 0);
    assert!(root.clauses.is_empty());
    let inner = root.new_universe();
    assert_eq!(inner.universe, 1);
    let assumed = inner.add_clauses(clause(5, vec![]));
    assert_eq!(assumed.universe, 1);
    assert_eq!(assumed.clauses, vec![clause(5, vec![])]);
    assert!(inner.clauses.is_empty());
    let g = InEnvironment::new(&assumed, clause(6, vec![]));
    assert!(Arc::ptr_eq(&g.environment, &assumed));
}
