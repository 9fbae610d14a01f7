use chalk_rust::environment::InEnvironment;
use chalk_rust::fold::Error;
use chalk_rust::goal::{refine, Goal, Prove, QuantifierKind, Solver};
use chalk_rust::infer::{BindError, InferenceTable, InferenceVariable, Quantified};
use chalk_rust::term::{ApplicationTy, Lifetime, Parameter, ParameterKind, Ty, WhereClause};

/// Succeeds when every clause is among the ones its scope assumes.
struct AssumptionSolver;

impl Solver for AssumptionSolver {
    fn solve_all(
        &mut self,
        _infer: &mut InferenceTable,
        goals: Vec<InEnvironment>,
    ) -> Result<bool, Error> {
        Ok(goals.iter().all(|g| g.environment.clauses.contains(&g.goal)))
    }
}

/// Binds the first variable to a fixed type and succeeds.
struct BindFirst;

impl Solver for BindFirst {
    fn solve_all(
        &mut self,
        infer: &mut InferenceTable,
        _goals: Vec<InEnvironment>,
    ) -> Result<bool, Error> {
        infer
            .bind(InferenceVariable { index: 0 }, Parameter::Ty(app(7, vec![])))
            .unwrap();
        Ok(true)
    }
}

struct Failing;

impl Solver for Failing {
    fn solve_all(
        &mut self,
        _infer: &mut InferenceTable,
        _goals: Vec<InEnvironment>,
    ) -> Result<bool, Error> {
        Err(Error::Rejected(3))
    }
}

fn ty(t: Ty) -> Parameter {
    Parameter::Ty(t)
}

fn app(name: u64, parameters: Vec<Parameter>) -> Ty {
    Ty::Apply(ApplicationTy { name, parameters })
}

fn clause(trait_id: u64, parameters: Vec<Parameter>) -> WhereClause {
    WhereClause { trait_id, parameters }
}

fn quantified(q: QuantifierKind, sub: Goal) -> Goal {
    Goal::Quantified(q, ParameterKind::Ty, Box::new(sub))
}

#[test]
fn assumed_clause_is_proved() {
    let mut solver = AssumptionSolver;
    let c = || clause(1, vec![ty(Ty::BoundVar(0))]);
    let goal = quantified(
        QuantifierKind::ForAll,
        Goal::Implies(c(), Box::new(Goal::Leaf(c()))),
    );
    let solution = Prove::new(&mut solver, Box::new(goal)).solve().unwrap();
    assert!(solution.successful);
    assert_eq!(
        solution.refined_goal,
        Quantified { binders: vec![], value: vec![clause(1, vec![ty(Ty::ForAll(1))])] }
    );
}

#[test]
fn unassumed_clause_is_not_proved() {
    let mut solver = AssumptionSolver;
    let goal = quantified(
        QuantifierKind::ForAll,
        Goal::Leaf(clause(1, vec![ty(Ty::BoundVar(0))])),
    );
    let solution = Prove::new(&mut solver, Box::new(goal)).solve().unwrap();
    assert!(!solution.successful);
    assert_eq!(solution.refined_goal.value, vec![clause(1, vec![ty(Ty::ForAll(1))])]);
}

#[test]
fn unbound_variable_is_requantified() {
    let mut solver = AssumptionSolver;
    let goal = quantified(
        QuantifierKind::Exists,
        Goal::Implies(
            clause(1, vec![ty(Ty::BoundVar(0))]),
            Box::new(Goal::Leaf(clause(1, vec![ty(Ty::BoundVar(0))]))),
        ),
    );
    let solution = Prove::new(&mut solver, Box::new(goal)).solve().unwrap();
    assert!(solution.successful);
    // The goal again, with its variable renamed to the new binder.
    assert_eq!(
        solution.refined_goal,
        Quantified {
            binders: vec![ParameterKind::Ty],
            value: vec![clause(1, vec![ty(Ty::BoundVar(0))])],
        }
    );
}

#[test]
fn bound_variable_is_replaced_by_its_value() {
    let mut solver = BindFirst;
    let goal = quantified(
        QuantifierKind::Exists,
        Goal::Quantified(
            QuantifierKind::Exists,
            ParameterKind::Lifetime,
            Box::new(Goal::Leaf(clause(
                2,
                vec![
                    ty(app(9, vec![ty(Ty::BoundVar(1))])),
                    Parameter::Lifetime(Lifetime::BoundVar(0)),
                ],
            ))),
        ),
    );
    let solution = Prove::new(&mut solver, Box::new(goal)).solve().unwrap();
    assert!(solution.successful);
    assert_eq!(
        solution.refined_goal,
        Quantified {
            binders: vec![ParameterKind::Lifetime],
            value: vec![clause(
                2,
                vec![
                    ty(app(9, vec![ty(app(7, vec![]))])),
                    Parameter::Lifetime(Lifetime::BoundVar(0)),
                ],
            )],
        }
    );
}

#[test]
fn solver_error_is_propagated() {
    let mut solver = Failing;
    let goal = Goal::Leaf(clause(1, vec![]));
    assert_eq!(Prove::new(&mut solver, Box::new(goal)).solve(), Err(Error::Rejected(3)));
}

#[test]
fn unknown_variable_fails_requantification() {
    let mut solver = AssumptionSolver;
    let goal = Goal::Leaf(clause(1, vec![ty(Ty::InferenceVar(5))]));
    assert_eq!(
        Prove::new(&mut solver, Box::new(goal)).solve(),
        Err(Error::UnknownVariable(5))
    );
}

#[test]
fn refine_uses_table_as_given() {
    let mut table = InferenceTable::new();
    let v0 = table.new_parameter_variable(ParameterKind::Ty, 0);
    let v1 = table.new_parameter_variable(ParameterKind::Ty, 0);
    let v2 = table.new_parameter_variable(ParameterKind::Ty, 0);
    assert_eq!((v0.index, v1.index, v2.index), (0, 1, 2));
    table.bind(v1, ty(app(3, vec![]))).unwrap();
    let env = chalk_rust::environment::Environment::new();
    let goals = vec![InEnvironment::new(
        &env,
        clause(4, vec![ty(Ty::InferenceVar(2)), ty(Ty::InferenceVar(1)), ty(Ty::InferenceVar(0))]),
    )];
    let solution = refine(&table, &goals, false).unwrap();
    assert!(!solution.successful);
    assert_eq!(
        solution.refined_goal,
        Quantified {
            binders: vec![ParameterKind::Ty, ParameterKind::Ty],
            value: vec![clause(
                4,
                vec![ty(Ty::BoundVar(1)), ty(app(3, vec![])), ty(Ty::BoundVar(0))],
            )],
        }
    );
}

#[test]
fn bind_errors() {
    let mut table = InferenceTable::new();
    let v = table.new_parameter_variable(ParameterKind::Ty, 0);
    let w = table.new_parameter_variable(ParameterKind::Lifetime, 0);
    assert_eq!(
        table.bind(InferenceVariable { index: 2 }, ty(app(1, vec![]))),
        Err(BindError::UnknownVariable)
    );
    assert_eq!(table.bind(v, ty(Ty::InferenceVar(1))), Err(BindError::NotGround));
    assert_eq!(table.bind(v, ty(Ty::BoundVar(0))), Err(BindError::NotGround));
    assert_eq!(table.bind(w, ty(app(1, vec![]))), Err(BindError::KindMismatch));
    assert_eq!(table.bind(w, Parameter::Lifetime(Lifetime::ForAll(0))), Ok(()));
    assert_eq!(
        table.bind(w, Parameter::Lifetime(Lifetime::ForAll(0))),
        Err(BindError::AlreadyBound)
    );
    assert_eq!(table.var(1).unwrap().value, Some(Parameter::Lifetime(Lifetime::ForAll(0))));
    assert_eq!(table.var(0).unwrap().value, None);
}

#[test]
fn constrained_leaves_unbound_variables() {
    let mut table = InferenceTable::new();
    let v = table.new_parameter_variable(ParameterKind::Ty, 0);
    let _ = table.new_parameter_variable(ParameterKind::Ty, 0);
    table.bind(v, ty(app(8, vec![]))).unwrap();
    let out = table
        .constrained(vec![clause(1, vec![ty(Ty::InferenceVar(0)), ty(Ty::InferenceVar(1))])])
        .unwrap();
    assert_eq!(out, vec![clause(1, vec![ty(app(8, vec![])), ty(Ty::InferenceVar(1))])]);
}
