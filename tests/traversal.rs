use chalk_rust::fold::{fold_clause, fold_ty, Error, Identity};
use chalk_rust::goal::{Binding, FindBound, Subst};
use chalk_rust::infer::{FindFree, InferenceVariable};
use chalk_rust::term::{ApplicationTy, Lifetime, Parameter, Ty, WhereClause};
use chalk_rust::visit::{visit_clause, visit_ty};

fn ty(t: Ty) -> Parameter {
    Parameter::Ty(t)
}

fn app(name: u64, parameters: Vec<Parameter>) -> Ty {
    Ty::Apply(ApplicationTy { name, parameters })
}

#[test]
fn fold_stops_at_first_failure() {
    let bindings: Vec<Binding> = vec![];
    let t = app(1, vec![ty(Ty::BoundVar(5)), ty(Ty::BoundVar(7))]);
    assert_eq!(fold_ty(&t, &Subst::new(&bindings), 0), Err(Error::UnboundReference(5)));
    let t = app(1, vec![ty(Ty::ForAll(2)), ty(app(2, vec![ty(Ty::BoundVar(7))])), ty(Ty::BoundVar(5))]);
    assert_eq!(fold_ty(&t, &Subst::new(&bindings), 0), Err(Error::UnboundReference(7)));
}

#[test]
fn fold_resolves_through_stack() {
    let bindings = vec![Binding::ForAll(1), Binding::Exists(InferenceVariable { index: 4 })];
    let t = app(
        1,
        vec![
            ty(Ty::BoundVar(0)),
            ty(Ty::BoundVar(1)),
            Parameter::Lifetime(Lifetime::BoundVar(1)),
            ty(Ty::InferenceVar(9)),
        ],
    );
    assert_eq!(
        fold_ty(&t, &Subst::new(&bindings), 0),
        Ok(app(
            1,
            vec![
                ty(Ty::InferenceVar(4)),
                ty(Ty::ForAll(1)),
                Parameter::Lifetime(Lifetime::ForAll(1)),
                ty(Ty::InferenceVar(9)),
            ],
        ))
    );
}

#[test]
fn fold_leaves_inner_references() {
    let bindings = vec![Binding::ForAll(3)];
    let t = app(1, vec![ty(Ty::BoundVar(0)), ty(Ty::BoundVar(1))]);
    assert_eq!(
        fold_ty(&t, &Subst::new(&bindings), 1),
        Ok(app(1, vec![ty(Ty::BoundVar(0)), ty(Ty::ForAll(3))]))
    );
}

#[test]
fn substituted_clause_has_no_bound_reference() {
    let bindings = vec![Binding::ForAll(1), Binding::Exists(InferenceVariable { index: 0 })];
    let c = WhereClause {
        trait_id: 3,
        parameters: vec![ty(app(2, vec![ty(Ty::BoundVar(1))])), ty(Ty::BoundVar(0))],
    };
    assert!(visit_clause(&c, &FindBound, 0));
    let d = fold_clause(&c, &Subst::new(&bindings), 0).unwrap();
    assert!(!visit_clause(&d, &FindBound, 0));
    assert!(visit_clause(&d, &FindFree, 0));
}

#[test]
fn visit_respects_outer_binder() {
    let t = app(1, vec![ty(Ty::BoundVar(0)), ty(Ty::ForAll(1))]);
    assert!(visit_ty(&t, &FindBound, 0));
    assert!(!visit_ty(&t, &FindBound, 1));
    assert!(!visit_ty(&app(1, vec![]), &FindFree, 0));
    assert!(visit_ty(&app(1, vec![ty(Ty::InferenceVar(0))]), &FindFree, 0));
}

#[test]
fn identity_fold_and_copy() {
    let t = app(1, vec![ty(Ty::BoundVar(2)), Parameter::Lifetime(Lifetime::InferenceVar(1))]);
    assert_eq!(fold_ty(&t, &Identity, 0), Ok(t.copy()));
    let c = WhereClause { trait_id: 6, parameters: vec![ty(t)] };
    assert_eq!(c.copy(), c);
}
