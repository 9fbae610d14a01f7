//! Scope records: the current universe and the clauses assumed locally.
//! A record is never changed once built; extending one builds a new record.
use vstd::prelude::*;
use std::sync::Arc;
use crate::term::{ClauseM, WhereClause, clauses_model};

verus! {

/// A scope record.
#[derive(Debug, PartialEq, Eq)]
pub struct Environment {
    pub universe: usize,
    pub clauses: Vec<WhereClause>,
}

/// Model of a scope record.
pub ghost struct EnvM {
    pub universe: nat,
    pub clauses: Seq<ClauseM>,
}

impl View for Environment {
    type V = EnvM;

    open spec fn view(&self) -> EnvM {
        EnvM { universe: self.universe as nat, clauses: clauses_model(self.clauses@) }
    }
}

/// A where-clause together with the scope in which it is to be proved.
#[derive(Debug, PartialEq, Eq)]
pub struct InEnvironment {
    pub environment: Arc<Environment>,
    pub goal: WhereClause,
}

/// Model of a clause in its scope.
pub ghost struct InEnvM {
    pub env: EnvM,
    pub goal: ClauseM,
}

impl View for InEnvironment {
    type V = InEnvM;

    open spec fn view(&self) -> InEnvM {
        InEnvM { env: self.environment@, goal: self.goal@ }
    }
}

/// The models of a list of clauses in their scopes, in order.
pub open spec fn in_envs_model(s: Seq<InEnvironment>) -> Seq<InEnvM> {
    s.map_values(|g: InEnvironment| g@)
}

/// The record of the root scope: universe 0, nothing assumed.
pub open spec fn root_env() -> EnvM {
    EnvM { universe: 0, clauses: Seq::empty() }
}

/// The record one universe further in.
pub open spec fn enter_universe(e: EnvM) -> EnvM {
    EnvM { universe: e.universe + 1, clauses: e.clauses }
}

/// The record with one more clause assumed, at the end.
pub open spec fn assume_clause(e: EnvM, c: ClauseM) -> EnvM {
    EnvM { universe: e.universe, clauses: e.clauses.push(c) }
}

impl Environment {
    pub fn new() -> (r: Arc<Environment>)
        ensures
            r@ == root_env(),
    {
        let r = Arc::new(Environment { universe: 0, clauses: Vec::new() });
        proof {
            assert(clauses_model(Seq::<WhereClause>::empty()) =~= Seq::<ClauseM>::empty());
        }
        r
    }

    fn copy_clauses(&self) -> (r: Vec<WhereClause>)
        ensures
            clauses_model(r@) == clauses_model(self.clauses@),
    {
        let mut out: Vec<WhereClause> = Vec::new();
        let mut i: usize = 0;
        while i < self.clauses.len()
            invariant
                0 <= i <= self.clauses.len(),
                out@.len() == i,
                forall|j: int| 0 <= j < i ==> #[trigger] out@[j]@ == self.clauses@[j]@,
            decreases self.clauses.len() - i,
        {
            let c = self.clauses[i].copy();
            out.push(c);
            i = i + 1;
        }
        proof {
            assert(clauses_model(out@) =~= clauses_model(self.clauses@));
        }
        out
    }

    /// A record one universe further in, with the same clauses.
    pub fn new_universe(&self) -> (r: Arc<Environment>)
        requires
            self.universe < usize::MAX,
        ensures
            r@ == enter_universe(self@),
    {
        let clauses = self.copy_clauses();
        Arc::new(Environment { universe: self.universe + 1, clauses })
    }

    /// A record that also assumes `wc`, in the same universe.
    pub fn add_clauses(&self, wc: WhereClause) -> (r: Arc<Environment>)
        ensures
            r@ == assume_clause(self@, wc@),
    {
        let mut clauses = self.copy_clauses();
        clauses.push(wc);
        proof {
            assert(clauses_model(clauses@) =~= clauses_model(self.clauses@).push(wc@));
        }
        Arc::new(Environment { universe: self.universe, clauses })
    }
}

impl InEnvironment {
    /// Pairs a clause with a shared scope record.
    pub fn new(environment: &Arc<Environment>, goal: WhereClause) -> (r: InEnvironment)
        ensures
            r@ == (InEnvM { env: environment@, goal: goal@ }),
    {
        InEnvironment { environment: environment.clone(), goal }
    }
}

} // verus!
