use vstd::prelude::*;

verus! {

#[verifier::external_type_specification]
#[verifier::external_body]
#[verifier::reject_recursive_types(K)]
#[verifier::reject_recursive_types(V)]
#[verifier::reject_recursive_types(S)]
pub struct ExDashMap<K, V, S>(dashmap::DashMap<K, V, S>);

/// A concurrency-safe set of turn ids marked for early termination. Callers
/// on other tasks may mark ids at any moment between two calls here, so no
/// contract pins the contents: the session logic takes the answer of
/// `check_and_clear` as an input and is verified for either answer.
pub struct CancelRegistry {
    marks: dashmap::DashMap<u128, bool>,
}

impl CancelRegistry {
    /// Relies on `dashmap::DashMap::new`: an empty map.
    #[verifier::external_body]
    pub fn new() -> Self {
        CancelRegistry { marks: dashmap::DashMap::new() }
    }

    /// Idempotently record a cancellation request for a turn id. Safe to
    /// call for an id no live session carries: ids are never reused, so the
    /// mark is simply never observed.
    ///
    /// Relies on `dashmap::DashMap::insert`.
    #[verifier::external_body]
    pub fn mark(&self, id: u128) {
        self.marks.insert(id, true);
    }

    /// Atomically test whether the id is marked and, if so, remove the mark,
    /// returning whether it fired. The answer depends on what other tasks
    /// did meanwhile, so nothing more is promised of it.
    ///
    /// Relies on `dashmap::DashMap::remove`: it removes and returns the
    /// entry exactly when one is present.
    #[verifier::external_body]
    pub fn check_and_clear(&self, id: u128) -> bool {
        self.marks.remove(&id).is_some()
    }
}

} // verus!
