use std::sync::Arc;
use vstd::prelude::*;

verus! {

/// Relies on `Arc::clone`: the clone points to the same allocation, so it reads as the same
/// value.
#[verifier::external_body]
pub(crate) fn share<T>(a: &Arc<T>) -> (r: Arc<T>)
    ensures
        r == *a,
{
    Arc::clone(a)
}

/// Relies on `Arc::try_unwrap`: `Ok` holds the pointee when the `Arc` was the only strong
/// reference; otherwise the same `Arc` comes back in `Err`.
#[verifier::external_body]
fn unwrap_unique<T>(a: Arc<T>) -> (r: Result<T, Arc<T>>)
    ensures
        match r {
            Ok(v) => v == *a,
            Err(b) => *b == *a,
        },
{
    Arc::try_unwrap(a)
}

/// A single-slot cell holding one published value behind a reference-counted pointer.
///
/// Readers take shared snapshots with `get`; `replace_with` installs a new value computed from
/// the current one, and snapshots taken before stay valid until dropped.
pub struct AtomicBox<T> {
    ptr: Arc<T>,
}

impl<T> AtomicBox<T> {
    /// The published value.
    pub closed spec fn view(&self) -> T {
        *self.ptr
    }

    /// The published value as a shared snapshot reads it.
    pub closed spec fn snapshot(&self) -> Arc<T> {
        self.ptr
    }

    /// A snapshot reads as the published value.
    pub proof fn lemma_snapshot(&self)
        ensures
            *self.snapshot() == self@,
    {
    }

    /// A cell that publishes `value`.
    pub fn new(value: T) -> (r: AtomicBox<T>)
        ensures
            r@ == value,
    {
        AtomicBox { ptr: Arc::new(value) }
    }

    /// A shared snapshot of the published value.
    pub fn get(&self) -> (r: Arc<T>)
        ensures
            *r == self@,
    {
        share(&self.ptr)
    }

    /// Publishes `f(snapshot)`, where the snapshot holds the value published before the call.
    /// `f` runs exactly once.
    pub fn replace_with<F: Fn(Arc<T>) -> T>(&mut self, f: F)
        requires
            f.requires((old(self).snapshot(),)),
        ensures
            *old(self).snapshot() == old(self)@,
            f.ensures((old(self).snapshot(),), final(self)@),
    {
        let current = share(&self.ptr);
        let next = f(current);
        self.ptr = Arc::new(next);
    }

    /// Takes the published value out of the cell when no snapshot of it is alive; otherwise
    /// hands the cell back unchanged.
    pub fn extract(self) -> (r: Result<T, AtomicBox<T>>)
        ensures
            match r {
                Ok(v) => v == self@,
                Err(b) => b@ == self@,
            },
    {
        match unwrap_unique(self.ptr) {
            Ok(v) => Ok(v),
            Err(p) => Err(AtomicBox { ptr: p }),
        }
    }
}

} // verus!
