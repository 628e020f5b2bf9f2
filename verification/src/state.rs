//! Copyable handles into a runtime's slot table, and read/write lenses
//! over them.
//!
//! A `State<T>` does not own the value it points at: it is a small
//! copyable reference, valid exactly as long as the scope that registered
//! it stays alive.  Access through a handle whose owning scope was dropped
//! is a fatal precondition violation, never a recoverable error.

use vstd::prelude::*;
use crate::runtime::Runtime;
use crate::slot_table::NodeRef;

verus! {

/// A copyable, non-owning reference to one live slot-table entry of a
/// runtime.
pub struct State<T> {
    pub raw: NodeRef,
    pub phantom: core::marker::PhantomData<T>,
}

impl<T> Clone for State<T> {
    fn clone(&self) -> (r: Self)
        ensures
            r == *self,
    {
        State { raw: self.raw, phantom: self.phantom }
    }
}

impl<T> Copy for State<T> {

}

impl<T> State<T> {
    /// The handle addresses a live entry of `rt`.
    pub open spec fn live_in(self, rt: Runtime<T>) -> bool {
        rt.states@.contains_key(self.raw)
    }

    /// The value the handle addresses in `rt`.
    pub open spec fn value_in(self, rt: Runtime<T>) -> T {
        rt.states@[self.raw]
    }

    /// Borrow the value immutably, apply `f`, return its result.
    pub fn with<U, F: FnOnce(&T) -> U>(&self, rt: &Runtime<T>, f: F) -> (r: U)
        requires
            self.live_in(*rt),
            call_requires(f, (&self.value_in(*rt),)),
        ensures
            call_ensures(f, (&self.value_in(*rt),), r),
    {
        f(rt.states.borrow(self.raw))
    }

    /// Replace the value through a by-value update function, returning the
    /// function's second result; the handle stays live.
    pub fn with_mut<O, F: FnOnce(T) -> (T, O)>(&self, rt: &mut Runtime<T>, f: F) -> (r: O)
        requires
            old(rt).states.wf(),
            self.live_in(*old(rt)),
            call_requires(f, (self.value_in(*old(rt)),)),
        ensures
            final(rt).states.wf(),
            final(rt).id == old(rt).id,
            self.live_in(*final(rt)),
            call_ensures(f, (self.value_in(*old(rt)),), (self.value_in(*final(rt)), r)),
            final(rt).states@ == old(rt).states@.insert(self.raw, self.value_in(*final(rt))),
            final(rt).states.retired() == old(rt).states.retired(),
    {
        rt.states.update_with(self.raw, f)
    }

    /// Overwrite the value.
    pub fn set(&self, rt: &mut Runtime<T>, value: T)
        requires
            old(rt).states.wf(),
            self.live_in(*old(rt)),
        ensures
            final(rt).states.wf(),
            final(rt).id == old(rt).id,
            final(rt).states@ == old(rt).states@.insert(self.raw, value),
            final(rt).states.retired() == old(rt).states.retired(),
    {
        let cell = rt.states.borrow_mut(self.raw);
        *cell = value;
    }

    /// Read the value out by trivial duplication.
    pub fn get(&self, rt: &Runtime<T>) -> (r: T) where T: Copy
        requires
            self.live_in(*rt),
        ensures
            r == self.value_in(*rt),
    {
        *rt.states.borrow(self.raw)
    }

    /// Build a lens over this handle: `read` projects a sub-value out,
    /// `write` folds an updated sub-value back into the whole, and
    /// `update` is the notification hook invoked after each mutation
    /// through the lens.
    pub fn map<U, F: Fn(&T) -> U, FMut: Fn(T, U) -> T, Up: Fn() -> ()>(
        self,
        f: F,
        f_mut: FMut,
        update: Up,
    ) -> (m: Mapped<T, U, F, FMut, Up>)
        ensures
            m.inner == self,
            m.f == f,
            m.f_mut == f_mut,
            m.update == update,
    {
        Mapped { inner: self, f, f_mut, update, phantom: core::marker::PhantomData }
    }
}

/// A read/write projection over a `State<T>`: a lens into a sub-value,
/// with an update-notification hook.  It owns no storage of its own.
#[verifier::reject_recursive_types(T)]
#[verifier::reject_recursive_types(U)]
pub struct Mapped<T, U, F, FMut, Up> where
    F: Fn(&T) -> U,
    FMut: Fn(T, U) -> T,
    Up: Fn() -> (),
 {
    pub inner: State<T>,
    pub f: F,
    pub f_mut: FMut,
    pub update: Up,
    pub phantom: core::marker::PhantomData<U>,
}

impl<T, U, F, FMut, Up> Mapped<T, U, F, FMut, Up> where
    F: Fn(&T) -> U,
    FMut: Fn(T, U) -> T,
    Up: Fn() -> (),
 {
    /// Borrow the projected sub-value immutably, apply `g`, return its
    /// result: the base handle's `with` composed with the read projection.
    pub fn with<U2, G: FnOnce(&U) -> U2>(&self, rt: &Runtime<T>, g: G) -> (r: U2)
        requires
            self.inner.live_in(*rt),
            call_requires(self.f, (&self.inner.value_in(*rt),)),
            forall|u: U|
                call_ensures(self.f, (&self.inner.value_in(*rt),), u) ==> call_requires(g, (&u,)),
        ensures
            exists|u: U|
                call_ensures(self.f, (&self.inner.value_in(*rt),), u) && call_ensures(g, (&u,), r),
    {
        let projected = (self.f)(rt.states.borrow(self.inner.raw));
        g(&projected)
    }

    /// Read the projected sub-value out.
    pub fn get(&self, rt: &Runtime<T>) -> (r: U)
        requires
            self.inner.live_in(*rt),
            call_requires(self.f, (&self.inner.value_in(*rt),)),
        ensures
            call_ensures(self.f, (&self.inner.value_in(*rt),), r),
    {
        (self.f)(rt.states.borrow(self.inner.raw))
    }

    /// Mutate the projected sub-value through a by-value update
    /// function: the whole value is read, projected by the read
    /// projection, updated, folded back by the write projection and
    /// stored; then the update hook runs.
    pub fn with_mut<O2, G: FnOnce(U) -> (U, O2)>(&self, rt: &mut Runtime<T>, g: G) -> (r: O2)
        requires
            old(rt).states.wf(),
            self.inner.live_in(*old(rt)),
            call_requires(self.f, (&self.inner.value_in(*old(rt)),)),
            forall|u: U|
                call_ensures(self.f, (&self.inner.value_in(*old(rt)),), u) ==> call_requires(
                    g,
                    (u,),
                ),
            forall|u: U, u2: U, o2: O2|
                call_ensures(self.f, (&self.inner.value_in(*old(rt)),), u) && call_ensures(
                    g,
                    (u,),
                    (u2, o2),
                ) ==> call_requires(self.f_mut, (self.inner.value_in(*old(rt)), u2)),
            call_requires(self.update, ()),
        ensures
            final(rt).states.wf(),
            final(rt).id == old(rt).id,
            self.inner.live_in(*final(rt)),
            exists|u: U, u2: U|
                call_ensures(self.f, (&self.inner.value_in(*old(rt)),), u) && call_ensures(
                    g,
                    (u,),
                    (u2, r),
                ) && call_ensures(
                    self.f_mut,
                    (self.inner.value_in(*old(rt)), u2),
                    self.inner.value_in(*final(rt)),
                ),
            final(rt).states@ == old(rt).states@.insert(
                self.inner.raw,
                self.inner.value_in(*final(rt)),
            ),
            final(rt).states.retired() == old(rt).states.retired(),
    {
        let ghost v0 = rt.states@[self.inner.raw];
        let k = |t: T| -> (res: (T, O2))
            requires
                t == v0,
                call_requires(self.f, (&t,)),
                forall|u: U| call_ensures(self.f, (&t,), u) ==> call_requires(g, (u,)),
                forall|u: U, u2: U, o2: O2|
                    call_ensures(self.f, (&t,), u) && call_ensures(g, (u,), (u2, o2))
                        ==> call_requires(self.f_mut, (t, u2)),
            ensures
                exists|u: U, u2: U|
                    call_ensures(self.f, (&v0,), u) && call_ensures(g, (u,), (u2, res.1))
                        && call_ensures(self.f_mut, (v0, u2), res.0),
            {
                let u = (self.f)(&t);
                let (u2, o2) = g(u);
                let t2 = (self.f_mut)(t, u2);
                let res = (t2, o2);
                proof {
                    assert(call_ensures(self.f, (&v0,), u) && call_ensures(g, (u,), (u2, res.1))
                        && call_ensures(self.f_mut, (v0, u2), res.0));
                }
                res
            };
        let r = rt.states.update_with(self.inner.raw, k);
        (self.update)();
        r
    }

    /// Write a sub-value through the lens: the whole value is rebuilt by
    /// the write projection, then the update hook runs.
    pub fn set(&self, rt: &mut Runtime<T>, value: U)
        requires
            old(rt).states.wf(),
            self.inner.live_in(*old(rt)),
            call_requires(self.f_mut, (self.inner.value_in(*old(rt)), value)),
            call_requires(self.update, ()),
        ensures
            final(rt).states.wf(),
            final(rt).id == old(rt).id,
            self.inner.live_in(*final(rt)),
            call_ensures(
                self.f_mut,
                (self.inner.value_in(*old(rt)), value),
                self.inner.value_in(*final(rt)),
            ),
            final(rt).states@ == old(rt).states@.insert(
                self.inner.raw,
                self.inner.value_in(*final(rt)),
            ),
            final(rt).states.retired() == old(rt).states.retired(),
    {
        let g = |t: T| -> (res: (T, ()))
            requires
                call_requires(self.f_mut, (t, value)),
            ensures
                call_ensures(self.f_mut, (t, value), res.0),
            {
                ((self.f_mut)(t, value), ())
            };
        rt.states.update_with(self.inner.raw, g);
        (self.update)()
    }
}

} // verus!
