//! Allocation scopes: a tree of ownership contexts over one runtime.
//!
//! A scope owns a bump region (modelled by its accounting: capacity,
//! bytes placed, growth events), the list of slot-table handles it
//! registered, and its child scopes.  Dropping a scope removes every
//! handle it or a descendant registered -- each value's destructor runs
//! then, exactly once -- and reports the scope's actual usage to the
//! capacity estimators that pre-size the next scope created at the same
//! structural position.

use vstd::prelude::*;
use crate::runtime::{Runtime, RuntimeId};
use crate::slot_table::{NodeRef, SlotTable};
use crate::state::State;

verus! {

broadcast use vstd::std_specs::vec::group_vec_axioms;

/// Accounting model of a scope's bump region: allocate-forward-only
/// memory, released as one block, never per object.  `growths` counts how
/// often the region had to grow past its capacity.
pub struct BumpRegion {
    pub capacity: usize,
    pub allocated: usize,
    pub growths: usize,
}

/// How one allocation of `bytes` bytes changes the region's accounting:
/// the bytes are placed; if they do not fit, the region grows to fit them
/// and the growth is counted.
pub open spec fn bump_step(r: BumpRegion, bytes: nat) -> BumpRegion {
    if r.allocated + bytes <= r.capacity {
        BumpRegion {
            capacity: r.capacity,
            allocated: (r.allocated + bytes) as usize,
            growths: r.growths,
        }
    } else {
        BumpRegion {
            capacity: (r.allocated + bytes) as usize,
            allocated: (r.allocated + bytes) as usize,
            growths: (r.growths + 1) as usize,
        }
    }
}

impl BumpRegion {
    pub fn new() -> (r: BumpRegion)
        ensures
            r == (BumpRegion { capacity: 0usize, allocated: 0usize, growths: 0usize }),
    {
        BumpRegion { capacity: 0, allocated: 0, growths: 0 }
    }

    pub fn with_capacity(capacity: usize) -> (r: BumpRegion)
        ensures
            r == (BumpRegion { capacity, allocated: 0usize, growths: 0usize }),
    {
        BumpRegion { capacity, allocated: 0, growths: 0 }
    }

    /// Place one allocation of `bytes` bytes in the region.
    pub fn alloc_bytes(&mut self, bytes: usize)
        requires
            old(self).allocated + bytes <= usize::MAX,
            old(self).growths < usize::MAX,
        ensures
            *final(self) == bump_step(*old(self), bytes as nat),
    {
        self.allocated = self.allocated + bytes;
        if self.allocated > self.capacity {
            self.capacity = self.allocated;
            self.growths = self.growths + 1;
        }
    }

    /// Total bytes placed in the region so far.
    pub fn allocated_bytes(&self) -> (r: usize)
        ensures
            r == self.allocated,
    {
        self.allocated
    }
}

/// Estimator interface for the bytes the next scope at a structural
/// position will bump-allocate.
pub trait ScopeHyristics {
    spec fn guess_spec(&self) -> usize;

    /// The last recorded allocation total.
    fn guess_allocation(&self) -> (r: usize)
        ensures
            r == self.guess_spec(),
    ;

    /// Record the allocation total of the scope that just ended.
    fn update_guess(&mut self, new: usize)
        ensures
            final(self).guess_spec() == new,
    ;
}

/// Estimator interface for the number of handles the next scope at a
/// structural position will own.
pub trait ScopeHyristicsOwned {
    spec fn owned_spec(&self) -> usize;

    /// The last recorded owned-handle count.
    fn guess_owned(&self) -> (r: usize)
        ensures
            r == self.owned_spec(),
    ;

    /// Record the owned-handle count of the scope that just ended.
    fn update_owned(&mut self, new: usize)
        ensures
            final(self).owned_spec() == new,
    ;
}

/// A capacity estimator holding one remembered usage value; exposes
/// `read` and `write` and implements both estimator interfaces.
pub struct CapacityHint {
    pub guess: usize,
}

impl CapacityHint {
    pub fn new() -> (r: CapacityHint)
        ensures
            r.guess == 0,
    {
        CapacityHint { guess: 0 }
    }

    pub fn read(&self) -> (r: usize)
        ensures
            r == self.guess,
    {
        self.guess
    }

    pub fn write(&mut self, new_value: usize)
        ensures
            final(self).guess == new_value,
    {
        self.guess = new_value;
    }
}

impl ScopeHyristics for CapacityHint {
    open spec fn guess_spec(&self) -> usize {
        self.guess
    }

    fn guess_allocation(&self) -> (r: usize) {
        self.guess
    }

    fn update_guess(&mut self, new: usize) {
        self.guess = new;
    }
}

impl ScopeHyristicsOwned for CapacityHint {
    open spec fn owned_spec(&self) -> usize {
        self.guess
    }

    fn guess_owned(&self) -> (r: usize) {
        self.guess
    }

    fn update_owned(&mut self, new: usize) {
        self.guess = new;
    }
}

/// A node in the tree of allocation contexts: bump region, owned
/// handles, and exclusively owned child scopes.
pub struct Scope {
    pub parent: Option<RuntimeId>,
    pub children: Vec<Scope>,
    pub runtime: RuntimeId,
    pub owns: Vec<NodeRef>,
    pub arena: BumpRegion,
}

impl Scope {
    /// The handles registered by the first `n` scopes of `ss`, including
    /// their descendants'.
    pub open spec fn forest_set(ss: Seq<Scope>, n: int) -> Set<NodeRef>
        decreases ss, n,
    {
        if 0 < n <= ss.len() {
            Self::forest_set(ss, n - 1) + ss[n - 1].subtree_set()
        } else {
            Set::empty()
        }
    }

    /// Every handle this scope or a descendant scope registered.
    pub open spec fn subtree_set(self) -> Set<NodeRef>
        decreases self,
    {
        self.owns@.to_set() + Self::forest_set(self.children@, self.children@.len() as int)
    }

    /// The scope tree is well formed against table `t`: every handle in
    /// the subtree is live in `t` and registered by exactly one scope,
    /// exactly once, and the whole subtree addresses one runtime.
    pub open spec fn wf_in<V>(self, t: SlotTable<V>) -> bool
        decreases self,
    {
        &&& forall|k: int| 0 <= k < self.owns@.len() ==> t@.contains_key(#[trigger] self.owns@[k])
        &&& forall|k1: int, k2: int|
            0 <= k1 < k2 < self.owns@.len() ==> self.owns@[k1] != self.owns@[k2]
        &&& forall|i: int|
            0 <= i < self.children@.len() ==> (#[trigger] self.children@[i]).wf_in(t)
        &&& forall|i: int|
            0 <= i < self.children@.len() ==> (#[trigger] self.children@[i]).runtime == self.runtime
        &&& forall|i: int|
            0 <= i < self.children@.len() ==> (#[trigger] self.children@[i]).subtree_set().disjoint(
                self.owns@.to_set(),
            )
        &&& forall|i: int, j: int|
            0 <= i < j < self.children@.len() ==> self.children@[i].subtree_set().disjoint(
                self.children@[j].subtree_set(),
            )
    }

    /// Each of the first `n` scopes of `ss` contributes its whole subtree
    /// to the forest set.
    proof fn lemma_forest_member(ss: Seq<Scope>, i: int, n: int)
        requires
            0 <= i < n <= ss.len(),
        ensures
            ss[i].subtree_set().subset_of(Self::forest_set(ss, n)),
        decreases n,
    {
        if i < n - 1 {
            Self::lemma_forest_member(ss, i, n - 1);
        }
    }

    /// In a well-formed subtree, every registered handle is live in the
    /// table.
    pub proof fn lemma_subtree_in_table<V>(self, t: SlotTable<V>)
        requires
            self.wf_in(t),
        ensures
            forall|h: NodeRef| self.subtree_set().contains(h) ==> t@.contains_key(h),
        decreases self,
    {
        Self::lemma_forest_in_table(self.children@, self.children@.len() as int, t);
        assert forall|h: NodeRef| self.subtree_set().contains(h) implies t@.contains_key(h) by {
            if self.owns@.to_set().contains(h) {
                let k = choose|k: int| 0 <= k < self.owns@.len() && self.owns@[k] == h;
                assert(t@.contains_key(self.owns@[k]));
            } else {
                assert(Self::forest_set(self.children@, self.children@.len() as int).contains(h));
            }
        }
    }

    proof fn lemma_forest_in_table<V>(ss: Seq<Scope>, n: int, t: SlotTable<V>)
        requires
            n <= ss.len(),
            forall|i: int| 0 <= i < ss.len() ==> (#[trigger] ss[i]).wf_in(t),
        ensures
            forall|h: NodeRef| Self::forest_set(ss, n).contains(h) ==> t@.contains_key(h),
        decreases ss, n,
    {
        if 0 < n {
            Self::lemma_forest_in_table(ss, n - 1, t);
            ss[n - 1].lemma_subtree_in_table(t);
            assert forall|h: NodeRef| Self::forest_set(ss, n).contains(h) implies t@.contains_key(
                h,
            ) by {
                if Self::forest_set(ss, n - 1).contains(h) {
                } else {
                    assert(ss[n - 1].subtree_set().contains(h));
                }
            }
        }
    }

    /// Well-formedness depends on the table only through the liveness of
    /// the subtree's own handles.
    pub proof fn lemma_wf_in_preserved<V>(self, t1: SlotTable<V>, t2: SlotTable<V>)
        requires
            self.wf_in(t1),
            forall|h: NodeRef| self.subtree_set().contains(h) ==> t2@.contains_key(h),
        ensures
            self.wf_in(t2),
        decreases self,
    {
        assert forall|k: int| 0 <= k < self.owns@.len() implies t2@.contains_key(
            #[trigger] self.owns@[k],
        ) by {
            assert(self.owns@.to_set().contains(self.owns@[k]));
            assert(self.subtree_set().contains(self.owns@[k]));
        }
        assert forall|i: int| 0 <= i < self.children@.len() implies (#[trigger] self.children@[i]).wf_in(
            t2,
        ) by {
            Self::lemma_forest_member(self.children@, i, self.children@.len() as int);
            assert forall|h: NodeRef| self.children@[i].subtree_set().contains(h) implies t2@.contains_key(
                h,
            ) by {
                assert(Self::forest_set(self.children@, self.children@.len() as int).contains(h));
                assert(self.subtree_set().contains(h));
            }
            self.children@[i].lemma_wf_in_preserved(t1, t2);
        }
    }

    /// A forest is disjoint from any set each of its subtrees is disjoint
    /// from.
    proof fn lemma_forest_disjoint(ss: Seq<Scope>, n: int, x: Set<NodeRef>)
        requires
            n <= ss.len(),
            forall|i: int| 0 <= i < n ==> (#[trigger] ss[i]).subtree_set().disjoint(x),
        ensures
            Self::forest_set(ss, n).disjoint(x),
        decreases n,
    {
        if 0 < n {
            Self::lemma_forest_disjoint(ss, n - 1, x);
        }
    }

    /// Appending a scope to a forest leaves the prior members' forest set
    /// unchanged and adds exactly the new scope's subtree at the end.
    proof fn lemma_forest_push_prefix(ss: Seq<Scope>, c: Scope, n: int)
        requires
            0 <= n <= ss.len(),
        ensures
            Self::forest_set(ss.push(c), n) == Self::forest_set(ss, n),
        decreases n,
    {
        if 0 < n {
            Self::lemma_forest_push_prefix(ss, c, n - 1);
            assert(ss.push(c)[n - 1] == ss[n - 1]);
        }
    }

    /// Appending a scope to a forest leaves the prior members' forest set
    /// unchanged and adds exactly the new scope's subtree at the end.
    proof fn lemma_forest_push(ss: Seq<Scope>, c: Scope)
        ensures
            Self::forest_set(ss.push(c), ss.len() as int) == Self::forest_set(
                ss,
                ss.len() as int,
            ),
            Self::forest_set(ss.push(c), ss.len() as int + 1) == Self::forest_set(
                ss,
                ss.len() as int,
            ) + c.subtree_set(),
    {
        Self::lemma_forest_push_prefix(ss, c, ss.len() as int);
        assert(ss.push(c)[ss.len() as int] == c);
    }

    /// Create a root scope with default (empty) capacity.
    pub fn new(runtime: RuntimeId) -> (s: Scope)
        ensures
            s.parent is None,
            s.children@ == Seq::<Scope>::empty(),
            s.runtime == runtime,
            s.owns@ == Seq::<NodeRef>::empty(),
            s.arena == (BumpRegion { capacity: 0usize, allocated: 0usize, growths: 0usize }),
            s.subtree_set() == Set::<NodeRef>::empty(),
    {
        let s = Scope {
            parent: None,
            children: Vec::new(),
            runtime,
            owns: Vec::new(),
            arena: BumpRegion::new(),
        };
        proof {
            assert(s.subtree_set() =~= Set::<NodeRef>::empty());
        }
        s
    }

    /// Create a root scope pre-sized by the estimators' last recorded
    /// usage.
    pub fn new_with_hints<H: ScopeHyristics, H2: ScopeHyristicsOwned>(
        runtime: RuntimeId,
        alloc_est: &H,
        owned_est: &H2,
    ) -> (s: Scope)
        ensures
            s.parent is None,
            s.children@ == Seq::<Scope>::empty(),
            s.runtime == runtime,
            s.owns@ == Seq::<NodeRef>::empty(),
            s.arena == (BumpRegion {
                capacity: alloc_est.guess_spec(),
                allocated: 0usize,
                growths: 0usize,
            }),
            s.subtree_set() == Set::<NodeRef>::empty(),
    {
        let s = Scope {
            parent: None,
            children: Vec::new(),
            runtime,
            owns: Vec::with_capacity(owned_est.guess_owned()),
            arena: BumpRegion::with_capacity(alloc_est.guess_allocation()),
        };
        proof {
            assert(s.subtree_set() =~= Set::<NodeRef>::empty());
        }
        s
    }

    /// Create a child scope of this one, pre-sized by the estimators for
    /// its structural position.  The child is not owned yet:
    /// `attach_child` hands it over once it is built.
    pub fn begin_child<H: ScopeHyristics, H2: ScopeHyristicsOwned>(
        &self,
        alloc_est: &H,
        owned_est: &H2,
    ) -> (c: Scope)
        ensures
            c.parent == Some(self.runtime),
            c.children@ == Seq::<Scope>::empty(),
            c.runtime == self.runtime,
            c.owns@ == Seq::<NodeRef>::empty(),
            c.arena == (BumpRegion {
                capacity: alloc_est.guess_spec(),
                allocated: 0usize,
                growths: 0usize,
            }),
            c.subtree_set() == Set::<NodeRef>::empty(),
    {
        let c = Scope {
            parent: Some(self.runtime),
            children: Vec::new(),
            runtime: self.runtime,
            owns: Vec::with_capacity(owned_est.guess_owned()),
            arena: BumpRegion::with_capacity(alloc_est.guess_allocation()),
        };
        proof {
            assert(c.subtree_set() =~= Set::<NodeRef>::empty());
        }
        c
    }

    /// Append a fully built child to this scope's child list -- the
    /// parent keeps the child alive from here on -- and record the
    /// child's actual usage in the estimators for its structural
    /// position.
    pub fn attach_child<V, H: ScopeHyristics, H2: ScopeHyristicsOwned>(
        &mut self,
        rt: &Runtime<V>,
        child: Scope,
        alloc_est: &mut H,
        owned_est: &mut H2,
    )
        requires
            old(self).wf_in(rt.states),
            child.wf_in(rt.states),
            child.runtime == old(self).runtime,
            child.subtree_set().disjoint(old(self).subtree_set()),
        ensures
            final(self).wf_in(rt.states),
            final(self).children@ == old(self).children@.push(child),
            final(self).parent == old(self).parent,
            final(self).runtime == old(self).runtime,
            final(self).owns == old(self).owns,
            final(self).arena == old(self).arena,
            final(self).subtree_set() == old(self).subtree_set() + child.subtree_set(),
            final(alloc_est).guess_spec() == child.arena.allocated,
            final(owned_est).owned_spec() == child.owns@.len(),
    {
        alloc_est.update_guess(child.arena.allocated_bytes());
        owned_est.update_owned(child.owns.len());
        proof {
            Scope::lemma_forest_push(old(self).children@, child);
        }
        self.children.push(child);
        proof {
            assert(final(self).subtree_set() =~= old(self).subtree_set() + child.subtree_set());
            let newlen = final(self).children@.len() as int;
            assert forall|i: int| 0 <= i < newlen implies (#[trigger] final(self).children@[i]).wf_in(
                rt.states,
            ) && final(self).children@[i].runtime == final(self).runtime && final(self).children@[i].subtree_set().disjoint(final(self).owns@.to_set()) by {
                if i < old(self).children@.len() {
                    assert(final(self).children@[i] == old(self).children@[i]);
                } else {
                    assert(final(self).children@[i] == child);
                    assert forall|h: NodeRef|
                        child.subtree_set().contains(h) implies !final(self).owns@.to_set().contains(h) by {
                        assert(old(self).subtree_set().contains(h) ==> !child.subtree_set().contains(
                            h,
                        ));
                    }
                }
            }
            assert forall|i: int, j: int| 0 <= i < j < newlen implies final(self).children@[i].subtree_set().disjoint(final(self).children@[j].subtree_set()) by {
                if j < old(self).children@.len() {
                    assert(final(self).children@[i] == old(self).children@[i]);
                    assert(final(self).children@[j] == old(self).children@[j]);
                } else {
                    assert(final(self).children@[i] == old(self).children@[i]);
                    assert(final(self).children@[j] == child);
                    Scope::lemma_forest_member(
                        old(self).children@,
                        i,
                        old(self).children@.len() as int,
                    );
                    assert forall|h: NodeRef|
                        old(self).children@[i].subtree_set().contains(h) implies !child.subtree_set().contains(
                        h,
                    ) by {
                        assert(old(self).subtree_set().contains(h));
                    }
                }
            }
            assert(final(self).wf_in(rt.states));
        }
    }

    /// Create a child scope pre-sized by the estimators for this
    /// structural position, let `build_fn` build it (allocating state,
    /// attaching further children), then append it to this scope's child
    /// list -- the parent keeps the child alive -- record the child's
    /// actual usage in the estimators, and return the builder's result.
    /// The builder runs to completion before this call returns: strict
    /// call-tree nesting, never interleaved.
    pub fn child<
        V,
        O,
        H: ScopeHyristics,
        H2: ScopeHyristicsOwned,
        F: FnOnce(Scope, Runtime<V>) -> (Scope, Runtime<V>, O),
    >(
        &mut self,
        rt: Runtime<V>,
        alloc_est: &mut H,
        owned_est: &mut H2,
        build_fn: F,
    ) -> (res: (Runtime<V>, O))
        requires
            rt.states.wf(),
            old(self).wf_in(rt.states),
            old(self).runtime == rt.id,
            forall|c: Scope|
                is_fresh_child(c, old(self).runtime, old(alloc_est).guess_spec())
                    ==> call_requires(build_fn, (c, rt)),
            forall|c: Scope, s1: Scope, rt1: Runtime<V>, o: O|
                is_fresh_child(c, old(self).runtime, old(alloc_est).guess_spec())
                    && call_ensures(build_fn, (c, rt), ((s1, rt1, o))) ==> {
                    &&& rt1.states.wf()
                    &&& rt1.id == rt.id
                    &&& s1.runtime == rt.id
                    &&& s1.wf_in(rt1.states)
                    &&& forall|h: NodeRef|
                        rt.states@.contains_key(h) ==> rt1.states@.contains_key(h)
                    &&& forall|h: NodeRef|
                        s1.subtree_set().contains(h) ==> !rt.states@.contains_key(h)
                },
        ensures
            res.0.states.wf(),
            res.0.id == rt.id,
            final(self).wf_in(res.0.states),
            final(self).parent == old(self).parent,
            final(self).runtime == old(self).runtime,
            final(self).owns == old(self).owns,
            final(self).arena == old(self).arena,
            forall|h: NodeRef| rt.states@.contains_key(h) ==> res.0.states@.contains_key(h),
            exists|c: Scope, s1: Scope|
                is_fresh_child(c, old(self).runtime, old(alloc_est).guess_spec())
                    && call_ensures(build_fn, (c, rt), ((s1, res.0, res.1)))
                    && final(self).children@ == old(self).children@.push(s1)
                    && final(self).subtree_set() == old(self).subtree_set() + s1.subtree_set()
                    && final(alloc_est).guess_spec()
                    == s1.arena.allocated && final(owned_est).owned_spec() == s1.owns@.len(),
    {
        let c = self.begin_child(&*alloc_est, &*owned_est);
        proof {
            assert(is_fresh_child(c, old(self).runtime, old(alloc_est).guess_spec()));
        }
        let ghost c0 = c;
        let (s1, rt1, o) = build_fn(c, rt);
        proof {
            assert(call_ensures(build_fn, (c0, rt), ((s1, rt1, o))));
            old(self).lemma_subtree_in_table(rt.states);
            assert forall|h: NodeRef| old(self).subtree_set().contains(h) implies rt1.states@.contains_key(
                h,
            ) by {
                assert(rt.states@.contains_key(h));
            }
            old(self).lemma_wf_in_preserved(rt.states, rt1.states);
            assert forall|h: NodeRef| s1.subtree_set().contains(h) implies !old(self).subtree_set().contains(h) by {
                assert(!rt.states@.contains_key(h));
            }
            assert(s1.subtree_set().disjoint(old(self).subtree_set()));
        }
        self.attach_child(&rt1, s1, alloc_est, owned_est);
        let res = (rt1, o);
        proof {
            assert(is_fresh_child(c0, old(self).runtime, old(alloc_est).guess_spec())
                && call_ensures(build_fn, (c0, rt), ((s1, res.0, res.1)))
                && final(self).children@ == old(self).children@.push(s1)
                && final(self).subtree_set() == old(self).subtree_set() + s1.subtree_set()
                && final(alloc_est).guess_spec() == s1.arena.allocated
                && final(owned_est).owned_spec() == s1.owns@.len());
        }
        res
    }

    /// Allocate `value` in this scope: place it in the bump region,
    /// register a cell for it in the runtime's slot table, record the
    /// fresh handle in the owned list, and hand back a copyable handle.
    /// The value lives exactly as long as this scope.
    pub fn state<V>(&mut self, rt: &mut Runtime<V>, value: V) -> (s: State<V>)
        requires
            old(rt).states.wf(),
            old(self).wf_in(old(rt).states),
            old(self).runtime == old(rt).id,
            old(self).arena.allocated + vstd::layout::size_of::<V>() <= usize::MAX,
            old(self).arena.growths < usize::MAX,
        ensures
            final(rt).id == old(rt).id,
            final(rt).states.wf(),
            final(self).wf_in(final(rt).states),
            !old(rt).states@.contains_key(s.raw),
            !old(rt).states.retired().contains(s.raw),
            final(rt).states@ == old(rt).states@.insert(s.raw, value),
            final(rt).states.retired() == old(rt).states.retired(),
            final(self).owns@ == old(self).owns@.push(s.raw),
            final(self).children == old(self).children,
            final(self).parent == old(self).parent,
            final(self).runtime == old(self).runtime,
            final(self).arena == bump_step(old(self).arena, vstd::layout::size_of::<V>()),
            final(self).subtree_set() == old(self).subtree_set().insert(s.raw),
    {
        self.arena.alloc_bytes(core::mem::size_of::<V>());
        let raw = rt.states.insert(value);
        self.owns.push(raw);
        proof {
            lemma_push_to_set(old(self).owns@, raw);
            assert(final(self).subtree_set() =~= old(self).subtree_set().insert(raw));
            old(self).lemma_subtree_in_table(old(rt).states);
            assert forall|h: NodeRef| final(self).subtree_set().contains(h) implies final(rt).states@.contains_key(h) by {}
            old(self).lemma_wf_in_preserved(old(rt).states, final(rt).states);
            assert forall|k1: int, k2: int|
                0 <= k1 < k2 < final(self).owns@.len() implies final(self).owns@[k1] != final(self).owns@[k2] by {
                if k2 == final(self).owns@.len() - 1 {
                    assert(old(rt).states@.contains_key(old(self).owns@[k1]));
                }
            }
            assert forall|i: int| 0 <= i < final(self).children@.len() implies (#[trigger] final(self).children@[i]).subtree_set().disjoint(final(self).owns@.to_set()) by {
                assert(old(self).children@[i].subtree_set().disjoint(old(self).owns@.to_set()));
                assert forall|h: NodeRef|
                    old(self).children@[i].subtree_set().contains(h) implies h != raw by {
                    Scope::lemma_forest_member(
                        old(self).children@,
                        i,
                        old(self).children@.len() as int,
                    );
                    assert(old(self).subtree_set().contains(h));
                    old(self).lemma_subtree_in_table(old(rt).states);
                }
            }
            assert(final(self).wf_in(final(rt).states));
        }
        State { raw, phantom: core::marker::PhantomData }
    }

    /// Like `state`, except the constructor receives the value's own
    /// forthcoming handle before the value exists, so the value can
    /// capture a handle to itself; backed by the slot table's two-phase
    /// reserve-and-fill primitive.
    pub fn state_with<V, F: FnOnce(State<V>) -> V>(&mut self, rt: &mut Runtime<V>, constructor: F) -> (s:
        State<V>)
        requires
            old(rt).states.wf(),
            old(self).wf_in(old(rt).states),
            old(self).runtime == old(rt).id,
            old(self).arena.allocated + vstd::layout::size_of::<V>() <= usize::MAX,
            old(self).arena.growths < usize::MAX,
            forall|st: State<V>|
                !old(rt).states@.contains_key(st.raw) && !old(rt).states.retired().contains(st.raw)
                    ==> call_requires(constructor, (st,)),
        ensures
            final(rt).id == old(rt).id,
            final(rt).states.wf(),
            final(self).wf_in(final(rt).states),
            !old(rt).states@.contains_key(s.raw),
            !old(rt).states.retired().contains(s.raw),
            final(rt).states@.contains_key(s.raw),
            call_ensures(constructor, (s,), final(rt).states@[s.raw]),
            final(rt).states@ == old(rt).states@.insert(s.raw, final(rt).states@[s.raw]),
            final(rt).states.retired() == old(rt).states.retired(),
            final(self).owns@ == old(self).owns@.push(s.raw),
            final(self).children == old(self).children,
            final(self).parent == old(self).parent,
            final(self).runtime == old(self).runtime,
            final(self).arena == bump_step(old(self).arena, vstd::layout::size_of::<V>()),
            final(self).subtree_set() == old(self).subtree_set().insert(s.raw),
    {
        self.arena.alloc_bytes(core::mem::size_of::<V>());
        let g = |raw: NodeRef| -> (v: V)
            requires
                call_requires(constructor, (State::<V> { raw, phantom: core::marker::PhantomData },)),
            ensures
                call_ensures(constructor, (State::<V> { raw, phantom: core::marker::PhantomData },), v),
            {
                constructor(State { raw, phantom: core::marker::PhantomData })
            };
        proof {
            assert forall|r: NodeRef|
                !rt.states@.contains_key(r) && !rt.states.retired().contains(r)
                    && !rt.states.reserved(r) implies call_requires(g, (r,)) by {
                let st = State::<V> { raw: r, phantom: core::marker::PhantomData };
                assert(!old(rt).states@.contains_key(st.raw));
                assert(!old(rt).states.retired().contains(st.raw));
                assert(call_requires(constructor, (st,)));
            }
        }
        let raw = rt.states.insert_with(g);
        self.owns.push(raw);
        proof {
            lemma_push_to_set(old(self).owns@, raw);
            assert(final(self).subtree_set() =~= old(self).subtree_set().insert(raw));
            old(self).lemma_subtree_in_table(old(rt).states);
            assert forall|h: NodeRef| final(self).subtree_set().contains(h) implies final(rt).states@.contains_key(h) by {}
            old(self).lemma_wf_in_preserved(old(rt).states, final(rt).states);
            assert forall|k1: int, k2: int|
                0 <= k1 < k2 < final(self).owns@.len() implies final(self).owns@[k1] != final(self).owns@[k2] by {
                if k2 == final(self).owns@.len() - 1 {
                    assert(old(rt).states@.contains_key(old(self).owns@[k1]));
                }
            }
            assert forall|i: int| 0 <= i < final(self).children@.len() implies (#[trigger] final(self).children@[i]).subtree_set().disjoint(final(self).owns@.to_set()) by {
                assert(old(self).children@[i].subtree_set().disjoint(old(self).owns@.to_set()));
                assert forall|h: NodeRef|
                    old(self).children@[i].subtree_set().contains(h) implies h != raw by {
                    Scope::lemma_forest_member(
                        old(self).children@,
                        i,
                        old(self).children@.len() as int,
                    );
                    assert(old(self).subtree_set().contains(h));
                    old(self).lemma_subtree_in_table(old(rt).states);
                }
            }
            assert(final(self).wf_in(final(rt).states));
        }
        State { raw, phantom: core::marker::PhantomData }
    }
}

/// A scope value as `child` first hands it to a builder: empty, a child
/// in the parent's runtime, pre-sized to `alloc_guess`.
pub open spec fn is_fresh_child(c: Scope, parent_runtime: RuntimeId, alloc_guess: usize) -> bool {
    &&& c.parent == Some(parent_runtime)
    &&& c.children@ == Seq::<Scope>::empty()
    &&& c.runtime == parent_runtime
    &&& c.owns@ == Seq::<NodeRef>::empty()
    &&& c.arena == (BumpRegion { capacity: alloc_guess, allocated: 0usize, growths: 0usize })
}

/// Appending a handle to a sequence adds exactly that handle to the
/// sequence's set of members.
proof fn lemma_push_to_set(s: Seq<NodeRef>, v: NodeRef)
    ensures
        s.push(v).to_set() == s.to_set().insert(v),
{
    assert forall|x: NodeRef| s.push(v).contains(x) implies s.contains(x) || x == v by {
        let i = choose|i: int| 0 <= i < s.push(v).len() && s.push(v)[i] == x;
        if i < s.len() {
            assert(s[i] == x);
        }
    }
    assert forall|x: NodeRef| s.contains(x) implies s.push(v).contains(x) by {
        let i = choose|i: int| 0 <= i < s.len() && s[i] == x;
        assert(s.push(v)[i] == x);
    }
    assert(s.push(v)[s.len() as int] == v);
    assert(s.push(v).to_set() =~= s.to_set().insert(v));
}


/// How a sequence of allocations, applied in order, changes a bump
/// region's accounting.
pub open spec fn bump_run(r: BumpRegion, sizes: Seq<nat>) -> BumpRegion
    decreases sizes.len(),
{
    if sizes.len() == 0 {
        r
    } else {
        bump_run(bump_step(r, sizes[0]), sizes.drop_first())
    }
}

pub open spec fn seq_sum(sizes: Seq<nat>) -> nat
    decreases sizes.len(),
{
    if sizes.len() == 0 {
        0
    } else {
        sizes[0] + seq_sum(sizes.drop_first())
    }
}

/// Law: a region pre-sized to at least the total it will allocate never
/// grows.  So once an estimator has recorded a scope's usage, every later
/// sibling scope with the same usage is created at that capacity and sees
/// no growth event.
pub proof fn lemma_presized_region_never_grows(r: BumpRegion, sizes: Seq<nat>)
    requires
        r.allocated + seq_sum(sizes) <= r.capacity,
    ensures
        bump_run(r, sizes).growths == r.growths,
        bump_run(r, sizes).capacity == r.capacity,
        bump_run(r, sizes).allocated == r.allocated + seq_sum(sizes),
    decreases sizes.len(),
{
    if sizes.len() > 0 {
        lemma_presized_region_never_grows(bump_step(r, sizes[0]), sizes.drop_first());
    }
}

/// Remove every handle `scope` or a descendant scope registered from the
/// table.  Each removed value is dropped here, and each removed handle is
/// retired, so no handle of the subtree can ever be used or removed
/// again.  A scope's own handles go first, then its children's subtrees,
/// in list order.
#[verifier::loop_isolation(false)]
pub fn release_subtree<V>(scope: Scope, table: &mut SlotTable<V>)
    requires
        old(table).wf(),
        scope.wf_in(*old(table)),
    ensures
        final(table).wf(),
        final(table)@ == old(table)@.remove_keys(scope.subtree_set()),
        final(table).retired() == old(table).retired() + scope.subtree_set(),
    decreases scope,
{
    let ghost s0 = scope;
    let Scope { parent: _, mut children, runtime: _, mut owns, arena: _ } = scope;
    let mut i: usize = 0;
    let n = owns.len();
    while i < n
        invariant
            owns@ == s0.owns@,
            n == s0.owns@.len(),
            0 <= i <= n,
            table.wf(),
            s0.wf_in(*old(table)),
            table@ == old(table)@.remove_keys(s0.owns@.take(i as int).to_set()),
            table.retired() == old(table).retired() + s0.owns@.take(i as int).to_set(),
        decreases n - i,
    {
        let h = owns[i];
        proof {
            assert(old(table)@.contains_key(s0.owns@[i as int]));
            assert(!s0.owns@.take(i as int).to_set().contains(h)) by {
                if s0.owns@.take(i as int).to_set().contains(h) {
                    let k = choose|k: int|
                        0 <= k < i && s0.owns@.take(i as int)[k] == h;
                    assert(s0.owns@[k] == h);
                    assert(s0.owns@[k] != s0.owns@[i as int]);
                }
            }
        }
        let _removed = table.remove(h);
        proof {
            assert(s0.owns@.take(i + 1) =~= s0.owns@.take(i as int).push(h));
            lemma_push_to_set(s0.owns@.take(i as int), h);
            assert(table@ =~= old(table)@.remove_keys(s0.owns@.take(i + 1).to_set()));
            assert(table.retired() =~= old(table).retired() + s0.owns@.take(i + 1).to_set());
        }
        i = i + 1;
    }
    proof {
        assert(s0.owns@.take(n as int) =~= s0.owns@);
    }
    let ghost mut k: int = 0;
    while children.len() > 0
        invariant
            0 <= k <= s0.children@.len(),
            children@ == s0.children@.subrange(k, s0.children@.len() as int),
            table.wf(),
            s0.wf_in(*old(table)),
            table@ == old(table)@.remove_keys(
                s0.owns@.to_set() + Scope::forest_set(s0.children@, k),
            ),
            table.retired() == old(table).retired() + (s0.owns@.to_set() + Scope::forest_set(
                s0.children@,
                k,
            )),
        decreases children@.len(),
    {
        let c = children.remove(0);
        proof {
            assert(c == s0.children@[k]);
            assert(children@ =~= s0.children@.subrange(k + 1, s0.children@.len() as int));
            // the child's handles are still live: they are disjoint from
            // everything removed so far
            let removed = s0.owns@.to_set() + Scope::forest_set(s0.children@, k);
            assert(c.subtree_set().disjoint(s0.owns@.to_set()));
            assert forall|j: int| 0 <= j < k implies (#[trigger] s0.children@[j]).subtree_set().disjoint(
                c.subtree_set(),
            ) by {}
            Scope::lemma_forest_disjoint(s0.children@, k, c.subtree_set());
            c.lemma_subtree_in_table(*old(table));
            assert forall|h: NodeRef| c.subtree_set().contains(h) implies table@.contains_key(
                h,
            ) by {
                assert(old(table)@.contains_key(h));
                assert(!removed.contains(h));
            }
            c.lemma_wf_in_preserved(*old(table), *table);
            assert(decreases_to!(s0 => s0.children));
            assert(decreases_to!(s0.children => s0.children@));
            assert(decreases_to!(s0.children@ => s0.children@[k]));
            assert(decreases_to!(s0 => c));
        }
        release_subtree(c, table);
        proof {
            assert(Scope::forest_set(s0.children@, k + 1) == Scope::forest_set(s0.children@, k)
                + c.subtree_set());
            assert(table@ =~= old(table)@.remove_keys(
                s0.owns@.to_set() + Scope::forest_set(s0.children@, k + 1),
            ));
            assert(table.retired() =~= old(table).retired() + (s0.owns@.to_set()
                + Scope::forest_set(s0.children@, k + 1)));
            k = k + 1;
        }
    }
    proof {
        assert(s0.subtree_set() == s0.owns@.to_set() + Scope::forest_set(
            s0.children@,
            s0.children@.len() as int,
        ));
        assert(final(table)@ =~= old(table)@.remove_keys(s0.subtree_set()));
        assert(final(table).retired() =~= old(table).retired() + s0.subtree_set());
    }
}

/// Drop protocol for a scope, in this exact order: every handle in the
/// subtree is removed from the runtime's slot table (each destructor runs
/// now, exactly once), then the scope's actual allocation total and
/// owned-handle count are reported to the estimators for the next scope
/// at this structural position, and the bump region goes away with the
/// scope as one block.
pub fn drop_scope<V, H: ScopeHyristics, H2: ScopeHyristicsOwned>(
    scope: Scope,
    rt: &mut Runtime<V>,
    alloc_est: &mut H,
    owned_est: &mut H2,
)
    requires
        old(rt).states.wf(),
        scope.wf_in(old(rt).states),
        scope.runtime == old(rt).id,
    ensures
        final(rt).id == old(rt).id,
        final(rt).states.wf(),
        final(rt).states@ == old(rt).states@.remove_keys(scope.subtree_set()),
        final(rt).states.retired() == old(rt).states.retired() + scope.subtree_set(),
        final(alloc_est).guess_spec() == scope.arena.allocated,
        final(owned_est).owned_spec() == scope.owns@.len(),
{
    let bytes = scope.arena.allocated_bytes();
    let owned = scope.owns.len();
    release_subtree(scope, &mut rt.states);
    alloc_est.update_guess(bytes);
    owned_est.update_owned(owned);
}

} // verus!
