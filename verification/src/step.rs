//! Breakpoints and the decisions of single-stepping.
//!
//! The interpreter is driven from outside: whoever drives it hands each of
//! its reports to [`step`] or [`step_command`] and does what the returned
//! [`Action`] says, until that is to halt.

use crate::machine::{Machine, Terminator};
use std::collections::HashMap;
use vstd::prelude::*;
use vstd::std_specs::iter::IteratorSpec;
use vstd::string::StringExecFns;

verus! {

/// What a stop predicate answers after a step.
#[derive(Clone, Copy, Debug, PartialEq, Eq, Structural)]
pub enum ShouldContinue {
    Continue,
    Stop,
}

/// A place at which stepping must pause: the identity of a function, the
/// index of a block in it, and the index of a statement in that block.
#[derive(Copy, Clone, Eq, PartialEq, Hash, Debug, Structural)]
pub struct Breakpoint(pub u64, pub usize, pub usize);

/// The breakpoints of a session, in one bucket for each function.
///
/// A bucket is a vector that holds nothing twice. It cannot be a hash set:
/// vstd describes hashed collections only for keys whose hashing it knows,
/// which are the integers, and of a set of breakpoints it proves nothing,
/// not even that an inserted one is in it.
pub struct BreakpointTree(HashMap<u64, Vec<Breakpoint>>);

/// The breakpoints of one function, as [`BreakpointTree::for_def_id`] finds
/// them.
#[derive(Copy, Clone)]
pub enum LocalBreakpoints<'a> {
    NoBp,
    SomeBps(&'a Vec<Breakpoint>),
}

/// Whether `bucket` is a proper bucket for the function `key`: it holds
/// nothing twice and only breakpoints of that function.
pub open spec fn bucket_wf(key: u64, bucket: Seq<Breakpoint>) -> bool {
    &&& bucket.no_duplicates()
    &&& forall|i: int| 0 <= i < bucket.len() ==> (#[trigger] bucket[i]).0 == key
}

impl View for BreakpointTree {
    type V = Map<u64, Set<Breakpoint>>;

    /// The buckets: for each function that has had a breakpoint added since
    /// the registry was last cleared, the set of its breakpoints.
    closed spec fn view(&self) -> Map<u64, Set<Breakpoint>> {
        Map::new(|key: u64| self.0@.contains_key(key), |key: u64| self.0@[key]@.to_set())
    }
}

impl Default for BreakpointTree {
    fn default() -> (tree: Self)
        ensures
            tree.wf(),
            tree@ == Map::<u64, Set<Breakpoint>>::empty(),
    {
        BreakpointTree::new()
    }
}

impl<'a> View for LocalBreakpoints<'a> {
    type V = Set<Breakpoint>;

    open spec fn view(&self) -> Set<Breakpoint> {
        match self {
            LocalBreakpoints::NoBp => Set::empty(),
            LocalBreakpoints::SomeBps(bucket) => bucket@.to_set(),
        }
    }
}

/// The breakpoints that `buckets` holds for the function `key`: those of
/// its bucket, none where it has no bucket.
pub open spec fn bucket_of(buckets: Map<u64, Set<Breakpoint>>, key: u64) -> Set<Breakpoint> {
    if buckets.contains_key(key) {
        buckets[key]
    } else {
        Set::empty()
    }
}

/// Whether `bp` is among the breakpoints in `buckets`: the bucket of its
/// function holds a breakpoint with the same block and the same statement.
pub open spec fn holds(buckets: Map<u64, Set<Breakpoint>>, bp: Breakpoint) -> bool {
    buckets.contains_key(bp.0) && buckets[bp.0].contains(bp)
}

/// The buckets after `bp` has been added.
pub open spec fn with_added(buckets: Map<u64, Set<Breakpoint>>, bp: Breakpoint) -> Map<
    u64,
    Set<Breakpoint>,
> {
    buckets.insert(bp.0, bucket_of(buckets, bp.0).insert(bp))
}

/// The buckets after `bp` has been removed. The bucket of its function
/// stays, and where there is none, nothing changes.
pub open spec fn with_removed(buckets: Map<u64, Set<Breakpoint>>, bp: Breakpoint) -> Map<
    u64,
    Set<Breakpoint>,
> {
    if buckets.contains_key(bp.0) {
        buckets.insert(bp.0, buckets[bp.0].remove(bp))
    } else {
        buckets
    }
}

/// After `bp` has been added, a place is a breakpoint if and only if it is
/// `bp` itself, in all three parts, or was a breakpoint before.
pub proof fn lemma_added_breakpoint(
    buckets: Map<u64, Set<Breakpoint>>,
    bp: Breakpoint,
    place: Breakpoint,
)
    ensures
        holds(with_added(buckets, bp), place) <==> place == bp || holds(buckets, place),
{
}

/// After `bp` has been removed, a place is a breakpoint if and only if it
/// is another one than `bp` and was a breakpoint before.
pub proof fn lemma_removed_breakpoint(
    buckets: Map<u64, Set<Breakpoint>>,
    bp: Breakpoint,
    place: Breakpoint,
)
    ensures
        holds(with_removed(buckets, bp), place) <==> place != bp && holds(buckets, place),
{
}

/// Removing a breakpoint of a function that has no bucket, as in an empty
/// registry, changes nothing, and the breakpoint was not there.
pub proof fn lemma_remove_without_bucket(buckets: Map<u64, Set<Breakpoint>>, bp: Breakpoint)
    requires
        !buckets.contains_key(bp.0),
    ensures
        !holds(buckets, bp),
        with_removed(buckets, bp) == buckets,
{
}

/// Of two different breakpoints of one function that are both added, the
/// one that is then removed is gone and the other is still there.
pub proof fn lemma_add_two_remove_one(
    buckets: Map<u64, Set<Breakpoint>>,
    first: Breakpoint,
    second: Breakpoint,
)
    requires
        first != second,
        first.0 == second.0,
    ensures
        !holds(with_removed(with_added(with_added(buckets, first), second), first), first),
        holds(with_removed(with_added(with_added(buckets, first), second), first), second),
{
    lemma_added_breakpoint(buckets, first, second);
    lemma_added_breakpoint(with_added(buckets, first), second, second);
    lemma_removed_breakpoint(with_added(with_added(buckets, first), second), first, second);
    lemma_removed_breakpoint(with_added(with_added(buckets, first), second), first, first);
}

fn bucket_position(bucket: &Vec<Breakpoint>, bp: Breakpoint) -> (found: Option<usize>)
    ensures
        match found {
            Some(i) => i < bucket.len() && bucket[i as int] == bp,
            None => !bucket@.contains(bp),
        },
{
    let mut i: usize = 0;
    while i < bucket.len()
        invariant
            i <= bucket.len(),
            forall|j: int| 0 <= j < i ==> bucket[j] != bp,
        decreases bucket.len() - i,
    {
        if bucket[i] == bp {
            return Some(i);
        }
        i = i + 1;
    }
    None
}

impl BreakpointTree {
    /// Every bucket holds each of its breakpoints once, and only
    /// breakpoints of its own function.
    pub closed spec fn wf(&self) -> bool {
        forall|key: u64| #[trigger] self.0@.contains_key(key) ==> bucket_wf(key, self.0@[key]@)
    }

    /// Whether `bp` is registered.
    pub open spec fn contains(&self, bp: Breakpoint) -> bool {
        holds(self@, bp)
    }

    /// The registered breakpoints of the function `key`.
    pub open spec fn bucket(&self, key: u64) -> Set<Breakpoint> {
        bucket_of(self@, key)
    }

    /// A breakpoint lies in the bucket of its own function and in no other,
    /// and every bucket is finite.
    pub proof fn lemma_buckets(&self)
        requires
            self.wf(),
        ensures
            forall|key: u64, bp: Breakpoint|
                self@.contains_key(key) && #[trigger] self@[key].contains(bp) ==> bp.0 == key,
            forall|key: u64| self@.contains_key(key) ==> (#[trigger] self@[key]).finite(),
    {
        assert forall|key: u64, bp: Breakpoint|
            self@.contains_key(key) && #[trigger] self@[key].contains(bp) implies bp.0 == key by {
            assert(self.0@.contains_key(key));
            let bucket = self.0@[key]@;
            assert(bucket.contains(bp));
            let i = choose|i: int| 0 <= i < bucket.len() && bucket[i] == bp;
            assert(bucket[i].0 == key);
        }
        assert forall|key: u64| self@.contains_key(key) implies (#[trigger] self@[key]).finite() by {
            vstd::seq_lib::seq_to_set_is_finite(self.0@[key]@);
        }
    }

    /// A registry without breakpoints.
    pub fn new() -> (tree: Self)
        ensures
            tree.wf(),
            tree@ == Map::<u64, Set<Breakpoint>>::empty(),
    {
        let tree = BreakpointTree(HashMap::new());
        assert(tree@ =~= Map::<u64, Set<Breakpoint>>::empty());
        tree
    }

    /// Registers `bp` in the bucket of its function. Adding a breakpoint
    /// that is registered already changes nothing.
    pub fn add_breakpoint(&mut self, bp: Breakpoint)
        requires
            old(self).wf(),
        ensures
            final(self).wf(),
            final(self)@ == with_added(old(self)@, bp),
    {
        broadcast use vstd::std_specs::hash::group_hash_axioms;

        let mut bucket = match self.0.remove(&bp.0) {
            Some(bucket) => bucket,
            None => Vec::new(),
        };
        let ghost before = bucket@;
        assert(before.to_set() =~= old(self).bucket(bp.0));
        assert(bucket_wf(bp.0, before)) by {
            if old(self).0@.contains_key(bp.0) {
                assert(before == old(self).0@[bp.0]@);
            }
        }
        if bucket_position(&bucket, bp).is_none() {
            bucket.push(bp);
            assert(bucket@.to_set() =~= before.to_set().insert(bp)) by {
                assert forall|other: Breakpoint| bucket@.contains(other) implies before.contains(
                    other,
                ) || other == bp by {
                    let i = choose|i: int| 0 <= i < bucket@.len() && bucket@[i] == other;
                    if i < before.len() {
                        assert(before[i] == other);
                    }
                }
                assert forall|other: Breakpoint|
                    before.contains(other) || other == bp implies bucket@.contains(other) by {
                    if other == bp {
                        assert(bucket@[before.len() as int] == bp);
                    } else {
                        let i = choose|i: int| 0 <= i < before.len() && before[i] == other;
                        assert(bucket@[i] == other);
                    }
                }
            }
        } else {
            assert(bucket@.to_set() =~= before.to_set().insert(bp));
        }
        assert(bucket_wf(bp.0, bucket@));
        self.0.insert(bp.0, bucket);
        assert(self@ =~= old(self)@.insert(bp.0, old(self).bucket(bp.0).insert(bp)));
        assert(self.wf()) by {
            assert forall|key: u64| #[trigger] self.0@.contains_key(key) implies bucket_wf(
                key,
                self.0@[key]@,
            ) by {
                if key != bp.0 {
                    assert(old(self).0@.contains_key(key));
                }
            }
        }
    }

    /// Takes `bp` out of the registry and says whether it was there. The
    /// bucket of its function stays, empty if need be.
    pub fn remove_breakpoint(&mut self, bp: Breakpoint) -> (removed: bool)
        requires
            old(self).wf(),
        ensures
            final(self).wf(),
            removed == old(self).contains(bp),
            final(self)@ == with_removed(old(self)@, bp),
    {
        broadcast use vstd::std_specs::hash::group_hash_axioms;

        match self.0.remove(&bp.0) {
            None => {
                assert(self@ =~= old(self)@);
                assert(self.wf()) by {
                    assert forall|key: u64| #[trigger] self.0@.contains_key(key) implies bucket_wf(
                        key,
                        self.0@[key]@,
                    ) by {
                        assert(old(self).0@.contains_key(key));
                    }
                }
                false
            },
            Some(mut bucket) => {
                let ghost before = bucket@;
                assert(before == old(self).0@[bp.0]@);
                assert(bucket_wf(bp.0, before));
                let removed = match bucket_position(&bucket, bp) {
                    Some(i) => {
                        bucket.remove(i);
                        assert(bucket@.to_set() =~= before.to_set().remove(bp)) by {
                            assert forall|other: Breakpoint|
                                bucket@.contains(other) implies before.contains(other) && other
                                != bp by {
                                let j = choose|j: int| 0 <= j < bucket@.len() && bucket@[j] == other;
                                if j < i {
                                    assert(before[j] == other);
                                } else {
                                    assert(before[j + 1] == other);
                                }
                            }
                            assert forall|other: Breakpoint|
                                before.contains(other) && other != bp implies bucket@.contains(
                                other,
                            ) by {
                                let j = choose|j: int| 0 <= j < before.len() && before[j] == other;
                                if j < i {
                                    assert(bucket@[j] == other);
                                } else {
                                    assert(bucket@[j - 1] == other);
                                }
                            }
                        }
                        assert(bucket_wf(bp.0, bucket@)) by {
                            assert forall|j: int| 0 <= j < bucket@.len() implies (
                            #[trigger] bucket@[j]).0 == bp.0 by {
                                if j < i {
                                    assert(bucket@[j] == before[j]);
                                } else {
                                    assert(bucket@[j] == before[j + 1]);
                                }
                            }
                            assert forall|j: int, k: int|
                                0 <= j < bucket@.len() && 0 <= k < bucket@.len() && j
                                    != k implies bucket@[j] != bucket@[k] by {
                                let jj = if j < i {
                                    j
                                } else {
                                    j + 1
                                };
                                let kk = if k < i {
                                    k
                                } else {
                                    k + 1
                                };
                                assert(bucket@[j] == before[jj]);
                                assert(bucket@[k] == before[kk]);
                            }
                        }
                        true
                    },
                    None => {
                        assert(bucket@.to_set() =~= before.to_set().remove(bp));
                        false
                    },
                };
                self.0.insert(bp.0, bucket);
                assert(self@ =~= old(self)@.insert(bp.0, old(self)@[bp.0].remove(bp)));
                assert(self.wf()) by {
                    assert forall|key: u64| #[trigger] self.0@.contains_key(key) implies bucket_wf(
                        key,
                        self.0@[key]@,
                    ) by {
                        if key != bp.0 {
                            assert(old(self).0@.contains_key(key));
                        }
                    }
                }
                removed
            },
        }
    }

    /// Empties the registry.
    pub fn remove_all(&mut self)
        ensures
            final(self).wf(),
            final(self)@ == Map::<u64, Set<Breakpoint>>::empty(),
    {
        self.0.clear();
        assert(self@ =~= Map::<u64, Set<Breakpoint>>::empty());
    }

    /// Finds the bucket of the function `def_id`.
    pub fn for_def_id(&self, def_id: u64) -> (local: LocalBreakpoints<'_>)
        requires
            self.wf(),
        ensures
            local is SomeBps <==> self@.contains_key(def_id),
            local@ == self.bucket(def_id),
            local matches LocalBreakpoints::SomeBps(bucket) ==> bucket_wf(def_id, bucket@),
    {
        broadcast use vstd::std_specs::hash::group_hash_axioms;

        proof {
            self.lemma_buckets();
        }
        if let Some(bucket) = self.0.get(&def_id) {
            LocalBreakpoints::SomeBps(bucket)
        } else {
            LocalBreakpoints::NoBp
        }
    }
}

/// Whether `bp` lies in one of the first `count` of the buckets `pairs`.
spec fn gathered(pairs: Seq<(&u64, &Vec<Breakpoint>)>, count: int, bp: Breakpoint) -> bool {
    exists|j: int| 0 <= j < count && (#[trigger] pairs[j]).1@.contains(bp)
}

impl BreakpointTree {
    /// All registered breakpoints, each once, in no particular order.
    pub fn iter(&self) -> (all: Vec<Breakpoint>)
        requires
            self.wf(),
        ensures
            all@.no_duplicates(),
            forall|bp: Breakpoint| all@.contains(bp) <==> self.contains(bp),
    {
        broadcast use vstd::std_specs::hash::group_hash_axioms;

        let mut all: Vec<Breakpoint> = Vec::new();
        let ghost pairs = self.0.iter().remaining();
        for pair in it: self.0.iter()
            invariant
                self.wf(),
                it.seq() == pairs,
                pairs == vstd::std_specs::hash::spec_hash_map_iter(&self.0).remaining(),
                pairs.no_duplicates(),
                all@.no_duplicates(),
                forall|bp: Breakpoint| all@.contains(bp) <==> gathered(pairs, it.index(), bp),
        {
            let bucket = pair.1;
            let ghost idx = it.index();
            assert(pairs[idx] == pair);
            assert(self.0@.contains_key(*pairs[idx].0) && self.0@[*pairs[idx].0] == *pairs[idx].1);
            assert(bucket_wf(*pair.0, bucket@));
            let mut k: usize = 0;
            while k < bucket.len()
                invariant
                    self.wf(),
                    pairs == vstd::std_specs::hash::spec_hash_map_iter(&self.0).remaining(),
                    pairs.no_duplicates(),
                    0 <= idx < pairs.len(),
                    pairs[idx] == pair,
                    bucket == pair.1,
                    bucket_wf(*pair.0, bucket@),
                    k <= bucket.len(),
                    all@.no_duplicates(),
                    forall|bp: Breakpoint|
                        all@.contains(bp) <==> gathered(pairs, idx, bp) || exists|t: int|
                            0 <= t < k && #[trigger] bucket[t] == bp,
                decreases bucket.len() - k,
            {
                let bp = bucket[k];
                let ghost before = all@;
                assert(!before.contains(bp)) by {
                    if gathered(pairs, idx, bp) {
                        let j = choose|j: int|
                            0 <= j < idx && (#[trigger] pairs[j]).1@.contains(bp);
                        assert(self.0@.contains_key(*pairs[j].0) && self.0@[*pairs[j].0]
                            == *pairs[j].1);
                        assert(bucket_wf(*pairs[j].0, pairs[j].1@));
                        let t = choose|t: int| 0 <= t < pairs[j].1@.len() && pairs[j].1@[t] == bp;
                        assert(pairs[j].1@[t].0 == *pairs[j].0);
                        assert(bucket@[k as int].0 == *pair.0);
                        assert(pairs[j] == pairs[idx]);
                    }
                }
                all.push(bp);
                assert(all@.no_duplicates()) by {
                    assert forall|a: int, b: int|
                        0 <= a < all@.len() && 0 <= b < all@.len() && a != b implies all@[a]
                        != all@[b] by {
                        if a == before.len() {
                            assert(before[b] == all@[b]);
                        } else if b == before.len() {
                            assert(before[a] == all@[a]);
                        } else {
                            assert(before[a] == all@[a]);
                            assert(before[b] == all@[b]);
                        }
                    }
                }
                assert forall|other: Breakpoint|
                    all@.contains(other) <==> gathered(pairs, idx, other) || exists|t: int|
                        0 <= t < k + 1 && #[trigger] bucket[t] == other by {
                    if all@.contains(other) {
                        let a = choose|a: int| 0 <= a < all@.len() && all@[a] == other;
                        if a < before.len() {
                            assert(before[a] == other);
                            assert(before.contains(other));
                        } else {
                            assert(bucket[k as int] == other);
                        }
                    }
                    if gathered(pairs, idx, other) || exists|t: int|
                        0 <= t < k && #[trigger] bucket[t] == other {
                        assert(before.contains(other));
                        let a = choose|a: int| 0 <= a < before.len() && before[a] == other;
                        assert(all@[a] == other);
                    }
                    if other == bp {
                        assert(all@[before.len() as int] == other);
                    }
                }
                k = k + 1;
            }
            assert forall|bp: Breakpoint| all@.contains(bp) <==> gathered(pairs, idx + 1, bp) by {
                if gathered(pairs, idx + 1, bp) && !gathered(pairs, idx, bp) {
                    let j = choose|j: int| 0 <= j < idx + 1 && (#[trigger] pairs[j]).1@.contains(bp);
                    assert(j == idx);
                    let t = choose|t: int| 0 <= t < bucket@.len() && bucket@[t] == bp;
                    assert(bucket[t] == bp);
                }
                if exists|t: int| 0 <= t < bucket.len() && #[trigger] bucket[t] == bp {
                    assert(pairs[idx].1@.contains(bp));
                }
                if gathered(pairs, idx, bp) {
                    let j = choose|j: int| 0 <= j < idx && (#[trigger] pairs[j]).1@.contains(bp);
                    assert(pairs[j].1@.contains(bp));
                }
            }
        }
        assert forall|bp: Breakpoint| all@.contains(bp) <==> self.contains(bp) by {
            if gathered(pairs, pairs.len() as int, bp) {
                let j = choose|j: int|
                    0 <= j < pairs.len() && (#[trigger] pairs[j]).1@.contains(bp);
                assert(self.0@.contains_key(*pairs[j].0) && self.0@[*pairs[j].0] == *pairs[j].1);
                assert(bucket_wf(*pairs[j].0, pairs[j].1@));
                let t = choose|t: int| 0 <= t < pairs[j].1@.len() && pairs[j].1@[t] == bp;
                assert(pairs[j].1@[t].0 == *pairs[j].0);
                assert(self@[bp.0].contains(bp));
            }
            if self.contains(bp) {
                assert(self.0@.contains_key(bp.0));
                assert(pairs.contains((&bp.0, &self.0@[bp.0])));
                let j = choose|j: int|
                    0 <= j < pairs.len() && pairs[j] == (&bp.0, &self.0@[bp.0]);
                assert(pairs[j].1@.contains(bp));
            }
        }
        all
    }

    /// Whether the executing frame of `machine` is at a registered
    /// breakpoint.
    pub fn is_at_breakpoint(&self, machine: &Machine) -> (at: bool)
        requires
            self.wf(),
            machine.stack.len() > 0,
        ensures
            at == self.contains(location(machine)),
    {
        let frame = &machine.stack[machine.stack.len() - 1];
        let local = self.for_def_id(frame.function);
        let at = local.breakpoint_exists(frame.block, frame.stmt);
        proof {
            let here = location(machine);
            if at {
                let bp = choose|bp: Breakpoint| #[trigger]
                    local@.contains(bp) && bp.1 == frame.block && bp.2 == frame.stmt;
                self.lemma_buckets();
                assert(self@[frame.function].contains(bp));
                assert(bp == here);
            } else if self.contains(here) {
                assert(local@.contains(here));
            }
        }
        at
    }
}

impl<'a> LocalBreakpoints<'a> {
    /// Whether one of the breakpoints is at statement `stmt` of block `bb`.
    pub fn breakpoint_exists(&self, bb: usize, stmt: usize) -> (found: bool)
        ensures
            found == exists|bp: Breakpoint| #[trigger]
                self@.contains(bp) && bp.1 == bb && bp.2 == stmt,
    {
        match *self {
            LocalBreakpoints::NoBp => false,
            LocalBreakpoints::SomeBps(bucket) => {
                let mut i: usize = 0;
                while i < bucket.len()
                    invariant
                        i <= bucket.len(),
                        self@ == bucket@.to_set(),
                        forall|j: int|
                            0 <= j < i ==> !((#[trigger] bucket[j]).1 == bb && bucket[j].2 == stmt),
                    decreases bucket.len() - i,
                {
                    if bucket[i].1 == bb && bucket[i].2 == stmt {
                        assert(bucket@.contains(bucket[i as int]));
                        assert(self@.contains(bucket[i as int]));
                        return true;
                    }
                    i = i + 1;
                }
                assert forall|bp: Breakpoint| #[trigger]
                    self@.contains(bp) implies !(bp.1 == bb && bp.2 == stmt) by {
                    let j = choose|j: int| 0 <= j < bucket@.len() && bucket@[j] == bp;
                    assert(bucket[j] == bp);
                }
                false
            },
        }
    }
}

/// The place at which the executing frame of `machine` stands.
pub open spec fn location(machine: &Machine) -> Breakpoint {
    Breakpoint(machine.top().function, machine.top().block, machine.top().stmt)
}

/// Whether the executing frame is about to return: it stands behind the
/// last statement of a block that ends in a return. A machine without
/// frames counts as returning.
pub open spec fn at_return(machine: &Machine) -> bool {
    if machine.stack.len() == 0 {
        true
    } else {
        let frame = machine.top();
        let block = frame.blocks[frame.block as int];
        block.terminator is Return && frame.stmt >= block.statements.len()
    }
}

/// Whether the executing frame is about to return.
pub fn is_ret(machine: &Machine) -> (returning: bool)
    requires
        machine.wf(),
    ensures
        returning == at_return(machine),
{
    if machine.stack.len() == 0 {
        true
    } else {
        let frame = &machine.stack[machine.stack.len() - 1];
        let block = &frame.blocks[frame.block];
        match block.terminator {
            Terminator::Return => frame.stmt >= block.statements.len(),
            _ => false,
        }
    }
}

/// What the driver reports to the controller.
#[derive(Debug, PartialEq, Eq)]
pub enum Event {
    /// A command has been given and nothing has run yet.
    Invoked,
    /// The interpreter ran one step and the program goes on.
    Advanced,
    /// The interpreter ran one step and the program is over.
    Finished,
    /// The interpreter failed; the text says how.
    Failed(String),
}

/// What the driver is to do next.
#[derive(Debug, PartialEq, Eq)]
pub enum Action {
    /// Have the interpreter run one step and report what came of it.
    Step,
    /// Stop, with a message where the program ended or failed.
    Halt(Option<String>),
}

/// An [`Event`] with its text as characters.
pub enum EventView {
    Invoked,
    Advanced,
    Finished,
    Failed(Seq<char>),
}

/// An [`Action`] with its message as characters.
pub enum ActionView {
    Step,
    Halt(Option<Seq<char>>),
}

impl View for Event {
    type V = EventView;

    open spec fn view(&self) -> EventView {
        match self {
            Event::Invoked => EventView::Invoked,
            Event::Advanced => EventView::Advanced,
            Event::Finished => EventView::Finished,
            Event::Failed(reason) => EventView::Failed(reason@),
        }
    }
}

impl View for Action {
    type V = ActionView;

    open spec fn view(&self) -> ActionView {
        match self {
            Action::Step => ActionView::Step,
            Action::Halt(None) => ActionView::Halt(None),
            Action::Halt(Some(message)) => ActionView::Halt(Some(message@)),
        }
    }
}

/// Whether the program has run to its end: at most one frame is left, and
/// it is about to return.
pub open spec fn finished(machine: &Machine) -> bool {
    machine.stack.len() <= 1 && at_return(machine)
}

/// What happens where nothing asks for a halt: one more step, unless the
/// program has run to its end.
pub open spec fn resume(machine: &Machine) -> ActionView {
    if finished(machine) {
        ActionView::Halt(None)
    } else {
        ActionView::Step
    }
}

/// Whether the statement that is next is one that stepping passes over.
pub open spec fn at_hidden_statement(machine: &Machine) -> bool {
    &&& machine.stack.len() > 0
    &&& machine.top().stmt != machine.top().blocks[machine.top().block as int].statements.len()
    &&& machine.top().blocks[machine.top().block as int].statements[machine.top().stmt as int].hidden
}

/// Whether the executing frame stands at a registered breakpoint.
pub open spec fn at_breakpoint(breakpoints: &BreakpointTree, machine: &Machine) -> bool {
    machine.stack.len() > 0 && breakpoints.contains(location(machine))
}

/// Whether the stop predicate is asked: after a step that left the program
/// running, unless the machine stands at a hidden statement without a
/// breakpoint.
pub open spec fn consults(machine: &Machine, event: EventView, breakpoints: &BreakpointTree) -> bool {
    event is Advanced && !(at_hidden_statement(machine) && !at_breakpoint(breakpoints, machine))
}

/// The action that follows `event` in the state `machine`, given what the
/// stop predicate answers where it is asked.
///
/// The end of the program and a failure halt with their message. After
/// an ordinary step a hidden statement without a breakpoint is passed over;
/// elsewhere the predicate or a breakpoint halts without a message.
pub open spec fn decision(
    machine: &Machine,
    event: EventView,
    breakpoints: &BreakpointTree,
    verdict: ShouldContinue,
) -> ActionView {
    match event {
        EventView::Invoked => resume(machine),
        EventView::Finished => ActionView::Halt(Some("interpretation finished"@)),
        EventView::Failed(reason) => ActionView::Halt(Some(reason)),
        EventView::Advanced => if !consults(machine, event, breakpoints) {
            resume(machine)
        } else if verdict is Stop || at_breakpoint(breakpoints, machine) {
            ActionView::Halt(None)
        } else {
            resume(machine)
        },
    }
}

fn resume_action(machine: &Machine) -> (action: Action)
    requires
        machine.wf(),
    ensures
        action@ == resume(machine),
{
    if machine.stack.len() <= 1 && is_ret(machine) {
        Action::Halt(None)
    } else {
        Action::Step
    }
}

/// Whether the stop predicate has to be asked after `event`.
pub fn must_consult(machine: &Machine, event: &Event, breakpoints: &BreakpointTree) -> (asked: bool)
    requires
        machine.wf(),
        breakpoints.wf(),
    ensures
        asked == consults(machine, event@, breakpoints),
{
    match event {
        Event::Advanced => {
            if machine.stack.len() > 0 {
                let frame = &machine.stack[machine.stack.len() - 1];
                let block = &frame.blocks[frame.block];
                if frame.stmt != block.statements.len() {
                    if block.statements[frame.stmt].hidden && !breakpoints.is_at_breakpoint(
                        machine,
                    ) {
                        return false;
                    }
                }
            }
            true
        },
        _ => false,
    }
}

/// Decides what follows `event`, given the answer of the stop predicate.
/// The answer is read only where [`consults`] holds.
pub fn decide(
    machine: &Machine,
    event: Event,
    breakpoints: &BreakpointTree,
    verdict: ShouldContinue,
) -> (action: Action)
    requires
        machine.wf(),
        breakpoints.wf(),
        event is Advanced ==> machine.stack.len() > 0,
    ensures
        action@ == decision(machine, event@, breakpoints, verdict),
{
    if must_consult(machine, &event, breakpoints) {
        match verdict {
            ShouldContinue::Stop => Action::Halt(None),
            ShouldContinue::Continue => {
                if breakpoints.is_at_breakpoint(machine) {
                    Action::Halt(None)
                } else {
                    resume_action(machine)
                }
            },
        }
    } else {
        match event {
            Event::Finished => Action::Halt(Some(String::from_str("interpretation finished"))),
            Event::Failed(reason) => Action::Halt(Some(reason)),
            _ => resume_action(machine),
        }
    }
}

/// Decides what follows `event`: halt, or have the interpreter run one
/// more step. `continue_while` is the stop predicate of the command; it is
/// called once where [`consults`] holds and not at all elsewhere.
pub fn step<F>(
    machine: &Machine,
    event: Event,
    breakpoints: &BreakpointTree,
    continue_while: F,
) -> (action: Action) where F: Fn(&Machine) -> ShouldContinue
    requires
        machine.wf(),
        breakpoints.wf(),
        event is Advanced ==> machine.stack.len() > 0,
        consults(machine, event@, breakpoints) ==> continue_while.requires((machine,)),
    ensures
        !consults(machine, event@, breakpoints) ==> action@ == decision(
            machine,
            event@,
            breakpoints,
            ShouldContinue::Continue,
        ),
        consults(machine, event@, breakpoints) ==> (continue_while.ensures(
            (machine,),
            ShouldContinue::Stop,
        ) && action@ == decision(machine, event@, breakpoints, ShouldContinue::Stop))
            || (continue_while.ensures((machine,), ShouldContinue::Continue) && action@
            == decision(machine, event@, breakpoints, ShouldContinue::Continue)),
{
    let verdict = if must_consult(machine, &event, breakpoints) {
        continue_while(machine)
    } else {
        ShouldContinue::Continue
    };
    decide(machine, event, breakpoints, verdict)
}

/// Where the machine stood when a command was given.
#[derive(Clone, Copy, Debug)]
pub struct Origin {
    /// The number of frames on the stack.
    pub depth: usize,
    /// The block and the statement of the executing frame, if there was one.
    pub location: Option<(usize, usize)>,
}

impl Origin {
    /// Whether the origin can have been captured from a machine: it has a
    /// location exactly when it has a frame.
    pub open spec fn wf(&self) -> bool {
        self.location is Some <==> self.depth > 0
    }

    /// The origin of a command given in the state `machine`.
    pub open spec fn of(machine: &Machine) -> Origin {
        Origin {
            depth: machine.stack.len() as usize,
            location: if machine.stack.len() > 0 {
                Some((machine.top().block, machine.top().stmt))
            } else {
                None
            },
        }
    }

    /// Records where the machine stands.
    pub fn capture(machine: &Machine) -> (origin: Origin)
        ensures
            origin == Origin::of(machine),
            origin.wf(),
    {
        let depth = machine.stack.len();
        if depth > 0 {
            let frame = &machine.stack[depth - 1];
            Origin { depth, location: Some((frame.block, frame.stmt)) }
        } else {
            Origin { depth, location: None }
        }
    }
}

/// The stop predicate of `next`: stop once the stack is no deeper than at
/// the origin and the frame has moved on, to a later block or a later
/// statement.
pub open spec fn next_verdict(origin: &Origin, machine: &Machine) -> ShouldContinue {
    if machine.stack.len() <= origin.depth && (origin.location->Some_0.0 < machine.top().block
        || origin.location->Some_0.1 < machine.top().stmt) {
        ShouldContinue::Stop
    } else {
        ShouldContinue::Continue
    }
}

/// The stop predicate of `return`: stop once the stack is no deeper than at
/// the origin and the executing frame is about to return.
pub open spec fn return_verdict(origin: &Origin, machine: &Machine) -> ShouldContinue {
    if machine.stack.len() <= origin.depth && at_return(machine) {
        ShouldContinue::Stop
    } else {
        ShouldContinue::Continue
    }
}

/// The answer of the stop predicate of the command `cmd`, and `None` where
/// `cmd` is no command.
pub open spec fn command_verdict(cmd: Seq<char>, origin: &Origin, machine: &Machine) -> Option<
    ShouldContinue,
> {
    if cmd == "step"@ {
        Some(ShouldContinue::Stop)
    } else if cmd == "next"@ {
        Some(next_verdict(origin, machine))
    } else if cmd == "return"@ {
        Some(return_verdict(origin, machine))
    } else if cmd == "continue"@ {
        Some(ShouldContinue::Continue)
    } else {
        None
    }
}

/// An action as a command reports it: a halt always has a message, the
/// empty one where the controller gave none.
pub open spec fn with_message(action: ActionView) -> ActionView {
    match action {
        ActionView::Halt(None) => ActionView::Halt(Some(Seq::empty())),
        other => other,
    }
}

fn is_word(cmd: &str, word: &str) -> (same: bool)
    ensures
        same == (cmd@ == word@),
{
    let given = cmd.to_owned();
    let expected = word.to_owned();
    given == expected
}

fn report(action: Action) -> (reported: Action)
    ensures
        reported@ == with_message(action@),
{
    match action {
        Action::Halt(None) => Action::Halt(Some(String::new())),
        other => other,
    }
}

/// Decides what follows `event` under one of the commands `step`, `next`,
/// `return` and `continue`, given at `origin`. Any other word is no
/// command and gives `None`.
pub fn step_command(
    machine: &Machine,
    event: Event,
    breakpoints: &BreakpointTree,
    cmd: &str,
    origin: &Origin,
) -> (action: Option<Action>)
    requires
        machine.wf(),
        breakpoints.wf(),
        event is Advanced ==> machine.stack.len() > 0,
        cmd@ == "next"@ ==> origin.location is Some,
    ensures
        match command_verdict(cmd@, origin, machine) {
            Some(verdict) => action is Some && action->Some_0@ == with_message(
                decision(machine, event@, breakpoints, verdict),
            ),
            None => action is None,
        },
{
    if is_word(cmd, "step") {
        let always_stop = |_machine: &Machine| -> (verdict: ShouldContinue)
            ensures
                verdict == ShouldContinue::Stop,
            { ShouldContinue::Stop };
        Some(report(step(machine, event, breakpoints, always_stop)))
    } else if is_word(cmd, "next") {
        let frame = origin.depth;
        let (block, stmt) = match origin.location {
            Some(location) => location,
            None => vstd::pervasive::unreached(),
        };
        let moved_on = |current: &Machine| -> (verdict: ShouldContinue)
            requires
                current.stack.len() > 0,
            ensures
                verdict == next_verdict(origin, current),
            {
                let top = &current.stack[current.stack.len() - 1];
                if current.stack.len() <= frame && (block < top.block || stmt < top.stmt) {
                    ShouldContinue::Stop
                } else {
                    ShouldContinue::Continue
                }
            };
        Some(report(step(machine, event, breakpoints, moved_on)))
    } else if is_word(cmd, "return") {
        let frame = origin.depth;
        let returning = |current: &Machine| -> (verdict: ShouldContinue)
            requires
                current.wf(),
            ensures
                verdict == return_verdict(origin, current),
            {
                if current.stack.len() <= frame && is_ret(current) {
                    ShouldContinue::Stop
                } else {
                    ShouldContinue::Continue
                }
            };
        Some(report(step(machine, event, breakpoints, returning)))
    } else if is_word(cmd, "continue") {
        let never_stop = |_machine: &Machine| -> (verdict: ShouldContinue)
            ensures
                verdict == ShouldContinue::Continue,
            { ShouldContinue::Continue };
        Some(report(step(machine, event, breakpoints, never_stop)))
    } else {
        None
    }
}

/// A program that has run to its end is not stepped again: whatever the
/// command and the breakpoints, the first decision is to halt without a
/// message.
pub proof fn lemma_finished_program_is_not_stepped(
    machine: &Machine,
    breakpoints: &BreakpointTree,
    verdict: ShouldContinue,
)
    requires
        machine.stack.len() <= 1,
        at_return(machine),
    ensures
        decision(machine, EventView::Invoked, breakpoints, verdict) == ActionView::Halt(None),
{
}

/// `next` does not halt inside a deeper call. Where it halts while the
/// program runs on and no breakpoint is reached, the stack is no deeper than
/// it was when the command was given.
pub proof fn lemma_next_halts_no_deeper(
    machine: &Machine,
    event: EventView,
    breakpoints: &BreakpointTree,
    origin: &Origin,
)
    requires
        origin.wf(),
        origin.location is Some,
        event is Invoked || event is Advanced,
        !at_breakpoint(breakpoints, machine),
        decision(machine, event, breakpoints, next_verdict(origin, machine)) is Halt,
    ensures
        machine.stack.len() <= origin.depth,
{
}

/// `return` halts only where a frame is about to return. Where it halts
/// while the program runs on and no breakpoint is reached, the stack is no
/// deeper than it was when the command was given, and the executing frame
/// stands behind the last statement of a block that ends in a return.
pub proof fn lemma_return_halts_at_a_return(
    machine: &Machine,
    event: EventView,
    breakpoints: &BreakpointTree,
    origin: &Origin,
)
    requires
        origin.depth >= 1,
        event is Invoked || event is Advanced,
        !at_breakpoint(breakpoints, machine),
        decision(machine, event, breakpoints, return_verdict(origin, machine)) is Halt,
    ensures
        machine.stack.len() <= origin.depth,
        at_return(machine),
{
}

} // verus!
