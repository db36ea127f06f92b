//! An arena: it owns the objects handed to it, names each by a handle that is
//! never issued twice, and gives each back exactly once.

use vstd::prelude::*;

verus! {

/// An arena of objects of one type. The handle of an object is the number of
/// objects that were acquired before it, so a handle stays unique even after the
/// object it names was released.
pub struct Pool<T> {
    slots: Vec<Option<T>>,
}

impl<T> View for Pool<T> {
    type V = Seq<Option<T>>;

    /// One slot for each handle issued so far, in the order of issue: the object
    /// that the handle names, or `None` once it was released.
    closed spec fn view(&self) -> Seq<Option<T>> {
        self.slots@
    }
}

/// The handles of the slots that still hold an object, in rising order.
pub open spec fn live_handles<T>(slots: Seq<Option<T>>) -> Seq<nat>
    decreases slots.len(),
{
    if slots.len() == 0 {
        Seq::empty()
    } else if slots.last() is Some {
        live_handles(slots.drop_last()).push((slots.len() - 1) as nat)
    } else {
        live_handles(slots.drop_last())
    }
}

/// The objects that the slots still hold, in the order of their handles.
pub open spec fn live_items<T>(slots: Seq<Option<T>>) -> Seq<T>
    decreases slots.len(),
{
    if slots.len() == 0 {
        Seq::empty()
    } else if slots.last() is Some {
        live_items(slots.drop_last()).push(slots.last()->0)
    } else {
        live_items(slots.drop_last())
    }
}

/// One step in the life of an arena.
pub enum PoolOp<T> {
    /// An object is acquired.
    Acquire(T),
    /// The object that a handle names is released.
    Release(nat),
}

/// The slots after one step.
pub open spec fn step<T>(slots: Seq<Option<T>>, op: PoolOp<T>) -> Seq<Option<T>> {
    match op {
        PoolOp::Acquire(item) => slots.push(Some(item)),
        PoolOp::Release(handle) => if handle < slots.len() {
            slots.update(handle as int, None)
        } else {
            slots
        },
    }
}

/// The slots of an arena that started empty and went through `ops`.
pub open spec fn replay<T>(ops: Seq<PoolOp<T>>) -> Seq<Option<T>>
    decreases ops.len(),
{
    if ops.len() == 0 {
        Seq::empty()
    } else {
        step(replay(ops.drop_last()), ops.last())
    }
}

/// The number of objects acquired in `ops`: the number of handles issued.
pub open spec fn acquired<T>(ops: Seq<PoolOp<T>>) -> nat
    decreases ops.len(),
{
    if ops.len() == 0 {
        0
    } else if ops.last() is Acquire {
        acquired(ops.drop_last()) + 1
    } else {
        acquired(ops.drop_last())
    }
}

/// The object that was acquired under `handle` in `ops`.
pub open spec fn acquired_as<T>(ops: Seq<PoolOp<T>>, handle: nat) -> T
    decreases ops.len(),
{
    if ops.len() == 0 {
        arbitrary()
    } else if ops.last() is Acquire && acquired(ops.drop_last()) == handle {
        ops.last()->Acquire_0
    } else {
        acquired_as(ops.drop_last(), handle)
    }
}

/// Whether `ops` releases `handle` at some step at which it was already issued.
pub open spec fn released<T>(ops: Seq<PoolOp<T>>, handle: nat) -> bool {
    exists|i: int|
        0 <= i < ops.len() && #[trigger] ops[i] == PoolOp::<T>::Release(handle) && handle
            < acquired(ops.take(i))
}

/// The handles of the live slots rise strictly, each names a live slot, and every
/// live slot is named.
pub proof fn lemma_live_handles<T>(slots: Seq<Option<T>>)
    ensures
        live_handles(slots).len() == live_items(slots).len(),
        live_handles(slots).len() <= slots.len(),
        forall|i: int|
            0 <= i < live_handles(slots).len() ==> {
                &&& (#[trigger] live_handles(slots)[i]) < slots.len()
                &&& slots[live_handles(slots)[i] as int] == Some(live_items(slots)[i])
            },
        forall|i: int, j: int|
            0 <= i < j < live_handles(slots).len() ==> (#[trigger] live_handles(slots)[i]) < (
            #[trigger] live_handles(slots)[j]),
        forall|h: int|
            0 <= h < slots.len() && (#[trigger] slots[h]) is Some ==> live_handles(slots).contains(
                h as nat,
            ),
    decreases slots.len(),
{
    if slots.len() > 0 {
        let rest = slots.drop_last();
        lemma_live_handles(rest);
        let handles = live_handles(slots);
        assert forall|h: int|
            0 <= h < slots.len() && (#[trigger] slots[h]) is Some implies handles.contains(
            h as nat,
        ) by {
            if h < rest.len() {
                assert(rest[h] is Some);
                let k = choose|k: int|
                    0 <= k < live_handles(rest).len() && live_handles(rest)[k] == h as nat;
                assert(handles[k] == h as nat);
            } else {
                assert(handles[handles.len() - 1] == h as nat);
            }
        }
    }
}

/// Whatever an arena went through, at teardown every object that was acquired
/// and never released is handed over exactly once, and nothing else is: a handle
/// stands in the list of live handles once if it was issued and not released,
/// and not at all otherwise, and the object handed over for it is the one that
/// was acquired under it.
pub proof fn lemma_teardown_exactly_once<T>(ops: Seq<PoolOp<T>>, handle: nat)
    ensures
        replay(ops).len() == acquired(ops),
        live_handles(replay(ops)).no_duplicates(),
        live_handles(replay(ops)).len() == live_items(replay(ops)).len(),
        live_handles(replay(ops)).contains(handle) <==> handle < acquired(ops) && !released(
            ops,
            handle,
        ),
        forall|k: int|
            0 <= k < live_handles(replay(ops)).len() && #[trigger] live_handles(replay(ops))[k]
                == handle ==> live_items(replay(ops))[k] == acquired_as(ops, handle),
{
    lemma_replay(ops, handle);
    lemma_live_handles(replay(ops));
}

/// A prefix of a history issues no more handles than the whole history.
pub proof fn lemma_acquired_prefix<T>(ops: Seq<PoolOp<T>>, i: int)
    requires
        0 <= i <= ops.len(),
    ensures
        acquired(ops.take(i)) <= acquired(ops),
    decreases ops.len(),
{
    if i == ops.len() {
        assert(ops.take(i) =~= ops);
    } else {
        assert(ops.drop_last().take(i) =~= ops.take(i));
        lemma_acquired_prefix(ops.drop_last(), i);
    }
}

/// A slot holds an object exactly when its handle was issued and not released
/// since, and then the object that was acquired under the handle.
pub proof fn lemma_replay<T>(ops: Seq<PoolOp<T>>, handle: nat)
    ensures
        replay(ops).len() == acquired(ops),
        handle < acquired(ops) ==> (replay(ops)[handle as int] is Some <==> !released(ops, handle)),
        handle < acquired(ops) && replay(ops)[handle as int] is Some ==> replay(
            ops,
        )[handle as int] == Some(acquired_as(ops, handle)),
    decreases ops.len(),
{
    if ops.len() > 0 {
        let before = ops.drop_last();
        let last = ops.len() - 1;
        lemma_replay(before, handle);
        assert(forall|i: int| 0 <= i < last ==> #[trigger] ops.take(i) == before.take(i));
        if handle < acquired(ops) && released(ops, handle) {
            let i = choose|i: int|
                0 <= i < ops.len() && #[trigger] ops[i] == PoolOp::<T>::Release(handle) && handle
                    < acquired(ops.take(i));
            if i < last {
                assert(before[i] == PoolOp::<T>::Release(handle));
                lemma_acquired_prefix(before, i);
            }
        }
    }
}

impl<T> Default for Pool<T> {
    /// An arena that holds nothing.
    fn default() -> (pool: Pool<T>)
        ensures
            pool@ == Seq::<Option<T>>::empty(),
    {
        Pool::new()
    }
}

impl<T> Pool<T> {
    /// An arena that holds nothing.
    pub fn new() -> (pool: Pool<T>)
        ensures
            pool@ == Seq::<Option<T>>::empty(),
    {
        Pool { slots: Vec::new() }
    }

    /// Takes ownership of `item` and returns the handle that names it from now on.
    pub fn add(&mut self, item: T) -> (handle: usize)
        ensures
            handle == old(self)@.len(),
            final(self)@ == old(self)@.push(Some(item)),
            final(self)@ == step(old(self)@, PoolOp::Acquire(item)),
    {
        let handle = self.slots.len();
        self.slots.push(Some(item));
        handle
    }

    /// Gives the object that `handle` names back to the caller, or `None` where
    /// the handle names nothing: it was never issued, or its object was released
    /// before.
    pub fn remove(&mut self, handle: usize) -> (item: Option<T>)
        ensures
            handle < old(self)@.len() ==> item == old(self)@[handle as int] && final(self)@ == old(
                self,
            )@.update(handle as int, None),
            handle >= old(self)@.len() ==> item is None && final(self)@ == old(self)@,
            final(self)@ == step(old(self)@, PoolOp::Release(handle as nat)),
    {
        if handle < self.slots.len() {
            self.slots[handle].take()
        } else {
            None
        }
    }

    /// The object that `handle` names, or `None` where it names nothing.
    pub fn get(&self, handle: usize) -> (item: Option<&T>)
        ensures
            handle < self@.len() && self@[handle as int] is Some ==> item == Some(
                &self@[handle as int]->0,
            ),
            !(handle < self@.len() && self@[handle as int] is Some) ==> item is None,
    {
        if handle < self.slots.len() {
            self.slots[handle].as_ref()
        } else {
            None
        }
    }

    /// The number of handles issued so far: the handle that the next object gets.
    pub fn issued(&self) -> (n: usize)
        ensures
            n == self@.len(),
    {
        self.slots.len()
    }

    /// Ends the arena and hands over every object that it still holds, each
    /// exactly once, in the order of the handles.
    pub fn teardown(self) -> (items: Vec<T>)
        ensures
            items@ == live_items(self@),
    {
        let ghost slots = self@;
        let mut pool = self;
        let mut items: Vec<T> = Vec::new();
        let n = pool.slots.len();
        let mut i: usize = 0;
        while i < n
            invariant
                i <= n,
                n == slots.len(),
                pool.slots@.len() == n,
                forall|j: int| i <= j < n ==> pool.slots@[j] == slots[j],
                items@ == live_items(slots.take(i as int)),
            decreases n - i,
        {
            assert(slots.take(i + 1).drop_last() =~= slots.take(i as int));
            match pool.slots[i].take() {
                Some(item) => {
                    items.push(item);
                },
                None => {},
            }
            i = i + 1;
        }
        assert(slots.take(n as int) =~= slots);
        items
    }
}

} // verus!
