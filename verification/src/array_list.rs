use crate::elem::DefaultValue;
use vstd::prelude::*;

verus! {

/// A growable, contiguous sequence with an explicit capacity.
///
/// Every allocated slot always holds a live value: the slots at or beyond the
/// logical length hold the element type's default value, so the backing
/// storage is observable in full. The abstract view (`@`) is therefore the
/// whole capacity-sized storage; `spec_len` is the logical length and
/// `self@.len()` the capacity.
pub struct ArrayList<T> {
    storage: Vec<T>,
    len: usize,
}

impl<T> View for ArrayList<T> {
    type V = Seq<T>;

    closed spec fn view(&self) -> Seq<T> {
        self.storage@
    }
}

/// Capacity after one growth step: doubling, except that zero grows to one.
pub open spec fn grown_capacity(cap: nat) -> nat {
    if cap == 0 {
        1
    } else {
        2 * cap
    }
}

/// The slots after one growth step: the old slots, padded to the grown
/// capacity with default values.
pub open spec fn grow_slots<T: DefaultValue>(slots: Seq<T>) -> Seq<T> {
    slots + Seq::new((grown_capacity(slots.len()) - slots.len()) as nat, |i: int| T::default_spec())
}

/// Abstract effect of `push` on a `(slots, length)` state.
pub open spec fn spec_push<T: DefaultValue>(slots: Seq<T>, len: nat, value: T) -> (Seq<T>, nat) {
    let grown = if len == slots.len() {
        grow_slots(slots)
    } else {
        slots
    };
    (grown.update(len as int, value), len + 1)
}

/// Abstract effect of `pop` on a `(slots, length)` state: the resulting
/// state and the removed value, if any.
pub open spec fn spec_pop<T: DefaultValue>(slots: Seq<T>, len: nat) -> (Seq<T>, nat, Option<T>) {
    if len == 0 {
        (slots, 0nat, None)
    } else {
        (slots.update(len - 1, T::default_spec()), (len - 1) as nat, Some(slots[len - 1]))
    }
}

/// Abstract effect of `pop_front` on a `(slots, length)` state: the whole
/// storage shifts down by one, so the capacity shrinks by one as well.
pub open spec fn spec_pop_front<T: DefaultValue>(slots: Seq<T>, len: nat) -> (
    Seq<T>,
    nat,
    Option<T>,
) {
    if len == 0 {
        (slots, 0nat, None)
    } else {
        (slots.subrange(1, slots.len() as int), (len - 1) as nat, Some(slots[0]))
    }
}

/// Abstract effect of `push_front` on a `(slots, length)` state: after a
/// possible growth step, the storage shifts up by one and the new value
/// lands in slot zero; the last (default) slot falls away, so the capacity
/// is unchanged apart from growth.
pub open spec fn spec_push_front<T: DefaultValue>(slots: Seq<T>, len: nat, value: T) -> (
    Seq<T>,
    nat,
) {
    let grown = if len == slots.len() {
        grow_slots(slots)
    } else {
        slots
    };
    (seq![value] + grown.drop_last(), len + 1)
}

/// State after pushing each value of `values` in order, starting from
/// `(slots, len)`.
pub open spec fn spec_push_all<T: DefaultValue>(slots: Seq<T>, len: nat, values: Seq<T>) -> (
    Seq<T>,
    nat,
)
    decreases values.len(),
{
    if values.len() == 0 {
        (slots, len)
    } else {
        let prior = spec_push_all(slots, len, values.drop_last());
        spec_push(prior.0, prior.1, values.last())
    }
}

/// Capacity of a fresh array of capacity `cap` after `n` pushes, following
/// the growth rule of `spec_push`: the array starts empty, so the `k`-th push
/// finds `k` occupied slots and grows exactly when `k` equals the capacity.
pub open spec fn capacity_after_pushes(cap: nat, n: nat) -> nat
    decreases n,
{
    if n == 0 {
        cap
    } else {
        let prev = capacity_after_pushes(cap, (n - 1) as nat);
        if n - 1 == prev {
            grown_capacity(prev)
        } else {
            prev
        }
    }
}

/// The smallest capacity reachable from `cap` by repeated doubling (with zero
/// growing to one) that is at least `need`.
pub open spec fn doubled_up_to(cap: nat, need: nat) -> nat
    decreases (if need <= cap { 0int } else { need - cap }),
{
    if need <= cap {
        cap
    } else {
        doubled_up_to(grown_capacity(cap), need)
    }
}

/// `doubled_up_to` reaches at least `need`, and never falls below `cap`.
pub proof fn lemma_doubled_up_to_ge(cap: nat, need: nat)
    ensures
        doubled_up_to(cap, need) >= need,
        doubled_up_to(cap, need) >= cap,
    decreases (if need <= cap { 0int } else { need - cap }),
{
    if need > cap {
        lemma_doubled_up_to_ge(grown_capacity(cap), need);
    }
}

/// Doubling up to `need` can stop over at any intermediate target `mid`.
pub proof fn lemma_doubled_up_to_join(cap: nat, mid: nat, need: nat)
    requires
        mid <= need,
    ensures
        doubled_up_to(cap, need) == doubled_up_to(doubled_up_to(cap, mid), need),
    decreases (if mid <= cap { 0int } else { mid - cap }),
{
    if mid > cap {
        lemma_doubled_up_to_join(grown_capacity(cap), mid, need);
    }
}

/// The capacity law: after `n` pushes into a fresh array of capacity `cap`,
/// the capacity is the smallest value reachable from `cap` by repeated
/// doubling (zero growing to one) that is at least `n`.
pub proof fn lemma_capacity_after_pushes(cap: nat, n: nat)
    ensures
        capacity_after_pushes(cap, n) == doubled_up_to(cap, n),
    decreases n,
{
    if n > 0 {
        lemma_capacity_after_pushes(cap, (n - 1) as nat);
        let prev = capacity_after_pushes(cap, (n - 1) as nat);
        lemma_doubled_up_to_ge(cap, (n - 1) as nat);
        lemma_doubled_up_to_join(cap, (n - 1) as nat, n);
        if prev == n - 1 {
            assert(grown_capacity(prev) >= n);
            assert(doubled_up_to(prev, n) == doubled_up_to(grown_capacity(prev), n));
            assert(doubled_up_to(grown_capacity(prev), n) == grown_capacity(prev));
        } else {
            assert(prev >= n);
            assert(doubled_up_to(prev, n) == prev);
        }
    }
}

/// A `push` followed immediately by a `pop` returns the pushed value and
/// restores the prior length; the capacity may differ, since growth is not
/// undone.
pub proof fn lemma_push_then_pop<T: DefaultValue>(slots: Seq<T>, len: nat, value: T)
    requires
        len <= slots.len(),
    ensures
        ({
            let pushed = spec_push(slots, len, value);
            let popped = spec_pop(pushed.0, pushed.1);
            &&& popped.2 == Some(value)
            &&& popped.1 == len
        }),
{
}

/// A `push_front` followed immediately by a `pop_front` returns the pushed
/// value and restores the prior length, but the capacity ends one below
/// whatever capacity `push_front` ran at: the growth step, if any, is kept,
/// while the front removal always gives one slot up.
pub proof fn lemma_push_front_then_pop_front<T: DefaultValue>(slots: Seq<T>, len: nat, value: T)
    requires
        len <= slots.len(),
    ensures
        ({
            let pushed = spec_push_front(slots, len, value);
            let popped = spec_pop_front(pushed.0, pushed.1);
            let cap_at_insert = if len == slots.len() {
                grown_capacity(slots.len())
            } else {
                slots.len()
            };
            &&& popped.2 == Some(value)
            &&& popped.1 == len
            &&& popped.0.len() + 1 == cap_at_insert
        }),
{
}

/// A `pop` or `pop_front` on an empty array returns no value and leaves the
/// slots and the length unchanged.
pub proof fn lemma_pop_empty<T: DefaultValue>(slots: Seq<T>)
    ensures
        spec_pop::<T>(slots, 0) == (slots, 0nat, None::<T>),
        spec_pop_front::<T>(slots, 0) == (slots, 0nat, None::<T>),
{
}

/// Pushing the values of `values` in order into a fresh array of capacity
/// `cap` leaves the first `values.len()` slots equal to `values` in order and
/// every later slot up to the capacity holding the default value; the length
/// ends at `values.len()` and the capacity at `capacity_after_pushes`.
pub proof fn lemma_push_all_fresh<T: DefaultValue>(cap: nat, values: Seq<T>)
    ensures
        ({
            let fresh = Seq::new(cap, |i: int| T::default_spec());
            let result = spec_push_all(fresh, 0, values);
            &&& result.1 == values.len()
            &&& result.0.len() == capacity_after_pushes(cap, values.len())
            &&& values.len() <= result.0.len()
            &&& forall|i: int| 0 <= i < values.len() ==> result.0[i] == values[i]
            &&& forall|i: int|
                values.len() <= i < result.0.len() ==> result.0[i] == T::default_spec()
        }),
    decreases values.len(),
{
    let fresh = Seq::new(cap, |i: int| T::default_spec());
    if values.len() > 0 {
        lemma_push_all_fresh::<T>(cap, values.drop_last());
        let n = values.len();
        let prior = spec_push_all(fresh, 0, values.drop_last());
        let result = spec_push(prior.0, prior.1, values.last());
        assert(spec_push_all(fresh, 0, values) == result);
        if prior.1 == prior.0.len() {
            assert(result.0.len() == grown_capacity(prior.0.len()));
            assert(forall|i: int|
                0 <= i < prior.0.len() ==> grow_slots(prior.0)[i] == prior.0[i]);
            assert(forall|i: int|
                prior.0.len() <= i < grow_slots(prior.0).len() ==> grow_slots(prior.0)[i]
                    == T::default_spec());
            assert(grow_slots(prior.0).len() > prior.0.len());
        }
        assert forall|i: int| 0 <= i < n - 1 implies result.0[i] == values[i] by {
            assert(prior.0[i] == values.drop_last()[i]);
            assert(values.drop_last()[i] == values[i]);
        }
        assert(result.0[n - 1] == values.last());
    }
}

impl<T: Copy + DefaultValue> ArrayList<T> {
    /// Logical number of occupied slots.
    pub closed spec fn spec_len(self) -> nat {
        self.len as nat
    }

    /// Every slot from `len` up to the capacity holds the default value.
    pub open spec fn tail_is_default(slots: Seq<T>, len: nat) -> bool {
        forall|i: int| len <= i < slots.len() ==> slots[i] == T::default_spec()
    }

    /// Well-formed: the logical length never exceeds the capacity, and every
    /// unoccupied slot holds the default value.
    pub open spec fn wf(self) -> bool {
        &&& self.spec_len() <= self@.len()
        &&& Self::tail_is_default(self@, self.spec_len())
    }

    /// A fresh array of `cap` slots, each filled with the default value and
    /// none of them occupied.
    pub fn new(cap: usize) -> (r: ArrayList<T>)
        ensures
            r.wf(),
            r.spec_len() == 0,
            r@ == Seq::new(cap as nat, |i: int| T::default_spec()),
    {
        let mut storage: Vec<T> = Vec::new();
        while storage.len() < cap
            invariant
                storage@.len() <= cap,
                forall|i: int| 0 <= i < storage@.len() ==> storage@[i] == T::default_spec(),
            decreases cap - storage@.len(),
        {
            storage.push(T::default_value());
        }
        proof {
            assert(storage@ =~= Seq::new(cap as nat, |i: int| T::default_spec()));
        }
        ArrayList { storage, len: 0 }
    }

    /// Current logical length.
    pub fn len(&self) -> (r: usize)
        ensures
            r == self.spec_len(),
    {
        self.len
    }

    /// Current capacity.
    pub fn cap(&self) -> (r: usize)
        ensures
            r == self@.len(),
    {
        self.storage.len()
    }

    /// Read-only view of the full backing storage, trailing default slots
    /// included.
    pub fn print(&self) -> (r: &[T])
        ensures
            r@ == self@,
    {
        self.storage.as_slice()
    }

    /// One growth step: reallocate to the doubled capacity (one, from zero)
    /// and fill the new slots with default values.
    fn grow(&mut self)
        requires
            old(self)@.len() <= usize::MAX / 2,
        ensures
            final(self)@ == grow_slots(old(self)@),
            final(self).spec_len() == old(self).spec_len(),
    {
        let cap = self.storage.len();
        let target: usize = if cap == 0 {
            1
        } else {
            cap * 2
        };
        let ghost old_slots = self.storage@;
        while self.storage.len() < target
            invariant
                self.len == old(self).len,
                old_slots.len() <= self.storage@.len() <= target,
                self.storage@.subrange(0, old_slots.len() as int) == old_slots,
                forall|i: int|
                    old_slots.len() <= i < self.storage@.len() ==> self.storage@[i]
                        == T::default_spec(),
            decreases target - self.storage@.len(),
        {
            self.storage.push(T::default_value());
            proof {
                assert(self.storage@.subrange(0, old_slots.len() as int) =~= old_slots);
            }
        }
        proof {
            assert(self.storage@ =~= grow_slots(old_slots));
        }
    }

    /// Append `value` at the logical end, growing first when the array is
    /// full.
    pub fn push(&mut self, value: T)
        requires
            old(self).wf(),
            old(self).spec_len() == old(self)@.len() ==> old(self)@.len() <= usize::MAX / 2,
        ensures
            final(self).wf(),
            final(self)@ == spec_push(old(self)@, old(self).spec_len(), value).0,
            final(self).spec_len() == spec_push(old(self)@, old(self).spec_len(), value).1,
    {
        if self.len == self.storage.len() {
            self.grow();
        }
        self.storage.set(self.len, value);
        self.len = self.len + 1;
    }

    /// Remove and return the logical-end element, resetting its slot to the
    /// default value; on an empty array, return nothing and change nothing.
    pub fn pop(&mut self) -> (r: Option<T>)
        requires
            old(self).wf(),
        ensures
            final(self).wf(),
            final(self)@ == spec_pop(old(self)@, old(self).spec_len()).0,
            final(self).spec_len() == spec_pop(old(self)@, old(self).spec_len()).1,
            r == spec_pop(old(self)@, old(self).spec_len()).2,
    {
        if self.len == 0 {
            return None;
        }
        let v = self.storage[self.len - 1];
        self.storage.set(self.len - 1, T::default_value());
        self.len = self.len - 1;
        Some(v)
    }

    /// Remove and return the logical-start element, shifting the whole
    /// storage down by one; the capacity shrinks by one. On an empty array,
    /// return nothing and change nothing.
    pub fn pop_front(&mut self) -> (r: Option<T>)
        requires
            old(self).wf(),
        ensures
            final(self).wf(),
            final(self)@ == spec_pop_front(old(self)@, old(self).spec_len()).0,
            final(self).spec_len() == spec_pop_front(old(self)@, old(self).spec_len()).1,
            r == spec_pop_front(old(self)@, old(self).spec_len()).2,
    {
        if self.len == 0 {
            return None;
        }
        let v = self.storage.remove(0);
        self.len = self.len - 1;
        proof {
            assert(self.storage@ =~= old(self)@.subrange(1, old(self)@.len() as int));
        }
        Some(v)
    }

    /// Insert `value` at the logical start, growing first when the array is
    /// full; the existing elements shift up by one and the last (default)
    /// slot falls away.
    pub fn push_front(&mut self, value: T)
        requires
            old(self).wf(),
            old(self).spec_len() == old(self)@.len() ==> old(self)@.len() <= usize::MAX / 2,
        ensures
            final(self).wf(),
            final(self)@ == spec_push_front(old(self)@, old(self).spec_len(), value).0,
            final(self).spec_len() == spec_push_front(old(self)@, old(self).spec_len(), value).1,
    {
        if self.len == self.storage.len() {
            self.grow();
        }
        let ghost grown = self.storage@;
        self.storage.insert(0, value);
        let _discarded = self.storage.pop();
        self.len = self.len + 1;
        proof {
            assert(self.storage@ =~= seq![value] + grown.drop_last());
        }
    }
}

} // verus!
