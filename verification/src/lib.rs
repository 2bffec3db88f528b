//! A fixed-capacity first-in-first-out queue that uses no heap
//! storage.
//!
//! The queue is a ring buffer over a fixed number of slots chosen by a
//! const generic parameter and held in a plain array, so it needs no
//! dynamic allocator. Each slot either holds a live value or is
//! vacant; the occupied slots always form one contiguous circular run,
//! and every operation is proved to keep that invariant and to move
//! values in and out in first-in-first-out order.
//!
//! Capacity never changes after construction; a full queue rejects
//! inserts with [`QueueError::Overflow`], and extracting from an empty
//! queue yields `None`. The queue is not internally synchronized.

use vstd::prelude::*;

verus! {

/// Errors returned by queue operations.
#[derive(Debug, PartialEq, Eq)]
pub enum QueueError {
    /// An attempt was made to insert a value into a queue
    /// that was already full.
    Overflow,
}

/// The physical slot holding the element `i` places behind the front,
/// for a ring of `cap` slots whose front sits at slot `start`.
///
/// Requires `0 <= start < cap` and `0 <= i < cap`; the result then
/// equals `(start + i) % cap`, written with one conditional
/// subtraction so that no modular reasoning is needed.
pub open spec fn slot_index(start: int, i: int, cap: int) -> int {
    if start + i < cap {
        start + i
    } else {
        start + i - cap
    }
}

/// How many places behind the front the slot `j` sits, for a ring of
/// `cap` slots whose front is at slot `start`: the inverse of
/// [`slot_index`] for `0 <= start < cap` and `0 <= j < cap`.
pub open spec fn ring_offset(start: int, j: int, cap: int) -> int {
    if j >= start {
        j - start
    } else {
        j + cap - start
    }
}

/// A first-in-first-out queue with a fixed capacity of `C` values,
/// backed by an array on the stack.
///
/// Vacant slots hold `None`; the occupied slots are exactly the `len`
/// slots at `slot_index(start, i, C)` for `i` in `[0, len)`, front to
/// back. The abstract contents (the view) is the sequence of occupied
/// values in extraction order.
pub struct Queue<const C: usize, T> {
    slots: [Option<T>; C],
    start: usize,
    len: usize,
}

impl<const C: usize, T> View for Queue<C, T> {
    type V = Seq<T>;

    closed spec fn view(&self) -> Seq<T> {
        Seq::new(
            self.len as nat,
            |i: int| self.slots@[slot_index(self.start as int, i, C as int)].unwrap(),
        )
    }
}

/// Relies on `core::array::from_fn`: builds the backing array with
/// every slot vacant, entirely on the stack.
#[verifier::external_body]
fn vacant_slots<T, const C: usize>() -> (slots: [Option<T>; C])
    ensures
        forall|j: int| 0 <= j < C as int ==> (#[trigger] slots@[j]) is None,
{
    core::array::from_fn(|_| None)
}

/// Relies on `core::mem::replace`, which moves the old value out and
/// the new one in without running any drop code, and on indexing an
/// array in bounds, which never panics; so the call never unwinds.
/// Teardown needs this promise, which the usual array specifications
/// do not make.
#[verifier::external_body]
fn take_slot<T, const C: usize>(slots: &mut [Option<T>; C], i: usize) -> (taken: Option<T>)
    requires
        i < C,
    ensures
        final(slots)@ == old(slots)@.update(i as int, None),
        taken == old(slots)@[i as int],
    opens_invariants none
    no_unwind
{
    core::mem::replace(&mut slots[i], None)
}

impl<const C: usize, T> Queue<C, T> {
    /// The occupancy invariant: `start` points into the ring (or is
    /// zero when there are no slots), at most `C` values are held,
    /// and a slot is occupied exactly when it lies in the circular
    /// run of `len` slots that begins at `start`.
    pub closed spec fn well_formed(&self) -> bool {
        &&& self.len <= C
        &&& if C == 0 {
                self.start == 0
            } else {
                self.start < C
            }
        &&& forall|j: int|
                0 <= j < C as int ==> ((#[trigger] self.slots@[j]) is Some <==> ring_offset(
                    self.start as int,
                    j,
                    C as int,
                ) < self.len as int)
    }

    /// Every backing slot is vacant: nothing is held, and nothing is
    /// left that reclaiming the backing array would have to release.
    pub closed spec fn all_vacant(&self) -> bool {
        forall|j: int| 0 <= j < C as int ==> (#[trigger] self.slots@[j]) is None
    }

    /// A well-formed queue never holds more than its capacity, so
    /// `len()` never exceeds `capacity()` and an insert is rejected
    /// exactly when the two are equal.
    pub proof fn lemma_len_le_capacity(&self)
        requires
            self.well_formed(),
        ensures
            self@.len() <= C as int,
    {
    }

    /// Insert the given `value` at the back of the queue.
    ///
    /// On a full queue (`len` equals the capacity `C`) the call
    /// returns [`QueueError::Overflow`], the queue is left exactly as
    /// it was, and `value` is dropped: the error carries no payload,
    /// so a rejected value is not handed back to the caller.
    pub fn insert(&mut self, value: T) -> (result: Result<(), QueueError>)
        requires
            old(self).well_formed(),
        ensures
            final(self).well_formed(),
            old(self)@.len() < C as int ==> result is Ok && final(self)@ == old(self)@.push(
                value,
            ),
            old(self)@.len() == C as int ==> result == Err::<(), QueueError>(
                QueueError::Overflow,
            ) && *final(self) == *old(self),
    {
        if self.len == C {
            return Err(QueueError::Overflow);
        }
        let room = C - self.start;
        let back = if self.len < room {
            self.start + self.len
        } else {
            self.len - room
        };
        self.slots[back] = Some(value);
        self.len = self.len + 1;
        proof {
            assert forall|j: int| 0 <= j < C as int implies ((#[trigger] self.slots@[j]) is Some
                <==> ring_offset(self.start as int, j, C as int) < self.len as int) by {
                if j != back as int {
                    assert(self.slots@[j] == old(self).slots@[j]);
                }
            }
            assert(self@ =~= old(self)@.push(value));
        }
        Ok(())
    }

    /// Remove and return the value at the front of the queue, or
    /// `None` when the queue is empty (in which case the queue is
    /// left exactly as it was).
    pub fn extract(&mut self) -> (result: Option<T>)
        requires
            old(self).well_formed(),
        ensures
            final(self).well_formed(),
            old(self)@.len() == 0 ==> result is None && *final(self) == *old(self),
            old(self)@.len() > 0 ==> result == Some(old(self)@[0]) && final(self)@ == old(
                self,
            )@.drop_first(),
    {
        if self.len == 0 {
            return None;
        }
        let taken = take_slot(&mut self.slots, self.start);
        self.start = if self.start + 1 == C {
            0
        } else {
            self.start + 1
        };
        self.len = self.len - 1;
        proof {
            assert forall|j: int| 0 <= j < C as int implies ((#[trigger] self.slots@[j]) is Some
                <==> ring_offset(self.start as int, j, C as int) < self.len as int) by {
                if j != old(self).start as int {
                    assert(self.slots@[j] == old(self).slots@[j]);
                }
            }
            assert(self@ =~= old(self)@.drop_first());
        }
        taken
    }

    /// Returns the capacity of this queue (the maximum number of
    /// values that may be stored), fixed for its whole lifetime.
    pub fn capacity(&self) -> (result: usize)
        ensures
            result == C,
    {
        C
    }

    /// Returns the number of values currently stored in the queue.
    pub fn len(&self) -> (result: usize)
        ensures
            result == self@.len(),
    {
        self.len
    }

    /// Returns `true` exactly when the queue holds no values.
    pub fn is_empty(&self) -> (result: bool)
        ensures
            result == (self@.len() == 0),
    {
        self.len == 0
    }
}

impl<const C: usize, T> Default for Queue<C, T> {
    /// Produces an empty queue: every slot vacant, front at slot
    /// zero, allocating nothing.
    fn default() -> (queue: Self)
        ensures
            queue.well_formed(),
            queue@ == Seq::<T>::empty(),
    {
        let queue = Queue { slots: vacant_slots(), start: 0, len: 0 };
        proof {
            assert(queue@ =~= Seq::<T>::empty());
        }
        queue
    }
}

impl<const C: usize, T> Drop for Queue<C, T> {
    /// Teardown: take each occupied value out of its slot, front to
    /// back, dropping it before the next is taken, so that every held
    /// value is released exactly once and in first-in-first-out
    /// order; vacant slots are never touched. The contract states
    /// through [`Queue::all_vacant`] that afterwards every slot is
    /// vacant: the walk itself releases everything, and reclaiming
    /// the backing array has no per-slot action left to perform.
    fn drop(&mut self)
        ensures
            old(self).well_formed() ==> final(self)@.len() == 0 && final(self).all_vacant(),
        opens_invariants none
        no_unwind
    {
        while self.len > 0 && self.start < C
            invariant
                old(self).well_formed() ==> {
                    &&& self.len <= C
                    &&& if C == 0 {
                            self.start == 0
                        } else {
                            self.start < C
                        }
                    &&& forall|j: int|
                        0 <= j < C as int ==> ((#[trigger] self.slots@[j]) is Some
                            <==> ring_offset(self.start as int, j, C as int) < self.len as int)
                },
            decreases self.len,
        {
            let ghost before = *self;
            let taken = take_slot(&mut self.slots, self.start);
            self.start = if self.start + 1 >= C {
                0
            } else {
                self.start + 1
            };
            self.len = self.len - 1;
            proof {
                if old(self).well_formed() {
                    assert forall|j: int|
                        0 <= j < C as int implies ((#[trigger] self.slots@[j]) is Some
                        <==> ring_offset(self.start as int, j, C as int)
                            < self.len as int) by {
                        if j != before.start as int {
                            assert(self.slots@[j] == before.slots@[j]);
                        }
                    }
                }
            }
        }
        proof {
            if old(self).well_formed() {
                assert(self.len == 0);
                assert forall|j: int| 0 <= j < C as int implies (#[trigger] self.slots@[j])
                    is None by {
                    assert(!(ring_offset(self.start as int, j, C as int) < self.len as int));
                }
            }
        }
    }
}

/// The abstract contents of a queue after inserting each element of
/// `values`, in order, starting from contents `initial` — assuming
/// every insert succeeds, as [`Queue::insert`] guarantees while the
/// queue is below capacity.
pub open spec fn contents_after_inserts<T>(initial: Seq<T>, values: Seq<T>) -> Seq<T>
    decreases values.len(),
{
    if values.len() <= 0 {
        initial
    } else {
        contents_after_inserts(initial.push(values[0]), values.drop_first())
    }
}

/// The abstract contents of a queue after `count` successful
/// extracts from contents `contents`, each of which removes the front
/// element, as [`Queue::extract`] guarantees on a non-empty queue.
pub open spec fn contents_after_extracts<T>(contents: Seq<T>, count: int) -> Seq<T>
    decreases count,
{
    if count <= 0 {
        contents
    } else {
        contents_after_extracts(contents, count - 1).drop_first()
    }
}

/// Inserting `values` in order appends them to the contents.
pub proof fn lemma_contents_after_inserts<T>(initial: Seq<T>, values: Seq<T>)
    ensures
        contents_after_inserts(initial, values) == initial + values,
    decreases values.len(),
{
    if values.len() <= 0 {
        assert(initial + values =~= initial);
    } else {
        lemma_contents_after_inserts(initial.push(values[0]), values.drop_first());
        assert(initial.push(values[0]) + values.drop_first() =~= initial + values);
    }
}

/// Extracting `count` times removes exactly the first `count`
/// elements of the contents, leaving the rest in order.
pub proof fn lemma_contents_after_extracts<T>(contents: Seq<T>, count: int)
    requires
        0 <= count <= contents.len(),
    ensures
        contents_after_extracts(contents, count) == contents.skip(count),
    decreases count,
{
    if count <= 0 {
        assert(contents.skip(0) =~= contents);
    } else {
        lemma_contents_after_extracts(contents, count - 1);
        assert(contents.skip(count - 1).drop_first() =~= contents.skip(count));
    }
}

/// First-in-first-out order: inserting `values` into an empty queue
/// leaves abstract contents equal to `values`, and because each
/// extract returns the front of the contents, the extract after `k`
/// earlier extracts returns `values[k]` — the values come back out in
/// exactly the order they went in.
pub proof fn lemma_fifo_order<T>(values: Seq<T>)
    ensures
        contents_after_inserts(Seq::<T>::empty(), values) == values,
        forall|k: int|
            0 <= k < values.len() ==> #[trigger] contents_after_extracts(values, k)[0]
                == values[k],
{
    lemma_contents_after_inserts(Seq::<T>::empty(), values);
    assert(Seq::<T>::empty() + values =~= values);
    assert forall|k: int| 0 <= k < values.len() implies #[trigger] contents_after_extracts(
        values,
        k,
    )[0] == values[k] by {
        lemma_contents_after_extracts(values, k);
    }
}

/// Length accounting: `k` successful inserts into an empty queue
/// leave `k` values held, and each extract then removes exactly one.
/// (That a rejected insert and an empty extract change nothing at all
/// is part of the contracts of [`Queue::insert`] and
/// [`Queue::extract`] themselves.)
pub proof fn lemma_length_accounting<T>(values: Seq<T>, count: int)
    requires
        0 <= count <= values.len(),
    ensures
        contents_after_inserts(Seq::<T>::empty(), values).len() == values.len(),
        contents_after_extracts(values, count).len() == values.len() - count,
{
    lemma_contents_after_inserts(Seq::<T>::empty(), values);
    lemma_contents_after_extracts(values, count);
}

/// The ring index arithmetic is exactly addition modulo the
/// capacity: wrapping the front past the last slot lands back on the
/// early slots, which is what keeps the occupancy invariant and the
/// first-in-first-out order across arbitrarily many cycles.
pub proof fn lemma_slot_index_is_mod(start: int, i: int, cap: int)
    requires
        0 <= start < cap,
        0 <= i < cap,
    ensures
        slot_index(start, i, cap) == (start + i) % cap,
{
    if start + i < cap {
        vstd::arithmetic::div_mod::lemma_small_mod((start + i) as nat, cap as nat);
    } else {
        vstd::arithmetic::div_mod::lemma_mod_sub_multiples_vanish(start + i, cap);
        vstd::arithmetic::div_mod::lemma_small_mod((start + i - cap) as nat, cap as nat);
    }
}

} // verus!
