//! A fixed-capacity ring of slots with a movable cursor.
//!
//! The occupied slots form the cyclic window `[start, end)`; appending
//! writes the slot at `end`, moves the cursor there and, when the window
//! would become full, drops the oldest slot.  The window therefore never
//! holds more than `capacity - 1` slots.
use vstd::prelude::*;

verus! {

pub struct RingBuffer<T> {
    elements: Vec<T>,
    start: usize,
    end: usize,
    cursor: usize,
}

/// Whether `i` lies in the cyclic window `[start, end)` of a ring of `len` slots.
pub open spec fn window_contains(start: int, end: int, len: int, i: int) -> bool {
    if start <= end {
        start <= i < end
    } else {
        (start <= i < len) || (0 <= i < end)
    }
}

/// The slot after `i` in a ring of `len` slots.
pub open spec fn ring_next(i: int, len: int) -> int {
    (i + 1) % len
}

/// The slot before `i` in a ring of `len` slots.
pub open spec fn ring_previous(i: int, len: int) -> int {
    if i == 0 {
        len - 1
    } else {
        i - 1
    }
}

/// Number of slots in the cyclic window `[start, end)` of a ring of `len` slots.
pub open spec fn window_size(start: int, end: int, len: int) -> int {
    if start <= end {
        end - start
    } else {
        len - start + end
    }
}

/// `(i + 1) % len` is `i + 1`, or 0 at the last slot.
proof fn lemma_ring_next(i: int, len: int)
    requires
        0 <= i < len,
    ensures
        ring_next(i, len) == if i + 1 < len {
            i + 1
        } else {
            0
        },
{
    if i + 1 < len {
        vstd::arithmetic::div_mod::lemma_small_mod((i + 1) as nat, len as nat);
    } else {
        vstd::arithmetic::div_mod::lemma_mod_self_0(len);
    }
}

/// Law: in a ring of `len` slots, the slot before `i` is `(i + len - 1) % len`
/// and the slot after it `(i + 1) % len`; both are slots of the ring, and
/// each step undoes the other.
pub proof fn lemma_steps_undo_each_other(i: int, len: int)
    requires
        0 <= i < len,
    ensures
        ring_previous(i, len) == (i + len - 1) % len,
        ring_next(i, len) == (i + 1) % len,
        0 <= ring_previous(i, len) < len,
        0 <= ring_next(i, len) < len,
        ring_next(ring_previous(i, len), len) == i,
        ring_previous(ring_next(i, len), len) == i,
{
    lemma_ring_next(i, len);
    lemma_ring_next(ring_previous(i, len), len);
    if i == 0 {
        vstd::arithmetic::div_mod::lemma_small_mod((len - 1) as nat, len as nat);
    } else {
        vstd::arithmetic::div_mod::lemma_mod_add_multiples_vanish(i - 1, len);
        vstd::arithmetic::div_mod::lemma_small_mod((i - 1) as nat, len as nat);
    }
}

/// After an append at `end`, the appended slot is in the new window unless
/// the new window is empty (which happens only for a ring of one slot).
proof fn lemma_append_keeps_cursor_in_window(start: int, end: int, len: int)
    requires
        0 <= start < len,
        0 <= end < len,
    ensures
        ({
            let new_end = ring_next(end, len);
            let new_start = if new_end == start {
                ring_next(start, len)
            } else {
                start
            };
            &&& 0 <= new_end < len
            &&& 0 <= new_start < len
            &&& (new_start == new_end || window_contains(new_start, new_end, len, end))
        }),
{
    lemma_ring_next(end, len);
    lemma_ring_next(start, len);
}

/// Hands slot `index` of `slots` to `fill`; no other slot changes.
fn fill_slot<T, E, F>(slots: &mut Vec<T>, index: usize, fill: F) -> (r: Result<bool, E>)
    where
        F: FnOnce(&mut T) -> Result<bool, E>,
    requires
        index < old(slots)@.len(),
        forall|slot: &mut T| call_requires(fill, (slot,)),
    ensures
        final(slots)@.len() == old(slots)@.len(),
        forall|i: int|
            0 <= i < old(slots)@.len() && i != index ==> #[trigger] final(slots)@[i] == old(
                slots,
            )@[i],
        exists|slot: &mut T|
            *slot == old(slots)@[index as int] && *final(slot) == final(slots)@[index as int]
                && #[trigger] call_ensures(fill, (slot,), r),
{
    fill(&mut slots[index])
}

impl<T> RingBuffer<T> {
    /// The slots, in storage order.
    pub closed spec fn slots(&self) -> Seq<T> {
        self.elements@
    }

    /// Number of slots the ring was made with.
    pub closed spec fn capacity(&self) -> int {
        self.elements@.len() as int
    }

    /// First slot of the window.
    pub closed spec fn start(&self) -> int {
        self.start as int
    }

    /// One past the last slot of the window (cyclically).
    pub closed spec fn end(&self) -> int {
        self.end as int
    }

    /// Slot the cursor points at.
    pub closed spec fn cursor(&self) -> int {
        self.cursor as int
    }

    /// Whether slot `i` is currently occupied.
    pub open spec fn occupied(&self, i: int) -> bool {
        window_contains(self.start(), self.end(), self.capacity(), i)
    }

    /// Whether no slot is occupied.
    pub open spec fn is_empty_window(&self) -> bool {
        self.start() == self.end()
    }

    /// The ring's internal invariant: pointers are in range and the cursor
    /// sits on an occupied slot unless the window is empty.
    pub closed spec fn well_formed(&self) -> bool {
        if self.elements@.len() == 0 {
            self.start == 0 && self.end == 0 && self.cursor == 0
        } else {
            &&& self.start < self.elements@.len()
            &&& self.end < self.elements@.len()
            &&& self.cursor < self.elements@.len()
            &&& (self.start == self.end || window_contains(
                self.start as int,
                self.end as int,
                self.elements@.len() as int,
                self.cursor as int,
            ))
        }
    }

    /// What the invariant says, in terms of the public views.
    pub proof fn lemma_well_formed(&self)
        requires
            self.well_formed(),
        ensures
            self.capacity() == self.slots().len(),
            self.capacity() == 0 ==> self.start() == 0 && self.end() == 0 && self.cursor() == 0,
            self.capacity() > 0 ==> {
                &&& 0 <= self.start() < self.capacity()
                &&& 0 <= self.end() < self.capacity()
                &&& 0 <= self.cursor() < self.capacity()
                &&& (self.is_empty_window() || self.occupied(self.cursor()))
            },
    {
    }

    /// Builds a ring of `len` slots, each filled by one call of `gen`; the
    /// first error of `gen` is returned and no ring is built.  A ring of no
    /// slots never calls `gen` and is always built.
    pub fn try_new<E, F>(len: usize, gen: F) -> (r: Result<Self, E>)
        where
            F: FnMut() -> Result<T, E>,
        requires
            forall|| #[trigger] call_requires(gen, ()),
        ensures
            r matches Ok(ring) ==> {
                &&& ring.well_formed()
                &&& ring.capacity() == len
                &&& ring.start() == 0
                &&& ring.end() == 0
                &&& ring.cursor() == 0
                &&& forall|i: int|
                    0 <= i < len ==> call_ensures(gen, (), Ok::<T, E>(#[trigger] ring.slots()[i]))
            },
            r matches Err(e) ==> call_ensures(gen, (), Err::<T, E>(e)),
            len == 0 ==> r is Ok,
    {
        let mut generate = gen;
        let mut elements: Vec<T> = Vec::new();
        let mut i: usize = 0;
        while i < len
            invariant
                forall|| #[trigger] call_requires(generate, ()),
                generate == gen,
                i <= len,
                elements@.len() == i,
                forall|j: int| 0 <= j < i ==> call_ensures(gen, (), Ok::<T, E>(#[trigger] elements@[j])),
            decreases len - i,
        {
            let item = generate();
            match item {
                Ok(t) => elements.push(t),
                Err(e) => return Err(e),
            }
            i += 1;
        }
        Ok(RingBuffer { elements, start: 0, end: 0, cursor: 0 })
    }

    /// Empties the window and puts the cursor on slot 0; the slots keep their contents.
    pub fn clear(&mut self)
        requires
            old(self).well_formed(),
        ensures
            final(self).well_formed(),
            final(self).slots() == old(self).slots(),
            final(self).start() == 0,
            final(self).end() == 0,
            final(self).cursor() == 0,
    {
        self.start = 0;
        self.end = 0;
        self.cursor = 0;
    }

    /// The slot after `index`, wrapping to 0.
    pub fn next_index(&self, index: usize) -> (r: usize)
        requires
            self.capacity() > 0,
            index < usize::MAX,
        ensures
            r == ring_next(index as int, self.capacity()),
    {
        (index + 1) % self.elements.len()
    }

    /// The slot before `index`, wrapping to the last slot.
    pub fn previous_index(&self, index: usize) -> (r: usize)
        requires
            self.capacity() > 0,
        ensures
            r == ring_previous(index as int, self.capacity()),
    {
        let last = self.elements.len() - 1;
        match index.checked_sub(1) {
            Some(i) => i,
            None => last,
        }
    }

    /// Whether slot `index` is occupied.
    pub fn valid_index(&self, index: usize) -> (r: bool)
        ensures
            r == self.occupied(index as int),
    {
        if self.start <= self.end {
            self.start <= index && index < self.end
        } else {
            (self.start <= index && index < self.elements.len()) || index < self.end
        }
    }

    /// Moves the cursor to the next slot if that slot is occupied.
    pub fn forward(&mut self) -> (r: bool)
        requires
            old(self).well_formed(),
            old(self).capacity() > 0,
        ensures
            final(self).well_formed(),
            r == old(self).occupied(ring_next(old(self).cursor(), old(self).capacity())),
            final(self).slots() == old(self).slots(),
            final(self).start() == old(self).start(),
            final(self).end() == old(self).end(),
            final(self).cursor() == if r {
                ring_next(old(self).cursor(), old(self).capacity())
            } else {
                old(self).cursor()
            },
    {
        let _len = self.elements.len();
        let next = self.next_index(self.cursor);
        if self.valid_index(next) {
            self.cursor = next;
            true
        } else {
            false
        }
    }

    /// Moves the cursor to the previous slot if that slot is occupied.
    pub fn backward(&mut self) -> (r: bool)
        requires
            old(self).well_formed(),
            old(self).capacity() > 0,
        ensures
            final(self).well_formed(),
            r == old(self).occupied(ring_previous(old(self).cursor(), old(self).capacity())),
            final(self).slots() == old(self).slots(),
            final(self).start() == old(self).start(),
            final(self).end() == old(self).end(),
            final(self).cursor() == if r {
                ring_previous(old(self).cursor(), old(self).capacity())
            } else {
                old(self).cursor()
            },
    {
        let previous = self.previous_index(self.cursor);
        if self.valid_index(previous) {
            self.cursor = previous;
            true
        } else {
            false
        }
    }

    /// The slot under the cursor, if it is occupied.
    pub fn current(&self) -> (r: Option<&T>)
        requires
            self.well_formed(),
        ensures
            r == if self.occupied(self.cursor()) {
                Some(&self.slots()[self.cursor()])
            } else {
                None
            },
    {
        if self.valid_index(self.cursor) {
            Some(&self.elements[self.cursor])
        } else {
            None
        }
    }

    /// Lets `fill` write the slot at the end of the window.  When `fill`
    /// reports success the slot joins the window (dropping the oldest slot if
    /// the window would otherwise be full) and the cursor moves onto it.
    pub fn try_append_and_jump_there<E, F>(&mut self, fill: F) -> (r: Result<Option<&T>, E>)
        where
            F: FnOnce(&mut T) -> Result<bool, E>,
        requires
            old(self).well_formed(),
            old(self).capacity() > 0,
            forall|slot: &mut T| call_requires(fill, (slot,)),
        ensures
            final(self).well_formed(),
            final(self).capacity() == old(self).capacity(),
            forall|i: int|
                0 <= i < old(self).capacity() && i != old(self).end()
                    ==> #[trigger] final(self).slots()[i] == old(self).slots()[i],
            exists|slot: &mut T, outcome: Result<bool, E>|
                {
                    &&& *slot == old(self).slots()[old(self).end()]
                    &&& *final(slot) == final(self).slots()[old(self).end()]
                    &&& #[trigger] call_ensures(fill, (slot,), outcome)
                    &&& match outcome {
                        Err(e) => r == Err::<Option<&T>, E>(e),
                        Ok(false) => r == Ok::<Option<&T>, E>(None),
                        Ok(true) => r matches Ok(Some(_)),
                    }
                },
            match r {
                Ok(Some(item)) => {
                    &&& final(self).cursor() == old(self).end()
                    &&& final(self).end() == ring_next(old(self).end(), old(self).capacity())
                    &&& final(self).start() == if final(self).end() == old(self).start() {
                        ring_next(old(self).start(), old(self).capacity())
                    } else {
                        old(self).start()
                    }
                    &&& *item == final(self).slots()[final(self).cursor()]
                },
                _ => {
                    &&& final(self).cursor() == old(self).cursor()
                    &&& final(self).end() == old(self).end()
                    &&& final(self).start() == old(self).start()
                },
            },
    {
        let len = self.elements.len();
        let end = self.end;
        let filled = fill_slot(&mut self.elements, end, fill);
        match filled {
            Err(e) => Err(e),
            Ok(false) => Ok(None),
            Ok(true) => {
                self.cursor = end;
                self.end = self.next_index(end);
                if self.end == self.start {
                    self.start = self.next_index(self.start);
                }
                proof {
                    lemma_append_keeps_cursor_in_window(
                        old(self).start as int,
                        end as int,
                        len as int,
                    );
                }
                Ok(Some(&self.elements[self.cursor]))
            },
        }
    }

    /// Law: a step forward that succeeds can be undone by a step backward,
    /// which then also succeeds.
    pub proof fn lemma_forward_then_backward(&self)
        requires
            self.well_formed(),
            self.capacity() > 0,
            self.occupied(ring_next(self.cursor(), self.capacity())),
        ensures
            self.occupied(ring_previous(ring_next(self.cursor(), self.capacity()), self.capacity())),
            ring_previous(ring_next(self.cursor(), self.capacity()), self.capacity())
                == self.cursor(),
    {
        lemma_ring_next(self.cursor(), self.capacity());
    }

    /// Law: a step backward that succeeds can be undone by a step forward,
    /// which then also succeeds.
    pub proof fn lemma_backward_then_forward(&self)
        requires
            self.well_formed(),
            self.capacity() > 0,
            self.occupied(ring_previous(self.cursor(), self.capacity())),
        ensures
            self.occupied(ring_next(ring_previous(self.cursor(), self.capacity()), self.capacity())),
            ring_next(ring_previous(self.cursor(), self.capacity()), self.capacity())
                == self.cursor(),
    {
        lemma_ring_next(ring_previous(self.cursor(), self.capacity()), self.capacity());
    }

    /// Law: the window never fills the ring; the slot at `end` is always free,
    /// so at most `capacity - 1` slots are occupied.
    pub proof fn lemma_window_never_full(&self)
        requires
            self.well_formed(),
            self.capacity() > 0,
        ensures
            !self.occupied(self.end()),
            0 <= window_size(self.start(), self.end(), self.capacity()) < self.capacity(),
    {
    }

    /// Law: once a ring of at least two slots has accepted an append, the
    /// cursor is on an occupied slot, so `current` returns the appended slot.
    pub proof fn lemma_append_then_current(before: &Self, after: &Self)
        requires
            before.well_formed(),
            after.well_formed(),
            before.capacity() >= 2,
            after.capacity() == before.capacity(),
            after.cursor() == before.end(),
            after.end() == ring_next(before.end(), before.capacity()),
            after.start() == if after.end() == before.start() {
                ring_next(before.start(), before.capacity())
            } else {
                before.start()
            },
        ensures
            after.occupied(after.cursor()),
    {
        lemma_ring_next(before.end(), before.capacity());
        lemma_ring_next(before.start(), before.capacity());
    }
}

} // verus!
