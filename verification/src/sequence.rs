//! One frequency-hopping program, the bounded buffers that hold it, and the
//! pair of slots of which one plays while the other is filled.

use vstd::prelude::*;

verus! {

/// Most fractional values a sequence can hold.
pub const MAX_SEQUENCE_LEN: usize = 12000;

/// Most divider changes a sequence can hold.
pub const MAX_DIVN_CHANGES: usize = 32;

/// One run of ticks during which the coarse dividers stay fixed while the
/// fractional value is swept over `fracn_buffer[start_tick .. start_tick + for_ticks)`.
#[derive(Clone, Copy, Debug, PartialEq, Eq, Structural)]
pub struct PLLChange {
    pub for_ticks: usize,
    pub start_tick: usize,
    pub divn: u16,
    pub vcosel: bool,
    pub divp: u8,
    /// Tick period; microseconds only when the timer prescaler is set for it.
    pub tim_us: u32,
}

impl PLLChange {
    /// The change lasts at least one tick and its run of fractional values
    /// lies inside a buffer of `fracn_len` values.
    pub open spec fn fits(self, fracn_len: nat) -> bool {
        self.for_ticks >= 1 && self.start_tick + self.for_ticks <= fracn_len
    }
}

#[verifier::external_type_specification]
#[verifier::external_body]
#[verifier::reject_recursive_types(T)]
pub struct ExHeaplessVec<T, const N: usize>(heapless::Vec<T, N>);

/// The fractional values that a buffer holds, oldest first.
pub uninterp spec fn fracn_items(v: heapless::Vec<u16, MAX_SEQUENCE_LEN>) -> Seq<u16>;

/// The divider changes that a buffer holds, oldest first.
pub uninterp spec fn change_items(v: heapless::Vec<PLLChange, MAX_DIVN_CHANGES>) -> Seq<PLLChange>;

/// `heapless::Vec::new`: a buffer that holds nothing.
#[verifier::external_body]
fn fracn_new() -> (v: heapless::Vec<u16, MAX_SEQUENCE_LEN>)
    ensures
        fracn_items(v) == Seq::<u16>::empty(),
{
    heapless::Vec::new()
}

/// `heapless::Vec::as_slice`: the values held, in order; never more than the
/// capacity.
#[verifier::external_body]
fn fracn_slice(v: &heapless::Vec<u16, MAX_SEQUENCE_LEN>) -> (s: &[u16])
    ensures
        s@ == fracn_items(*v),
        s@.len() <= MAX_SEQUENCE_LEN,
{
    v.as_slice()
}

/// `heapless::Vec::extend_from_slice`: appends all of `other`, or, where that
/// would pass the capacity, fails and leaves the buffer as it was.
#[verifier::external_body]
fn fracn_extend(v: &mut heapless::Vec<u16, MAX_SEQUENCE_LEN>, other: &[u16]) -> (r: Result<(), ()>)
    ensures
        r is Ok <==> fracn_items(*old(v)).len() + other@.len() <= MAX_SEQUENCE_LEN,
        r is Ok ==> fracn_items(*final(v)) == fracn_items(*old(v)) + other@,
        r is Err ==> fracn_items(*final(v)) == fracn_items(*old(v)),
{
    v.extend_from_slice(other)
}

/// `heapless::Vec::clear`: nothing is held afterwards.
#[verifier::external_body]
fn fracn_clear(v: &mut heapless::Vec<u16, MAX_SEQUENCE_LEN>)
    ensures
        fracn_items(*final(v)) == Seq::<u16>::empty(),
{
    v.clear()
}

/// `heapless::Vec::new`: a buffer that holds nothing.
#[verifier::external_body]
fn changes_new() -> (v: heapless::Vec<PLLChange, MAX_DIVN_CHANGES>)
    ensures
        change_items(v) == Seq::<PLLChange>::empty(),
{
    heapless::Vec::new()
}

/// `heapless::Vec::as_slice`: the changes held, in order; never more than the
/// capacity.
#[verifier::external_body]
fn changes_slice(v: &heapless::Vec<PLLChange, MAX_DIVN_CHANGES>) -> (s: &[PLLChange])
    ensures
        s@ == change_items(*v),
        s@.len() <= MAX_DIVN_CHANGES,
{
    v.as_slice()
}

/// `heapless::Vec::push`: appends `item`, or, where the buffer is full, hands
/// it back and leaves the buffer as it was.
#[verifier::external_body]
fn changes_push(
    v: &mut heapless::Vec<PLLChange, MAX_DIVN_CHANGES>,
    item: PLLChange,
) -> (r: Result<(), PLLChange>)
    ensures
        r is Ok <==> change_items(*old(v)).len() < MAX_DIVN_CHANGES,
        r is Ok ==> change_items(*final(v)) == change_items(*old(v)).push(item),
        r is Err ==> change_items(*final(v)) == change_items(*old(v)),
        r matches Err(back) ==> back == item,
{
    v.push(item)
}

/// `heapless::Vec::clear`: nothing is held afterwards.
#[verifier::external_body]
fn changes_clear(v: &mut heapless::Vec<PLLChange, MAX_DIVN_CHANGES>)
    ensures
        change_items(*final(v)) == Seq::<PLLChange>::empty(),
{
    v.clear()
}

/// What a sequence holds: the fractional values and the changes that play them.
pub struct SequenceView {
    pub fracn: Seq<u16>,
    pub changes: Seq<PLLChange>,
}

impl SequenceView {
    /// A complete program: at least one change, and every change fits the
    /// fractional values.
    pub open spec fn playable(self) -> bool {
        &&& self.changes.len() >= 1
        &&& forall|i: int|
            0 <= i < self.changes.len() ==> (#[trigger] self.changes[i]).fits(self.fracn.len())
    }

    pub open spec fn empty() -> SequenceView {
        SequenceView { fracn: Seq::<u16>::empty(), changes: Seq::<PLLChange>::empty() }
    }
}

pub struct Sequence {
    pub fracn_buffer: heapless::Vec<u16, MAX_SEQUENCE_LEN>,
    pub pllchange_buffer: heapless::Vec<PLLChange, MAX_DIVN_CHANGES>,
}

impl View for Sequence {
    type V = SequenceView;

    open spec fn view(&self) -> SequenceView {
        SequenceView {
            fracn: fracn_items(self.fracn_buffer),
            changes: change_items(self.pllchange_buffer),
        }
    }
}

impl Default for Sequence {
    fn default() -> (seq: Self)
        ensures
            seq@ == SequenceView::empty(),
    {
        Sequence { fracn_buffer: fracn_new(), pllchange_buffer: changes_new() }
    }
}

impl Sequence {
    /// The fractional values, in order.
    pub fn fracn(&self) -> (s: &[u16])
        ensures
            s@ == self@.fracn,
            s@.len() <= MAX_SEQUENCE_LEN,
    {
        fracn_slice(&self.fracn_buffer)
    }

    /// The changes, in order.
    pub fn changes(&self) -> (s: &[PLLChange])
        ensures
            s@ == self@.changes,
            s@.len() <= MAX_DIVN_CHANGES,
    {
        changes_slice(&self.pllchange_buffer)
    }

    /// Appends fractional values; fails without a change where they do not fit.
    pub fn push_fracn(&mut self, values: &[u16]) -> (r: Result<(), ()>)
        ensures
            r is Ok <==> old(self)@.fracn.len() + values@.len() <= MAX_SEQUENCE_LEN,
            r is Ok ==> final(self)@.fracn == old(self)@.fracn + values@,
            r is Err ==> final(self)@.fracn == old(self)@.fracn,
            final(self)@.changes == old(self)@.changes,
    {
        fracn_extend(&mut self.fracn_buffer, values)
    }

    /// Appends a change as it is; fails without a change where the buffer is full.
    pub fn push_change(&mut self, change: PLLChange) -> (r: Result<(), ()>)
        ensures
            r is Ok <==> old(self)@.changes.len() < MAX_DIVN_CHANGES,
            r is Ok ==> final(self)@.changes == old(self)@.changes.push(change),
            r is Err ==> final(self)@.changes == old(self)@.changes,
            final(self)@.fracn == old(self)@.fracn,
    {
        match changes_push(&mut self.pllchange_buffer, change) {
            Ok(()) => Ok(()),
            Err(_) => Err(()),
        }
    }

    /// Empties both buffers.
    pub fn clear(&mut self)
        ensures
            final(self)@ == SequenceView::empty(),
    {
        fracn_clear(&mut self.fracn_buffer);
        changes_clear(&mut self.pllchange_buffer);
    }

    /// Whether the sequence is a complete program that can be played.
    pub fn is_playable(&self) -> (b: bool)
        ensures
            b == self@.playable(),
    {
        let changes = self.changes();
        let fracn_len = self.fracn().len();
        if changes.len() == 0 {
            return false;
        }
        let mut i: usize = 0;
        while i < changes.len()
            invariant
                i <= changes@.len(),
                changes@ == self@.changes,
                fracn_len == self@.fracn.len(),
                fracn_len <= MAX_SEQUENCE_LEN,
                forall|j: int| 0 <= j < i ==> (#[trigger] changes@[j]).fits(fracn_len as nat),
            decreases changes@.len() - i,
        {
            let c = changes[i];
            if c.for_ticks < 1 || c.start_tick > fracn_len || c.for_ticks > fracn_len
                - c.start_tick {
                assert(!self@.changes[i as int].fits(self@.fracn.len()));
                return false;
            }
            i += 1;
        }
        true
    }

    /// A second sequence that holds the same values and changes.
    pub fn expensive_copy(&self) -> (out: Self)
        ensures
            out@ == self@,
    {
        let mut out = Sequence::default();
        let r = out.push_fracn(self.fracn());
        assert(r is Ok);
        let changes = self.changes();
        let mut i: usize = 0;
        while i < changes.len()
            invariant
                i <= changes@.len(),
                changes@ == self@.changes,
                changes@.len() <= MAX_DIVN_CHANGES,
                out@.fracn == self@.fracn,
                out@.changes == changes@.take(i as int),
            decreases changes@.len() - i,
        {
            let r = out.push_change(changes[i]);
            assert(r is Ok);
            assert(changes@.take(i as int).push(changes@[i as int]) =~= changes@.take(i + 1));
            i += 1;
        }
        assert(changes@.take(i as int) =~= changes@);
        assert(out@.fracn =~= self@.fracn);
        out
    }
}

/// Two slots of which exactly one is active; the other is the back slot.
pub struct DoubleBuffer<T> {
    slot0: T,
    slot1: T,
    active_index: usize,
}

impl<T> DoubleBuffer<T> {
    /// The active index names one of the two slots.
    pub closed spec fn wf(&self) -> bool {
        self.active_index < 2
    }

    /// Index of the active slot, 0 or 1.
    pub closed spec fn active_idx(&self) -> int {
        self.active_index as int
    }

    /// The slot with the given index.
    pub closed spec fn slot(&self, i: int) -> T {
        if i == 0 {
            self.slot0
        } else {
            self.slot1
        }
    }

    /// The slot being played.
    pub open spec fn active_slot(&self) -> T {
        self.slot(self.active_idx())
    }

    /// The slot being filled.
    pub open spec fn back_slot(&self) -> T {
        self.slot(1 - self.active_idx())
    }

    /// Starts with the first slot active.
    pub fn new(first: T, second: T) -> (buf: Self)
        ensures
            buf.wf(),
            buf.active_idx() == 0,
            buf.slot(0) == first,
            buf.slot(1) == second,
    {
        DoubleBuffer { slot0: first, slot1: second, active_index: 0 }
    }

    pub fn active_index(&self) -> (i: usize)
        requires
            self.wf(),
        ensures
            i == self.active_idx(),
            i < 2,
    {
        self.active_index
    }

    pub fn active(&self) -> (slot: &T)
        requires
            self.wf(),
        ensures
            *slot == self.active_slot(),
    {
        if self.active_index == 0 {
            &self.slot0
        } else {
            &self.slot1
        }
    }

    pub fn back(&self) -> (slot: &T)
        requires
            self.wf(),
        ensures
            *slot == self.back_slot(),
    {
        if self.active_index == 0 {
            &self.slot1
        } else {
            &self.slot0
        }
    }

    /// The back slot, to be written; the active slot and the index stay.
    pub fn back_mut(&mut self) -> (slot: &mut T)
        requires
            old(self).wf(),
        ensures
            *slot == old(self).back_slot(),
            final(self).wf(),
            final(self).active_idx() == old(self).active_idx(),
            final(self).active_slot() == old(self).active_slot(),
            final(self).back_slot() == *final(slot),
    {
        if self.active_index == 0 {
            &mut self.slot1
        } else {
            &mut self.slot0
        }
    }

    /// Makes the back slot the active one.
    pub fn swap(&mut self)
        requires
            old(self).wf(),
        ensures
            final(self).wf(),
            final(self).active_idx() == 1 - old(self).active_idx(),
            final(self).active_slot() == old(self).back_slot(),
            final(self).back_slot() == old(self).active_slot(),
    {
        self.active_index = 1 - self.active_index;
    }
}

} // verus!
