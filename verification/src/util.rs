//! A fixed-capacity circular buffer with separate read and write cursors.
//!
//! The ring is modelled as the sequence of items that lie between the read
//! cursor and the write cursor, oldest first. Equal cursors mean an empty
//! ring, so a write that uses every free slot brings the cursors together and
//! the ring reads as empty afterwards; `after_write` says so.

use vstd::laws_eq::obeys_concrete_eq;
use vstd::prelude::*;

verus! {

/// Length of the shortest prefix of `s` that ends in the delimiter, or the
/// length of `s` where the delimiter does not occur (or none is asked for).
pub open spec fn stop_len<T>(s: Seq<T>, seek: Option<T>) -> nat
    decreases s.len(),
{
    if s.len() == 0 {
        0
    } else if seek == Some(s[0]) {
        1
    } else {
        1 + stop_len(s.skip(1), seek)
    }
}

/// How many items a write of `data` stores in a ring of capacity `cap` that
/// holds `pending`.
pub open spec fn write_count<T>(pending: Seq<T>, data: Seq<T>, cap: nat) -> nat {
    if data.len() <= cap - pending.len() {
        data.len()
    } else {
        (cap - pending.len()) as nat
    }
}

/// What the ring holds after that write. A write that takes the last free slot
/// makes the cursors meet, which is the empty ring.
pub open spec fn after_write<T>(pending: Seq<T>, data: Seq<T>, cap: nat) -> Seq<T> {
    let n = write_count(pending, data, cap);
    if n == cap - pending.len() {
        Seq::<T>::empty()
    } else {
        pending + data.take(n as int)
    }
}

/// How many items a read into `room` free places takes from `pending`.
pub open spec fn read_count<T>(pending: Seq<T>, room: nat, seek: Option<T>) -> nat {
    let stop = stop_len(pending, seek);
    if room <= stop {
        room
    } else {
        stop
    }
}

/// The items between the two cursors of a ring laid out in `data`.
pub open spec fn ring_between<T>(data: Seq<T>, read: int, write: int) -> Seq<T> {
    if read <= write {
        data.subrange(read, write)
    } else {
        data.subrange(read, data.len() as int) + data.subrange(0, write)
    }
}

/// `n` is where a read of `s` stops when nothing but the delimiter limits it.
pub open spec fn is_stop<T>(s: Seq<T>, seek: Option<T>, n: int) -> bool {
    &&& 0 <= n <= s.len()
    &&& forall|i: int| 0 <= i < n - 1 ==> seek != Some(#[trigger] s[i])
    &&& (n == s.len() || (n > 0 && seek == Some(s[n - 1])))
    &&& (n == 0 ==> s.len() == 0)
}

pub proof fn lemma_stop_len_bound<T>(s: Seq<T>, seek: Option<T>)
    ensures
        stop_len(s, seek) <= s.len(),
    decreases s.len(),
{
    if s.len() > 0 && seek != Some(s[0]) {
        lemma_stop_len_bound(s.skip(1), seek);
    }
}

/// The recursive definition and the first-order description agree.
pub proof fn lemma_stop_len_is<T>(s: Seq<T>, seek: Option<T>, n: int)
    requires
        is_stop(s, seek, n),
    ensures
        stop_len(s, seek) == n,
    decreases s.len(),
{
    if s.len() > 0 && seek != Some(s[0]) {
        let t = s.skip(1);
        assert forall|i: int| 0 <= i < n - 2 implies seek != Some(#[trigger] t[i]) by {
            assert(t[i] == s[i + 1]);
        }
        if n > 1 {
            assert(t[n - 2] == s[n - 1]);
        }
        lemma_stop_len_is(t, seek, n - 1);
    } else if s.len() > 0 {
        if n > 1 {
            assert(seek != Some(s[0]));
        }
    }
}

/// A prefix without the delimiter is read in full.
pub proof fn lemma_stop_len_at_least<T>(s: Seq<T>, seek: Option<T>, k: int)
    requires
        0 <= k <= s.len(),
        forall|i: int| 0 <= i < k ==> seek != Some(#[trigger] s[i]),
    ensures
        stop_len(s, seek) >= k,
    decreases s.len(),
{
    if k > 0 {
        let t = s.skip(1);
        assert(seek != Some(s[0]));
        assert forall|i: int| 0 <= i < k - 1 implies seek != Some(#[trigger] t[i]) by {
            assert(t[i] == s[i + 1]);
        }
        lemma_stop_len_at_least(t, seek, k - 1);
    }
}

/// One operation on a ring: a write of some items, or a read into so many
/// free places with or without a delimiter.
pub enum RingOp<T> {
    Write(Seq<T>),
    Read(nat, Option<T>),
}

/// What a ring of capacity `cap` holds after the operations, starting empty.
pub open spec fn ring_after<T>(ops: Seq<RingOp<T>>, cap: nat) -> Seq<T>
    decreases ops.len(),
{
    if ops.len() == 0 {
        Seq::<T>::empty()
    } else {
        let before = ring_after(ops.drop_last(), cap);
        match ops.last() {
            RingOp::Write(data) => after_write(before, data, cap),
            RingOp::Read(room, seek) => before.skip(read_count(before, room, seek) as int),
        }
    }
}

/// All items handed to the writes, in order.
pub open spec fn items_written<T>(ops: Seq<RingOp<T>>) -> Seq<T>
    decreases ops.len(),
{
    if ops.len() == 0 {
        Seq::<T>::empty()
    } else {
        match ops.last() {
            RingOp::Write(data) => items_written(ops.drop_last()) + data,
            RingOp::Read(_, _) => items_written(ops.drop_last()),
        }
    }
}

/// All items that the reads returned, in order.
pub open spec fn items_read<T>(ops: Seq<RingOp<T>>, cap: nat) -> Seq<T>
    decreases ops.len(),
{
    if ops.len() == 0 {
        Seq::<T>::empty()
    } else {
        let before = ring_after(ops.drop_last(), cap);
        match ops.last() {
            RingOp::Write(_) => items_read(ops.drop_last(), cap),
            RingOp::Read(room, seek) => items_read(ops.drop_last(), cap)
                + before.take(read_count(before, room, seek) as int),
        }
    }
}

/// Every write leaves at least one slot of the ring free.
pub open spec fn within_capacity<T>(ops: Seq<RingOp<T>>, cap: nat) -> bool
    decreases ops.len(),
{
    if ops.len() == 0 {
        true
    } else {
        &&& within_capacity(ops.drop_last(), cap)
        &&& match ops.last() {
            RingOp::Write(data) => ring_after(ops.drop_last(), cap).len() + data.len() < cap,
            RingOp::Read(_, _) => true,
        }
    }
}

/// Round trip: as long as no write fills the ring, the items read so far,
/// followed by the items still waiting, are the items written, in order,
/// wherever the cursors stand.
pub proof fn lemma_ring_round_trip<T>(ops: Seq<RingOp<T>>, cap: nat)
    requires
        within_capacity(ops, cap),
    ensures
        items_read(ops, cap) + ring_after(ops, cap) == items_written(ops),
    decreases ops.len(),
{
    if ops.len() == 0 {
        assert(items_read(ops, cap) + ring_after(ops, cap) =~= items_written(ops));
    } else {
        let head = ops.drop_last();
        lemma_ring_round_trip(head, cap);
        let before = ring_after(head, cap);
        match ops.last() {
            RingOp::Write(data) => {
                assert(data.take(data.len() as int) =~= data);
                assert(items_read(head, cap) + (before + data) =~= (items_read(head, cap)
                    + before) + data);
            },
            RingOp::Read(room, seek) => {
                lemma_stop_len_bound(before, seek);
                let n = read_count(before, room, seek) as int;
                assert((items_read(head, cap) + before.take(n)) + before.skip(n)
                    =~= items_read(head, cap) + before);
            },
        }
    }
}

/// Backpressure: a write of more items than are free stores exactly the free
/// items' worth, and a write of fewer stores them all behind what is waiting.
pub proof fn lemma_ring_backpressure<T>(pending: Seq<T>, data: Seq<T>, cap: nat)
    requires
        pending.len() <= cap,
    ensures
        data.len() > cap - pending.len() ==> write_count(pending, data, cap) == cap - pending.len()
            && write_count(pending, data, cap) < data.len(),
        data.len() < cap - pending.len() ==> write_count(pending, data, cap) == data.len()
            && after_write(pending, data, cap) == pending + data,
{
    assert(data.take(data.len() as int) =~= data);
}

#[derive(Clone, Copy)]
struct RingBufferPtrs {
    /// Where the next item is read from.
    read: usize,
    /// Where the next item is written to.
    write: usize,
}

pub struct RingBuffer<T: Default + Copy + Eq, const L: usize> {
    data: [T; L],
    read_write_ptrs: RingBufferPtrs,
}

impl<T: Default + Copy + Eq, const L: usize> View for RingBuffer<T, L> {
    type V = Seq<T>;

    /// The items waiting to be read, oldest first.
    closed spec fn view(&self) -> Seq<T> {
        ring_between(
            self.data@,
            self.read_write_ptrs.read as int,
            self.read_write_ptrs.write as int,
        )
    }
}

impl<T: Default + Copy + Eq, const L: usize> RingBuffer<T, L> {
    /// Both cursors point into the storage.
    pub closed spec fn wf(&self) -> bool {
        if L == 0 {
            self.read_write_ptrs.read == 0 && self.read_write_ptrs.write == 0
        } else {
            self.read_write_ptrs.read < L && self.read_write_ptrs.write < L
        }
    }

    /// A well-formed ring never holds as many items as it has slots, unless it has none.
    pub proof fn lemma_len_bound(&self)
        requires
            self.wf(),
        ensures
            self@.len() <= L,
            L > 0 ==> self@.len() < L,
    {
    }

    pub fn new() -> (ring: Self)
        ensures
            ring.wf(),
            ring@ == Seq::<T>::empty(),
    {
        let ring = Self {
            data: [T::default(); L],
            read_write_ptrs: RingBufferPtrs { read: 0, write: 0 },
        };
        assert(ring@ =~= Seq::<T>::empty());
        ring
    }

    /// How many items a write can store.
    pub fn free_space(&self) -> (n: usize)
        requires
            self.wf(),
        ensures
            n == L - self@.len(),
    {
        let ptrs = self.read_write_ptrs;
        if ptrs.read <= ptrs.write {
            L - (ptrs.write - ptrs.read)
        } else {
            ptrs.read - ptrs.write
        }
    }

    /// Copies storage from the read cursor up to `up_to` (not included) into
    /// `target` from `num_read` on, and stops early at the delimiter or when
    /// `target` is full. True if `up_to` was reached without meeting the
    /// delimiter.
    fn read_up_to(
        storage: &[T; L],
        target: &mut [T],
        up_to: usize,
        ptrs: &mut RingBufferPtrs,
        num_read: &mut usize,
        seek: Option<T>,
    ) -> (go_on: bool)
        requires
            old(ptrs).read <= up_to <= L,
            *old(num_read) <= old(target)@.len(),
            seek is Some ==> obeys_concrete_eq::<T>(),
        ensures
            final(ptrs).write == old(ptrs).write,
            old(ptrs).read <= final(ptrs).read <= up_to,
            *final(num_read) - *old(num_read) == final(ptrs).read - old(ptrs).read,
            *final(num_read) <= old(target)@.len(),
            final(target)@.len() == old(target)@.len(),
            forall|j: int|
                0 <= j < old(target)@.len() ==> #[trigger] final(target)@[j] == (if *old(num_read)
                    <= j < *final(num_read) {
                    storage@[old(ptrs).read + j - *old(num_read)]
                } else {
                    old(target)@[j]
                }),
            forall|i: int|
                old(ptrs).read <= i < final(ptrs).read - 1 ==> seek != Some(#[trigger] storage@[i]),
            go_on ==> final(ptrs).read == up_to && (final(ptrs).read > old(ptrs).read ==> seek
                != Some(storage@[final(ptrs).read - 1])),
            !go_on ==> (final(ptrs).read > old(ptrs).read && seek == Some(storage@[final(ptrs).read - 1]))
                || (final(ptrs).read < up_to && *final(num_read) == old(target)@.len()),
    {
        let mut hit = false;
        while ptrs.read < up_to && *num_read < target.len() && !hit
            invariant
                up_to <= L,
                seek is Some ==> obeys_concrete_eq::<T>(),
                ptrs.write == old(ptrs).write,
                old(ptrs).read <= ptrs.read <= up_to,
                *num_read - *old(num_read) == ptrs.read - old(ptrs).read,
                *num_read <= target@.len(),
                target@.len() == old(target)@.len(),
                forall|j: int|
                    0 <= j < target@.len() ==> #[trigger] target@[j] == (if *old(num_read) <= j
                        < *num_read {
                        storage@[old(ptrs).read + j - *old(num_read)]
                    } else {
                        old(target)@[j]
                    }),
                forall|i: int|
                    old(ptrs).read <= i < ptrs.read - 1 ==> seek != Some(#[trigger] storage@[i]),
                !hit && ptrs.read > old(ptrs).read ==> seek != Some(storage@[ptrs.read - 1]),
                hit ==> ptrs.read > old(ptrs).read && seek == Some(storage@[ptrs.read - 1]),
            decreases up_to - ptrs.read + (if hit { 0int } else { 1int }),
        {
            let v = storage[ptrs.read];
            target[*num_read] = v;
            ptrs.read += 1;
            *num_read += 1;
            if let Some(d) = seek {
                proof {
                    reveal(obeys_concrete_eq);
                }
                if d == v {
                    hit = true;
                }
            }
        }
        ptrs.read == up_to && !hit
    }

    /// Reads as much as is waiting into `target` from index `start` on, oldest
    /// item first. With a delimiter, the read stops behind its first
    /// occurrence, which is included. Returns the number of items read.
    pub fn read_at(&mut self, target: &mut [T], start: usize, seek: Option<T>) -> (n: usize)
        requires
            old(self).wf(),
            start <= old(target)@.len(),
            seek is Some ==> obeys_concrete_eq::<T>(),
        ensures
            final(self).wf(),
            n == read_count(old(self)@, (old(target)@.len() - start) as nat, seek),
            final(target)@ == old(target)@.take(start as int) + old(self)@.take(n as int)
                + old(target)@.skip(start + n),
            final(self)@ == old(self)@.skip(n as int),
    {
        let mut ptrs = self.read_write_ptrs;
        let mut num_read: usize = start;
        let ghost pending = self@;

        if ptrs.write == ptrs.read {
            proof {
                assert(pending =~= Seq::<T>::empty());
                assert(target@ =~= target@.take(start as int) + pending.take(0)
                    + target@.skip(start as int));
                assert(pending.skip(0) =~= pending);
            }
            return 0;
        }
        if ptrs.write < ptrs.read {
            if Self::read_up_to(&self.data, target, L, &mut ptrs, &mut num_read, seek) {
                ptrs.read = 0;
                Self::read_up_to(&self.data, target, ptrs.write, &mut ptrs, &mut num_read, seek);
            }
        } else {
            Self::read_up_to(&self.data, target, ptrs.write, &mut ptrs, &mut num_read, seek);
        }
        if ptrs.read == L {
            ptrs.read = 0;
        }
        proof {
            let n = num_read - start;
            let r0 = old(self).read_write_ptrs.read as int;
            let w = old(self).read_write_ptrs.write as int;
            let d = self.data@;
            assert forall|j: int| 0 <= j < n implies #[trigger] target@[start + j]
                == pending[j] by {}
            assert forall|i: int| 0 <= i < n - 1 implies seek != Some(#[trigger] pending[i]) by {
                if r0 > w && i >= L - r0 {
                    assert(pending[i] == d[i - (L - r0)]);
                } else {
                    assert(pending[i] == d[r0 + i]);
                }
            }
            if n > 0 && seek == Some(pending[n - 1]) {
                assert(is_stop(pending, seek, n));
                lemma_stop_len_is(pending, seek, n);
            } else if n == pending.len() {
                assert(is_stop(pending, seek, n));
                lemma_stop_len_is(pending, seek, n);
            } else {
                lemma_stop_len_at_least(pending, seek, n);
            }
            assert(target@ =~= old(target)@.take(start as int) + pending.take(n)
                + old(target)@.skip(start + n));
        }
        self.read_write_ptrs = ptrs;
        proof {
            assert(self@ =~= pending.skip(num_read - start));
        }
        num_read - start
    }

    /// Reads as much as is waiting into `target`, oldest item first. With a
    /// delimiter, the read stops behind its first occurrence, which is
    /// included. Returns the number of items read.
    pub fn read(&mut self, target: &mut [T], seek: Option<T>) -> (n: usize)
        requires
            old(self).wf(),
            seek is Some ==> obeys_concrete_eq::<T>(),
        ensures
            final(self).wf(),
            n == read_count(old(self)@, old(target)@.len(), seek),
            final(target)@ == old(self)@.take(n as int) + old(target)@.skip(n as int),
            final(self)@ == old(self)@.skip(n as int),
    {
        let n = self.read_at(target, 0, seek);
        proof {
            assert(old(target)@.take(0) + old(self)@.take(n as int) =~= old(self)@.take(n as int));
        }
        n
    }

    /// Copies `data` from `num_written` on into storage from the write cursor
    /// up to `up_to` (not included). True if `up_to` was reached.
    fn write_up_to(
        storage: &mut [T; L],
        data: &[T],
        up_to: usize,
        ptrs: &mut RingBufferPtrs,
        num_written: &mut usize,
    ) -> (reached: bool)
        requires
            old(ptrs).write <= up_to <= L,
            *old(num_written) <= data@.len(),
        ensures
            final(ptrs).read == old(ptrs).read,
            old(ptrs).write <= final(ptrs).write <= up_to,
            *final(num_written) - *old(num_written) == final(ptrs).write - old(ptrs).write,
            *final(num_written) <= data@.len(),
            reached == (final(ptrs).write == up_to),
            !reached ==> *final(num_written) == data@.len(),
            forall|i: int|
                0 <= i < L ==> #[trigger] final(storage)@[i] == (if old(ptrs).write <= i
                    < final(ptrs).write {
                    data@[*old(num_written) + i - old(ptrs).write]
                } else {
                    old(storage)@[i]
                }),
    {
        while ptrs.write < up_to && *num_written < data.len()
            invariant
                up_to <= L,
                ptrs.read == old(ptrs).read,
                old(ptrs).write <= ptrs.write <= up_to,
                *num_written - *old(num_written) == ptrs.write - old(ptrs).write,
                *num_written <= data@.len(),
                forall|i: int|
                    0 <= i < L ==> #[trigger] storage@[i] == (if old(ptrs).write <= i < ptrs.write {
                        data@[*old(num_written) + i - old(ptrs).write]
                    } else {
                        old(storage)@[i]
                    }),
            decreases up_to - ptrs.write,
        {
            storage[ptrs.write] = data[*num_written];
            *num_written += 1;
            ptrs.write += 1;
        }
        ptrs.write == up_to
    }

    /// Writes as much of `data` as fits before the read cursor and returns the
    /// number of items written; a count short of `data.len()` means the ring
    /// was full.
    pub fn write(&mut self, data: &[T]) -> (n: usize)
        requires
            old(self).wf(),
        ensures
            final(self).wf(),
            n == write_count(old(self)@, data@, L as nat),
            final(self)@ == after_write(old(self)@, data@, L as nat),
    {
        let mut ptrs = self.read_write_ptrs;
        let mut num_written: usize = 0;
        let ghost pending = self@;

        if ptrs.write < ptrs.read {
            Self::write_up_to(&mut self.data, data, ptrs.read, &mut ptrs, &mut num_written);
        } else {
            if Self::write_up_to(&mut self.data, data, L, &mut ptrs, &mut num_written) {
                ptrs.write = 0;
                Self::write_up_to(&mut self.data, data, ptrs.read, &mut ptrs, &mut num_written);
            }
        }
        self.read_write_ptrs = ptrs;
        proof {
            assert(self@ =~= after_write(pending, data@, L as nat));
        }
        num_written
    }
}

} // verus!
