//! The sending end of the serial link: the commands that upload a sequence,
//! and what to do after each attempt to deliver one.

use crate::comm_messages::{UplinkMsg, FRACN_CHUNK};
use crate::sequence::{Sequence, SequenceView, MAX_DIVN_CHANGES, MAX_SEQUENCE_LEN};
use crate::sequencer::{after_command, command_fault, SequencerView};
use vstd::prelude::*;

verus! {

/// How often a frame is sent before the link is given up.
pub const RETRIES: usize = 4;

/// While less than this is left to wait, the host spins instead of sleeping.
pub const BUSY_LOOP_MARGIN_US: i64 = 50_000;

/// How many `PushFracn` commands carry `n` fractional values.
pub open spec fn chunk_count(n: nat) -> nat {
    (n + FRACN_CHUNK - 1) as nat / (FRACN_CHUNK as nat)
}

/// `msg` is the `k`-th chunk of `fracn`: it carries the values from
/// `32 * k` on, as many as are left up to 32, and zeros behind them.
pub open spec fn is_chunk(msg: UplinkMsg, fracn: Seq<u16>, k: int) -> bool {
    match msg {
        UplinkMsg::PushFracn(count, values) => {
            &&& count as int == if fracn.len() - FRACN_CHUNK * k < FRACN_CHUNK {
                fracn.len() - FRACN_CHUNK * k
            } else {
                FRACN_CHUNK as int
            }
            &&& forall|j: int|
                0 <= j < FRACN_CHUNK ==> #[trigger] values@[j] == if j < count {
                    fracn[FRACN_CHUNK * k + j]
                } else {
                    0u16
                }
        },
        _ => false,
    }
}

/// `msgs` uploads `seq`: first one `PushPLLChange` for each change, in order
/// and as it is, then the fractional values in chunks, in order.
pub open spec fn is_upload(msgs: Seq<UplinkMsg>, seq: SequenceView) -> bool {
    &&& msgs.len() == seq.changes.len() + chunk_count(seq.fracn.len())
    &&& forall|j: int|
        0 <= j < seq.changes.len() ==> #[trigger] msgs[j] == UplinkMsg::PushPLLChange(
            seq.changes[j],
        )
    &&& forall|k: int|
        0 <= k < chunk_count(seq.fracn.len()) ==> is_chunk(
            #[trigger] msgs[seq.changes.len() + k],
            seq.fracn,
            k,
        )
}

/// One chunk of at most 32 values from `from` on, padded with zeros.
fn chunk_of(fracn: &[u16], from: usize) -> (msg: UplinkMsg)
    requires
        from < fracn@.len(),
        from % FRACN_CHUNK == 0,
    ensures
        is_chunk(msg, fracn@, from as int / FRACN_CHUNK as int),
{
    let left = fracn.len() - from;
    let count: usize = if left < FRACN_CHUNK {
        left
    } else {
        FRACN_CHUNK
    };
    let mut fixedslice: [u16; 32] = [0; 32];
    let mut j: usize = 0;
    while j < count
        invariant
            j <= count <= FRACN_CHUNK,
            from + count <= fracn@.len(),
            fracn@.len() == fracn.len(),
            forall|i: int|
                0 <= i < FRACN_CHUNK ==> #[trigger] fixedslice@[i] == if i < j {
                    fracn@[from + i]
                } else {
                    0u16
                },
        decreases count - j,
    {
        fixedslice[j] = fracn[from + j];
        j += 1;
    }
    UplinkMsg::PushFracn(count as u8, fixedslice)
}

/// The commands that upload a sequence into an empty back slot. The changes
/// go first: the sequencer moves the start of each change behind the values
/// it holds already, and it holds none yet.
pub fn send_seq(seq: &Sequence) -> (msgs: Vec<UplinkMsg>)
    ensures
        is_upload(msgs@, seq@),
{
    let changes = seq.changes();
    let fracn = seq.fracn();
    let mut msgs: Vec<UplinkMsg> = Vec::new();
    let mut j: usize = 0;
    while j < changes.len()
        invariant
            j <= changes@.len(),
            msgs@.len() == j,
            forall|i: int| 0 <= i < j ==> #[trigger] msgs@[i] == UplinkMsg::PushPLLChange(changes@[i]),
        decreases changes@.len() - j,
    {
        msgs.push(UplinkMsg::PushPLLChange(changes[j]));
        j += 1;
    }
    let mut from: usize = 0;
    let ghost mut k: int = 0;
    while from < fracn.len()
        invariant
            from == FRACN_CHUNK * k,
            0 <= k <= chunk_count(fracn@.len()),
            from >= fracn@.len() ==> k == chunk_count(fracn@.len()),
            fracn@.len() <= crate::sequence::MAX_SEQUENCE_LEN,
            msgs@.len() == changes@.len() + k,
            forall|i: int|
                0 <= i < changes@.len() ==> #[trigger] msgs@[i] == UplinkMsg::PushPLLChange(
                    changes@[i],
                ),
            forall|c: int|
                0 <= c < k ==> is_chunk(#[trigger] msgs@[changes@.len() + c], fracn@, c),
        decreases fracn@.len() + FRACN_CHUNK - from,
    {
        let msg = chunk_of(fracn, from);
        msgs.push(msg);
        from += FRACN_CHUNK;
        proof {
            k = k + 1;
        }
    }
    msgs
}

/// The sequencer after a run of commands.
pub open spec fn after_commands(v: SequencerView, msgs: Seq<UplinkMsg>) -> SequencerView
    decreases msgs.len(),
{
    if msgs.len() == 0 {
        v
    } else {
        after_command(after_commands(v, msgs.drop_last()), msgs.last())
    }
}

/// None of a run of commands is rejected.
pub open spec fn all_accepted(v: SequencerView, msgs: Seq<UplinkMsg>) -> bool
    decreases msgs.len(),
{
    if msgs.len() == 0 {
        true
    } else {
        &&& all_accepted(v, msgs.drop_last())
        &&& command_fault(after_commands(v, msgs.drop_last()), msgs.last()) is None
    }
}

/// What the back slot holds after the first `n` commands of an upload of
/// `seq`: the changes come first, then the values chunk by chunk.
pub open spec fn uploaded_so_far(seq: SequenceView, n: int) -> SequenceView {
    if n <= seq.changes.len() {
        SequenceView { fracn: Seq::<u16>::empty(), changes: seq.changes.take(n) }
    } else if FRACN_CHUNK * (n - seq.changes.len()) < seq.fracn.len() {
        SequenceView {
            fracn: seq.fracn.take(FRACN_CHUNK * (n - seq.changes.len())),
            changes: seq.changes,
        }
    } else {
        seq
    }
}

proof fn lemma_upload_prefix(v: SequencerView, msgs: Seq<UplinkMsg>, seq: SequenceView, n: int)
    requires
        v.back == SequenceView::empty(),
        is_upload(msgs, seq),
        seq.fracn.len() <= MAX_SEQUENCE_LEN,
        seq.changes.len() <= MAX_DIVN_CHANGES,
        0 <= n <= msgs.len(),
    ensures
        all_accepted(v, msgs.take(n)),
        after_commands(v, msgs.take(n)) == (SequencerView {
            back: uploaded_so_far(seq, n),
            uploading: v.uploading || n > 0,
            ..v
        }),
    decreases n,
{
    let changes = seq.changes.len() as int;
    if n == 0 {
        assert(seq.changes.take(0) =~= Seq::<crate::sequence::PLLChange>::empty());
    } else {
        lemma_upload_prefix(v, msgs, seq, n - 1);
        assert(msgs.take(n).drop_last() =~= msgs.take(n - 1));
        assert(msgs.take(n).last() == msgs[n - 1]);
        let before = after_commands(v, msgs.take(n - 1));
        if n <= changes {
            assert(msgs[n - 1] == UplinkMsg::PushPLLChange(seq.changes[n - 1]));
            assert(before.relocated(seq.changes[n - 1]) == seq.changes[n - 1]);
            assert(seq.changes.take(n - 1).push(seq.changes[n - 1]) =~= seq.changes.take(n));
        } else {
            let k = n - 1 - changes;
            assert(is_chunk(msgs[changes + k], seq.fracn, k));
            assert(seq.changes.take(changes) =~= seq.changes);
            match msgs[n - 1] {
                UplinkMsg::PushFracn(count, values) => {
                    let held = uploaded_so_far(seq, n - 1).fracn;
                    assert(held =~= seq.fracn.take(FRACN_CHUNK * k));
                    assert(held + values@.take(count as int) =~= seq.fracn.take(
                        FRACN_CHUNK * k + count,
                    ));
                    assert(seq.fracn.take(seq.fracn.len() as int) =~= seq.fracn);
                },
                _ => {},
            }
        }
    }
}

/// An upload arrives: the commands that `send_seq` makes of a sequence, handed
/// one by one to a sequencer whose back slot is empty, are all accepted and
/// leave the sequence in the back slot as it was, with nothing else changed
/// but the mark that an upload is in progress.
pub proof fn lemma_upload_arrives(v: SequencerView, msgs: Seq<UplinkMsg>, seq: SequenceView)
    requires
        v.back == SequenceView::empty(),
        is_upload(msgs, seq),
        seq.fracn.len() <= MAX_SEQUENCE_LEN,
        seq.changes.len() <= MAX_DIVN_CHANGES,
    ensures
        all_accepted(v, msgs),
        after_commands(v, msgs) == (SequencerView {
            back: seq,
            uploading: v.uploading || msgs.len() > 0,
            ..v
        }),
{
    lemma_upload_prefix(v, msgs, seq, msgs.len() as int);
    assert(msgs.take(msgs.len() as int) =~= msgs);
    let n = msgs.len() as int;
    if n <= seq.changes.len() {
        assert(seq.changes.take(n) =~= seq.changes);
        assert(seq.fracn =~= Seq::<u16>::empty());
    }
}

/// What came back after a frame was sent.
#[derive(Clone, Copy, Debug, PartialEq, Eq, Structural)]
pub enum SendEvent {
    /// One byte of reply.
    Reply(u8),
    /// No reply within the timeout.
    TimedOut,
    /// The port failed.
    IoError,
}

#[derive(Clone, Copy, Debug, PartialEq, Eq, Structural)]
pub enum SendError {
    /// The port failed.
    Io,
    /// Every attempt went unanswered or was refused.
    TooManyTries,
}

/// What to do after an attempt.
#[derive(Clone, Copy, Debug, PartialEq, Eq, Structural)]
pub enum SendStep {
    /// Send the frame again.
    Retry,
    /// The frame was accepted.
    Delivered,
    /// Give up: the transport has failed.
    Failed(SendError),
}

/// What to do after an attempt, as a function of the attempts made before it
/// and of what came back.
pub open spec fn send_step_of(numtry: usize, event: SendEvent) -> SendStep {
    match event {
        SendEvent::IoError => SendStep::Failed(SendError::Io),
        SendEvent::Reply(byte) if byte != 0 => SendStep::Delivered,
        _ => if numtry + 1 < RETRIES {
            SendStep::Retry
        } else {
            SendStep::Failed(SendError::TooManyTries)
        },
    }
}

/// Decides what follows an attempt to deliver a frame. `numtry` counts the
/// attempts made before this one. A reply other than zero accepts the frame;
/// a zero reply or a timeout calls for another attempt until `RETRIES` have
/// been made.
pub fn send(numtry: usize, event: SendEvent) -> (step: SendStep)
    ensures
        step == send_step_of(numtry, event),
{
    match event {
        SendEvent::IoError => SendStep::Failed(SendError::Io),
        SendEvent::Reply(byte) => {
            if byte != 0 {
                SendStep::Delivered
            } else if numtry < RETRIES - 1 {
                SendStep::Retry
            } else {
                SendStep::Failed(SendError::TooManyTries)
            }
        },
        SendEvent::TimedOut => {
            if numtry < RETRIES - 1 {
                SendStep::Retry
            } else {
                SendStep::Failed(SendError::TooManyTries)
            }
        },
    }
}

/// How to pass the time until a moment.
#[derive(Clone, Copy, Debug, PartialEq, Eq, Structural)]
pub enum Wait {
    /// The moment has come.
    Ready,
    /// Sleep this many microseconds, then look again.
    Sleep(u64),
    /// Look again at once.
    Spin,
}

/// Decides how to wait for the moment `until_off_us` when the clock stands
/// at `offset_us`, both in microseconds from the same start: sleep while
/// more than the margin is left, spin through the margin.
pub fn sleep_until_precise(offset_us: i64, until_off_us: i64) -> (wait: Wait)
    requires
        i64::MIN <= until_off_us - offset_us <= i64::MAX,
    ensures
        wait == if until_off_us - offset_us <= 0 {
            Wait::Ready
        } else if until_off_us - offset_us > BUSY_LOOP_MARGIN_US {
            Wait::Sleep((until_off_us - offset_us - BUSY_LOOP_MARGIN_US) as u64)
        } else {
            Wait::Spin
        },
{
    let remain = until_off_us - offset_us;
    if remain <= 0 {
        Wait::Ready
    } else if remain > BUSY_LOOP_MARGIN_US {
        Wait::Sleep((remain - BUSY_LOOP_MARGIN_US) as u64)
    } else {
        Wait::Spin
    }
}

} // verus!
