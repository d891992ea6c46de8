//! Host-side planning: fitting the subsequences built from the orders into
//! sequences of bounded size, and the moment at which play starts.

use crate::orders::FrequencyOrder;
use crate::sequence::{PLLChange, Sequence, SequenceView, MAX_DIVN_CHANGES, MAX_SEQUENCE_LEN};
use std::collections::BTreeMap;
use vstd::prelude::*;

verus! {

/// Starts are rounded to a multiple of this many seconds.
pub const TIME_SEED_ROUND_S: i64 = 10;

/// Seconds kept clear before a start.
pub const MARGIN_S: i64 = 1;

/// What one order contributes: a change and the fractional values it sweeps,
/// the change's start counted from the first of them.
pub struct SubSequence {
    pub change: PLLChange,
    pub fracn: Vec<u16>,
}

impl SubSequence {
    /// The values fit one sequence, and the change's start can be moved
    /// behind any number of values that a sequence holds.
    pub open spec fn fits(&self) -> bool {
        &&& self.fracn@.len() <= MAX_SEQUENCE_LEN
        &&& self.change.start_tick + MAX_SEQUENCE_LEN <= usize::MAX
    }

    /// Whether the subsequence can be planned.
    pub fn is_fit(&self) -> (b: bool)
        ensures
            b == self.fits(),
    {
        self.fracn.len() <= MAX_SEQUENCE_LEN && self.change.start_tick <= usize::MAX
            - MAX_SEQUENCE_LEN
    }
}

/// The sequence `base` is sent off, and a new one begun, before a
/// subsequence of `sub_len` values joins it: because the values or one more
/// change would not fit, or because the subsequence is the last.
pub open spec fn must_flush(base: SequenceView, sub_len: nat, is_last: bool) -> bool {
    ||| base.fracn.len() + sub_len > MAX_SEQUENCE_LEN
    ||| base.changes.len() + 1 > MAX_DIVN_CHANGES
    ||| is_last
}

/// `base` with a subsequence behind it: the change's start is moved behind
/// the values that `base` holds.
pub open spec fn appended(base: SequenceView, change: PLLChange, fracn: Seq<u16>) -> SequenceView {
    SequenceView {
        fracn: base.fracn + fracn,
        changes: base.changes.push(
            PLLChange { start_tick: (change.start_tick + base.fracn.len()) as usize, ..change },
        ),
    }
}

/// Appends a subsequence to `base`. Where it does not fit, or is the last,
/// the finished `base` is returned and the subsequence begins a new one.
pub fn build_sequence(
    subseq: &SubSequence,
    base: &mut Sequence,
    is_last: bool,
) -> (out: Option<Sequence>)
    requires
        subseq.fits(),
    ensures
        out is Some <==> must_flush(old(base)@, subseq.fracn@.len(), is_last),
        out matches Some(done) ==> done@ == old(base)@,
        final(base)@ == appended(
            if out is Some {
                SequenceView::empty()
            } else {
                old(base)@
            },
            subseq.change,
            subseq.fracn@,
        ),
{
    let mut out: Option<Sequence> = None;
    if base.fracn().len() + subseq.fracn.len() > MAX_SEQUENCE_LEN || base.changes().len() + 1
        > MAX_DIVN_CHANGES || is_last {
        out = Some(base.expensive_copy());
        base.clear();
    }
    let ghost start = base@;
    let mut change = subseq.change;
    change.start_tick = change.start_tick + base.fracn().len();
    let pushed = base.push_change(change);
    assert(pushed is Ok);
    let extended = base.push_fracn(subseq.fracn.as_slice());
    assert(extended is Ok);
    assert(base@ == appended(start, subseq.change, subseq.fracn@));
    out
}

/// An estimate, in microseconds, of the time an upload takes.
pub fn estimate_upload_time(_seq: &Sequence) -> (us: u64)
    ensures
        us == 1_000_000,
{
    1_000_000
}

/// The start that belongs to a moment, both in seconds since the epoch: the
/// moment a margin later, rounded towards zero to a multiple of the rounding
/// step, and one step on.
pub open spec fn start_epoch_of(timestamp: int) -> int {
    let late = timestamp + MARGIN_S;
    if late >= 0 {
        (late / TIME_SEED_ROUND_S as int) * TIME_SEED_ROUND_S + TIME_SEED_ROUND_S
    } else {
        -((-late) / TIME_SEED_ROUND_S as int) * TIME_SEED_ROUND_S + TIME_SEED_ROUND_S
    }
}

pub fn find_start_epoch(timestamp: i64) -> (epoch: i64)
    requires
        timestamp + MARGIN_S + TIME_SEED_ROUND_S <= i64::MAX,
    ensures
        epoch == start_epoch_of(timestamp as int),
{
    ((timestamp + MARGIN_S) / TIME_SEED_ROUND_S) * TIME_SEED_ROUND_S + TIME_SEED_ROUND_S
}

/// Microseconds in a second.
pub const US_PER_S: i64 = 1_000_000;

/// Starts beyond this many seconds from the epoch, either way, are not planned.
pub const MAX_START_S: i64 = 1_000_000_000_000;

#[derive(Clone, Copy, Debug, PartialEq, Eq, Structural)]
pub enum PlanError {
    /// An upload would not come later than the one before it: a sequence
    /// is too short to upload the next one while it plays.
    OutOfOrder,
}

/// The planner between two orders.
pub struct PlanView {
    /// The sequence being filled.
    pub work: SequenceView,
    /// When the last upload starts, in microseconds from the start of play.
    pub last_upload_off_us: int,
    /// When the next order starts to play, in microseconds from the start of play.
    pub toff_us: int,
    /// The uploads planned so far, each under its moment in seconds since the epoch.
    pub plan: Map<i64, SequenceView>,
    /// Every upload so far comes later than the one before it.
    pub ordered: bool,
}

/// The planner after one more order. A sequence that is sent off is
/// uploaded so much ahead of the order as its upload is estimated to take.
pub open spec fn plan_step(
    st: PlanView,
    t_us: u32,
    sub: SubSequence,
    is_last: bool,
    start_tstamp: int,
) -> PlanView {
    let flush = must_flush(st.work, sub.fracn@.len(), is_last);
    let net_off_us = st.toff_us - 1_000_000;
    PlanView {
        work: appended(
            if flush {
                SequenceView::empty()
            } else {
                st.work
            },
            sub.change,
            sub.fracn@,
        ),
        last_upload_off_us: if flush {
            net_off_us
        } else {
            st.last_upload_off_us
        },
        toff_us: st.toff_us + t_us,
        plan: if flush {
            st.plan.insert((start_tstamp + net_off_us / (US_PER_S as int)) as i64, st.work)
        } else {
            st.plan
        },
        ordered: st.ordered && (flush ==> net_off_us > st.last_upload_off_us),
    }
}

/// The planner after the first `n` orders, each with its subsequence.
pub open spec fn plan_after(
    orders: Seq<FrequencyOrder>,
    subseqs: Seq<SubSequence>,
    start_tstamp: int,
    n: nat,
) -> PlanView
    decreases n,
{
    if n == 0 {
        PlanView {
            work: SequenceView::empty(),
            last_upload_off_us: 0,
            toff_us: 0,
            plan: Map::<i64, SequenceView>::empty(),
            ordered: true,
        }
    } else {
        plan_step(
            plan_after(orders, subseqs, start_tstamp, (n - 1) as nat),
            orders[n - 1].t_us,
            subseqs[n - 1],
            n == orders.len(),
            start_tstamp,
        )
    }
}

/// The time that the first `n` orders take, in microseconds.
pub open spec fn total_us(orders: Seq<FrequencyOrder>, n: nat) -> int
    decreases n,
{
    if n == 0 {
        0
    } else {
        total_us(orders, (n - 1) as nat) + orders[n - 1].t_us
    }
}

/// A plan holds the sequences that its model names, under the same moments.
pub open spec fn plan_holds(plan: Map<i64, Sequence>, model: Map<i64, SequenceView>) -> bool {
    &&& plan.dom() =~= model.dom()
    &&& forall|k: i64| #[trigger] plan.contains_key(k) ==> plan[k]@ == model[k]
}

proof fn lemma_total_grows(orders: Seq<FrequencyOrder>, n: nat, m: nat)
    requires
        n <= m,
    ensures
        0 <= total_us(orders, n) <= total_us(orders, m),
    decreases m,
{
    if n < m {
        lemma_total_grows(orders, n, (m - 1) as nat);
    } else if n > 0 {
        lemma_total_grows(orders, (n - 1) as nat, (n - 1) as nat);
    }
}

proof fn lemma_plan_clock(
    orders: Seq<FrequencyOrder>,
    subseqs: Seq<SubSequence>,
    start_tstamp: int,
    n: nat,
)
    ensures
        plan_after(orders, subseqs, start_tstamp, n).toff_us == total_us(orders, n),
    decreases n,
{
    if n > 0 {
        lemma_plan_clock(orders, subseqs, start_tstamp, (n - 1) as nat);
    }
}

proof fn lemma_disorder_stays(
    orders: Seq<FrequencyOrder>,
    subseqs: Seq<SubSequence>,
    start_tstamp: int,
    n: nat,
    m: nat,
)
    requires
        n <= m,
        !plan_after(orders, subseqs, start_tstamp, n).ordered,
    ensures
        !plan_after(orders, subseqs, start_tstamp, m).ordered,
    decreases m,
{
    if n < m {
        lemma_disorder_stays(orders, subseqs, start_tstamp, n, (m - 1) as nat);
    }
}

/// `BTreeMap::insert` on a plan: the sequence stands under its moment, in
/// place of any that stood there.
fn plan_insert(plan: &mut BTreeMap<i64, Sequence>, time: i64, seq: Sequence)
    ensures
        final(plan)@ == old(plan)@.insert(time, seq),
{
    proof {
        broadcast use vstd::laws_cmp::group_laws_cmp;
    }
    plan.insert(time, seq);
}

/// Plans the uploads for a run of orders, each order with the subsequence
/// built from it: the subsequences are packed into sequences, and each
/// sequence that is sent off is planned for the second in which its upload
/// has to begin. The sequence that the last order begins is not planned.
/// Fails where an upload would have to begin no later than the one before.
pub fn build_upload_plan(
    orders: &Vec<FrequencyOrder>,
    subseqs: &Vec<SubSequence>,
    start_tstamp: i64,
) -> (r: Result<BTreeMap<i64, Sequence>, PlanError>)
    requires
        orders@.len() == subseqs@.len(),
        forall|i: int| 0 <= i < subseqs@.len() ==> (#[trigger] subseqs@[i]).fits(),
        total_us(orders@, orders@.len()) <= i64::MAX,
        -MAX_START_S <= start_tstamp <= MAX_START_S,
    ensures
        r is Ok <==> plan_after(orders@, subseqs@, start_tstamp as int, orders@.len()).ordered,
        r matches Ok(plan) ==> plan_holds(
            plan@,
            plan_after(orders@, subseqs@, start_tstamp as int, orders@.len()).plan,
        ),
{
    let mut out: BTreeMap<i64, Sequence> = BTreeMap::new();
    let mut work_seq = Sequence::default();
    let mut last_upload_off_us: i64 = 0;
    let mut toff_us: u64 = 0;
    let mut i: usize = 0;
    while i < orders.len()
        invariant
            i <= orders@.len(),
            orders@.len() == subseqs@.len(),
            forall|j: int| 0 <= j < subseqs@.len() ==> (#[trigger] subseqs@[j]).fits(),
            total_us(orders@, orders@.len()) <= i64::MAX,
            -MAX_START_S <= start_tstamp <= MAX_START_S,
            plan_after(orders@, subseqs@, start_tstamp as int, i as nat).ordered,
            plan_after(orders@, subseqs@, start_tstamp as int, i as nat).work == work_seq@,
            plan_after(orders@, subseqs@, start_tstamp as int, i as nat).last_upload_off_us
                == last_upload_off_us,
            plan_after(orders@, subseqs@, start_tstamp as int, i as nat).toff_us == toff_us,
            plan_holds(out@, plan_after(orders@, subseqs@, start_tstamp as int, i as nat).plan),
            0 <= last_upload_off_us <= toff_us,
        decreases orders@.len() - i,
    {
        proof {
            lemma_plan_clock(orders@, subseqs@, start_tstamp as int, (i + 1) as nat);
            lemma_total_grows(orders@, (i + 1) as nat, orders@.len());
        }
        let ghost before = plan_after(orders@, subseqs@, start_tstamp as int, i as nat);
        let is_last = i + 1 == orders.len();
        let maybe_done = build_sequence(&subseqs[i], &mut work_seq, is_last);
        if let Some(done_seq) = maybe_done {
            let preempt = estimate_upload_time(&done_seq);
            let net_off_us = toff_us as i64 - preempt as i64;
            if net_off_us <= last_upload_off_us {
                proof {
                    lemma_disorder_stays(
                        orders@,
                        subseqs@,
                        start_tstamp as int,
                        (i + 1) as nat,
                        orders@.len(),
                    );
                }
                return Err(PlanError::OutOfOrder);
            }
            let net_off_s = net_off_us / US_PER_S;
            let time = start_tstamp + net_off_s;
            plan_insert(&mut out, time, done_seq);
            last_upload_off_us = net_off_us;
            proof {
                assert(out@.dom() =~= before.plan.insert(time, before.work).dom());
            }
        }
        toff_us += orders[i].t_us as u64;
        i += 1;
    }
    Ok(out)
}

} // verus!
