//! The playback state machine.
//!
//! The sequencer owns two sequence slots. Upload commands fill the back slot;
//! the tick handler plays the active one, change by change and value by
//! value, and goes over to the back slot only at the end of a loop. The
//! sequencer never touches the synthesizer or the timer itself: each
//! operation returns what the hardware is to do next.

use crate::comm_messages::UplinkMsg;
use crate::sequence::{
    DoubleBuffer, PLLChange, Sequence, SequenceView, MAX_DIVN_CHANGES, MAX_SEQUENCE_LEN,
};
use vstd::prelude::*;
use vstd::slice::slice_subrange;

verus! {

/// A retune: the output is switched off, the dividers of `change` and the
/// fractional value `fracn` are programmed, the lock is awaited, the output
/// is switched on again, and the tick timer is reloaded from `change.tim_us`
/// and started.
#[derive(Clone, Copy, Debug, PartialEq, Eq, Structural)]
pub struct Step {
    pub change: PLLChange,
    pub fracn: u16,
}

/// What the hardware is to do on a tick.
#[derive(Clone, Copy, Debug, PartialEq, Eq, Structural)]
pub enum TickAction {
    /// Nothing: the sequencer is not running.
    Ignore,
    /// Write the next fractional value.
    Fracn(u16),
    /// Go over to the next change.
    Retune(Step),
}

/// What the hardware is to do on a launch.
#[derive(Clone, Copy, Debug, PartialEq, Eq, Structural)]
pub struct Launch {
    /// The sequencer was running: the timer is halted before the retune.
    pub halt_first: bool,
    pub step: Step,
}

/// Why a command was not carried out. Each of these is fatal to the
/// transmitter: it halts rather than play a damaged sequence.
#[derive(Clone, Copy, Debug, PartialEq, Eq, Structural)]
pub enum Fault {
    /// More fractional values or changes than a slot holds, or a count
    /// beyond the values that a command carries.
    Capacity,
    /// Buffers cleared while running.
    ClearWhileRunning,
    /// The end of a loop was reached while an upload was in progress, or
    /// the slot to play next holds no complete program.
    NothingToPlay,
}

/// What became of a command.
#[derive(Clone, Copy, Debug, PartialEq, Eq, Structural)]
pub enum CommandOutcome {
    /// Carried out; nothing for the hardware to do.
    Done,
    /// Launched: the hardware performs the retune.
    Launched(Launch),
    /// Stopped; where the flag is set the timer runs its period out once
    /// more and is then disabled.
    Stopped(bool),
    /// Not carried out; the sequencer is as it was.
    Rejected(Fault),
}

/// The state of the sequencer as contracts see it.
pub struct SequencerView {
    /// The slot being played.
    pub active: SequenceView,
    /// The slot being filled.
    pub back: SequenceView,
    pub active_index: int,
    /// Index of the change being played, -1 before the first.
    pub pllchangei: int,
    /// Ticks left in the change being played.
    pub fracn_rem: int,
    /// Index of the fractional value applied last.
    pub fracn_i: int,
    pub is_running: bool,
    pub uploading: bool,
}

impl SequencerView {
    /// The change being played is the last of the active slot, or none has
    /// been played yet and the slot is empty.
    pub open spec fn at_loop_end(self) -> bool {
        self.pllchangei + 1 >= self.active.changes.len()
    }

    /// A step can be taken: at the end of a loop no upload is in progress and
    /// the back slot holds a complete program; elsewhere the active slot does.
    pub open spec fn can_step(self) -> bool {
        if self.at_loop_end() {
            !self.uploading && self.back.playable()
        } else {
            self.active.playable()
        }
    }

    /// The slot that is played after a step.
    pub open spec fn next_slot(self) -> SequenceView {
        if self.at_loop_end() {
            self.back
        } else {
            self.active
        }
    }

    /// The index of the change that is played after a step.
    pub open spec fn next_index(self) -> int {
        if self.at_loop_end() {
            0
        } else {
            self.pllchangei + 1
        }
    }

    /// The retune that a step asks for.
    pub open spec fn step_output(self) -> Step {
        let change = self.next_slot().changes[self.next_index()];
        Step { change, fracn: self.next_slot().fracn[change.start_tick as int] }
    }

    /// The state after a step. The slots change places at the end of a loop
    /// and nowhere else.
    pub open spec fn after_step(self) -> SequencerView {
        let change = self.next_slot().changes[self.next_index()];
        SequencerView {
            active: self.next_slot(),
            back: if self.at_loop_end() {
                self.active
            } else {
                self.back
            },
            active_index: if self.at_loop_end() {
                1 - self.active_index
            } else {
                self.active_index
            },
            pllchangei: self.next_index(),
            fracn_rem: change.for_ticks - 1,
            fracn_i: change.start_tick as int,
            is_running: self.is_running,
            uploading: self.uploading,
        }
    }

    /// A tick can be handled without a fault.
    pub open spec fn can_tick(self) -> bool {
        self.is_running && self.fracn_rem == 0 ==> self.can_step()
    }

    /// The state after a tick.
    pub open spec fn after_tick(self) -> SequencerView {
        if !self.is_running {
            self
        } else if self.fracn_rem == 0 {
            self.after_step()
        } else {
            SequencerView { fracn_i: self.fracn_i + 1, fracn_rem: self.fracn_rem - 1, ..self }
        }
    }

    /// What the hardware is to do on that tick.
    pub open spec fn tick_action(self) -> TickAction {
        if !self.is_running {
            TickAction::Ignore
        } else if self.fracn_rem == 0 {
            TickAction::Retune(self.step_output())
        } else {
            TickAction::Fracn(self.active.fracn[self.fracn_i + 1])
        }
    }

    /// The state from which a launch takes its first step.
    pub open spec fn primed(self) -> SequencerView {
        SequencerView { pllchangei: -1, is_running: true, ..self }
    }

    /// The state after fractional values were pushed.
    pub open spec fn after_push_fracn(self, values: Seq<u16>) -> SequencerView {
        SequencerView {
            back: SequenceView { fracn: self.back.fracn + values, ..self.back },
            uploading: true,
            ..self
        }
    }

    /// The change as it is stored: its start moved behind the fractional
    /// values that the back slot holds already.
    pub open spec fn relocated(self, change: PLLChange) -> PLLChange {
        PLLChange { start_tick: (change.start_tick + self.back.fracn.len()) as usize, ..change }
    }

    /// The state after a change was pushed.
    pub open spec fn after_push_pllchange(self, change: PLLChange) -> SequencerView {
        SequencerView {
            back: SequenceView {
                changes: self.back.changes.push(self.relocated(change)),
                ..self.back
            },
            uploading: true,
            ..self
        }
    }

    /// The change being played lies in the active slot, which holds a
    /// complete program, and the cursor into the fractional values lies in
    /// the run of that change.
    pub open spec fn playing(self) -> bool {
        &&& 0 <= self.pllchangei < self.active.changes.len()
        &&& self.active.playable()
        &&& self.active.changes[self.pllchangei].start_tick <= self.fracn_i
        &&& 0 <= self.fracn_rem
        &&& self.fracn_i + self.fracn_rem + 1 == self.active.changes[self.pllchangei].start_tick
            + self.active.changes[self.pllchangei].for_ticks
    }

    /// What holds of the state between any two operations.
    pub open spec fn inv(self) -> bool {
        &&& self.active_index == 0 || self.active_index == 1
        &&& -1 <= self.pllchangei < MAX_DIVN_CHANGES
        &&& self.active.changes.len() <= MAX_DIVN_CHANGES
        &&& self.back.changes.len() <= MAX_DIVN_CHANGES
        &&& self.active.fracn.len() <= MAX_SEQUENCE_LEN
        &&& self.back.fracn.len() <= MAX_SEQUENCE_LEN
        &&& self.is_running ==> self.playing()
    }

    /// Room for `n` more fractional values in the back slot.
    pub open spec fn fracn_fit(self, n: nat) -> bool {
        self.back.fracn.len() + n <= MAX_SEQUENCE_LEN
    }

    /// Room for one more change in the back slot.
    pub open spec fn change_fits(self) -> bool {
        self.back.changes.len() < MAX_DIVN_CHANGES
    }
}

pub struct SequencerState {
    seqs: DoubleBuffer<Sequence>,
    pllchangei: isize,
    fracn_rem: usize,
    fracn_i: usize,
    is_running: bool,
    uploading: bool,
}

impl View for SequencerState {
    type V = SequencerView;

    closed spec fn view(&self) -> SequencerView {
        SequencerView {
            active: self.seqs.active_slot()@,
            back: self.seqs.back_slot()@,
            active_index: self.seqs.active_idx(),
            pllchangei: self.pllchangei as int,
            fracn_rem: self.fracn_rem as int,
            fracn_i: self.fracn_i as int,
            is_running: self.is_running,
            uploading: self.uploading,
        }
    }
}

impl SequencerState {
    /// The slots are in order and the state's invariant holds.
    pub closed spec fn wf(&self) -> bool {
        self.seqs.wf() && self@.inv()
    }

    pub proof fn lemma_inv(&self)
        requires
            self.wf(),
        ensures
            self@.inv(),
    {
    }

    /// An idle sequencer with two empty slots, the first of them active.
    pub fn new() -> (state: Self)
        ensures
            state.wf(),
            state@ == (SequencerView {
                active: SequenceView::empty(),
                back: SequenceView::empty(),
                active_index: 0,
                pllchangei: -1,
                fracn_rem: 0,
                fracn_i: 0,
                is_running: false,
                uploading: false,
            }),
    {
        SequencerState {
            seqs: DoubleBuffer::new(Sequence::default(), Sequence::default()),
            pllchangei: -1,
            fracn_rem: 0,
            fracn_i: 0,
            is_running: false,
            uploading: false,
        }
    }

    pub fn is_running(&self) -> (b: bool)
        ensures
            b == self@.is_running,
    {
        self.is_running
    }

    pub fn uploading(&self) -> (b: bool)
        ensures
            b == self@.uploading,
    {
        self.uploading
    }

    pub fn pllchangei(&self) -> (i: isize)
        ensures
            i == self@.pllchangei,
    {
        self.pllchangei
    }

    pub fn fracn_rem(&self) -> (n: usize)
        ensures
            n == self@.fracn_rem,
    {
        self.fracn_rem
    }

    pub fn fracn_i(&self) -> (i: usize)
        ensures
            i == self@.fracn_i,
    {
        self.fracn_i
    }

    pub fn active_index(&self) -> (i: usize)
        requires
            self.wf(),
        ensures
            i == self@.active_index,
    {
        self.seqs.active_index()
    }

    /// The slot being played.
    pub fn active(&self) -> (seq: &Sequence)
        requires
            self.wf(),
        ensures
            seq@ == self@.active,
    {
        self.seqs.active()
    }

    /// The slot being filled.
    pub fn back(&self) -> (seq: &Sequence)
        requires
            self.wf(),
        ensures
            seq@ == self@.back,
    {
        self.seqs.back()
    }

    /// Marks an upload as in progress and appends the values to the back slot.
    pub fn push_fracn(&mut self, values: &[u16])
        requires
            old(self).wf(),
            old(self)@.fracn_fit(values@.len()),
        ensures
            final(self).wf(),
            final(self)@ == old(self)@.after_push_fracn(values@),
    {
        self.uploading = true;
        let back = self.seqs.back_mut();
        let r = back.push_fracn(values);
        assert(r is Ok);
        assert(back@ == (SequenceView {
            fracn: old(self)@.back.fracn + values@,
            ..old(self)@.back
        }));
    }

    /// Marks an upload as in progress and appends the change to the back
    /// slot, its start moved behind the values that the slot holds already.
    pub fn push_pllchange(&mut self, change: PLLChange)
        requires
            old(self).wf(),
            old(self)@.change_fits(),
            change.start_tick + old(self)@.back.fracn.len() <= usize::MAX,
        ensures
            final(self).wf(),
            final(self)@ == old(self)@.after_push_pllchange(change),
    {
        self.uploading = true;
        let back = self.seqs.back_mut();
        let base = back.fracn().len();
        let moved = PLLChange { start_tick: change.start_tick + base, ..change };
        let r = back.push_change(moved);
        assert(r is Ok);
        assert(back@ == (SequenceView {
            changes: old(self)@.back.changes.push(old(self)@.relocated(change)),
            ..old(self)@.back
        }));
    }

    /// Ends the upload: from now on the slots may change places at the end
    /// of a loop.
    pub fn notify_upload_done(&mut self)
        requires
            old(self).wf(),
        ensures
            final(self).wf(),
            final(self)@ == (SequencerView { uploading: false, ..old(self)@ }),
    {
        self.uploading = false;
    }

    /// Empties the back slot. Only for an idle sequencer.
    pub fn clear_buffers(&mut self)
        requires
            old(self).wf(),
            !old(self)@.is_running,
        ensures
            final(self).wf(),
            final(self)@ == (SequencerView { back: SequenceView::empty(), ..old(self)@ }),
    {
        let back = self.seqs.back_mut();
        back.clear();
    }

    /// Whether a step can be taken from here.
    fn step_allowed(&self, from: isize) -> (b: bool)
        requires
            self.seqs.wf(),
            -1 <= from < MAX_DIVN_CHANGES,
        ensures
            b == (SequencerView { pllchangei: from as int, ..self@ }).can_step(),
    {
        let next = (from + 1) as usize;
        if next >= self.seqs.active().changes().len() {
            !self.uploading && self.seqs.back().is_playable()
        } else {
            self.seqs.active().is_playable()
        }
    }

    /// Whether `on_tick` can be called: it cannot where the tick would end a
    /// loop while an upload is in progress, or would go over to a slot that
    /// holds no complete program.
    pub fn tick_allowed(&self) -> (b: bool)
        requires
            self.wf(),
        ensures
            b == self@.can_tick(),
    {
        if self.is_running && self.fracn_rem == 0 {
            self.step_allowed(self.pllchangei)
        } else {
            true
        }
    }

    /// Whether `launch` can be called.
    pub fn launch_allowed(&self) -> (b: bool)
        requires
            self.wf(),
        ensures
            b == self@.primed().can_step(),
    {
        self.step_allowed(-1)
    }

    /// Goes over to the next change, from the last one to the first of the
    /// back slot, which then becomes the active one.
    fn step(&mut self) -> (out: Step)
        requires
            old(self).seqs.wf(),
            -1 <= old(self)@.pllchangei < MAX_DIVN_CHANGES,
            old(self)@.can_step(),
        ensures
            final(self).seqs.wf(),
            final(self)@ == old(self)@.after_step(),
            out == old(self)@.step_output(),
            (SequencerView { is_running: true, ..final(self)@ }).playing(),
            final(self)@.active.changes.len() <= MAX_DIVN_CHANGES,
            final(self)@.active.fracn.len() <= MAX_SEQUENCE_LEN,
    {
        let mut next = (self.pllchangei + 1) as usize;
        if next >= self.seqs.active().changes().len() {
            next = 0;
            self.seqs.swap();
        }
        let seq = self.seqs.active();
        let changes = seq.changes();
        let fracn = seq.fracn();
        let change = changes[next];
        assert(seq@.changes[next as int].fits(seq@.fracn.len()));
        let value = fracn[change.start_tick];
        self.pllchangei = next as isize;
        self.fracn_i = change.start_tick;
        self.fracn_rem = change.for_ticks - 1;
        Step { change, fracn: value }
    }

    /// Starts playing: whatever was playing is given up, and the first
    /// change is programmed before the timer is armed.
    pub fn launch(&mut self) -> (out: Launch)
        requires
            old(self).wf(),
            old(self)@.primed().can_step(),
        ensures
            final(self).wf(),
            final(self)@ == old(self)@.primed().after_step(),
            out == (Launch {
                halt_first: old(self)@.is_running,
                step: old(self)@.primed().step_output(),
            }),
    {
        let halt_first = self.is_running;
        self.is_running = false;
        self.pllchangei = -1;
        self.is_running = true;
        let step = self.step();
        Launch { halt_first, step }
    }

    /// Stops playing. True where the sequencer was running: the timer then
    /// runs its period out once more and is disabled. On an idle sequencer
    /// nothing changes and nothing is to be done.
    pub fn stop(&mut self) -> (wind_down: bool)
        requires
            old(self).wf(),
        ensures
            final(self).wf(),
            final(self)@ == (SequencerView { is_running: false, ..old(self)@ }),
            wind_down == old(self)@.is_running,
            !old(self)@.is_running ==> final(self)@ == old(self)@,
    {
        let wind_down = self.is_running;
        self.is_running = false;
        wind_down
    }

    /// Handles one tick of the timer: nothing where the sequencer is idle,
    /// a step where the change being played is used up, else the next
    /// fractional value.
    pub fn on_tick(&mut self) -> (action: TickAction)
        requires
            old(self).wf(),
            old(self)@.can_tick(),
        ensures
            final(self).wf(),
            final(self)@ == old(self)@.after_tick(),
            action == old(self)@.tick_action(),
    {
        if !self.is_running {
            return TickAction::Ignore;
        }
        if self.fracn_rem == 0 {
            let step = self.step();
            TickAction::Retune(step)
        } else {
            let seq = self.seqs.active();
            let fracn = seq.fracn();
            assert(seq@.changes[self.pllchangei as int].fits(seq@.fracn.len()));
            self.fracn_i += 1;
            let value = fracn[self.fracn_i];
            self.fracn_rem -= 1;
            TickAction::Fracn(value)
        }
    }

    /// Carries out one command from the link. A command that would be fatal
    /// is rejected with the reason and leaves the sequencer as it was.
    pub fn handle_comm_msg(&mut self, msg: UplinkMsg) -> (outcome: CommandOutcome)
        requires
            old(self).wf(),
        ensures
            final(self).wf(),
            outcome == command_outcome(old(self)@, msg),
            final(self)@ == after_command(old(self)@, msg),
    {
        match msg {
            UplinkMsg::Ping() => CommandOutcome::Done,
            UplinkMsg::PushPLLChange(change) => {
                let back = self.seqs.back();
                let base = back.fracn().len();
                if back.changes().len() < MAX_DIVN_CHANGES && change.start_tick <= usize::MAX
                    - base {
                    self.push_pllchange(change);
                    CommandOutcome::Done
                } else {
                    CommandOutcome::Rejected(Fault::Capacity)
                }
            },
            UplinkMsg::PushFracn(count, values) => {
                let n = count as usize;
                if n <= 32 && n <= MAX_SEQUENCE_LEN - self.seqs.back().fracn().len() {
                    self.push_fracn(slice_subrange(values.as_slice(), 0, n));
                    CommandOutcome::Done
                } else {
                    CommandOutcome::Rejected(Fault::Capacity)
                }
            },
            UplinkMsg::ClearBuffer() => {
                if self.is_running {
                    CommandOutcome::Rejected(Fault::ClearWhileRunning)
                } else {
                    self.clear_buffers();
                    CommandOutcome::Done
                }
            },
            UplinkMsg::UploadDone() => {
                self.notify_upload_done();
                CommandOutcome::Done
            },
            UplinkMsg::StartNow() => {
                if self.launch_allowed() {
                    CommandOutcome::Launched(self.launch())
                } else {
                    CommandOutcome::Rejected(Fault::NothingToPlay)
                }
            },
            UplinkMsg::StopNow() => CommandOutcome::Stopped(self.stop()),
        }
    }
}

/// The slots change places only on a tick that ends a loop, and never while
/// an upload is in progress.
pub proof fn lemma_swap_only_at_loop_end(v: SequencerView)
    requires
        v.inv(),
        v.can_tick(),
        v.after_tick().active_index != v.active_index,
    ensures
        v.is_running,
        v.fracn_rem == 0,
        v.at_loop_end(),
        !v.uploading,
        v.after_tick().active == v.back,
        v.after_tick().back == v.active,
        v.after_tick().pllchangei == 0,
{
}

/// At the end of a loop a tick cannot be handled while an upload is in
/// progress. Once the upload is declared done it can, where the back slot
/// holds a complete program: the slots change places and play goes on with
/// the first change of the new active slot.
pub proof fn lemma_swap_after_upload_done(v: SequencerView)
    requires
        v.inv(),
        v.is_running,
        v.fracn_rem == 0,
        v.at_loop_end(),
        v.uploading,
        v.back.playable(),
    ensures
        !v.can_tick(),
        (SequencerView { uploading: false, ..v }).can_tick(),
        (SequencerView { uploading: false, ..v }).after_tick().active_index == 1 - v.active_index,
        (SequencerView { uploading: false, ..v }).after_tick().active == v.back,
        (SequencerView { uploading: false, ..v }).after_tick().pllchangei == 0,
        (SequencerView { uploading: false, ..v }).after_tick().inv(),
{
}

/// Within a change the fractional values are applied one after the other:
/// a tick that does not step moves the cursor on by one and leaves the
/// change, the slots and their contents alone.
pub proof fn lemma_values_in_order(v: SequencerView)
    requires
        v.inv(),
        v.is_running,
        v.fracn_rem > 0,
    ensures
        v.can_tick(),
        v.after_tick().fracn_i == v.fracn_i + 1,
        v.after_tick().pllchangei == v.pllchangei,
        v.after_tick().active == v.active,
        v.after_tick().back == v.back,
        v.after_tick().active_index == v.active_index,
        v.fracn_i + 1 < v.active.fracn.len(),
        v.tick_action() == TickAction::Fracn(v.active.fracn[v.fracn_i + 1]),
        v.after_tick().inv(),
{
}

/// The changes of a slot are played one after the other: a step inside a
/// loop goes on to the next change of the same slot.
pub proof fn lemma_changes_in_order(v: SequencerView)
    requires
        v.inv(),
        v.is_running,
        v.fracn_rem == 0,
        !v.at_loop_end(),
    ensures
        v.can_tick(),
        v.after_tick().pllchangei == v.pllchangei + 1,
        v.after_tick().active == v.active,
        v.after_tick().active_index == v.active_index,
        v.after_tick().fracn_i == v.active.changes[v.pllchangei + 1].start_tick,
        v.after_tick().inv(),
{
}

/// The state after `n` ticks.
pub open spec fn after_ticks(v: SequencerView, n: nat) -> SequencerView
    decreases n,
{
    if n == 0 {
        v
    } else {
        after_ticks(v.after_tick(), (n - 1) as nat)
    }
}

/// Each of the next `n` ticks can be handled.
pub open spec fn ticks_allowed(v: SequencerView, n: nat) -> bool
    decreases n,
{
    n == 0 || (v.can_tick() && ticks_allowed(v.after_tick(), (n - 1) as nat))
}

/// The ticks that the changes from index `from` on last.
pub open spec fn ticks_from(changes: Seq<PLLChange>, from: int) -> int
    decreases changes.len() - from,
{
    if from < 0 || from >= changes.len() {
        0
    } else {
        changes[from].for_ticks + ticks_from(changes, from + 1)
    }
}

/// The ticks up to and with the one that ends the loop being played.
pub open spec fn ticks_to_wrap(v: SequencerView) -> int {
    v.fracn_rem + ticks_from(v.active.changes, v.pllchangei + 1) + 1
}

proof fn lemma_ticks_from_positive(changes: Seq<PLLChange>, from: int)
    ensures
        ticks_from(changes, from) >= 0,
    decreases changes.len() - from,
{
    if 0 <= from < changes.len() {
        lemma_ticks_from_positive(changes, from + 1);
    }
}

/// Loop wraparound: a running sequencer with no upload in progress and a
/// complete program in the back slot plays the rest of its loop, one tick
/// for every tick that its changes ask for, and with the tick behind the last
/// one goes over to the first change of the back slot, which becomes the
/// active one. No tick on the way faults.
pub proof fn lemma_loop_wraparound(v: SequencerView)
    requires
        v.inv(),
        v.is_running,
        !v.uploading,
        v.back.playable(),
    ensures
        ticks_to_wrap(v) >= 1,
        ticks_allowed(v, ticks_to_wrap(v) as nat),
        after_ticks(v, ticks_to_wrap(v) as nat) == (SequencerView {
            active: v.back,
            back: v.active,
            active_index: 1 - v.active_index,
            pllchangei: 0,
            fracn_rem: v.back.changes[0].for_ticks - 1,
            fracn_i: v.back.changes[0].start_tick as int,
            ..v
        }),
    decreases ticks_to_wrap(v),
{
    lemma_ticks_from_positive(v.active.changes, v.pllchangei + 1);
    let n = ticks_to_wrap(v);
    let next = v.after_tick();
    if v.fracn_rem == 0 && v.at_loop_end() {
        assert(ticks_from(v.active.changes, v.pllchangei + 1) == 0);
        assert(after_ticks(next, 0) == next);
        assert(ticks_allowed(next, 0));
    } else {
        if v.fracn_rem == 0 {
            assert(v.active.changes[v.pllchangei + 1].fits(v.active.fracn.len()));
        }
        assert(ticks_to_wrap(next) == n - 1);
        lemma_loop_wraparound(next);
    }
}

/// Stopping an idle sequencer changes nothing and asks nothing of the
/// hardware.
pub proof fn lemma_stop_idempotent(v: SequencerView)
    requires
        !v.is_running,
    ensures
        after_command(v, UplinkMsg::StopNow()) == v,
        command_outcome(v, UplinkMsg::StopNow()) == CommandOutcome::Stopped(false),
{
}

/// Whether a command can be carried out, and if not, why.
pub open spec fn command_fault(v: SequencerView, msg: UplinkMsg) -> Option<Fault> {
    match msg {
        UplinkMsg::PushPLLChange(change) => if v.change_fits() && change.start_tick
            + v.back.fracn.len() <= usize::MAX {
            None
        } else {
            Some(Fault::Capacity)
        },
        UplinkMsg::PushFracn(count, values) => if count <= 32 && v.fracn_fit(count as nat) {
            None
        } else {
            Some(Fault::Capacity)
        },
        UplinkMsg::ClearBuffer() => if v.is_running {
            Some(Fault::ClearWhileRunning)
        } else {
            None
        },
        UplinkMsg::StartNow() => if v.primed().can_step() {
            None
        } else {
            Some(Fault::NothingToPlay)
        },
        _ => None,
    }
}

/// The sequencer after a command: unchanged where the command is rejected.
pub open spec fn after_command(v: SequencerView, msg: UplinkMsg) -> SequencerView {
    if command_fault(v, msg) is Some {
        v
    } else {
        match msg {
            UplinkMsg::Ping() => v,
            UplinkMsg::PushPLLChange(change) => v.after_push_pllchange(change),
            UplinkMsg::PushFracn(count, values) => v.after_push_fracn(
                values@.take(count as int),
            ),
            UplinkMsg::ClearBuffer() => SequencerView { back: SequenceView::empty(), ..v },
            UplinkMsg::UploadDone() => SequencerView { uploading: false, ..v },
            UplinkMsg::StartNow() => v.primed().after_step(),
            UplinkMsg::StopNow() => SequencerView { is_running: false, ..v },
        }
    }
}

/// What the caller is told about a command.
pub open spec fn command_outcome(v: SequencerView, msg: UplinkMsg) -> CommandOutcome {
    match command_fault(v, msg) {
        Some(fault) => CommandOutcome::Rejected(fault),
        None => match msg {
            UplinkMsg::StartNow() => CommandOutcome::Launched(
                Launch { halt_first: v.is_running, step: v.primed().step_output() },
            ),
            UplinkMsg::StopNow() => CommandOutcome::Stopped(v.is_running),
            _ => CommandOutcome::Done,
        },
    }
}

} // verus!
