//! The pinch gesture: each pinch steps to the next instrument, but not more
//! often than once per cooldown.

use vstd::prelude::*;
use crate::gate::{elapsed_ms, elapsed_since};
use crate::midi::{MidiMessage, all_wf, change_instrument, instrument_change, valid_channel, valid_data};

verus! {

/// Distance between thumb and index finger below which the hand counts as
/// pinched, in thousandths of a millimetre, unless configured otherwise.
pub const DEFAULT_PINCH_THRESHOLD: u32 = 10_000;

/// Seconds that must pass between two instrument changes, unless configured
/// otherwise.
pub const DEFAULT_COOLDOWN_SEC: u64 = 1;

/// Number of MIDI programs.
pub const PROGRAM_COUNT: u8 = 128;

/// Milliseconds in a second.
pub const MS_PER_SEC: u64 = 1000;

/// The program after `program`; the last one is followed by the first.
pub open spec fn next_program(program: u8) -> u8 {
    ((program + 1) % (PROGRAM_COUNT as int)) as u8
}

/// Whether a pinch reading changes the instrument: the fingers are closer
/// than the threshold, and the cooldown has passed since the last change.
pub open spec fn pinch_triggers(
    distance: u32,
    threshold: u32,
    last_trigger_ms: u64,
    now_ms: u64,
    cooldown_sec: u64,
) -> bool {
    distance < threshold && elapsed_ms(last_trigger_ms, now_ms) / (MS_PER_SEC as int)
        >= cooldown_sec
}

/// The current instrument and the time of the last change.
pub struct GestureDebouncer {
    last_trigger_ms: u64,
    program: u8,
    channel: u8,
    pinch_threshold: u32,
    cooldown_sec: u64,
}

impl GestureDebouncer {
    /// The time of the last instrument change, or of the start.
    pub closed spec fn last_trigger_ms(&self) -> u64 {
        self.last_trigger_ms
    }

    /// The current program.
    pub closed spec fn program(&self) -> u8 {
        self.program
    }

    /// The channel whose instrument is changed.
    pub closed spec fn channel(&self) -> u8 {
        self.channel
    }

    /// The distance below which the hand counts as pinched.
    pub closed spec fn pinch_threshold(&self) -> u32 {
        self.pinch_threshold
    }

    /// The seconds between two changes.
    pub closed spec fn cooldown_sec(&self) -> u64 {
        self.cooldown_sec
    }

    /// The channel is a MIDI channel and the program a MIDI program.
    pub closed spec fn wf(&self) -> bool {
        valid_channel(self.channel) && valid_data(self.program)
    }

    /// What `wf` says, for callers outside this module.
    pub proof fn lemma_wf(&self)
        requires
            self.wf(),
        ensures
            valid_channel(self.channel()),
            valid_data(self.program()),
    {
    }

    /// A debouncer on program 0 whose cooldown starts at `now_ms`.
    pub fn new(channel: u8, pinch_threshold: u32, cooldown_sec: u64, now_ms: u64) -> (debouncer:
        Self)
        requires
            valid_channel(channel),
        ensures
            debouncer.wf(),
            debouncer.program() == 0,
            debouncer.last_trigger_ms() == now_ms,
            debouncer.channel() == channel,
            debouncer.pinch_threshold() == pinch_threshold,
            debouncer.cooldown_sec() == cooldown_sec,
    {
        GestureDebouncer {
            last_trigger_ms: now_ms,
            program: 0,
            channel,
            pinch_threshold,
            cooldown_sec,
        }
    }

    /// The current program.
    pub fn current_program(&self) -> (program: u8)
        ensures
            program == self.program(),
    {
        self.program
    }

    /// Takes one pinch reading at time `now_ms`. If it triggers, the program
    /// steps to the next one, the cooldown starts anew, and the messages of
    /// the instrument change are returned; otherwise nothing changes.
    pub fn on_pinch(&mut self, distance: u32, now_ms: u64) -> (change: Option<Vec<MidiMessage>>)
        requires
            old(self).wf(),
        ensures
            final(self).wf(),
            final(self).channel() == old(self).channel(),
            final(self).pinch_threshold() == old(self).pinch_threshold(),
            final(self).cooldown_sec() == old(self).cooldown_sec(),
            pinch_triggers(
                distance,
                old(self).pinch_threshold(),
                old(self).last_trigger_ms(),
                now_ms,
                old(self).cooldown_sec(),
            ) ==> {
                &&& final(self).program() == next_program(old(self).program())
                &&& final(self).last_trigger_ms() == now_ms
                &&& change is Some
                &&& change.unwrap()@ == instrument_change(
                    old(self).channel(),
                    next_program(old(self).program()),
                )
                &&& all_wf(change.unwrap()@)
            },
            !pinch_triggers(
                distance,
                old(self).pinch_threshold(),
                old(self).last_trigger_ms(),
                now_ms,
                old(self).cooldown_sec(),
            ) ==> {
                &&& final(self).program() == old(self).program()
                &&& final(self).last_trigger_ms() == old(self).last_trigger_ms()
                &&& change is None
            },
    {
        let elapsed = elapsed_since(self.last_trigger_ms, now_ms);
        if distance < self.pinch_threshold && elapsed / MS_PER_SEC >= self.cooldown_sec {
            self.program = if self.program >= PROGRAM_COUNT - 1 {
                0
            } else {
                self.program + 1
            };
            self.last_trigger_ms = now_ms;
            Some(change_instrument(self.channel, self.program))
        } else {
            None
        }
    }
}

/// The program always stays a MIDI program: stepping from the last one wraps
/// to the first, and any other step adds one.
pub proof fn lemma_next_program_wraps(program: u8)
    requires
        valid_data(program),
    ensures
        valid_data(next_program(program)),
        program == PROGRAM_COUNT - 1 ==> next_program(program) == 0,
        program < PROGRAM_COUNT - 1 ==> next_program(program) == program + 1,
{
}

/// After a change, no pinch triggers until the cooldown has passed, and any
/// pinch closer than the threshold triggers once it has.
pub proof fn lemma_cooldown(
    distance: u32,
    threshold: u32,
    changed_at_ms: u64,
    now_ms: u64,
    cooldown_sec: u64,
)
    requires
        changed_at_ms <= now_ms,
        cooldown_sec * MS_PER_SEC <= u64::MAX,
    ensures
        now_ms - changed_at_ms < cooldown_sec * MS_PER_SEC ==> !pinch_triggers(
            distance,
            threshold,
            changed_at_ms,
            now_ms,
            cooldown_sec,
        ),
        now_ms - changed_at_ms >= cooldown_sec * MS_PER_SEC && distance < threshold
            ==> pinch_triggers(distance, threshold, changed_at_ms, now_ms, cooldown_sec),
{
    let passed = now_ms - changed_at_ms;
    assert(passed / 1000 >= cooldown_sec <==> passed >= cooldown_sec * 1000) by (nonlinear_arith)
        requires
            passed >= 0,
            cooldown_sec >= 0,
    ;
}

} // verus!
