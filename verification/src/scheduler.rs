//! Note lifetimes: which pitches sound, until when, and the messages that
//! start and stop them.
//!
//! A pitch is either idle or sounding. `note_on` makes pitches sound until a
//! time that depends on the velocity; `expire_due` returns to idle every pitch
//! whose time has come. A pitch that is struck again while it sounds is
//! stopped first, so a note-on is never followed by a second note-on for the
//! same pitch without a note-off in between.

use vstd::prelude::*;
use std::collections::HashMap;
use crate::midi::{MidiMessage, all_wf, valid_channel, valid_data, DATA_MAX};
use crate::scale::strictly_ascending;

verus! {

/// Shortest note, in milliseconds, unless configured otherwise.
pub const DEFAULT_MIN_DURATION_MS: u64 = 100;

/// Longest note, in milliseconds, unless configured otherwise.
pub const DEFAULT_MAX_DURATION_MS: u64 = 5000;

/// Controller that carries the attack time.
pub const ATTACK_CONTROLLER: u8 = 1;

/// Controller that carries the decay time.
pub const DECAY_CONTROLLER: u8 = 2;

/// Controller that carries the sustain level.
pub const SUSTAIN_CONTROLLER: u8 = 3;

/// Controller that carries the release time.
pub const RELEASE_CONTROLLER: u8 = 4;

/// Number of messages sent before the notes of a chord: the program change
/// and the four envelope controllers.
pub const PRELUDE_LEN: usize = 5;

/// Shape of a note's loudness over time, as sent to the synthesizer.
#[derive(Clone, Copy, Debug, PartialEq, Eq, Structural)]
pub struct Envelope {
    pub attack: u8,
    pub decay: u8,
    pub sustain: u8,
    pub release: u8,
}

impl Envelope {
    /// Every parameter fits a MIDI data byte.
    pub open spec fn wf(self) -> bool {
        valid_data(self.attack) && valid_data(self.decay) && valid_data(self.sustain)
            && valid_data(self.release)
    }
}

/// How long a note struck with `velocity` lasts: the longest duration at
/// velocity 0, falling linearly to the shortest at velocity 127, and never
/// outside the two.
pub open spec fn note_duration(velocity: u8, min_ms: u64, max_ms: u64) -> int {
    let raw = max_ms - (velocity * (max_ms - min_ms)) / (DATA_MAX as int);
    if raw < min_ms {
        min_ms as int
    } else if raw > max_ms {
        max_ms as int
    } else {
        raw
    }
}

/// `start + duration`, or the latest representable time if that lies beyond it.
pub open spec fn expiry_time(start: u64, duration: int) -> u64 {
    if start + duration > u64::MAX {
        u64::MAX
    } else {
        (start + duration) as u64
    }
}

/// Computes [`note_duration`].
pub fn duration_for_velocity(velocity: u8, min_ms: u64, max_ms: u64) -> (duration: u64)
    requires
        min_ms <= max_ms,
    ensures
        duration == note_duration(velocity, min_ms, max_ms),
        min_ms <= duration <= max_ms,
{
    let span: u64 = max_ms - min_ms;
    assert(velocity * span <= 0xff * 0xffff_ffff_ffff_ffff) by (nonlinear_arith)
        requires
            0 <= velocity <= 0xff,
            0 <= span <= 0xffff_ffff_ffff_ffff,
    ;
    let product: u128 = velocity as u128 * span as u128;
    let reduction: u128 = product / (DATA_MAX as u128);
    if reduction > span as u128 {
        min_ms
    } else {
        max_ms - reduction as u64
    }
}

/// The messages that precede the notes of a chord: the program change, then
/// attack, decay, sustain and release.
pub open spec fn prelude_messages(channel: u8, program: u8, envelope: Envelope) -> Seq<
    MidiMessage,
> {
    seq![
        MidiMessage::ProgramChange { channel, program },
        MidiMessage::ControlChange {
            channel,
            controller: ATTACK_CONTROLLER,
            value: envelope.attack,
        },
        MidiMessage::ControlChange { channel, controller: DECAY_CONTROLLER, value: envelope.decay },
        MidiMessage::ControlChange {
            channel,
            controller: SUSTAIN_CONTROLLER,
            value: envelope.sustain,
        },
        MidiMessage::ControlChange {
            channel,
            controller: RELEASE_CONTROLLER,
            value: envelope.release,
        },
    ]
}

/// Whether the pitch at position `i` of the chord sounds when its turn comes:
/// it sounded before the chord was struck, or it occurs earlier in the chord.
pub open spec fn sounds_at_turn(before: Set<u8>, pitches: Seq<u8>, i: int) -> bool {
    before.contains(pitches[i]) || pitches.take(i).contains(pitches[i])
}

/// The messages for the pitch at position `i` of the chord: a note-on,
/// preceded by a note-off if the pitch sounds when its turn comes.
pub open spec fn strike_messages(
    before: Set<u8>,
    pitches: Seq<u8>,
    i: int,
    channel: u8,
    velocity: u8,
) -> Seq<MidiMessage> {
    let pitch = pitches[i];
    if sounds_at_turn(before, pitches, i) {
        seq![
            MidiMessage::NoteOff { channel, pitch, velocity: 0 },
            MidiMessage::NoteOn { channel, pitch, velocity },
        ]
    } else {
        seq![MidiMessage::NoteOn { channel, pitch, velocity }]
    }
}

/// The messages for the first `count` pitches of the chord, in chord order.
pub open spec fn chord_messages(
    before: Set<u8>,
    pitches: Seq<u8>,
    count: int,
    channel: u8,
    velocity: u8,
) -> Seq<MidiMessage>
    decreases count,
{
    if count <= 0 {
        Seq::empty()
    } else {
        chord_messages(before, pitches, count - 1, channel, velocity) + strike_messages(
            before,
            pitches,
            count - 1,
            channel,
            velocity,
        )
    }
}

/// Everything `note_on` sends: the prelude, then the messages of each pitch.
pub open spec fn note_on_messages(
    before: Set<u8>,
    pitches: Seq<u8>,
    channel: u8,
    velocity: u8,
    program: u8,
    envelope: Envelope,
) -> Seq<MidiMessage> {
    prelude_messages(channel, program, envelope) + chord_messages(
        before,
        pitches,
        pitches.len() as int,
        channel,
        velocity,
    )
}

/// The sounding pitches after a chord was struck: each pitch of the chord
/// sounds until `expiry`, every other pitch is as before.
pub open spec fn sounding_after_strike(before: Map<u8, u64>, pitches: Seq<u8>, expiry: u64) -> Map<
    u8,
    u64,
> {
    Map::new(
        |p: u8| before.contains_key(p) || pitches.contains(p),
        |p: u8|
            if pitches.contains(p) {
                expiry
            } else {
                before[p]
            },
    )
}

/// Whether a pitch that sounds until `expires_at` is due at `now`.
pub open spec fn is_due(expires_at: u64, now: u64) -> bool {
    expires_at <= now
}

/// The sounding pitches that are left once those due at `now` went idle.
pub open spec fn sounding_after_expiry(before: Map<u8, u64>, now: u64) -> Map<u8, u64> {
    Map::new(|p: u8| before.contains_key(p) && !is_due(before[p], now), |p: u8| before[p])
}

/// Every pitch of the sequence is a MIDI pitch.
pub open spec fn all_valid_pitches(pitches: Seq<u8>) -> bool {
    forall|i: int| 0 <= i < pitches.len() ==> valid_data(#[trigger] pitches[i])
}

/// The sounding notes of one channel and the rule for how long a note lasts.
pub struct NoteScheduler {
    active: HashMap<u8, u64>,
    channel: u8,
    min_duration_ms: u64,
    max_duration_ms: u64,
}

impl NoteScheduler {
    /// The sounding pitches, each with the time at which it expires. A pitch
    /// that is not in the map is idle.
    pub closed spec fn sounding(&self) -> Map<u8, u64> {
        self.active@
    }

    /// The channel the notes are played on.
    pub closed spec fn channel(&self) -> u8 {
        self.channel
    }

    /// The duration of a note struck at full velocity.
    pub closed spec fn min_duration_ms(&self) -> u64 {
        self.min_duration_ms
    }

    /// The duration of a note struck at velocity 0.
    pub closed spec fn max_duration_ms(&self) -> u64 {
        self.max_duration_ms
    }

    /// The channel is a MIDI channel, the durations are in order, and only
    /// MIDI pitches sound.
    pub closed spec fn wf(&self) -> bool {
        &&& valid_channel(self.channel)
        &&& self.min_duration_ms <= self.max_duration_ms
        &&& forall|p: u8| #[trigger] self.active@.contains_key(p) ==> valid_data(p)
    }

    /// What `wf` says, for callers outside this module.
    pub proof fn lemma_wf(&self)
        requires
            self.wf(),
        ensures
            valid_channel(self.channel()),
            self.min_duration_ms() <= self.max_duration_ms(),
            forall|p: u8| #[trigger] self.sounding().contains_key(p) ==> valid_data(p),
    {
    }

    /// A scheduler with every pitch idle.
    pub fn new(channel: u8, min_duration_ms: u64, max_duration_ms: u64) -> (scheduler: Self)
        requires
            valid_channel(channel),
            min_duration_ms <= max_duration_ms,
        ensures
            scheduler.wf(),
            scheduler.sounding() == Map::<u8, u64>::empty(),
            scheduler.channel() == channel,
            scheduler.min_duration_ms() == min_duration_ms,
            scheduler.max_duration_ms() == max_duration_ms,
    {
        NoteScheduler { active: HashMap::new(), channel, min_duration_ms, max_duration_ms }
    }

    /// Whether `pitch` sounds.
    pub fn is_sounding(&self, pitch: u8) -> (sounds: bool)
        ensures
            sounds == self.sounding().contains_key(pitch),
    {
        self.active.contains_key(&pitch)
    }

    /// The time at which `pitch` expires, if it sounds.
    pub fn expires_at(&self, pitch: u8) -> (expiry: Option<u64>)
        ensures
            expiry == if self.sounding().contains_key(pitch) {
                Some(self.sounding()[pitch])
            } else {
                None
            },
    {
        match self.active.get(&pitch) {
            Some(at) => Some(*at),
            None => None,
        }
    }

    /// How long a note struck with `velocity` lasts under this scheduler.
    pub fn duration(&self, velocity: u8) -> (duration: u64)
        requires
            self.wf(),
        ensures
            duration == note_duration(velocity, self.min_duration_ms(), self.max_duration_ms()),
            self.min_duration_ms() <= duration <= self.max_duration_ms(),
    {
        duration_for_velocity(velocity, self.min_duration_ms, self.max_duration_ms)
    }

    /// Strikes a chord at time `now` and returns the messages to send, in
    /// order: the program change, the four envelope controllers, then for
    /// each pitch in chord order a note-on, preceded by a note-off if the
    /// pitch still sounds. Each pitch of the chord then sounds until `now`
    /// plus the duration that belongs to `velocity`.
    pub fn note_on(
        &mut self,
        pitches: &Vec<u8>,
        velocity: u8,
        program: u8,
        envelope: Envelope,
        now: u64,
    ) -> (messages: Vec<MidiMessage>)
        requires
            old(self).wf(),
            all_valid_pitches(pitches@),
            valid_data(velocity),
            valid_data(program),
            envelope.wf(),
        ensures
            final(self).wf(),
            final(self).channel() == old(self).channel(),
            final(self).min_duration_ms() == old(self).min_duration_ms(),
            final(self).max_duration_ms() == old(self).max_duration_ms(),
            messages@ == note_on_messages(
                old(self).sounding().dom(),
                pitches@,
                old(self).channel(),
                velocity,
                program,
                envelope,
            ),
            final(self).sounding() == sounding_after_strike(
                old(self).sounding(),
                pitches@,
                expiry_time(
                    now,
                    note_duration(
                        velocity,
                        old(self).min_duration_ms(),
                        old(self).max_duration_ms(),
                    ),
                ),
            ),
            all_wf(messages@),
    {
        let channel = self.channel;
        let duration = duration_for_velocity(velocity, self.min_duration_ms, self.max_duration_ms);
        let expiry = now.saturating_add(duration);
        let ghost before = self.active@;
        let mut messages: Vec<MidiMessage> = Vec::new();
        messages.push(MidiMessage::ProgramChange { channel, program });
        messages.push(
            MidiMessage::ControlChange {
                channel,
                controller: ATTACK_CONTROLLER,
                value: envelope.attack,
            },
        );
        messages.push(
            MidiMessage::ControlChange {
                channel,
                controller: DECAY_CONTROLLER,
                value: envelope.decay,
            },
        );
        messages.push(
            MidiMessage::ControlChange {
                channel,
                controller: SUSTAIN_CONTROLLER,
                value: envelope.sustain,
            },
        );
        messages.push(
            MidiMessage::ControlChange {
                channel,
                controller: RELEASE_CONTROLLER,
                value: envelope.release,
            },
        );
        assert(messages@ =~= prelude_messages(channel, program, envelope));
        let mut i: usize = 0;
        while i < pitches.len()
            invariant
                i <= pitches.len(),
                channel == self.channel,
                valid_channel(channel),
                valid_data(velocity),
                all_valid_pitches(pitches@),
                self.min_duration_ms == old(self).min_duration_ms,
                self.max_duration_ms == old(self).max_duration_ms,
                self.channel == old(self).channel,
                before == old(self).active@,
                forall|p: u8| #[trigger] before.contains_key(p) ==> valid_data(p),
                self.active@ == sounding_after_strike(before, pitches@.take(i as int), expiry),
                messages@ == prelude_messages(channel, program, envelope) + chord_messages(
                    before.dom(),
                    pitches@,
                    i as int,
                    channel,
                    velocity,
                ),
                all_wf(messages@),
            decreases pitches.len() - i,
        {
            let pitch = pitches[i];
            let ghost so_far = messages@;
            let ghost taken = pitches@.take(i as int);
            assert(self.active@.contains_key(pitch) == sounds_at_turn(
                before.dom(),
                pitches@,
                i as int,
            ));
            if self.active.contains_key(&pitch) {
                messages.push(MidiMessage::NoteOff { channel, pitch, velocity: 0 });
            }
            messages.push(MidiMessage::NoteOn { channel, pitch, velocity });
            self.active.insert(pitch, expiry);
            assert(messages@ =~= so_far + strike_messages(
                before.dom(),
                pitches@,
                i as int,
                channel,
                velocity,
            ));
            assert(pitches@.take(i + 1) =~= taken.push(pitch));
            assert(self.active@ =~= sounding_after_strike(before, pitches@.take(i + 1), expiry))
                by {
                assert forall|p: u8| taken.push(pitch).contains(p) <==> (taken.contains(p) || p
                    == pitch) by {
                    if taken.contains(p) {
                        let at = choose|at: int| 0 <= at < taken.len() && taken[at] == p;
                        assert(taken.push(pitch)[at] == p);
                    }
                    if p == pitch {
                        assert(taken.push(pitch)[taken.len() as int] == p);
                    }
                }
            }
            i = i + 1;
        }
        assert(pitches@.take(pitches@.len() as int) =~= pitches@);
        assert forall|p: u8| self.active@.contains_key(p) implies valid_data(p) by {
            if pitches@.contains(p) {
                let at = choose|at: int| 0 <= at < pitches@.len() && pitches@[at] == p;
                assert(valid_data(pitches@[at]));
            }
        }
        messages
    }

    /// Returns to idle every pitch that is due at `now` and hands those
    /// pitches back, lowest first, for their note-offs to be sent.
    pub fn expire_due(&mut self, now: u64) -> (expired: Vec<u8>)
        requires
            old(self).wf(),
        ensures
            final(self).wf(),
            final(self).channel() == old(self).channel(),
            final(self).min_duration_ms() == old(self).min_duration_ms(),
            final(self).max_duration_ms() == old(self).max_duration_ms(),
            strictly_ascending(expired@),
            forall|p: u8|
                expired@.contains(p) <==> old(self).sounding().contains_key(p) && is_due(
                    old(self).sounding()[p],
                    now,
                ),
            final(self).sounding() == sounding_after_expiry(old(self).sounding(), now),
    {
        let ghost before = self.active@;
        let mut expired: Vec<u8> = Vec::new();
        let mut pitch: u8 = 0;
        while pitch <= DATA_MAX
            invariant
                pitch <= DATA_MAX + 1,
                self.channel == old(self).channel,
                self.min_duration_ms == old(self).min_duration_ms,
                self.max_duration_ms == old(self).max_duration_ms,
                before == old(self).active@,
                forall|p: u8| #[trigger] before.contains_key(p) ==> valid_data(p),
                strictly_ascending(expired@),
                forall|k: int| 0 <= k < expired@.len() ==> expired@[k] < pitch,
                forall|p: u8|
                    expired@.contains(p) <==> p < pitch && before.contains_key(p) && is_due(
                        before[p],
                        now,
                    ),
                self.active@ == Map::new(
                    |p: u8| before.contains_key(p) && !(p < pitch && is_due(before[p], now)),
                    |p: u8| before[p],
                ),
            decreases DATA_MAX + 1 - pitch,
        {
            let ghost listed = expired@;
            let due = match self.active.get(&pitch) {
                Some(at) => *at <= now,
                None => false,
            };
            assert(due == (before.contains_key(pitch) && is_due(before[pitch], now)));
            if due {
                self.active.remove(&pitch);
                expired.push(pitch);
                assert(expired@[listed.len() as int] == pitch);
                assert forall|p: u8| expired@.contains(p) <==> (listed.contains(p) || p
                    == pitch) by {
                    if listed.contains(p) {
                        let at = choose|at: int| 0 <= at < listed.len() && listed[at] == p;
                        assert(expired@[at] == p);
                    }
                }
            }
            assert(self.active@ =~= Map::new(
                |p: u8| before.contains_key(p) && !(p < pitch + 1 && is_due(before[p], now)),
                |p: u8| before[p],
            ));
            pitch = pitch + 1;
        }
        assert forall|p: u8| #[trigger] before.contains_key(p) implies p < pitch by {
            assert(valid_data(p));
        }
        assert(self.active@ =~= sounding_after_expiry(before, now));
        expired
    }
}

/// The formula never leaves the span between the two durations: full
/// velocity gives the shortest note, velocity 0 the longest, and a harder
/// strike never a longer note.
pub proof fn lemma_note_duration(soft: u8, hard: u8, min_ms: u64, max_ms: u64)
    requires
        min_ms <= max_ms,
        soft <= hard,
    ensures
        note_duration(DATA_MAX, min_ms, max_ms) == min_ms,
        note_duration(0, min_ms, max_ms) == max_ms,
        min_ms <= note_duration(hard, min_ms, max_ms) <= note_duration(soft, min_ms, max_ms)
            <= max_ms,
{
    let span = max_ms - min_ms;
    assert((127 * span) / 127 == span) by (nonlinear_arith);
    assert((0 * span) / 127 == 0) by (nonlinear_arith);
    assert((soft * span) / 127 <= (hard * span) / 127) by (nonlinear_arith)
        requires
            0 <= soft <= hard,
            span >= 0,
    ;
    assert(0 <= (soft * span) / 127) by (nonlinear_arith)
        requires
            0 <= soft,
            span >= 0,
    ;
}

/// Once the due pitches went idle, nothing that is left is due, and every
/// pitch that is left sounds until the time it was given.
pub proof fn lemma_nothing_due_is_left(before: Map<u8, u64>, now: u64)
    ensures
        forall|p: u8| #[trigger]
            sounding_after_expiry(before, now).contains_key(p) ==> before.contains_key(p)
                && sounding_after_expiry(before, now)[p] == before[p] && now < before[p],
        forall|p: u8| #[trigger]
            before.contains_key(p) && now < before[p] ==> sounding_after_expiry(
                before,
                now,
            ).contains_key(p),
{
}

/// A note that is struck while idle expires exactly when its duration has
/// passed: it is not due any earlier, and it is due from then on.
pub proof fn lemma_struck_note_expires_on_time(
    before: Map<u8, u64>,
    pitches: Seq<u8>,
    start: u64,
    duration: int,
    now: u64,
    pitch: u8,
)
    requires
        pitches.contains(pitch),
        0 <= duration,
        start + duration <= u64::MAX,
    ensures
        ({
            let sounding = sounding_after_strike(before, pitches, expiry_time(start, duration));
            &&& sounding.contains_key(pitch)
            &&& is_due(sounding[pitch], now) <==> start + duration <= now
            &&& sounding_after_expiry(sounding, now).contains_key(pitch) <==> now < start
                + duration
        }),
{
}

/// Striking one pitch that already sounds sends its note-off directly before
/// its note-on; striking an idle pitch sends the note-on alone.
pub proof fn lemma_restrike_stops_note_first(
    before: Set<u8>,
    pitch: u8,
    channel: u8,
    velocity: u8,
    program: u8,
    envelope: Envelope,
)
    ensures
        ({
            let messages = note_on_messages(
                before,
                seq![pitch],
                channel,
                velocity,
                program,
                envelope,
            );
            if before.contains(pitch) {
                &&& messages.len() == PRELUDE_LEN + 2
                &&& messages[PRELUDE_LEN as int] == (MidiMessage::NoteOff {
                    channel,
                    pitch,
                    velocity: 0,
                })
                &&& messages[PRELUDE_LEN + 1] == (MidiMessage::NoteOn { channel, pitch, velocity })
            } else {
                &&& messages.len() == PRELUDE_LEN + 1
                &&& messages[PRELUDE_LEN as int] == (MidiMessage::NoteOn {
                    channel,
                    pitch,
                    velocity,
                })
            }
        }),
{
    let pitches = seq![pitch];
    reveal_with_fuel(chord_messages, 2);
    assert(pitches.take(0) =~= Seq::<u8>::empty());
    assert(!pitches.take(0).contains(pitch));
    assert(chord_messages(before, pitches, 1, channel, velocity) =~= strike_messages(
        before,
        pitches,
        0,
        channel,
        velocity,
    ));
}

} // verus!
