//! One step of the instrument: a sample comes in, the session moves on, the
//! messages to send come out.
//!
//! Within a step the order is fixed: the position is smoothed, the rate gate
//! is asked, an open gate strikes a chord, notes that are due are stopped,
//! and last the pinch is looked at. Sending a message may fail; the session
//! has moved on all the same.

use vstd::prelude::*;
use crate::chord::{build_chord, chord_of, lemma_chord_notes_in_scale};
use crate::config::{Config, ConfigError, SCREEN_HEIGHT, SCREEN_WIDTH};
use crate::gate::{elapsed_ms, emission_rate, gate_open, gate_opens, RATE_UNIT};
use crate::gesture::{GestureDebouncer, next_program, pinch_triggers};
use crate::midi::{
    MidiMessage,
    all_wf,
    instrument_change,
    valid_channel,
    valid_data,
};
use crate::pointer::{map_leap_coordinates_to_screen, screen_coordinate};
use crate::scale::{
    build_scale,
    linear_map,
    map_to_midi,
    minor_intervals,
    nearest_index,
    nearest_index_in_scale,
    lemma_linear_map_monotone,
    lemma_nearest_index_exists,
    lemma_nearest_note_monotone,
    lemma_scale_strictly_ascending,
    strictly_ascending,
    scale_fits,
    scale_of,
    scale_pitch,
    MAX_PITCH,
};
use crate::scheduler::{
    Envelope,
    NoteScheduler,
    all_valid_pitches,
    expiry_time,
    is_due,
    note_duration,
    note_on_messages,
    sounding_after_expiry,
    sounding_after_strike,
};
use crate::smoother::{
    MovingAverage,
    Position,
    axis_mean,
    hand_tracking,
    lemma_mean_is_a_coordinate,
    lemma_mean_never_falls,
    never_falls,
    window_after,
    window_push,
};

verus! {

/// Attack sent with every chord.
pub const ATTACK: u8 = 70;

/// Decay sent with every chord.
pub const DECAY: u8 = 100;

/// Sustain sent with every chord.
pub const SUSTAIN: u8 = 80;

/// Controller for the filter cutoff, which follows the velocity.
pub const CUTOFF_CONTROLLER: u8 = 74;

/// Controller for the reverb level, which follows the velocity.
pub const REVERB_CONTROLLER: u8 = 91;

/// Controller for the reverb time, which follows the duration.
pub const REVERB_TIME_CONTROLLER: u8 = 92;

/// Controller for the modulation, which follows the depth of the hand.
pub const MODULATION_CONTROLLER: u8 = 1;

/// Steps of the velocity range.
pub const VELOCITY_RANGE: u32 = 127;

/// What one tracking frame says about the hand.
#[derive(Clone, Copy, Debug, PartialEq, Eq)]
pub struct Sample {
    /// The palm position in millimetres; `None` for a frame in which a
    /// coordinate is not a finite number.
    pub position: Option<Position>,
    /// The tilt of the palm, in thousandths, from -1000 to 1000.
    pub tilt: i32,
    /// The distance between thumb and index finger, in thousandths of a
    /// millimetre.
    pub pinch: u32,
    /// The time of the frame, in milliseconds on a clock that never runs
    /// backwards.
    pub now_ms: u64,
}

/// The chord that a step struck.
#[derive(Clone, Copy, Debug, PartialEq, Eq, Structural)]
pub struct Strike {
    /// The scale note under the hand, the root of the chord.
    pub note: u8,
    /// How hard the chord was struck.
    pub velocity: u8,
    /// The modulation depth.
    pub depth: u8,
    /// How long the chord sounds, in milliseconds.
    pub duration_ms: u64,
}

/// What a step hands back.
pub struct StepOutput {
    /// The smoothed position of the hand.
    pub position: Position,
    /// The pixel to move the pointer to.
    pub pointer: (i32, i32),
    /// The chord that was struck, if the rate gate was open.
    pub strike: Option<Strike>,
    /// The pitches that went idle in this step, lowest first.
    pub expired: Vec<u8>,
    /// The messages to send, in order.
    pub messages: Vec<MidiMessage>,
}

/// The session as the contracts see it.
#[verifier::ext_equal]
pub struct SessionView {
    pub config: Config,
    pub scale: Seq<u8>,
    pub window: Seq<Position>,
    pub sounding: Map<u8, u64>,
    pub program: u8,
    pub last_trigger_ms: u64,
    pub last_emission_ms: u64,
    pub last_position: Position,
}

/// The window after the sample's position was taken in, if it is one.
pub open spec fn window_after_sample(v: SessionView, sample: Sample) -> Seq<Position> {
    match sample.position {
        Some(p) => window_push(v.window, p, v.config.moving_average_window as nat),
        None => v.window,
    }
}

/// The smoothed position on one axis: the mean over the window, or 0 for a
/// sample without a position.
pub open spec fn smoothed(v: SessionView, sample: Sample, axis: int) -> int {
    match sample.position {
        Some(_) => axis_mean(window_after_sample(v, sample), axis),
        None => 0,
    }
}

/// Whether the smoothed position differs from the one of the step before,
/// on any of the three axes.
pub open spec fn has_moved(v: SessionView, sample: Sample) -> bool {
    smoothed(v, sample, 0) != v.last_position.0 || smoothed(v, sample, 1) != v.last_position.1
        || smoothed(v, sample, 2) != v.last_position.2
}

/// Whether the step strikes a chord.
pub open spec fn strikes(v: SessionView, sample: Sample) -> bool {
    gate_opens(
        elapsed_ms(v.last_emission_ms, sample.now_ms),
        v.config.base_delay_ms,
        sample.tilt,
        has_moved(v, sample),
    )
}

/// The pitch that a position across the volume maps to, before it is
/// snapped to the scale.
pub open spec fn pitch_at(config: Config, scale: Seq<u8>, x: int) -> u8 {
    linear_map(
        x,
        config.volume.min_x as int,
        config.volume.max_x as int,
        scale.len() as int,
        config.base_pitch as int,
    ) as u8
}

/// The scale position under a hand at `x`.
pub open spec fn root_index_at(config: Config, scale: Seq<u8>, x: int) -> int {
    nearest_index(scale, pitch_at(config, scale, x))
}

/// The scale note under a hand at `x`.
pub open spec fn root_note_at(config: Config, scale: Seq<u8>, x: int) -> u8 {
    scale[root_index_at(config, scale, x)]
}

/// The velocity of a chord struck at height `y`.
pub open spec fn velocity_at(config: Config, y: int) -> u8 {
    linear_map(
        y,
        config.volume.min_y as int,
        config.volume.max_y as int,
        VELOCITY_RANGE as int,
        config.base_pitch as int,
    ) as u8
}

/// The modulation depth for a hand at depth `z`.
pub open spec fn depth_at(config: Config, scale: Seq<u8>, z: int) -> u8 {
    linear_map(
        z,
        config.volume.min_z as int,
        config.volume.max_z as int,
        scale.len() as int,
        config.base_pitch as int,
    ) as u8
}

/// A duration as a controller value: its low seven bits.
pub open spec fn duration_value(duration_ms: int) -> u8 {
    (duration_ms % 128) as u8
}

/// The chord struck by a hand at the smoothed position `(x, y, z)`: the root
/// from across, the velocity from the height, the modulation from the depth,
/// and the duration from the velocity.
pub open spec fn strike_at(config: Config, scale: Seq<u8>, x: int, y: int, z: int) -> Strike {
    let velocity = velocity_at(config, y);
    Strike {
        note: root_note_at(config, scale, x),
        velocity,
        depth: depth_at(config, scale, z),
        duration_ms: note_duration(velocity, config.min_duration_ms, config.max_duration_ms)
            as u64,
    }
}

/// The chord that the step strikes if the rate gate is open.
pub open spec fn strike_of(v: SessionView, sample: Sample) -> Strike {
    strike_at(
        v.config,
        v.scale,
        smoothed(v, sample, 0),
        smoothed(v, sample, 1),
        smoothed(v, sample, 2),
    )
}

/// The pitches of the chord on the scale note under a hand at `x`.
pub open spec fn chord_at(config: Config, scale: Seq<u8>, x: int) -> Seq<u8> {
    chord_of(root_index_at(config, scale, x), scale)
}

/// The pitches of the chord that the step strikes if the rate gate is open.
pub open spec fn struck_chord(v: SessionView, sample: Sample) -> Seq<u8> {
    chord_at(v.config, v.scale, smoothed(v, sample, 0))
}

/// The envelope sent with a chord of the given duration.
pub open spec fn envelope_for(duration_ms: int) -> Envelope {
    Envelope {
        attack: ATTACK,
        decay: DECAY,
        sustain: SUSTAIN,
        release: duration_value(duration_ms),
    }
}

/// The controllers sent after the notes of a chord: cutoff, reverb level,
/// reverb time and modulation.
pub open spec fn expression_messages(channel: u8, strike: Strike) -> Seq<MidiMessage> {
    seq![
        MidiMessage::ControlChange {
            channel,
            controller: CUTOFF_CONTROLLER,
            value: strike.velocity,
        },
        MidiMessage::ControlChange {
            channel,
            controller: REVERB_CONTROLLER,
            value: strike.velocity,
        },
        MidiMessage::ControlChange {
            channel,
            controller: REVERB_TIME_CONTROLLER,
            value: duration_value(strike.duration_ms as int),
        },
        MidiMessage::ControlChange {
            channel,
            controller: MODULATION_CONTROLLER,
            value: strike.depth,
        },
    ]
}

/// The messages of a chord struck while the pitches `before` sound: the
/// program change, the envelope, the notes, then the expression controllers.
pub open spec fn struck_messages(
    before: Set<u8>,
    chord: Seq<u8>,
    channel: u8,
    program: u8,
    strike: Strike,
) -> Seq<MidiMessage> {
    note_on_messages(
        before,
        chord,
        channel,
        strike.velocity,
        program,
        envelope_for(strike.duration_ms as int),
    ) + expression_messages(channel, strike)
}

/// The messages of the strike, or none if the rate gate stays shut.
pub open spec fn strike_part(v: SessionView, sample: Sample) -> Seq<MidiMessage> {
    if strikes(v, sample) {
        struck_messages(
            v.sounding.dom(),
            struck_chord(v, sample),
            v.config.midi_channel,
            v.program,
            strike_of(v, sample),
        )
    } else {
        Seq::empty()
    }
}

/// The sounding pitches once the strike, if any, has happened.
pub open spec fn sounding_after_gate(v: SessionView, sample: Sample) -> Map<u8, u64> {
    if strikes(v, sample) {
        sounding_after_strike(
            v.sounding,
            struck_chord(v, sample),
            expiry_time(sample.now_ms, strike_of(v, sample).duration_ms as int),
        )
    } else {
        v.sounding
    }
}

/// One note-off, with velocity 0, for each of the pitches.
pub open spec fn note_offs(channel: u8, pitches: Seq<u8>) -> Seq<MidiMessage> {
    Seq::new(
        pitches.len(),
        |i: int| MidiMessage::NoteOff { channel, pitch: pitches[i], velocity: 0 },
    )
}

/// Whether the step changes the instrument.
pub open spec fn changes_instrument(v: SessionView, sample: Sample) -> bool {
    pinch_triggers(
        sample.pinch,
        v.config.pinch_threshold,
        v.last_trigger_ms,
        sample.now_ms,
        v.config.gesture_cooldown_sec,
    )
}

/// The messages of the instrument change, or none if the pinch does not
/// trigger.
pub open spec fn change_part(v: SessionView, sample: Sample) -> Seq<MidiMessage> {
    if changes_instrument(v, sample) {
        instrument_change(v.config.midi_channel, next_program(v.program))
    } else {
        Seq::empty()
    }
}

/// Everything a step sends, given the pitches that went idle in it: the
/// strike, then the note-offs of the expired pitches, then the instrument
/// change.
pub open spec fn step_messages(v: SessionView, sample: Sample, expired: Seq<u8>) -> Seq<
    MidiMessage,
> {
    strike_part(v, sample) + note_offs(v.config.midi_channel, expired) + change_part(v, sample)
}

/// The session after a step.
pub open spec fn session_after(v: SessionView, sample: Sample) -> SessionView {
    SessionView {
        config: v.config,
        scale: v.scale,
        window: window_after_sample(v, sample),
        sounding: sounding_after_expiry(sounding_after_gate(v, sample), sample.now_ms),
        program: if changes_instrument(v, sample) {
            next_program(v.program)
        } else {
            v.program
        },
        last_trigger_ms: if changes_instrument(v, sample) {
            sample.now_ms
        } else {
            v.last_trigger_ms
        },
        last_emission_ms: if strikes(v, sample) {
            sample.now_ms
        } else {
            v.last_emission_ms
        },
        last_position: (
            smoothed(v, sample, 0) as i32,
            smoothed(v, sample, 1) as i32,
            smoothed(v, sample, 2) as i32,
        ),
    }
}

/// The session as it starts: nothing smoothed, nothing sounding, program 0,
/// and both clocks started at `now_ms`.
pub open spec fn session_at_start(config: Config, now_ms: u64) -> SessionView {
    SessionView {
        config,
        scale: scale_of(config.base_pitch, minor_intervals(), config.scale_octaves),
        window: Seq::empty(),
        sounding: Map::empty(),
        program: 0,
        last_trigger_ms: now_ms,
        last_emission_ms: now_ms,
        last_position: (0i32, 0i32, 0i32),
    }
}

/// Whether `scale` is the scale that `config` asks for, with every pitch a
/// MIDI pitch.
pub open spec fn is_scale_of(config: Config, scale: Seq<u8>) -> bool {
    &&& scale_fits(config.base_pitch, minor_intervals(), config.scale_octaves)
    &&& scale == scale_of(config.base_pitch, minor_intervals(), config.scale_octaves)
    &&& scale.len() == 7 * config.scale_octaves
    &&& scale.len() > 0
}

/// Every pitch of such a scale is a MIDI pitch.
proof fn lemma_scale_pitches_valid(config: Config, scale: Seq<u8>)
    requires
        is_scale_of(config, scale),
    ensures
        all_valid_pitches(scale),
{
    assert forall|i: int| 0 <= i < scale.len() implies valid_data(#[trigger] scale[i]) by {
        assert(scale_pitch(config.base_pitch, minor_intervals(), i) <= MAX_PITCH);
    }
}

/// Strikes the chord under a hand at `position` and says what was struck.
fn strike_chord(
    config: &Config,
    scale: &Vec<u8>,
    scheduler: &mut NoteScheduler,
    program: u8,
    position: Position,
    now_ms: u64,
) -> (result: (Vec<MidiMessage>, Strike))
    requires
        config.volume.wf(),
        is_scale_of(*config, scale@),
        old(scheduler).wf(),
        old(scheduler).channel() == config.midi_channel,
        old(scheduler).min_duration_ms() == config.min_duration_ms,
        old(scheduler).max_duration_ms() == config.max_duration_ms,
        valid_data(program),
    ensures
        final(scheduler).wf(),
        final(scheduler).channel() == old(scheduler).channel(),
        final(scheduler).min_duration_ms() == old(scheduler).min_duration_ms(),
        final(scheduler).max_duration_ms() == old(scheduler).max_duration_ms(),
        result.1 == strike_at(
            *config,
            scale@,
            position.0 as int,
            position.1 as int,
            position.2 as int,
        ),
        result.0@ == struck_messages(
            old(scheduler).sounding().dom(),
            chord_at(*config, scale@, position.0 as int),
            config.midi_channel,
            program,
            result.1,
        ),
        final(scheduler).sounding() == sounding_after_strike(
            old(scheduler).sounding(),
            chord_at(*config, scale@, position.0 as int),
            expiry_time(now_ms, result.1.duration_ms as int),
        ),
        all_wf(result.0@),
{
    proof {
        scheduler.lemma_wf();
        lemma_scale_pitches_valid(*config, scale@);
    }
    let channel = config.midi_channel;
    let steps = scale.len() as u32;
    let pitch = map_to_midi(
        position.0,
        config.volume.min_x,
        config.volume.max_x,
        steps,
        config.base_pitch,
    );
    let velocity = map_to_midi(
        position.1,
        config.volume.min_y,
        config.volume.max_y,
        VELOCITY_RANGE,
        config.base_pitch,
    );
    let depth = map_to_midi(
        position.2,
        config.volume.min_z,
        config.volume.max_z,
        steps,
        config.base_pitch,
    );
    let root_index = nearest_index_in_scale(pitch, scale);
    let chord = build_chord(root_index, scale);
    proof {
        lemma_chord_notes_in_scale(root_index as int, scale@);
        assert forall|j: int| 0 <= j < chord@.len() implies valid_data(#[trigger] chord@[j]) by {
            let note = chord@[j];
            assert(scale@.contains(note));
            let at = choose|at: int| 0 <= at < scale@.len() && scale@[at] == note;
            assert(valid_data(scale@[at]));
        }
    }
    let duration_ms = scheduler.duration(velocity);
    let strike = Strike { note: scale[root_index], velocity, depth, duration_ms };
    let release = (duration_ms % 128) as u8;
    let envelope = Envelope { attack: ATTACK, decay: DECAY, sustain: SUSTAIN, release };
    let mut messages = scheduler.note_on(&chord, velocity, program, envelope, now_ms);
    let ghost notes = messages@;
    messages.push(
        MidiMessage::ControlChange { channel, controller: CUTOFF_CONTROLLER, value: velocity },
    );
    messages.push(
        MidiMessage::ControlChange { channel, controller: REVERB_CONTROLLER, value: velocity },
    );
    messages.push(
        MidiMessage::ControlChange {
            channel,
            controller: REVERB_TIME_CONTROLLER,
            value: release,
        },
    );
    messages.push(
        MidiMessage::ControlChange { channel, controller: MODULATION_CONTROLLER, value: depth },
    );
    assert(messages@ =~= notes + expression_messages(channel, strike));
    (messages, strike)
}

/// Appends a note-off for each of the pitches.
fn push_note_offs(messages: &mut Vec<MidiMessage>, channel: u8, pitches: &Vec<u8>)
    requires
        valid_channel(channel),
        all_valid_pitches(pitches@),
        all_wf(old(messages)@),
    ensures
        final(messages)@ == old(messages)@ + note_offs(channel, pitches@),
        all_wf(final(messages)@),
{
    let mut i: usize = 0;
    while i < pitches.len()
        invariant
            i <= pitches.len(),
            valid_channel(channel),
            all_valid_pitches(pitches@),
            messages@ == old(messages)@ + note_offs(channel, pitches@.take(i as int)),
            all_wf(messages@),
        decreases pitches.len() - i,
    {
        let ghost sent = messages@;
        messages.push(MidiMessage::NoteOff { channel, pitch: pitches[i], velocity: 0 });
        assert(messages@ =~= old(messages)@ + note_offs(channel, pitches@.take(i + 1)));
        i = i + 1;
    }
    assert(pitches@.take(pitches@.len() as int) =~= pitches@);
}

/// A running performance: the options it was started with and everything
/// that the steps carry from one sample to the next.
pub struct Session {
    config: Config,
    scale: Vec<u8>,
    smoother: MovingAverage,
    scheduler: NoteScheduler,
    gesture: GestureDebouncer,
    last_emission_ms: u64,
    last_position: Position,
}

impl View for Session {
    type V = SessionView;

    closed spec fn view(&self) -> SessionView {
        SessionView {
            config: self.config,
            scale: self.scale@,
            window: self.smoother@,
            sounding: self.scheduler.sounding(),
            program: self.gesture.program(),
            last_trigger_ms: self.gesture.last_trigger_ms(),
            last_emission_ms: self.last_emission_ms,
            last_position: self.last_position,
        }
    }
}

impl Session {
    /// The parts of the session agree with its options, and the options are
    /// sound.
    pub closed spec fn wf(&self) -> bool {
        &&& self.config.problem() is None
        &&& is_scale_of(self.config, self.scale@)
        &&& self.smoother.capacity() == self.config.moving_average_window
        &&& self.scheduler.wf()
        &&& self.scheduler.channel() == self.config.midi_channel
        &&& self.scheduler.min_duration_ms() == self.config.min_duration_ms
        &&& self.scheduler.max_duration_ms() == self.config.max_duration_ms
        &&& self.gesture.wf()
        &&& self.gesture.channel() == self.config.midi_channel
        &&& self.gesture.pinch_threshold() == self.config.pinch_threshold
        &&& self.gesture.cooldown_sec() == self.config.gesture_cooldown_sec
    }

    /// What `wf` says of the view.
    pub proof fn lemma_wf(&self)
        requires
            self.wf(),
        ensures
            self@.config.problem() is None,
            is_scale_of(self@.config, self@.scale),
            valid_data(self@.program),
            forall|p: u8| #[trigger] self@.sounding.contains_key(p) ==> valid_data(p),
    {
        self.scheduler.lemma_wf();
        self.gesture.lemma_wf();
    }

    /// Starts a session at time `now_ms`, or says what is wrong with the
    /// options.
    pub fn new(config: Config, now_ms: u64) -> (result: Result<Session, ConfigError>)
        ensures
            match config.problem() {
                Some(error) => result is Err && result->Err_0 == error,
                None => result is Ok && result->Ok_0.wf() && result->Ok_0@ == session_at_start(
                    config,
                    now_ms,
                ),
            },
    {
        if !(1 <= config.midi_channel && config.midi_channel <= 16) {
            return Err(ConfigError::InvalidChannel);
        }
        if config.min_duration_ms > config.max_duration_ms {
            return Err(ConfigError::InvalidDurations);
        }
        if config.volume.min_x == config.volume.max_x || config.volume.min_y
            == config.volume.max_y || config.volume.min_z == config.volume.max_z {
            return Err(ConfigError::ZeroWidthRange);
        }
        if config.scale_octaves == 0 {
            return Err(ConfigError::EmptyScale);
        }
        let intervals: [u8; 7] = [0, 2, 3, 5, 7, 9, 10];
        assert(intervals@ =~= minor_intervals());
        let scale = match build_scale(config.base_pitch, &intervals, config.scale_octaves) {
            Ok(scale) => scale,
            Err(error) => {
                return Err(error);
            },
        };
        let session = Session {
            config,
            scale,
            smoother: MovingAverage::with_capacity(config.moving_average_window),
            scheduler: NoteScheduler::new(
                config.midi_channel,
                config.min_duration_ms,
                config.max_duration_ms,
            ),
            gesture: GestureDebouncer::new(
                config.midi_channel,
                config.pinch_threshold,
                config.gesture_cooldown_sec,
                now_ms,
            ),
            last_emission_ms: now_ms,
            last_position: (0, 0, 0),
        };
        assert(session@ =~= session_at_start(config, now_ms));
        Ok(session)
    }

    /// The options the session was started with.
    pub fn config(&self) -> (config: Config)
        ensures
            config == self@.config,
    {
        self.config
    }

    /// The scale that the session plays.
    pub fn scale(&self) -> (scale: &Vec<u8>)
        ensures
            scale@ == self@.scale,
    {
        &self.scale
    }

    /// The current program.
    pub fn program(&self) -> (program: u8)
        ensures
            program == self@.program,
    {
        self.gesture.current_program()
    }

    /// Whether `pitch` sounds.
    pub fn is_sounding(&self, pitch: u8) -> (sounds: bool)
        ensures
            sounds == self@.sounding.contains_key(pitch),
    {
        self.scheduler.is_sounding(pitch)
    }

    /// Takes one sample and moves the session on by one step.
    pub fn step(&mut self, sample: Sample) -> (out: StepOutput)
        requires
            old(self).wf(),
        ensures
            final(self).wf(),
            final(self)@ == session_after(old(self)@, sample),
            out.position.0 == smoothed(old(self)@, sample, 0),
            out.position.1 == smoothed(old(self)@, sample, 1),
            out.position.2 == smoothed(old(self)@, sample, 2),
            out.pointer.0 == screen_coordinate(
                smoothed(old(self)@, sample, 0),
                old(self)@.config.volume.min_x as int,
                old(self)@.config.volume.max_x as int,
                SCREEN_WIDTH as int,
            ),
            out.pointer.1 == screen_coordinate(
                smoothed(old(self)@, sample, 1),
                old(self)@.config.volume.min_y as int,
                old(self)@.config.volume.max_y as int,
                SCREEN_HEIGHT as int,
            ),
            out.strike == if strikes(old(self)@, sample) {
                Some(strike_of(old(self)@, sample))
            } else {
                None
            },
            strictly_ascending(out.expired@),
            forall|p: u8|
                out.expired@.contains(p) <==> sounding_after_gate(
                    old(self)@,
                    sample,
                ).contains_key(p) && is_due(
                    sounding_after_gate(old(self)@, sample)[p],
                    sample.now_ms,
                ),
            out.messages@ == step_messages(old(self)@, sample, out.expired@),
            all_wf(out.messages@),
    {
        proof {
            self.scheduler.lemma_wf();
            self.gesture.lemma_wf();
        }
        let now_ms = sample.now_ms;
        let channel = self.config.midi_channel;
        let position = hand_tracking(sample.position, &mut self.smoother);
        let pointer = map_leap_coordinates_to_screen(position.0, position.1, &self.config.volume);
        let moved = position.0 != self.last_position.0 || position.1 != self.last_position.1
            || position.2 != self.last_position.2;
        let mut messages: Vec<MidiMessage> = Vec::new();
        let mut strike: Option<Strike> = None;
        if gate_open(
            self.last_emission_ms,
            now_ms,
            self.config.base_delay_ms,
            sample.tilt,
            moved,
        ) {
            let program = self.gesture.current_program();
            let (struck, what) = strike_chord(
                &self.config,
                &self.scale,
                &mut self.scheduler,
                program,
                position,
                now_ms,
            );
            messages = struck;
            strike = Some(what);
            self.last_emission_ms = now_ms;
        }
        assert(messages@ =~= strike_part(old(self)@, sample));
        assert(self.scheduler.sounding() =~= sounding_after_gate(old(self)@, sample));
        let ghost struck_sounding = self.scheduler.sounding();
        proof {
            self.scheduler.lemma_wf();
        }
        let expired = self.scheduler.expire_due(now_ms);
        proof {
            assert forall|i: int| 0 <= i < expired@.len() implies valid_data(
                #[trigger] expired@[i],
            ) by {
                assert(expired@.contains(expired@[i]));
                assert(struck_sounding.contains_key(expired@[i]));
            }
        }
        push_note_offs(&mut messages, channel, &expired);
        match self.gesture.on_pinch(sample.pinch, now_ms) {
            Some(mut change) => {
                messages.append(&mut change);
            },
            None => {},
        }
        self.last_position = position;
        assert(messages@ =~= step_messages(old(self)@, sample, expired@));
        assert(self@ =~= session_after(old(self)@, sample));
        StepOutput { position, pointer, strike, expired, messages }
    }
}

/// The rule of the rate gate, step by step: a chord is struck exactly when
/// the smoothed position differs from the one of the step before, on any
/// axis, and the time since the last chord, in thousandths of a millisecond,
/// has reached the base delay times the rate. A hand at rest strikes
/// nothing, however long the wait; a step that strikes leaves the position
/// it struck at and the time of the strike behind for the next one.
pub proof fn lemma_strikes_when_moved_and_due(v: SessionView, sample: Sample)
    ensures
        strikes(v, sample) <==> (smoothed(v, sample, 0) != v.last_position.0 || smoothed(
            v,
            sample,
            1,
        ) != v.last_position.1 || smoothed(v, sample, 2) != v.last_position.2) && elapsed_ms(
            v.last_emission_ms,
            sample.now_ms,
        ) * RATE_UNIT >= v.config.base_delay_ms * emission_rate(sample.tilt),
        !has_moved(v, sample) ==> strike_part(v, sample) == Seq::<MidiMessage>::empty()
            && session_after(v, sample).last_emission_ms == v.last_emission_ms
            && session_after(v, sample).last_position == v.last_position,
        strikes(v, sample) ==> session_after(v, sample).last_emission_ms == sample.now_ms,
        session_after(v, sample).last_position.0 == smoothed(v, sample, 0),
        session_after(v, sample).last_position.1 == smoothed(v, sample, 1),
        session_after(v, sample).last_position.2 == smoothed(v, sample, 2),
{
    lemma_smoothed_is_a_coordinate(v, sample, 0);
    lemma_smoothed_is_a_coordinate(v, sample, 1);
    lemma_smoothed_is_a_coordinate(v, sample, 2);
}

/// A smoothed coordinate is a mean of `i32` coordinates, so it is one itself.
proof fn lemma_smoothed_is_a_coordinate(v: SessionView, sample: Sample, axis: int)
    ensures
        i32::MIN <= smoothed(v, sample, axis) <= i32::MAX,
{
    if sample.position is Some {
        lemma_mean_is_a_coordinate(window_after_sample(v, sample), axis);
    }
}

/// The scale of a session rises throughout.
pub proof fn lemma_session_scale_rises(config: Config, scale: Seq<u8>)
    requires
        is_scale_of(config, scale),
    ensures
        strictly_ascending(scale),
{
    lemma_scale_strictly_ascending(config.base_pitch, minor_intervals(), config.scale_octaves);
}

/// Over a volume that runs from left to right, a hand further to the right
/// never plays a lower note.
pub proof fn lemma_root_note_never_falls(config: Config, scale: Seq<u8>, left: int, right: int)
    requires
        is_scale_of(config, scale),
        config.volume.min_x < config.volume.max_x,
        left <= right,
    ensures
        0 <= root_index_at(config, scale, left) <= root_index_at(config, scale, right)
            < scale.len(),
        root_note_at(config, scale, left) <= root_note_at(config, scale, right),
{
    lemma_session_scale_rises(config, scale);
    lemma_nearest_index_exists(scale, pitch_at(config, scale, left));
    lemma_nearest_index_exists(scale, pitch_at(config, scale, right));
    lemma_linear_map_monotone(
        left,
        right,
        config.volume.min_x as int,
        config.volume.max_x as int,
        scale.len() as int,
        config.base_pitch as int,
    );
    lemma_nearest_note_monotone(
        scale,
        pitch_at(config, scale, left),
        pitch_at(config, scale, right),
    );
}

/// From end to end: while the hand never moves to the left, the notes found
/// under the smoothed hand never fall, from the first sample on and whatever
/// the window. A hand that sweeps from the left edge of the volume to the
/// right one is such a hand.
pub proof fn lemma_rising_hand_plays_rising_notes(
    config: Config,
    scale: Seq<u8>,
    inserted: Seq<Position>,
    earlier: int,
    later: int,
)
    requires
        is_scale_of(config, scale),
        config.volume.min_x < config.volume.max_x,
        never_falls(inserted, 0),
        1 <= earlier <= later <= inserted.len(),
    ensures
        root_note_at(
            config,
            scale,
            axis_mean(
                window_after(inserted.take(earlier), config.moving_average_window as nat),
                0,
            ),
        ) <= root_note_at(
            config,
            scale,
            axis_mean(window_after(inserted.take(later), config.moving_average_window as nat), 0),
        ),
{
    let capacity = config.moving_average_window as nat;
    lemma_mean_never_falls(inserted, capacity, 0, earlier, later);
    lemma_root_note_never_falls(
        config,
        scale,
        axis_mean(window_after(inserted.take(earlier), capacity), 0),
        axis_mean(window_after(inserted.take(later), capacity), 0),
    );
}

/// The session after it has taken the samples one by one, oldest first.
pub open spec fn session_after_all(v: SessionView, samples: Seq<Sample>) -> SessionView
    decreases samples.len(),
{
    if samples.len() == 0 {
        v
    } else {
        session_after(session_after_all(v, samples.drop_last()), samples.last())
    }
}

/// Every sample has a position.
pub open spec fn all_positioned(samples: Seq<Sample>) -> bool {
    forall|i: int| 0 <= i < samples.len() ==> (#[trigger] samples[i]).position is Some
}

/// The positions of the samples.
pub open spec fn positions_of(samples: Seq<Sample>) -> Seq<Position> {
    Seq::new(samples.len(), |i: int| samples[i].position.unwrap())
}

/// Steps change neither the options nor the scale, and the window of a
/// session that has seen only samples with a position is the window of
/// those positions.
pub proof fn lemma_session_window(config: Config, start_ms: u64, samples: Seq<Sample>)
    requires
        all_positioned(samples),
    ensures
        ({
            let v = session_after_all(session_at_start(config, start_ms), samples);
            &&& v.config == config
            &&& v.scale == session_at_start(config, start_ms).scale
            &&& v.window == window_after(
                positions_of(samples),
                config.moving_average_window as nat,
            )
        }),
    decreases samples.len(),
{
    if samples.len() > 0 {
        lemma_session_window(config, start_ms, samples.drop_last());
        assert(positions_of(samples).drop_last() =~= positions_of(samples.drop_last()));
        assert(positions_of(samples).last() == samples.last().position.unwrap());
    }
}

/// From end to end: in a session whose volume runs from left to right, fed
/// with samples of a hand that never moves to the left, the note that a
/// later step finds is never lower than the note that an earlier step found;
/// so the notes that are struck come in the order of the scale. A hand that
/// sweeps from the left edge of the volume to the right one is such a hand.
pub proof fn lemma_sweep_plays_rising_notes(
    config: Config,
    start_ms: u64,
    samples: Seq<Sample>,
    earlier: int,
    later: int,
)
    requires
        config.problem() is None,
        config.volume.min_x < config.volume.max_x,
        all_positioned(samples),
        never_falls(positions_of(samples), 0),
        0 <= earlier <= later < samples.len(),
    ensures
        ({
            let start = session_at_start(config, start_ms);
            let first = strike_of(
                session_after_all(start, samples.take(earlier)),
                samples[earlier],
            );
            let second = strike_of(session_after_all(start, samples.take(later)), samples[later]);
            &&& start.scale.contains(first.note)
            &&& start.scale.contains(second.note)
            &&& first.note <= second.note
        }),
{
    let start = session_at_start(config, start_ms);
    let scale = start.scale;
    let capacity = config.moving_average_window as nat;
    let positions = positions_of(samples);
    assert(is_scale_of(config, scale));
    lemma_session_window(config, start_ms, samples.take(earlier));
    lemma_session_window(config, start_ms, samples.take(later));
    assert(positions_of(samples.take(earlier)) =~= positions.take(earlier));
    assert(positions_of(samples.take(later)) =~= positions.take(later));
    assert(positions.take(earlier + 1).drop_last() =~= positions.take(earlier));
    assert(positions.take(later + 1).drop_last() =~= positions.take(later));
    let at_earlier = session_after_all(start, samples.take(earlier));
    let at_later = session_after_all(start, samples.take(later));
    assert(window_after_sample(at_earlier, samples[earlier]) == window_after(
        positions.take(earlier + 1),
        capacity,
    ));
    assert(window_after_sample(at_later, samples[later]) == window_after(
        positions.take(later + 1),
        capacity,
    ));
    assert(samples[earlier].position is Some && samples[later].position is Some);
    lemma_mean_never_falls(positions, capacity, 0, earlier + 1, later + 1);
    lemma_root_note_never_falls(
        config,
        scale,
        smoothed(at_earlier, samples[earlier], 0),
        smoothed(at_later, samples[later], 0),
    );
}

} // verus!
