//! MIDI channel-voice messages and their wire encoding.
//!
//! The rest of the crate decides *which* messages leave the instrument and in
//! what order; this module fixes what each one looks like on the wire.

use vstd::prelude::*;

verus! {

/// Status nibble of a note-off message.
pub const NOTE_OFF_STATUS: u8 = 0x80;

/// Status nibble of a note-on message.
pub const NOTE_ON_STATUS: u8 = 0x90;

/// Status nibble of a control-change message.
pub const CONTROL_CHANGE_STATUS: u8 = 0xB0;

/// Status nibble of a program-change message.
pub const PROGRAM_CHANGE_STATUS: u8 = 0xC0;

/// Largest value a MIDI data byte (pitch, velocity, controller, program) can carry.
pub const DATA_MAX: u8 = 127;

/// Number of pitches silenced before an instrument switch.
pub const SILENCED_PITCHES: u8 = 127;

/// Controller number of the "all notes off" reset sent before a program change.
pub const ALL_NOTES_OFF_CONTROLLER: u8 = 123;

/// A channel-voice message. Channels are numbered from 1 to 16, as musicians
/// count them; the wire encoding subtracts one.
#[derive(Clone, Copy, Debug, PartialEq, Eq, Structural)]
pub enum MidiMessage {
    NoteOff { channel: u8, pitch: u8, velocity: u8 },
    NoteOn { channel: u8, pitch: u8, velocity: u8 },
    ControlChange { channel: u8, controller: u8, value: u8 },
    ProgramChange { channel: u8, program: u8 },
}

/// A channel number that can be encoded in the low nibble of a status byte.
pub open spec fn valid_channel(channel: u8) -> bool {
    1 <= channel <= 16
}

/// A value that fits the seven bits of a data byte.
pub open spec fn valid_data(value: u8) -> bool {
    value <= DATA_MAX
}

/// The status byte for a message kind on a channel: the kind in the high
/// nibble, the zero-based channel in the low one.
pub open spec fn status_byte(kind: u8, channel: u8) -> u8 {
    kind | ((channel - 1) as u8)
}

impl MidiMessage {
    /// The channel the message is addressed to.
    pub open spec fn channel(self) -> u8 {
        match self {
            MidiMessage::NoteOff { channel, .. } => channel,
            MidiMessage::NoteOn { channel, .. } => channel,
            MidiMessage::ControlChange { channel, .. } => channel,
            MidiMessage::ProgramChange { channel, .. } => channel,
        }
    }

    /// The channel is encodable and every data field fits in seven bits.
    pub open spec fn wf(self) -> bool {
        match self {
            MidiMessage::NoteOff { channel, pitch, velocity } => valid_channel(channel)
                && valid_data(pitch) && valid_data(velocity),
            MidiMessage::NoteOn { channel, pitch, velocity } => valid_channel(channel)
                && valid_data(pitch) && valid_data(velocity),
            MidiMessage::ControlChange { channel, controller, value } => valid_channel(channel)
                && valid_data(controller) && valid_data(value),
            MidiMessage::ProgramChange { channel, program } => valid_channel(channel)
                && valid_data(program),
        }
    }

    /// The bytes that go on the wire for this message.
    pub open spec fn bytes(self) -> Seq<u8> {
        match self {
            MidiMessage::NoteOff { channel, pitch, velocity } => seq![
                status_byte(NOTE_OFF_STATUS, channel),
                pitch,
                velocity,
            ],
            MidiMessage::NoteOn { channel, pitch, velocity } => seq![
                status_byte(NOTE_ON_STATUS, channel),
                pitch,
                velocity,
            ],
            MidiMessage::ControlChange { channel, controller, value } => seq![
                status_byte(CONTROL_CHANGE_STATUS, channel),
                controller,
                value,
            ],
            MidiMessage::ProgramChange { channel, program } => seq![
                status_byte(PROGRAM_CHANGE_STATUS, channel),
                program,
            ],
        }
    }

    /// Whether the message can be encoded: see [`MidiMessage::wf`].
    pub fn is_well_formed(&self) -> (ok: bool)
        ensures
            ok == self.wf(),
    {
        match *self {
            MidiMessage::NoteOff { channel, pitch, velocity } => 1 <= channel && channel <= 16
                && pitch <= DATA_MAX && velocity <= DATA_MAX,
            MidiMessage::NoteOn { channel, pitch, velocity } => 1 <= channel && channel <= 16
                && pitch <= DATA_MAX && velocity <= DATA_MAX,
            MidiMessage::ControlChange { channel, controller, value } => 1 <= channel && channel
                <= 16 && controller <= DATA_MAX && value <= DATA_MAX,
            MidiMessage::ProgramChange { channel, program } => 1 <= channel && channel <= 16
                && program <= DATA_MAX,
        }
    }

    /// Encodes the message for the wire: status byte first, then the data bytes.
    pub fn to_bytes(&self) -> (out: Vec<u8>)
        requires
            self.wf(),
        ensures
            out@ == self.bytes(),
    {
        let mut out: Vec<u8> = Vec::new();
        match *self {
            MidiMessage::NoteOff { channel, pitch, velocity } => {
                out.push(NOTE_OFF_STATUS | (channel - 1));
                out.push(pitch);
                out.push(velocity);
            },
            MidiMessage::NoteOn { channel, pitch, velocity } => {
                out.push(NOTE_ON_STATUS | (channel - 1));
                out.push(pitch);
                out.push(velocity);
            },
            MidiMessage::ControlChange { channel, controller, value } => {
                out.push(CONTROL_CHANGE_STATUS | (channel - 1));
                out.push(controller);
                out.push(value);
            },
            MidiMessage::ProgramChange { channel, program } => {
                out.push(PROGRAM_CHANGE_STATUS | (channel - 1));
                out.push(program);
            },
        }
        out
    }
}

/// Every message of the sequence is well formed.
pub open spec fn all_wf(messages: Seq<MidiMessage>) -> bool {
    forall|i: int| 0 <= i < messages.len() ==> (#[trigger] messages[i]).wf()
}

/// The messages of a clean instrument switch: a note-off for each of the
/// pitches `0..SILENCED_PITCHES`, then the all-notes-off controller, then the
/// program change itself.
pub open spec fn instrument_change(channel: u8, program: u8) -> Seq<MidiMessage> {
    Seq::new(
        SILENCED_PITCHES as nat,
        |i: int| MidiMessage::NoteOff { channel, pitch: i as u8, velocity: 0 },
    ).push(
        MidiMessage::ControlChange { channel, controller: ALL_NOTES_OFF_CONTROLLER, value: 0 },
    ).push(MidiMessage::ProgramChange { channel, program })
}

/// Builds the message sequence that switches `channel` to `program`.
pub fn change_instrument(channel: u8, program: u8) -> (messages: Vec<MidiMessage>)
    requires
        valid_channel(channel),
        valid_data(program),
    ensures
        messages@ == instrument_change(channel, program),
        all_wf(messages@),
{
    let mut messages: Vec<MidiMessage> = Vec::new();
    let mut note: u8 = 0;
    while note < SILENCED_PITCHES
        invariant
            note <= SILENCED_PITCHES,
            messages@ == Seq::new(
                note as nat,
                |i: int| MidiMessage::NoteOff { channel, pitch: i as u8, velocity: 0 },
            ),
        decreases SILENCED_PITCHES - note,
    {
        messages.push(MidiMessage::NoteOff { channel, pitch: note, velocity: 0 });
        note = note + 1;
    }
    messages.push(
        MidiMessage::ControlChange { channel, controller: ALL_NOTES_OFF_CONTROLLER, value: 0 },
    );
    messages.push(MidiMessage::ProgramChange { channel, program });
    messages
}

/// On the wire a status byte has its top bit set and keeps the message kind
/// in its high nibble, whatever the channel; data bytes have the top bit clear.
pub proof fn lemma_status_byte_layout(kind: u8, channel: u8)
    requires
        valid_channel(channel),
        kind == NOTE_OFF_STATUS || kind == NOTE_ON_STATUS || kind == CONTROL_CHANGE_STATUS || kind
            == PROGRAM_CHANGE_STATUS,
    ensures
        status_byte(kind, channel) == kind + (channel - 1),
        status_byte(kind, channel) & 0xF0 == kind,
        status_byte(kind, channel) & 0x0F == channel - 1,
        status_byte(kind, channel) >= 0x80,
{
    let low: u8 = (channel - 1) as u8;
    assert(low < 16);
    assert((kind == 0x80u8 || kind == 0x90u8 || kind == 0xB0u8 || kind == 0xC0u8) && low < 16
        ==> (kind | low) == kind + low && (kind | low) & 0xF0 == kind && (kind | low) & 0x0F
        == low && (kind | low) >= 0x80) by (bit_vector);
}

} // verus!
