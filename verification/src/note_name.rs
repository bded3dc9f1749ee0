//! Names of MIDI pitches, such as `F#2`.

use vstd::prelude::*;
use vstd::string::StringExecFns;

verus! {

/// The name of the pitch class `class`, counted in semitones above C.
pub open spec fn pitch_class_name(class: int) -> Seq<char> {
    if class == 0 {
        "C"@
    } else if class == 1 {
        "C#"@
    } else if class == 2 {
        "D"@
    } else if class == 3 {
        "D#"@
    } else if class == 4 {
        "E"@
    } else if class == 5 {
        "F"@
    } else if class == 6 {
        "F#"@
    } else if class == 7 {
        "G"@
    } else if class == 8 {
        "G#"@
    } else if class == 9 {
        "A"@
    } else if class == 10 {
        "A#"@
    } else {
        "B"@
    }
}

/// The label of the octave with index `index`, counted from the lowest MIDI
/// octave, which is octave -1.
pub open spec fn octave_label(index: int) -> Seq<char> {
    if index == 0 {
        "-1"@
    } else if index == 1 {
        "0"@
    } else if index == 2 {
        "1"@
    } else if index == 3 {
        "2"@
    } else if index == 4 {
        "3"@
    } else if index == 5 {
        "4"@
    } else if index == 6 {
        "5"@
    } else if index == 7 {
        "6"@
    } else if index == 8 {
        "7"@
    } else if index == 9 {
        "8"@
    } else {
        "9"@
    }
}

/// The name of a MIDI pitch: its pitch class followed by its octave, where
/// pitch 0 is the C of octave -1 and pitch 60 is C4.
pub open spec fn note_name(midi_value: u8) -> Seq<char> {
    pitch_class_name(midi_value as int % 12) + octave_label(midi_value as int / 12)
}

/// Picks the text of [`pitch_class_name`].
fn class_text(class: u8) -> (text: &'static str)
    ensures
        text@ == pitch_class_name(class as int),
{
    match class {
        0 => "C",
        1 => "C#",
        2 => "D",
        3 => "D#",
        4 => "E",
        5 => "F",
        6 => "F#",
        7 => "G",
        8 => "G#",
        9 => "A",
        10 => "A#",
        _ => "B",
    }
}

/// Picks the text of [`octave_label`].
fn octave_text(index: u8) -> (text: &'static str)
    ensures
        text@ == octave_label(index as int),
{
    match index {
        0 => "-1",
        1 => "0",
        2 => "1",
        3 => "2",
        4 => "3",
        5 => "4",
        6 => "5",
        7 => "6",
        8 => "7",
        9 => "8",
        _ => "9",
    }
}

/// Names a MIDI pitch; a value above the highest pitch has no name.
pub fn midi_to_note_name(midi_value: u8) -> (name: Option<String>)
    ensures
        midi_value <= 127 ==> name is Some && name.unwrap()@ == note_name(midi_value),
        midi_value > 127 ==> name is None,
{
    if midi_value < 128 {
        let mut full_note_name = String::from_str(class_text(midi_value % 12));
        full_note_name.append(octave_text(midi_value / 12));
        Some(full_note_name)
    } else {
        None
    }
}

} // verus!
