//! The chord voiced above a scale position.

use vstd::prelude::*;

verus! {

/// Notes in a chord.
pub const CHORD_SIZE: usize = 4;

/// Steps within the scale, counted from the root, of each chord note in the
/// order in which the notes are played: the seventh first, then root, third
/// and fifth.
pub open spec fn chord_offsets() -> Seq<int> {
    seq![6, 0, 2, 4]
}

/// The scale position reached from `root` by `offset` steps; a step past the
/// end of the scale lands on its last position.
pub open spec fn chord_position(root: int, offset: int, len: int) -> int {
    if root + offset < len {
        root + offset
    } else {
        len - 1
    }
}

/// The chord on scale position `root`, in playing order.
pub open spec fn chord_of(root: int, scale: Seq<u8>) -> Seq<u8> {
    Seq::new(
        CHORD_SIZE as nat,
        |j: int| scale[chord_position(root, chord_offsets()[j], scale.len() as int)],
    )
}

/// Looks up the chord note `offset` steps above `root_index`.
fn chord_note(root_index: usize, offset: usize, scale: &Vec<u8>) -> (note: u8)
    requires
        scale.len() > 0,
    ensures
        note == scale@[chord_position(root_index as int, offset as int, scale.len() as int)],
{
    let last = scale.len() - 1;
    if root_index <= last && offset <= last - root_index {
        scale[root_index + offset]
    } else {
        scale[last]
    }
}

/// Builds the four-note chord on the scale position `root_index`. Notes that
/// would lie beyond the top of the scale are replaced by its highest note.
pub fn build_chord(root_index: usize, scale: &Vec<u8>) -> (chord: Vec<u8>)
    requires
        scale.len() > 0,
    ensures
        chord@ == chord_of(root_index as int, scale@),
{
    let mut chord: Vec<u8> = Vec::new();
    chord.push(chord_note(root_index, 6, scale));
    chord.push(chord_note(root_index, 0, scale));
    chord.push(chord_note(root_index, 2, scale));
    chord.push(chord_note(root_index, 4, scale));
    assert(chord@ =~= chord_of(root_index as int, scale@));
    chord
}

/// Every chord note is a member of the scale, and a chord that fits below
/// the top of the scale is made of the seventh, root, third and fifth steps
/// above its root.
pub proof fn lemma_chord_notes_in_scale(root: int, scale: Seq<u8>)
    requires
        scale.len() > 0,
        0 <= root,
    ensures
        chord_of(root, scale).len() == CHORD_SIZE,
        forall|j: int|
            0 <= j < CHORD_SIZE ==> scale.contains(#[trigger] chord_of(root, scale)[j]),
        root + 6 < scale.len() ==> chord_of(root, scale) == seq![
            scale[root + 6],
            scale[root],
            scale[root + 2],
            scale[root + 4],
        ],
{
    let chord = chord_of(root, scale);
    assert forall|j: int| 0 <= j < CHORD_SIZE implies scale.contains(#[trigger] chord[j]) by {
        let at = chord_position(root, chord_offsets()[j], scale.len() as int);
        assert(0 <= at < scale.len());
        assert(scale[at] == chord[j]);
    }
    if root + 6 < scale.len() {
        assert(chord =~= seq![scale[root + 6], scale[root], scale[root + 2], scale[root + 4]]);
    }
}

} // verus!
