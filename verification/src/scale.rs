//! Building a scale, snapping a pitch to it, and mapping a position onto the
//! MIDI value range.

use vstd::prelude::*;
use crate::config::ConfigError;

verus! {

/// Root of the default scale: F#2.
pub const BASE_NOTE: u8 = 42;

/// Semitones in an octave.
pub const OCTAVE_SIZE: u8 = 12;

/// Scale degrees in an octave.
pub const DEGREES_PER_OCTAVE: usize = 7;

/// Highest MIDI pitch.
pub const MAX_PITCH: u8 = 127;

/// Semitone offsets of the natural minor scale with a raised sixth, the
/// pattern the instrument plays by default.
pub open spec fn minor_intervals() -> Seq<u8> {
    seq![0u8, 2u8, 3u8, 5u8, 7u8, 9u8, 10u8]
}

/// The pitch at position `i` of a scale: degree `i % 7` of octave `i / 7`
/// above `base`.
pub open spec fn scale_pitch(base: u8, intervals: Seq<u8>, i: int) -> int {
    base + OCTAVE_SIZE * (i / 7) + intervals[i % 7]
}

/// Every pitch of the scale is a MIDI pitch.
pub open spec fn scale_fits(base: u8, intervals: Seq<u8>, octaves: u8) -> bool {
    forall|i: int| 0 <= i < 7 * octaves ==> #[trigger] scale_pitch(base, intervals, i) <= MAX_PITCH
}

/// The scale over `octaves` octaves: octave by octave, and within an octave
/// in the order of `intervals`.
pub open spec fn scale_of(base: u8, intervals: Seq<u8>, octaves: u8) -> Seq<u8> {
    Seq::new((7 * octaves) as nat, |i: int| scale_pitch(base, intervals, i) as u8)
}

/// Each value is greater than the one before it.
pub open spec fn strictly_ascending(s: Seq<u8>) -> bool {
    forall|i: int, j: int| 0 <= i < j < s.len() ==> s[i] < s[j]
}

/// Builds the scale of `octaves` octaves above `base_pitch` with the given
/// interval pattern. Fails when a pitch would leave the MIDI range.
pub fn build_scale(base_pitch: u8, intervals: &[u8; 7], octaves: u8) -> (result: Result<
    Vec<u8>,
    ConfigError,
>)
    ensures
        scale_fits(base_pitch, intervals@, octaves) ==> result is Ok && result.unwrap()@
            == scale_of(base_pitch, intervals@, octaves),
        !scale_fits(base_pitch, intervals@, octaves) ==> result == Err::<Vec<u8>, ConfigError>(
            ConfigError::PitchOutOfRange,
        ),
{
    let mut scale: Vec<u8> = Vec::new();
    let mut octave: u8 = 0;
    while octave < octaves
        invariant
            octave <= octaves,
            scale@.len() == 7 * octave,
            forall|i: int|
                0 <= i < 7 * octave ==> #[trigger] scale_pitch(base_pitch, intervals@, i)
                    <= MAX_PITCH,
            forall|i: int|
                0 <= i < 7 * octave ==> scale@[i] == scale_pitch(base_pitch, intervals@, i),
        decreases octaves - octave,
    {
        let mut degree: usize = 0;
        while degree < DEGREES_PER_OCTAVE
            invariant
                degree <= 7,
                octave < octaves,
                scale@.len() == 7 * octave + degree,
                forall|i: int|
                    0 <= i < 7 * octave + degree ==> #[trigger] scale_pitch(
                        base_pitch,
                        intervals@,
                        i,
                    ) <= MAX_PITCH,
                forall|i: int|
                    0 <= i < 7 * octave + degree ==> scale@[i] == scale_pitch(
                        base_pitch,
                        intervals@,
                        i,
                    ),
            decreases 7 - degree,
        {
            assert(OCTAVE_SIZE * octave <= 12 * 255) by (nonlinear_arith)
                requires
                    OCTAVE_SIZE == 12,
                    octave <= 255,
            ;
            let pitch: u32 = base_pitch as u32 + OCTAVE_SIZE as u32 * octave as u32
                + intervals[degree] as u32;
            let ghost at: int = 7 * octave + degree;
            assert(at / 7 == octave && at % 7 == degree);
            assert(pitch == scale_pitch(base_pitch, intervals@, at));
            if pitch > MAX_PITCH as u32 {
                return Err(ConfigError::PitchOutOfRange);
            }
            scale.push(pitch as u8);
            degree = degree + 1;
        }
        octave = octave + 1;
    }
    assert(scale@ =~= scale_of(base_pitch, intervals@, octaves));
    Ok(scale)
}

/// Builds the default scale: the minor pattern above [`BASE_NOTE`].
pub fn generate_minor_scale(octaves: u8) -> (result: Result<Vec<u8>, ConfigError>)
    ensures
        scale_fits(BASE_NOTE, minor_intervals(), octaves) ==> result is Ok && result.unwrap()@
            == scale_of(BASE_NOTE, minor_intervals(), octaves),
        !scale_fits(BASE_NOTE, minor_intervals(), octaves) ==> result == Err::<
            Vec<u8>,
            ConfigError,
        >(ConfigError::PitchOutOfRange),
{
    let intervals: [u8; 7] = [0, 2, 3, 5, 7, 9, 10];
    assert(intervals@ =~= minor_intervals());
    build_scale(BASE_NOTE, &intervals, octaves)
}

/// How far apart two pitches are, in semitones.
pub open spec fn distance(pitch: u8, note: u8) -> int {
    if pitch >= note {
        pitch - note
    } else {
        note - pitch
    }
}

/// `k` is the position of the scale member closest to `pitch`, and the first
/// such position if several members are equally close.
pub open spec fn is_nearest_index(scale: Seq<u8>, pitch: u8, k: int) -> bool {
    &&& 0 <= k < scale.len()
    &&& forall|i: int|
        0 <= i < scale.len() ==> distance(pitch, scale[k]) <= distance(pitch, #[trigger] scale[i])
    &&& forall|i: int| 0 <= i < k ==> distance(pitch, scale[k]) < distance(pitch, #[trigger] scale[i])
}

/// The position that [`is_nearest_index`] singles out.
pub open spec fn nearest_index(scale: Seq<u8>, pitch: u8) -> int {
    choose|k: int| is_nearest_index(scale, pitch, k)
}

/// The scale member closest to `pitch`.
pub open spec fn nearest_note(scale: Seq<u8>, pitch: u8) -> u8 {
    scale[nearest_index(scale, pitch)]
}

/// At most one position is the nearest one.
pub proof fn lemma_nearest_index_unique(scale: Seq<u8>, pitch: u8, a: int, b: int)
    requires
        is_nearest_index(scale, pitch, a),
        is_nearest_index(scale, pitch, b),
    ensures
        a == b,
{
    if a < b {
        assert(distance(pitch, scale[b]) < distance(pitch, scale[a]));
    } else if b < a {
        assert(distance(pitch, scale[a]) < distance(pitch, scale[b]));
    }
}

/// Finds the position of the scale member closest to `pitch`; the first one
/// wins a tie.
pub fn nearest_index_in_scale(pitch: u8, scale: &Vec<u8>) -> (k: usize)
    requires
        scale.len() > 0,
    ensures
        is_nearest_index(scale@, pitch, k as int),
        k == nearest_index(scale@, pitch),
{
    let mut best: usize = 0;
    let mut min_distance: u8 = if pitch >= scale[0] {
        pitch - scale[0]
    } else {
        scale[0] - pitch
    };
    let mut i: usize = 1;
    while i < scale.len()
        invariant
            1 <= i <= scale.len(),
            best < i,
            min_distance == distance(pitch, scale@[best as int]),
            forall|j: int| 0 <= j < i ==> min_distance <= distance(pitch, #[trigger] scale@[j]),
            forall|j: int| 0 <= j < best ==> min_distance < distance(pitch, #[trigger] scale@[j]),
        decreases scale.len() - i,
    {
        let note = scale[i];
        let d: u8 = if pitch >= note {
            pitch - note
        } else {
            note - pitch
        };
        if d < min_distance {
            min_distance = d;
            best = i;
        }
        i = i + 1;
    }
    proof {
        let k = nearest_index(scale@, pitch);
        assert(is_nearest_index(scale@, pitch, best as int));
        lemma_nearest_index_unique(scale@, pitch, best as int, k);
    }
    best
}

/// Snaps `pitch` to the closest member of the scale; of two equally close
/// members the earlier one is returned.
pub fn find_nearest_note_in_scale(pitch: u8, scale: &Vec<u8>) -> (note: u8)
    requires
        scale.len() > 0,
    ensures
        note == nearest_note(scale@, pitch),
{
    let k = nearest_index_in_scale(pitch, scale);
    scale[k]
}

/// The integer nearest to the fraction `n / d`; a fraction exactly halfway
/// between two integers goes to the greater one. `d` is not zero.
pub open spec fn round_half_up(n: int, d: int) -> int {
    if d > 0 {
        (2 * n + d) / (2 * d)
    } else {
        (-2 * n - d) / (-2 * d)
    }
}

/// Limits a value to what a MIDI data byte can carry.
pub open spec fn clamp_to_data(x: int) -> int {
    if x < 0 {
        0
    } else if x > MAX_PITCH {
        MAX_PITCH as int
    } else {
        x
    }
}

/// The affine map that takes `source_min` to `base` and `source_max` to
/// `base + dest_range`, applied to `value`, rounded to the nearest integer and
/// limited to `0..=127`. `source_min` and `source_max` differ.
///
/// Written over one denominator: the exact image of `value` is
/// `((value - source_min) * dest_range + base * width) / width` with
/// `width = source_max - source_min`. Rounding halves up or away from zero
/// gives the same result here, as every negative image is limited to 0.
pub open spec fn linear_map(
    value: int,
    source_min: int,
    source_max: int,
    dest_range: int,
    base: int,
) -> int {
    let width = source_max - source_min;
    clamp_to_data(round_half_up((value - source_min) * dest_range + base * width, width))
}

/// Maps `value` from the source interval onto `dest_range` steps above
/// `base_note`; see [`linear_map`].
pub fn map_to_midi(value: i32, leap_min: i32, leap_max: i32, midi_range: u32, base_note: u8) -> (out:
    u8)
    requires
        leap_min != leap_max,
    ensures
        out == linear_map(
            value as int,
            leap_min as int,
            leap_max as int,
            midi_range as int,
            base_note as int,
        ),
{
    let width: i128 = leap_max as i128 - leap_min as i128;
    let offset: i128 = value as i128 - leap_min as i128;
    assert(-0x1_0000_0000 * 0x1_0000_0000 <= offset * midi_range <= 0x1_0000_0000 * 0x1_0000_0000)
        by (nonlinear_arith)
        requires
            -0x1_0000_0000 <= offset <= 0x1_0000_0000,
            0 <= midi_range <= 0x1_0000_0000,
    ;
    assert(-0x100 * 0x1_0000_0000 <= base_note * width <= 0x100 * 0x1_0000_0000)
        by (nonlinear_arith)
        requires
            -0x1_0000_0000 <= width <= 0x1_0000_0000,
            0 <= base_note <= 0x100,
    ;
    let image: i128 = offset * (midi_range as i128) + (base_note as i128) * width;
    let (numerator, denominator): (i128, i128) = if width > 0 {
        (2 * image + width, 2 * width)
    } else {
        (-2 * image - width, -2 * width)
    };
    assert(denominator > 0);
    assert(round_half_up(image as int, width as int) == numerator / denominator);
    if numerator < 0 {
        assert(numerator / denominator < 0) by (nonlinear_arith)
            requires
                numerator < 0,
                denominator > 0,
        ;
        return 0;
    }
    let rounded: i128 = numerator / denominator;
    assert(rounded >= 0) by (nonlinear_arith)
        requires
            rounded == numerator / denominator,
            numerator >= 0,
            denominator > 0,
    ;
    if rounded > MAX_PITCH as i128 {
        MAX_PITCH
    } else {
        rounded as u8
    }
}

/// A pattern of offsets that rise and stay within one octave gives a scale
/// that rises throughout, so no pitch occurs twice, and that holds seven
/// pitches for each octave.
pub proof fn lemma_scale_strictly_ascending(base: u8, intervals: Seq<u8>, octaves: u8)
    requires
        intervals.len() == 7,
        strictly_ascending(intervals),
        intervals[6] < OCTAVE_SIZE,
        scale_fits(base, intervals, octaves),
    ensures
        scale_of(base, intervals, octaves).len() == 7 * octaves,
        strictly_ascending(scale_of(base, intervals, octaves)),
{
    let scale = scale_of(base, intervals, octaves);
    assert forall|i: int, j: int| 0 <= i < j < scale.len() implies scale[i] < scale[j] by {
        assert(scale_pitch(base, intervals, i) <= MAX_PITCH);
        assert(scale_pitch(base, intervals, j) <= MAX_PITCH);
        if i / 7 == j / 7 {
            assert(intervals[i % 7] < intervals[j % 7]);
        } else {
            assert(i / 7 < j / 7);
            if j % 7 < 6 {
                assert(intervals[j % 7] < intervals[6]);
            }
            if i % 7 < 6 {
                assert(intervals[i % 7] < intervals[6]);
            }
        }
    }
}

/// Rounding picks an integer at most half a unit away from the fraction.
pub proof fn lemma_round_half_up_is_nearest(n: int, d: int)
    requires
        d != 0,
    ensures
        ({
            let r = round_half_up(n, d);
            if d > 0 {
                -d <= 2 * (n - r * d) < d
            } else {
                d < 2 * (n - r * d) <= -d
            }
        }),
{
    let r = round_half_up(n, d);
    if d > 0 {
        assert(-d <= 2 * (n - r * d) < d) by (nonlinear_arith)
            requires
                d > 0,
                r == (2 * n + d) / (2 * d),
        ;
    } else {
        assert(d < 2 * (n - r * d) <= -d) by (nonlinear_arith)
            requires
                d < 0,
                r == (-2 * n - d) / (-2 * d),
        ;
    }
}

/// A whole number of units rounds to itself.
proof fn lemma_round_half_up_exact(m: int, d: int)
    requires
        d != 0,
    ensures
        round_half_up(m * d, d) == m,
{
    if d > 0 {
        assert((2 * (m * d) + d) / (2 * d) == m) by (nonlinear_arith)
            requires
                d > 0,
        ;
    } else {
        assert((-2 * (m * d) - d) / (-2 * d) == m) by (nonlinear_arith)
            requires
                d < 0,
        ;
    }
}

/// The ends of the source interval map to the ends of the destination:
/// `source_min` to the base and `source_max` to the base plus the range, each
/// limited to `0..=127`.
pub proof fn lemma_linear_map_endpoints(source_min: int, source_max: int, dest_range: int, base: int)
    requires
        source_min != source_max,
    ensures
        linear_map(source_min, source_min, source_max, dest_range, base) == clamp_to_data(base),
        linear_map(source_max, source_min, source_max, dest_range, base) == clamp_to_data(
            base + dest_range,
        ),
{
    let width = source_max - source_min;
    lemma_round_half_up_exact(base, width);
    lemma_round_half_up_exact(base + dest_range, width);
    assert((source_min - source_min) * dest_range + base * width == base * width)
        by (nonlinear_arith);
    assert((source_max - source_min) * dest_range + base * width == (base + dest_range) * width)
        by (nonlinear_arith)
        requires
            width == source_max - source_min,
    ;
}

/// Over an interval that runs upwards and a range that is not negative, a
/// greater value never maps to a smaller result.
pub proof fn lemma_linear_map_monotone(
    low: int,
    high: int,
    source_min: int,
    source_max: int,
    dest_range: int,
    base: int,
)
    requires
        source_min < source_max,
        dest_range >= 0,
        low <= high,
    ensures
        linear_map(low, source_min, source_max, dest_range, base) <= linear_map(
            high,
            source_min,
            source_max,
            dest_range,
            base,
        ),
{
    let width = source_max - source_min;
    let image_low = (low - source_min) * dest_range + base * width;
    let image_high = (high - source_min) * dest_range + base * width;
    assert(image_low <= image_high) by (nonlinear_arith)
        requires
            low <= high,
            dest_range >= 0,
            image_low == (low - source_min) * dest_range + base * width,
            image_high == (high - source_min) * dest_range + base * width,
    ;
    assert((2 * image_low + width) / (2 * width) <= (2 * image_high + width) / (2 * width))
        by (nonlinear_arith)
        requires
            image_low <= image_high,
            width > 0,
    ;
}

/// A non-empty prefix of a scale has a nearest position.
proof fn lemma_nearest_index_in_prefix(scale: Seq<u8>, pitch: u8, n: int)
    requires
        1 <= n <= scale.len(),
    ensures
        exists|k: int| is_nearest_index(scale.take(n), pitch, k),
    decreases n,
{
    let prefix = scale.take(n);
    if n == 1 {
        assert(is_nearest_index(prefix, pitch, 0));
    } else {
        lemma_nearest_index_in_prefix(scale, pitch, n - 1);
        let shorter = scale.take(n - 1);
        let before = choose|k: int| is_nearest_index(shorter, pitch, k);
        assert(forall|i: int| 0 <= i < n - 1 ==> shorter[i] == prefix[i]);
        if distance(pitch, prefix[n - 1]) < distance(pitch, prefix[before]) {
            assert forall|i: int| 0 <= i < prefix.len() implies distance(pitch, prefix[n - 1])
                <= distance(pitch, #[trigger] prefix[i]) by {
                if i < n - 1 {
                    assert(distance(pitch, shorter[before]) <= distance(pitch, shorter[i]));
                }
            }
            assert forall|i: int| 0 <= i < n - 1 implies distance(pitch, prefix[n - 1]) < distance(
                pitch,
                #[trigger] prefix[i],
            ) by {
                assert(distance(pitch, shorter[before]) <= distance(pitch, shorter[i]));
            }
            assert(is_nearest_index(prefix, pitch, n - 1));
        } else {
            assert forall|i: int| 0 <= i < prefix.len() implies distance(pitch, prefix[before])
                <= distance(pitch, #[trigger] prefix[i]) by {
                if i < n - 1 {
                    assert(distance(pitch, shorter[before]) <= distance(pitch, shorter[i]));
                }
            }
            assert forall|i: int| 0 <= i < before implies distance(pitch, prefix[before])
                < distance(pitch, #[trigger] prefix[i]) by {
                assert(distance(pitch, shorter[before]) < distance(pitch, shorter[i]));
            }
            assert(is_nearest_index(prefix, pitch, before));
        }
    }
}

/// A scale that is not empty has a nearest member for every pitch: it lies
/// in the scale and no member is closer.
pub proof fn lemma_nearest_index_exists(scale: Seq<u8>, pitch: u8)
    requires
        scale.len() > 0,
    ensures
        is_nearest_index(scale, pitch, nearest_index(scale, pitch)),
{
    lemma_nearest_index_in_prefix(scale, pitch, scale.len() as int);
    assert(scale.take(scale.len() as int) =~= scale);
}

/// When two members of a rising scale are equally close to the pitch and no
/// member is closer, the lower of the two is the nearest note.
pub proof fn lemma_tie_goes_to_lower_note(scale: Seq<u8>, pitch: u8, lower: int, upper: int)
    requires
        strictly_ascending(scale),
        0 <= lower < upper < scale.len(),
        distance(pitch, scale[lower]) == distance(pitch, scale[upper]),
        forall|i: int|
            0 <= i < scale.len() ==> distance(pitch, scale[lower]) <= distance(
                pitch,
                #[trigger] scale[i],
            ),
    ensures
        nearest_index(scale, pitch) == lower,
        nearest_note(scale, pitch) == scale[lower],
{
    lemma_nearest_index_exists(scale, pitch);
    let k = nearest_index(scale, pitch);
    assert(distance(pitch, scale[k]) <= distance(pitch, scale[lower]));
    assert(distance(pitch, scale[lower]) <= distance(pitch, scale[k]));
    if k < lower {
        assert(scale[k] < scale[lower]);
        assert(scale[lower] < scale[upper]);
    } else if lower < k {
        assert(distance(pitch, scale[k]) < distance(pitch, scale[lower]));
    }
}

/// Over a rising scale, a higher pitch never snaps to a lower note.
pub proof fn lemma_nearest_note_monotone(scale: Seq<u8>, low: u8, high: u8)
    requires
        strictly_ascending(scale),
        scale.len() > 0,
        low <= high,
    ensures
        nearest_index(scale, low) <= nearest_index(scale, high),
        nearest_note(scale, low) <= nearest_note(scale, high),
{
    lemma_nearest_index_exists(scale, low);
    lemma_nearest_index_exists(scale, high);
    let a = nearest_index(scale, low);
    let b = nearest_index(scale, high);
    if b < a {
        assert(scale[b] < scale[a]);
        assert(distance(low, scale[a]) < distance(low, scale[b]));
        assert(distance(high, scale[b]) <= distance(high, scale[a]));
        assert(false);
    }
    if a < b {
        assert(scale[a] < scale[b]);
    }
}

} // verus!
