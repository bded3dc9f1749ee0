use gesture_midi::chord::build_chord;
use gesture_midi::config::ConfigError;
use gesture_midi::scale::{
    build_scale, find_nearest_note_in_scale, generate_minor_scale, map_to_midi,
    nearest_index_in_scale,
};

const MINOR: [u8; 7] = [0, 2, 3, 5, 7, 9, 10];

fn three_octaves() -> Vec<u8> {
    build_scale(42, &MINOR, 3).unwrap()
}

#[test]
fn scale_has_twenty_one_rising_pitches() {
    let scale = three_octaves();
    assert_eq!(scale.len(), 21);
    assert_eq!(scale[0], 42);
    assert_eq!(scale[20], 76);
    for i in 1..scale.len() {
        assert!(scale[i - 1] < scale[i]);
    }
}

#[test]
fn scale_lists_each_octave_in_pattern_order() {
    let scale = three_octaves();
    assert_eq!(
        scale,
        vec![
            42, 44, 45, 47, 49, 51, 52, 54, 56, 57, 59, 61, 63, 64, 66, 68, 69, 71, 73, 75, 76
        ]
    );
}

#[test]
fn minor_scale_is_the_default_pattern_on_the_default_root() {
    assert_eq!(generate_minor_scale(3), Ok(three_octaves()));
    assert_eq!(generate_minor_scale(1), Ok(vec![42, 44, 45, 47, 49, 51, 52]));
}

#[test]
fn scale_of_no_octaves_is_empty() {
    assert_eq!(build_scale(42, &MINOR, 0), Ok(vec![]));
}

#[test]
fn scale_that_leaves_the_pitch_range_is_refused() {
    assert_eq!(build_scale(120, &MINOR, 1), Err(ConfigError::PitchOutOfRange));
    assert_eq!(build_scale(117, &MINOR, 1), Ok(vec![117, 119, 120, 122, 124, 126, 127]));
    assert_eq!(build_scale(118, &MINOR, 1), Err(ConfigError::PitchOutOfRange));
    assert_eq!(generate_minor_scale(7).map(|s| s.len()), Ok(49));
    assert_eq!(generate_minor_scale(8), Err(ConfigError::PitchOutOfRange));
    assert_eq!(build_scale(255, &[0, 0, 0, 0, 0, 0, 255], 255), Err(ConfigError::PitchOutOfRange));
}

#[test]
fn nearest_note_is_the_single_closest() {
    let scale = three_octaves();
    assert_eq!(find_nearest_note_in_scale(48, &scale), 47);
    assert_eq!(find_nearest_note_in_scale(46, &scale), 45);
    assert_eq!(find_nearest_note_in_scale(52, &scale), 52);
    assert_eq!(find_nearest_note_in_scale(0, &scale), 42);
    assert_eq!(find_nearest_note_in_scale(255, &scale), 76);
}

#[test]
fn nearest_note_on_a_midpoint_is_the_lower_one() {
    let scale = three_octaves();
    assert_eq!(find_nearest_note_in_scale(50, &scale), 49);
    assert_eq!(find_nearest_note_in_scale(43, &scale), 42);
    assert_eq!(find_nearest_note_in_scale(74, &scale), 73);
    assert_eq!(nearest_index_in_scale(50, &scale), 4);
}

#[test]
fn nearest_note_takes_the_first_of_equal_members() {
    let scale = vec![60, 50, 60, 50];
    assert_eq!(nearest_index_in_scale(55, &scale), 0);
    assert_eq!(nearest_index_in_scale(50, &scale), 1);
    assert_eq!(find_nearest_note_in_scale(61, &scale), 60);
}

#[test]
fn nearest_note_never_falls_as_the_pitch_rises() {
    let scale = three_octaves();
    let mut last = 0u8;
    for pitch in 0..=255u8 {
        let note = find_nearest_note_in_scale(pitch, &scale);
        assert!(scale.contains(&note));
        assert!(note >= last);
        last = note;
    }
}

#[test]
fn map_takes_the_ends_of_the_source_to_the_ends_of_the_range() {
    assert_eq!(map_to_midi(-300, -300, 300, 21, 42), 42);
    assert_eq!(map_to_midi(300, -300, 300, 21, 42), 63);
    assert_eq!(map_to_midi(-100, -100, 0, 21, 42), 42);
    assert_eq!(map_to_midi(0, -100, 0, 21, 42), 63);
}

#[test]
fn map_limits_the_ends_to_the_data_range() {
    assert_eq!(map_to_midi(500, 500, 220, 127, 42), 42);
    assert_eq!(map_to_midi(220, 500, 220, 127, 42), 127);
    assert_eq!(map_to_midi(300, -300, 300, 21, 200), 127);
    assert_eq!(map_to_midi(-300, -300, 300, 21, 200), 127);
}

#[test]
fn map_rounds_to_the_nearest_integer() {
    // 300 * 21 / 600 = 10.5 above the base
    assert_eq!(map_to_midi(0, -300, 300, 21, 42), 53);
    // 299 * 21 / 600 = 10.465
    assert_eq!(map_to_midi(-1, -300, 300, 21, 42), 52);
    // 100 * 21 / 600 = 3.5
    assert_eq!(map_to_midi(-200, -300, 300, 21, 42), 46);
    // 14 * 21 / 600 = 0.49, 15 * 21 / 600 = 0.525
    assert_eq!(map_to_midi(-286, -300, 300, 21, 42), 42);
    assert_eq!(map_to_midi(-285, -300, 300, 21, 42), 43);
    // a source that runs backwards: (360 - 500) * 127 / -280 = 63.5
    assert_eq!(map_to_midi(360, 500, 220, 127, 42), 106);
    assert_eq!(map_to_midi(361, 500, 220, 127, 0), 63);
    assert_eq!(map_to_midi(360, 500, 220, 127, 0), 64);
}

#[test]
fn map_limits_what_lies_outside_the_source() {
    assert_eq!(map_to_midi(-10_000, -300, 300, 21, 42), 0);
    assert_eq!(map_to_midi(10_000, -300, 300, 21, 42), 127);
    assert_eq!(map_to_midi(i32::MIN, -300, 300, 21, 42), 0);
    assert_eq!(map_to_midi(i32::MAX, -300, 300, u32::MAX, 255), 127);
    assert_eq!(map_to_midi(i32::MIN, i32::MAX, i32::MIN, u32::MAX, 0), 127);
    // just below zero: -0.5 and below go to 0
    assert_eq!(map_to_midi(-1500, -300, 300, 21, 0), 0);
    assert_eq!(map_to_midi(-315, -300, 300, 21, 0), 0);
}

#[test]
fn map_never_falls_as_the_value_rises() {
    let mut last = 0u8;
    for value in -400..=400 {
        let mapped = map_to_midi(value, -300, 300, 21, 42);
        assert!(mapped >= last);
        last = mapped;
    }
}

#[test]
fn chord_is_seventh_root_third_fifth() {
    let scale = three_octaves();
    assert_eq!(build_chord(0, &scale), vec![52, 42, 45, 49]);
    assert_eq!(build_chord(4, &scale), vec![59, 49, 52, 56]);
    assert_eq!(build_chord(14, &scale), vec![76, 66, 69, 73]);
}

#[test]
fn chord_near_the_top_stays_on_the_last_note() {
    let scale = three_octaves();
    assert_eq!(build_chord(15, &scale), vec![76, 68, 71, 75]);
    assert_eq!(build_chord(17, &scale), vec![76, 71, 75, 76]);
    assert_eq!(build_chord(19, &scale), vec![76, 75, 76, 76]);
    assert_eq!(build_chord(20, &scale), vec![76, 76, 76, 76]);
    assert_eq!(build_chord(21, &scale), vec![76, 76, 76, 76]);
    assert_eq!(build_chord(usize::MAX, &scale), vec![76, 76, 76, 76]);
    assert_eq!(build_chord(0, &vec![60]), vec![60, 60, 60, 60]);
}
