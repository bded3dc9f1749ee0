use gesture_midi::config::Config;
use gesture_midi::note_name::midi_to_note_name;
use gesture_midi::pointer::{map_leap_coordinates_to_screen, map_to_screen};

#[test]
fn pointer_spans_the_screen() {
    let volume = Config::standard().volume;
    assert_eq!(map_leap_coordinates_to_screen(-300, 500, &volume), (0, 0));
    assert_eq!(map_leap_coordinates_to_screen(300, 220, &volume), (1920, 1020));
    assert_eq!(map_leap_coordinates_to_screen(0, 360, &volume), (960, 510));
    // 1 * 1920 / 600 = 3.2 and -1 * 1020 / -280 = 3.64
    assert_eq!(map_leap_coordinates_to_screen(-299, 499, &volume), (3, 3));
    // left of and above the volume: -3.2 and -3.64, cut off towards zero
    assert_eq!(map_leap_coordinates_to_screen(-301, 501, &volume), (-3, -3));
}

#[test]
fn pointer_far_outside_stays_an_integer() {
    assert_eq!(map_to_screen(i32::MAX, -300, 300, 1920), i32::MAX);
    assert_eq!(map_to_screen(i32::MIN, -300, 300, 1920), i32::MIN);
    assert_eq!(map_to_screen(i32::MAX, 500, 220, 1020), i32::MIN);
    assert_eq!(map_to_screen(7, 0, 10, -100), -70);
    assert_eq!(map_to_screen(7, 0, -10, -100), 70);
    assert_eq!(map_to_screen(5, 0, 3, 0), 0);
}

#[test]
fn pitches_have_names() {
    assert_eq!(midi_to_note_name(42), Some("F#2".to_string()));
    assert_eq!(midi_to_note_name(60), Some("C4".to_string()));
    assert_eq!(midi_to_note_name(69), Some("A4".to_string()));
    assert_eq!(midi_to_note_name(76), Some("E5".to_string()));
    assert_eq!(midi_to_note_name(0), Some("C-1".to_string()));
    assert_eq!(midi_to_note_name(11), Some("B-1".to_string()));
    assert_eq!(midi_to_note_name(12), Some("C0".to_string()));
    assert_eq!(midi_to_note_name(127), Some("G9".to_string()));
}

#[test]
fn values_above_the_pitch_range_have_no_name() {
    assert_eq!(midi_to_note_name(128), None);
    assert_eq!(midi_to_note_name(255), None);
}

#[test]
fn every_pitch_class_is_named() {
    let names = ["C", "C#", "D", "D#", "E", "F", "F#", "G", "G#", "A", "A#", "B"];
    for midi in 0..128u8 {
        let expected = format!("{}{}", names[(midi % 12) as usize], (midi / 12) as i32 - 1);
        assert_eq!(midi_to_note_name(midi), Some(expected));
    }
}
