use gesture_midi::gate::{elapsed_since, gate_open, rate_for_tilt};
use gesture_midi::gesture::GestureDebouncer;
use gesture_midi::midi::{change_instrument, MidiMessage};
use gesture_midi::scheduler::{duration_for_velocity, Envelope, NoteScheduler};

const ENVELOPE: Envelope = Envelope { attack: 70, decay: 100, sustain: 80, release: 90 };

fn prelude(channel: u8, program: u8) -> Vec<MidiMessage> {
    vec![
        MidiMessage::ProgramChange { channel, program },
        MidiMessage::ControlChange { channel, controller: 1, value: 70 },
        MidiMessage::ControlChange { channel, controller: 2, value: 100 },
        MidiMessage::ControlChange { channel, controller: 3, value: 80 },
        MidiMessage::ControlChange { channel, controller: 4, value: 90 },
    ]
}

#[test]
fn duration_falls_from_longest_to_shortest() {
    assert_eq!(duration_for_velocity(0, 100, 5000), 5000);
    assert_eq!(duration_for_velocity(127, 100, 5000), 100);
    // 5000 - 64 * 4900 / 127 = 5000 - 2469
    assert_eq!(duration_for_velocity(64, 100, 5000), 2531);
    assert_eq!(duration_for_velocity(1, 100, 5000), 4962);
    assert_eq!(duration_for_velocity(126, 100, 5000), 139);
}

#[test]
fn duration_never_leaves_its_bounds() {
    assert_eq!(duration_for_velocity(255, 100, 5000), 100);
    assert_eq!(duration_for_velocity(128, 100, 5000), 100);
    assert_eq!(duration_for_velocity(200, 0, u64::MAX), 0);
    assert_eq!(duration_for_velocity(127, 0, u64::MAX), 0);
    assert_eq!(duration_for_velocity(0, 0, u64::MAX), u64::MAX);
    assert_eq!(duration_for_velocity(77, 300, 300), 300);
    let mut last = u64::MAX;
    for velocity in 0..=255u8 {
        let duration = duration_for_velocity(velocity, 100, 5000);
        assert!((100..=5000).contains(&duration));
        assert!(duration <= last);
        last = duration;
    }
}

#[test]
fn note_at_full_velocity_expires_after_the_shortest_duration() {
    let start = 40_000;
    let mut scheduler = NoteScheduler::new(2, 100, 5000);
    scheduler.note_on(&vec![60], 127, 0, ENVELOPE, start);
    assert!(scheduler.is_sounding(60));
    assert_eq!(scheduler.expires_at(60), Some(start + 100));
    assert_eq!(scheduler.expire_due(start + 99), Vec::<u8>::new());
    assert!(scheduler.is_sounding(60));
    assert_eq!(scheduler.expire_due(start + 100), vec![60]);
    assert!(!scheduler.is_sounding(60));
    assert_eq!(scheduler.expires_at(60), None);
    assert_eq!(scheduler.expire_due(start + 10_000), Vec::<u8>::new());
}

#[test]
fn idle_pitch_gets_a_note_on_alone() {
    let mut scheduler = NoteScheduler::new(2, 100, 5000);
    let messages = scheduler.note_on(&vec![60], 100, 7, ENVELOPE, 0);
    let mut expected = prelude(2, 7);
    expected.push(MidiMessage::NoteOn { channel: 2, pitch: 60, velocity: 100 });
    assert_eq!(messages, expected);
}

#[test]
fn sounding_pitch_is_stopped_before_it_is_struck_again() {
    let mut scheduler = NoteScheduler::new(2, 100, 5000);
    scheduler.note_on(&vec![60], 0, 0, ENVELOPE, 1000);
    assert_eq!(scheduler.expires_at(60), Some(6000));
    let messages = scheduler.note_on(&vec![60], 127, 3, ENVELOPE, 2000);
    let mut expected = prelude(2, 3);
    expected.push(MidiMessage::NoteOff { channel: 2, pitch: 60, velocity: 0 });
    expected.push(MidiMessage::NoteOn { channel: 2, pitch: 60, velocity: 127 });
    assert_eq!(messages, expected);
    let off = messages.iter().position(|m| matches!(m, MidiMessage::NoteOff { pitch: 60, .. }));
    let on = messages.iter().position(|m| matches!(m, MidiMessage::NoteOn { pitch: 60, .. }));
    assert!(off.unwrap() < on.unwrap());
    // the new strike alone decides when the note ends
    assert_eq!(scheduler.expires_at(60), Some(2100));
    assert_eq!(scheduler.expire_due(2100), vec![60]);
    assert_eq!(scheduler.expire_due(6000), Vec::<u8>::new());
}

#[test]
fn chord_is_sent_in_chord_order_after_the_prelude() {
    let mut scheduler = NoteScheduler::new(5, 100, 5000);
    scheduler.note_on(&vec![49], 10, 0, ENVELOPE, 0);
    let messages = scheduler.note_on(&vec![52, 42, 45, 49], 64, 9, ENVELOPE, 10);
    let mut expected = prelude(5, 9);
    expected.push(MidiMessage::NoteOn { channel: 5, pitch: 52, velocity: 64 });
    expected.push(MidiMessage::NoteOn { channel: 5, pitch: 42, velocity: 64 });
    expected.push(MidiMessage::NoteOn { channel: 5, pitch: 45, velocity: 64 });
    expected.push(MidiMessage::NoteOff { channel: 5, pitch: 49, velocity: 0 });
    expected.push(MidiMessage::NoteOn { channel: 5, pitch: 49, velocity: 64 });
    assert_eq!(messages, expected);
    for pitch in [42, 45, 49, 52] {
        assert_eq!(scheduler.expires_at(pitch), Some(10 + 2531));
    }
}

#[test]
fn pitch_that_occurs_twice_in_a_chord_is_stopped_in_between() {
    let mut scheduler = NoteScheduler::new(1, 100, 5000);
    let messages = scheduler.note_on(&vec![76, 75, 76, 76], 127, 0, ENVELOPE, 0);
    let mut expected = prelude(1, 0);
    expected.push(MidiMessage::NoteOn { channel: 1, pitch: 76, velocity: 127 });
    expected.push(MidiMessage::NoteOn { channel: 1, pitch: 75, velocity: 127 });
    expected.push(MidiMessage::NoteOff { channel: 1, pitch: 76, velocity: 0 });
    expected.push(MidiMessage::NoteOn { channel: 1, pitch: 76, velocity: 127 });
    expected.push(MidiMessage::NoteOff { channel: 1, pitch: 76, velocity: 0 });
    expected.push(MidiMessage::NoteOn { channel: 1, pitch: 76, velocity: 127 });
    assert_eq!(messages, expected);
    assert_eq!(scheduler.expire_due(100), vec![75, 76]);
}

#[test]
fn empty_chord_sends_the_prelude_only() {
    let mut scheduler = NoteScheduler::new(2, 100, 5000);
    assert_eq!(scheduler.note_on(&vec![], 100, 1, ENVELOPE, 0), prelude(2, 1));
    assert_eq!(scheduler.expire_due(u64::MAX), Vec::<u8>::new());
}

#[test]
fn expired_pitches_come_lowest_first_and_only_those_due() {
    let mut scheduler = NoteScheduler::new(2, 100, 5000);
    scheduler.note_on(&vec![127, 0, 64], 127, 0, ENVELOPE, 0);
    scheduler.note_on(&vec![30, 90], 0, 0, ENVELOPE, 0);
    assert_eq!(scheduler.expire_due(99), Vec::<u8>::new());
    assert_eq!(scheduler.expire_due(4999), vec![0, 64, 127]);
    assert!(scheduler.is_sounding(30));
    assert!(scheduler.is_sounding(90));
    assert_eq!(scheduler.expire_due(5000), vec![30, 90]);
    assert!(!scheduler.is_sounding(30));
}

#[test]
fn expiry_stops_at_the_end_of_time() {
    let mut scheduler = NoteScheduler::new(2, 100, 5000);
    scheduler.note_on(&vec![60], 0, 0, ENVELOPE, u64::MAX - 10);
    assert_eq!(scheduler.expires_at(60), Some(u64::MAX));
    assert_eq!(scheduler.expire_due(u64::MAX - 1), Vec::<u8>::new());
    assert_eq!(scheduler.expire_due(u64::MAX), vec![60]);
}

#[test]
fn scheduler_reports_its_duration() {
    let scheduler = NoteScheduler::new(2, 100, 5000);
    assert_eq!(scheduler.duration(127), 100);
    assert_eq!(scheduler.duration(0), 5000);
}

#[test]
fn pinches_half_a_second_apart_change_the_program_once() {
    let mut gesture = GestureDebouncer::new(2, 10_000, 1, 0);
    assert!(gesture.on_pinch(5_000, 1000).is_some());
    assert_eq!(gesture.current_program(), 1);
    assert!(gesture.on_pinch(5_000, 1500).is_none());
    assert_eq!(gesture.current_program(), 1);
}

#[test]
fn pinches_over_a_second_apart_change_the_program_twice() {
    let mut gesture = GestureDebouncer::new(2, 10_000, 1, 0);
    assert!(gesture.on_pinch(5_000, 1000).is_some());
    assert!(gesture.on_pinch(5_000, 2100).is_some());
    assert_eq!(gesture.current_program(), 2);
}

#[test]
fn pinch_waits_for_the_cooldown_after_the_start() {
    let mut gesture = GestureDebouncer::new(2, 10_000, 1, 500);
    assert!(gesture.on_pinch(0, 1499).is_none());
    assert!(gesture.on_pinch(0, 100).is_none());
    assert!(gesture.on_pinch(0, 1500).is_some());
    assert!(gesture.on_pinch(0, 2499).is_none());
    assert!(gesture.on_pinch(0, 2500).is_some());
}

#[test]
fn open_hand_does_not_change_the_program() {
    let mut gesture = GestureDebouncer::new(2, 10_000, 1, 0);
    assert!(gesture.on_pinch(10_000, 5000).is_none());
    assert!(gesture.on_pinch(25_000, 5000).is_none());
    assert_eq!(gesture.current_program(), 0);
    assert!(gesture.on_pinch(9_999, 5000).is_some());
}

#[test]
fn program_wraps_after_the_last_one() {
    let mut gesture = GestureDebouncer::new(2, 10_000, 0, 0);
    for expected in 1..=127u8 {
        assert!(gesture.on_pinch(0, 0).is_some());
        assert_eq!(gesture.current_program(), expected);
    }
    let change = gesture.on_pinch(0, 0).unwrap();
    assert_eq!(gesture.current_program(), 0);
    assert_eq!(change.last(), Some(&MidiMessage::ProgramChange { channel: 2, program: 0 }));
}

#[test]
fn instrument_change_silences_the_channel_first() {
    let mut gesture = GestureDebouncer::new(3, 10_000, 1, 0);
    let change = gesture.on_pinch(1, 1000).unwrap();
    assert_eq!(change, change_instrument(3, 1));
    assert_eq!(change.len(), 129);
    for pitch in 0..127u8 {
        assert_eq!(
            change[pitch as usize],
            MidiMessage::NoteOff { channel: 3, pitch, velocity: 0 }
        );
    }
    assert_eq!(change[127], MidiMessage::ControlChange { channel: 3, controller: 123, value: 0 });
    assert_eq!(change[128], MidiMessage::ProgramChange { channel: 3, program: 1 });
}

#[test]
fn messages_are_encoded_bit_for_bit() {
    assert_eq!(MidiMessage::ProgramChange { channel: 2, program: 5 }.to_bytes(), vec![0xC1, 5]);
    assert_eq!(
        MidiMessage::NoteOn { channel: 2, pitch: 60, velocity: 127 }.to_bytes(),
        vec![0x91, 60, 127]
    );
    assert_eq!(
        MidiMessage::NoteOff { channel: 2, pitch: 60, velocity: 0 }.to_bytes(),
        vec![0x81, 60, 0]
    );
    assert_eq!(
        MidiMessage::ControlChange { channel: 2, controller: 74, value: 99 }.to_bytes(),
        vec![0xB1, 74, 99]
    );
    assert_eq!(
        MidiMessage::NoteOn { channel: 1, pitch: 0, velocity: 1 }.to_bytes(),
        vec![0x90, 0, 1]
    );
    assert_eq!(
        MidiMessage::NoteOn { channel: 16, pitch: 127, velocity: 1 }.to_bytes(),
        vec![0x9F, 127, 1]
    );
}

#[test]
fn messages_know_whether_they_can_be_encoded() {
    assert!(MidiMessage::NoteOn { channel: 1, pitch: 127, velocity: 127 }.is_well_formed());
    assert!(MidiMessage::ProgramChange { channel: 16, program: 0 }.is_well_formed());
    assert!(!MidiMessage::NoteOn { channel: 0, pitch: 1, velocity: 1 }.is_well_formed());
    assert!(!MidiMessage::NoteOff { channel: 17, pitch: 1, velocity: 1 }.is_well_formed());
    assert!(!MidiMessage::NoteOff { channel: 1, pitch: 128, velocity: 1 }.is_well_formed());
    assert!(!MidiMessage::NoteOn { channel: 1, pitch: 1, velocity: 128 }.is_well_formed());
    assert!(!MidiMessage::ControlChange { channel: 1, controller: 128, value: 0 }.is_well_formed());
    assert!(!MidiMessage::ControlChange { channel: 1, controller: 0, value: 200 }.is_well_formed());
    assert!(!MidiMessage::ProgramChange { channel: 1, program: 128 }.is_well_formed());
}

#[test]
fn rate_follows_the_tilt() {
    assert_eq!(rate_for_tilt(0), 800);
    assert_eq!(rate_for_tilt(100), 800);
    assert_eq!(rate_for_tilt(200), 800);
    assert_eq!(rate_for_tilt(201), 799);
    assert_eq!(rate_for_tilt(500), 500);
    assert_eq!(rate_for_tilt(-500), 500);
    assert_eq!(rate_for_tilt(900), 100);
    assert_eq!(rate_for_tilt(-901), 100);
    assert_eq!(rate_for_tilt(1000), 100);
    assert_eq!(rate_for_tilt(i32::MAX), 100);
    assert_eq!(rate_for_tilt(i32::MIN), 100);
}

#[test]
fn level_hand_waits_four_fifths_of_the_base_delay() {
    assert!(!gate_open(5000, 5799, 1000, 0, true));
    assert!(gate_open(5000, 5800, 1000, 0, true));
    assert!(gate_open(5000, 9000, 1000, 0, true));
}

#[test]
fn steep_hand_waits_a_tenth_of_the_base_delay() {
    assert!(!gate_open(0, 99, 1000, 950, true));
    assert!(gate_open(0, 100, 1000, 950, true));
    assert!(!gate_open(0, 499, 1000, -500, true));
    assert!(gate_open(0, 500, 1000, -500, true));
}

#[test]
fn delay_is_not_rounded_down() {
    // 3 ms at a rate of a half is 1.5 ms
    assert!(!gate_open(0, 1, 3, 500, true));
    assert!(gate_open(0, 2, 3, 500, true));
    assert!(gate_open(0, 0, 0, 0, true));
    assert!(!gate_open(0, u64::MAX, u64::MAX, 0, false));
    assert!(gate_open(0, u64::MAX, u64::MAX, 0, true));
    assert!(!gate_open(0, u64::MAX / 10 - 1, u64::MAX, 1000, true));
}

#[test]
fn resting_hand_never_opens_the_way() {
    assert!(!gate_open(0, 100_000, 1000, 0, false));
    assert!(!gate_open(0, 100_000, 0, 1000, false));
}

#[test]
fn clock_that_runs_backwards_counts_as_no_time() {
    assert_eq!(elapsed_since(1000, 4000), 3000);
    assert_eq!(elapsed_since(4000, 1000), 0);
    assert!(!gate_open(4000, 1000, 1000, 0, true));
}
