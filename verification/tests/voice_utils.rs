use fm_synth::voice_utils::{MidiEvent, NoteEvent};

fn event(voice_id: Option<i32>, channel: u8, note: u8) -> MidiEvent {
    MidiEvent { timing: 0, voice_id, channel, note, velocity: 0.5f32.to_bits() }
}

#[test]
fn matches_by_voice_id() {
    let e = event(Some(7), 0, 60);
    assert!(e.matches(Some(7), 3, 12));
    assert!(!e.matches(Some(8), 3, 12));
}

#[test]
fn matches_by_channel_and_note() {
    let e = event(Some(7), 2, 60);
    assert!(e.matches(Some(8), 2, 60));
    assert!(e.matches(None, 2, 60));
    assert!(!e.matches(None, 2, 61));
    assert!(!e.matches(None, 1, 60));
}

#[test]
fn absent_voice_ids_do_not_match_by_themselves() {
    let e = event(None, 2, 60);
    assert!(!e.matches(None, 1, 61));
    assert!(!e.matches(Some(1), 1, 61));
    assert!(e.matches(None, 2, 60));
}

#[test]
fn velocity_is_carried_bit_for_bit() {
    let e = event(None, 0, 0);
    assert_eq!(f32::from_bits(e.velocity), 0.5);
}

#[test]
fn every_event_has_a_timing() {
    let on = NoteEvent::NoteOn { timing: 17, voice_id: None, channel: 0, note: 60, velocity: 0 };
    let off = NoteEvent::NoteOff { timing: 18, voice_id: None, channel: 0, note: 60 };
    let other = NoteEvent::Other { timing: 19 };
    assert_eq!(on.timing(), 17);
    assert_eq!(off.timing(), 18);
    assert_eq!(other.timing(), 19);
}
