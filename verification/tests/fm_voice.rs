use fm_synth::fm_voice::{FmVoice, NoteOffAction, NoteOnAction, StealOutcome};
use fm_synth::linear_eg::{EnvelopeState, LinearEG};
use fm_synth::voice_utils::MidiEvent;

const MAX_EG_LEVEL: f32 = 1.0;
const MIN_EG_LEVEL: f32 = 0.0;
const SHUTDOWN_TIME_MSEC: f32 = 10.0;

struct EGParameters {
    attack_time_msec: f32,
    decay_time_msec: f32,
    release_time_msec: f32,
    start_level: f32,
    sustain_level: f32,
}

fn params() -> EGParameters {
    EGParameters {
        attack_time_msec: 10.0,
        decay_time_msec: 10.0,
        release_time_msec: 10.0,
        start_level: 0.0,
        sustain_level: 0.1,
    }
}

fn calc_step_increase(time_ms: f32, scale: f32, sample_rate: f32) -> f32 {
    if time_ms == 0.0 {
        return 0.0;
    }
    scale * (1000.0 / (time_ms * sample_rate))
}

/// A voice as a caller builds it: the library's bookkeeping, the levels of the
/// master envelope, and a record of what was asked of the operators.
struct Voice {
    control: FmVoice,
    step_increase: f32,
    output_value: f32,
    shutdown_increment: f32,
    operator_notes: Vec<u8>,
    operator_note_offs: usize,
}

impl Voice {
    fn new() -> Self {
        Voice {
            control: FmVoice::new(),
            step_increase: 0.0,
            output_value: 0.0,
            shutdown_increment: 0.0,
            operator_notes: Vec::new(),
            operator_note_offs: 0,
        }
    }

    fn start(&mut self, note: u8, params: &EGParameters, sample_rate: f32) {
        self.operator_notes.push(note);
        self.step_increase = calc_step_increase(params.attack_time_msec, 1.0, sample_rate);
        self.output_value = params.start_level - self.step_increase;
    }

    fn release(&mut self, params: &EGParameters, sample_rate: f32) {
        self.step_increase = calc_step_increase(params.release_time_msec, -1.0, sample_rate);
        self.operator_note_offs += 1;
    }

    fn render_envelope(&mut self, params: &EGParameters, num_samples: usize, sample_rate: f32) -> f32 {
        let mut output = 0.0;
        for i in 0..num_samples {
            match self.control.eg.state {
                EnvelopeState::Off => self.output_value = params.start_level,
                EnvelopeState::Attack => {
                    self.output_value += self.step_increase;
                    if self.control.eg.advance(self.step_increase == 0.0 || self.output_value >= MAX_EG_LEVEL) {
                        self.output_value = MAX_EG_LEVEL;
                        self.step_increase = calc_step_increase(params.decay_time_msec, -1.0, sample_rate);
                    }
                }
                EnvelopeState::Decay => {
                    self.output_value += self.step_increase;
                    if self.control.eg.advance(self.step_increase == 0.0 || self.output_value <= params.sustain_level) {
                        self.output_value = params.sustain_level;
                    }
                }
                EnvelopeState::Sustain => self.output_value = params.sustain_level,
                EnvelopeState::Release => {
                    self.output_value += self.step_increase;
                    if self.control.eg.advance(self.step_increase == 0.0 || self.output_value <= MIN_EG_LEVEL) {
                        self.output_value = MIN_EG_LEVEL;
                    }
                }
                EnvelopeState::Shutdown => {
                    self.output_value += self.shutdown_increment;
                    if self.control.eg.advance(self.output_value <= MIN_EG_LEVEL) {
                        self.output_value = MIN_EG_LEVEL;
                    }
                }
            }
            if i == 0 {
                output = self.output_value;
            }
        }
        output
    }

    fn render(&mut self, num_samples: usize, params: &EGParameters, sample_rate: f32) -> f32 {
        let eg_value = self.render_envelope(params, num_samples, sample_rate);
        if let Some(outcome) = self.control.finish_render() {
            if outcome.finalized.is_some() {
                self.release(params, sample_rate);
            }
            if let Some(event) = outcome.started {
                self.start(event.note, params, sample_rate);
            }
        }
        eg_value
    }

    fn note_on(
        &mut self,
        note: u8,
        velocity: f32,
        voice_id: Option<i32>,
        channel: u8,
        params: &EGParameters,
        sample_rate: f32,
    ) {
        match self.control.note_on(note, velocity.to_bits(), voice_id, channel) {
            NoteOnAction::Steal => {
                self.shutdown_increment = -(1000.0 * self.output_value) / SHUTDOWN_TIME_MSEC / sample_rate;
            }
            NoteOnAction::Start => self.start(note, params, sample_rate),
        }
    }

    fn note_off(&mut self, voice_id: Option<i32>, channel: u8, note: u8, params: &EGParameters, sample_rate: f32) {
        let above_floor = self.output_value > MIN_EG_LEVEL;
        if self.control.note_off(voice_id, channel, note, above_floor) == NoteOffAction::Released {
            self.release(params, sample_rate);
        }
    }
}

fn event(note: u8, voice_id: Option<i32>, channel: u8) -> MidiEvent {
    MidiEvent { timing: 0, voice_id, channel, note, velocity: 0.5f32.to_bits() }
}

#[test]
fn test_voice_stealing() {
    let params = params();
    let sample_rate: f32 = 44100.0;
    let shutdown_samples = (SHUTDOWN_TIME_MSEC / 1000.0 * sample_rate).ceil() as usize;
    let mut voice = Voice::new();
    let note_1 = 60;
    voice.note_on(note_1, 0.5, Some(1), 0, &params, sample_rate);
    assert!(!voice.control.is_stealing);
    voice.render(10, &params, sample_rate);
    assert_eq!(voice.control.eg.state, EnvelopeState::Attack);
    let note_2 = 61;
    voice.note_on(note_2, 0.5, Some(1), 0, &params, sample_rate);
    assert!(voice.control.is_stealing);
    assert_eq!(voice.control.current_midi_event.expect("first note").note, note_1);
    voice.render(shutdown_samples, &params, sample_rate);
    voice.render(1, &params, sample_rate);
    assert!(!voice.control.is_stealing);
    assert_eq!(voice.control.current_midi_event.expect("second note").note, note_2);
    assert_eq!(voice.control.next_midi_event, None);
    assert_eq!(voice.operator_notes, vec![note_1, note_2]);
    assert_eq!(voice.control.eg.state, EnvelopeState::Attack);
}

#[test]
fn test_note_on_during_steal() {
    let params = params();
    let sample_rate: f32 = 44100.0;
    let shutdown_samples = (sample_rate * SHUTDOWN_TIME_MSEC / 1000.0) as usize;
    let mut voice = Voice::new();
    voice.note_on(60, 0.5, Some(1), 0, &params, sample_rate);
    assert!(!voice.control.is_stealing);
    voice.render(10, &params, sample_rate);
    voice.note_on(61, 0.5, Some(1), 0, &params, sample_rate);
    assert!(voice.control.is_stealing);
    voice.note_on(62, 0.5, Some(1), 0, &params, sample_rate);
    assert!(voice.control.is_stealing);
    voice.render(shutdown_samples + 1, &params, sample_rate);
    assert!(!voice.control.is_stealing);
    assert_eq!(voice.control.current_midi_event.expect("third note").note, 62);
    assert_eq!(voice.operator_notes, vec![60, 62]);
}

#[test]
fn test_note_on_and_off() {
    let params = params();
    let sample_rate: f32 = 44100.0;
    let release_samples = (sample_rate * params.release_time_msec / 1000.0) as usize;
    let mut voice = Voice::new();
    let note = 60;
    voice.note_on(note, 0.5, Some(1), 0, &params, sample_rate);
    voice.render(10, &params, sample_rate);
    voice.note_off(Some(1), 0, note, &params, sample_rate);
    assert!(voice.control.is_playing());
    assert_eq!(voice.control.eg.state, EnvelopeState::Release);
    assert_eq!(voice.control.current_midi_event, None);
    voice.render(release_samples, &params, sample_rate);
    assert!(!voice.control.is_playing());
    let level = voice.render_envelope(&params, 1, sample_rate);
    assert!(level.abs() < 1e-6);
}

#[test]
fn test_note_on_after_note_off() {
    let params = params();
    let sample_rate: f32 = 1000.0;
    let attack_samples = (sample_rate * params.attack_time_msec / 1000.0) as usize;
    let mut voice = Voice::new();
    let note = 60;
    voice.note_on(note, 0.5, Some(1), 0, &params, sample_rate);
    voice.render(attack_samples, &params, sample_rate);
    voice.note_off(Some(1), 0, note, &params, sample_rate);
    voice.render(1, &params, sample_rate);
    voice.note_on(61, 0.5, Some(1), 0, &params, sample_rate);
    assert!(voice.control.is_stealing);
}

#[test]
fn test_note_off_guard() {
    let params = params();
    let sample_rate: f32 = 1000.0;
    let attack_samples = (sample_rate * 10.0 / 1000.0) as usize;
    let mut voice = Voice::new();
    let note = 60;
    voice.note_on(note, 0.5, Some(1), 0, &params, sample_rate);
    voice.render(attack_samples, &params, sample_rate);
    assert!(voice.control.current_midi_event.is_some());
    voice.note_off(Some(2), 0, note + 1, &params, sample_rate);
    assert!(voice.control.current_midi_event.is_some());
    voice.note_off(Some(2), 1, note, &params, sample_rate);
    assert!(voice.control.current_midi_event.is_some());
    let note_2 = 61;
    voice.note_on(note_2, 0.5, Some(2), 0, &params, sample_rate);
    assert!(voice.control.is_stealing);
    voice.note_off(Some(1), 0, note, &params, sample_rate);
    assert!(voice.control.is_stealing);
    assert!(voice.control.current_midi_event.is_some());
    assert!(voice.control.next_midi_event.is_some());
    voice.note_off(Some(2), 0, note_2, &params, sample_rate);
    assert!(voice.control.is_stealing);
    assert!(voice.control.next_midi_event.is_none());
    assert_eq!(voice.operator_note_offs, 0);
}

#[test]
fn new_voice_is_free() {
    let voice = FmVoice::new();
    assert_eq!(voice.eg.state, EnvelopeState::Off);
    assert!(!voice.is_stealing);
    assert!(!voice.is_playing());
    assert_eq!(voice.current_midi_event, None);
    assert_eq!(voice.next_midi_event, None);
}

#[test]
fn note_on_to_a_free_voice_starts_it() {
    let mut voice = FmVoice::new();
    let action = voice.note_on(64, 0.75f32.to_bits(), Some(9), 3);
    assert_eq!(action, NoteOnAction::Start);
    assert_eq!(
        voice.current_midi_event,
        Some(MidiEvent { timing: 0, voice_id: Some(9), channel: 3, note: 64, velocity: 0.75f32.to_bits() })
    );
    assert_eq!(voice.next_midi_event, None);
    assert!(!voice.is_stealing);
    assert_eq!(voice.eg.state, EnvelopeState::Attack);
    assert!(voice.is_playing());
}

#[test]
fn note_on_to_a_sounding_voice_steals_from_every_segment() {
    for state in [
        EnvelopeState::Attack,
        EnvelopeState::Decay,
        EnvelopeState::Sustain,
        EnvelopeState::Release,
        EnvelopeState::Shutdown,
    ] {
        let mut voice = FmVoice::new();
        voice.note_on(60, 0, None, 0);
        voice.eg.state = state;
        let action = voice.note_on(61, 1, None, 0);
        assert_eq!(action, NoteOnAction::Steal);
        assert!(voice.is_stealing);
        assert_eq!(voice.eg.state, EnvelopeState::Shutdown);
        assert_eq!(voice.current_midi_event.map(|e| e.note), Some(60));
        assert_eq!(voice.next_midi_event.map(|e| e.note), Some(61));
    }
}

#[test]
fn note_off_actions() {
    let mut voice = FmVoice::new();
    assert_eq!(voice.note_off(None, 0, 60, false), NoteOffAction::Ignored);
    voice.note_on(60, 0, Some(1), 0);
    assert_eq!(voice.note_off(Some(2), 0, 61, true), NoteOffAction::Ignored);
    assert_eq!(voice.eg.state, EnvelopeState::Attack);
    assert_eq!(voice.note_off(Some(2), 0, 60, true), NoteOffAction::Released);
    assert_eq!(voice.eg.state, EnvelopeState::Release);
    assert_eq!(voice.current_midi_event, None);
    assert_eq!(voice.note_off(Some(1), 0, 60, true), NoteOffAction::Ignored);

    let mut voice = FmVoice::new();
    voice.note_on(60, 0, Some(1), 0);
    assert_eq!(voice.note_off(Some(1), 5, 5, false), NoteOffAction::Released);
    assert_eq!(voice.eg.state, EnvelopeState::Off);

    let mut voice = FmVoice::new();
    voice.note_on(60, 0, Some(1), 0);
    voice.note_on(61, 0, Some(2), 0);
    assert_eq!(voice.note_off(Some(1), 0, 60, true), NoteOffAction::Ignored);
    assert_eq!(voice.note_off(Some(2), 0, 0, true), NoteOffAction::PendingCancelled);
    assert_eq!(voice.eg.state, EnvelopeState::Shutdown);
    assert_eq!(voice.current_midi_event.map(|e| e.note), Some(60));
    assert_eq!(voice.note_off(Some(2), 0, 61, true), NoteOffAction::Ignored);
}

#[test]
fn finish_render_does_nothing_unless_a_steal_is_due() {
    let mut voice = FmVoice::new();
    assert_eq!(voice.finish_render(), None);
    voice.note_on(60, 0, None, 0);
    let before = voice;
    assert_eq!(voice.finish_render(), None);
    assert_eq!(voice, before);
    voice.note_on(61, 0, None, 0);
    let before = voice;
    assert_eq!(voice.finish_render(), None);
    assert_eq!(voice, before);
}

#[test]
fn finish_render_hands_the_voice_over() {
    let mut voice = FmVoice::new();
    voice.note_on(60, 0, Some(1), 0);
    voice.note_on(61, 7, Some(2), 1);
    assert!(voice.eg.advance(true));
    let outcome = voice.finish_render();
    assert_eq!(
        outcome,
        Some(StealOutcome {
            finalized: Some(MidiEvent { timing: 0, voice_id: Some(1), channel: 0, note: 60, velocity: 0 }),
            started: Some(MidiEvent { timing: 0, voice_id: Some(2), channel: 1, note: 61, velocity: 7 }),
        })
    );
    assert!(!voice.is_stealing);
    assert_eq!(voice.current_midi_event, outcome.expect("outcome").started);
    assert_eq!(voice.next_midi_event, None);
    assert_eq!(voice.eg.state, EnvelopeState::Attack);
}

#[test]
fn finish_render_after_a_withdrawn_steal_leaves_the_voice_free() {
    let mut voice = FmVoice::new();
    voice.note_on(60, 0, Some(1), 0);
    voice.note_on(61, 0, Some(2), 0);
    assert_eq!(voice.note_off(Some(2), 0, 61, true), NoteOffAction::PendingCancelled);
    voice.eg.advance(true);
    let outcome = voice.finish_render().expect("steal is due");
    assert_eq!(outcome.finalized, Some(MidiEvent { velocity: 0, ..event(60, Some(1), 0) }));
    assert_eq!(outcome.started, None);
    assert!(!voice.is_stealing);
    assert!(!voice.is_playing());
    assert_eq!(voice.current_midi_event, None);
    assert_eq!(voice.next_midi_event, None);
}

#[test]
fn reset_keeps_notes_and_silences_the_envelope() {
    let mut voice = FmVoice::new();
    voice.note_on(60, 0, None, 0);
    voice.note_on(61, 0, None, 0);
    let before = voice;
    voice.reset();
    assert_eq!(voice, FmVoice { eg: LinearEG { state: EnvelopeState::Off }, ..before });
}
