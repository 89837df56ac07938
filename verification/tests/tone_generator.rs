use chip8::audio::{
    Audio, SinkAction, Tone, ToneState, TONE_AMPLITUDE_PERCENT, TONE_DURATION_SECS,
    TONE_FREQUENCY_HZ,
};

// An in-memory sink: counts what was enqueued and what is still queued.
struct Capture {
    queued: Vec<Tone>,
    enqueued: usize,
    playing: bool,
}

fn capture() -> Capture {
    Capture { queued: Vec::new(), enqueued: 0, playing: false }
}

fn perform(sink: &mut Capture, action: SinkAction) {
    match action {
        SinkAction::Keep => {}
        SinkAction::Play(tone) => {
            sink.queued.push(tone);
            sink.enqueued += 1;
            sink.playing = true;
        }
        SinkAction::Halt => {
            sink.playing = false;
            sink.queued.clear();
        }
    }
}

fn start(audio: &mut Audio, sink: &mut Capture) {
    let action = audio.start_beep(sink.queued.is_empty());
    perform(sink, action);
}

fn stop(audio: &mut Audio, sink: &mut Capture) {
    let action = audio.stop_beep();
    perform(sink, action);
}

#[test]
fn the_tone_is_fixed() {
    let mut audio = Audio::new();
    assert_eq!(audio.state(), ToneState::Idle);
    let action = audio.start_beep(true);
    assert_eq!(
        action,
        SinkAction::Play(Tone { frequency_hz: 440, duration_secs: 1, amplitude_percent: 20 })
    );
    assert_eq!(TONE_FREQUENCY_HZ, 440);
    assert_eq!(TONE_DURATION_SECS, 1);
    assert_eq!(TONE_AMPLITUDE_PERCENT, 20);
    assert_eq!(audio.state(), ToneState::Sounding);
}

#[test]
fn two_starts_in_a_row_enqueue_one_tone() {
    let mut audio = Audio::new();
    let mut sink = capture();
    start(&mut audio, &mut sink);
    start(&mut audio, &mut sink);
    assert_eq!(sink.enqueued, 1);
    assert_eq!(sink.queued.len(), 1);
    assert!(sink.playing);
    assert_eq!(audio.state(), ToneState::Sounding);
}

#[test]
fn many_starts_while_the_tone_plays_enqueue_nothing_more() {
    let mut audio = Audio::default();
    let mut sink = capture();
    for _ in 0..60 {
        start(&mut audio, &mut sink);
    }
    assert_eq!(sink.enqueued, 1);
}

#[test]
fn stop_then_start_enqueues_one_new_tone() {
    let mut audio = Audio::new();
    let mut sink = capture();
    start(&mut audio, &mut sink);
    stop(&mut audio, &mut sink);
    assert_eq!(audio.state(), ToneState::Idle);
    assert!(sink.queued.is_empty());
    assert!(!sink.playing);
    start(&mut audio, &mut sink);
    assert_eq!(sink.enqueued, 2);
    assert_eq!(sink.queued.len(), 1);
    assert!(sink.playing);
}

#[test]
fn a_tone_that_ran_out_is_played_again() {
    let mut audio = Audio::new();
    let mut sink = capture();
    start(&mut audio, &mut sink);
    // The sink has played the tone to its end.
    sink.queued.clear();
    assert_eq!(audio.state(), ToneState::Sounding);
    start(&mut audio, &mut sink);
    assert_eq!(sink.enqueued, 2);
    assert_eq!(audio.state(), ToneState::Sounding);
}

#[test]
fn start_leaves_a_busy_sink_alone() {
    let mut audio = Audio::new();
    assert!(matches!(audio.start_beep(false), SinkAction::Play(_)));
    assert_eq!(audio.start_beep(false), SinkAction::Keep);
    assert_eq!(audio.start_beep(false), SinkAction::Keep);
    assert!(matches!(audio.start_beep(true), SinkAction::Play(_)));
}

#[test]
fn stop_always_halts() {
    let mut audio = Audio::new();
    assert_eq!(audio.stop_beep(), SinkAction::Halt);
    assert_eq!(audio.state(), ToneState::Idle);
    audio.start_beep(true);
    assert_eq!(audio.stop_beep(), SinkAction::Halt);
    assert_eq!(audio.stop_beep(), SinkAction::Halt);
    assert_eq!(audio.state(), ToneState::Idle);
}
