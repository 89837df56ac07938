//! The tone generator: an edge-triggered state machine that turns the
//! commands "start beeping" and "stop beeping" into actions on an audio
//! sink, such that a tone in flight is never joined by a second one.
//!
//! The generator does not own the sink. Each command returns the action
//! that the caller performs on it.

use vstd::prelude::*;

verus! {

/// Frequency of the tone, in hertz.
pub const TONE_FREQUENCY_HZ: u32 = 440;

/// Length of the tone, in seconds.
pub const TONE_DURATION_SECS: u64 = 1;

/// Amplitude of the tone, in hundredths of full scale.
pub const TONE_AMPLITUDE_PERCENT: u32 = 20;

/// Whether a tone is taken to be in flight.
#[derive(Debug, Clone, Copy, PartialEq, Eq, Structural)]
pub enum ToneState {
    Idle,
    Sounding,
}

/// A waveform to enqueue: a sine of constant frequency.
#[derive(Debug, Clone, Copy, PartialEq, Eq, Structural)]
pub struct Tone {
    pub frequency_hz: u32,
    pub duration_secs: u64,
    pub amplitude_percent: u32,
}

/// What the caller does to the sink after a command.
#[derive(Debug, Clone, Copy, PartialEq, Eq, Structural)]
pub enum SinkAction {
    /// Leave the sink as it is.
    Keep,
    /// Enqueue this one tone and begin playback.
    Play(Tone),
    /// Halt playback and discard what is queued.
    Halt,
}

/// The one tone that the generator ever plays.
pub open spec fn beep() -> Tone {
    Tone {
        frequency_hz: TONE_FREQUENCY_HZ,
        duration_secs: TONE_DURATION_SECS,
        amplitude_percent: TONE_AMPLITUDE_PERCENT,
    }
}

/// The state in which a start command is judged: an empty sink has played
/// its tone to the end, so the generator is idle whatever it held.
pub open spec fn resynchronized(state: ToneState, sink_empty: bool) -> ToneState {
    if sink_empty {
        ToneState::Idle
    } else {
        state
    }
}

/// The action of a start command: one tone where the generator is idle
/// after resynchronizing, nothing where a tone is in flight.
pub open spec fn start_action(state: ToneState, sink_empty: bool) -> SinkAction {
    match resynchronized(state, sink_empty) {
        ToneState::Idle => SinkAction::Play(beep()),
        ToneState::Sounding => SinkAction::Keep,
    }
}

/// The tone generator.
pub struct Audio {
    state: ToneState,
}

impl View for Audio {
    type V = ToneState;

    closed spec fn view(&self) -> ToneState {
        self.state
    }
}

impl Audio {
    /// An idle generator, for a sink that is paused and empty.
    pub fn new() -> (audio: Self)
        ensures
            audio@ == ToneState::Idle,
    {
        Audio { state: ToneState::Idle }
    }

    /// The current state.
    pub fn state(&self) -> (state: ToneState)
        ensures
            state == self@,
    {
        self.state
    }

    /// Asks for the tone. `sink_empty` says whether the sink has nothing
    /// left to play. Afterwards the generator is sounding; the tone is
    /// enqueued only where none was in flight.
    pub fn start_beep(&mut self, sink_empty: bool) -> (action: SinkAction)
        ensures
            final(self)@ == ToneState::Sounding,
            action == start_action(old(self)@, sink_empty),
    {
        if sink_empty {
            self.state = ToneState::Idle;
        }
        match self.state {
            ToneState::Idle => {
                self.state = ToneState::Sounding;
                SinkAction::Play(
                    Tone {
                        frequency_hz: TONE_FREQUENCY_HZ,
                        duration_secs: TONE_DURATION_SECS,
                        amplitude_percent: TONE_AMPLITUDE_PERCENT,
                    },
                )
            },
            ToneState::Sounding => SinkAction::Keep,
        }
    }

    /// Silences the generator, whatever state it was in.
    pub fn stop_beep(&mut self) -> (action: SinkAction)
        ensures
            final(self)@ == ToneState::Idle,
            action == SinkAction::Halt,
    {
        self.state = ToneState::Idle;
        SinkAction::Halt
    }
}

impl Default for Audio {
    fn default() -> (audio: Self)
        ensures
            audio@ == ToneState::Idle,
    {
        Audio::new()
    }
}

/// A start command enqueues the tone exactly where the sink is empty or the
/// generator idle, and otherwise leaves the sink alone; it never halts it.
pub proof fn lemma_start_action(state: ToneState, sink_empty: bool)
    ensures
        start_action(state, sink_empty) == if sink_empty || state == ToneState::Idle {
            SinkAction::Play(beep())
        } else {
            SinkAction::Keep
        },
{
}

/// Tones never overlap: a start command leaves the generator sounding, and
/// a start command that finds it sounding while the sink still plays
/// enqueues nothing.
pub proof fn lemma_no_retrigger(state: ToneState, sink_empty: bool)
    requires
        state == ToneState::Sounding,
        !sink_empty,
    ensures
        start_action(state, sink_empty) == SinkAction::Keep,
{
}

/// A stop command leaves the generator idle, and a start command that finds
/// it idle enqueues exactly one tone, whatever the sink reports.
pub proof fn lemma_start_after_stop(state: ToneState, sink_empty: bool)
    requires
        state == ToneState::Idle,
    ensures
        start_action(state, sink_empty) == SinkAction::Play(beep()),
{
}

} // verus!
