use vstd::prelude::*;

use crate::audio::analysis::SAMPLE_RATE;

verus! {

/// Which audio the visualiser listens to.
#[derive(Debug, Clone, Copy, PartialEq, Eq, Structural)]
pub enum InputMode {
    /// Everything the computer is playing.
    Loopback,
    /// The default microphone.
    Microphone,
}

/// The kind of capture device a stream opens.
#[derive(Debug, Clone, Copy, PartialEq, Eq, Structural)]
pub enum CaptureSource {
    /// Loopback of the default output device.
    SystemLoopback,
    /// The default input device.
    Mic,
}

/// Number of audio channels requested from the capture device.
pub const CAPTURE_CHANNELS: u16 = 1;

/// What a capture stream is opened with.
#[derive(Debug, Clone, Copy, PartialEq, Eq, Structural)]
pub struct StreamSettings {
    pub kind: CaptureSource,
    pub sample_rate: u32,
    pub channels: u16,
}

/// The other input mode.
pub open spec fn toggled_mode(mode: InputMode) -> InputMode {
    match mode {
        InputMode::Loopback => InputMode::Microphone,
        InputMode::Microphone => InputMode::Loopback,
    }
}

/// The capture device an input mode listens to.
pub open spec fn source_for(mode: InputMode) -> CaptureSource {
    match mode {
        InputMode::Loopback => CaptureSource::SystemLoopback,
        InputMode::Microphone => CaptureSource::Mic,
    }
}

impl InputMode {
    /// Switches between loopback and microphone.
    pub fn toggled(self) -> (mode: Self)
        ensures
            mode == toggled_mode(self),
    {
        match self {
            InputMode::Loopback => InputMode::Microphone,
            InputMode::Microphone => InputMode::Loopback,
        }
    }
}

/// Toggling twice returns to the starting mode, and toggling always changes
/// the capture device.
pub proof fn lemma_toggle_round_trip(mode: InputMode)
    ensures
        toggled_mode(toggled_mode(mode)) == mode,
        source_for(toggled_mode(mode)) != source_for(mode),
{
}

/// The mono, 48 kHz stream settings for an input mode.
pub fn stream_config(mode: InputMode) -> (settings: StreamSettings)
    ensures
        settings == (StreamSettings {
            kind: source_for(mode),
            sample_rate: SAMPLE_RATE,
            channels: CAPTURE_CHANNELS,
        }),
{
    let kind = match mode {
        InputMode::Loopback => CaptureSource::SystemLoopback,
        InputMode::Microphone => CaptureSource::Mic,
    };
    StreamSettings { kind, sample_rate: SAMPLE_RATE, channels: CAPTURE_CHANNELS }
}

/// A notification from a running capture stream, as far as capturing cares.
#[derive(Debug, PartialEq, Eq)]
pub enum CaptureEvent {
    /// The user or system refused access to the audio.
    PermissionDenied,
    /// The capture device went away.
    DeviceLost,
    /// The stream reported an error, described by the text.
    Failed(String),
    /// Anything else; capturing goes on.
    Other,
}

/// The message capturing stops with after `event`, or `None` when capturing
/// goes on.
pub open spec fn event_failure(event: CaptureEvent) -> Option<Seq<char>> {
    match event {
        CaptureEvent::PermissionDenied => Some(
            "permission to capture system audio was denied"@,
        ),
        CaptureEvent::DeviceLost => Some("the system audio device was lost"@),
        CaptureEvent::Failed(description) => Some(
            "system audio capture failed: "@ + description@,
        ),
        CaptureEvent::Other => None,
    }
}

/// Decides whether a stream event stops capturing, and with what message.
pub fn event_outcome(event: &CaptureEvent) -> (outcome: Result<(), String>)
    ensures
        outcome is Ok <==> event_failure(*event) is None,
        outcome matches Err(message) ==> Some(message@) == event_failure(*event),
{
    match event {
        CaptureEvent::PermissionDenied => Err(
            String::from_str("permission to capture system audio was denied"),
        ),
        CaptureEvent::DeviceLost => Err(String::from_str("the system audio device was lost")),
        CaptureEvent::Failed(description) => Err(
            String::from_str("system audio capture failed: ").concat(description.as_str()),
        ),
        CaptureEvent::Other => Ok(()),
    }
}

} // verus!
