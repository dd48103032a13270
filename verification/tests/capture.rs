use audio_visualiser::audio::analysis::SAMPLE_RATE;
use audio_visualiser::audio::capture::{
    event_outcome, stream_config, CaptureEvent, CaptureSource, InputMode,
};
use audio_visualiser::audio::{newest_messages, AudioMessage};

#[test]
fn input_mode_toggles_in_both_directions() {
    assert_eq!(InputMode::Loopback.toggled(), InputMode::Microphone);
    assert_eq!(InputMode::Microphone.toggled(), InputMode::Loopback);
}

#[test]
fn input_modes_select_the_expected_capture_sources() {
    assert_eq!(
        stream_config(InputMode::Loopback).kind,
        CaptureSource::SystemLoopback
    );
    assert_eq!(stream_config(InputMode::Microphone).kind, CaptureSource::Mic);
}

#[test]
fn streams_are_mono_at_the_analysis_rate() {
    let settings = stream_config(InputMode::Microphone);
    assert_eq!(settings.sample_rate, SAMPLE_RATE);
    assert_eq!(settings.sample_rate, 48_000);
    assert_eq!(settings.channels, 1);
}

#[test]
fn toggling_twice_returns_to_the_same_input() {
    for mode in [InputMode::Loopback, InputMode::Microphone] {
        assert_eq!(mode.toggled().toggled(), mode);
        assert_ne!(stream_config(mode.toggled()).kind, stream_config(mode).kind);
    }
}

#[test]
fn stream_events_stop_capture_with_a_reason() {
    assert_eq!(
        event_outcome(&CaptureEvent::PermissionDenied),
        Err("permission to capture system audio was denied".to_owned())
    );
    assert_eq!(
        event_outcome(&CaptureEvent::DeviceLost),
        Err("the system audio device was lost".to_owned())
    );
    assert_eq!(
        event_outcome(&CaptureEvent::Failed("buffer overrun".to_owned())),
        Err("system audio capture failed: buffer overrun".to_owned())
    );
    assert_eq!(event_outcome(&CaptureEvent::Other), Ok(()));
}

#[test]
fn newest_message_of_each_kind_is_kept() {
    let received = newest_messages(vec![
        AudioMessage::Features(1_u32),
        AudioMessage::SwitchFailed("first switch".to_owned()),
        AudioMessage::Features(2),
        AudioMessage::SwitchFailed("second switch".to_owned()),
    ]);
    assert_eq!(received.features, Some(2));
    assert_eq!(received.failure, None);
    assert_eq!(received.switch_failure, Some("second switch".to_owned()));
}

#[test]
fn a_capture_failure_discards_features_from_the_same_batch() {
    let received = newest_messages(vec![
        AudioMessage::Features(1_u32),
        AudioMessage::Failed("device lost".to_owned()),
        AudioMessage::Features(2),
        AudioMessage::Failed("gone".to_owned()),
    ]);
    assert_eq!(received.features, None);
    assert_eq!(received.failure, Some("gone".to_owned()));
    assert_eq!(received.switch_failure, None);

    let empty = newest_messages(Vec::<AudioMessage<u32>>::new());
    assert_eq!(empty.features, None);
    assert_eq!(empty.failure, None);
}
