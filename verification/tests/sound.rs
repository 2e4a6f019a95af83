use voidframe::cli::{sound_cue_for_event, EngineEvent, SoundCue};

#[test]
fn recording_started_maps_to_start() {
    assert_eq!(sound_cue_for_event(&EngineEvent::RecordingStarted), Some(SoundCue::Start));
}

#[test]
fn recording_stopped_maps_to_stop() {
    assert_eq!(sound_cue_for_event(&EngineEvent::RecordingStopped), Some(SoundCue::Stop));
}

#[test]
fn capture_pending_and_resumed_no_longer_map_to_a_cue() {
    assert_eq!(sound_cue_for_event(&EngineEvent::CapturePending), None);
    assert_eq!(sound_cue_for_event(&EngineEvent::CaptureResumed), None);
}

#[test]
fn an_unrelated_event_maps_to_no_cue() {
    assert_eq!(sound_cue_for_event(&EngineEvent::RunComplete { run_id: "r1".into() }), None);
}
