use ai_shepherd::capture::{
    capture_limits, duration_ms, frames_for_ms, long_enough, stream_settings, vad_program,
    vad_verdict, CaptureLimits, CaptureStep, CaptureTiming, RollingWindow, Segmenter,
};

fn timing() -> CaptureTiming {
    CaptureTiming {
        min_segment_ms: 800,
        min_silence_ms: 300,
        max_segment_ms: 10000,
        pre_roll_ms: 200,
        rolling_enabled: true,
        window_transcribe_enabled: true,
        rolling_window_ms: 8000,
        rolling_step_ms: 500,
        rolling_min_ms: 1500,
    }
}

#[test]
fn timing_becomes_frame_counts() {
    assert_eq!(frames_for_ms(800, 48000), 38400);
    assert_eq!(frames_for_ms(u64::MAX, 48000), u64::MAX / 1000);
    let limits = capture_limits(&timing(), 48000, 2);
    assert_eq!(limits.min_segment_frames, 38400);
    assert_eq!(limits.min_silence_frames, 14400);
    assert_eq!(limits.max_segment_frames, 480000);
    assert_eq!(limits.pre_roll_samples, 19200);
    assert_eq!(limits.rolling_window_samples, 768000);
    assert_eq!(limits.rolling_step_frames, 24000);
    assert_eq!(limits.rolling_min_samples, 144000);
    assert!(limits.rolling_active);
    let mut off = timing();
    off.window_transcribe_enabled = false;
    assert!(!capture_limits(&off, 48000, 2).rolling_active);
}

#[test]
fn durations_in_milliseconds() {
    assert_eq!(duration_ms(96000, 2, 48000), 1000);
    assert_eq!(duration_ms(100, 2, 0), 0);
    assert_eq!(duration_ms(4801, 1, 48000), 100);
}

#[test]
fn segment_opens_on_sound_and_closes_after_silence() {
    let limits = capture_limits(&timing(), 1000, 1);
    let mut s = Segmenter::new();
    assert_eq!(s.step(&limits, 100, 200, true), CaptureStep::Wait);
    assert!(!s.recording);
    assert_eq!(s.step(&limits, 100, 200, false), CaptureStep::Start);
    assert_eq!(s.segment_frames, 300);
    assert_eq!(s.step(&limits, 400, 200, false), CaptureStep::Append);
    assert_eq!(s.step(&limits, 200, 200, true), CaptureStep::Append);
    assert_eq!(s.silence_frames, 200);
    assert_eq!(s.step(&limits, 100, 200, true), CaptureStep::Finish);
    assert!(!s.recording);
    assert_eq!(s.segment_frames, 0);
    assert_eq!(s.silence_frames, 0);
}

#[test]
fn segment_closes_at_maximum_length() {
    let limits = capture_limits(&timing(), 1000, 1);
    let mut s = Segmenter::new();
    assert_eq!(s.step(&limits, 5000, 0, false), CaptureStep::Start);
    assert_eq!(s.step(&limits, 4999, 0, false), CaptureStep::Append);
    assert_eq!(s.step(&limits, 1, 0, false), CaptureStep::Finish);
}

#[test]
fn rolling_window_is_due_each_step() {
    let limits = capture_limits(&timing(), 1000, 1);
    let mut w = RollingWindow::new();
    assert!(!w.step(&limits, 400, 400));
    assert_eq!(w.since_emit, 400);
    assert!(!w.step(&limits, 100, 1000));
    assert_eq!(w.since_emit, 0);
    assert!(!w.step(&limits, 300, 1600));
    assert!(w.step(&limits, 200, 1600));
}

#[test]
fn short_segments_are_dropped() {
    assert!(long_enough(400, 0));
    assert!(!long_enough(400, 500));
    assert!(long_enough(500, 500));
}

#[test]
fn voice_activity_check() {
    assert_eq!(vad_program(None, &Some("vad.exe".to_string())), Ok(None));
    assert_eq!(vad_program(Some(true), &Some("vad.exe".to_string())), Ok(Some("vad.exe".to_string())));
    assert_eq!(vad_program(Some(true), &Some(" ".to_string())), Err("whisper VAD path is required".to_string()));
    assert_eq!(vad_program(Some(true), &None), Err("whisper VAD path is required".to_string()));
    assert_eq!(vad_verdict(true, "0.1 0.9\n", ""), Ok(true));
    assert_eq!(vad_verdict(true, "  \n", ""), Ok(false));
    assert_eq!(vad_verdict(false, "out", "err"), Err("whisper VAD failed: err out".to_string()));
}

#[test]
fn streaming_recognizer_settings() {
    assert!(stream_settings(Some(false), &None, &Some("m.bin".to_string()), None, &None).is_none());
    assert!(stream_settings(Some(true), &None, &Some("  ".to_string()), None, &None).is_none());
    let s = stream_settings(Some(true), &Some(" ".to_string()), &Some("m.bin".to_string()), None, &None).unwrap();
    assert_eq!(s.program, "whisper-stream.exe");
    assert_eq!(s.model, "m.bin");
    assert_eq!(s.step_ms, 1000);
    assert_eq!(s.language, "ja");
    let t = stream_settings(Some(true), &Some("ws".to_string()), &Some("m".to_string()), Some(250), &Some("en".to_string())).unwrap();
    assert_eq!((t.program.as_str(), t.step_ms, t.language.as_str()), ("ws", 250, "en"));
}

#[test]
fn segments_open_and_close_in_turn_on_a_run() {
    let limits = CaptureLimits {
        min_segment_frames: 30,
        min_silence_frames: 20,
        max_segment_frames: 100,
        pre_roll_samples: 0,
        rolling_active: false,
        rolling_window_samples: 0,
        rolling_step_frames: 0,
        rolling_min_samples: 0,
    };
    let mut seg = Segmenter::new();
    let blocks = [true, false, false, true, true, true, false, false, true];
    let mut steps = Vec::new();
    for silent in blocks {
        steps.push(seg.step(&limits, 10, 5, silent));
    }
    assert_eq!(
        steps,
        vec![
            CaptureStep::Wait,
            CaptureStep::Start,
            CaptureStep::Append,
            CaptureStep::Append,
            CaptureStep::Finish,
            CaptureStep::Wait,
            CaptureStep::Start,
            CaptureStep::Append,
            CaptureStep::Append,
        ]
    );
    assert!(seg.recording);
}
