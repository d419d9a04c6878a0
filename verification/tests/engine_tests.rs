use meowmic::engine::{
    check_model_switch, check_start, next_buffer, CollapseWatch, EngineError, FrameCounters,
    LoopbackCounters,
    warmup_after_attempt, WarmupStep,
};

#[test]
fn start_is_refused_while_running() {
    assert_eq!(check_start(true), Err(EngineError::AlreadyRunning));
    assert_eq!(check_start(false), Ok(()));
    assert_eq!(EngineError::AlreadyRunning.message(), "Engine is already running");
}

#[test]
fn model_switch_needs_a_running_engine() {
    assert_eq!(check_model_switch(false), Err(EngineError::NotRunning));
    assert_eq!(check_model_switch(true), Ok(()));
    assert_eq!(EngineError::NotRunning.message(), "Engine is not running");
}

#[test]
fn warmup_frames_never_count_as_dropped() {
    let mut c = FrameCounters::new();
    for _ in 0..100 {
        c.begin_frame();
        c.record_handover(false);
    }
    assert_eq!(c.frame_count, 100);
    assert_eq!(c.frames_dropped, 0);
    c.begin_frame();
    c.record_handover(false);
    assert_eq!(c.frames_dropped, 1);
    c.begin_frame();
    c.record_handover(true);
    assert_eq!(c.frames_dropped, 1);
}

#[test]
fn statistics_and_traces_cadence() {
    let mut c = FrameCounters::new();
    c.begin_frame();
    assert!(c.trace_due());
    assert!(!c.stats_due());
    for _ in 0..4 {
        c.begin_frame();
    }
    assert!(c.stats_due());
    assert!(!c.trace_due());
}

#[test]
fn model_is_rebuilt_on_the_tenth_collapsed_frame() {
    let mut w = CollapseWatch::new();
    for _ in 0..9 {
        assert!(!w.observe(true));
    }
    assert!(w.observe(true));
    assert_eq!(w.consecutive, 0);
    assert!(!w.observe(true));
    assert!(!w.observe(false));
    assert_eq!(w.consecutive, 0);
}

#[test]
fn capture_stops_after_ten_failed_reads() {
    let mut c = LoopbackCounters::new();
    for _ in 0..9 {
        assert!(!c.read_failed());
    }
    c.read_succeeded();
    for _ in 0..9 {
        assert!(!c.read_failed());
    }
    assert!(c.read_failed());
}

#[test]
fn drift_compensation_skips_multiples_of_the_interval() {
    let mut c = LoopbackCounters::new();
    assert!(c.skip_frame(Some(3)));
    assert_eq!(c.frame_count, 1);
    assert!(!c.skip_frame(Some(3)));
    assert!(c.frame_captured() == false);
    assert_eq!(c.frame_count, 2);
    assert!(!c.skip_frame(None));
}

#[test]
fn first_captured_frame_is_traced() {
    let mut c = LoopbackCounters::new();
    assert!(c.frame_captured());
    assert!(!c.frame_captured());
}

#[test]
fn buffers_rotate() {
    assert_eq!(next_buffer(0, 2), 1);
    assert_eq!(next_buffer(1, 2), 0);
}

#[test]
fn drops_count_only_late_failed_handovers() {
    let mut c = FrameCounters::new();
    for k in 1..=110u64 {
        c.begin_frame();
        let pushed = !(k == 50 || k == 101 || k == 105);
        c.record_handover(pushed);
    }
    assert_eq!(c.frame_count, 110);
    assert_eq!(c.frames_dropped, 2);
}

#[test]
fn warmup_tries_three_times() {
    assert_eq!(warmup_after_attempt(0, true), WarmupStep::Ready);
    assert_eq!(warmup_after_attempt(0, false), WarmupStep::Restart { retry: true });
    assert_eq!(warmup_after_attempt(1, false), WarmupStep::Restart { retry: true });
    assert_eq!(warmup_after_attempt(2, false), WarmupStep::Restart { retry: false });
}
