use meowmic::monitor::{
    monitor_buffer_len, shares_usb_device, stream_toggle, usb_id, usb_id_extractable, FailureLog, FailureReport,
    MonitorAction, MonitorEvent, MonitorSession,
};

#[test]
fn usb_identity_is_cut_from_the_device_id() {
    let id = "usb\\vid_1234&pid_5678&mi_00";
    assert!(usb_id_extractable(id));
    // The cut ends at the first '&' offset plus the delimiter offset after "pid_".
    assert_eq!(usb_id(id), b"vid_1234&pid_567".to_vec());
}

#[test]
fn ids_without_usb_identity_give_nothing() {
    assert_eq!(usb_id("{0.0.0.00000000}.{guid}"), Vec::<u8>::new());
    assert_eq!(usb_id("vid_1234"), Vec::<u8>::new());
    assert_eq!(usb_id("vid_1234&mi_00"), Vec::<u8>::new());
    assert_eq!(usb_id("vid_1234&pid_5678"), Vec::<u8>::new());
}

#[test]
fn identity_past_the_end_is_not_extractable() {
    assert!(!usb_id_extractable("vid_pid_x&#"));
    assert!(usb_id_extractable("plain"));
}

#[test]
fn same_usb_device_is_detected() {
    let a = "usb\\vid_1234&pid_5678&mi_00#x";
    let b = "usb\\vid_1234&pid_5678&mi_02#y";
    let c = "usb\\vid_9999&pid_5678&mi_00#y";
    assert!(shares_usb_device(a, b));
    assert!(!shares_usb_device(a, c));
    assert!(!shares_usb_device("none", "none"));
}

#[test]
fn monitor_buffer_holds_stereo_16_bit_frames() {
    assert_eq!(monitor_buffer_len(480, 48000), 3840);
    assert_eq!(monitor_buffer_len(480, 44100), 1920);
    assert_eq!(monitor_buffer_len(480, 96000), 5760);
}

#[test]
fn monitor_opens_then_starts() {
    let mut s = MonitorSession::new();
    let a = s.step(MonitorEvent::Frame { enabled: true, point: 2, has_client: false });
    assert_eq!(a, MonitorAction::Open);
    assert!(s.initialized && !s.streaming);
    assert_eq!(s.step(MonitorEvent::Opened { point: 2, has_client: true }), MonitorAction::StartStream);
    assert_eq!(s.step(MonitorEvent::StartResult { ok: true }), MonitorAction::Idle);
    assert!(s.streaming);
    assert_eq!(s.step(MonitorEvent::Frame { enabled: true, point: 2, has_client: true }), MonitorAction::Idle);
    assert!(s.taps(true, 2, 2, true));
    assert!(!s.taps(true, 2, 3, true));
}

#[test]
fn failed_start_is_retried() {
    let mut s = MonitorSession::new();
    s.step(MonitorEvent::Frame { enabled: true, point: 1, has_client: false });
    assert_eq!(s.step(MonitorEvent::Opened { point: 1, has_client: true }), MonitorAction::StartStream);
    s.step(MonitorEvent::StartResult { ok: false });
    assert!(!s.streaming);
    assert_eq!(s.step(MonitorEvent::Frame { enabled: true, point: 1, has_client: true }), MonitorAction::StartStream);
}

#[test]
fn no_start_without_tap_point() {
    let mut s = MonitorSession::new();
    s.step(MonitorEvent::Frame { enabled: true, point: 0, has_client: false });
    assert_eq!(s.step(MonitorEvent::Opened { point: 0, has_client: true }), MonitorAction::Idle);
    assert_eq!(s.step(MonitorEvent::Frame { enabled: true, point: 0, has_client: true }), MonitorAction::Idle);
}

#[test]
fn switching_off_stops_and_forgets() {
    let mut s = MonitorSession { initialized: true, streaming: true };
    assert_eq!(s.step(MonitorEvent::Frame { enabled: false, point: 3, has_client: true }), MonitorAction::StopStream);
    assert_eq!(s, MonitorSession { initialized: false, streaming: false });
    assert_eq!(s.step(MonitorEvent::Frame { enabled: false, point: 3, has_client: true }), MonitorAction::Idle);
    assert_eq!(s.step(MonitorEvent::Frame { enabled: true, point: 3, has_client: true }), MonitorAction::Open);
}

#[test]
fn failures_are_reported_at_most_every_ten_seconds() {
    let mut l = FailureLog::new();
    assert_eq!(l.record(100), FailureReport::First);
    assert_eq!(l.record(105), FailureReport::Quiet);
    assert_eq!(l.record(110), FailureReport::Summary { times: 3, elapsed: 10 });
    assert_eq!(l.record(119), FailureReport::Quiet);
    assert_eq!(l.record(125), FailureReport::Summary { times: 5, elapsed: 25 });
    assert_eq!(l.count, 5);
}

#[test]
fn stream_follows_the_wish_of_an_opened_client() {
    assert_eq!(stream_toggle(true, false), MonitorAction::StartStream);
    assert_eq!(stream_toggle(true, true), MonitorAction::Idle);
    assert_eq!(stream_toggle(false, true), MonitorAction::StopStream);
    assert_eq!(stream_toggle(false, false), MonitorAction::Idle);
}
