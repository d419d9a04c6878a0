//! Monitor (listen-back) output: which device may serve as monitor, how its staging
//! buffer is sized, when its stream starts and stops, and how write failures are reported.

use vstd::prelude::*;
use vstd::utf8::is_char_boundary;
use vstd::string::StringSliceAdditionalSpecFns;
use crate::text::{first_occurrence, find_bytes};

verus! {

/// The bytes `"vid_"`.
pub open spec fn vid_tag() -> Seq<u8> {
    seq![0x76u8, 0x69u8, 0x64u8, 0x5Fu8]
}

/// The bytes `"pid_"`.
pub open spec fn pid_tag() -> Seq<u8> {
    seq![0x70u8, 0x69u8, 0x64u8, 0x5Fu8]
}

/// Index of the first `'&'` byte of `s`.
#[verifier::opaque]
pub open spec fn first_amp(s: Seq<u8>) -> Option<int> {
    if exists|i: int| 0 <= i < s.len() && s[i] == 0x26 {
        Some(choose|i: int| 0 <= i < s.len() && s[i] == 0x26 && forall|j: int| 0 <= j < i ==> s[j] != 0x26)
    } else {
        None
    }
}

/// A `'&'` or `'#'` byte.
pub open spec fn is_delim(b: u8) -> bool {
    b == 0x26 || b == 0x23
}

/// Index of the first `'&'` or `'#'` byte of `s`.
#[verifier::opaque]
pub open spec fn first_delim(s: Seq<u8>) -> Option<int> {
    if exists|i: int| 0 <= i < s.len() && is_delim(s[i]) {
        Some(choose|i: int| 0 <= i < s.len() && is_delim(s[i]) && forall|j: int| 0 <= j < i ==> !is_delim(s[j]))
    } else {
        None
    }
}

/// Where the USB identity of a device id lies, as `(start, end)` byte offsets: it starts
/// at the first `"vid_"`; its end is that start plus the offset of the first `'&'` after
/// it plus the offset of the first `'&'` or `'#'` after the first following `"pid_"`.
/// `None` when any of these is missing.
#[verifier::opaque]
pub open spec fn usb_id_span(id: Seq<u8>) -> Option<(int, int)> {
    match first_occurrence(id, vid_tag()) {
        None => None,
        Some(a) => {
            let rest = id.subrange(a, id.len() as int);
            match first_amp(rest) {
                None => None,
                Some(e) => match first_occurrence(rest, pid_tag()) {
                    None => None,
                    Some(p) => match first_delim(rest.subrange(p, rest.len() as int)) {
                        None => None,
                        Some(q) => Some((a, a + e + q)),
                    },
                },
            }
        },
    }
}

/// The span cannot be cut out of the id: it runs past the end or splits a character.
pub open spec fn usb_id_span_broken(id: Seq<u8>) -> bool {
    match usb_id_span(id) {
        Some((a, c)) => c > id.len() || !is_char_boundary(id, c),
        None => false,
    }
}

/// The USB identity (`"vid_XXXX&pid_YYY"`-like bytes) of a device id, empty when the id
/// carries none.
pub open spec fn spec_usb_id(id: Seq<u8>) -> Seq<u8> {
    match usb_id_span(id) {
        Some((a, c)) => id.subrange(a, c),
        None => Seq::empty(),
    }
}

proof fn lemma_first_amp(t: Seq<u8>, k: int)
    requires
        0 <= k < t.len(),
        t[k] == 0x26,
        forall|j: int| 0 <= j < k ==> t[j] != 0x26,
    ensures
        first_amp(t) == Some(k),
{
    reveal(first_amp);
    let c = choose|c: int| 0 <= c < t.len() && t[c] == 0x26 && forall|j: int| 0 <= j < c ==> t[j] != 0x26;
    assert(0 <= c < t.len() && t[c] == 0x26 && forall|j: int| 0 <= j < c ==> t[j] != 0x26);
    if c < k {
        assert(t[c] != 0x26);
    }
    if k < c {
        assert(t[k] != 0x26);
    }
}

proof fn lemma_first_delim(t: Seq<u8>, k: int)
    requires
        0 <= k < t.len(),
        is_delim(t[k]),
        forall|j: int| 0 <= j < k ==> !is_delim(t[j]),
    ensures
        first_delim(t) == Some(k),
{
    reveal(first_delim);
    let c = choose|c: int|
        0 <= c < t.len() && is_delim(t[c]) && forall|j: int| 0 <= j < c ==> !is_delim(t[j]);
    assert(0 <= c < t.len() && is_delim(t[c]) && forall|j: int| 0 <= j < c ==> !is_delim(t[j]));
    if c < k {
        assert(!is_delim(t[c]));
    }
    if k < c {
        assert(!is_delim(t[k]));
    }
}

fn find_amp(s: &[u8], from: usize) -> (r: Option<usize>)
    requires
        from <= s@.len(),
    ensures
        match r {
            Some(i) => first_amp(s@.subrange(from as int, s@.len() as int)) == Some(i as int),
            None => first_amp(s@.subrange(from as int, s@.len() as int)) is None,
        },
{
    reveal(first_amp);
    reveal(first_delim);
    let ghost t = s@.subrange(from as int, s@.len() as int);
    let n: usize = s.len();
    let mut i: usize = from;
    while i < n
        invariant
            n == s@.len(),
            from <= i <= n,
            t == s@.subrange(from as int, n as int),
            forall|j: int| 0 <= j < i - from ==> t[j] != 0x26,
        decreases n - i,
    {
        if s[i] == 0x26 {
            let k: usize = i - from;
            proof {
                lemma_first_amp(t, k as int);
            }
            return Some(k);
        }
        assert(t[i - from] != 0x26);
        i = i + 1;
    }
    None
}

fn find_delim(s: &[u8], from: usize) -> (r: Option<usize>)
    requires
        from <= s@.len(),
    ensures
        match r {
            Some(i) => first_delim(s@.subrange(from as int, s@.len() as int)) == Some(i as int),
            None => first_delim(s@.subrange(from as int, s@.len() as int)) is None,
        },
{
    reveal(first_amp);
    reveal(first_delim);
    let ghost t = s@.subrange(from as int, s@.len() as int);
    let n: usize = s.len();
    let mut i: usize = from;
    while i < n
        invariant
            n == s@.len(),
            from <= i <= n,
            t == s@.subrange(from as int, n as int),
            forall|j: int| 0 <= j < i - from ==> !is_delim(t[j]),
        decreases n - i,
    {
        if s[i] == 0x26 || s[i] == 0x23 {
            let k: usize = i - from;
            proof {
                lemma_first_delim(t, k as int);
            }
            return Some(k);
        }
        assert(!is_delim(t[i - from]));
        i = i + 1;
    }
    None
}

proof fn lemma_span_found(id: Seq<u8>, a: int, e: int, p: int, q: int)
    requires
        0 <= a <= id.len(),
        first_occurrence(id, vid_tag()) == Some(a),
        first_amp(id.subrange(a, id.len() as int)) == Some(e),
        first_occurrence(id.subrange(a, id.len() as int), pid_tag()) == Some(p),
        first_delim(
            id.subrange(a, id.len() as int).subrange(p, id.len() - a),
        ) == Some(q),
    ensures
        usb_id_span(id) == Some((a, a + e + q)),
{
    reveal(usb_id_span);
}

proof fn lemma_span_absent(id: Seq<u8>)
    requires
        first_occurrence(id, vid_tag()) is None || ({
            let a = first_occurrence(id, vid_tag())->0;
            let rest = id.subrange(a, id.len() as int);
            ||| first_amp(rest) is None
            ||| first_occurrence(rest, pid_tag()) is None
            ||| (first_occurrence(rest, pid_tag()) matches Some(p) && first_delim(
                rest.subrange(p, rest.len() as int),
            ) is None)
        }),
    ensures
        usb_id_span(id) is None,
{
    reveal(usb_id_span);
}

/// Where the USB identity of a device id lies.
enum UsbSpan {
    Absent,
    Cut(usize, usize),
    PastEnd,
}

/// The byte offsets of the USB identity inside `id`, as `usb_id_span` describes them.
fn usb_span(id: &[u8]) -> (r: UsbSpan)
    ensures
        match r {
            UsbSpan::Cut(a, c) => usb_id_span(id@) == Some((a as int, c as int)) && a <= c
                <= id@.len(),
            UsbSpan::Absent => usb_id_span(id@) is None,
            UsbSpan::PastEnd => usb_id_span(id@) matches Some((a, c)) && c > id@.len(),
        },
{
    let vid: [u8; 4] = [0x76u8, 0x69u8, 0x64u8, 0x5Fu8];
    let pid: [u8; 4] = [0x70u8, 0x69u8, 0x64u8, 0x5Fu8];
    assert(vid@ =~= vid_tag());
    assert(pid@ =~= pid_tag());
    let a = match find_bytes(id, vid.as_slice()) {
        None => {
            proof {
                lemma_span_absent(id@);
            }
            return UsbSpan::Absent;
        },
        Some(a) => a,
    };
    let ghost rest_s = id@.subrange(a as int, id@.len() as int);
    let e = match find_amp(id, a) {
        None => {
            proof {
                lemma_span_absent(id@);
            }
            return UsbSpan::Absent;
        },
        Some(e) => e,
    };
    let rest = slice_from(id, a);
    let p = match find_bytes(rest.as_slice(), pid.as_slice()) {
        None => {
            proof {
                lemma_span_absent(id@);
            }
            return UsbSpan::Absent;
        },
        Some(p) => p,
    };
    let q = match find_delim(rest.as_slice(), p) {
        None => {
            proof {
                lemma_span_absent(id@);
            }
            return UsbSpan::Absent;
        },
        Some(q) => q,
    };
    proof {
        lemma_span_found(id@, a as int, e as int, p as int, q as int);
    }
    let n: usize = id.len();
    if e > n || q > n - e || a > n - e - q {
        return UsbSpan::PastEnd;
    }
    UsbSpan::Cut(a, a + e + q)
}

/// The bytes of `s` from `from` on.
fn slice_from(s: &[u8], from: usize) -> (r: Vec<u8>)
    requires
        from <= s@.len(),
    ensures
        r@ == s@.subrange(from as int, s@.len() as int),
{
    let mut r: Vec<u8> = Vec::new();
    let mut i: usize = from;
    while i < s.len()
        invariant
            from <= i <= s@.len(),
            r@ == s@.subrange(from as int, i as int),
        decreases s@.len() - i,
    {
        r.push(s[i]);
        i = i + 1;
        assert(r@ =~= s@.subrange(from as int, i as int));
    }
    r
}

/// Whether the USB identity of `id` can be cut out of it without splitting the string.
pub fn usb_id_extractable(id: &str) -> (b: bool)
    ensures
        b == !usb_id_span_broken(id.spec_bytes()),
{
    let bytes = id.as_bytes();
    match usb_span(bytes) {
        UsbSpan::Cut(_a, c) => id.is_char_boundary(c),
        UsbSpan::Absent => true,
        UsbSpan::PastEnd => false,
    }
}

/// The USB identity of the device id `id`; empty when it carries none.
pub fn usb_id(id: &str) -> (r: Vec<u8>)
    requires
        !usb_id_span_broken(id.spec_bytes()),
    ensures
        r@ == spec_usb_id(id.spec_bytes()),
{
    let bytes = id.as_bytes();
    match usb_span(bytes) {
        UsbSpan::Cut(a, c) => {
            let mut r: Vec<u8> = Vec::new();
            let mut i: usize = a;
            while i < c
                invariant
                    a <= i <= c <= bytes@.len(),
                    r@ == bytes@.subrange(a as int, i as int),
                decreases c - i,
            {
                r.push(bytes[i]);
                i = i + 1;
                assert(r@ =~= bytes@.subrange(a as int, i as int));
            }
            r
        },
        _ => Vec::new(),
    }
}

/// Whether the monitor device and the input device are the same USB device: the monitor
/// id carries a USB identity and the input id carries the same one. Monitoring through
/// the microphone's own USB device is refused.
pub fn shares_usb_device(monitor_id: &str, input_id: &str) -> (b: bool)
    requires
        !usb_id_span_broken(monitor_id.spec_bytes()),
        !usb_id_span_broken(input_id.spec_bytes()),
    ensures
        b == (spec_usb_id(monitor_id.spec_bytes()).len() > 0 && spec_usb_id(monitor_id.spec_bytes())
            == spec_usb_id(input_id.spec_bytes())),
{
    let m = usb_id(monitor_id);
    let i = usb_id(input_id);
    if m.len() == 0 || m.len() != i.len() {
        return false;
    }
    let mut k: usize = 0;
    while k < m.len()
        invariant
            m@ == spec_usb_id(monitor_id.spec_bytes()),
            i@ == spec_usb_id(input_id.spec_bytes()),
            m@.len() == i@.len(),
            k <= m@.len(),
            forall|j: int| 0 <= j < k ==> m@[j] == i@[j],
        decreases m@.len() - k,
    {
        if m[k] != i[k] {
            assert(m@[k as int] != i@[k as int]);
            return false;
        }
        k = k + 1;
    }
    assert(m@ =~= i@);
    true
}

/// Bytes of monitor staging buffer for frames of `frame_size` samples at the monitor's
/// `sample_rate`: room for `sample_rate / 48000 + 1` frames' worth of stereo 16-bit samples.
pub open spec fn spec_monitor_buffer_len(frame_size: int, sample_rate: int) -> int {
    frame_size * (sample_rate / 48000 + 1) * 2 * 2
}

/// The monitor staging buffer holds a whole frame resampled to the monitor's rate as
/// stereo 16-bit samples (`frame_size * sample_rate / 48000` frames of 4 bytes), and
/// exceeds that by less than one more frame's worth at 48 kHz. It is `k` blocks of
/// `frame_size` stereo 16-bit frames, `k` the least count of 48 kHz blocks that exceeds
/// the rate.
pub proof fn lemma_monitor_buffer_holds_resampled_frame(frame_size: nat, sample_rate: nat)
    ensures
        exists|k: nat|
            #![trigger k * 48000]
            spec_monitor_buffer_len(frame_size as int, sample_rate as int) == k * frame_size * 4 && (k
                - 1) * 48000 <= sample_rate < k * 48000,
        spec_monitor_buffer_len(frame_size as int, sample_rate as int) >= (frame_size * sample_rate
            / 48000) * 4,
        spec_monitor_buffer_len(frame_size as int, sample_rate as int) <= (frame_size * sample_rate
            / 48000) * 4 + frame_size * 4,
{
    let q = sample_rate / 48000;
    let r = sample_rate % 48000;
    assert(sample_rate == 48000 * q + r && 0 <= r < 48000) by {
        vstd::arithmetic::div_mod::lemma_fundamental_div_mod(sample_rate as int, 48000);
    }
    let p = frame_size * sample_rate / 48000;
    assert(frame_size * sample_rate == 48000 * (frame_size * q) + frame_size * r) by (nonlinear_arith)
        requires sample_rate == 48000 * q + r;
    assert(frame_size * r <= 48000 * frame_size) by (nonlinear_arith)
        requires 0 <= r < 48000;
    assert(frame_size * q <= p <= frame_size * q + frame_size) by (nonlinear_arith)
        requires
            frame_size * sample_rate == 48000 * (frame_size * q) + frame_size * r,
            0 <= frame_size * r <= 48000 * frame_size,
            p == frame_size * sample_rate / 48000;
    assert(spec_monitor_buffer_len(frame_size as int, sample_rate as int) == (frame_size * q + frame_size) * 4)
        by (nonlinear_arith)
        requires q == sample_rate / 48000;
    let k: nat = (q + 1) as nat;
    assert(spec_monitor_buffer_len(frame_size as int, sample_rate as int) == k * frame_size * 4) by (nonlinear_arith)
        requires
            spec_monitor_buffer_len(frame_size as int, sample_rate as int) == (frame_size * q + frame_size) * 4,
            k == q + 1;
    assert((k - 1) * 48000 <= sample_rate < k * 48000);
}

/// Size in bytes of the monitor staging buffer.
pub fn monitor_buffer_len(frame_size: usize, sample_rate: u32) -> (n: usize)
    requires
        spec_monitor_buffer_len(frame_size as int, sample_rate as int) <= usize::MAX,
    ensures
        n as int == spec_monitor_buffer_len(frame_size as int, sample_rate as int),
{
    let blocks: usize = (sample_rate / 48000) as usize + 1;
    proof {
        assert(frame_size * blocks * 4 <= usize::MAX);
        assert(frame_size * blocks <= frame_size * blocks * 4) by (nonlinear_arith)
            requires frame_size >= 0, blocks >= 1;
        assert(frame_size * blocks * 2 <= frame_size * blocks * 4) by (nonlinear_arith)
            requires frame_size >= 0, blocks >= 1;
    }
    frame_size * blocks * 2 * 2
}

/// The monitor stream's state as the processing thread sees it.
#[derive(Clone, Copy, PartialEq, Eq, Structural, Debug)]
pub struct MonitorSession {
    /// The monitor device has been opened since monitoring was last switched on.
    pub initialized: bool,
    /// The monitor stream is running.
    pub streaming: bool,
}

/// What the processing thread learns about monitoring.
#[derive(Clone, Copy, PartialEq, Eq, Structural, Debug)]
pub enum MonitorEvent {
    /// Start of a frame: whether monitoring is on, the tap point, and whether a monitor
    /// device is open.
    Frame { enabled: bool, point: u32, has_client: bool },
    /// The monitor device was (re)opened; `has_client` tells whether that succeeded.
    Opened { point: u32, has_client: bool },
    /// A stream start was attempted.
    StartResult { ok: bool },
}

/// What the processing thread should do next about monitoring.
#[derive(Clone, Copy, PartialEq, Eq, Structural, Debug)]
pub enum MonitorAction {
    /// Open the monitor device (its stream is not running afterwards).
    Open,
    /// Start the monitor stream.
    StartStream,
    /// Stop the monitor stream.
    StopStream,
    /// Nothing to do.
    Idle,
}

/// The session after `event`, and the action it asks for.
pub open spec fn spec_monitor_step(s: MonitorSession, event: MonitorEvent) -> (
    MonitorSession,
    MonitorAction,
) {
    match event {
        MonitorEvent::Frame { enabled, point, has_client } => if enabled {
            if !s.initialized {
                (MonitorSession { initialized: true, streaming: false }, MonitorAction::Open)
            } else if !s.streaming && point > 0 && has_client {
                (s, MonitorAction::StartStream)
            } else {
                (s, MonitorAction::Idle)
            }
        } else {
            (
                MonitorSession { initialized: false, streaming: false },
                if s.streaming && has_client {
                    MonitorAction::StopStream
                } else {
                    MonitorAction::Idle
                },
            )
        },
        MonitorEvent::Opened { point, has_client } => if !s.streaming && point > 0 && has_client {
            (s, MonitorAction::StartStream)
        } else {
            (s, MonitorAction::Idle)
        },
        MonitorEvent::StartResult { ok } => (
            MonitorSession { initialized: s.initialized, streaming: s.streaming || ok },
            MonitorAction::Idle,
        ),
    }
}

impl MonitorSession {
    /// A session with monitoring off.
    pub fn new() -> (s: Self)
        ensures
            !s.initialized,
            !s.streaming,
    {
        MonitorSession { initialized: false, streaming: false }
    }

    /// Advances the session by one event. With monitoring on, the device is opened once and
    /// the stream started when a tap point is chosen and a device is open; a failed start
    /// is retried on the next frame. With monitoring off, a running stream is stopped and
    /// the device is to be reopened when monitoring comes back.
    pub fn step(&mut self, event: MonitorEvent) -> (action: MonitorAction)
        ensures
            (*final(self), action) == spec_monitor_step(*old(self), event),
    {
        match event {
            MonitorEvent::Frame { enabled, point, has_client } => {
                if enabled {
                    if !self.initialized {
                        self.initialized = true;
                        self.streaming = false;
                        MonitorAction::Open
                    } else if !self.streaming && point > 0 && has_client {
                        MonitorAction::StartStream
                    } else {
                        MonitorAction::Idle
                    }
                } else {
                    let stop = self.streaming && has_client;
                    self.initialized = false;
                    self.streaming = false;
                    if stop {
                        MonitorAction::StopStream
                    } else {
                        MonitorAction::Idle
                    }
                }
            },
            MonitorEvent::Opened { point, has_client } => {
                if !self.streaming && point > 0 && has_client {
                    MonitorAction::StartStream
                } else {
                    MonitorAction::Idle
                }
            },
            MonitorEvent::StartResult { ok } => {
                if ok {
                    self.streaming = true;
                }
                MonitorAction::Idle
            },
        }
    }

    /// Whether the samples at tap point `target` go to the monitor: monitoring is on, the
    /// chosen point is `target`, the stream runs and a render client exists.
    pub fn taps(&self, enabled: bool, point: u32, target: u32, has_render: bool) -> (b: bool)
        ensures
            b == (enabled && point == target && self.streaming && has_render),
    {
        enabled && point == target && self.streaming && has_render
    }
}

/// The monitor stream control of a client opened up front: start the stream when
/// monitoring is wanted (switched on with a tap point chosen) and it is not running, stop
/// it when it is not wanted and running. The stream counts as running from the start
/// request on.
pub fn stream_toggle(wants: bool, streaming: bool) -> (action: MonitorAction)
    ensures
        action == if wants && !streaming {
            MonitorAction::StartStream
        } else if !wants && streaming {
            MonitorAction::StopStream
        } else {
            MonitorAction::Idle
        },
{
    if wants && !streaming {
        MonitorAction::StartStream
    } else if !wants && streaming {
        MonitorAction::StopStream
    } else {
        MonitorAction::Idle
    }
}

/// Once monitoring is switched off, the stream is not running and the device will be
/// reopened when monitoring comes back, whatever the session was.
pub proof fn lemma_monitor_off_resets(s: MonitorSession, point: u32, has_client: bool)
    ensures
        !spec_monitor_step(s, MonitorEvent::Frame { enabled: false, point, has_client }).0.streaming,
        !spec_monitor_step(s, MonitorEvent::Frame { enabled: false, point, has_client }).0.initialized,
{
}

/// The stream only comes to run through a successful start.
pub proof fn lemma_monitor_streaming_needs_start(s: MonitorSession, e: MonitorEvent)
    requires
        !s.streaming,
        spec_monitor_step(s, e).0.streaming,
    ensures
        e == (MonitorEvent::StartResult { ok: true }),
{
}

/// How a failed monitor write is reported.
#[derive(Clone, Copy, PartialEq, Eq, Structural, Debug)]
pub enum FailureReport {
    /// The first failure: report it in full.
    First,
    /// A summary: `times` failures so far, over `elapsed` seconds since the first.
    Summary { times: u64, elapsed: u64 },
    /// Stay quiet (a report was made less than ten seconds ago).
    Quiet,
}

/// A failure recorded at `now` (seconds): the log after it and how it is reported. The
/// first failure is reported in full and starts the clock; a later one is summarised when
/// the last report is at least ten seconds old, and kept quiet otherwise.
pub open spec fn spec_record(l: FailureLog, now: u64) -> (FailureLog, FailureReport) {
    let count = (l.count + 1) as u64;
    if l.count == 0 {
        (FailureLog { count, first_time: now, last_report: now }, FailureReport::First)
    } else if now >= l.last_report + 10 {
        (
            FailureLog { count, first_time: l.first_time, last_report: now },
            FailureReport::Summary {
                times: count,
                elapsed: if now >= l.first_time { (now - l.first_time) as u64 } else { 0 },
            },
        )
    } else {
        (FailureLog { count, first_time: l.first_time, last_report: l.last_report }, FailureReport::Quiet)
    }
}

/// Two reports are never less than ten seconds apart: when a failure at `t1` is reported,
/// a failure at `t2` before `t1 + 10` is kept quiet.
pub proof fn lemma_reports_spaced(l: FailureLog, t1: u64, t2: u64)
    requires
        l.count < u64::MAX,
        !(spec_record(l, t1).1 is Quiet),
        t2 < t1 + 10,
    ensures
        spec_record(spec_record(l, t1).0, t2).1 is Quiet,
{
}

/// Rate limiting of monitor write failure reports.
#[derive(Clone, Copy, PartialEq, Eq, Structural, Debug)]
pub struct FailureLog {
    pub count: u64,
    pub first_time: u64,
    pub last_report: u64,
}

impl FailureLog {
    pub fn new() -> (l: Self)
        ensures
            l.count == 0,
            l.first_time == 0,
            l.last_report == 0,
    {
        FailureLog { count: 0, first_time: 0, last_report: 0 }
    }

    /// Records a failure at `now` (seconds): the first failure is reported in full and
    /// starts the clock; later ones are summarised at most once per ten seconds.
    pub fn record(&mut self, now: u64) -> (r: FailureReport)
        requires
            old(self).count < u64::MAX,
        ensures
            (*final(self), r) == spec_record(*old(self), now),
    {
        let before: u64 = self.count;
        self.count = before + 1;
        if before == 0 {
            self.first_time = now;
            self.last_report = now;
            FailureReport::First
        } else if now.saturating_sub(self.last_report) >= 10 {
            let elapsed: u64 = now.saturating_sub(self.first_time);
            self.last_report = now;
            FailureReport::Summary { times: before + 1, elapsed }
        } else {
            FailureReport::Quiet
        }
    }
}

} // verus!
