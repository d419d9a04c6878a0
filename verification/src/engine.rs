//! Control decisions of the audio engine: when it may start or switch models, the frame
//! and drop counters of the processing thread, the detector that rebuilds a model whose
//! output collapsed, and the bookkeeping of the background-music capture loop.

use vstd::prelude::*;

verus! {

/// Why an engine request is refused.
#[derive(Clone, Copy, PartialEq, Eq, Structural, Debug)]
pub enum EngineError {
    /// `start` while the engine runs.
    AlreadyRunning,
    /// A model switch while the engine is stopped.
    NotRunning,
}

impl EngineError {
    pub open spec fn spec_message(self) -> Seq<char> {
        match self {
            EngineError::AlreadyRunning => "Engine is already running"@,
            EngineError::NotRunning => "Engine is not running"@,
        }
    }

    /// The message the user sees.
    pub fn message(self) -> (m: String)
        ensures
            m@ == self.spec_message(),
    {
        match self {
            EngineError::AlreadyRunning => String::from_str("Engine is already running"),
            EngineError::NotRunning => String::from_str("Engine is not running"),
        }
    }
}

/// The engine starts only when it is not running already.
pub fn check_start(running: bool) -> (r: Result<(), EngineError>)
    ensures
        r == if running { Err(EngineError::AlreadyRunning) } else { Ok(()) },
{
    if running {
        Err(EngineError::AlreadyRunning)
    } else {
        Ok(())
    }
}

/// A model switch is accepted only while the engine runs.
pub fn check_model_switch(running: bool) -> (r: Result<(), EngineError>)
    ensures
        r == if running { Ok(()) } else { Err(EngineError::NotRunning) },
{
    if running {
        Ok(())
    } else {
        Err(EngineError::NotRunning)
    }
}

/// Frames the processing thread handles before a failed hand-over to the render thread
/// counts as dropped: the render side is still starting up.
pub const WARMUP_FRAMES: u64 = 100;

/// Frame and drop counters of the processing thread.
#[derive(Clone, Copy, PartialEq, Eq, Structural, Debug)]
pub struct FrameCounters {
    pub frame_count: u64,
    pub frames_dropped: u64,
}

/// The counters after one frame handed over (`pushed`) or not.
pub open spec fn counters_after_frame(c: FrameCounters, pushed: bool) -> FrameCounters {
    FrameCounters {
        frame_count: (c.frame_count + 1) as u64,
        frames_dropped: if !pushed && c.frame_count + 1 > WARMUP_FRAMES {
            (c.frames_dropped + 1) as u64
        } else {
            c.frames_dropped
        },
    }
}

impl FrameCounters {
    pub fn new() -> (c: Self)
        ensures
            c.frame_count == 0,
            c.frames_dropped == 0,
    {
        FrameCounters { frame_count: 0, frames_dropped: 0 }
    }

    /// Counts a newly pulled frame.
    pub fn begin_frame(&mut self)
        requires
            old(self).frame_count < u64::MAX,
        ensures
            final(self).frame_count == old(self).frame_count + 1,
            final(self).frames_dropped == old(self).frames_dropped,
    {
        self.frame_count = self.frame_count + 1;
    }

    /// Whether the level and spectrum statistics are refreshed on this frame (every fifth).
    pub fn stats_due(&self) -> (b: bool)
        ensures
            b == (self.frame_count % 5 == 0),
    {
        self.frame_count % 5 == 0
    }

    /// Whether the detailed development trace is written on this frame (every 500th,
    /// starting with the first).
    pub fn trace_due(&self) -> (b: bool)
        ensures
            b == (self.frame_count % 500 == 1),
    {
        self.frame_count % 500 == 1
    }

    /// Records whether the frame could be handed to the render thread; a failure counts as
    /// a drop once the warm-up frames are over.
    pub fn record_handover(&mut self, pushed: bool)
        requires
            old(self).frames_dropped < u64::MAX,
        ensures
            final(self).frame_count == old(self).frame_count,
            final(self).frames_dropped == if !pushed && old(self).frame_count > WARMUP_FRAMES {
                old(self).frames_dropped + 1
            } else {
                old(self).frames_dropped as int
            },
    {
        if !pushed && self.frame_count > WARMUP_FRAMES {
            self.frames_dropped = self.frames_dropped + 1;
        }
    }
}

/// Drops are never counted during warm-up: starting from zero, frame by frame, the drop
/// count stays at most the number of frames after the warm-up ones.
pub proof fn lemma_no_warmup_drops(c: FrameCounters, pushed: bool)
    requires
        c.frame_count < u64::MAX,
        c.frames_dropped + WARMUP_FRAMES <= c.frame_count || c.frames_dropped == 0,
    ensures
        ({
            let n = counters_after_frame(c, pushed);
            n.frames_dropped + WARMUP_FRAMES <= n.frame_count || n.frames_dropped == 0
        }),
{
}

/// The counters after frames handed over with the results `pushes`, in order, from fresh
/// counters.
pub open spec fn counters_after_frames(pushes: Seq<bool>) -> FrameCounters
    decreases pushes.len(),
{
    if pushes.len() == 0 {
        FrameCounters { frame_count: 0, frames_dropped: 0 }
    } else {
        counters_after_frame(counters_after_frames(pushes.drop_last()), pushes.last())
    }
}

/// The numbers (counting from 1) of the frames after the warm-up whose hand-over failed.
pub open spec fn late_failures(pushes: Seq<bool>) -> Seq<int> {
    Seq::new(pushes.len(), |i: int| i + 1).filter(|k: int| k > WARMUP_FRAMES && !pushes[k - 1])
}

/// Filtering with predicates that agree on every element gives the same result.
proof fn lemma_filter_agree(s: Seq<int>, p: spec_fn(int) -> bool, q: spec_fn(int) -> bool)
    requires
        forall|i: int| 0 <= i < s.len() ==> p(#[trigger] s[i]) == q(s[i]),
    ensures
        s.filter(p) == s.filter(q),
    decreases s.len(),
{
    reveal(Seq::filter);
    if s.len() > 0 {
        let d = s.drop_last();
        assert forall|i: int| 0 <= i < d.len() implies p(#[trigger] d[i]) == q(d[i]) by {
            assert(d[i] == s[i]);
        }
        lemma_filter_agree(d, p, q);
        assert(s.last() == s[s.len() - 1]);
    }
}

/// The drop count is exactly the number of frames after the warm-up whose hand-over to
/// the render thread failed, and the frame count the number of frames.
pub proof fn lemma_drops_count_late_failures(pushes: Seq<bool>)
    requires
        pushes.len() < u64::MAX,
    ensures
        counters_after_frames(pushes).frame_count == pushes.len(),
        counters_after_frames(pushes).frames_dropped == late_failures(pushes).len(),
    decreases pushes.len(),
{
    reveal(Seq::filter);
    if pushes.len() > 0 {
        let d = pushes.drop_last();
        lemma_drops_count_late_failures(d);
        let n = pushes.len() as int;
        let all = Seq::new(n as nat, |i: int| i + 1);
        let p = |k: int| k > WARMUP_FRAMES && !pushes[k - 1];
        let q = |k: int| k > WARMUP_FRAMES && !d[k - 1];
        assert(all.drop_last() =~= Seq::new((n - 1) as nat, |i: int| i + 1));
        assert forall|i: int| 0 <= i < all.drop_last().len() implies p(#[trigger] all.drop_last()[i]) == q(
            all.drop_last()[i],
        ) by {
            assert(pushes[i] == d[i]);
        }
        lemma_filter_agree(all.drop_last(), p, q);
        assert(all.last() == n);
        assert(pushes[n - 1] == pushes.last());
        assert(counters_after_frames(d).frames_dropped <= d.len()) by {
            Seq::new(d.len(), |i: int| i + 1).lemma_filter_len(q);
        }
    }
}

/// Frames in a row with a loud input but a silent model output after which the model is
/// considered broken (typically by echo feedback) and rebuilt.
pub const COLLAPSE_LIMIT: u32 = 10;

/// Watches for a noise-suppression model whose output collapsed.
#[derive(Clone, Copy, PartialEq, Eq, Structural, Debug)]
pub struct CollapseWatch {
    pub consecutive: u32,
}

impl CollapseWatch {
    pub fn new() -> (w: Self)
        ensures
            w.consecutive == 0,
    {
        CollapseWatch { consecutive: 0 }
    }

    /// Observes one frame (`suspicious`: loud input, near-silent output) and tells whether
    /// the model must be rebuilt now: on the tenth suspicious frame in a row, after which
    /// the count starts over; any normal frame resets the count.
    pub fn observe(&mut self, suspicious: bool) -> (rebuild: bool)
        requires
            old(self).consecutive < COLLAPSE_LIMIT,
        ensures
            final(self).consecutive < COLLAPSE_LIMIT,
            (final(self).consecutive, rebuild) == collapse_step(old(self).consecutive, suspicious),
    {
        if suspicious {
            self.consecutive = self.consecutive + 1;
            if self.consecutive >= COLLAPSE_LIMIT {
                self.consecutive = 0;
                return true;
            }
            false
        } else {
            self.consecutive = 0;
            false
        }
    }
}

/// One observation of the collapse watch: the new count of suspicious frames in a row and
/// whether the model is rebuilt (on the tenth, after which the count starts over).
pub open spec fn collapse_step(count: u32, suspicious: bool) -> (u32, bool) {
    if suspicious && count + 1 >= COLLAPSE_LIMIT {
        (0, true)
    } else if suspicious {
        ((count + 1) as u32, false)
    } else {
        (0, false)
    }
}

/// The watch's count after observing `frames` in turn from a fresh watch.
pub open spec fn collapse_count(frames: Seq<bool>) -> u32
    decreases frames.len(),
{
    if frames.len() == 0 {
        0
    } else {
        collapse_step(collapse_count(frames.drop_last()), frames.last()).0
    }
}

/// The watch's count is the length of the current run of suspicious frames (and stays
/// below the limit).
proof fn lemma_collapse_count_is_run(frames: Seq<bool>)
    ensures
        collapse_count(frames) < COLLAPSE_LIMIT,
        collapse_count(frames) <= frames.len(),
        forall|i: int| frames.len() - collapse_count(frames) <= i < frames.len() ==> frames[i],
    decreases frames.len(),
{
    if frames.len() > 0 {
        let prev = frames.drop_last();
        lemma_collapse_count_is_run(prev);
        assert forall|i: int| frames.len() - collapse_count(frames) <= i < frames.len() implies frames[i] by {
            if i < frames.len() - 1 {
                assert(frames[i] == prev[i]);
            }
        }
    }
}

/// A model is rebuilt only on the last of ten suspicious frames in a row: when the frame
/// after `frames` triggers a rebuild, it and the nine frames before it were all suspicious.
pub proof fn lemma_rebuild_needs_run(frames: Seq<bool>, suspicious: bool)
    requires
        collapse_step(collapse_count(frames), suspicious).1,
    ensures
        suspicious,
        frames.len() >= COLLAPSE_LIMIT - 1,
        forall|i: int| frames.len() - (COLLAPSE_LIMIT - 1) <= i < frames.len() ==> frames[i],
{
    lemma_collapse_count_is_run(frames);
}

/// Read failures in a row after which the captured process is taken to have exited.
pub const LOOPBACK_ERROR_LIMIT: u32 = 10;

/// Bookkeeping of the background-music capture loop.
#[derive(Clone, Copy, PartialEq, Eq, Structural, Debug)]
pub struct LoopbackCounters {
    pub frame_count: u64,
    pub consecutive_errors: u32,
}

impl LoopbackCounters {
    pub fn new() -> (c: Self)
        ensures
            c.frame_count == 0,
            c.consecutive_errors == 0,
    {
        LoopbackCounters { frame_count: 0, consecutive_errors: 0 }
    }

    /// A successful read clears the error run.
    pub fn read_succeeded(&mut self)
        ensures
            final(self).consecutive_errors == read_step(old(self).consecutive_errors, true).0,
            final(self).frame_count == old(self).frame_count,
    {
        self.consecutive_errors = 0;
    }

    /// A failed read extends the error run; returns whether capture must stop (ten in a row).
    pub fn read_failed(&mut self) -> (stop: bool)
        requires
            old(self).consecutive_errors < u32::MAX,
        ensures
            (final(self).consecutive_errors, stop) == read_step(old(self).consecutive_errors, false),
            final(self).frame_count == old(self).frame_count,
    {
        self.consecutive_errors = self.consecutive_errors + 1;
        self.consecutive_errors >= LOOPBACK_ERROR_LIMIT
    }

    /// Drift compensation: with a skip interval `n` (at least 2), every frame whose count is
    /// a multiple of `n` is dropped; a dropped frame still advances the count.
    pub fn skip_frame(&mut self, interval: Option<u64>) -> (skip: bool)
        requires
            old(self).frame_count < u64::MAX,
            interval matches Some(n) ==> n >= 2,
        ensures
            skip == (interval matches Some(n) && old(self).frame_count % n == 0),
            final(self).frame_count == if skip { old(self).frame_count + 1 } else {
                old(self).frame_count as int
            },
            final(self).consecutive_errors == old(self).consecutive_errors,
    {
        match interval {
            Some(n) => {
                if self.frame_count % n == 0 {
                    self.frame_count = self.frame_count + 1;
                    true
                } else {
                    false
                }
            },
            None => false,
        }
    }

    /// Counts a captured frame that is passed on; returns whether it gets a trace line
    /// (every hundredth, starting with the first).
    pub fn frame_captured(&mut self) -> (trace: bool)
        requires
            old(self).frame_count < u64::MAX,
        ensures
            final(self).frame_count == old(self).frame_count + 1,
            final(self).consecutive_errors == old(self).consecutive_errors,
            trace == (final(self).frame_count % 100 == 1),
    {
        self.frame_count = self.frame_count + 1;
        self.frame_count % 100 == 1
    }
}

/// One read of the capture loop (`ok` when it succeeded): the new count of failed reads in
/// a row and whether capture stops (at ten).
pub open spec fn read_step(errors: u32, ok: bool) -> (u32, bool) {
    if ok {
        (0, false)
    } else {
        (((errors + 1) % 0x1_0000_0000) as u32, errors + 1 >= LOOPBACK_ERROR_LIMIT)
    }
}

/// The count of failed reads in a row after the reads `reads` (`true` for a success), from
/// fresh counters.
pub open spec fn error_run(reads: Seq<bool>) -> u32
    decreases reads.len(),
{
    if reads.len() == 0 {
        0
    } else {
        read_step(error_run(reads.drop_last()), reads.last()).0
    }
}

/// The error count never exceeds the current run of failed reads.
proof fn lemma_error_run_is_run(reads: Seq<bool>)
    ensures
        error_run(reads) <= reads.len(),
        forall|i: int| reads.len() - error_run(reads) <= i < reads.len() ==> !reads[i],
    decreases reads.len(),
{
    if reads.len() > 0 {
        let prev = reads.drop_last();
        lemma_error_run_is_run(prev);
        assert forall|i: int| reads.len() - error_run(reads) <= i < reads.len() implies !reads[i] by {
            if i < reads.len() - 1 {
                assert(reads[i] == prev[i]);
            }
        }
    }
}

/// Capture stops only on the last of ten failed reads in a row: when the read after
/// `reads` stops it, that read and the nine before it all failed.
pub proof fn lemma_stop_needs_failures(reads: Seq<bool>, ok: bool)
    requires
        read_step(error_run(reads), ok).1,
    ensures
        !ok,
        reads.len() >= LOOPBACK_ERROR_LIMIT - 1,
        forall|i: int| reads.len() - (LOOPBACK_ERROR_LIMIT - 1) <= i < reads.len() ==> !reads[i],
{
    lemma_error_run_is_run(reads);
}

/// Attempts at warming up the input stream.
pub const WARMUP_ATTEMPTS: u32 = 3;

/// What follows a warm-up attempt on the input stream.
#[derive(Clone, Copy, PartialEq, Eq, Structural, Debug)]
pub enum WarmupStep {
    /// The device delivers signal: start processing.
    Ready,
    /// No signal: restart the stream, then try again (`retry`) or give up.
    Restart { retry: bool },
}

/// The step after warm-up attempt `attempt` (counting from 0): ready once a signal came;
/// otherwise the stream is restarted, and tried again while fewer than three attempts were
/// made.
pub fn warmup_after_attempt(attempt: u32, got_signal: bool) -> (step: WarmupStep)
    ensures
        step == if got_signal {
            WarmupStep::Ready
        } else {
            WarmupStep::Restart { retry: attempt + 1 < WARMUP_ATTEMPTS }
        },
{
    if got_signal {
        WarmupStep::Ready
    } else {
        WarmupStep::Restart { retry: attempt < WARMUP_ATTEMPTS - 1 }
    }
}

/// The next buffer of a pool of `pool_len` rotating buffers.
pub fn next_buffer(index: usize, pool_len: usize) -> (r: usize)
    requires
        pool_len > 0,
        index < pool_len,
    ensures
        r == (index + 1) % (pool_len as int),
        r < pool_len,
{
    (index + 1) % pool_len
}

} // verus!
