//! Cutting captured audio into segments: the frame counts that the timing
//! settings stand for, when a segment starts and ends, when a rolling
//! window is sent for transcription, and which segments are kept.
use crate::text::{all_ws, is_blank};
use crate::translate::{opt_str, or_default, text_or_default};
use vstd::prelude::*;

verus! {

/// `a + b`, held at `u64::MAX`.
pub open spec fn sat_add(a: u64, b: u64) -> u64 {
    if a + b > u64::MAX {
        u64::MAX
    } else {
        (a + b) as u64
    }
}

/// `a * b`, held at `u64::MAX`.
pub open spec fn sat_mul(a: u64, b: u64) -> u64 {
    if a * b > u64::MAX {
        u64::MAX
    } else {
        (a * b) as u64
    }
}

/// The number of frames in `ms` milliseconds at a sample rate (the product
/// saturates before the division).
pub open spec fn frames_of(ms: u64, sample_rate: u32) -> u64 {
    (sat_mul(ms, sample_rate as u64) / 1000) as u64
}

fn mul_sat(a: u64, b: u64) -> (r: u64)
    ensures
        r == sat_mul(a, b),
{
    match a.checked_mul(b) {
        Some(p) => p,
        None => u64::MAX,
    }
}

/// The number of frames in `ms` milliseconds at a sample rate (see
/// `frames_of`).
pub fn frames_for_ms(ms: u64, sample_rate: u32) -> (r: u64)
    ensures
        r == frames_of(ms, sample_rate),
{
    mul_sat(ms, sample_rate as u64) / 1000
}

/// The length in milliseconds of `samples` interleaved samples of
/// `channels` channels: whole frames times 1000 (saturating) over the rate,
/// 0 at a rate of 0.
pub open spec fn duration_of(samples: u64, channels: u16, sample_rate: u32) -> u64 {
    if sample_rate == 0 {
        0
    } else {
        (sat_mul((samples / (channels as u64)) as u64, 1000) / (sample_rate as u64)) as u64
    }
}

/// The length in milliseconds of some interleaved samples (see
/// `duration_of`).
pub fn duration_ms(samples: u64, channels: u16, sample_rate: u32) -> (r: u64)
    requires
        channels > 0,
    ensures
        r == duration_of(samples, channels, sample_rate),
{
    if sample_rate == 0 {
        return 0;
    }
    let frames = samples / (channels as u64);
    mul_sat(frames, 1000) / (sample_rate as u64)
}

/// The timing settings of the capture, in milliseconds.
#[derive(Debug, Clone, Copy)]
pub struct CaptureTiming {
    pub min_segment_ms: u64,
    pub min_silence_ms: u64,
    pub max_segment_ms: u64,
    pub pre_roll_ms: u64,
    pub rolling_enabled: bool,
    pub window_transcribe_enabled: bool,
    pub rolling_window_ms: u64,
    pub rolling_step_ms: u64,
    pub rolling_min_ms: u64,
}

/// The timing settings as frame and sample counts for a device.
#[derive(Debug, Clone, Copy)]
pub struct CaptureLimits {
    pub min_segment_frames: u64,
    pub min_silence_frames: u64,
    pub max_segment_frames: u64,
    pub pre_roll_samples: u64,
    pub rolling_active: bool,
    pub rolling_window_samples: u64,
    pub rolling_step_frames: u64,
    pub rolling_min_samples: u64,
}

/// The limits that timing settings give at a sample rate and channel
/// count: each time in frames (see `frames_of`), the pre-roll, window and
/// minimum window in samples (frames times channels, saturating); rolling
/// windows are sent only when both switches are on and the window and step
/// are not empty.
pub fn capture_limits(timing: &CaptureTiming, sample_rate: u32, channels: u16) -> (r: CaptureLimits)
    ensures
        r.min_segment_frames == frames_of(timing.min_segment_ms, sample_rate),
        r.min_silence_frames == frames_of(timing.min_silence_ms, sample_rate),
        r.max_segment_frames == frames_of(timing.max_segment_ms, sample_rate),
        r.pre_roll_samples == sat_mul(frames_of(timing.pre_roll_ms, sample_rate), channels as u64),
        r.rolling_window_samples == sat_mul(frames_of(timing.rolling_window_ms, sample_rate), channels as u64),
        r.rolling_step_frames == frames_of(timing.rolling_step_ms, sample_rate),
        r.rolling_min_samples == sat_mul(frames_of(timing.rolling_min_ms, sample_rate), channels as u64),
        r.rolling_active == (timing.rolling_enabled && timing.window_transcribe_enabled
            && frames_of(timing.rolling_window_ms, sample_rate) > 0 && frames_of(
            timing.rolling_step_ms,
            sample_rate,
        ) > 0),
{
    let window_frames = frames_for_ms(timing.rolling_window_ms, sample_rate);
    let step_frames = frames_for_ms(timing.rolling_step_ms, sample_rate);
    CaptureLimits {
        min_segment_frames: frames_for_ms(timing.min_segment_ms, sample_rate),
        min_silence_frames: frames_for_ms(timing.min_silence_ms, sample_rate),
        max_segment_frames: frames_for_ms(timing.max_segment_ms, sample_rate),
        pre_roll_samples: mul_sat(frames_for_ms(timing.pre_roll_ms, sample_rate), channels as u64),
        rolling_active: timing.rolling_enabled && timing.window_transcribe_enabled && window_frames > 0
            && step_frames > 0,
        rolling_window_samples: mul_sat(window_frames, channels as u64),
        rolling_step_frames: step_frames,
        rolling_min_samples: mul_sat(frames_for_ms(timing.rolling_min_ms, sample_rate), channels as u64),
    }
}

/// What to do with one block of captured audio.
#[derive(Debug, Clone, Copy, PartialEq, Eq, Structural)]
pub enum CaptureStep {
    /// Silence while no segment is open: only keep it as pre-roll.
    Wait,
    /// Sound after silence: open a segment with the pre-roll and the block.
    Start,
    /// Add the block to the open segment.
    Append,
    /// Add the block to the open segment and close it.
    Finish,
}

/// Where the cutting of the captured audio stands: whether a segment is
/// open, how many frames it has, and how many silent frames end it.
#[derive(Debug)]
pub struct Segmenter {
    pub recording: bool,
    pub segment_frames: u64,
    pub silence_frames: u64,
}

/// Whether an open segment closes: it is long enough and has been silent
/// long enough, or it reached the maximum length (when there is one).
pub open spec fn closes(limits: CaptureLimits, segment_frames: u64, silence_frames: u64) -> bool {
    (segment_frames >= limits.min_segment_frames && silence_frames >= limits.min_silence_frames) || (
    limits.max_segment_frames > 0 && segment_frames >= limits.max_segment_frames)
}

/// One step of the cutting (see `Segmenter::step`): from whether a segment
/// is open and its frame and silent-frame counts, the action and the new
/// state.
pub open spec fn segmenter_step(
    recording: bool,
    segment_frames: u64,
    silence_frames: u64,
    limits: CaptureLimits,
    frame_count: u64,
    pre_roll_frames: u64,
    silent: bool,
) -> (CaptureStep, bool, u64, u64) {
    if recording {
        let seg = sat_add(segment_frames, frame_count);
        let sil = if silent {
            sat_add(silence_frames, frame_count)
        } else {
            0
        };
        if closes(limits, seg, sil) {
            (CaptureStep::Finish, false, 0, 0)
        } else {
            (CaptureStep::Append, true, seg, sil)
        }
    } else if silent {
        (CaptureStep::Wait, false, segment_frames, silence_frames)
    } else {
        (CaptureStep::Start, true, sat_add(sat_add(segment_frames, pre_roll_frames), frame_count), 0)
    }
}

impl Segmenter {
    /// No segment open.
    pub fn new() -> (r: Segmenter)
        ensures
            !r.recording,
            r.segment_frames == 0,
            r.silence_frames == 0,
    {
        Segmenter { recording: false, segment_frames: 0, silence_frames: 0 }
    }

    /// Takes in a block of `frame_count` frames, silent or not;
    /// `pre_roll_frames` is the length of the pre-roll that a new segment
    /// starts with. An open segment grows by the block, its silent run grows
    /// by a silent block and restarts at a loud one, and it closes (see
    /// `closes`), the counts starting again from zero. With no segment open,
    /// a loud block opens one with the pre-roll and the block; a silent one
    /// changes nothing.
    pub fn step(&mut self, limits: &CaptureLimits, frame_count: u64, pre_roll_frames: u64, silent: bool) -> (r: CaptureStep)
        ensures
            (r, final(self).recording, final(self).segment_frames, final(self).silence_frames)
                == segmenter_step(
                old(self).recording,
                old(self).segment_frames,
                old(self).silence_frames,
                *limits,
                frame_count,
                pre_roll_frames,
                silent,
            ),
    {
        if self.recording {
            self.segment_frames = self.segment_frames.saturating_add(frame_count);
            if silent {
                self.silence_frames = self.silence_frames.saturating_add(frame_count);
            } else {
                self.silence_frames = 0;
            }
            let reached_min = self.segment_frames >= limits.min_segment_frames;
            let reached_silence = self.silence_frames >= limits.min_silence_frames;
            let reached_max = limits.max_segment_frames > 0 && self.segment_frames >= limits.max_segment_frames;
            if (reached_min && reached_silence) || reached_max {
                self.recording = false;
                self.segment_frames = 0;
                self.silence_frames = 0;
                CaptureStep::Finish
            } else {
                CaptureStep::Append
            }
        } else if silent {
            CaptureStep::Wait
        } else {
            self.segment_frames = self.segment_frames.saturating_add(pre_roll_frames).saturating_add(frame_count);
            self.silence_frames = 0;
            self.recording = true;
            CaptureStep::Start
        }
    }
}

/// While no segment is open the count of its frames stays at zero: a
/// segmenter that starts empty opens every segment with exactly its
/// pre-roll and first block.
pub proof fn idle_segmenter_stays_empty(
    recording: bool,
    segment_frames: u64,
    silence_frames: u64,
    limits: CaptureLimits,
    frame_count: u64,
    pre_roll_frames: u64,
    silent: bool,
)
    requires
        !recording ==> segment_frames == 0,
    ensures
        ({
            let (step, rec, seg, _) = segmenter_step(
                recording,
                segment_frames,
                silence_frames,
                limits,
                frame_count,
                pre_roll_frames,
                silent,
            );
            &&& !rec ==> seg == 0
            &&& step == CaptureStep::Start ==> seg == sat_add(pre_roll_frames, frame_count)
        }),
{
}

/// A segment that stays open is shorter than the maximum length, when one
/// is set: the block that reaches the maximum closes it.
pub proof fn open_segment_below_max(
    recording: bool,
    segment_frames: u64,
    silence_frames: u64,
    limits: CaptureLimits,
    frame_count: u64,
    pre_roll_frames: u64,
    silent: bool,
)
    requires
        limits.max_segment_frames > 0,
    ensures
        ({
            let (step, rec, seg, _) = segmenter_step(
                recording,
                segment_frames,
                silence_frames,
                limits,
                frame_count,
                pre_roll_frames,
                silent,
            );
            step == CaptureStep::Append ==> seg < limits.max_segment_frames
        }),
{
}

/// An open segment closes exactly when, with the new block (and held at
/// `u64::MAX`), it holds at least the minimum number of frames and ends in
/// at least the minimum run of silent frames, or it reaches the maximum when
/// one is set. In particular a segment still shorter than the minimum and
/// than the maximum (or with no maximum) is only appended to, however long
/// its silence; and a loud block restarts the silent run.
pub proof fn open_segment_closes_only_when_due(
    segment_frames: u64,
    silence_frames: u64,
    limits: CaptureLimits,
    frame_count: u64,
    pre_roll_frames: u64,
    silent: bool,
)
    ensures
        ({
            let total = segment_frames + frame_count;
            let seg: int = if total > u64::MAX {
                u64::MAX as int
            } else {
                total
            };
            let sil_total = if silent {
                silence_frames + frame_count
            } else {
                0
            };
            let sil: int = if sil_total > u64::MAX {
                u64::MAX as int
            } else {
                sil_total
            };
            let (step, rec, seg2, sil2) = segmenter_step(
                true,
                segment_frames,
                silence_frames,
                limits,
                frame_count,
                pre_roll_frames,
                silent,
            );
            &&& (step == CaptureStep::Finish) == ((seg >= limits.min_segment_frames && sil
                >= limits.min_silence_frames) || (limits.max_segment_frames > 0 && seg
                >= limits.max_segment_frames))
            &&& step == CaptureStep::Finish || step == CaptureStep::Append
            &&& step == CaptureStep::Finish ==> !rec && seg2 == 0 && sil2 == 0
            &&& step == CaptureStep::Append ==> rec && seg2 == seg && sil2 == sil
            &&& (seg < limits.min_segment_frames && (limits.max_segment_frames == 0 || seg
                < limits.max_segment_frames)) ==> step == CaptureStep::Append
        }),
{
}

/// With no segment open, a silent block only waits and a loud block opens a
/// segment holding the pre-roll and the block.
pub proof fn idle_segmenter_opens_on_sound(
    segment_frames: u64,
    silence_frames: u64,
    limits: CaptureLimits,
    frame_count: u64,
    pre_roll_frames: u64,
    silent: bool,
)
    ensures
        ({
            let (step, rec, seg2, sil2) = segmenter_step(
                false,
                segment_frames,
                silence_frames,
                limits,
                frame_count,
                pre_roll_frames,
                silent,
            );
            &&& silent ==> step == CaptureStep::Wait && !rec && seg2 == segment_frames && sil2
                == silence_frames
            &&& !silent ==> step == CaptureStep::Start && rec && sil2 == 0 && (segment_frames == 0
                && segment_frames + pre_roll_frames + frame_count <= u64::MAX ==> seg2
                == pre_roll_frames + frame_count)
        }),
{
}

/// The actions and the final state of the cutting over a run of blocks
/// (frame count, pre-roll length, silent), from no open segment.
pub open spec fn segmenter_run(limits: CaptureLimits, blocks: Seq<(u64, u64, bool)>) -> (
    Seq<CaptureStep>,
    bool,
    u64,
    u64,
)
    decreases blocks.len(),
{
    if blocks.len() == 0 {
        (seq![], false, 0, 0)
    } else {
        let (acts, rec, seg, sil) = segmenter_run(limits, blocks.drop_last());
        let b = blocks.last();
        let (a, rec2, seg2, sil2) = segmenter_step(rec, seg, sil, limits, b.0, b.1, b.2);
        (acts.push(a), rec2, seg2, sil2)
    }
}

/// How many of the actions are `step`.
pub open spec fn count_steps(acts: Seq<CaptureStep>, step: CaptureStep) -> nat
    decreases acts.len(),
{
    if acts.len() == 0 {
        0
    } else {
        count_steps(acts.drop_last(), step) + if acts.last() == step {
            1nat
        } else {
            0nat
        }
    }
}

/// Over a whole run from no open segment: there is one action per block; a
/// segment opens only at a loud block while none is open, and silence while
/// none is open only waits; the blocks before each action leave a segment
/// open exactly when more segments were opened than closed; and every
/// segment opened is closed once, the one still open (if any) being left
/// for the end of the capture.
pub proof fn segments_open_and_close_in_turn(limits: CaptureLimits, blocks: Seq<(u64, u64, bool)>)
    ensures
        ({
            let (acts, rec, _, _) = segmenter_run(limits, blocks);
            &&& acts.len() == blocks.len()
            &&& count_steps(acts, CaptureStep::Start) == count_steps(acts, CaptureStep::Finish) + if rec {
                1nat
            } else {
                0nat
            }
            &&& forall|i: int| 0 <= i < acts.len() && acts[i] == CaptureStep::Start ==> !blocks[i].2
            &&& forall|i: int|
                0 <= i < acts.len() ==> ((acts[i] == CaptureStep::Start || acts[i] == CaptureStep::Wait)
                    <==> count_steps(acts.take(i), CaptureStep::Start) == count_steps(
                    acts.take(i),
                    CaptureStep::Finish,
                ))
        }),
    decreases blocks.len(),
{
    if blocks.len() > 0 {
        let prev = blocks.drop_last();
        segments_open_and_close_in_turn(limits, prev);
        let (acts0, rec0, seg0, sil0) = segmenter_run(limits, prev);
        let (acts, rec, _, _) = segmenter_run(limits, blocks);
        assert(acts.drop_last() =~= acts0);
        assert forall|i: int| 0 <= i < acts.len() implies (acts[i] == CaptureStep::Start ==> !blocks[i].2)
            && ((acts[i] == CaptureStep::Start || acts[i] == CaptureStep::Wait) <==> count_steps(
            acts.take(i),
            CaptureStep::Start,
        ) == count_steps(acts.take(i), CaptureStep::Finish)) by {
            if i < acts0.len() {
                assert(acts[i] == acts0[i]);
                assert(blocks[i] == prev[i]);
                assert(acts.take(i) =~= acts0.take(i));
            } else {
                assert(acts.take(i) =~= acts0);
            }
        }
    }
}

/// The frames of a segment opened at block `o`, through block `i`: the
/// pre-roll it opened with and every block since (held at `u64::MAX`).
pub open spec fn open_frames(blocks: Seq<(u64, u64, bool)>, o: int, i: int) -> u64
    decreases i - o,
{
    if i <= o {
        sat_add(blocks[o].1, blocks[o].0)
    } else {
        sat_add(open_frames(blocks, o, i - 1), blocks[i].0)
    }
}

/// The frames of the run of silent blocks that ends a segment opened at
/// block `o`, through block `i` (held at `u64::MAX`).
pub open spec fn silent_run(blocks: Seq<(u64, u64, bool)>, o: int, i: int) -> u64
    decreases i - o,
{
    if i <= o {
        0
    } else if blocks[i].2 {
        sat_add(silent_run(blocks, o, i - 1), blocks[i].0)
    } else {
        0
    }
}

proof fn lemma_open_counts_prefix(a: Seq<(u64, u64, bool)>, b: Seq<(u64, u64, bool)>, o: int, i: int)
    requires
        0 <= o <= i < a.len(),
        i < b.len(),
        forall|j: int| 0 <= j <= i ==> a[j] == b[j],
    ensures
        open_frames(a, o, i) == open_frames(b, o, i),
        silent_run(a, o, i) == silent_run(b, o, i),
    decreases i - o,
{
    if i > o {
        lemma_open_counts_prefix(a, b, o, i - 1);
    }
}

/// A segment opened at block `o` and only appended to since holds what the
/// run says: `open_frames` and `silent_run`.
pub open spec fn open_since(
    blocks: Seq<(u64, u64, bool)>,
    acts: Seq<CaptureStep>,
    o: int,
    n: int,
) -> bool {
    &&& 0 <= o < n
    &&& acts[o] == CaptureStep::Start
    &&& forall|j: int| o < j < n ==> acts[j] == CaptureStep::Append
}

proof fn lemma_run_state(limits: CaptureLimits, blocks: Seq<(u64, u64, bool)>)
    ensures
        ({
            let (acts, rec, seg, sil) = segmenter_run(limits, blocks);
            &&& acts.len() == blocks.len()
            &&& !rec ==> seg == 0 && sil == 0
            &&& rec ==> exists|o: int|
                #[trigger] open_since(blocks, acts, o, blocks.len() as int) && seg == open_frames(
                    blocks,
                    o,
                    blocks.len() - 1,
                ) && sil == silent_run(blocks, o, blocks.len() - 1)
        }),
    decreases blocks.len(),
{
    if blocks.len() > 0 {
        let prev = blocks.drop_last();
        lemma_run_state(limits, prev);
        let (acts0, rec0, seg0, sil0) = segmenter_run(limits, prev);
        let (acts, rec, seg, sil) = segmenter_run(limits, blocks);
        let n = blocks.len() as int;
        assert(acts.drop_last() =~= acts0);
        if rec {
            if rec0 {
                let o = choose|o: int|
                    #[trigger] open_since(prev, acts0, o, n - 1) && seg0 == open_frames(prev, o, n - 2)
                        && sil0 == silent_run(prev, o, n - 2);
                lemma_open_counts_prefix(prev, blocks, o, n - 2);
                assert(acts[o] == acts0[o]);
                assert forall|j: int| o < j < n implies acts[j] == CaptureStep::Append by {
                    if j < n - 1 {
                        assert(acts[j] == acts0[j]);
                    }
                }
                assert(open_since(blocks, acts, o, n));
            } else {
                assert(open_since(blocks, acts, n - 1, n));
            }
        }
    }
}

/// Over a whole run from no open segment, a block taken in while a segment
/// is open (opened at block `o` and only appended to since) closes it
/// exactly when the segment, pre-roll included, together with this block,
/// is long enough and ends in a long enough run of silent blocks, or reaches
/// the maximum length when one is set; otherwise the block is appended.
pub proof fn segment_closes_at_first_closing_block(
    limits: CaptureLimits,
    blocks: Seq<(u64, u64, bool)>,
    o: int,
    i: int,
)
    requires
        0 <= o < i < blocks.len(),
        segmenter_run(limits, blocks).0[o] == CaptureStep::Start,
        forall|j: int| o < j < i ==> segmenter_run(limits, blocks).0[j] == CaptureStep::Append,
    ensures
        ({
            let acts = segmenter_run(limits, blocks).0;
            &&& acts[i] == CaptureStep::Finish || acts[i] == CaptureStep::Append
            &&& (acts[i] == CaptureStep::Finish) == closes(
                limits,
                open_frames(blocks, o, i),
                silent_run(blocks, o, i),
            )
        }),
    decreases blocks.len(),
{
    let n = blocks.len() as int;
    let prev = blocks.drop_last();
    let (acts0, rec0, seg0, sil0) = segmenter_run(limits, prev);
    let acts = segmenter_run(limits, blocks).0;
    lemma_run_state(limits, prev);
    lemma_run_state(limits, blocks);
    assert(acts.drop_last() =~= acts0);
    if i < n - 1 {
        assert(acts0[o] == acts[o]);
        assert forall|j: int| o < j < i implies acts0[j] == CaptureStep::Append by {
            assert(acts0[j] == acts[j]);
        }
        segment_closes_at_first_closing_block(limits, prev, o, i);
        lemma_open_counts_prefix(prev, blocks, o, i);
        assert(acts0[i] == acts[i]);
    } else {
        assert(open_since(prev, acts0, o, n - 1)) by {
            assert(acts0[o] == acts[o]);
            assert forall|j: int| o < j < n - 1 implies acts0[j] == CaptureStep::Append by {
                assert(acts0[j] == acts[j]);
            }
        }
        if !rec0 {
            assert(acts0[o] == CaptureStep::Start);
            if o < n - 2 {
                assert(acts0[n - 2] == CaptureStep::Append);
            }
            lemma_closed_after_step(limits, prev);
            assert(false);
        }
        let o2 = choose|o2: int|
            #[trigger] open_since(prev, acts0, o2, n - 1) && seg0 == open_frames(prev, o2, n - 2)
                && sil0 == silent_run(prev, o2, n - 2);
        if o2 != o {
            if o2 < o {
                assert(acts0[o] == CaptureStep::Append);
            } else {
                assert(acts0[o2] == CaptureStep::Append);
            }
        }
        lemma_open_counts_prefix(prev, blocks, o, n - 2);
    }
}

/// A run whose last action starts or appends to a segment leaves it open.
proof fn lemma_closed_after_step(limits: CaptureLimits, blocks: Seq<(u64, u64, bool)>)
    requires
        blocks.len() > 0,
    ensures
        ({
            let (acts, rec, _, _) = segmenter_run(limits, blocks);
            (acts.last() == CaptureStep::Start || acts.last() == CaptureStep::Append) ==> rec
        }),
{
    let prev = blocks.drop_last();
    let (acts, rec, _, _) = segmenter_run(limits, blocks);
    assert(acts.last() == segmenter_step(
        segmenter_run(limits, prev).1,
        segmenter_run(limits, prev).2,
        segmenter_run(limits, prev).3,
        limits,
        blocks.last().0,
        blocks.last().1,
        blocks.last().2,
    ).0);
}

/// How many frames have come in since the last rolling window was due.
#[derive(Debug)]
pub struct RollingWindow {
    pub since_emit: u64,
}

impl RollingWindow {
    /// Nothing has come in yet.
    pub fn new() -> (r: RollingWindow)
        ensures
            r.since_emit == 0,
    {
        RollingWindow { since_emit: 0 }
    }

    /// Takes in a block of `frame_count` frames while the buffer holds
    /// `buffer_len` samples. Nothing happens while rolling windows are off.
    /// Otherwise the count grows by the block; when it reaches the step it
    /// starts again from zero, and a window is due if the buffer holds at
    /// least the minimum.
    pub fn step(&mut self, limits: &CaptureLimits, frame_count: u64, buffer_len: u64) -> (r: bool)
        ensures
            !limits.rolling_active ==> !r && final(self).since_emit == old(self).since_emit,
            limits.rolling_active ==> ({
                let n = sat_add(old(self).since_emit, frame_count);
                if n >= limits.rolling_step_frames {
                    final(self).since_emit == 0 && r == (buffer_len >= limits.rolling_min_samples)
                } else {
                    final(self).since_emit == n && !r
                }
            }),
    {
        if !limits.rolling_active {
            return false;
        }
        self.since_emit = self.since_emit.saturating_add(frame_count);
        if self.since_emit >= limits.rolling_step_frames {
            self.since_emit = 0;
            buffer_len >= limits.rolling_min_samples
        } else {
            false
        }
    }
}

/// Whether a finished segment is long enough to be transcribed: always when
/// there is no minimum, else when it lasts at least the minimum.
pub fn long_enough(duration_ms: u64, min_transcribe_ms: u64) -> (r: bool)
    ensures
        r == !(min_transcribe_ms > 0 && duration_ms < min_transcribe_ms),
{
    !(min_transcribe_ms > 0 && duration_ms < min_transcribe_ms)
}

/// The voice activity check of a segment: skipped (nothing) unless turned
/// on; refused with "whisper VAD path is required" when its program is not
/// named; otherwise the program's configured location.
pub fn vad_program(use_whisper_vad: Option<bool>, vad_path: &Option<String>) -> (r: Result<
    Option<String>,
    String,
>)
    ensures
        use_whisper_vad != Some(true) ==> r == Ok::<Option<String>, String>(None),
        use_whisper_vad == Some(true) ==> match opt_str(*vad_path) {
            Some(p) => if all_ws(p) {
                r matches Err(e) && e@ == "whisper VAD path is required"@
            } else {
                r matches Ok(Some(x)) && x@ == p
            },
            None => r matches Err(e) && e@ == "whisper VAD path is required"@,
        },
{
    if use_whisper_vad != Some(true) {
        return Ok(None);
    }
    match vad_path {
        Some(p) => {
            if is_blank(p.as_str()) {
                Err("whisper VAD path is required".to_owned())
            } else {
                Ok(Some(p.clone()))
            }
        },
        None => Err("whisper VAD path is required".to_owned()),
    }
}

/// What the voice activity program's run says of a segment: keep it when
/// it printed anything; when it failed, "whisper VAD failed: " with its
/// error output and its output.
pub fn vad_verdict(status_ok: bool, stdout_text: &str, stderr_text: &str) -> (r: Result<bool, String>)
    ensures
        status_ok ==> r == Ok::<bool, String>(!all_ws(stdout_text@)),
        !status_ok ==> (r matches Err(e) && e@ == "whisper VAD failed: "@ + stderr_text@ + " "@
            + stdout_text@),
{
    if !status_ok {
        let a = crate::text::concat_str("whisper VAD failed: ", stderr_text);
        let b = crate::text::concat_str(a.as_str(), " ");
        return Err(crate::text::concat_str(b.as_str(), stdout_text));
    }
    Ok(!is_blank(stdout_text))
}

/// The settings of the streaming recognizer.
#[derive(Debug)]
pub struct StreamSettings {
    pub program: String,
    pub model: String,
    pub step_ms: u64,
    pub language: String,
}

/// The streaming recognizer's settings: nothing unless it is turned on and
/// a model is named (not blank); otherwise its program (`whisper-stream.exe`
/// when blank), the model, the step (1000 ms by default) and the language
/// (`ja` when blank).
pub fn stream_settings(
    use_whisper_stream: Option<bool>,
    stream_path: &Option<String>,
    model_path: &Option<String>,
    step_ms: Option<u64>,
    language: &Option<String>,
) -> (r: Option<StreamSettings>)
    ensures
        (use_whisper_stream != Some(true) || opt_str(*model_path) is None || all_ws(
            opt_str(*model_path)->0,
        )) ==> r is None,
        (use_whisper_stream == Some(true) && opt_str(*model_path) is Some && !all_ws(
            opt_str(*model_path)->0,
        )) ==> (r matches Some(s) && s.program@ == or_default(opt_str(*stream_path), "whisper-stream.exe"@)
            && s.model@ == opt_str(*model_path)->0 && s.step_ms == match step_ms {
            Some(v) => v,
            None => 1000,
        } && s.language@ == or_default(opt_str(*language), "ja"@)),
{
    if use_whisper_stream != Some(true) {
        return None;
    }
    let model = match model_path {
        Some(m) => {
            if is_blank(m.as_str()) {
                return None;
            }
            m.clone()
        },
        None => return None,
    };
    let step = match step_ms {
        Some(v) => v,
        None => 1000,
    };
    Some(
        StreamSettings {
            program: text_or_default(stream_path, "whisper-stream.exe"),
            model,
            step_ms: step,
            language: text_or_default(language, "ja"),
        },
    )
}

} // verus!
