//! Integer geometry of clips and of the loop-shaping stages: which frames a
//! clip covers, how long a crossfade may be, where a loop seam may be cut.

use vstd::prelude::*;
use vstd::string::StringExecFns;

verus! {

broadcast use vstd::string::group_string_axioms;

/// Largest crossfade length (in frames) that split-swap or seam blending can
/// use on a clip of `clip_frames` frames: none below four frames, otherwise
/// one less than half the clip.
pub open spec fn spec_max_crossfade_frames(clip_frames: int) -> int {
    if clip_frames < 4 { 0 } else { clip_frames / 2 - 1 }
}

/// Largest crossfade length (frames) allowed by split-swap / seam blend geometry.
pub fn max_crossfade_frames_for_clip(clip_frames: usize) -> (r: usize)
    ensures
        r == spec_max_crossfade_frames(clip_frames as int),
{
    if clip_frames < 4 {
        0
    } else {
        clip_frames / 2 - 1
    }
}

/// `x - y`, or zero where that would be negative.
pub open spec fn sat_sub(x: int, y: int) -> int {
    if x >= y { x - y } else { 0 }
}

pub open spec fn min_int(x: int, y: int) -> int {
    if x <= y { x } else { y }
}

pub open spec fn max_int(x: int, y: int) -> int {
    if x >= y { x } else { y }
}

/// The crossfade length for a seam blend: the requested length (when there
/// is one) capped to what the clip allows, otherwise the cap itself; then
/// held to at least eight frames (two on clips whose cap is below eight),
/// never above the cap.
pub open spec fn crossfade_frames_spec(requested: Option<int>, clip_frames: int) -> int {
    let cap = spec_max_crossfade_frames(clip_frames);
    if cap == 0 {
        0
    } else {
        let xf = match requested {
            Some(w) => min_int(w, cap),
            None => cap,
        };
        let lower = min_int(if cap >= 8 { 8 } else { 2 }, cap);
        if xf < lower { lower } else if xf > cap { cap } else { xf }
    }
}

/// Crossfade length in frames for a seam blend of a clip of `clip_frames`
/// frames; `requested` is the length asked for (`None`: automatic).
pub fn crossfade_frames_for_clip(requested: Option<usize>, clip_frames: usize) -> (r: usize)
    ensures
        r as int == crossfade_frames_spec(
            match requested {
                Some(w) => Some(w as int),
                None => None,
            },
            clip_frames as int,
        ),
        r as int <= spec_max_crossfade_frames(clip_frames as int),
{
    let cap = max_crossfade_frames_for_clip(clip_frames);
    if cap == 0 {
        return 0;
    }
    let xf = match requested {
        Some(w) => if w < cap { w } else { cap },
        None => cap,
    };
    let lower0: usize = if cap >= 8 { 8 } else { 2 };
    let lower = if lower0 < cap { lower0 } else { cap };
    if xf < lower {
        lower
    } else if xf > cap {
        cap
    } else {
        xf
    }
}

/// The largest shift tried at each end of a loop, and the comparison window
/// length, when trimming for seam alignment; `None` when no trimming is done
/// (fewer than eight frames, no shift allowed, no channels, or no room).
pub open spec fn seam_trim_window_spec(frames: int, channels: int, max_shift: int) -> Option<
    (int, int),
> {
    if frames < 8 || max_shift == 0 || channels == 0 {
        None
    } else {
        let ms = min_int(min_int(max_shift, sat_sub(frames, 4) / 4), 96);
        if ms == 0 {
            None
        } else {
            Some((ms, max_int(min_int(48, frames / 6), 8)))
        }
    }
}

/// Shift limit and window length for seam-alignment trimming (see
/// [`seam_trim_window_spec`]).
pub fn seam_trim_window(frames: usize, channels: usize, max_shift: usize) -> (r: Option<(usize, usize)>)
    ensures
        match r {
            Some((ms, win)) => seam_trim_window_spec(frames as int, channels as int, max_shift as int)
                == Some((ms as int, win as int)),
            None => seam_trim_window_spec(frames as int, channels as int, max_shift as int) is None,
        },
{
    if frames < 8 || max_shift == 0 || channels == 0 {
        return None;
    }
    let room = frames.saturating_sub(4) / 4;
    let ms0 = if max_shift < room { max_shift } else { room };
    let ms = if ms0 < 96 { ms0 } else { 96 };
    if ms == 0 {
        return None;
    }
    let w0 = if 48 < frames / 6 { 48 } else { frames / 6 };
    let win = if w0 > 8 { w0 } else { 8 };
    Some((ms, win))
}

/// Where the tail window starts when `a` frames are cut from the start and
/// `b` from the end, or `None` when that cut leaves too little: fewer than
/// `win + 1` frames between the cuts, or a tail window that would begin
/// before the head cut.
pub open spec fn seam_tail_start_spec(frames: int, a: int, b: int, win: int) -> Option<int> {
    if sat_sub(frames, a + b) < win + 1 {
        None
    } else {
        let t = sat_sub(sat_sub(frames, b), win);
        if t < a { None } else { Some(t) }
    }
}

/// The tail window start for one candidate cut (see [`seam_tail_start_spec`]).
pub fn seam_tail_start(frames: usize, a: usize, b: usize, win: usize) -> (r: Option<usize>)
    requires
        a + b <= usize::MAX,
        win < usize::MAX,
    ensures
        match r {
            Some(t) => seam_tail_start_spec(frames as int, a as int, b as int, win as int) == Some(
                t as int,
            ),
            None => seam_tail_start_spec(frames as int, a as int, b as int, win as int) is None,
        },
{
    let inner = frames.saturating_sub(a + b);
    if inner < win + 1 {
        return None;
    }
    let t = frames.saturating_sub(b).saturating_sub(win);
    if t < a {
        None
    } else {
        Some(t)
    }
}

/// The frames `[start, end)` a clip covers, from its first and one-past-last
/// frames as the seconds round to: the start held to `[0, total - 1]`, the
/// end to `[1, total]`, and an end at or before the start moved to one past
/// it. An error for no channels or no whole frame.
pub open spec fn clip_frames_spec(n_samples: int, channels: int, start_frame: int, end_frame: int)
    -> Result<(int, int), Seq<char>> {
    if channels == 0 {
        Err("invalid channel count"@)
    } else if n_samples / channels == 0 {
        Err("no audio samples"@)
    } else {
        let total = n_samples / channels;
        let sf = if start_frame < 0 { 0 } else if start_frame > total - 1 { total - 1 } else { start_frame };
        let ef0 = if end_frame < 1 { 1 } else if end_frame > total { total } else { end_frame };
        let ef = if ef0 <= sf { min_int(sf + 1, total) } else { ef0 };
        Ok((sf, ef))
    }
}

/// The frame range of a clip of `n_samples` interleaved samples with
/// `channels` channels, from the rounded start and end frames (see
/// [`clip_frames_spec`]).
pub fn clip_frame_bounds(n_samples: usize, channels: u16, start_frame: i64, end_frame: i64) -> (r:
    Result<(usize, usize), String>)
    requires
        n_samples <= i64::MAX,
    ensures
        match r {
            Ok((sf, ef)) => clip_frames_spec(n_samples as int, channels as int, start_frame as int, end_frame as int)
                == Ok::<(int, int), Seq<char>>((sf as int, ef as int)) && sf < ef && ef as int
                <= n_samples as int / channels as int,
            Err(m) => clip_frames_spec(n_samples as int, channels as int, start_frame as int, end_frame as int)
                == Err::<(int, int), Seq<char>>(m@),
        },
{
    let ch = channels as usize;
    if ch == 0 {
        return Err(String::from_str("invalid channel count"));
    }
    let total = n_samples / ch;
    if total == 0 {
        return Err(String::from_str("no audio samples"));
    }
    let max_f = total as i64;
    let sf: usize = if start_frame < 0 {
        0
    } else if start_frame > max_f - 1 {
        total - 1
    } else {
        start_frame as usize
    };
    let ef0: usize = if end_frame < 1 {
        1
    } else if end_frame > max_f {
        total
    } else {
        end_frame as usize
    };
    let ef = if ef0 <= sf {
        if sf + 1 < total { sf + 1 } else { total }
    } else {
        ef0
    };
    Ok((sf, ef))
}

/// How a clip was shaped into a loop.
#[derive(Debug, Clone, Copy, PartialEq, Eq, Structural)]
pub enum LoopTechnique {
    /// Left as it was.
    Passthrough,
    /// Halves swapped and the new seam crossfaded.
    SplitSwapCrossfade { crossfade_samples: usize },
    /// Cut to whole pitch periods and the seam blended.
    PitchSynchronous { periods: u32, crossfade_samples: usize },
    /// The seam blended with an equal-power spectral crossfade.
    SpectralBlend { fft_size: usize },
}

/// Whether a loop candidate `[start, end)` (in frames) lies inside a buffer
/// of `buffer_len` interleaved samples of `channels` channels and is not
/// empty.
pub fn candidate_fits(start: usize, end: usize, channels: usize, buffer_len: usize) -> (r: bool)
    requires
        end * channels <= usize::MAX,
    ensures
        r == (end * channels <= buffer_len && start < end),
{
    end * channels <= buffer_len && start < end
}

/// Whether the seam is blended inside the candidate window rather than the
/// whole clip reshaped: the crossfade must be non-empty and shorter than
/// half the window, and the window must cover at least nine tenths of the
/// clip.
pub open spec fn blend_in_window_spec(xf: int, window_frames: int, clip_frames: int) -> bool {
    &&& xf > 0
    &&& xf * 2 < window_frames
    &&& min_int(window_frames * 10, usize::MAX as int) >= min_int(clip_frames * 9, usize::MAX as int)
}

/// `a * b`, or `usize::MAX` where the product does not fit.
fn saturating_product(a: usize, b: usize) -> (r: usize)
    ensures
        r as int == min_int(a * b, usize::MAX as int),
{
    match a.checked_mul(b) {
        Some(p) => p,
        None => usize::MAX,
    }
}

/// Decides between blending inside the candidate window and reshaping the
/// whole clip (see [`blend_in_window_spec`]; the products saturate).
pub fn blend_in_window(xf: usize, window_frames: usize, clip_frames: usize) -> (r: bool)
    requires
        xf * 2 <= usize::MAX,
    ensures
        r == blend_in_window_spec(xf as int, window_frames as int, clip_frames as int),
{
    let covers = saturating_product(window_frames, 10) >= saturating_product(clip_frames, 9);
    xf > 0 && xf * 2 < window_frames && covers
}

/// The tail window `[tail_start, end)` and head window `[start, head_end)`
/// compared at a seam of `xf` frames inside `[start, end)`.
pub fn seam_windows(start: usize, end: usize, xf: usize) -> (r: (usize, usize))
    requires
        start + xf <= usize::MAX,
    ensures
        r.0 == max_int(sat_sub(end as int, xf as int), start as int),
        r.1 == min_int(start + xf, end as int),
{
    let t = end.saturating_sub(xf);
    let tail_start = if t > start { t } else { start };
    let h = start + xf;
    let head_end = if h < end { h } else { end };
    (tail_start, head_end)
}

/// The technique record of a pitch-synchronous loop of `window_frames`
/// frames: whole periods of `period_samples` (at least one period counted,
/// a zero period taken as one sample), and the crossfade length in
/// interleaved samples.
pub fn pitch_synchronous_technique(
    window_frames: usize,
    period_samples: usize,
    xf: usize,
    channels: usize,
) -> (r: LoopTechnique)
    requires
        xf * channels <= usize::MAX,
    ensures
        ({
            let p = if period_samples >= 1 { period_samples as int } else { 1 };
            let periods = ((window_frames as int) / p) as u32;
            r == LoopTechnique::PitchSynchronous {
                periods: if periods >= 1 { periods } else { 1 },
                crossfade_samples: (xf * channels) as usize,
            }
        }),
{
    let p = if period_samples >= 1 { period_samples } else { 1 };
    let periods = (window_frames / p) as u32;
    LoopTechnique::PitchSynchronous {
        periods: if periods >= 1 { periods } else { 1 },
        crossfade_samples: xf * channels,
    }
}

} // verus!
