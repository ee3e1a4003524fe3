//! Which frames an analysis visits: stepped ranges of frame numbers.
use vstd::prelude::*;

verus! {

/// How many of `start, start + step, ...` lie below `end`.
pub open spec fn stepped_len(start: int, end: int, step: int) -> int {
    if start < end {
        (end - start + step - 1) / step
    } else {
        0
    }
}

/// The frames `start, start + step, ...` below `end`, as
/// `(start..end).step_by(step)` gives them.
pub open spec fn stepped(start: int, end: int, step: int) -> Seq<int> {
    Seq::new(stepped_len(start, end, step) as nat, |k: int| start + k * step)
}

pub open spec fn usize_view(v: Seq<usize>) -> Seq<int> {
    v.map_values(|x: usize| x as int)
}

proof fn lemma_ceil_div(x: int, d: int, m: int)
    by (nonlinear_arith)
    requires
        d > 0,
        x > 0,
        m >= 1,
        (m - 1) * d < x <= m * d,
    ensures
        (x + d - 1) / d == m,
{
}

/// `(start..end).step_by(step)`, collected.
pub fn exclusive_frames(start: usize, end: usize, step: usize) -> (r: Vec<usize>)
    requires
        step > 0,
    ensures
        usize_view(r@) == stepped(start as int, end as int, step as int),
{
    let mut out: Vec<usize> = Vec::new();
    if start < end {
        let mut cur: usize = start;
        assert(out@.len() == 0);
        assert(out@.len() * step == 0) by (nonlinear_arith)
            requires
                out@.len() == 0,
        ;
        loop
            invariant_except_break
                cur == start + out@.len() * step,
            invariant
                step > 0,
                start <= cur < end,
                forall|k: int| 0 <= k < out@.len() ==> #[trigger] out@[k] == start + k * step,
            ensures
                out@.len() >= 1,
                (out@.len() - 1) * step < end - start <= out@.len() * step,
                forall|k: int| 0 <= k < out@.len() ==> #[trigger] out@[k] == start + k * step,
            decreases end - cur,
        {
            out.push(cur);
            if end - cur <= step {
                assert(out@.len() * step == (out@.len() - 1) * step + step) by (nonlinear_arith);
                break;
            }
            assert(out@.len() * step == (out@.len() - 1) * step + step) by (nonlinear_arith);
            cur = cur + step;
        }
        proof {
            lemma_ceil_div(end - start, step as int, out@.len() as int);
        }
    }
    assert(usize_view(out@) =~= stepped(start as int, end as int, step as int));
    out
}

/// `(start..=end).step_by(step)`, collected.
pub fn inclusive_frames(start: usize, end: usize, step: usize) -> (r: Vec<usize>)
    requires
        step > 0,
    ensures
        usize_view(r@) == stepped(start as int, end + 1, step as int),
{
    if end < usize::MAX {
        exclusive_frames(start, end + 1, step)
    } else {
        // the last frame, usize::MAX itself, cannot bound a half-open range
        let mut out = exclusive_frames(start, end, step);
        let ghost s = stepped(start as int, end as int, step as int);
        let ghost t = stepped(start as int, end + 1, step as int);
        if start <= end && (end - start) % step == 0 {
            proof {
                lemma_stepped_last(start as int, end as int, step as int);
            }
            let ghost before = out@;
            out.push(end);
            assert(usize_view(out@) =~= usize_view(before).push(end as int));
            assert(s.push(end as int) =~= t);
            assert(usize_view(out@) =~= t);
        } else {
            proof {
                lemma_stepped_same(start as int, end as int, step as int);
            }
            assert(usize_view(out@) =~= t);
        }
        out
    }
}

proof fn lemma_stepped_last(start: int, end: int, step: int)
    requires
        step > 0,
        start <= end,
        (end - start) % step == 0,
    ensures
        stepped_len(start, end + 1, step) == stepped_len(start, end, step) + 1,
        start + stepped_len(start, end, step) * step == end,
{
    let x = end - start;
    let q = x / step;
    assert(x == q * step) by (nonlinear_arith)
        requires
            x % step == 0,
            q == x / step,
            step > 0,
    ;
    if x > 0 {
        assert(q >= 1) by (nonlinear_arith)
            requires
                x == q * step,
                x > 0,
                step > 0,
        ;
        assert((q - 1) * step < x) by (nonlinear_arith)
            requires
                x == q * step,
                step > 0,
        ;
        lemma_ceil_div(x, step, q);
    }
    assert((q + 1 - 1) * step < x + 1 <= (q + 1) * step) by (nonlinear_arith)
        requires
            x == q * step,
            step > 0,
    ;
    lemma_ceil_div(x + 1, step, q + 1);
}

proof fn lemma_stepped_same(start: int, end: int, step: int)
    requires
        step > 0,
        !(start <= end && (end - start) % step == 0),
    ensures
        stepped_len(start, end + 1, step) == stepped_len(start, end, step),
{
    if start <= end {
        let x = end - start;
        let q = x / step;
        let rem = x % step;
        assert(x == q * step + rem && 0 < rem < step) by (nonlinear_arith)
            requires
                q == x / step,
                rem == x % step,
                rem != 0,
                step > 0,
        ;
        assert(q * step < x <= (q + 1) * step) by (nonlinear_arith)
            requires
                x == q * step + rem,
                0 < rem < step,
        ;
        lemma_ceil_div(x, step, q + 1);
        assert(q * step < x + 1 <= (q + 1) * step) by (nonlinear_arith)
            requires
                x == q * step + rem,
                0 < rem < step,
        ;
        lemma_ceil_div(x + 1, step, q + 1);
    }
}

/// The frames of a hydrogen-bond survey, `start_frame` to `end_frame`
/// inclusive every `frame_interval`-th, each bound taken as a `usize` as
/// `as` converts an `i32`.
pub fn survey_frames(start_frame: i32, end_frame: i32, frame_interval: i32) -> (r: Vec<usize>)
    requires
        frame_interval != 0,
    ensures
        usize_view(r@) == stepped(
            start_frame as usize as int,
            end_frame as usize as int + 1,
            frame_interval as usize as int,
        ),
{
    assert(frame_interval as usize != 0) by (bit_vector)
        requires
            frame_interval != 0,
    ;
    inclusive_frames(start_frame as usize, end_frame as usize, frame_interval as usize)
}

/// The time origins of a correlation over `corr_times` frames:
/// `start_frame` up to (excluding) `end_frame - (corr_times + 1)`, every
/// `frame_interval`-th, each bound taken as a `usize` as `as` converts an
/// `i32`.
pub fn correlation_origins(start_frame: i32, end_frame: i32, frame_interval: i32, corr_times: i32) -> (r: Vec<
    usize,
>)
    requires
        frame_interval != 0,
        corr_times < i32::MAX,
        i32::MIN <= end_frame - (corr_times + 1) <= i32::MAX,
    ensures
        usize_view(r@) == stepped(
            start_frame as usize as int,
            (end_frame - (corr_times + 1)) as i32 as usize as int,
            frame_interval as usize as int,
        ),
{
    assert(frame_interval as usize != 0) by (bit_vector)
        requires
            frame_interval != 0,
    ;
    let last = end_frame - (corr_times + 1);
    exclusive_frames(start_frame as usize, last as usize, frame_interval as usize)
}

/// The offsets of a correlation: `0` up to (excluding) `corr_times`, every
/// `corr_interval`-th, taken as `usize` as `as` converts an `i32`.
pub fn correlation_offsets(corr_times: i32, corr_interval: i32) -> (r: Vec<usize>)
    requires
        corr_interval != 0,
    ensures
        usize_view(r@) == stepped(0, corr_times as usize as int, corr_interval as usize as int),
{
    assert(corr_interval as usize != 0) by (bit_vector)
        requires
            corr_interval != 0,
    ;
    exclusive_frames(0, corr_times as usize, corr_interval as usize)
}

/// The time origins of a velocity correlation over `tcfl` frames: `start`
/// up to (excluding) `end - (tcfl + 1)` (0 where that is negative), every
/// `frame_interval`-th.
pub fn velocity_correlation_origins(start: usize, end: usize, frame_interval: usize, tcfl: usize) -> (r: Vec<
    usize,
>)
    requires
        frame_interval > 0,
        tcfl < usize::MAX,
    ensures
        usize_view(r@) == stepped(
            start as int,
            if end >= tcfl + 1 {
                end - (tcfl + 1)
            } else {
                0
            },
            frame_interval as int,
        ),
{
    let last = if end >= tcfl + 1 {
        end - (tcfl + 1)
    } else {
        0
    };
    exclusive_frames(start, last, frame_interval)
}

} // verus!
