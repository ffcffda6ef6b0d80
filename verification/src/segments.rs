//! The coarse sweep through one window (`WindowSweep`): where each segment
//! ends, when the sweep is done, which monotonic segments open a matching
//! window, which close one, and which windows are emitted. The longitudes,
//! velocities, station and crossing dates are computed by the caller; this
//! module decides what they mean for the windows.
use vstd::prelude::*;
use crate::binary64::{
    abs, abs_bits, f64_same_sign, is_nan, le, lt, negated, same_sign_spec, value_le, value_lt,
};
use crate::refinement::batch_fits;
use crate::windows::{chained, covers, nonempty_windows, window_contains, within, Window};

verus! {

/// Encoding of `6e-12` degrees per day: below this speed a sampled velocity
/// is taken to be zero.
pub const VELOCITY_TOLERANCE: u64 = 0x3D9A_6366_41C4_DF1A;

/// Both sampled velocities are clearly nonzero and point in opposite
/// directions, so the body turns around somewhere inside the segment.
pub open spec fn has_interior_station(start_velocity: u64, end_velocity: u64) -> bool {
    &&& value_lt(VELOCITY_TOLERANCE, abs_bits(start_velocity))
    &&& value_lt(VELOCITY_TOLERANCE, abs_bits(end_velocity))
    &&& !same_sign_spec(start_velocity, end_velocity)
}

/// What station detection decides, over all velocities: a station is
/// reported exactly when both speeds exceed `6e-12` degrees per day (encoded
/// `0x3D9A_6366_41C4_DF1A`) and the two velocities have opposite signs. The
/// decision does not depend on which speed is larger or on the order of the
/// two ends, and reversing both velocities does not change it.
pub proof fn lemma_station_behaviour(start_velocity: u64, end_velocity: u64)
    ensures
        has_interior_station(start_velocity, end_velocity) <==> (
            value_lt(0x3D9A_6366_41C4_DF1A, (start_velocity % 0x8000_0000_0000_0000) as u64)
            && value_lt(0x3D9A_6366_41C4_DF1A, (end_velocity % 0x8000_0000_0000_0000) as u64)
            && (start_velocity >= 0x8000_0000_0000_0000) != (end_velocity >= 0x8000_0000_0000_0000)),
        has_interior_station(start_velocity, end_velocity) == has_interior_station(end_velocity, start_velocity),
        has_interior_station(start_velocity, end_velocity)
            == has_interior_station(negated(start_velocity), negated(end_velocity)),
{
}

/// Returns whether a coarse segment whose endpoints have the given
/// velocities (encodings, degrees per day) contains a station strictly
/// inside it.
pub fn segment_has_interior_station(start_velocity: u64, end_velocity: u64) -> (r: bool)
    ensures
        r == has_interior_station(start_velocity, end_velocity),
{
    lt(VELOCITY_TOLERANCE, abs(start_velocity)) && lt(VELOCITY_TOLERANCE, abs(end_velocity))
        && !f64_same_sign(start_velocity, end_velocity)
}

/// The segment has positive length: its start is not at or after its end.
pub open spec fn segment_is_open(segment_start: u64, segment_end: u64) -> bool {
    !value_le(segment_end, segment_start)
}

/// The segment enters or leaves the sign, so the date of the crossing is
/// needed to process it.
pub open spec fn needs_boundary_crossing(
    segment_start: u64,
    segment_end: u64,
    start_is_valid: bool,
    end_is_valid: bool,
) -> bool {
    segment_is_open(segment_start, segment_end) && start_is_valid != end_is_valid
}

/// Returns whether processing this segment needs the date at which the body
/// crosses the sign boundary.
pub fn segment_needs_boundary_crossing(
    segment_start: u64,
    segment_end: u64,
    start_is_valid: bool,
    end_is_valid: bool,
) -> (r: bool)
    ensures
        r == needs_boundary_crossing(segment_start, segment_end, start_is_valid, end_is_valid),
{
    !le(segment_end, segment_start) && start_is_valid != end_is_valid
}

/// The start of the window still open after the segment: an entry opens one
/// at the crossing, an exit closes it, a segment inside the sign opens one at
/// its start if none is open, and a segment outside the sign changes nothing.
pub open spec fn open_after_segment(
    open_window_start: Option<u64>,
    segment_start: u64,
    segment_end: u64,
    start_is_valid: bool,
    end_is_valid: bool,
    boundary_crossing: Option<u64>,
) -> Option<u64> {
    if !segment_is_open(segment_start, segment_end) {
        open_window_start
    } else if !start_is_valid && end_is_valid {
        boundary_crossing
    } else if start_is_valid && !end_is_valid {
        None
    } else if start_is_valid && end_is_valid && open_window_start is None {
        Some(segment_start)
    } else {
        open_window_start
    }
}

/// The window emitted by the segment: on an exit, the window from the open
/// start (or the segment start when none is open) to the crossing, when that
/// window has positive length.
pub open spec fn emitted_by_segment(
    open_window_start: Option<u64>,
    segment_start: u64,
    segment_end: u64,
    start_is_valid: bool,
    end_is_valid: bool,
    boundary_crossing: Option<u64>,
) -> Option<Window> {
    if segment_is_open(segment_start, segment_end) && start_is_valid && !end_is_valid {
        let window_start = match open_window_start {
            Some(s) => s,
            None => segment_start,
        };
        let window_end = boundary_crossing.unwrap();
        if value_lt(window_start, window_end) {
            Some((window_start, window_end))
        } else {
            None
        }
    } else {
        None
    }
}

/// `output` with the window, if any, appended.
pub open spec fn with_emitted(output: Seq<Window>, emitted: Option<Window>) -> Seq<Window> {
    match emitted {
        Some(w) => output.push(w),
        None => output,
    }
}

/// The window that is open when a sweep starts: at the window start when the
/// body is already in the sign there.
pub open spec fn initial_open(window_start: u64, start_is_valid: bool) -> Option<u64> {
    if start_is_valid {
        Some(window_start)
    } else {
        None
    }
}

/// Returns the window open at the start of a sweep.
pub fn open_window_at_start(window_start: u64, start_is_valid: bool) -> (r: Option<u64>)
    ensures
        r == initial_open(window_start, start_is_valid),
{
    if start_is_valid {
        Some(window_start)
    } else {
        None
    }
}

/// Processes one monotonic segment `[segment_start, segment_end]`: whether
/// the body is in the sign at each end, and the date at which it crosses the
/// sign boundary (needed only when it enters or leaves the sign). Updates the
/// open window and emits the window that an exit completes.
pub fn process_monotonic_segment(
    segment_start: u64,
    segment_end: u64,
    start_is_valid: bool,
    end_is_valid: bool,
    boundary_crossing: Option<u64>,
    open_window_start: &mut Option<u64>,
    output: &mut Vec<Window>,
)
    requires
        needs_boundary_crossing(segment_start, segment_end, start_is_valid, end_is_valid)
            ==> boundary_crossing is Some,
    ensures
        *final(open_window_start) == open_after_segment(
            *old(open_window_start),
            segment_start,
            segment_end,
            start_is_valid,
            end_is_valid,
            boundary_crossing,
        ),
        final(output)@ == with_emitted(
            old(output)@,
            emitted_by_segment(
                *old(open_window_start),
                segment_start,
                segment_end,
                start_is_valid,
                end_is_valid,
                boundary_crossing,
            ),
        ),
{
    if le(segment_end, segment_start) {
        return;
    }
    if !start_is_valid && end_is_valid {
        *open_window_start = boundary_crossing;
    } else if start_is_valid && !end_is_valid {
        let window_end = boundary_crossing.unwrap();
        let window_start = match open_window_start.take() {
            Some(s) => s,
            None => segment_start,
        };
        if lt(window_start, window_end) {
            output.push((window_start, window_end));
        }
    } else if start_is_valid && end_is_valid {
        if open_window_start.is_none() {
            *open_window_start = Some(segment_start);
        }
    }
}

/// The window emitted when the sweep reaches the end of its window: the
/// open window, clipped to the window end, when it has positive length.
pub open spec fn emitted_at_close(open_window_start: Option<u64>, window_end: u64) -> Option<Window> {
    match open_window_start {
        Some(s) => if value_lt(s, window_end) {
            Some((s, window_end))
        } else {
            None
        },
        None => None,
    }
}

/// Ends a sweep: emits the window still open, clipped to `window_end`.
pub fn close_open_window(open_window_start: Option<u64>, window_end: u64, output: &mut Vec<Window>)
    ensures
        final(output)@ == with_emitted(old(output)@, emitted_at_close(open_window_start, window_end)),
{
    if let Some(start) = open_window_start {
        if lt(start, window_end) {
            output.push((start, window_end));
        }
    }
}

/// The state of a sweep over a window starting at `window_start` that has
/// reached `frontier`: the emitted windows are nonempty, ordered end to
/// start, and lie between the window start and the frontier, and an open
/// window starts between the last emitted end and the frontier.
pub open spec fn sweep_state_ok(
    open_window_start: Option<u64>,
    output: Seq<Window>,
    window_start: u64,
    frontier: u64,
) -> bool {
    &&& value_le(window_start, frontier)
    &&& nonempty_windows(output)
    &&& chained(output)
    &&& within(output, window_start, frontier)
    &&& open_window_start matches Some(s) ==> {
        &&& value_le(window_start, s)
        &&& value_le(s, frontier)
        &&& output.len() > 0 ==> value_le(output.last().1, s)
    }
}

proof fn lemma_within_extend(ws: Seq<Window>, lo: u64, hi: u64, hi2: u64)
    requires
        within(ws, lo, hi),
        value_le(hi, hi2),
    ensures
        within(ws, lo, hi2),
{
    assert forall|i: int| 0 <= i < ws.len() implies value_le(lo, #[trigger] ws[i].0) && value_le(ws[i].1, hi2) by {
        assert(value_le(lo, ws[i].0) && value_le(ws[i].1, hi));
    }
}

proof fn lemma_push_window(ws: Seq<Window>, w: Window, lo: u64, hi: u64)
    requires
        nonempty_windows(ws),
        chained(ws),
        within(ws, lo, hi),
        value_lt(w.0, w.1),
        value_le(lo, w.0),
        value_le(w.1, hi),
        ws.len() > 0 ==> value_le(ws.last().1, w.0),
    ensures
        nonempty_windows(ws.push(w)),
        chained(ws.push(w)),
        within(ws.push(w), lo, hi),
{
    let s = ws.push(w);
    assert forall|i: int| 0 <= i < s.len() implies value_lt(#[trigger] s[i].0, s[i].1) by {
        if i < ws.len() {
            assert(s[i] == ws[i]);
        }
    }
    assert forall|i: int| 0 <= i < s.len() implies value_le(lo, #[trigger] s[i].0) && value_le(s[i].1, hi) by {
        if i < ws.len() {
            assert(s[i] == ws[i]);
            assert(value_le(lo, ws[i].0) && value_le(ws[i].1, hi));
        }
    }
    assert forall|i: int, j: int| 0 <= i < j < s.len() implies value_le(#[trigger] s[i].1, #[trigger] s[j].0) by {
        assert(s[i] == ws[i]);
        if j < ws.len() {
            assert(s[j] == ws[j]);
        } else {
            let l = ws.len() - 1;
            if i < l {
                assert(value_le(ws[i].1, ws[l].0));
            }
            assert(value_lt(ws[l].0, ws[l].1));
        }
    }
}

/// A sweep starts in a good state at the start of its window.
pub proof fn lemma_sweep_starts(window_start: u64, start_is_valid: bool)
    requires
        !is_nan(window_start),
    ensures
        sweep_state_ok(initial_open(window_start, start_is_valid), Seq::empty(), window_start, window_start),
{
}

/// Processing the next segment of a sweep, one that starts at the frontier
/// and does not go backwards, with a crossing date inside the segment, keeps
/// the sweep in a good state with the frontier moved to the segment end.
pub proof fn lemma_sweep_segment(
    open_window_start: Option<u64>,
    output: Seq<Window>,
    window_start: u64,
    segment_start: u64,
    segment_end: u64,
    start_is_valid: bool,
    end_is_valid: bool,
    boundary_crossing: Option<u64>,
)
    requires
        sweep_state_ok(open_window_start, output, window_start, segment_start),
        value_le(segment_start, segment_end),
        needs_boundary_crossing(segment_start, segment_end, start_is_valid, end_is_valid) ==> {
            &&& boundary_crossing matches Some(c)
            &&& value_le(segment_start, c)
            &&& value_le(c, segment_end)
        },
    ensures
        sweep_state_ok(
            open_after_segment(
                open_window_start,
                segment_start,
                segment_end,
                start_is_valid,
                end_is_valid,
                boundary_crossing,
            ),
            with_emitted(
                output,
                emitted_by_segment(
                    open_window_start,
                    segment_start,
                    segment_end,
                    start_is_valid,
                    end_is_valid,
                    boundary_crossing,
                ),
            ),
            window_start,
            segment_end,
        ),
{
    let emitted = emitted_by_segment(
        open_window_start,
        segment_start,
        segment_end,
        start_is_valid,
        end_is_valid,
        boundary_crossing,
    );
    lemma_within_extend(output, window_start, segment_start, segment_end);
    if let Some(w) = emitted {
        lemma_push_window(output, w, window_start, segment_end);
    }
}

/// Closing a sweep in a good state at a frontier no later than `window_end`
/// leaves nonempty windows, ordered end to start, within the window: a batch
/// that fits the window for the refinement.
pub proof fn lemma_sweep_close(
    open_window_start: Option<u64>,
    output: Seq<Window>,
    window_start: u64,
    frontier: u64,
    window_end: u64,
)
    requires
        sweep_state_ok(open_window_start, output, window_start, frontier),
        value_le(frontier, window_end),
    ensures
        batch_fits(with_emitted(output, emitted_at_close(open_window_start, window_end)), (window_start, window_end)),
{
    lemma_within_extend(output, window_start, frontier, window_end);
    if let Some(w) = emitted_at_close(open_window_start, window_end) {
        lemma_push_window(output, w, window_start, window_end);
    }
}

/// One monotonic segment of a sweep: its start and end dates, whether the
/// body is in the sign at each end, and the crossing date when one was
/// computed.
pub type Segment = (u64, u64, bool, bool, Option<u64>);

/// What the segment says of date `t`: the body is in the sign at `t` when
/// `t` lies in `[start, end)` and the body is in the sign at both ends, or
/// enters the sign at a crossing no later than `t`, or leaves it at a
/// crossing after `t`.
pub open spec fn segment_in_sign(g: Segment, t: u64) -> bool {
    &&& window_contains((g.0, g.1), t)
    &&& {
        ||| g.2 && g.3
        ||| !g.2 && g.3 && g.4 is Some && value_le(g.4.unwrap(), t)
        ||| g.2 && !g.3 && g.4 is Some && value_lt(t, g.4.unwrap())
    }
}

/// Some segment puts the body in the sign at date `t`.
pub open spec fn in_sign(segments: Seq<Segment>, t: u64) -> bool {
    exists|i: int| 0 <= i < segments.len() && #[trigger] segment_in_sign(segments[i], t)
}

/// Whether the body is in the sign at the end of the last segment (at the
/// start of the sweep when there is none).
pub open spec fn current_flag(segments: Seq<Segment>, start_is_valid: bool) -> bool {
    if segments.len() == 0 {
        start_is_valid
    } else {
        segments.last().3
    }
}

/// The membership flags agree along the sweep: each segment starts with the
/// flag the previous one ended with (the first with the flag at the start of
/// the sweep), and a segment of no length has equal flags at its ends.
pub open spec fn consistent(segments: Seq<Segment>, start_is_valid: bool) -> bool
    decreases segments.len(),
{
    if segments.len() == 0 {
        true
    } else {
        let g = segments.last();
        &&& consistent(segments.drop_last(), start_is_valid)
        &&& g.2 == current_flag(segments.drop_last(), start_is_valid)
        &&& (segment_is_open(g.0, g.1) || g.2 == g.3)
    }
}

/// The segments tile `[from, to]` in order: each starts where the previous
/// one ended, none goes backwards, and each crossing date that is needed
/// lies inside its segment.
pub open spec fn segments_tile(segments: Seq<Segment>, from: u64, to: u64) -> bool
    decreases segments.len(),
{
    if segments.len() == 0 {
        from == to
    } else {
        let g = segments.last();
        &&& segments_tile(segments.drop_last(), from, g.0)
        &&& g.1 == to
        &&& value_le(g.0, g.1)
        &&& needs_boundary_crossing(g.0, g.1, g.2, g.3) ==> {
            &&& g.4 matches Some(c)
            &&& value_le(g.0, c)
            &&& value_le(c, g.1)
        }
    }
}

/// The open window, taken up to the frontier, contains `t`.
pub open spec fn open_covers(open_window_start: Option<u64>, frontier: u64, t: u64) -> bool {
    open_window_start matches Some(s) && window_contains((s, frontier), t)
}

/// A window is open exactly when the body is in the sign at the frontier,
/// and the emitted windows together with the open window (up to the
/// frontier) contain exactly the dates at which the processed segments put
/// the body in the sign.
pub open spec fn sweep_covers_in_sign(
    open_window_start: Option<u64>,
    output: Seq<Window>,
    frontier: u64,
    segments: Seq<Segment>,
    start_is_valid: bool,
) -> bool {
    &&& (open_window_start is Some <==> current_flag(segments, start_is_valid))
    &&& forall|t: u64| #![trigger in_sign(segments, t)]
        (covers(output, t) || open_covers(open_window_start, frontier, t)) == in_sign(segments, t)
}

/// The open window and the emitted windows after processing one segment.
pub open spec fn sweep_step(state: (Option<u64>, Seq<Window>), g: Segment) -> (Option<u64>, Seq<Window>) {
    (
        open_after_segment(state.0, g.0, g.1, g.2, g.3, g.4),
        with_emitted(state.1, emitted_by_segment(state.0, g.0, g.1, g.2, g.3, g.4)),
    )
}

/// The open window and the emitted windows after processing the segments in
/// order, starting from the given state.
pub open spec fn sweep(open_window_start: Option<u64>, output: Seq<Window>, segments: Seq<Segment>) -> (Option<u64>, Seq<Window>)
    decreases segments.len(),
{
    if segments.len() == 0 {
        (open_window_start, output)
    } else {
        sweep_step(sweep(open_window_start, output, segments.drop_last()), segments.last())
    }
}

proof fn lemma_in_sign_push(segments: Seq<Segment>, g: Segment, t: u64)
    ensures
        in_sign(segments.push(g), t) == (in_sign(segments, t) || segment_in_sign(g, t)),
{
    let s = segments.push(g);
    if in_sign(segments, t) {
        let i = choose|i: int| 0 <= i < segments.len() && #[trigger] segment_in_sign(segments[i], t);
        assert(s[i] == segments[i]);
        assert(segment_in_sign(s[i], t));
    }
    if segment_in_sign(g, t) {
        assert(s[segments.len() as int] == g);
        assert(segment_in_sign(s[segments.len() as int], t));
    }
    if in_sign(s, t) {
        let i = choose|i: int| 0 <= i < s.len() && #[trigger] segment_in_sign(s[i], t);
        if i < segments.len() {
            assert(s[i] == segments[i]);
            assert(segment_in_sign(segments[i], t));
        }
    }
}

/// A sweep that has processed nothing covers nothing, with a window open
/// exactly when the body is in the sign at the start.
proof fn lemma_coverage_starts(window_start: u64, start_is_valid: bool)
    ensures
        sweep_covers_in_sign(initial_open(window_start, start_is_valid), Seq::empty(), window_start, Seq::empty(), start_is_valid),
{
    assert forall|t: u64| #![trigger in_sign(Seq::<Segment>::empty(), t)]
        (covers(Seq::<Window>::empty(), t) || open_covers(initial_open(window_start, start_is_valid), window_start, t))
        == in_sign(Seq::<Segment>::empty(), t) by {
        if covers(Seq::<Window>::empty(), t) {
            let i = choose|i: int| 0 <= i < Seq::<Window>::empty().len() && #[trigger] window_contains(Seq::<Window>::empty()[i], t);
        }
        if in_sign(Seq::<Segment>::empty(), t) {
            let i = choose|i: int| 0 <= i < Seq::<Segment>::empty().len() && #[trigger] segment_in_sign(Seq::<Segment>::empty()[i], t);
        }
    }
}

/// Processing the next segment keeps the emitted and open windows equal to
/// the in-sign dates of the processed segments, when the flags agree.
proof fn lemma_coverage_step(
    open_window_start: Option<u64>,
    output: Seq<Window>,
    window_start: u64,
    segments: Seq<Segment>,
    start_is_valid: bool,
    g: Segment,
)
    requires
        sweep_state_ok(open_window_start, output, window_start, g.0),
        value_le(g.0, g.1),
        needs_boundary_crossing(g.0, g.1, g.2, g.3) ==> {
            &&& g.4 matches Some(c)
            &&& value_le(g.0, c)
            &&& value_le(c, g.1)
        },
        sweep_covers_in_sign(open_window_start, output, g.0, segments, start_is_valid),
        g.2 == current_flag(segments, start_is_valid),
        segment_is_open(g.0, g.1) || g.2 == g.3,
    ensures
        ({
            let next = sweep_step((open_window_start, output), g);
            sweep_covers_in_sign(next.0, next.1, g.1, segments.push(g), start_is_valid)
        }),
{
    let next = sweep_step((open_window_start, output), g);
    let emitted = emitted_by_segment(open_window_start, g.0, g.1, g.2, g.3, g.4);
    assert(segments.push(g).last() == g);
    assert forall|t: u64| #![trigger in_sign(segments.push(g), t)]
        (covers(next.1, t) || open_covers(next.0, g.1, t)) == in_sign(segments.push(g), t) by {
        lemma_in_sign_push(segments, g, t);
        assert((covers(output, t) || open_covers(open_window_start, g.0, t)) == in_sign(segments, t));
        if let Some(w) = emitted {
            crate::windows::lemma_covers_push(output, w, t);
        }
    }
}

proof fn lemma_sweep_keeps_state(
    open_window_start: Option<u64>,
    output: Seq<Window>,
    window_start: u64,
    frontier: u64,
    segments: Seq<Segment>,
    to: u64,
)
    requires
        sweep_state_ok(open_window_start, output, window_start, frontier),
        segments_tile(segments, frontier, to),
    ensures
        ({
            let s = sweep(open_window_start, output, segments);
            sweep_state_ok(s.0, s.1, window_start, to)
        }),
    decreases segments.len(),
{
    if segments.len() > 0 {
        let g = segments.last();
        lemma_sweep_keeps_state(open_window_start, output, window_start, frontier, segments.drop_last(), g.0);
        let s = sweep(open_window_start, output, segments.drop_last());
        lemma_sweep_segment(s.0, s.1, window_start, g.0, g.1, g.2, g.3, g.4);
    }
}

proof fn lemma_sweep_keeps_coverage(window_start: u64, start_is_valid: bool, segments: Seq<Segment>, to: u64)
    requires
        !is_nan(window_start),
        segments_tile(segments, window_start, to),
        consistent(segments, start_is_valid),
    ensures
        ({
            let s = sweep(initial_open(window_start, start_is_valid), Seq::empty(), segments);
            &&& sweep_state_ok(s.0, s.1, window_start, to)
            &&& sweep_covers_in_sign(s.0, s.1, to, segments, start_is_valid)
        }),
    decreases segments.len(),
{
    if segments.len() == 0 {
        lemma_sweep_starts(window_start, start_is_valid);
        lemma_coverage_starts(window_start, start_is_valid);
    } else {
        let g = segments.last();
        let p = segments.drop_last();
        lemma_sweep_keeps_coverage(window_start, start_is_valid, p, g.0);
        let s = sweep(initial_open(window_start, start_is_valid), Seq::empty(), p);
        lemma_sweep_segment(s.0, s.1, window_start, g.0, g.1, g.2, g.3, g.4);
        lemma_coverage_step(s.0, s.1, window_start, p, start_is_valid, g);
        assert(p.push(g) =~= segments);
    }
}

/// Closing a sweep whose frontier has reached the window end leaves
/// windows that contain exactly the in-sign dates of its segments.
proof fn lemma_close_coverage(
    open_window_start: Option<u64>,
    output: Seq<Window>,
    window_start: u64,
    frontier: u64,
    window_end: u64,
    segments: Seq<Segment>,
    start_is_valid: bool,
)
    requires
        sweep_state_ok(open_window_start, output, window_start, frontier),
        sweep_covers_in_sign(open_window_start, output, frontier, segments, start_is_valid),
        value_le(frontier, window_end),
        value_le(window_end, frontier),
    ensures
        forall|t: u64| #![trigger in_sign(segments, t)]
            covers(with_emitted(output, emitted_at_close(open_window_start, window_end)), t) == in_sign(segments, t),
{
    assert forall|t: u64| #![trigger in_sign(segments, t)]
        covers(with_emitted(output, emitted_at_close(open_window_start, window_end)), t) == in_sign(segments, t) by {
        assert((covers(output, t) || open_covers(open_window_start, frontier, t)) == in_sign(segments, t));
        if let Some(w) = emitted_at_close(open_window_start, window_end) {
            crate::windows::lemma_covers_push(output, w, t);
        }
    }
}

/// A whole sweep of `[window_start, window_end]` whose segments tile the
/// window, started with the window open exactly when the body is in the
/// sign at the window start and closed at the window end, emits nonempty
/// windows, ordered end to start, inside the window.
pub proof fn lemma_sweep_fits_window(
    window_start: u64,
    window_end: u64,
    start_is_valid: bool,
    segments: Seq<Segment>,
)
    requires
        !is_nan(window_start),
        segments_tile(segments, window_start, window_end),
    ensures
        ({
            let s = sweep(initial_open(window_start, start_is_valid), Seq::empty(), segments);
            batch_fits(with_emitted(s.1, emitted_at_close(s.0, window_end)), (window_start, window_end))
        }),
{
    lemma_sweep_starts(window_start, start_is_valid);
    lemma_sweep_keeps_state(
        initial_open(window_start, start_is_valid),
        Seq::empty(),
        window_start,
        window_start,
        segments,
        window_end,
    );
    let s = sweep(initial_open(window_start, start_is_valid), Seq::empty(), segments);
    lemma_sweep_close(s.0, s.1, window_start, window_end, window_end);
}

/// The windows of a whole sweep of `[window_start, window_end]` whose
/// segments tile the window and whose membership flags agree contain a date
/// exactly when some segment puts the body in the sign at that date.
pub proof fn lemma_sweep_covers_in_sign(
    window_start: u64,
    window_end: u64,
    start_is_valid: bool,
    segments: Seq<Segment>,
)
    requires
        !is_nan(window_start),
        segments_tile(segments, window_start, window_end),
        consistent(segments, start_is_valid),
    ensures
        ({
            let s = sweep(initial_open(window_start, start_is_valid), Seq::empty(), segments);
            forall|t: u64| #![trigger in_sign(segments, t)]
                covers(with_emitted(s.1, emitted_at_close(s.0, window_end)), t) == in_sign(segments, t)
        }),
{
    lemma_sweep_keeps_coverage(window_start, start_is_valid, segments, window_end);
    let s = sweep(initial_open(window_start, start_is_valid), Seq::empty(), segments);
    lemma_close_coverage(s.0, s.1, window_start, window_end, window_end, segments, start_is_valid);
}

/// The coarse sweep of one window `[start, end)` for one feature: the
/// frontier it has reached, the window it keeps open, and the windows it has
/// emitted. The caller evaluates the body at the dates the sweep reaches and
/// hands the results to `advance`; the sweep decides where segments end,
/// when it is done, which windows open and close, and what it emits. It
/// also records, as ghost state, the flag at its start and the segments it
/// has processed.
pub struct WindowSweep {
    window: Window,
    frontier: u64,
    open_window_start: Option<u64>,
    output: Vec<Window>,
    start_flag: Ghost<bool>,
    history: Ghost<Seq<Segment>>,
}

/// What holds of a sweep at every moment: its segments tile the window from
/// its start to the frontier; before the first segment nothing is emitted
/// and the window is open exactly when the body is in the sign at the start;
/// afterwards the sweep is in a good state with its frontier inside the
/// window; and when the flags of its segments agree, its windows contain
/// exactly the in-sign dates of its segments.
pub open spec fn sweep_invariant(
    window: Window,
    frontier: u64,
    open_window_start: Option<u64>,
    output: Seq<Window>,
    start_flag: bool,
    history: Seq<Segment>,
) -> bool {
    &&& segments_tile(history, window.0, frontier)
    &&& history.len() == 0 ==> output.len() == 0 && open_window_start == initial_open(window.0, start_flag)
    &&& history.len() > 0 ==> sweep_state_ok(open_window_start, output, window.0, frontier)
        && value_le(frontier, window.1)
    &&& consistent(history, start_flag) ==> sweep_covers_in_sign(
        open_window_start,
        output,
        frontier,
        history,
        start_flag,
    )
}

impl WindowSweep {
    #[verifier::type_invariant]
    closed spec fn invariant_holds(&self) -> bool {
        sweep_invariant(
            self.window,
            self.frontier,
            self.open_window_start,
            self.output@,
            self.start_flag@,
            self.history@,
        )
    }

    /// The window being swept.
    pub closed spec fn window_view(&self) -> Window {
        self.window
    }

    /// The date up to which the window has been swept: the start of the
    /// next segment.
    pub closed spec fn frontier_view(&self) -> u64 {
        self.frontier
    }

    /// The start of the window that is open, if any.
    pub closed spec fn open_view(&self) -> Option<u64> {
        self.open_window_start
    }

    /// The windows emitted so far.
    pub closed spec fn output_view(&self) -> Seq<Window> {
        self.output@
    }

    /// Whether the body was in the sign at the start of the window.
    pub closed spec fn start_flag_view(&self) -> bool {
        self.start_flag@
    }

    /// The segments processed so far, in order.
    pub closed spec fn history_view(&self) -> Seq<Segment> {
        self.history@
    }

    /// The windows the sweep yields when it is finished now.
    pub open spec fn batch_view(&self) -> Seq<Window> {
        with_emitted(self.output_view(), emitted_at_close(self.open_view(), self.window_view().1))
    }

    /// The sweep has reached the end of its window.
    pub open spec fn is_done_spec(&self) -> bool {
        !value_lt(self.frontier_view(), self.window_view().1)
    }

    /// The sweep is done and the flags of its segments agree, so its windows
    /// contain exactly the dates at which its segments put the body in the
    /// sign.
    pub open spec fn batch_is_exact(&self) -> bool {
        self.is_done_spec() && consistent(self.history_view(), self.start_flag_view()) ==> forall|t: u64|
            #![trigger in_sign(self.history_view(), t)]
            covers(self.batch_view(), t) == in_sign(self.history_view(), t)
    }

    /// The conditions under which the next segment, ending at `segment_end`,
    /// can be processed: it starts at the frontier, does not go backwards,
    /// stays in the window, and comes with a crossing date inside it when one
    /// is needed.
    pub open spec fn can_advance(
        &self,
        segment_end: u64,
        start_is_valid: bool,
        end_is_valid: bool,
        boundary_crossing: Option<u64>,
    ) -> bool {
        &&& value_le(self.frontier_view(), segment_end)
        &&& value_le(segment_end, self.window_view().1)
        &&& needs_boundary_crossing(self.frontier_view(), segment_end, start_is_valid, end_is_valid) ==> {
            &&& boundary_crossing matches Some(c)
            &&& value_le(self.frontier_view(), c)
            &&& value_le(c, segment_end)
        }
    }

    /// Starts sweeping `[window_start, window_end)`; the window is open from
    /// its start when the body is in the sign there.
    pub fn new(window_start: u64, window_end: u64, start_is_valid: bool) -> (r: Self)
        ensures
            r.window_view() == (window_start, window_end),
            r.frontier_view() == window_start,
            r.open_view() == initial_open(window_start, start_is_valid),
            r.output_view() == Seq::<Window>::empty(),
            r.start_flag_view() == start_is_valid,
            r.history_view() == Seq::<Segment>::empty(),
            r.batch_is_exact(),
    {
        proof {
            lemma_coverage_starts(window_start, start_is_valid);
            let batch = with_emitted(Seq::<Window>::empty(), emitted_at_close(initial_open(window_start, start_is_valid), window_end));
            if !value_lt(window_start, window_end) {
                assert(batch =~= Seq::<Window>::empty());
                assert forall|t: u64| #![trigger in_sign(Seq::<Segment>::empty(), t)]
                    covers(batch, t) == in_sign(Seq::<Segment>::empty(), t) by {
                    assert((covers(Seq::<Window>::empty(), t) || open_covers(initial_open(window_start, start_is_valid), window_start, t))
                        == in_sign(Seq::<Segment>::empty(), t));
                }
            }
        }
        WindowSweep {
            window: (window_start, window_end),
            frontier: window_start,
            open_window_start: open_window_at_start(window_start, start_is_valid),
            output: Vec::new(),
            start_flag: Ghost(start_is_valid),
            history: Ghost(Seq::empty()),
        }
    }

    /// The window being swept.
    pub fn window(&self) -> (r: Window)
        ensures
            r == self.window_view(),
    {
        self.window
    }

    /// The start of the next segment.
    pub fn frontier(&self) -> (r: u64)
        ensures
            r == self.frontier_view(),
    {
        self.frontier
    }

    /// The sweep has reached the end of its window: the frontier is not
    /// before the window end.
    pub fn is_done(&self) -> (r: bool)
        ensures
            r == self.is_done_spec(),
    {
        !lt(self.frontier, self.window.1)
    }

    /// The end of the next coarse segment: `stepped` (the frontier plus the
    /// coarse step), clipped to the window end.
    pub fn segment_end(&self, stepped: u64) -> (r: u64)
        ensures
            r == if value_lt(stepped, self.window_view().1) {
                stepped
            } else {
                self.window_view().1
            },
    {
        if lt(stepped, self.window.1) {
            stepped
        } else {
            self.window.1
        }
    }

    /// Returns whether the next segment can be processed, as `can_advance`
    /// describes.
    pub fn accepts_segment(
        &self,
        segment_end: u64,
        start_is_valid: bool,
        end_is_valid: bool,
        boundary_crossing: Option<u64>,
    ) -> (r: bool)
        ensures
            r == self.can_advance(segment_end, start_is_valid, end_is_valid, boundary_crossing),
    {
        if !le(self.frontier, segment_end) || !le(segment_end, self.window.1) {
            return false;
        }
        if segment_needs_boundary_crossing(self.frontier, segment_end, start_is_valid, end_is_valid) {
            match boundary_crossing {
                Some(c) => le(self.frontier, c) && le(c, segment_end),
                None => false,
            }
        } else {
            true
        }
    }

    /// Processes the monotonic segment from the frontier to `segment_end`,
    /// given whether the body is in the sign at each end and the crossing
    /// date when it enters or leaves the sign; the frontier moves to
    /// `segment_end` and the segment is recorded.
    pub fn advance(
        &mut self,
        segment_end: u64,
        start_is_valid: bool,
        end_is_valid: bool,
        boundary_crossing: Option<u64>,
    )
        requires
            old(self).can_advance(segment_end, start_is_valid, end_is_valid, boundary_crossing),
        ensures
            final(self).window_view() == old(self).window_view(),
            final(self).frontier_view() == segment_end,
            final(self).open_view() == open_after_segment(
                old(self).open_view(),
                old(self).frontier_view(),
                segment_end,
                start_is_valid,
                end_is_valid,
                boundary_crossing,
            ),
            final(self).output_view() == with_emitted(
                old(self).output_view(),
                emitted_by_segment(
                    old(self).open_view(),
                    old(self).frontier_view(),
                    segment_end,
                    start_is_valid,
                    end_is_valid,
                    boundary_crossing,
                ),
            ),
            final(self).start_flag_view() == old(self).start_flag_view(),
            final(self).history_view() == old(self).history_view().push(
                (old(self).frontier_view(), segment_end, start_is_valid, end_is_valid, boundary_crossing),
            ),
            final(self).batch_is_exact(),
    {
        proof {
            use_type_invariant(&*self);
        }
        let mut taken = WindowSweep::new(0, 0, false);
        std::mem::swap(self, &mut taken);
        let WindowSweep { window, frontier, open_window_start, output, start_flag, history } = taken;
        let ghost g: Segment = (frontier, segment_end, start_is_valid, end_is_valid, boundary_crossing);
        let ghost new_history = history@.push(g);
        proof {
            if history@.len() == 0 {
                lemma_sweep_starts(window.0, start_flag@);
            }
            lemma_sweep_segment(
                open_window_start,
                output@,
                window.0,
                frontier,
                segment_end,
                start_is_valid,
                end_is_valid,
                boundary_crossing,
            );
            assert(new_history.drop_last() =~= history@);
            assert(new_history.last() == g);
            if consistent(new_history, start_flag@) {
                lemma_coverage_step(open_window_start, output@, window.0, history@, start_flag@, g);
            }
        }
        let mut open_window_start = open_window_start;
        let mut output = output;
        process_monotonic_segment(
            frontier,
            segment_end,
            start_is_valid,
            end_is_valid,
            boundary_crossing,
            &mut open_window_start,
            &mut output,
        );
        proof {
            let done = !value_lt(segment_end, window.1);
            if done && consistent(new_history, start_flag@) {
                lemma_close_coverage(
                    open_window_start,
                    output@,
                    window.0,
                    segment_end,
                    window.1,
                    new_history,
                    start_flag@,
                );
            }
        }
        *self = WindowSweep {
            window,
            frontier: segment_end,
            open_window_start,
            output,
            start_flag,
            history: Ghost(new_history),
        };
    }

    /// Ends the sweep: the emitted windows, with the open window clipped to
    /// the window end. They are nonempty, ordered end to start, and inside
    /// the window; once the sweep is done and the flags of its segments
    /// agree, they contain exactly the dates at which its segments put the
    /// body in the sign.
    pub fn finish(self) -> (r: Vec<Window>)
        ensures
            r@ == self.batch_view(),
            batch_fits(r@, self.window_view()),
            segments_tile(self.history_view(), self.window_view().0, self.frontier_view()),
            self.is_done_spec() && consistent(self.history_view(), self.start_flag_view()) ==> forall|t: u64|
                #![trigger in_sign(self.history_view(), t)]
                covers(r@, t) == in_sign(self.history_view(), t),
    {
        proof {
            use_type_invariant(&self);
        }
        proof {
            lemma_batch_is_exact(self.window, self.frontier, self.open_window_start, self.output@, self.start_flag@, self.history@);
        }
        let WindowSweep { window, frontier, open_window_start, output, start_flag, history } = self;
        let mut output = output;
        proof {
            if history@.len() == 0 {
                if let Some(w) = emitted_at_close(open_window_start, window.1) {
                    lemma_push_window(output@, w, window.0, window.1);
                }
            } else {
                lemma_sweep_close(open_window_start, output@, window.0, frontier, window.1);
            }
        }
        close_open_window(open_window_start, window.1, &mut output);
        output
    }
}

/// Which segments a sweep accepts, over all inputs: exactly those that start
/// at the frontier and do not go backwards, end no later than the window
/// end, and, when they have positive length and the body enters or leaves
/// the sign, come with a crossing date between their two ends. In
/// particular every such segment is accepted, including the last one of a
/// window and one in which the body enters the sign.
pub proof fn lemma_sweep_accepts_exactly(
    sweep: WindowSweep,
    segment_end: u64,
    start_is_valid: bool,
    end_is_valid: bool,
    boundary_crossing: Option<u64>,
)
    ensures
        sweep.can_advance(segment_end, start_is_valid, end_is_valid, boundary_crossing) <==> (
            value_le(sweep.frontier_view(), segment_end)
            && value_le(segment_end, sweep.window_view().1)
            && ((!value_le(segment_end, sweep.frontier_view()) && start_is_valid != end_is_valid) ==> (
                boundary_crossing is Some
                && value_le(sweep.frontier_view(), boundary_crossing.unwrap())
                && value_le(boundary_crossing.unwrap(), segment_end)))),
{
}

/// Under the sweep invariant, a finished sweep's windows are exact.
proof fn lemma_batch_is_exact(
    window: Window,
    frontier: u64,
    open_window_start: Option<u64>,
    output: Seq<Window>,
    start_flag: bool,
    history: Seq<Segment>,
)
    requires
        sweep_invariant(window, frontier, open_window_start, output, start_flag, history),
    ensures
        ({
            let batch = with_emitted(output, emitted_at_close(open_window_start, window.1));
            !value_lt(frontier, window.1) && consistent(history, start_flag) ==> forall|t: u64|
                #![trigger in_sign(history, t)]
                covers(batch, t) == in_sign(history, t)
        }),
{
    if !value_lt(frontier, window.1) && consistent(history, start_flag) {
        if history.len() == 0 {
            let batch = with_emitted(output, emitted_at_close(open_window_start, window.1));
            assert(batch =~= Seq::<Window>::empty());
            assert forall|t: u64| #![trigger in_sign(history, t)] covers(batch, t) == in_sign(history, t) by {
                assert((covers(output, t) || open_covers(open_window_start, frontier, t)) == in_sign(history, t));
            }
        } else {
            lemma_close_coverage(open_window_start, output, window.0, frontier, window.1, history, start_flag);
        }
    }
}

} // verus!
