//! The refinement of the search range, one feature at a time.
//!
//! The search starts from the single window `[start, end)`. For each
//! feature in turn, every current window is swept for the dates at which the
//! feature is in its sign; the windows found are merged where they are
//! adjacent or overlap and become the current windows for the next feature.
//! The sweep itself needs the ephemeris, so this state machine hands out one
//! (feature, window) request at a time and takes back the finished
//! `WindowSweep` of that window.
use vstd::prelude::*;
use crate::binary64::{value_le, value_lt};
use crate::segments::{consistent, in_sign, WindowSweep};
use crate::validation::{lemma_valid_request_shape, validate_search_inputs, validation_outcome, SearchInputError};
use crate::windows::{
    chained, covers, flatten_windows, lemma_covers_concat, window_contains, lemma_merge_windows, merge_adjacent_or_overlapping_windows, merged,
    nonempty_windows, separated, sorted_by_start, within, Window,
};

verus! {

/// Where the refinement stands after the current windows have run out for
/// the current feature: the windows found are merged and become the current
/// windows of the next feature, until a feature has windows left to sweep or
/// the features are exhausted.
pub open spec fn settle(
    windows: Seq<Window>,
    pending: Seq<Window>,
    feature_index: nat,
    window_index: nat,
    feature_count: nat,
) -> (Seq<Window>, Seq<Window>, nat, nat)
    decreases feature_count - feature_index,
{
    if feature_index < feature_count && window_index >= windows.len() {
        settle(merged(pending), Seq::empty(), feature_index + 1, 0, feature_count)
    } else {
        (windows, pending, feature_index, window_index)
    }
}

/// The current windows are nonempty, sorted, neither overlap nor touch, and
/// lie in `[lo, hi]`; the windows found so far for the current feature are
/// nonempty, ordered end to start, and come from the windows already swept.
pub open spec fn refinement_state_ok(
    windows: Seq<Window>,
    pending: Seq<Window>,
    window_index: nat,
    lo: u64,
    hi: u64,
) -> bool {
    &&& nonempty_windows(windows)
    &&& separated(windows)
    &&& within(windows, lo, hi)
    &&& nonempty_windows(pending)
    &&& chained(pending)
    &&& window_index <= windows.len()
    &&& window_index == 0 ==> pending.len() == 0
    &&& window_index > 0 ==> within(pending, lo, windows[window_index - 1].1)
    &&& forall|t: u64| covers(pending, t) ==> covers(windows, t)
}

/// What a finished sweep of `window` yields: nonempty windows, ordered end
/// to start, inside `window`.
pub open spec fn batch_fits(batch: Seq<Window>, window: Window) -> bool {
    &&& nonempty_windows(batch)
    &&& chained(batch)
    &&& within(batch, window.0, window.1)
}

/// The refinement of a search range through a list of features.
pub struct WindowRefinement {
    search_start: u64,
    search_end: u64,
    feature_count: usize,
    feature_index: usize,
    window_index: usize,
    windows: Vec<Window>,
    pending: Vec<Window>,
}

impl WindowRefinement {
    #[verifier::type_invariant]
    closed spec fn indices_ok(&self) -> bool {
        &&& self.feature_index <= self.feature_count
        &&& self.window_index <= self.windows@.len()
        &&& self.feature_index < self.feature_count ==> self.window_index < self.windows@.len()
    }

    /// The start of the search range.
    pub closed spec fn search_start_view(&self) -> u64 {
        self.search_start
    }

    /// The end of the search range.
    pub closed spec fn search_end_view(&self) -> u64 {
        self.search_end
    }

    /// The number of features to refine by.
    pub closed spec fn feature_count_view(&self) -> nat {
        self.feature_count as nat
    }

    /// The feature currently being refined by.
    pub closed spec fn feature_index_view(&self) -> nat {
        self.feature_index as nat
    }

    /// The position of the next window to sweep for the current feature.
    pub closed spec fn window_index_view(&self) -> nat {
        self.window_index as nat
    }

    /// The windows that satisfy every feature before the current one.
    pub closed spec fn windows_view(&self) -> Seq<Window> {
        self.windows@
    }

    /// The windows found so far for the current feature.
    pub closed spec fn pending_view(&self) -> Seq<Window> {
        self.pending@
    }

    /// Every feature has been refined by.
    pub open spec fn is_done(&self) -> bool {
        self.feature_index_view() >= self.feature_count_view()
    }

    /// The window that the next sweep covers.
    pub open spec fn current_window(&self) -> Window {
        self.windows_view()[self.window_index_view() as int]
    }

    /// The state is well ordered with respect to the search range.
    pub open spec fn is_well_ordered(&self) -> bool {
        refinement_state_ok(
            self.windows_view(),
            self.pending_view(),
            self.window_index_view(),
            self.search_start_view(),
            self.search_end_view(),
        )
    }

    /// Starts refining `[start_julian_date, end_julian_date)` by
    /// `feature_count` features.
    pub fn new(start_julian_date: u64, end_julian_date: u64, feature_count: usize) -> (r: Self)
        ensures
            r.search_start_view() == start_julian_date,
            r.search_end_view() == end_julian_date,
            r.feature_count_view() == feature_count,
            (r.windows_view(), r.pending_view(), r.feature_index_view(), r.window_index_view())
                == settle(seq![(start_julian_date, end_julian_date)], Seq::empty(), 0, 0, feature_count as nat),
            value_lt(start_julian_date, end_julian_date) ==> r.is_well_ordered(),
    {
        let mut windows: Vec<Window> = Vec::new();
        windows.push((start_julian_date, end_julian_date));
        let pending: Vec<Window> = Vec::new();
        proof {
            assert(windows@ =~= seq![(start_julian_date, end_julian_date)]);
            if value_lt(start_julian_date, end_julian_date) {
                assert(refinement_state_ok(windows@, pending@, 0, start_julian_date, end_julian_date));
                lemma_settle_keeps_order(windows@, pending@, 0, 0, feature_count as nat, start_julian_date, end_julian_date);
            }
        }
        let (windows, pending, feature_index, window_index) = settle_windows(windows, pending, 0, 0, feature_count);
        WindowRefinement {
            search_start: start_julian_date,
            search_end: end_julian_date,
            feature_count,
            feature_index,
            window_index,
            windows,
            pending,
        }
    }

    /// The next sweep to perform: the feature's position in the feature
    /// list and the window to sweep, or `None` when the refinement is done.
    pub fn next_request(&self) -> (r: Option<(usize, Window)>)
        ensures
            r == if self.is_done() {
                None
            } else {
                Some((self.feature_index_view() as usize, self.current_window()))
            },
    {
        proof {
            use_type_invariant(self);
        }
        if self.feature_index < self.feature_count {
            Some((self.feature_index, self.windows[self.window_index]))
        } else {
            None
        }
    }

    /// Takes the finished sweep of the current window, adds the windows it
    /// found, and moves on to the next window, or to the next feature.
    pub fn accept(self, sweep: WindowSweep) -> (r: Self)
        requires
            !self.is_done(),
            sweep.window_view() == self.current_window(),
        ensures
            r.search_start_view() == self.search_start_view(),
            r.search_end_view() == self.search_end_view(),
            r.feature_count_view() == self.feature_count_view(),
            (r.windows_view(), r.pending_view(), r.feature_index_view(), r.window_index_view()) == settle(
                self.windows_view(),
                self.pending_view() + sweep.batch_view(),
                self.feature_index_view(),
                self.window_index_view() + 1,
                self.feature_count_view(),
            ),
            r.feature_index_view() == self.feature_index_view() ==> {
                &&& r.windows_view() == self.windows_view()
                &&& r.pending_view() == self.pending_view() + sweep.batch_view()
            },
            self.is_well_ordered() && r.feature_index_view() != self.feature_index_view() ==> {
                &&& r.pending_view().len() == 0
                &&& forall|t: u64| #![trigger covers(r.windows_view(), t)]
                    covers(r.windows_view(), t) == (covers(self.pending_view(), t) || covers(sweep.batch_view(), t))
            },
            sweep.is_done_spec() && consistent(sweep.history_view(), sweep.start_flag_view()) ==> {
                &&& r.feature_index_view() == self.feature_index_view() ==> forall|t: u64|
                    #![trigger covers(r.pending_view(), t)]
                    covers(r.pending_view(), t) == (covers(self.pending_view(), t) || in_sign(sweep.history_view(), t))
                &&& self.is_well_ordered() && r.feature_index_view() != self.feature_index_view() ==> forall|t: u64|
                    #![trigger covers(r.windows_view(), t)]
                    covers(r.windows_view(), t) == (covers(self.pending_view(), t) || in_sign(sweep.history_view(), t))
            },
            self.is_well_ordered() ==> {
                &&& r.is_well_ordered()
                &&& forall|t: u64| covers(r.windows_view(), t) ==> covers(self.windows_view(), t)
            },
    {
        proof {
            use_type_invariant(&self);
        }
        let batch = sweep.finish();
        let WindowRefinement {
            search_start,
            search_end,
            feature_count,
            feature_index,
            window_index,
            windows,
            pending,
        } = self;
        let ghost old_pending = pending@;
        assert(window_index < windows.len());
        let mut pending = pending;
        let mut batch = batch;
        let ghost batch_view = batch@;
        pending.append(&mut batch);
        proof {
            assert(pending@ =~= old_pending + batch_view);
            lemma_settle_advances(windows@, pending@, feature_index as nat, (window_index + 1) as nat, feature_count as nat);
            assert forall|t: u64| covers(pending@, t) == (covers(old_pending, t) || covers(batch_view, t)) by {
                lemma_covers_concat(old_pending, batch_view, t);
            }
            if refinement_state_ok(windows@, old_pending, window_index as nat, search_start, search_end)
                && batch_fits(batch_view, windows@[window_index as int]) {
                lemma_accept_keeps_order(windows@, old_pending, batch_view, window_index as nat, search_start, search_end);
                lemma_settle_keeps_order(
                    windows@,
                    pending@,
                    feature_index as nat,
                    (window_index + 1) as nat,
                    feature_count as nat,
                    search_start,
                    search_end,
                );
                if window_index + 1 >= windows@.len() {
                    lemma_settle_coverage(
                        windows@,
                        pending@,
                        feature_index as nat,
                        (window_index + 1) as nat,
                        feature_count as nat,
                        search_start,
                        search_end,
                    );
                }
            }
        }
        let (windows, pending, feature_index, window_index) = settle_windows(
            windows,
            pending,
            feature_index,
            window_index + 1,
            feature_count,
        );
        WindowRefinement {
            search_start,
            search_end,
            feature_count,
            feature_index,
            window_index,
            windows,
            pending,
        }
    }

    /// Ends the refinement: the windows that satisfy every feature, laid out
    /// as `[start0, end0, start1, end1, ...]`.
    pub fn finish(self) -> (r: Vec<u64>)
        requires
            self.is_done(),
        ensures
            r@.len() == self.windows_view().len() * 2,
            forall|i: int| 0 <= i < self.windows_view().len() ==> r@[2 * i] == (#[trigger] self.windows_view()[i]).0
                && r@[2 * i + 1] == self.windows_view()[i].1,
            self.is_well_ordered() ==> {
                &&& nonempty_windows(self.windows_view())
                &&& separated(self.windows_view())
                &&& within(self.windows_view(), self.search_start_view(), self.search_end_view())
            },
    {
        flatten_windows(&self.windows)
    }
}

/// Validates a search request and, when it is valid, starts refining its
/// range by its features. A refinement started this way is well ordered.
pub fn start_search(
    start_julian_date: u64,
    end_julian_date: u64,
    feature_ids: &[u8],
    feature_signs: &[u8],
) -> (r: Result<WindowRefinement, SearchInputError>)
    ensures
        match r {
            Ok(refinement) => {
                &&& validation_outcome(start_julian_date, end_julian_date, feature_ids@, feature_signs@) is Ok
                &&& refinement.search_start_view() == start_julian_date
                &&& refinement.search_end_view() == end_julian_date
                &&& refinement.feature_count_view() == feature_ids@.len()
                &&& (refinement.windows_view(), refinement.pending_view(), refinement.feature_index_view(),
                    refinement.window_index_view()) == settle(
                    seq![(start_julian_date, end_julian_date)],
                    Seq::empty(),
                    0,
                    0,
                    feature_ids@.len(),
                )
                &&& refinement.is_well_ordered()
            },
            Err(error) => validation_outcome(start_julian_date, end_julian_date, feature_ids@, feature_signs@)
                == Err::<(), SearchInputError>(error),
        },
{
    match validate_search_inputs(start_julian_date, end_julian_date, feature_ids, feature_signs) {
        Ok(()) => {
            proof {
                lemma_valid_request_shape(start_julian_date, end_julian_date, feature_ids@, feature_signs@);
            }
            Ok(WindowRefinement::new(start_julian_date, end_julian_date, feature_ids.len()))
        },
        Err(error) => Err(error),
    }
}

/// The executable form of `settle`.
fn settle_windows(
    windows: Vec<Window>,
    pending: Vec<Window>,
    feature_index: usize,
    window_index: usize,
    feature_count: usize,
) -> (r: (Vec<Window>, Vec<Window>, usize, usize))
    requires
        feature_index <= feature_count,
        window_index <= windows@.len(),
    ensures
        (r.0@, r.1@, r.2 as nat, r.3 as nat) == settle(
            windows@,
            pending@,
            feature_index as nat,
            window_index as nat,
            feature_count as nat,
        ),
        r.2 <= feature_count,
        r.3 <= r.0@.len(),
        r.2 < feature_count ==> r.3 < r.0@.len(),
{
    let ghost target = settle(windows@, pending@, feature_index as nat, window_index as nat, feature_count as nat);
    let mut windows = windows;
    let mut pending = pending;
    let mut feature_index = feature_index;
    let mut window_index = window_index;
    while feature_index < feature_count && window_index >= windows.len()
        invariant
            feature_index <= feature_count,
            window_index <= windows@.len(),
            settle(windows@, pending@, feature_index as nat, window_index as nat, feature_count as nat) == target,
        decreases feature_count - feature_index,
    {
        let mut next = pending;
        merge_adjacent_or_overlapping_windows(&mut next);
        windows = next;
        pending = Vec::new();
        feature_index = feature_index + 1;
        window_index = 0;
    }
    (windows, pending, feature_index, window_index)
}

proof fn lemma_chained_is_sorted(ws: Seq<Window>)
    requires
        nonempty_windows(ws),
        chained(ws),
    ensures
        sorted_by_start(ws),
{
    assert forall|i: int, j: int| #![trigger ws[i], ws[j]] 0 <= i < j < ws.len() implies value_le(ws[i].0, ws[j].0) by {
        assert(value_lt(ws[i].0, ws[i].1));
        assert(value_le(ws[i].1, ws[j].0));
    }
}

proof fn lemma_settle_keeps_order(
    windows: Seq<Window>,
    pending: Seq<Window>,
    feature_index: nat,
    window_index: nat,
    feature_count: nat,
    lo: u64,
    hi: u64,
)
    requires
        refinement_state_ok(windows, pending, window_index, lo, hi),
    ensures
        ({
            let s = settle(windows, pending, feature_index, window_index, feature_count);
            &&& refinement_state_ok(s.0, s.1, s.3, lo, hi)
            &&& forall|t: u64| covers(s.0, t) ==> covers(windows, t)
        }),
    decreases feature_count - feature_index,
{
    if feature_index < feature_count && window_index >= windows.len() {
        if windows.len() > 0 {
            let last = windows[windows.len() - 1];
            assert(value_le(last.1, hi));
            assert forall|i: int| #![trigger pending[i]] 0 <= i < pending.len() implies value_le(lo, pending[i].0)
                && value_le(pending[i].1, hi) by {
                assert(value_le(lo, pending[i].0) && value_le(pending[i].1, last.1));
            }
        }
        lemma_chained_is_sorted(pending);
        lemma_merge_windows(pending, lo, hi);
        assert forall|t: u64| covers(Seq::<Window>::empty(), t) implies covers(merged(pending), t) by {
            let i = choose|i: int| 0 <= i < Seq::<Window>::empty().len() && #[trigger] window_contains(Seq::<Window>::empty()[i], t);
        }
        assert(refinement_state_ok(merged(pending), Seq::empty(), 0, lo, hi));
        lemma_settle_keeps_order(merged(pending), Seq::empty(), feature_index + 1, 0, feature_count, lo, hi);
    }
}

proof fn lemma_settle_advances(
    windows: Seq<Window>,
    pending: Seq<Window>,
    feature_index: nat,
    window_index: nat,
    feature_count: nat,
)
    ensures
        ({
            let s = settle(windows, pending, feature_index, window_index, feature_count);
            if feature_index < feature_count && window_index >= windows.len() {
                s.2 > feature_index
            } else {
                s == (windows, pending, feature_index, window_index)
            }
        }),
    decreases feature_count - feature_index,
{
    if feature_index < feature_count && window_index >= windows.len() {
        lemma_settle_advances(merged(pending), Seq::empty(), feature_index + 1, 0, feature_count);
    }
}

proof fn lemma_settle_coverage(
    windows: Seq<Window>,
    pending: Seq<Window>,
    feature_index: nat,
    window_index: nat,
    feature_count: nat,
    lo: u64,
    hi: u64,
)
    requires
        refinement_state_ok(windows, pending, window_index, lo, hi),
        feature_index < feature_count,
        window_index >= windows.len(),
    ensures
        ({
            let s = settle(windows, pending, feature_index, window_index, feature_count);
            &&& s.2 > feature_index
            &&& s.1.len() == 0
            &&& forall|t: u64| #![trigger covers(s.0, t)] covers(s.0, t) == covers(pending, t)
        }),
    decreases feature_count - feature_index,
{
    if windows.len() > 0 {
        let last = windows[windows.len() - 1];
        assert(value_le(last.1, hi));
        assert forall|i: int| #![trigger pending[i]] 0 <= i < pending.len() implies value_le(lo, pending[i].0)
            && value_le(pending[i].1, hi) by {
            assert(value_le(lo, pending[i].0) && value_le(pending[i].1, last.1));
        }
    }
    lemma_chained_is_sorted(pending);
    lemma_merge_windows(pending, lo, hi);
    let m = merged(pending);
    assert forall|t: u64| covers(Seq::<Window>::empty(), t) implies covers(m, t) by {
        let i = choose|i: int| 0 <= i < Seq::<Window>::empty().len() && #[trigger] window_contains(Seq::<Window>::empty()[i], t);
    }
    assert(refinement_state_ok(m, Seq::empty(), 0, lo, hi));
    if feature_index + 1 < feature_count && m.len() == 0 {
        lemma_settle_coverage(m, Seq::empty(), feature_index + 1, 0, feature_count, lo, hi);
        let s = settle(m, Seq::empty(), feature_index + 1, 0, feature_count);
        assert forall|t: u64| #![trigger covers(s.0, t)] covers(s.0, t) == covers(pending, t) by {
            assert(covers(m, t) == covers(pending, t));
            if covers(Seq::<Window>::empty(), t) {
                let i = choose|i: int| 0 <= i < Seq::<Window>::empty().len() && #[trigger] window_contains(Seq::<Window>::empty()[i], t);
            }
            if covers(m, t) {
                let i = choose|i: int| 0 <= i < m.len() && #[trigger] window_contains(m[i], t);
            }
        }
    }
}

proof fn lemma_accept_keeps_order(
    windows: Seq<Window>,
    pending: Seq<Window>,
    batch: Seq<Window>,
    window_index: nat,
    lo: u64,
    hi: u64,
)
    requires
        refinement_state_ok(windows, pending, window_index, lo, hi),
        window_index < windows.len(),
        batch_fits(batch, windows[window_index as int]),
    ensures
        refinement_state_ok(windows, pending + batch, window_index + 1, lo, hi),
{
    let w = windows[window_index as int];
    let s = pending + batch;
    assert(value_lt(w.0, w.1));
    assert(value_le(lo, w.0) && value_le(w.1, hi));
    if window_index > 0 {
        let prev = windows[window_index - 1];
        assert(value_lt(prev.1, w.0));
    }
    assert forall|i: int| #![trigger s[i]] 0 <= i < s.len() implies value_lt(s[i].0, s[i].1) by {
        if i < pending.len() {
            assert(s[i] == pending[i]);
        } else {
            assert(s[i] == batch[i - pending.len()]);
        }
    }
    assert forall|i: int| #![trigger s[i]] 0 <= i < s.len() implies value_le(lo, s[i].0) && value_le(s[i].1, w.1) by {
        if i < pending.len() {
            assert(s[i] == pending[i]);
            let prev = windows[window_index - 1];
            assert(value_le(lo, pending[i].0) && value_le(pending[i].1, prev.1));
        } else {
            assert(s[i] == batch[i - pending.len()]);
            assert(value_le(w.0, batch[i - pending.len()].0) && value_le(batch[i - pending.len()].1, w.1));
        }
    }
    assert forall|i: int, j: int| #![trigger s[i], s[j]] 0 <= i < j < s.len() implies value_le(s[i].1, s[j].0) by {
        if j < pending.len() {
            assert(s[i] == pending[i] && s[j] == pending[j]);
        } else if i >= pending.len() {
            assert(s[i] == batch[i - pending.len()] && s[j] == batch[j - pending.len()]);
        } else {
            assert(s[i] == pending[i] && s[j] == batch[j - pending.len()]);
            let prev = windows[window_index - 1];
            assert(value_le(lo, pending[i].0) && value_le(pending[i].1, prev.1));
            assert(value_le(w.0, batch[j - pending.len()].0) && value_le(batch[j - pending.len()].1, w.1));
        }
    }
    assert forall|t: u64| covers(s, t) implies covers(windows, t) by {
        let i = choose|i: int| 0 <= i < s.len() && #[trigger] window_contains(s[i], t);
        if i < pending.len() {
            assert(s[i] == pending[i]);
            assert(covers(pending, t));
        } else {
            let b = batch[i - pending.len()];
            assert(s[i] == b);
            assert(value_le(w.0, b.0) && value_le(b.1, w.1));
            assert(window_contains(windows[window_index as int], t));
        }
    }
}

} // verus!
