//! Julian-date windows `[start, end)` and the operations on lists of them:
//! merging adjacent or overlapping windows and flattening to pairs.
use vstd::prelude::*;
use crate::binary64::{is_nan, order_key, value_le, value_lt, max_value, le, max};

verus! {

/// A window `[start, end)` of Julian dates, as the encodings of its bounds.
pub type Window = (u64, u64);

/// The date `t` lies in the half-open window `w`.
pub open spec fn window_contains(w: Window, t: u64) -> bool {
    value_le(w.0, t) && value_lt(t, w.1)
}

/// Some window of the list contains `t`.
pub open spec fn covers(ws: Seq<Window>, t: u64) -> bool {
    exists|i: int| 0 <= i < ws.len() && #[trigger] window_contains(ws[i], t)
}

/// Every window has its start strictly before its end.
pub open spec fn nonempty_windows(ws: Seq<Window>) -> bool {
    forall|i: int| #![trigger ws[i]] 0 <= i < ws.len() ==> value_lt(ws[i].0, ws[i].1)
}

/// The starts never decrease along the list.
pub open spec fn sorted_by_start(ws: Seq<Window>) -> bool {
    forall|i: int, j: int| #![trigger ws[i], ws[j]] 0 <= i < j < ws.len() ==> value_le(ws[i].0, ws[j].0)
}

/// Each window ends no later than the next one starts.
pub open spec fn chained(ws: Seq<Window>) -> bool {
    forall|i: int, j: int| #![trigger ws[i], ws[j]] 0 <= i < j < ws.len() ==> value_le(ws[i].1, ws[j].0)
}

/// Each window ends strictly before every later one starts: the list is
/// sorted and its windows neither overlap nor touch.
pub open spec fn separated(ws: Seq<Window>) -> bool {
    forall|i: int, j: int| #![trigger ws[i], ws[j]] 0 <= i < j < ws.len() ==> value_lt(ws[i].1, ws[j].0)
}

/// Every window lies within `[lo, hi]`.
pub open spec fn within(ws: Seq<Window>, lo: u64, hi: u64) -> bool {
    forall|i: int| #![trigger ws[i]] 0 <= i < ws.len() ==> value_le(lo, ws[i].0) && value_le(ws[i].1, hi)
}

/// Adds one window to an already merged list: it extends the last window
/// when it starts no later than that window ends, and is appended otherwise.
pub open spec fn merge_into(acc: Seq<Window>, w: Window) -> Seq<Window> {
    if acc.len() == 0 {
        seq![w]
    } else if value_le(w.0, acc.last().1) {
        acc.update(acc.len() - 1, (acc.last().0, max_value(acc.last().1, w.1)))
    } else {
        acc.push(w)
    }
}

/// The list after merging adjacent or overlapping windows, front to back.
pub open spec fn merged(ws: Seq<Window>) -> Seq<Window>
    decreases ws.len(),
{
    if ws.len() == 0 {
        Seq::empty()
    } else {
        merge_into(merged(ws.drop_last()), ws.last())
    }
}

/// Merging never lengthens a list, and empties only the empty list.
pub proof fn lemma_merged_len(ws: Seq<Window>)
    ensures
        ws.len() == 0 <==> merged(ws).len() == 0,
        merged(ws).len() <= ws.len(),
    decreases ws.len(),
{
    if ws.len() > 0 {
        lemma_merged_len(ws.drop_last());
    }
}

/// Merges, in place, each window into the one before it when it starts no
/// later than that one ends; the list is expected sorted by start.
pub fn merge_adjacent_or_overlapping_windows(windows: &mut Vec<Window>)
    ensures
        final(windows)@ == merged(old(windows)@),
        final(windows)@.len() <= old(windows)@.len(),
{
    proof {
        lemma_merged_len(windows@);
    }
    let ghost original = windows@;
    let n = windows.len();
    if n < 2 {
        proof {
            if n == 1 {
                lemma_merged_len(original.drop_last());
                assert(merged(original) =~= original);
            }
        }
        return;
    }
    proof {
        lemma_merged_len(original.subrange(0, 1).drop_last());
        assert(windows@.subrange(0, 1) =~= merged(original.subrange(0, 1)));
    }
    let mut write_index: usize = 0;
    let mut read_index: usize = 1;
    while read_index < n
        invariant
            n == windows@.len(),
            n == original.len(),
            1 <= read_index <= n,
            write_index < read_index,
            windows@.subrange(0, write_index + 1) == merged(original.subrange(0, read_index as int)),
            forall|k: int| read_index <= k < n ==> windows@[k] == original[k],
        decreases n - read_index,
    {
        let ghost prefix = original.subrange(0, read_index as int);
        let ghost acc = merged(prefix);
        proof {
            assert(original.subrange(0, read_index + 1).drop_last() =~= prefix);
            assert(original.subrange(0, read_index + 1).last() == original[read_index as int]);
            assert(acc.len() == write_index + 1);
            assert(acc.last() == windows@[write_index as int]);
        }
        let (start, end) = windows[read_index];
        let (last_start, last_end) = windows[write_index];
        if le(start, last_end) {
            windows.set(write_index, (last_start, max(last_end, end)));
            proof {
                assert(windows@.subrange(0, write_index + 1) =~= merge_into(acc, (start, end)));
            }
        } else {
            write_index = write_index + 1;
            windows.set(write_index, (start, end));
            proof {
                assert(windows@.subrange(0, write_index + 1) =~= merge_into(acc, (start, end)));
            }
        }
        read_index = read_index + 1;
    }
    proof {
        assert(original.subrange(0, n as int) =~= original);
    }
    windows.truncate(write_index + 1);
}

pub(crate) proof fn lemma_covers_concat(a: Seq<Window>, b: Seq<Window>, t: u64)
    ensures
        covers(a + b, t) == (covers(a, t) || covers(b, t)),
{
    let s = a + b;
    if covers(a, t) {
        let i = choose|i: int| 0 <= i < a.len() && #[trigger] window_contains(a[i], t);
        assert(s[i] == a[i]);
        assert(window_contains(s[i], t));
    }
    if covers(b, t) {
        let i = choose|i: int| 0 <= i < b.len() && #[trigger] window_contains(b[i], t);
        assert(s[a.len() + i] == b[i]);
        assert(window_contains(s[a.len() + i], t));
    }
    if covers(s, t) {
        let i = choose|i: int| 0 <= i < s.len() && #[trigger] window_contains(s[i], t);
        if i < a.len() {
            assert(s[i] == a[i]);
            assert(window_contains(a[i], t));
        } else {
            assert(s[i] == b[i - a.len()]);
            assert(window_contains(b[i - a.len()], t));
        }
    }
}

pub(crate) proof fn lemma_covers_push(ws: Seq<Window>, w: Window, t: u64)
    ensures
        covers(ws.push(w), t) == (covers(ws, t) || window_contains(w, t)),
{
    let s = ws.push(w);
    if covers(ws, t) {
        let i = choose|i: int| 0 <= i < ws.len() && #[trigger] window_contains(ws[i], t);
        assert(s[i] == ws[i]);
        assert(window_contains(s[i], t));
    }
    if window_contains(w, t) {
        assert(s[ws.len() as int] == w);
        assert(window_contains(s[ws.len() as int], t));
    }
    if covers(s, t) {
        let i = choose|i: int| 0 <= i < s.len() && #[trigger] window_contains(s[i], t);
        if i < ws.len() {
            assert(s[i] == ws[i]);
            assert(window_contains(ws[i], t));
        }
    }
}

proof fn lemma_covers_last(ws: Seq<Window>, t: u64)
    requires
        ws.len() > 0,
    ensures
        covers(ws, t) == (covers(ws.drop_last(), t) || window_contains(ws.last(), t)),
{
    assert(ws =~= ws.drop_last().push(ws.last()));
    lemma_covers_push(ws.drop_last(), ws.last(), t);
}

/// Merging a list sorted by start whose windows are nonempty yields
/// nonempty windows that are sorted and neither overlap nor touch, stay
/// within any range that holds the input, and cover exactly the dates that
/// the input covers.
pub proof fn lemma_merge_windows(ws: Seq<Window>, lo: u64, hi: u64)
    requires
        sorted_by_start(ws),
        nonempty_windows(ws),
    ensures
        nonempty_windows(merged(ws)),
        separated(merged(ws)),
        ws.len() > 0 ==> merged(ws).len() > 0 && value_le(merged(ws).last().0, ws.last().0),
        within(ws, lo, hi) ==> within(merged(ws), lo, hi),
        forall|t: u64| covers(merged(ws), t) == covers(ws, t),
    decreases ws.len(),
{
    if ws.len() == 0 {
        return;
    }
    let p = ws.drop_last();
    let w = ws.last();
    assert(sorted_by_start(p)) by {
        assert forall|i: int, j: int| 0 <= i < j < p.len() implies value_le(#[trigger] p[i].0, #[trigger] p[j].0) by {
            assert(p[i] == ws[i] && p[j] == ws[j]);
        }
    }
    assert(nonempty_windows(p)) by {
        assert forall|i: int| 0 <= i < p.len() implies value_lt(#[trigger] p[i].0, p[i].1) by {
            assert(p[i] == ws[i]);
        }
    }
    lemma_merge_windows(p, lo, hi);
    lemma_merged_len(p);
    let m = merged(p);
    let r = merged(ws);
    assert(r == merge_into(m, w));
    assert(value_lt(w.0, w.1));
    if within(ws, lo, hi) {
        assert(within(p, lo, hi)) by {
            assert forall|i: int| 0 <= i < p.len() implies value_le(lo, #[trigger] p[i].0) && value_le(p[i].1, hi) by {
                assert(p[i] == ws[i]);
                assert(value_le(lo, ws[i].0) && value_le(ws[i].1, hi));
            }
        }
        assert(value_le(lo, w.0) && value_le(w.1, hi));
    }
    if m.len() == 0 {
        assert(r =~= seq![w]);
        assert forall|t: u64| covers(r, t) == covers(ws, t) by {
            lemma_covers_last(ws, t);
            lemma_covers_last(r, t);
            assert(r.drop_last() =~= Seq::<Window>::empty());
            if covers(p, t) {
                let i = choose|i: int| 0 <= i < p.len() && #[trigger] window_contains(p[i], t);
            }
        }
        return;
    }
    let last = m.last();
    let l = m.len() - 1;
    assert(value_le(p.last().0, w.0)) by {
        assert(p.last() == ws[ws.len() - 2]);
    }
    assert(value_lt(last.0, last.1));
    if value_le(w.0, last.1) {
        let new_end = max_value(last.1, w.1);
        assert(r == m.update(l, (last.0, new_end)));
        assert(new_end == last.1 || new_end == w.1);
        assert(order_key(last.1) <= order_key(new_end) && order_key(w.1) <= order_key(new_end));
        assert(!is_nan(new_end));
        assert(nonempty_windows(r)) by {
            assert forall|i: int| 0 <= i < r.len() implies value_lt(#[trigger] r[i].0, r[i].1) by {
                if i < l {
                    assert(r[i] == m[i]);
                }
            }
        }
        assert(separated(r)) by {
            assert forall|i: int, j: int| 0 <= i < j < r.len() implies value_lt(#[trigger] r[i].1, #[trigger] r[j].0) by {
                assert(r[i] == m[i]);
                assert(r[j].0 == m[j].0);
            }
        }
        if within(ws, lo, hi) {
            assert(within(r, lo, hi)) by {
                assert forall|i: int| 0 <= i < r.len() implies value_le(lo, #[trigger] r[i].0) && value_le(r[i].1, hi) by {
                    if i < l {
                        assert(r[i] == m[i]);
                    }
                }
            }
        }
        assert forall|t: u64| covers(r, t) == covers(ws, t) by {
            lemma_covers_last(ws, t);
            lemma_covers_last(r, t);
            lemma_covers_last(m, t);
            assert(r.drop_last() =~= m.drop_last());
        }
    } else {
        assert(r == m.push(w));
        assert(value_lt(last.1, w.0));
        assert(nonempty_windows(r)) by {
            assert forall|i: int| 0 <= i < r.len() implies value_lt(#[trigger] r[i].0, r[i].1) by {
                if i < m.len() {
                    assert(r[i] == m[i]);
                }
            }
        }
        assert(separated(r)) by {
            assert forall|i: int, j: int| 0 <= i < j < r.len() implies value_lt(#[trigger] r[i].1, #[trigger] r[j].0) by {
                assert(r[i] == m[i]);
                if j < m.len() {
                    assert(r[j] == m[j]);
                } else if i < l {
                    assert(value_lt(m[i].1, m[l].0));
                }
            }
        }
        if within(ws, lo, hi) {
            assert(within(r, lo, hi)) by {
                assert forall|i: int| 0 <= i < r.len() implies value_le(lo, #[trigger] r[i].0) && value_le(r[i].1, hi) by {
                    if i < m.len() {
                        assert(r[i] == m[i]);
                    }
                }
            }
        }
        assert forall|t: u64| covers(r, t) == covers(ws, t) by {
            lemma_covers_last(ws, t);
            lemma_covers_push(m, w, t);
        }
    }
}

/// No bound of any window is a NaN.
pub open spec fn no_nan_bounds(ws: Seq<Window>) -> bool {
    forall|i: int| #![trigger ws[i]] 0 <= i < ws.len() ==> !is_nan(ws[i].0) && !is_nan(ws[i].1)
}

/// Each window ends strictly before the next one starts.
pub open spec fn ends_before_next_starts(ws: Seq<Window>) -> bool {
    forall|i: int, j: int| #![trigger ws[i], ws[j]] 0 <= i && j == i + 1 && j < ws.len() ==> value_lt(ws[i].1, ws[j].0)
}

/// Merging a list without NaN bounds yields a list without NaN bounds in
/// which each window ends strictly before the next one starts.
pub proof fn lemma_merged_ends_before_next_starts(ws: Seq<Window>)
    requires
        no_nan_bounds(ws),
    ensures
        no_nan_bounds(merged(ws)),
        ends_before_next_starts(merged(ws)),
    decreases ws.len(),
{
    if ws.len() == 0 {
        return;
    }
    let p = ws.drop_last();
    let w = ws.last();
    assert(no_nan_bounds(p)) by {
        assert forall|i: int| #![trigger p[i]] 0 <= i < p.len() implies !is_nan(p[i].0) && !is_nan(p[i].1) by {
            assert(p[i] == ws[i]);
        }
    }
    assert(!is_nan(w.0) && !is_nan(w.1)) by {
        assert(w == ws[ws.len() - 1]);
    }
    lemma_merged_ends_before_next_starts(p);
    let m = merged(p);
    let r = merged(ws);
    assert(r == merge_into(m, w));
    if m.len() == 0 {
        assert(r =~= seq![w]);
        return;
    }
    let l = m.len() - 1;
    if value_le(w.0, m.last().1) {
        let new_end = max_value(m.last().1, w.1);
        assert(new_end == m.last().1 || new_end == w.1);
        assert(r == m.update(l, (m.last().0, new_end)));
        assert forall|i: int| #![trigger r[i]] 0 <= i < r.len() implies !is_nan(r[i].0) && !is_nan(r[i].1) by {
            if i < l {
                assert(r[i] == m[i]);
            }
        }
        assert forall|i: int, j: int| #![trigger r[i], r[j]] 0 <= i && j == i + 1 && j < r.len() implies value_lt(r[i].1, r[j].0) by {
            assert(r[i] == m[i]);
            assert(r[j].0 == m[j].0);
        }
    } else {
        assert(r == m.push(w));
        assert forall|i: int| #![trigger r[i]] 0 <= i < r.len() implies !is_nan(r[i].0) && !is_nan(r[i].1) by {
            if i < m.len() {
                assert(r[i] == m[i]);
            }
        }
        assert forall|i: int, j: int| #![trigger r[i], r[j]] 0 <= i && j == i + 1 && j < r.len() implies value_lt(r[i].1, r[j].0) by {
            assert(r[i] == m[i]);
            if j < m.len() {
                assert(r[j] == m[j]);
            }
        }
    }
}

/// A list in which each window ends strictly before the next one starts is
/// left as it is: only adjacent or overlapping windows are merged.
pub proof fn lemma_merge_keeps_separated(ws: Seq<Window>)
    requires
        ends_before_next_starts(ws),
    ensures
        merged(ws) == ws,
    decreases ws.len(),
{
    if ws.len() == 0 {
        return;
    }
    let p = ws.drop_last();
    assert(ends_before_next_starts(p)) by {
        assert forall|i: int, j: int| #![trigger p[i], p[j]] 0 <= i && j == i + 1 && j < p.len() implies value_lt(p[i].1, p[j].0) by {
            assert(p[i] == ws[i] && p[j] == ws[j]);
        }
    }
    lemma_merge_keeps_separated(p);
    if p.len() > 0 {
        assert(value_lt(ws[p.len() - 1].1, ws[p.len() as int].0));
        assert(p.last() == ws[p.len() - 1]);
    }
    assert(ws =~= p.push(ws.last()));
}

/// Merging is idempotent on lists without NaN bounds: merging the merged
/// list again changes nothing.
pub proof fn lemma_merge_idempotent(ws: Seq<Window>)
    requires
        no_nan_bounds(ws),
    ensures
        merged(merged(ws)) == merged(ws),
{
    lemma_merged_ends_before_next_starts(ws);
    lemma_merge_keeps_separated(merged(ws));
}

/// Lays the windows out as `[start0, end0, start1, end1, ...]`.
pub fn flatten_windows(windows: &Vec<Window>) -> (r: Vec<u64>)
    ensures
        r@.len() == windows@.len() * 2,
        forall|i: int| 0 <= i < windows@.len() ==> r@[2 * i] == (#[trigger] windows@[i]).0
            && r@[2 * i + 1] == windows@[i].1,
{
    let mut flat: Vec<u64> = Vec::new();
    let mut i: usize = 0;
    while i < windows.len()
        invariant
            i <= windows@.len(),
            flat@.len() == 2 * i,
            forall|k: int| 0 <= k < i ==> flat@[2 * k] == (#[trigger] windows@[k]).0
                && flat@[2 * k + 1] == windows@[k].1,
        decreases windows@.len() - i,
    {
        let (a, b) = windows[i];
        flat.push(a);
        flat.push(b);
        i = i + 1;
    }
    flat
}

} // verus!
