//! Placing one task: the slot range it may use and the start that leaves it
//! the most available power.
use vstd::prelude::*;
use vstd::slice::slice_subrange;
use crate::graph::{DiscreteGraph, ProfileView};
use crate::task::{SchedulingError, TaskForScheduler};
use crate::time::Milliseconds;

verus! {

/// `a / b` rounded up, for `b > 0`.
pub open spec fn ceil_div(a: int, b: int) -> int {
    (a + b - 1) / b
}

/// The first slot at which the task may start: its window start, clipped to
/// the profile and rounded up to a slot boundary.
pub open spec fn slot_start(p: ProfileView, t: TaskForScheduler) -> int {
    let offset = t.timespan.start.0 - p.start;
    ceil_div(if offset > 0 { offset } else { 0 }, p.delta)
}

/// The slot boundary by which the task must end: its window end, clipped to
/// the profile and rounded down to a slot boundary.
pub open spec fn slot_end(p: ProfileView, t: TaskForScheduler) -> int {
    let last = (t.timespan.end.0 - p.start) / p.delta;
    if last < p.values.len() {
        last
    } else {
        p.values.len() as int
    }
}

/// The task's duration in whole slots, rounded up.
pub open spec fn slot_count(p: ProfileView, t: TaskForScheduler) -> int {
    ceil_div(t.duration.0 as int, p.delta)
}

/// Why the task cannot be placed on a profile of this geometry, if it cannot.
pub open spec fn slot_error(p: ProfileView, t: TaskForScheduler) -> Option<SchedulingError> {
    if p.delta <= 0 {
        Some(SchedulingError::InvalidTimeDelta)
    } else if slot_start(p, t) >= slot_end(p, t) {
        Some(SchedulingError::InvalidWindow)
    } else if slot_end(p, t) - slot_start(p, t) < slot_count(p, t) {
        Some(SchedulingError::Unschedulable)
    } else {
        None
    }
}

/// The sum of the `count` values from `from` on.
pub open spec fn window_sum(values: Seq<i64>, from: int, count: int) -> int
    decreases count,
{
    if count <= 0 {
        0
    } else {
        window_sum(values, from, count - 1) + values[from + count - 1]
    }
}

/// Among the starts `lo..=last`, the first whose `count` slots hold the
/// greatest sum.
pub open spec fn best_start(values: Seq<i64>, lo: int, last: int, count: int) -> int
    decreases last - lo,
{
    if last <= lo {
        lo
    } else {
        let b = best_start(values, lo, last - 1, count);
        if window_sum(values, last, count) > window_sum(values, b, count) {
            last
        } else {
            b
        }
    }
}

/// The slot at which the kernel starts a task that can be placed.
pub open spec fn placement(p: ProfileView, t: TaskForScheduler) -> int {
    best_start(p.values, slot_start(p, t), slot_end(p, t) - slot_count(p, t), slot_count(p, t))
}

/// The chosen start lies in range, no start holds a greater sum, and every
/// earlier start holds a smaller one.
pub proof fn lemma_best_start(values: Seq<i64>, lo: int, last: int, count: int)
    requires
        lo <= last,
    ensures
        lo <= best_start(values, lo, last, count) <= last,
        forall|k: int|
            lo <= k <= last ==> #[trigger] window_sum(values, k, count) <= window_sum(
                values,
                best_start(values, lo, last, count),
                count,
            ),
        forall|k: int|
            lo <= k < best_start(values, lo, last, count) ==> #[trigger] window_sum(values, k, count)
                < window_sum(values, best_start(values, lo, last, count), count),
    decreases last - lo,
{
    if last > lo {
        lemma_best_start(values, lo, last - 1, count);
    }
}

/// A window sum splits off its first value.
proof fn lemma_window_sum_front(values: Seq<i64>, from: int, count: int)
    requires
        count >= 1,
    ensures
        window_sum(values, from, count) == values[from] + window_sum(values, from + 1, count - 1),
    decreases count,
{
    if count > 1 {
        lemma_window_sum_front(values, from, count - 1);
        assert(window_sum(values, from + 1, count - 1) == window_sum(values, from + 1, count - 2)
            + values[from + count - 1]);
    } else {
        assert(window_sum(values, from, 0) == 0);
        assert(window_sum(values, from + 1, 0) == 0);
    }
}

/// A window sum of `count` values of `i64` is bounded by `count` times the
/// range of `i64`.
proof fn lemma_window_sum_bounds(values: Seq<i64>, from: int, count: int)
    requires
        count >= 0,
    ensures
        -count * 0x8000_0000_0000_0000 <= window_sum(values, from, count) <= count
            * 0x7fff_ffff_ffff_ffff,
    decreases count,
{
    if count > 0 {
        lemma_window_sum_bounds(values, from, count - 1);
    }
}

/// Window sums only read the values they cover.
proof fn lemma_window_sum_subrange(values: Seq<i64>, lo: int, hi: int, from: int, count: int)
    requires
        0 <= lo <= hi <= values.len(),
        0 <= from,
        0 <= count,
        from + count <= hi - lo,
    ensures
        window_sum(values.subrange(lo, hi), from, count) == window_sum(values, lo + from, count),
    decreases count,
{
    if count > 0 {
        lemma_window_sum_subrange(values, lo, hi, from, count - 1);
    }
}

/// The duration in whole slots, rounded up.
pub fn duration_as_timeslots(duration: Milliseconds, time_delta: Milliseconds) -> (r: u64)
    requires
        duration.0 > 0,
        time_delta.0 > 0,
    ensures
        r == ceil_div(duration.0 as int, time_delta.0 as int),
        r >= 1,
{
    let d = duration.0 as u64;
    let delta = time_delta.0 as u64;
    let r = (d + delta - 1) / delta;
    proof {
        let (a, b) = (d as int, delta as int);
        assert((a + b - 1) / b >= 1) by (nonlinear_arith)
            requires
                a >= 1,
                b >= 1,
        ;
    }
    r
}

/// Where a task can be placed, its slots lie inside the profile and it
/// covers at least one of them.
pub proof fn lemma_slots_in_range(p: ProfileView, t: TaskForScheduler)
    requires
        slot_error(p, t) is None,
        t.duration.0 > 0,
    ensures
        0 <= slot_start(p, t),
        1 <= slot_count(p, t),
        slot_start(p, t) + slot_count(p, t) <= slot_end(p, t) <= p.values.len(),
{
    let offset = t.timespan.start.0 - p.start;
    let a: int = if offset > 0 { offset } else { 0 };
    let b = p.delta;
    let d = t.duration.0 as int;
    assert((a + b - 1) / b >= 0) by (nonlinear_arith)
        requires
            a >= 0,
            b >= 1,
    ;
    assert((d + b - 1) / b >= 1) by (nonlinear_arith)
        requires
            d >= 1,
            b >= 1,
    ;
}

/// The slot range of a task on a profile: its first start, the slot
/// boundary by which it must end, and its length in slots.
pub fn get_task_as_timeslots(task: &TaskForScheduler, graph: &DiscreteGraph) -> (r: Result<
    (usize, usize, usize),
    SchedulingError,
>)
    requires
        task.duration.0 > 0,
    ensures
        r is Ok <==> slot_error(graph@, *task) is None,
        r matches Err(e) ==> slot_error(graph@, *task) == Some(e),
        r matches Ok((a, b, c)) ==> a == slot_start(graph@, *task) && b == slot_end(
            graph@,
            *task,
        ) && c == slot_count(graph@, *task),
{
    let time_delta = graph.get_time_delta();
    let delta = time_delta.0;
    if delta <= 0 {
        return Err(SchedulingError::InvalidTimeDelta);
    }
    let ps = graph.get_start_time().0 as i128;
    let start_off = task.timespan.start.0 as i128 - ps;
    let end_off = task.timespan.end.0 as i128 - ps;
    let d128 = delta as u128;
    let s_num: u128 = if start_off > 0 {
        start_off as u128
    } else {
        0
    };
    let t_start: u128 = (s_num + d128 - 1) / d128;
    if end_off <= 0 {
        proof {
            let (e, b) = (end_off as int, delta as int);
            assert(e / b <= 0) by (nonlinear_arith)
                requires
                    e <= 0,
                    b >= 1,
            ;
            assert(t_start >= 0);
        }
        return Err(SchedulingError::InvalidWindow);
    }
    let len = graph.get_values().len();
    let e_q: u128 = (end_off as u128) / d128;
    let t_end: u128 = if e_q < len as u128 {
        e_q
    } else {
        len as u128
    };
    if t_start >= t_end {
        return Err(SchedulingError::InvalidWindow);
    }
    let count = duration_as_timeslots(task.duration, time_delta);
    if t_end - t_start < count as u128 {
        return Err(SchedulingError::Unschedulable);
    }
    Ok((t_start as usize, t_end as usize, count as usize))
}

/// The sum of every run of `timeslots` consecutive values, in order of
/// their first slot.
pub fn make_p_from_duration_in_timeslots(timeslots: usize, graph_values: &[i64]) -> (r: Vec<i128>)
    requires
        timeslots > 0,
    ensures
        r@.len() == if graph_values@.len() >= timeslots {
            graph_values@.len() - timeslots + 1
        } else {
            0
        },
        forall|j: int|
            0 <= j < r@.len() ==> #[trigger] r@[j] == window_sum(graph_values@, j, timeslots as int),
{
    let ghost v = graph_values@;
    let n = graph_values.len();
    let mut out: Vec<i128> = Vec::new();
    if n < timeslots {
        return out;
    }
    let mut sum: i128 = 0;
    let mut i: usize = 0;
    while i < timeslots
        invariant
            i <= timeslots <= n,
            n == v.len(),
            v == graph_values@,
            sum == window_sum(v, 0, i as int),
        decreases timeslots - i,
    {
        proof {
            lemma_window_sum_bounds(v, 0, i + 1);
        }
        sum = sum + graph_values[i] as i128;
        i = i + 1;
    }
    out.push(sum);
    let mut k: usize = 1;
    while k <= n - timeslots
        invariant
            1 <= k <= n - timeslots + 1,
            0 < timeslots <= n,
            n == v.len(),
            v == graph_values@,
            out@.len() == k,
            sum == window_sum(v, k - 1, timeslots as int),
            forall|j: int| 0 <= j < k ==> #[trigger] out@[j] == window_sum(v, j, timeslots as int),
        decreases n - k,
    {
        proof {
            lemma_window_sum_front(v, k - 1, timeslots as int);
            lemma_window_sum_bounds(v, k as int, timeslots - 1);
            lemma_window_sum_bounds(v, k as int, timeslots as int);
        }
        let mid = sum - graph_values[k - 1] as i128;
        sum = mid + graph_values[k - 1 + timeslots] as i128;
        out.push(sum);
        k = k + 1;
    }
    out
}

/// The slot at which the task should start: the first, among those where it
/// fits its window, whose slots hold the most available power.
pub fn find_best_event(task: &TaskForScheduler, graph: &DiscreteGraph) -> (r: Result<
    usize,
    SchedulingError,
>)
    requires
        task.duration.0 > 0,
    ensures
        r is Ok <==> slot_error(graph@, *task) is None,
        r matches Err(e) ==> slot_error(graph@, *task) == Some(e),
        r matches Ok(s) ==> s == placement(graph@, *task),
{
    let (t_start, t_end, count) = match get_task_as_timeslots(task, graph) {
        Ok(slots) => slots,
        Err(e) => {
            return Err(e);
        },
    };
    proof {
        lemma_slots_in_range(graph@, *task);
    }
    let ghost values = graph@.values;
    let interval = slice_subrange(graph.get_values().as_slice(), t_start, t_end);
    let sums = make_p_from_duration_in_timeslots(count, interval);
    let ghost last = t_end - count;
    assert forall|j: int| 0 <= j < sums@.len() implies sums@[j] == window_sum(
        values,
        t_start + j,
        count as int,
    ) by {
        lemma_window_sum_subrange(values, t_start as int, t_end as int, j, count as int);
    }
    let mut best: usize = 0;
    let mut j: usize = 1;
    while j < sums.len()
        invariant
            1 <= j <= sums@.len(),
            sums@.len() == t_end - t_start - count + 1,
            best < j,
            t_start + best == best_start(values, t_start as int, t_start + j - 1, count as int),
            forall|i: int|
                0 <= i < sums@.len() ==> #[trigger] sums@[i] == window_sum(
                    values,
                    t_start + i,
                    count as int,
                ),
        decreases sums@.len() - j,
    {
        if sums[j] > sums[best] {
            best = j;
        }
        j = j + 1;
    }
    Ok(t_start + best)
}

} // verus!
