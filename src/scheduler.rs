//! The three scheduling algorithms: Naive, Global and AllPermutations.
use vstd::prelude::*;
use crate::graph::{can_drain, drained, DiscreteGraph, ProfileView};
use crate::kernel::{
    find_best_event, lemma_best_start, lemma_slots_in_range, placement, slot_count, slot_end,
    slot_error, slot_start, duration_as_timeslots, get_task_as_timeslots,
};
use crate::task::{SchedulingError, TaskForScheduler, UnpublishedEvent};
use crate::time::Timestamp;
use itertools::Itertools;
use rayon::iter::{IntoParallelRefIterator, ParallelIterator};

verus! {

/// The instant at which slot `s` of the profile begins.
pub open spec fn slot_instant(p: ProfileView, s: int) -> int {
    p.start + s * p.delta
}

/// The event that starts task `t` at slot `s` of the profile.
pub open spec fn event_at(p: ProfileView, t: TaskForScheduler, s: int) -> UnpublishedEvent {
    UnpublishedEvent { task_id: t.id, start_time: Timestamp(slot_instant(p, s) as i64) }
}

/// Each task of the list has a positive duration.
pub open spec fn durations_positive(tasks: Seq<TaskForScheduler>) -> bool {
    forall|i: int| 0 <= i < tasks.len() ==> (#[trigger] tasks[i]).duration.0 > 0
}

/// The events of a run, as a sequence, or its error.
pub open spec fn events_view(r: Result<Vec<UnpublishedEvent>, SchedulingError>) -> Result<
    Seq<UnpublishedEvent>,
    SchedulingError,
> {
    match r {
        Ok(events) => Ok(events@),
        Err(e) => Err(e),
    }
}

/// What Naive returns: the first geometry error among the tasks, or each
/// task at the kernel's slot on the profile as given.
pub open spec fn naive_schedule(p: ProfileView, tasks: Seq<TaskForScheduler>) -> Result<
    Seq<UnpublishedEvent>,
    SchedulingError,
> {
    match first_slot_error(p, tasks) {
        Some(e) => Err(e),
        None => Ok(Seq::new(tasks.len(), |i: int| event_at(p, tasks[i], placement(p, tasks[i])))),
    }
}

/// What Global returns: the greedy run's error, or each task at the slot
/// the run gave it.
pub open spec fn global_schedule(p: ProfileView, tasks: Seq<TaskForScheduler>) -> Result<
    Seq<UnpublishedEvent>,
    SchedulingError,
> {
    match global_run(p, tasks) {
        Ok((_, slots)) => Ok(Seq::new(tasks.len(), |i: int| event_at(p, tasks[i], slots[i]))),
        Err(e) => Err(e),
    }
}

/// What a call of Naive guarantees: the profile is left as it was, the
/// result is `naive_schedule`, and each event is well placed.
pub open spec fn naive_outcome(
    before: ProfileView,
    tasks: Seq<TaskForScheduler>,
    r: Result<Seq<UnpublishedEvent>, SchedulingError>,
    after: ProfileView,
) -> bool {
    &&& after == before
    &&& r == naive_schedule(before, tasks)
    &&& r matches Ok(events) ==> forall|i: int|
        0 <= i < tasks.len() ==> well_placed(before, tasks[i], #[trigger] events[i])
}

/// What a call of Global guarantees: the geometry stays, the result is
/// `global_schedule`, and on success each event is well placed and each slot
/// holds its first value less the effect of the tasks that cover it.
pub open spec fn global_outcome(
    before: ProfileView,
    tasks: Seq<TaskForScheduler>,
    r: Result<Seq<UnpublishedEvent>, SchedulingError>,
    after: ProfileView,
) -> bool {
    &&& after.delta == before.delta
    &&& after.start == before.start
    &&& after.values.len() == before.values.len()
    &&& r == global_schedule(before, tasks)
    &&& r matches Ok(events) ==> {
        &&& after.values == global_values(before, tasks)
        &&& forall|i: int|
            0 <= i < tasks.len() ==> well_placed(before, tasks[i], #[trigger] events[i])
        &&& forall|i: int|
            0 <= i < before.values.len() ==> #[trigger] after.values[i] == before.values[i]
                - draw_at(before, tasks, global_slots(before, tasks), i)
    }
}

/// What a call of AllPermutations guarantees. It succeeds exactly when every
/// task fits the geometry and some order is a candidate. On an error the
/// profile is left as it was. On success each event, in list order, is well
/// placed, and some best order gave the events and the profile left.
pub open spec fn all_permutations_outcome(
    before: ProfileView,
    tasks: Seq<TaskForScheduler>,
    r: Result<Seq<UnpublishedEvent>, SchedulingError>,
    after: ProfileView,
) -> bool {
    &&& r is Ok <==> first_slot_error(before, tasks) is None && exists|o: Seq<usize>|
        #[trigger] is_candidate(before, tasks, o)
    &&& r matches Err(e) ==> after == before && e == match first_slot_error(before, tasks) {
        Some(e0) => e0,
        None => SchedulingError::ArithmeticOverflow,
    }
    &&& r matches Ok(events) ==> {
        &&& events.len() == tasks.len()
        &&& forall|i: int|
            0 <= i < tasks.len() ==> well_placed(before, tasks[i], #[trigger] events[i])
        &&& exists|o: Seq<usize>|
            {
                &&& #[trigger] is_best_order(before, tasks, o)
                &&& after == before.with_values(global_values(before, reorder(tasks, o)))
                &&& forall|j: int|
                    0 <= j < tasks.len() ==> #[trigger] events[o[j] as int] == event_at(
                        before,
                        tasks[o[j] as int],
                        global_slots(before, reorder(tasks, o))[j],
                    )
            }
    }
}

/// Greedy placement in list order: each task is placed by the kernel on the
/// profile that the tasks before it left, and then draws its effect from the
/// slots it covers. The result holds the final values and each task's slot.
pub open spec fn global_run(p: ProfileView, tasks: Seq<TaskForScheduler>) -> Result<
    (Seq<i64>, Seq<int>),
    SchedulingError,
>
    decreases tasks.len(),
{
    if tasks.len() == 0 {
        Ok((p.values, Seq::empty()))
    } else {
        match global_run(p, tasks.drop_last()) {
            Err(e) => Err(e),
            Ok((values, slots)) => {
                let q = p.with_values(values);
                let t = tasks.last();
                match slot_error(q, t) {
                    Some(e) => Err(e),
                    None => {
                        let s = placement(q, t);
                        let c = slot_count(q, t);
                        if can_drain(values, s, c, t.effect as int) {
                            Ok((drained(values, s, c, t.effect as int), slots.push(s)))
                        } else {
                            Err(SchedulingError::ArithmeticOverflow)
                        }
                    }
                }
            }
        }
    }
}

/// The first error that a task of the list meets on the profile's geometry,
/// taken in list order.
pub open spec fn first_slot_error(p: ProfileView, tasks: Seq<TaskForScheduler>) -> Option<
    SchedulingError,
>
    decreases tasks.len(),
{
    if tasks.len() == 0 {
        None
    } else {
        match first_slot_error(p, tasks.drop_last()) {
            Some(e) => Some(e),
            None => slot_error(p, tasks.last()),
        }
    }
}

/// `s` is a start at which the task fits its slot range on the profile.
pub open spec fn slot_fits(p: ProfileView, t: TaskForScheduler, s: int) -> bool {
    slot_start(p, t) <= s && s + slot_count(p, t) <= slot_end(p, t)
}

/// The event starts task `t` on a slot boundary of the profile, no earlier
/// than the task's window and the profile begin, and leaves room for all the
/// task's slots before the window and the profile end.
pub open spec fn well_placed(p: ProfileView, t: TaskForScheduler, ev: UnpublishedEvent) -> bool {
    let at = ev.start_time.0 as int;
    &&& ev.task_id == t.id
    &&& p.start <= at
    &&& (at - p.start) % p.delta == 0
    &&& t.timespan.start.0 <= at
    &&& at + slot_count(p, t) * p.delta <= t.timespan.end.0
    &&& at + slot_count(p, t) * p.delta <= p.end()
}

/// A task started at a slot of its range lies inside its window, clipped to
/// the profile, and its start instant fits in an `i64`.
pub proof fn lemma_slot_bounds(p: ProfileView, t: TaskForScheduler, s: int)
    requires
        slot_error(p, t) is None,
        t.duration.0 > 0,
        slot_fits(p, t, s),
    ensures
        0 <= s,
        t.timespan.start.0 <= slot_instant(p, s),
        p.start <= slot_instant(p, s),
        slot_instant(p, s + slot_count(p, t)) <= t.timespan.end.0,
        slot_instant(p, s + slot_count(p, t)) <= p.end(),
        slot_instant(p, s) < t.timespan.end.0,
        well_placed(p, t, event_at(p, t, s)),
{
    lemma_slots_in_range(p, t);
    let c = slot_count(p, t);
    let b = p.delta;
    let offset = t.timespan.start.0 - p.start;
    let a: int = if offset > 0 { offset } else { 0 };
    assert(((a + b - 1) / b) * b >= a) by (nonlinear_arith)
        requires
            a >= 0,
            b >= 1,
    ;
    assert(s * b >= ((a + b - 1) / b) * b) by (nonlinear_arith)
        requires
            s >= (a + b - 1) / b,
            b >= 1,
    ;
    assert(s * b >= 0) by (nonlinear_arith)
        requires
            s >= 0,
            b >= 1,
    ;
    let w = t.timespan.end.0 - p.start;
    assert((w / b) * b <= w) by (nonlinear_arith)
        requires
            b >= 1,
    ;
    let e = slot_end(p, t);
    assert((s + c) * b <= e * b) by (nonlinear_arith)
        requires
            s + c <= e,
            b >= 1,
    ;
    assert(e * b <= p.values.len() * b) by (nonlinear_arith)
        requires
            e <= p.values.len(),
            b >= 1,
    ;
    assert(e * b <= (w / b) * b) by (nonlinear_arith)
        requires
            e <= w / b,
            b >= 1,
    ;
    assert((s + c) * b == s * b + c * b) by (nonlinear_arith);
    assert(c * b >= 1) by (nonlinear_arith)
        requires
            c >= 1,
            b >= 1,
    ;
    assert((s * b) % b == 0) by (nonlinear_arith)
        requires
            b >= 1,
    ;
    let ev = event_at(p, t, s);
    assert(ev.start_time.0 as int == slot_instant(p, s));
    assert(ev.start_time.0 - p.start == s * b);
}

/// The kernel's slot lies in the task's slot range.
pub proof fn lemma_placement_fits(p: ProfileView, t: TaskForScheduler)
    requires
        slot_error(p, t) is None,
        t.duration.0 > 0,
    ensures
        slot_fits(p, t, placement(p, t)),
{
    lemma_slots_in_range(p, t);
    lemma_best_start(p.values, slot_start(p, t), slot_end(p, t) - slot_count(p, t), slot_count(p, t));
}

/// Starts `task` at slot `timeslot`: takes its effect from the
/// `duration_in_timeslots` slots from there on and returns the event.
/// Fails, and changes nothing, where a value or the start instant would
/// leave the range of `i64`.
pub fn make_unpublished_event_and_remove_from_graph(
    graph: &mut DiscreteGraph,
    task: &TaskForScheduler,
    timeslot: usize,
    duration_in_timeslots: usize,
) -> (r: Result<UnpublishedEvent, SchedulingError>)
    requires
        timeslot + duration_in_timeslots <= old(graph)@.values.len(),
    ensures
        r is Ok <==> can_drain(
            old(graph)@.values,
            timeslot as int,
            duration_in_timeslots as int,
            task.effect as int,
        ) && i64::MIN <= slot_instant(old(graph)@, timeslot as int) <= i64::MAX,
        r is Ok ==> final(graph)@ == old(graph)@.with_values(
            drained(
                old(graph)@.values,
                timeslot as int,
                duration_in_timeslots as int,
                task.effect as int,
            ),
        ),
        r is Err ==> final(graph)@ == old(graph)@,
        r matches Ok(ev) ==> ev == event_at(old(graph)@, *task, timeslot as int),
        r matches Err(e) ==> e == SchedulingError::ArithmeticOverflow,
{
    let start = graph.get_start_time().0 as i128;
    let delta = graph.get_time_delta().0 as i128;
    proof {
        let (s, d) = (timeslot as int, delta as int);
        assert(-0x7fff_ffff_ffff_ffff_8000_0000_0000_0000 <= s * d <= 0x7fff_ffff_ffff_ffff_8000_0000_0000_0000)
            by (nonlinear_arith)
            requires
                0 <= s < 0x1_0000_0000_0000_0000,
                -0x8000_0000_0000_0000 <= d < 0x8000_0000_0000_0000,
        ;
    }
    let instant = start + (timeslot as i128) * delta;
    if instant < i64::MIN as i128 || instant > i64::MAX as i128 {
        return Err(SchedulingError::ArithmeticOverflow);
    }
    if !graph.can_sub_values(timeslot, task.effect, duration_in_timeslots) {
        return Err(SchedulingError::ArithmeticOverflow);
    }
    graph.sub_values(timeslot, task.effect, duration_in_timeslots);
    Ok(UnpublishedEvent { task_id: task.id, start_time: Timestamp(instant as i64) })
}

/// Places each task on the profile as given, independently of the others.
pub struct NaiveSchedulerAlgorithm;

/// Places the tasks one after another in list order; each draws from the
/// profile before the next is placed.
pub struct GlobalSchedulerAlgorithm;

impl NaiveSchedulerAlgorithm {
    pub fn new() -> (r: Self) {
        NaiveSchedulerAlgorithm
    }

    /// One event per task, in list order, each at the kernel's slot for that
    /// task on the profile as given. The profile is left as it is.
    pub fn schedule(&self, graph: &mut DiscreteGraph, tasks: Vec<TaskForScheduler>) -> (r: Result<
        Vec<UnpublishedEvent>,
        SchedulingError,
    >)
        requires
            durations_positive(tasks@),
        ensures
            naive_outcome(old(graph)@, tasks@, events_view(r), final(graph)@),
    {
        let ghost p = graph@;
        let mut scheduled_events: Vec<UnpublishedEvent> = Vec::new();
        let mut i: usize = 0;
        while i < tasks.len()
            invariant
                graph@ == p,
                durations_positive(tasks@),
                i <= tasks@.len(),
                first_slot_error(p, tasks@.take(i as int)) is None,
                scheduled_events@.len() == i,
                forall|j: int|
                    0 <= j < i ==> #[trigger] scheduled_events@[j] == event_at(
                        p,
                        tasks@[j],
                        placement(p, tasks@[j]),
                    ) && well_placed(p, tasks@[j], scheduled_events@[j]),
            decreases tasks@.len() - i,
        {
            let task = &tasks[i];
            assert(tasks@.take(i + 1).drop_last() =~= tasks@.take(i as int));
            assert(tasks@[i as int].duration.0 > 0);
            let slot = match find_best_event(task, graph) {
                Ok(s) => s,
                Err(e) => {
                    proof {
                        lemma_first_error_prefix(p, tasks@, i + 1);
                    }
                    return Err(e);
                },
            };
            proof {
                lemma_placement_fits(p, *task);
                lemma_slot_bounds(p, *task, placement(p, *task));
            }
            let start = graph.get_start_time().0 as i128;
            let delta = graph.get_time_delta().0 as i128;
            proof {
                let (s, d) = (slot as int, delta as int);
                assert(0 <= s * d) by (nonlinear_arith)
                    requires
                        0 <= s,
                        0 <= d,
                ;
            }
            let instant = start + (slot as i128) * delta;
            scheduled_events.push(
                UnpublishedEvent { task_id: task.id, start_time: Timestamp(instant as i64) },
            );
            i = i + 1;
        }
        assert(tasks@.take(i as int) =~= tasks@);
        assert(scheduled_events@ =~= Seq::new(
            tasks@.len(),
            |i: int| event_at(p, tasks@[i], placement(p, tasks@[i])),
        ));
        Ok(scheduled_events)
    }
}

/// Where a prefix of the list meets an error, the whole list meets the same.
proof fn lemma_first_error_prefix(p: ProfileView, tasks: Seq<TaskForScheduler>, n: int)
    requires
        0 <= n <= tasks.len(),
        first_slot_error(p, tasks.take(n)) is Some,
    ensures
        first_slot_error(p, tasks) == first_slot_error(p, tasks.take(n)),
    decreases tasks.len() - n,
{
    if n < tasks.len() {
        assert(tasks.take(n + 1).drop_last() =~= tasks.take(n));
        lemma_first_error_prefix(p, tasks, n + 1);
    } else {
        assert(tasks.take(n) =~= tasks);
    }
}

/// The final values of a greedy run that succeeds.
pub open spec fn global_values(p: ProfileView, tasks: Seq<TaskForScheduler>) -> Seq<i64> {
    match global_run(p, tasks) {
        Ok((values, _)) => values,
        Err(_) => p.values,
    }
}

/// The slot of each task in a greedy run that succeeds.
pub open spec fn global_slots(p: ProfileView, tasks: Seq<TaskForScheduler>) -> Seq<int> {
    match global_run(p, tasks) {
        Ok((_, slots)) => slots,
        Err(_) => Seq::empty(),
    }
}

/// The total effect that the tasks, started at their slots, draw from slot `i`.
pub open spec fn draw_at(p: ProfileView, tasks: Seq<TaskForScheduler>, slots: Seq<int>, i: int) -> int
    decreases tasks.len(),
{
    if tasks.len() == 0 || slots.len() == 0 {
        0
    } else {
        draw_at(p, tasks.drop_last(), slots.drop_last(), i) + if slots.last() <= i < slots.last()
            + slot_count(p, tasks.last()) {
            tasks.last().effect as int
        } else {
            0
        }
    }
}

/// After a greedy run, each slot holds its first value less the effect of
/// every task that covers it: the task's effect over its length in slots,
/// from the slot at which it was placed.
pub proof fn lemma_global_profile(p: ProfileView, tasks: Seq<TaskForScheduler>)
    requires
        global_run(p, tasks) is Ok,
    ensures
        global_values(p, tasks).len() == p.values.len(),
        global_slots(p, tasks).len() == tasks.len(),
        forall|i: int|
            0 <= i < p.values.len() ==> #[trigger] global_values(p, tasks)[i] == p.values[i]
                - draw_at(p, tasks, global_slots(p, tasks), i),
    decreases tasks.len(),
{
    if tasks.len() > 0 {
        let prev = tasks.drop_last();
        lemma_global_profile(p, prev);
        let slots = global_slots(p, tasks);
        assert(slots.drop_last() =~= global_slots(p, prev));
    }
}

/// Every event of a greedy run that succeeds is well placed on the profile
/// the run started from.
pub proof fn lemma_global_well_placed(p: ProfileView, tasks: Seq<TaskForScheduler>)
    requires
        global_run(p, tasks) is Ok,
        durations_positive(tasks),
    ensures
        global_slots(p, tasks).len() == tasks.len(),
        forall|j: int|
            0 <= j < tasks.len() ==> well_placed(
                p,
                tasks[j],
                #[trigger] event_at(p, tasks[j], global_slots(p, tasks)[j]),
            ),
    decreases tasks.len(),
{
    lemma_global_profile(p, tasks);
    if tasks.len() > 0 {
        let prev = tasks.drop_last();
        assert(durations_positive(prev));
        lemma_global_well_placed(p, prev);
        lemma_global_profile(p, prev);
        let q = p.with_values(global_values(p, prev));
        let t = tasks.last();
        assert(tasks[tasks.len() - 1].duration.0 > 0);
        lemma_placement_fits(q, t);
        lemma_slot_bounds(q, t, placement(q, t));
        let slots = global_slots(p, tasks);
        assert(slots.drop_last() =~= global_slots(p, prev));
        assert forall|j: int|
            0 <= j < tasks.len() implies well_placed(
            p,
            tasks[j],
            #[trigger] event_at(p, tasks[j], global_slots(p, tasks)[j]),
        ) by {
            if j < tasks.len() - 1 {
                assert(tasks[j] == prev[j]);
                assert(slots[j] == global_slots(p, prev)[j]);
                assert(well_placed(p, prev[j], event_at(p, prev[j], global_slots(p, prev)[j])));
            }
        }
    }
}

impl GlobalSchedulerAlgorithm {
    pub fn new() -> (r: Self) {
        GlobalSchedulerAlgorithm
    }

    /// One event per task, in list order, as the greedy run places them; the
    /// profile is left holding what the run drew from it. On an error the
    /// profile keeps the draws of the tasks placed before it.
    pub fn schedule(&self, graph: &mut DiscreteGraph, tasks: Vec<TaskForScheduler>) -> (r: Result<
        Vec<UnpublishedEvent>,
        SchedulingError,
    >)
        requires
            durations_positive(tasks@),
        ensures
            global_outcome(old(graph)@, tasks@, events_view(r), final(graph)@),
    {
        let ghost p = graph@;
        let ghost mut slots: Seq<int> = Seq::empty();
        let mut scheduled_events: Vec<UnpublishedEvent> = Vec::new();
        let mut i: usize = 0;
        while i < tasks.len()
            invariant
                p == old(graph)@,
                graph@ == p.with_values(graph@.values),
                graph@.delta == p.delta,
                graph@.start == p.start,
                graph@.values.len() == p.values.len(),
                durations_positive(tasks@),
                i <= tasks@.len(),
                slots.len() == i,
                global_run(p, tasks@.take(i as int)) == Ok::<
                    (Seq<i64>, Seq<int>),
                    SchedulingError,
                >((graph@.values, slots)),
                scheduled_events@.len() == i,
                forall|j: int|
                    0 <= j < i ==> #[trigger] scheduled_events@[j] == event_at(
                        p,
                        tasks@[j],
                        slots[j],
                    ),
            decreases tasks@.len() - i,
        {
            let task = &tasks[i];
            assert(tasks@.take(i + 1).drop_last() =~= tasks@.take(i as int));
            assert(tasks@.take(i + 1).last() == tasks@[i as int]);
            assert(tasks@[i as int].duration.0 > 0);
            let temp_graph = graph.clone();
            let ghost q = graph@;
            let slot = match find_best_event(task, &temp_graph) {
                Ok(s) => s,
                Err(e) => {
                    proof {
                        lemma_global_error_prefix(p, tasks@, i + 1);
                    }
                    return Err(e);
                },
            };
            proof {
                lemma_placement_fits(q, *task);
                lemma_slot_bounds(q, *task, placement(q, *task));
                lemma_slots_in_range(q, *task);
            }
            let count = duration_as_timeslots(task.duration, temp_graph.get_time_delta());
            let len = temp_graph.get_values().len();
            assert(count <= len);
            let best_event = match make_unpublished_event_and_remove_from_graph(
                graph,
                task,
                slot,
                count as usize,
            ) {
                Ok(ev) => ev,
                Err(e) => {
                    proof {
                        lemma_global_error_prefix(p, tasks@, i + 1);
                    }
                    return Err(e);
                },
            };
            scheduled_events.push(best_event);
            proof {
                slots = slots.push(slot as int);
            }
            i = i + 1;
        }
        assert(tasks@.take(i as int) =~= tasks@);
        proof {
            lemma_global_profile(p, tasks@);
            lemma_global_well_placed(p, tasks@);
        }
        assert(scheduled_events@ =~= Seq::new(
            tasks@.len(),
            |i: int| event_at(p, tasks@[i], global_slots(p, tasks@)[i]),
        ));
        Ok(scheduled_events)
    }
}

/// Where a prefix of the list fails the greedy run, the whole list fails
/// with the same error.
proof fn lemma_global_error_prefix(p: ProfileView, tasks: Seq<TaskForScheduler>, n: int)
    requires
        0 <= n <= tasks.len(),
        global_run(p, tasks.take(n)) is Err,
    ensures
        global_run(p, tasks) == global_run(p, tasks.take(n)),
    decreases tasks.len() - n,
{
    if n < tasks.len() {
        assert(tasks.take(n + 1).drop_last() =~= tasks.take(n));
        lemma_global_error_prefix(p, tasks, n + 1);
    } else {
        assert(tasks.take(n) =~= tasks);
    }
}

/// `o` lists each of `0..n` exactly once.
pub open spec fn is_order(o: Seq<usize>, n: int) -> bool {
    &&& o.len() == n
    &&& forall|j: int| 0 <= j < n ==> (#[trigger] o[j]) < n
    &&& forall|j1: int, j2: int| 0 <= j1 < j2 < n ==> #[trigger] o[j1] != #[trigger] o[j2]
    &&& forall|i: usize| i < n ==> #[trigger] o.contains(i)
}

/// The tasks taken in the order `o`.
pub open spec fn reorder(tasks: Seq<TaskForScheduler>, o: Seq<usize>) -> Seq<TaskForScheduler> {
    Seq::new(o.len(), |j: int| tasks[o[j] as int])
}

/// Relies on itertools' `permutations`: taking all `n` items of `0..n`, it
/// yields every ordering of them.
#[verifier::external_body]
fn task_orders(n: usize) -> (r: Vec<Vec<usize>>)
    ensures
        forall|j: int| 0 <= j < r@.len() ==> is_order(#[trigger] r@[j]@, n as int),
        forall|o: Seq<usize>| is_order(o, n as int) ==> exists|j: int|
            0 <= j < r@.len() && (#[trigger] r@[j]@) == o,
{
    (0..n).permutations(n).collect()
}

/// What a value of the profile costs: its square where it is not negative,
/// the magnitude of its cube where it is.
pub open spec fn weight_of(v: int) -> int {
    if v < 0 {
        -(v * v * v)
    } else {
        v * v
    }
}

/// The cost of a profile: the sum of the weights of its values.
pub open spec fn cost(values: Seq<i64>) -> int
    decreases values.len(),
{
    if values.len() == 0 {
        0
    } else {
        cost(values.drop_last()) + weight_of(values.last() as int)
    }
}

proof fn lemma_weight_nonneg(v: int)
    ensures
        weight_of(v) >= 0,
{
    if v < 0 {
        assert(-(v * v * v) > 0) by (nonlinear_arith)
            requires
                v < 0,
        ;
    } else {
        assert(v * v >= 0) by (nonlinear_arith);
    }
}

/// The cost of a prefix is at most the cost of a longer prefix.
proof fn lemma_cost_prefix(values: Seq<i64>, i: int, j: int)
    requires
        0 <= i <= j <= values.len(),
    ensures
        cost(values.take(i)) <= cost(values.take(j)),
    decreases j - i,
{
    if i < j {
        lemma_cost_prefix(values, i, j - 1);
        assert(values.take(j).drop_last() =~= values.take(j - 1));
        lemma_weight_nonneg(values[j - 1] as int);
    }
}

/// Searches every order of the tasks for the one whose greedy run leaves the
/// profile of least cost.
pub struct AllPermutationsAlgorithm;

impl AllPermutationsAlgorithm {
    pub fn new() -> (r: Self) {
        AllPermutationsAlgorithm
    }

    /// The weight of one value, where it fits in a `u128`.
    pub fn weight(val: &i64) -> (r: Option<u128>)
        ensures
            r is Some <==> weight_of(*val as int) <= u128::MAX,
            r matches Some(w) ==> w == weight_of(*val as int),
    {
        let v = *val;
        let a: u128 = if v < 0 {
            (0i128 - v as i128) as u128
        } else {
            v as u128
        };
        proof {
            let x = a as int;
            assert(x * x <= 0x4000_0000_0000_0000_0000_0000_0000_0000) by (nonlinear_arith)
                requires
                    0 <= x <= 0x8000_0000_0000_0000,
            ;
            assert(v < 0 ==> x * x * x == -((v as int) * (v as int) * (v as int))) by (nonlinear_arith)
                requires
                    v < 0 ==> x == -(v as int),
            ;
            assert(v >= 0 ==> x * x == (v as int) * (v as int)) by (nonlinear_arith)
                requires
                    v >= 0 ==> x == v as int,
            ;
        }
        let sq = a * a;
        if v < 0 {
            sq.checked_mul(a)
        } else {
            Some(sq)
        }
    }

    /// The cost of the values, where it fits in a `u128`.
    pub fn profile_cost(values: &Vec<i64>) -> (r: Option<u128>)
        ensures
            r is Some <==> cost(values@) <= u128::MAX,
            r matches Some(c) ==> c == cost(values@),
    {
        let mut total: u128 = 0;
        let mut i: usize = 0;
        while i < values.len()
            invariant
                i <= values@.len(),
                total == cost(values@.take(i as int)),
            decreases values@.len() - i,
        {
            assert(values@.take(i + 1).drop_last() =~= values@.take(i as int));
            proof {
                lemma_cost_prefix(values@, i + 1, values@.len() as int);
                lemma_weight_nonneg(values@[i as int] as int);
            }
            assert(values@.take(values@.len() as int) =~= values@);
            let w = match Self::weight(&values[i]) {
                Some(w) => w,
                None => {
                    return None;
                },
            };
            total = match total.checked_add(w) {
                Some(t) => t,
                None => {
                    return None;
                },
            };
            i = i + 1;
        }
        assert(values@.take(i as int) =~= values@);
        Some(total)
    }
}

/// The greedy run over the tasks in order `o` succeeds.
pub open spec fn order_succeeds(p: ProfileView, tasks: Seq<TaskForScheduler>, o: Seq<usize>) -> bool {
    global_run(p, reorder(tasks, o)) is Ok
}

/// The cost of the profile that the greedy run over the tasks in order `o`
/// leaves.
pub open spec fn order_cost(p: ProfileView, tasks: Seq<TaskForScheduler>, o: Seq<usize>) -> int {
    cost(global_values(p, reorder(tasks, o)))
}

/// `o` is an order of the tasks whose greedy run succeeds with a cost that
/// fits in a `u128`.
pub open spec fn is_candidate(p: ProfileView, tasks: Seq<TaskForScheduler>, o: Seq<usize>) -> bool {
    &&& is_order(o, tasks.len() as int)
    &&& order_succeeds(p, tasks, o)
    &&& order_cost(p, tasks, o) <= u128::MAX
}

/// `o` is a candidate order, and no order whose greedy run succeeds leaves a
/// profile of lower cost.
pub open spec fn is_best_order(p: ProfileView, tasks: Seq<TaskForScheduler>, o: Seq<usize>) -> bool {
    &&& is_candidate(p, tasks, o)
    &&& forall|o2: Seq<usize>|
        is_order(o2, tasks.len() as int) && #[trigger] order_succeeds(p, tasks, o2) ==> order_cost(
            p,
            tasks,
            o,
        ) <= order_cost(p, tasks, o2)
}

/// Checks each task, in list order, against the profile's geometry.
fn check_tasks(graph: &DiscreteGraph, tasks: &Vec<TaskForScheduler>) -> (r: Result<(), SchedulingError>)
    requires
        durations_positive(tasks@),
    ensures
        r is Ok <==> first_slot_error(graph@, tasks@) is None,
        r matches Err(e) ==> first_slot_error(graph@, tasks@) == Some(e),
{
    let mut i: usize = 0;
    while i < tasks.len()
        invariant
            durations_positive(tasks@),
            i <= tasks@.len(),
            first_slot_error(graph@, tasks@.take(i as int)) is None,
        decreases tasks@.len() - i,
    {
        assert(tasks@.take(i + 1).drop_last() =~= tasks@.take(i as int));
        assert(tasks@[i as int].duration.0 > 0);
        if let Err(e) = get_task_as_timeslots(&tasks[i], graph) {
            proof {
                lemma_first_error_prefix(graph@, tasks@, i + 1);
            }
            return Err(e);
        }
        i = i + 1;
    }
    assert(tasks@.take(i as int) =~= tasks@);
    Ok(())
}

/// What the greedy run over the tasks in order `o`, on a copy of profile
/// `p`, hands back: the copy as the run left it, and the run's events.
pub open spec fn order_run(
    p: ProfileView,
    tasks: Seq<TaskForScheduler>,
    o: Seq<usize>,
    g: ProfileView,
    r: Result<Seq<UnpublishedEvent>, SchedulingError>,
) -> bool {
    &&& r is Ok <==> order_succeeds(p, tasks, o)
    &&& r matches Ok(events) ==> {
        &&& g == p.with_values(global_values(p, reorder(tasks, o)))
        &&& events.len() == tasks.len()
        &&& forall|j: int|
            0 <= j < tasks.len() ==> #[trigger] events[j] == event_at(
                p,
                tasks[o[j] as int],
                global_slots(p, reorder(tasks, o))[j],
            )
    }
}

/// What evaluating the order `o` hands back: the cost of the profile its
/// greedy run leaves, where the run succeeds and the cost fits in a `u128`,
/// and the run's events.
pub open spec fn order_evaluated(
    p: ProfileView,
    tasks: Seq<TaskForScheduler>,
    o: Seq<usize>,
    c: Option<u128>,
    r: Result<Seq<UnpublishedEvent>, SchedulingError>,
) -> bool {
    &&& order_run(p, tasks, o, p.with_values(global_values(p, reorder(tasks, o))), r)
    &&& c is Some <==> is_candidate(p, tasks, o)
    &&& c matches Some(v) ==> v == order_cost(p, tasks, o)
}

/// Relies on rayon's `par_iter`, `map` and `collect`: `evaluate_order` runs
/// once for each order, on worker threads, and the results come back in the
/// order of `orders`.
#[verifier::external_body]
fn evaluate_orders_in_parallel(
    graph: &DiscreteGraph,
    tasks: &Vec<TaskForScheduler>,
    orders: &Vec<Vec<usize>>,
) -> (r: Vec<(Option<u128>, Result<Vec<UnpublishedEvent>, SchedulingError>)>)
    requires
        durations_positive(tasks@),
        forall|j: int| 0 <= j < orders@.len() ==> is_order(#[trigger] orders@[j]@, tasks@.len() as int),
    ensures
        r@.len() == orders@.len(),
        forall|j: int|
            0 <= j < orders@.len() ==> order_evaluated(
                graph@,
                tasks@,
                orders@[j]@,
                (#[trigger] r@[j]).0,
                events_view(r@[j].1),
            ),
{
    orders.par_iter().map(|order| evaluate_order(graph, tasks, order)).collect()
}

/// The cost and the events of the greedy run over the tasks in the order
/// `order`.
fn evaluate_order(graph: &DiscreteGraph, tasks: &Vec<TaskForScheduler>, order: &Vec<usize>) -> (r: (
    Option<u128>,
    Result<Vec<UnpublishedEvent>, SchedulingError>,
))
    requires
        durations_positive(tasks@),
        is_order(order@, tasks@.len() as int),
    ensures
        order_evaluated(graph@, tasks@, order@, r.0, events_view(r.1)),
{
    let (temp_graph, res) = run_order(graph, tasks, order);
    match res {
        Ok(events) => (AllPermutationsAlgorithm::profile_cost(temp_graph.get_values()), Ok(events)),
        Err(e) => (None, Err(e)),
    }
}

/// The greedy run over the tasks in the order `order`, on a copy of the
/// profile: the copy as the run leaves it, and the run's events.
fn run_order(graph: &DiscreteGraph, tasks: &Vec<TaskForScheduler>, order: &Vec<usize>) -> (r: (
    DiscreteGraph,
    Result<Vec<UnpublishedEvent>, SchedulingError>,
))
    requires
        durations_positive(tasks@),
        is_order(order@, tasks@.len() as int),
    ensures
        order_run(graph@, tasks@, order@, r.0@, events_view(r.1)),
{
    let mut permuted: Vec<TaskForScheduler> = Vec::new();
    let mut j: usize = 0;
    while j < order.len()
        invariant
            j <= order@.len(),
            is_order(order@, tasks@.len() as int),
            permuted@ =~= reorder(tasks@, order@).take(j as int),
        decreases order@.len() - j,
    {
        permuted.push(tasks[order[j]]);
        j = j + 1;
    }
    assert(permuted@ =~= reorder(tasks@, order@));
    let mut temp_graph = graph.clone();
    let res = GlobalSchedulerAlgorithm::new().schedule(&mut temp_graph, permuted);
    proof {
        if res is Ok {
            assert(temp_graph@ =~= graph@.with_values(temp_graph@.values));
        }
    }
    (temp_graph, res)
}

impl AllPermutationsAlgorithm {
    /// Runs the greedy placement once for each order of the tasks and keeps
    /// the run whose profile costs least: the profile becomes what that run
    /// left, and the events come back in list order. Fails where a task does
    /// not fit the profile's geometry, or where no order gives a run that
    /// stays in range; the profile is then left as it is.
    pub fn schedule(&self, graph: &mut DiscreteGraph, tasks: Vec<TaskForScheduler>) -> (r: Result<
        Vec<UnpublishedEvent>,
        SchedulingError,
    >)
        requires
            durations_positive(tasks@),
        ensures
            all_permutations_outcome(old(graph)@, tasks@, events_view(r), final(graph)@),
    {
        let ghost p = graph@;
        if let Err(e) = check_tasks(graph, &tasks) {
            return Err(e);
        }
        let n = tasks.len();
        let orders = task_orders(n);
        let mut runs = evaluate_orders_in_parallel(graph, &tasks, &orders);
        let ghost m = orders@.len();
        let mut best: Option<(Vec<UnpublishedEvent>, usize, u128)> = None;
        let mut k: usize = orders.len();
        while k > 0
            invariant
                p == old(graph)@,
                graph@ == p,
                n == tasks@.len(),
                durations_positive(tasks@),
                m == orders@.len(),
                k <= m,
                runs@.len() == k,
                forall|j: int| 0 <= j < m ==> is_order(#[trigger] orders@[j]@, n as int),
                forall|j: int|
                    0 <= j < k ==> order_evaluated(
                        p,
                        tasks@,
                        orders@[j]@,
                        (#[trigger] runs@[j]).0,
                        events_view(runs@[j].1),
                    ),
                best is None ==> forall|k2: int|
                    k <= k2 < m ==> !is_candidate(p, tasks@, #[trigger] orders@[k2]@),
                best matches Some((evs, bj, c)) ==> {
                    &&& k <= bj < m
                    &&& is_candidate(p, tasks@, orders@[bj as int]@)
                    &&& c == order_cost(p, tasks@, orders@[bj as int]@)
                    &&& evs@.len() == n
                    &&& forall|j: int|
                        0 <= j < n ==> #[trigger] evs@[j] == event_at(
                            p,
                            tasks@[orders@[bj as int]@[j] as int],
                            global_slots(p, reorder(tasks@, orders@[bj as int]@))[j],
                        )
                    &&& forall|k2: int|
                        k <= k2 < m && order_succeeds(p, tasks@, #[trigger] orders@[k2]@) ==> c
                            <= order_cost(p, tasks@, orders@[k2]@)
                },
            decreases k,
        {
            k = k - 1;
            let (cost, res) = runs.pop().unwrap();
            if let (Some(c), Ok(events)) = (cost, res) {
                let better = match &best {
                    None => true,
                    Some((_, _, bc)) => c <= *bc,
                };
                if better {
                    best = Some((events, k, c));
                }
            }
        }
        let (events, bj, _) = match best {
            None => {
                proof {
                    assert forall|o: Seq<usize>| !is_candidate(p, tasks@, o) by {
                        if is_candidate(p, tasks@, o) {
                            let j = choose|j: int| 0 <= j < orders@.len() && orders@[j]@ == o;
                        }
                    }
                }
                return Err(SchedulingError::ArithmeticOverflow);
            },
            Some(b) => b,
        };
        let order = &orders[bj];
        let ghost o = order@;
        proof {
            assert forall|o2: Seq<usize>|
                is_order(o2, n as int) && #[trigger] order_succeeds(p, tasks@, o2) implies order_cost(
                p,
                tasks@,
                o,
            ) <= order_cost(p, tasks@, o2) by {
                let j = choose|j: int| 0 <= j < orders@.len() && orders@[j]@ == o2;
                assert(order_succeeds(p, tasks@, orders@[j]@));
            }
        }
        let mut out: Vec<UnpublishedEvent> = Vec::new();
        let ghost mut src: Seq<int> = Seq::empty();
        let mut i: usize = 0;
        while i < n
            invariant
                i <= n,
                n == tasks@.len(),
                is_order(o, n as int),
                o == order@,
                events@.len() == n,
                out@.len() == i,
                src.len() == i,
                forall|i2: int|
                    0 <= i2 < i ==> 0 <= #[trigger] src[i2] < n && o[src[i2]] == i2 && out@[i2]
                        == events@[src[i2]],
            decreases n - i,
        {
            assert(o.contains(i));
            let mut j: usize = 0;
            while order[j] != i
                invariant
                    j < n,
                    is_order(o, n as int),
                    o == order@,
                    o.contains(i),
                    forall|j2: int| 0 <= j2 < j ==> o[j2] != i,
                decreases n - j,
            {
                j = j + 1;
                assert(j < n) by {
                    let w = choose|w: int| 0 <= w < o.len() && o[w] == i;
                }
            }
            out.push(events[j]);
            proof {
                src = src.push(j as int);
            }
            i = i + 1;
        }
        proof {
            assert forall|j: int| 0 <= j < n implies #[trigger] out@[o[j] as int] == events@[j] by {
                let i2 = o[j] as int;
                let j2 = src[i2];
                if j2 != j {
                    if j2 < j {
                        assert(o[j2] != o[j]);
                    } else {
                        assert(o[j] != o[j2]);
                    }
                }
            }
            let ob = orders@[bj as int]@;
            assert(durations_positive(reorder(tasks@, ob)));
            lemma_global_well_placed(p, reorder(tasks@, ob));
            assert forall|i2: int| 0 <= i2 < n implies well_placed(p, tasks@[i2], #[trigger] out@[i2]) by {
                let j2 = src[i2];
                assert(reorder(tasks@, ob)[j2] == tasks@[i2]);
                assert(events@[j2] == event_at(
                    p,
                    tasks@[orders@[bj as int]@[j2] as int],
                    global_slots(p, reorder(tasks@, orders@[bj as int]@))[j2],
                ));
            }
            assert(is_best_order(p, tasks@, o));
        }
        let (best_graph, _) = run_order(graph, &tasks, order);
        *graph = best_graph;
        Ok(out)
    }
}

/// Naive leaves the profile as it was, so a second call with the same
/// tasks, on the profile the first call left, returns the same events and
/// again leaves the profile unchanged.
pub proof fn lemma_naive_idempotent(
    p: ProfileView,
    tasks: Seq<TaskForScheduler>,
    first: Result<Seq<UnpublishedEvent>, SchedulingError>,
    after_first: ProfileView,
    second: Result<Seq<UnpublishedEvent>, SchedulingError>,
    after_second: ProfileView,
)
    requires
        naive_outcome(p, tasks, first, after_first),
        naive_outcome(after_first, tasks, second, after_second),
    ensures
        second == first,
        after_second == p,
{
}

/// Naive and Global are deterministic: two calls on the same profile and
/// tasks return the same events, and two successful calls of Global leave
/// the same profile.
pub proof fn lemma_deterministic(
    p: ProfileView,
    tasks: Seq<TaskForScheduler>,
    r1: Result<Seq<UnpublishedEvent>, SchedulingError>,
    after1: ProfileView,
    r2: Result<Seq<UnpublishedEvent>, SchedulingError>,
    after2: ProfileView,
)
    ensures
        naive_outcome(p, tasks, r1, after1) && naive_outcome(p, tasks, r2, after2) ==> r1 == r2
            && after1 == after2,
        global_outcome(p, tasks, r1, after1) && global_outcome(p, tasks, r2, after2) ==> r1 == r2
            && (r1 is Ok ==> after1 == after2),
{
    if global_outcome(p, tasks, r1, after1) && global_outcome(p, tasks, r2, after2) && r1 is Ok {
        assert(after1.values == after2.values);
    }
}

/// Any two orders that AllPermutations may pick leave profiles of the same
/// cost.
pub proof fn lemma_best_orders_same_cost(
    p: ProfileView,
    tasks: Seq<TaskForScheduler>,
    o1: Seq<usize>,
    o2: Seq<usize>,
)
    requires
        is_best_order(p, tasks, o1),
        is_best_order(p, tasks, o2),
    ensures
        order_cost(p, tasks, o1) == order_cost(p, tasks, o2),
{
    assert(order_succeeds(p, tasks, o1));
    assert(order_succeeds(p, tasks, o2));
}

/// No order of the tasks whose greedy run succeeds leaves a profile of lower
/// cost than the one AllPermutations picks.
pub proof fn lemma_best_order_minimal(
    p: ProfileView,
    tasks: Seq<TaskForScheduler>,
    best: Seq<usize>,
    other: Seq<usize>,
)
    requires
        is_best_order(p, tasks, best),
        is_order(other, tasks.len() as int),
        order_succeeds(p, tasks, other),
    ensures
        !(order_cost(p, tasks, other) < order_cost(p, tasks, best)),
{
}

/// One of the three algorithms, as a caller selects it.
#[derive(Debug, Clone, Copy, PartialEq, Eq, Structural)]
pub enum Algorithm {
    Naive,
    Global,
    AllPermutations,
}

impl Algorithm {
    /// 0 selects Naive, 1 Global and 2 AllPermutations; any other value is
    /// refused.
    pub fn from_discriminator(alg: u8) -> (r: Result<Algorithm, SchedulingError>)
        ensures
            alg == 0 <==> r == Ok::<Algorithm, SchedulingError>(Algorithm::Naive),
            alg == 1 <==> r == Ok::<Algorithm, SchedulingError>(Algorithm::Global),
            alg == 2 <==> r == Ok::<Algorithm, SchedulingError>(Algorithm::AllPermutations),
            alg > 2 <==> r == Err::<Algorithm, SchedulingError>(SchedulingError::UnknownAlgorithm),
    {
        match alg {
            0 => Ok(Algorithm::Naive),
            1 => Ok(Algorithm::Global),
            2 => Ok(Algorithm::AllPermutations),
            _ => Err(SchedulingError::UnknownAlgorithm),
        }
    }

    /// Runs the selected algorithm.
    pub fn schedule(&self, graph: &mut DiscreteGraph, tasks: Vec<TaskForScheduler>) -> (r: Result<
        Vec<UnpublishedEvent>,
        SchedulingError,
    >)
        requires
            durations_positive(tasks@),
        ensures
            *self == Algorithm::Naive ==> naive_outcome(
                old(graph)@,
                tasks@,
                events_view(r),
                final(graph)@,
            ),
            *self == Algorithm::Global ==> global_outcome(
                old(graph)@,
                tasks@,
                events_view(r),
                final(graph)@,
            ),
            *self == Algorithm::AllPermutations ==> all_permutations_outcome(
                old(graph)@,
                tasks@,
                events_view(r),
                final(graph)@,
            ),
    {
        match self {
            Algorithm::Naive => NaiveSchedulerAlgorithm::new().schedule(graph, tasks),
            Algorithm::Global => GlobalSchedulerAlgorithm::new().schedule(graph, tasks),
            Algorithm::AllPermutations => AllPermutationsAlgorithm::new().schedule(graph, tasks),
        }
    }
}

/// A profile together with the discriminator of the algorithm to run on it.
pub struct SchedulingGlob {
    pub discrete_graph: DiscreteGraph,
    pub alg: u8,
}

impl SchedulingGlob {
    pub fn get_discrete_graph(&self) -> (r: &DiscreteGraph)
        ensures
            r@ == self.discrete_graph@,
    {
        &self.discrete_graph
    }

    pub fn get_alg(&self) -> (r: u8)
        ensures
            r == self.alg,
    {
        self.alg
    }

    /// Runs the selected algorithm on a copy of the profile: the copy as the
    /// algorithm left it, and the events. An unknown discriminator is refused
    /// before anything runs.
    pub fn run(&self, tasks: Vec<TaskForScheduler>) -> (r: Result<
        (DiscreteGraph, Vec<UnpublishedEvent>),
        SchedulingError,
    >)
        requires
            durations_positive(tasks@),
        ensures
            self.alg > 2 ==> r == Err::<(DiscreteGraph, Vec<UnpublishedEvent>), SchedulingError>(
                SchedulingError::UnknownAlgorithm,
            ),
            r matches Ok((g, events)) ==> {
                &&& self.alg == 0 ==> naive_outcome(
                    self.discrete_graph@,
                    tasks@,
                    Ok(events@),
                    g@,
                )
                &&& self.alg == 1 ==> global_outcome(
                    self.discrete_graph@,
                    tasks@,
                    Ok(events@),
                    g@,
                )
                &&& self.alg == 2 ==> all_permutations_outcome(
                    self.discrete_graph@,
                    tasks@,
                    Ok(events@),
                    g@,
                )
            },
            r matches Err(e) ==> match self.alg {
                0 => naive_schedule(self.discrete_graph@, tasks@) == Err::<
                    Seq<UnpublishedEvent>,
                    SchedulingError,
                >(e),
                1 => global_schedule(self.discrete_graph@, tasks@) == Err::<
                    Seq<UnpublishedEvent>,
                    SchedulingError,
                >(e),
                2 => e == match first_slot_error(self.discrete_graph@, tasks@) {
                    Some(e0) => e0,
                    None => SchedulingError::ArithmeticOverflow,
                },
                _ => e == SchedulingError::UnknownAlgorithm,
            },
            self.alg <= 2 ==> (r is Ok <==> match self.alg {
                0 => naive_schedule(self.discrete_graph@, tasks@) is Ok,
                1 => global_schedule(self.discrete_graph@, tasks@) is Ok,
                _ => first_slot_error(self.discrete_graph@, tasks@) is None && exists|o: Seq<usize>|
                    #[trigger] is_candidate(self.discrete_graph@, tasks@, o),
            }),
    {
        let algorithm = match Algorithm::from_discriminator(self.get_alg()) {
            Ok(a) => a,
            Err(e) => {
                return Err(e);
            },
        };
        let mut graph = self.get_discrete_graph().clone();
        match algorithm.schedule(&mut graph, tasks) {
            Ok(events) => Ok((graph, events)),
            Err(e) => Err(e),
        }
    }
}

} // verus!
