use chrono::Utc;
use power_scheduler::graph::DiscreteGraph;
use power_scheduler::scheduler::{
    AllPermutationsAlgorithm, GlobalSchedulerAlgorithm, NaiveSchedulerAlgorithm,
};
use power_scheduler::task::{TaskForScheduler as Task, TaskId, UnpublishedEvent};
use power_scheduler::time::{Milliseconds, Timespan, Timestamp};

const SECOND: i64 = 1000;
const HOUR: i64 = 3600 * SECOND;

fn now() -> i64 {
    Utc::now().timestamp_millis()
}

/// `amount` tasks with ids counting from 0, each with the window
/// `[fixpoint + start_offset, fixpoint + end_offset)`.
fn make_tasks(
    amount: usize,
    time_fixpoint: i64,
    duration: i64,
    end_offset: i64,
    start_offset: Option<i64>,
    effect: Option<i64>,
) -> Vec<Task> {
    let mut res = Vec::new();
    for id in 0..amount {
        res.push(Task {
            id: TaskId(id as i64),
            timespan: Timespan {
                start: Timestamp(time_fixpoint + start_offset.unwrap_or_default()),
                end: Timestamp(time_fixpoint + end_offset),
            },
            duration: Milliseconds(duration),
            effect: effect.unwrap_or_default(),
        });
    }
    res
}

/// Events for tasks 0, 1, ... starting `offsets[i] * unit` after `start`.
fn expected_events(start: i64, unit: i64, offsets: &[i64]) -> Vec<UnpublishedEvent> {
    let mut vec = Vec::new();
    for (id, offset) in offsets.iter().enumerate() {
        vec.push(UnpublishedEvent {
            task_id: TaskId(id as i64),
            start_time: Timestamp(start + offset * unit),
        });
    }
    vec
}

fn task(id: i64, start: i64, end: i64, duration: i64, effect: i64) -> Task {
    Task {
        id: TaskId(id),
        timespan: Timespan { start: Timestamp(start), end: Timestamp(end) },
        duration: Milliseconds(duration),
        effect,
    }
}

fn graph(values: Vec<i64>, delta: i64, start: i64) -> DiscreteGraph {
    DiscreteGraph::new(values, Milliseconds(delta), Timestamp(start))
}

// With the window of task 0 ending at 2s, a 2s task has a single start, 0;
// both orders then leave the same cost and task 1 starts at 0 too.
#[test]
fn all_permutations_scheduler_simple_reordered() {
    let scheduler = AllPermutationsAlgorithm;
    let start = now();
    let tasks = vec![
        task(0, start, start + 2 * SECOND, 2 * SECOND, 3),
        task(1, start, start + 2 * SECOND, SECOND, 4),
    ];
    let mut graph = graph(vec![4, 3, 3], SECOND, start);

    let mut events = scheduler.schedule(&mut graph, tasks).unwrap();
    let expected = expected_events(start, SECOND, &[0, 0]);

    events.sort_by_key(|event| event.task_id.0);
    assert_eq!(events, expected)
}

#[test]
fn all_permutations_scheduler_simple() {
    let scheduler = AllPermutationsAlgorithm;
    let start = now();
    let tasks = vec![
        task(0, start, start + 3 * SECOND, SECOND, 4),
        task(1, start, start + 3 * SECOND, 2 * SECOND, 3),
    ];
    let mut graph = graph(vec![4, 3, 3], SECOND, start);

    let events = scheduler.schedule(&mut graph, tasks).unwrap();
    let expected = expected_events(start, SECOND, &[0, 1]);

    assert_eq!(events, expected)
}

#[test]
fn global_scheduler_simple_reorder() {
    let scheduler = GlobalSchedulerAlgorithm;
    let start = now();
    let tasks = vec![
        task(0, start, start + 3 * SECOND, 2 * SECOND, 3),
        task(1, start, start + 3 * SECOND, SECOND, 4),
    ];
    let mut graph = graph(vec![4, 3, 3], SECOND, start);

    let events = scheduler.schedule(&mut graph, tasks).unwrap();
    let expected = expected_events(start, SECOND, &[0, 2]);

    assert_eq!(events, expected)
}

// Task 1 lasts 2s in a window that ends at 2s, so it can only start at 0.
#[test]
fn global_scheduler_simple() {
    let scheduler = GlobalSchedulerAlgorithm;
    let start = now();
    let tasks = vec![
        task(0, start, start + 2 * SECOND, SECOND, 4),
        task(1, start, start + 2 * SECOND, 2 * SECOND, 3),
    ];
    let mut graph = graph(vec![4, 3, 3], SECOND, start);

    let events = scheduler.schedule(&mut graph, tasks).unwrap();
    let expected = expected_events(start, SECOND, &[0, 0]);

    assert_eq!(events, expected)
}

// The window ends at 6s, so the last 3s start is 3; ties go to the earliest
// start.
#[test]
fn global_scheduler_mutiple_tasks() {
    let scheduler = GlobalSchedulerAlgorithm;
    let start = now();
    let tasks = make_tasks(5, start, 3 * SECOND, 6 * SECOND, None, Some(1));
    let mut graph = graph(vec![0, 5, 8, 9, 8, 5, 0], SECOND, start);

    let events = scheduler.schedule(&mut graph, tasks).unwrap();
    let expected = expected_events(start, SECOND, &[2, 2, 2, 1, 3]);

    assert_eq!(events, expected);
    assert_eq!(graph.get_values(), &vec![0, 4, 4, 4, 4, 4, 0]);
}

// 3.6s rounds up to 4 slots; ties go to the earliest start.
#[test]
fn global_scheduler_floor_or_ceil() {
    let scheduler = GlobalSchedulerAlgorithm;
    let start = now();
    let tasks = make_tasks(5, start, 3 * SECOND + 600, 6 * SECOND, None, Some(1));
    let mut graph = graph(vec![0, 5, 8, 9, 8, 5, 0], SECOND, start);

    let events = scheduler.schedule(&mut graph, tasks).unwrap();
    let expected = expected_events(start, SECOND, &[1, 2, 1, 2, 1]);

    assert_eq!(events, expected)
}

// Every start ties on a flat profile; the earliest wins.
#[test]
fn global_scheduler_negative_graph() {
    let scheduler = GlobalSchedulerAlgorithm;
    let start = now();
    let tasks = make_tasks(1, start, 3 * SECOND, 7 * SECOND, None, Some(1));
    let mut graph = graph(vec![0, 0, 0, 0, 0, 0, 0], SECOND, start);

    let events = scheduler.schedule(&mut graph, tasks).unwrap();
    let expected = expected_events(start, SECOND, &[0]);

    assert_eq!(events, expected)
}

#[test]
fn naive_scheduler_parabola_3elem() {
    let scheduler = NaiveSchedulerAlgorithm;
    let start = now();
    let tasks = make_tasks(1, start, 2 * SECOND, 3 * SECOND, None, None);
    let mut graph = graph(vec![3, 5, 4], SECOND, start);

    let events = scheduler.schedule(&mut graph, tasks).unwrap();
    let expected = expected_events(start, SECOND, &[1]);

    assert_eq!(events, expected)
}

#[test]
fn naive_scheduler_parabola_7elem() {
    let scheduler = NaiveSchedulerAlgorithm;
    let start = now();
    let tasks = make_tasks(1, start, 3 * SECOND, 7 * SECOND, None, None);
    let mut graph = graph(vec![0, 5, 8, 9, 8, 5, 0], SECOND, start);

    let events = scheduler.schedule(&mut graph, tasks).unwrap();
    let expected = expected_events(start, SECOND, &[2]);

    assert_eq!(events, expected)
}

#[test]
fn naive_scheduler_linear_up() {
    let scheduler = NaiveSchedulerAlgorithm;
    let start = now();
    let tasks = make_tasks(1, start, 3 * SECOND, 7 * SECOND, None, None);
    let mut graph = graph(vec![2, 3, 4, 5, 6, 7, 8], SECOND, start);

    let events = scheduler.schedule(&mut graph, tasks).unwrap();
    let expected = expected_events(start, SECOND, &[4]);

    assert_eq!(events, expected)
}

#[test]
fn naive_scheduler_linear_down() {
    let scheduler = NaiveSchedulerAlgorithm;
    let start = now();
    let tasks = make_tasks(1, start, 3 * SECOND, 7 * SECOND, None, None);
    let mut graph = graph(vec![8, 7, 6, 5, 4, 3, 2], SECOND, start);

    let events = scheduler.schedule(&mut graph, tasks).unwrap();
    let expected = expected_events(start, SECOND, &[0]);

    assert_eq!(events, expected)
}

#[test]
fn naive_scheduler_time_span() {
    let scheduler = NaiveSchedulerAlgorithm;
    let start = now();
    let tasks = make_tasks(1, start, 3 * SECOND, 6 * SECOND, None, None);
    let mut graph = graph(vec![0, 5, 8, 9, 8, 5, 0], SECOND, start);

    let events = scheduler.schedule(&mut graph, tasks).unwrap();
    let expected = expected_events(start, SECOND, &[2]);

    assert_eq!(events, expected)
}

#[test]
fn naive_scheduler_task_starts_before_graph() {
    let scheduler = NaiveSchedulerAlgorithm;
    let start = now();
    let tasks = make_tasks(1, start - SECOND, 3 * SECOND, 7 * SECOND, None, None);
    let mut graph = graph(vec![0, 5, 8, 9, 8, 5, 0], SECOND, start);

    let events = scheduler.schedule(&mut graph, tasks).unwrap();
    let expected = expected_events(start, SECOND, &[2]);

    assert_eq!(events, expected)
}

#[test]
fn naive_scheduler_24_hour() {
    let scheduler = NaiveSchedulerAlgorithm;
    let start = now();
    let tasks = make_tasks(1, start, 4 * HOUR, 24 * HOUR, None, None);
    let mut graph = graph(vec![3, 7, 6, 5, 4, 8], 4 * HOUR, start);

    let events = scheduler.schedule(&mut graph, tasks).unwrap();
    let expected = expected_events(start, HOUR, &[20]);

    assert_eq!(events, expected)
}

#[test]
fn naive_scheduler_multiple_tasks() {
    let scheduler = NaiveSchedulerAlgorithm;
    let start = now();
    let tasks = make_tasks(3, start, 3 * SECOND, 7 * SECOND, None, None);
    let mut graph = graph(vec![0, 5, 8, 9, 8, 5, 0], SECOND, start);

    let events = scheduler.schedule(&mut graph, tasks).unwrap();
    let expected = expected_events(start, SECOND, &[2, 2, 2]);

    assert_eq!(events, expected)
}

#[test]
fn naive_scheduler_start_time_offset() {
    let scheduler = NaiveSchedulerAlgorithm;
    let start = now();
    let tasks = make_tasks(3, start, 3 * SECOND, 7 * SECOND, Some(3 * SECOND), None);
    let mut graph = graph(vec![0, 5, 8, 9, 8, 5, 0], SECOND, start);

    let events = scheduler.schedule(&mut graph, tasks).unwrap();
    let expected = expected_events(start, SECOND, &[3, 3, 3]);

    assert_eq!(events, expected)
}
