use chrono::{DateTime, Utc};
use power_scheduler::graph::DiscreteGraph;
use power_scheduler::kernel::{get_task_as_timeslots, make_p_from_duration_in_timeslots};
use power_scheduler::task::{TaskForScheduler, TaskId};
use power_scheduler::time::{Milliseconds, Timespan, Timestamp};

const MINUTE: i64 = 60 * 1000;

/// Power in millionths of the unit the readings were taken in.
fn micro_units(x: f64) -> i64 {
    (x * 1e6).round() as i64
}

fn instant(text: &str) -> Timestamp {
    let t: DateTime<Utc> = text.parse().unwrap();
    Timestamp(t.timestamp_millis())
}

fn readings() -> Vec<f64> {
    vec![
        1541147.67998195,
        1088003.647948328,
        50484.64794832778,
        1075118.1252278527,
        1592786.6118938737,
        259537.97643355033,
        1149593.463528526,
        960643.5871385897,
        1013049.717543158,
        22491.41276946908,
        1579464.2177915303,
        872568.8148938086,
        163715.10484781698,
        806499.810535143,
        427396.35709333245,
        15800.171251045882,
        1238893.2358290735,
        609561.7269012656,
        1177272.0121892118,
        -7817.8221620834975,
        177794.22293010197,
        275117.1165836744,
        482212.2382850721,
        1394492.742329645,
        1257901.4323725847,
        543818.9171784238,
        878779.0603348233,
        870707.5318972562,
        848783.8856715219,
        1200277.7676847389,
        1401702.709918117,
        433056.43667152204,
        444512.9525232377,
        701958.557279607,
        838140.9725433062,
        716655.0426518656,
        1152432.551023369,
        760488.6983480075,
        1083676.099008391,
        1226979.033421366,
        1188384.336973002,
        1093766.9536934677,
        697539.8855571696,
        983674.677622651,
        1102372.4221992705,
        409292.2867258331,
        442977.22846594884,
        1501895.6993837866,
        14502.736883796792,
        71607.81270232261,
        524665.0110117742,
        653052.7296145279,
        620798.9069241448,
        88609.20126796105,
        716973.4244727911,
        79110.33110650051,
        206973.80291206803,
        789071.1906158836,
        466556.15668451163,
        588704.0671254967,
    ]
}

fn fixture() -> (TaskForScheduler, DiscreteGraph) {
    let start = instant("2024-05-07T12:17:31.733714688Z");
    let task = TaskForScheduler {
        id: TaskId(0),
        timespan: Timespan {
            start: instant("2024-05-07T12:48:31.733714688Z"),
            end: instant("2024-05-07T13:01:31.733714688Z"),
        },
        duration: Milliseconds(7 * MINUTE),
        effect: micro_units(912.8998498308304),
    };
    let values = readings().into_iter().map(micro_units).collect();
    let graph = DiscreteGraph::new(values, Milliseconds(MINUTE), start);
    (task, graph)
}

#[test]
fn test_get_task_as_timeslots() {
    let (task, graph) = fixture();

    let (timeslot_start, timeslot_end, timeslot_duration) =
        get_task_as_timeslots(&task, &graph).unwrap();

    assert_eq!(timeslot_start, 31, "Timeslot start is computed wrong");
    assert_eq!(timeslot_end, 44, "Timeslot end is computed wrong");
    assert_eq!(timeslot_duration, 7, "Timeslot duration is computed wrong");
}

#[test]
fn test_get_values() {
    let (task, graph) = fixture();

    let (timeslot_start, timeslot_end, _) = get_task_as_timeslots(&task, &graph).unwrap();

    let actual = &graph.get_values()[timeslot_start..=timeslot_end];

    let expected: Vec<i64> = vec![
        433056.43667152204,
        444512.9525232377,
        701958.557279607,
        838140.9725433062,
        716655.0426518656,
        1152432.551023369,
        760488.6983480075,
        1083676.099008391,
        1226979.033421366,
        1188384.336973002,
        1093766.9536934677,
        697539.8855571696,
        983674.677622651,
        1102372.4221992705,
    ]
    .into_iter()
    .map(micro_units)
    .collect();

    assert_eq!(actual, expected);
}

// The sums are exact in micro-units; each of the seven readings was rounded
// by at most half a micro-unit.
#[test]
fn test_make_p() {
    let (task, graph) = fixture();

    let (timeslot_start, timeslot_end, timeslot_duration) =
        get_task_as_timeslots(&task, &graph).unwrap();

    let task_interval = &graph.get_values()[timeslot_start..=timeslot_end];

    let actual = make_p_from_duration_in_timeslots(timeslot_duration, task_interval);

    let expected = vec![
        5047245.211040915,
        5697864.873377783,
        6480330.954275912,
        6966756.733969308,
        7222382.71511947,
        7203267.558024773,
        7034509.6846240545,
        7376393.408475317,
    ];

    assert_eq!(actual.len(), expected.len());
    for (sum, want) in actual.iter().zip(expected.iter()) {
        assert!((*sum as f64 / 1e6 - want).abs() < 1e-5, "{} != {}", sum, want);
    }
}

#[test]
fn windowed_sums_exact() {
    let sums = make_p_from_duration_in_timeslots(2, &[1, 2, 3, 4, 5]);
    assert_eq!(sums, vec![3, 5, 7, 9]);
    let sums = make_p_from_duration_in_timeslots(3, &[i64::MAX, i64::MAX, i64::MAX]);
    assert_eq!(sums, vec![3 * (i64::MAX as i128)]);
    assert!(make_p_from_duration_in_timeslots(4, &[1, 2, 3]).is_empty());
}
