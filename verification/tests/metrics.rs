use pipes_rs::measurement::{CameraName, LidarName, SensorId, SensorKind, SensorParseError};
use pipes_rs::metrics::{self, Delivery, RunMetrics};
use std::str::FromStr;

const FRONT: SensorId = SensorId::Camera(CameraName::Front);
const TOP: SensorId = SensorId::Lidar(LidarName::Top);

fn delivery(sequence: u64, wait: u128) -> Delivery {
    Delivery {
        sequence,
        sensor_timestamp_ns: -5,
        host_arrival_unix_ns: 9,
        bytes: 100,
        queue_wait: wait,
        age: wait + 1,
        checksum: 0xff00_00ff,
    }
}

fn sensors() -> Vec<SensorId> {
    vec![
        SensorId::Camera(CameraName::Front),
        SensorId::Camera(CameraName::FrontLeft),
        SensorId::Camera(CameraName::FrontRight),
        SensorId::Camera(CameraName::SideLeft),
        SensorId::Camera(CameraName::SideRight),
        SensorId::Lidar(LidarName::Top),
        SensorId::Lidar(LidarName::Front),
        SensorId::Lidar(LidarName::SideLeft),
        SensorId::Lidar(LidarName::SideRight),
        SensorId::Lidar(LidarName::Rear),
    ]
}

#[test]
fn sensor_text_parses_back() {
    for (place, sensor) in sensors().into_iter().enumerate() {
        assert_eq!(SensorId::parse(&sensor.to_text()).unwrap(), sensor);
        assert_eq!(sensor.waymo_id() as usize, place % 5 + 1);
        assert_eq!(sensor.position() as usize, place + 1);
    }
    let mut sorted = sensors();
    sorted.sort();
    assert_eq!(sorted, sensors());
}

#[test]
fn sensor_names_are_normalized() {
    assert_eq!(
        SensorId::from_str("camera:Front-LEFT").unwrap(),
        SensorId::Camera(CameraName::FrontLeft)
    );
    assert_eq!(SensorId::from_str("lidar:TOP").unwrap(), TOP);
    assert_eq!(TOP.to_text(), "lidar:top");
    assert_eq!(TOP.kind(), SensorKind::Lidar);
    assert_eq!(FRONT.kind(), SensorKind::Camera);
}

#[test]
fn unknown_sensors_are_refused() {
    assert!(matches!(
        SensorId::from_str("front"),
        Err(SensorParseError::MissingSeparator)
    ));
    for text in ["camera:top", "lidar:", "radar:front", "Camera:front", "camera:front:left"] {
        match SensorId::from_str(text) {
            Err(SensorParseError::Unsupported(value)) => assert_eq!(value, text),
            _ => panic!("{text} names no sensor"),
        }
    }
}

#[test]
fn deliveries_and_drops_are_counted() {
    let mut run = RunMetrics::default();
    for _ in 0..3 {
        assert!(run.can_count(FRONT));
        run.for_sensor(FRONT).record_submitted();
    }
    run.for_sensor(FRONT).record_accepted(2);
    run.for_sensor(FRONT).record_accepted(1);
    run.for_sensor(FRONT).record_dropped(1, -7, 8);
    assert!(run.can_deliver(FRONT, &delivery(2, 20)));
    run.for_sensor(FRONT).record_delivered(delivery(2, 20), 1_000);
    run.for_sensor(FRONT).record_delivered(delivery(5, 10), 4_000);
    run.for_sensor(FRONT).record_delivered(delivery(4, 30), 5_000);
    let rows = run.summary();
    assert_eq!(rows.len(), 1);
    let row = &rows[0];
    assert_eq!(row.sensor, FRONT);
    assert_eq!(
        (row.submitted, row.accepted, row.delivered, row.dropped),
        (3, 2, 3, 1)
    );
    assert_eq!((row.sequence_gaps, row.bytes, row.max_depth), (2, 300, 2));
    assert_eq!((row.span_ns, row.p95_wait_ns, row.p95_age_ns), (4_000, 30, 31));
    assert_eq!(row.checksum_xor, 0xff00_00ff);
    assert_eq!(row.intervals(), Some(2));
    assert_eq!(
        row.line("500.00", "30us", "31us"),
        "camera:front: submitted=3 accepted=2 delivered=3 dropped=1 gaps=2 rate=500.00Hz bytes=300 max_depth=2 p95_wait=30us p95_age=31us checksum=ff0000ff"
    );
}

#[test]
fn csv_has_one_row_per_delivered_or_dropped_measurement() {
    let mut run = RunMetrics::default();
    run.for_sensor(TOP).record_delivered(delivery(3, u128::MAX - 1), 10);
    run.for_sensor(FRONT).record_dropped(4, -7, 8);
    run.for_sensor(FRONT).record_delivered(delivery(1, 20), 10);
    run.for_sensor(FRONT).record_submitted();
    assert_eq!(
        metrics::records_header(),
        "sensor,sequence,status,sensor_timestamp_ns,host_arrival_unix_ns,payload_bytes,queue_wait_ns,measurement_age_ns,checksum"
    );
    assert_eq!(
        run.csv_rows(),
        vec![
            "camera:front,1,delivered,-5,9,100,20,21,ff0000ff".to_owned(),
            "camera:front,4,dropped,-7,8,0,0,0,00000000".to_owned(),
            format!("lidar:top,3,delivered,-5,9,100,{0},{0},ff0000ff", u64::MAX),
        ]
    );
}

#[test]
fn sensors_without_a_record_are_left_out() {
    let run = RunMetrics::default();
    assert!(run.summary().is_empty());
    assert!(run.csv_rows().is_empty());
}

#[test]
fn one_delivery_makes_no_rate() {
    let mut run = RunMetrics::default();
    run.for_sensor(TOP).record_delivered(delivery(0, 1), 77);
    assert_eq!(run.summary()[0].intervals(), None);
    assert_eq!(run.summary()[0].span_ns, 0);
}

#[test]
fn counters_do_not_overflow() {
    let mut run = RunMetrics::default();
    run.for_sensor(TOP).record_delivered(delivery(u64::MAX, 1), 77);
    assert!(!run.can_deliver(TOP, &delivery(0, 1)));
    assert!(run.can_deliver(FRONT, &delivery(0, 1)));
}

#[test]
fn percentile_is_the_rounded_index() {
    assert_eq!(metrics::percentile_95(&Vec::new()), 0);
    for count in 1..500usize {
        let values: Vec<u64> = (0..count as u64).rev().collect();
        let index = ((count - 1) as f64 * 0.95).round() as u64;
        assert_eq!(metrics::percentile_95(&values), index);
    }
}

#[test]
fn a_handle_records_for_its_sensor_alone() {
    let mut run = RunMetrics::default();
    let _ = run.for_sensor(FRONT);
    assert!(run.summary().is_empty());
    run.for_sensor(TOP).record_accepted(3);
    run.for_sensor(TOP).record_accepted(7);
    run.for_sensor(TOP).record_accepted(5);
    let rows = run.summary();
    assert_eq!(rows.len(), 1);
    assert_eq!((rows[0].sensor, rows[0].accepted, rows[0].max_depth), (TOP, 3, 7));
    assert_eq!((rows[0].submitted, rows[0].delivered, rows[0].dropped), (0, 0, 0));
}

#[test]
fn the_order_of_values_does_not_change_the_percentile() {
    let rising: Vec<u64> = (0..100).collect();
    let falling: Vec<u64> = (0..100).rev().collect();
    assert_eq!(metrics::percentile_95(&rising), 94);
    assert_eq!(metrics::percentile_95(&falling), 94);
}
