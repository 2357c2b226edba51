use arrow::array::{
    Array, ArrayRef, Float32Array, Int64Array, Int8Array, ListArray, StructArray,
    UInt64Array,
};
use arrow::datatypes::{Field, Float64Type, Int16Type};
use pipes_rs::fusion::{Detection, Point};
use pipes_rs::join::{self, JoinAction, JoinEvent, Side, TimestampJoin};
use pipes_rs::sink::{Sink, SinkAction, SinkEvent};
use pipes_rs::table::Column;
use pipes_rs::transport::{self, Arrival, ArrivalError, TransportRow};
use pipes_rs::wire::{self, CameraArrayMeta, LidarArrayMeta, WireDetection, WireError};
use std::sync::Arc;

const CAMERA: CameraArrayMeta = CameraArrayMeta {
    timestamp: -12,
    stage_ns: 1,
    inference_ns: 2,
    width: 3,
    height: 4,
    checksum: 5,
    started_unix_ns: 600,
    sent_unix_ns: 700,
};

const LIDAR: LidarArrayMeta = LidarArrayMeta {
    timestamp: -12,
    stage_ns: 8,
    started_unix_ns: 500,
    sent_unix_ns: 900,
};

fn message(columns: Vec<(&str, ArrayRef)>) -> Column {
    let fields: Vec<Field> = columns
        .iter()
        .map(|(name, array)| Field::new(*name, array.data_type().clone(), false))
        .collect();
    let arrays = columns.into_iter().map(|(_, array)| array).collect();
    Column {
        array: Arc::new(StructArray::try_new(fields.into(), arrays, None).unwrap()),
    }
}

fn point(seed: u32) -> Point {
    Point {
        x: seed,
        y: seed + 1,
        z: seed + 2,
        range: seed + 3,
        intensity: seed + 4,
        elongation: seed + 5,
        camera: seed as i8,
        u: seed + 6,
        v: seed + 7,
    }
}

#[test]
fn camera_messages_arrive_as_they_were_sent() {
    let sent = wire::camera_array(&b"[1]".to_vec(), &b"[]".to_vec(), CAMERA).unwrap();
    let arrived = wire::parse_camera(&sent).unwrap();
    assert_eq!(arrived.meta, CAMERA);
    assert_eq!(arrived.predictions, b"[1]");
    assert_eq!(arrived.truth, b"[]");
    let array = sent.array;
    let columns = array.as_any().downcast_ref::<StructArray>().unwrap();
    assert_eq!(
        columns.column_names(),
        vec![
            "timestamp",
            "predictions",
            "truth",
            "stage_ns",
            "inference_ns",
            "width",
            "height",
            "checksum",
            "started_unix_ns",
            "sent_unix_ns",
        ]
    );
}

#[test]
fn lidar_messages_arrive_as_they_were_sent() {
    let points = vec![point(1), point(100)];
    let sent = wire::lidar_array(&points, LIDAR).unwrap();
    assert!(wire::can_parse_lidar(&sent));
    let arrived = wire::parse_lidar(&sent).unwrap();
    assert_eq!(arrived.meta, LIDAR);
    assert_eq!(arrived.points.len(), 2);
    for (sent, arrived) in points.iter().zip(&arrived.points) {
        assert_eq!(
            (sent.x, sent.y, sent.z, sent.range, sent.intensity),
            (arrived.x, arrived.y, arrived.z, arrived.range, arrived.intensity)
        );
        assert_eq!(
            (sent.elongation, sent.camera, sent.u, sent.v),
            (arrived.elongation, arrived.camera, arrived.u, arrived.v)
        );
    }
    let empty = wire::lidar_array(&[], LIDAR).unwrap();
    assert!(wire::parse_lidar(&empty).unwrap().points.is_empty());
}

#[test]
fn messages_that_lack_something_are_refused() {
    let number: ArrayRef = Arc::new(Int64Array::from(vec![1]));
    let plain = Column {
        array: number.clone(),
    };
    assert!(matches!(
        wire::parse_camera(&plain),
        Err(WireError::NotStruct)
    ));
    assert!(matches!(
        wire::parse_lidar(&plain),
        Err(WireError::NotStruct)
    ));
    let short = message(vec![("timestamp", number.clone())]);
    assert!(matches!(
        wire::parse_camera(&short),
        Err(WireError::MissingColumn(name)) if name == "predictions"
    ));
    assert!(matches!(
        wire::parse_lidar(&short),
        Err(WireError::MissingColumn(name)) if name == "x"
    ));
    let wrong = message(vec![("timestamp", Arc::new(UInt64Array::from(vec![1])))]);
    assert!(matches!(
        wire::parse_camera(&wrong),
        Err(WireError::WrongType(name)) if name == "timestamp"
    ));
    let doubles: ArrayRef = Arc::new(ListArray::from_iter_primitive::<Float64Type, _, _>(vec![
        Some(vec![Some(1.0)]),
    ]));
    let lists = message(vec![("x", doubles)]);
    assert!(matches!(
        wire::parse_lidar(&lists),
        Err(WireError::WrongValueType(name)) if name == "x"
    ));
    let floats: ArrayRef = Arc::new(Float32Array::from(vec![1.0]));
    assert!(matches!(
        wire::list_col(&message(vec![("x", floats)]), "x"),
        Err(WireError::WrongType(name)) if name == "x"
    ));
    let bytes: ArrayRef = Arc::new(Int8Array::from(vec![1]));
    assert!(matches!(
        wire::i8_list_col(&message(vec![("c", bytes)]), "c"),
        Err(WireError::WrongType(name)) if name == "c"
    ));
}

#[test]
fn lists_that_are_too_short_cannot_be_read() {
    let list = |count: usize| -> ArrayRef {
        let mut columns = wire::MessageColumns::new();
        columns.push_f32_list("x", vec![7; count]);
        let array = wire::struct_array(&columns).unwrap().array;
        let columns = array.as_any().downcast_ref::<StructArray>().unwrap();
        columns.column(0).clone()
    };
    let cameras = {
        let mut columns = wire::MessageColumns::new();
        columns.push_i8_list("c", vec![1, 1]);
        let array = wire::struct_array(&columns).unwrap().array;
        let columns = array.as_any().downcast_ref::<StructArray>().unwrap();
        columns.column(0).clone()
    };
    let built = |count: usize| {
        message(vec![
            ("x", list(2)),
            ("y", list(2)),
            ("z", list(2)),
            ("range", list(2)),
            ("intensity", list(2)),
            ("elongation", list(2)),
            ("camera", cameras.clone()),
            ("u", list(2)),
            ("v", list(count)),
        ])
    };
    assert!(wire::can_parse_lidar(&built(2)));
    assert!(wire::can_parse_lidar(&built(3)));
    assert!(!wire::can_parse_lidar(&built(1)));
    assert!(wire::struct_array(&wire::MessageColumns::new()).is_err());
}

#[test]
fn detections_arrive_without_their_depth() {
    let sent = Detection {
        id: "a".to_owned(),
        kind: "cyclist",
        x: 1,
        y: 2,
        width: 3,
        height: 4,
        depth_m: Some(9),
        depth_points: 10,
        score: Some(5),
    };
    let wire = WireDetection::from_detection(&sent);
    let arrived = wire.to_detection();
    assert_eq!((arrived.id.as_str(), arrived.kind), ("a", "cyclist"));
    assert_eq!(
        (arrived.x, arrived.y, arrived.width, arrived.height),
        (1, 2, 3, 4)
    );
    assert_eq!(
        (arrived.score, arrived.depth_m, arrived.depth_points),
        (Some(5), None, 0)
    );
    for (kind, known) in [
        ("vehicle", "vehicle"),
        ("pedestrian", "pedestrian"),
        ("sign", "sign"),
        ("tree", "unknown"),
    ] {
        let mut wire = WireDetection::from_detection(&sent);
        wire.kind = kind.to_owned();
        assert_eq!(wire.to_detection().kind, known);
    }
}

#[test]
fn pairs_are_timed_by_the_wall_clock() {
    let times = wire::pair_times(CAMERA, LIDAR, 800, 1_500, 33);
    assert_eq!(times.camera_queue_wait_ns, 100);
    assert_eq!(times.lidar_queue_wait_ns, 0);
    assert_eq!(times.fusion_ns, 33);
    assert_eq!(times.end_to_end_ns, 1_000);
}

#[test]
fn messages_are_timed_by_the_wall_clock() {
    assert_eq!(wire::arrival_times(700, 600, 800, 1_500), (100, 900));
    assert_eq!(wire::arrival_times(900, 1_600, 800, 1_500), (0, 0));
}

#[test]
fn a_sink_numbers_its_messages_until_the_input_closes() {
    let mut sink = Sink::new();
    assert!(matches!(sink.hear::<&str>(SinkEvent::Other), SinkAction::Wait));
    assert!(matches!(sink.hear(SinkEvent::Input("a")), SinkAction::Hear(0, "a")));
    assert!(matches!(sink.hear::<&str>(SinkEvent::Other), SinkAction::Wait));
    assert!(matches!(sink.hear(SinkEvent::Input("b")), SinkAction::Hear(1, "b")));
    assert!(matches!(sink.hear::<&str>(SinkEvent::Closed), SinkAction::Finish));
    assert!(matches!(sink.hear::<&str>(SinkEvent::Stop), SinkAction::Finish));
    assert_eq!(sink.heard, 2);
}

#[test]
fn pairs_go_out_in_either_order() {
    let mut join: TimestampJoin<&str, u8> = TimestampJoin::new();
    assert_eq!(join.camera(1, "one"), None);
    assert_eq!(join.lidar(2, 20), None);
    assert_eq!(join.lidar(1, 10), Some(("one", 10)));
    assert_eq!(join.camera(2, "two"), Some(("two", 20)));
    assert_eq!(join.lidar(1, 11), None);
}

#[test]
fn waiting_messages_are_replaced_by_later_ones() {
    let mut join: TimestampJoin<&str, u8> = TimestampJoin::new();
    assert_eq!(join.camera(1, "old"), None);
    assert_eq!(join.camera(1, "new"), None);
    assert_eq!(join.lidar(1, 10), Some(("new", 10)));
}

#[test]
fn join_ends_when_both_sides_have() {
    let mut join: TimestampJoin<&str, u8> = TimestampJoin::new();
    assert!(!join.is_finished());
    join.close_lidar();
    assert!(!join.is_finished());
    join.close_camera();
    assert!(join.is_finished());
}

#[test]
fn payloads_arrive_with_their_points() {
    let ramp = vec![0, 1, 2];
    let sent = transport::numbered_payload(&ramp, 4, 5, 6).unwrap();
    assert_eq!(
        transport::parse_payload(&sent).unwrap(),
        Arrival {
            sequence: 4,
            started_unix_ns: 5,
            sent_unix_ns: 6,
            points: 3,
        }
    );
    let local = transport::payload(&ramp).unwrap();
    assert_eq!(transport::payload_points(&local), Some(3));
    assert!(matches!(
        transport::parse_payload(&local),
        Err(ArrivalError::Message(WireError::MissingColumn(name))) if name == "started_unix_ns"
    ));
    let array = local.array;
    let columns = array.as_any().downcast_ref::<StructArray>().unwrap();
    assert_eq!(columns.num_columns(), 10);
    let cameras = columns.column_by_name("camera").unwrap();
    let cameras = cameras.as_any().downcast_ref::<ListArray>().unwrap().value(0);
    let cameras = cameras.as_any().downcast_ref::<Int8Array>().unwrap();
    assert_eq!(cameras.values().to_vec(), vec![1, 1, 1]);
}

#[test]
fn payloads_without_points_are_refused() {
    let number = || -> ArrayRef { Arc::new(UInt64Array::from(vec![1])) };
    let empty = message(vec![
        ("sequence", number()),
        ("started_unix_ns", number()),
        ("sent_unix_ns", number()),
        ("x", number()),
    ]);
    assert!(matches!(
        transport::parse_payload(&empty),
        Err(ArrivalError::MissingPayload)
    ));
    assert_eq!(transport::payload_points(&empty), None);
}

#[test]
fn points_are_counted_whatever_their_type() {
    let lists = ListArray::from_iter_primitive::<Int16Type, _, _>(vec![Some(vec![
        Some(1),
        None,
        Some(3),
    ])]);
    let odd = message(vec![("x", Arc::new(lists))]);
    assert_eq!(transport::payload_points(&odd), Some(3));
}

#[test]
fn messages_are_read_from_their_first_row() {
    let numbers = message(vec![("sequence", Arc::new(UInt64Array::from(vec![4, 5])))]);
    assert_eq!(wire::u64_col(&numbers, "sequence").unwrap(), 4);
    let rest = Column {
        array: numbers.array.slice(1, 1),
    };
    assert!(wire::has_row(&rest));
    assert_eq!(wire::u64_col(&rest, "sequence").unwrap(), 5);
    let nothing = Column {
        array: numbers.array.slice(2, 0),
    };
    assert!(!wire::has_row(&nothing));
    let plain = Column {
        array: Arc::new(Int64Array::from(Vec::<i64>::new())),
    };
    assert!(wire::has_row(&plain));
}

#[test]
fn transport_rows_are_written() {
    assert_eq!(
        transport::transport_header(),
        "frame,status,points,payload_bytes,queue_wait_ns,end_to_end_ns"
    );
    let row = TransportRow {
        frame: 7,
        points: 3,
        payload_bytes: transport::payload_bytes(3),
        queue_wait_ns: 11,
        end_to_end_ns: 12,
    };
    assert_eq!(row.csv_row(), "7,delivered,3,99,11,12");
}

#[test]
fn inputs_are_told_apart_by_name() {
    assert_eq!(join::side_of("detections"), Some(Side::Camera));
    assert_eq!(join::side_of("pointcloud"), Some(Side::Lidar));
    assert_eq!(join::side_of("detection"), None);
}

#[test]
fn a_join_fuses_what_is_of_one_time_until_both_sides_end() {
    let mut join: TimestampJoin<&str, u8> = TimestampJoin::new();
    assert!(matches!(join.hear(JoinEvent::Camera(1, "a")), JoinAction::Wait));
    assert!(matches!(join.hear(JoinEvent::Lidar(2, 2)), JoinAction::Wait));
    assert!(matches!(join.hear(JoinEvent::Other), JoinAction::Wait));
    assert!(matches!(join.hear(JoinEvent::Closed(Side::Camera)), JoinAction::Wait));
    assert!(matches!(join.hear(JoinEvent::Closed(Side::Camera)), JoinAction::Wait));
    assert!(matches!(join.hear(JoinEvent::Lidar(1, 1)), JoinAction::Fuse("a", 1)));
    assert!(matches!(join.hear(JoinEvent::Lidar(1, 3)), JoinAction::Wait));
    assert!(matches!(join.hear(JoinEvent::Closed(Side::Lidar)), JoinAction::Finish));

    let mut join: TimestampJoin<&str, u8> = TimestampJoin::new();
    assert!(matches!(join.hear(JoinEvent::Lidar(5, 1)), JoinAction::Wait));
    assert!(matches!(join.hear(JoinEvent::Lidar(5, 2)), JoinAction::Wait));
    assert!(matches!(join.hear(JoinEvent::Camera(5, "b")), JoinAction::Fuse("b", 2)));
    assert!(matches!(join.hear(JoinEvent::Stop), JoinAction::Finish));
}
