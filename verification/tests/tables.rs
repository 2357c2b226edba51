use arrow::array::{
    Array, ArrayRef, BinaryArray, FixedSizeListArray, Float32Array, Float64Array, Int16Array,
    Int32Array, Int64Array, Int8Array, ListArray, StringArray, StructArray, UInt16Array,
    UInt32Array, UInt64Array, UInt8Array,
};
use arrow::datatypes::{Field, Float32Type, Float64Type, Int32Type, Schema};
use arrow::ipc::reader::StreamReader;
use pipes_rs::columns::{self, ColumnError, ColumnKind};
use pipes_rs::frames::{
    self, CalibrationError, CameraFrameSearch, FrameCursor, FrameError, LidarFrame,
};
use pipes_rs::fusion;
use pipes_rs::index::{self, BoxIndex, FrameIndex};
use pipes_rs::measurement::{self, CameraName, LidarName, Measurement, SensorId};
use pipes_rs::metrics::RunMetrics;
use pipes_rs::producer;
use pipes_rs::queue::{BoundedQueue, PushResult, QueuePolicy};
use pipes_rs::table::{Batch, Column};
use pipes_rs::waymo::{ComponentLoader, LoadError};
use pipes_rs::wire;
use std::sync::Arc;

fn column(array: &ArrayRef) -> Column {
    Column {
        array: array.clone(),
    }
}

fn batch(columns: Vec<(&str, ArrayRef)>) -> Batch {
    let rows = columns[0].1.len();
    let fields: Vec<Field> = columns
        .iter()
        .map(|(name, array)| Field::new(*name, array.data_type().clone(), true))
        .collect();
    let data = columns.iter().map(|(_, array)| column(array)).collect();
    Batch::from_parts(Arc::new(Schema::new(fields)), data, rows).unwrap()
}

fn times(values: Vec<i64>) -> (&'static str, ArrayRef) {
    (
        "key.frame_timestamp_micros",
        Arc::new(Int64Array::from(values)),
    )
}

fn lists_f32(values: Vec<Vec<f32>>) -> ArrayRef {
    Arc::new(ListArray::from_iter_primitive::<Float32Type, _, _>(
        values
            .into_iter()
            .map(|list| Some(list.into_iter().map(Some).collect::<Vec<_>>())),
    ))
}

fn lists_f64(values: Vec<Vec<f64>>) -> ArrayRef {
    Arc::new(ListArray::from_iter_primitive::<Float64Type, _, _>(
        values
            .into_iter()
            .map(|list| Some(list.into_iter().map(Some).collect::<Vec<_>>())),
    ))
}

fn fixed_i32(values: Vec<Vec<i32>>, size: i32) -> ArrayRef {
    Arc::new(FixedSizeListArray::from_iter_primitive::<Int32Type, _, _>(
        values
            .into_iter()
            .map(|list| Some(list.into_iter().map(Some).collect::<Vec<_>>())),
        size,
    ))
}

fn fixed_f64(values: Vec<Vec<f64>>, size: i32) -> ArrayRef {
    Arc::new(FixedSizeListArray::from_iter_primitive::<Float64Type, _, _>(
        values
            .into_iter()
            .map(|list| Some(list.into_iter().map(Some).collect::<Vec<_>>())),
        size,
    ))
}

fn bits32(values: &[f32]) -> Vec<u32> {
    values.iter().map(|value| value.to_bits()).collect()
}

fn bits64(values: &[f64]) -> Vec<u64> {
    values.iter().map(|value| value.to_bits()).collect()
}

#[test]
fn parts_that_do_not_belong_together_are_refused() {
    let schema = Arc::new(Schema::new(vec![Field::new(
        "a",
        arrow::datatypes::DataType::Int64,
        false,
    )]));
    let array: ArrayRef = Arc::new(Int64Array::from(vec![1, 2]));
    assert!(Batch::from_parts(schema.clone(), vec![column(&array)], 2).is_some());
    assert!(Batch::from_parts(schema.clone(), vec![column(&array)], 3).is_none());
    assert!(Batch::from_parts(schema, vec![column(&array), column(&array)], 2).is_none());
}

#[test]
fn columns_are_read_by_name_and_type() {
    let table = batch(vec![
        ("i64", Arc::new(Int64Array::from(vec![1, 2]))),
        ("f64", Arc::new(Float64Array::from(vec![0.5, -2.0]))),
        ("i8", Arc::new(Int8Array::from(vec![-1, 3]))),
        ("i32", Arc::new(Int32Array::from(vec![-100_000, 3]))),
        ("text", Arc::new(StringArray::from(vec!["a", "bc"]))),
        ("bytes", Arc::new(BinaryArray::from_vec(vec![b"xy", b""]))),
        ("f32s", lists_f32(vec![vec![1.0], vec![2.0, 3.0]])),
        ("f64s", lists_f64(vec![vec![], vec![4.0]])),
        ("fixed", fixed_i32(vec![vec![1, 2], vec![3, 4]], 2)),
        ("fixed64", fixed_f64(vec![vec![1.0], vec![5.0]], 1)),
    ]);
    assert_eq!(columns::column_index(&table, "i8").unwrap(), 2);
    assert_eq!(columns::int64(&table, "i64").unwrap(), vec![1, 2]);
    assert_eq!(
        columns::float64(&table, "f64").unwrap(),
        bits64(&[0.5, -2.0])
    );
    assert_eq!(columns::integer(&table, "i8").unwrap(), vec![-1, 3]);
    assert_eq!(columns::integer(&table, "i32").unwrap(), vec![-100_000, 3]);
    assert_eq!(columns::string(&table, "text").unwrap(), vec!["a", "bc"]);
    assert_eq!(columns::binary(&table, "bytes").unwrap(), 5);
    assert_eq!(
        columns::float64_scalar(&table, "f64", 1).unwrap(),
        (-2.0f64).to_bits()
    );
    assert_eq!(
        columns::list_f32(&table, "f32s", 1).unwrap(),
        bits32(&[2.0, 3.0])
    );
    assert_eq!(columns::list_f64(&table, "f64s", 1).unwrap(), bits64(&[4.0]));
    assert_eq!(columns::fixed_i32(&table, "fixed", 1).unwrap(), vec![3, 4]);
    assert_eq!(
        columns::fixed_f64(&table, "fixed64", 1).unwrap(),
        bits64(&[5.0])
    );
}

#[test]
fn columns_of_another_type_are_refused() {
    let table = batch(vec![
        ("i64", Arc::new(Int64Array::from(vec![1]))),
        ("f32s", lists_f32(vec![vec![1.0]])),
        ("fixed", fixed_i32(vec![vec![1]], 1)),
    ]);
    let kind = |error: ColumnError| match error {
        ColumnError::Missing(name) => (name, None),
        ColumnError::WrongType(name, kind) => (name, Some(kind)),
    };
    let refused = vec![
        kind(columns::int64(&table, "none").unwrap_err()),
        kind(columns::int64(&table, "f32s").unwrap_err()),
        kind(columns::float64(&table, "i64").unwrap_err()),
        kind(columns::integer(&table, "i64").unwrap_err()),
        kind(columns::string(&table, "i64").unwrap_err()),
        kind(columns::binary(&table, "i64").unwrap_err()),
        kind(columns::list_f32(&table, "i64", 0).unwrap_err()),
        kind(columns::list_f64(&table, "f32s", 0).unwrap_err()),
        kind(columns::fixed_i32(&table, "f32s", 0).unwrap_err()),
        kind(columns::fixed_f64(&table, "fixed", 0).unwrap_err()),
    ];
    assert_eq!(
        refused,
        vec![
            ("none".to_owned(), None),
            ("f32s".to_owned(), Some(ColumnKind::Int64)),
            ("i64".to_owned(), Some(ColumnKind::Float64)),
            ("i64".to_owned(), Some(ColumnKind::Integer)),
            ("i64".to_owned(), Some(ColumnKind::Utf8)),
            ("i64".to_owned(), Some(ColumnKind::Binary)),
            ("i64".to_owned(), Some(ColumnKind::List)),
            ("f32s".to_owned(), Some(ColumnKind::ListFloat64)),
            ("f32s".to_owned(), Some(ColumnKind::FixedSizeList)),
            ("fixed".to_owned(), Some(ColumnKind::FixedFloat64)),
        ]
    );
}

fn camera_table() -> Batch {
    batch(vec![
        times(vec![10, 20, 30, 40]),
        ("key.camera_name", Arc::new(Int8Array::from(vec![1, 2, 1, 1]))),
        (
            "[CameraImageComponent].image",
            Arc::new(BinaryArray::from_vec(vec![b"a", b"b", b"c", b"d"])),
        ),
    ])
}

#[test]
fn camera_frames_are_visited_in_turn_up_to_the_limit() {
    let table = camera_table();
    let visit = |limit: usize| {
        let mut cursor = FrameCursor::new(limit);
        let mut seen = Vec::new();
        for _ in 0..2 {
            cursor.start_table();
            while let Some(frame) = cursor.next_camera_frame(&table).unwrap() {
                seen.push((frame.timestamp, frame.jpeg));
            }
        }
        (seen, cursor.is_at_limit())
    };
    let frame = |time: i64, byte: u8| (time, vec![byte]);
    assert_eq!(
        visit(0),
        (
            vec![
                frame(10, b'a'),
                frame(30, b'c'),
                frame(40, b'd'),
                frame(10, b'a'),
                frame(30, b'c'),
                frame(40, b'd'),
            ],
            false
        )
    );
    assert_eq!(
        visit(2),
        (vec![frame(10, b'a'), frame(30, b'c')], true)
    );
}

#[test]
fn camera_frame_is_found_by_its_index() {
    let table = camera_table();
    let mut search = CameraFrameSearch::new(4);
    assert!(search.read_camera_frame(&table).unwrap().is_none());
    let frame = search.read_camera_frame(&table).unwrap().unwrap();
    assert_eq!((frame.timestamp, frame.jpeg), (30, b"c".to_vec()));
}

fn lidar_table(shape: Vec<Vec<i32>>, size: i32) -> Batch {
    batch(vec![
        times(vec![10, 20, 30]),
        ("key.laser_name", Arc::new(Int8Array::from(vec![2, 1, 1]))),
        (
            "P.range_image_return1.values",
            lists_f32(vec![vec![9.0], vec![1.0, 2.0], vec![3.0, 4.0]]),
        ),
        ("P.range_image_return1.shape", fixed_i32(shape, size)),
    ])
}

#[test]
fn lidar_frames_are_visited_and_found_by_time() {
    let table = lidar_table(vec![vec![1, 1, 1], vec![1, 2, 1], vec![2, 1, 1]], 3);
    let mut cursor = FrameCursor::new(0);
    let mut index = FrameIndex::new();
    while let Some(frame) = cursor.next_top_lidar_frame(&table, "P").unwrap() {
        index.insert(frame);
    }
    assert!(index.get(10).is_none());
    assert_eq!(index.get(20).unwrap().values, bits32(&[1.0, 2.0]));
    assert_eq!(index.get(30).unwrap().shape, [2, 1, 1]);
    let frame = frames::read_lidar_frame(&table, 30, "P").unwrap().unwrap();
    assert_eq!(frame.timestamp, 30);
    assert!(frames::read_lidar_frame(&table, 10, "P").unwrap().is_none());
}

#[test]
fn later_range_images_replace_earlier_ones() {
    let mut index = FrameIndex::new();
    for value in [1, 2] {
        index.insert(LidarFrame {
            timestamp: 5,
            values: vec![value],
            shape: [1, 1, 1],
        });
    }
    assert_eq!(index.get(5).unwrap().values, vec![2]);
}

#[test]
fn range_images_of_a_wrong_shape_are_refused() {
    let rank = lidar_table(vec![vec![1, 1], vec![1, 2], vec![2, 1]], 2);
    assert!(matches!(
        frames::read_lidar_frame(&rank, 20, "P"),
        Err(FrameError::ShapeRank)
    ));
    let size = lidar_table(vec![vec![1, 1, 1], vec![2, 2, 1], vec![-1, 1, 1]], 3);
    assert!(matches!(
        frames::read_lidar_frame(&size, 20, "P"),
        Err(FrameError::ShapeMismatch)
    ));
    assert!(matches!(
        frames::read_lidar_frame(&size, 30, "P"),
        Err(FrameError::ShapeMismatch)
    ));
    assert!(matches!(
        frames::read_lidar_frame(&size, 30, "Q"),
        Err(FrameError::Column(ColumnError::Missing(_)))
    ));
}

fn calibration_table(numbers: usize) -> Batch {
    let transform: Vec<f64> = (0..numbers).map(|i| i as f64).collect();
    batch(vec![
        ("key.laser_name", Arc::new(Int8Array::from(vec![3, 1]))),
        (
            "[LiDARCalibrationComponent].extrinsic.transform",
            fixed_f64(vec![vec![0.0; numbers], transform], numbers as i32),
        ),
        (
            "[LiDARCalibrationComponent].beam_inclination.min",
            Arc::new(Float64Array::from(vec![0.0, -0.3])),
        ),
        (
            "[LiDARCalibrationComponent].beam_inclination.max",
            Arc::new(Float64Array::from(vec![0.0, 0.1])),
        ),
        (
            "[LiDARCalibrationComponent].beam_inclination.values",
            lists_f64(vec![vec![], vec![0.25, 0.5]]),
        ),
    ])
}

#[test]
fn calibration_is_that_of_the_top_lidar() {
    let calibration = frames::read_calibration(&calibration_table(16))
        .unwrap()
        .unwrap();
    assert_eq!(calibration.extrinsic[15], (15.0f64).to_bits());
    assert_eq!(calibration.inclination_min, (-0.3f64).to_bits());
    assert_eq!(calibration.inclination_max, (0.1f64).to_bits());
    assert_eq!(calibration.inclinations, bits64(&[0.25, 0.5]));
    assert!(matches!(
        frames::read_calibration(&calibration_table(9)),
        Err(CalibrationError::ExtrinsicSize)
    ));
}

#[test]
fn boxes_are_those_of_the_front_camera() {
    let table = batch(vec![
        times(vec![1, 1, 2, 1]),
        ("key.camera_name", Arc::new(Int8Array::from(vec![1, 3, 1, 1]))),
        (
            "key.camera_object_id",
            Arc::new(StringArray::from(vec!["a", "b", "c", "d"])),
        ),
        (
            "[CameraBoxComponent].box.center.x",
            Arc::new(Float64Array::from(vec![10.0, 0.0, 20.0, 30.0])),
        ),
        (
            "[CameraBoxComponent].box.center.y",
            Arc::new(Float64Array::from(vec![1.0, 0.0, 2.0, 3.0])),
        ),
        (
            "[CameraBoxComponent].box.size.x",
            Arc::new(Float64Array::from(vec![4.0, 0.0, 5.0, 6.0])),
        ),
        (
            "[CameraBoxComponent].box.size.y",
            Arc::new(Float64Array::from(vec![7.0, 0.0, 8.0, 9.0])),
        ),
        (
            "[CameraBoxComponent].type",
            Arc::new(Int32Array::from(vec![1, 2, 4, 9])),
        ),
    ]);
    let one = fusion::read_boxes(&table, Some(1)).unwrap();
    assert_eq!(
        one.iter().map(|found| found.id.as_str()).collect::<Vec<_>>(),
        vec!["a", "d"]
    );
    assert_eq!(one[1].center_x, (30.0f64).to_bits());
    assert_eq!(one[1].height, (9.0f64).to_bits());
    let mut boxes = BoxIndex::new();
    for found in fusion::read_boxes(&table, None).unwrap() {
        let timestamp = found.timestamp;
        boxes.add(timestamp, found.into_detection(1, 2));
    }
    let first = boxes.at(1);
    assert_eq!((first.len(), boxes.at(2).len(), boxes.at(3).len()), (2, 1, 0));
    assert_eq!((first[0].kind, first[1].kind), ("vehicle", "unknown"));
    assert_eq!(boxes.at(2)[0].kind, "cyclist");
    assert_eq!((first[0].x, first[0].y), (1, 2));
    assert!(first[0].score.is_none() && first[0].depth_m.is_none());

    let near = |center: u64, size: u64| {
        (f64::from_bits(center) - f64::from_bits(size) / 2.0).to_bits()
    };
    let mut whole = BoxIndex::new();
    assert!(index::read_all_boxes(&mut whole, &table, near).is_ok());
    let first = whole.at(1);
    assert_eq!((first.len(), whole.at(2).len(), whole.at(3).len()), (2, 1, 0));
    assert_eq!((first[0].id.as_str(), first[1].id.as_str()), ("a", "d"));
    assert_eq!((first[0].x, first[0].y), ((8.0f64).to_bits(), (-2.5f64).to_bits()));
    assert_eq!((first[1].x, first[1].y), ((27.0f64).to_bits(), (-1.5f64).to_bits()));
    for (found, placed) in fusion::read_boxes(&table, Some(1)).unwrap().iter().zip(&first) {
        assert_eq!((found.id.as_str(), found.kind), (placed.id.as_str(), placed.kind));
        assert_eq!(near(found.center_x, found.width), placed.x);
    }
    assert!(index::read_all_boxes(&mut whole, &table, near).is_ok());
    let twice: Vec<String> = whole.at(1).into_iter().map(|found| found.id).collect();
    assert_eq!(twice, vec!["a", "d", "a", "d"]);
}

fn load(sensor: SensorId, numbers: ArrayRef) -> (Result<(), LoadError>, Vec<Measurement>) {
    let rows = numbers.len() as i64;
    let table = batch(vec![
        times((0..rows).map(|row| 1_000 + row).collect()),
        ("key.camera_name", numbers.clone()),
        ("key.laser_name", numbers),
    ]);
    let mut loader = ComponentLoader::open(table.schema(), sensor).unwrap();
    let mut loaded = Vec::new();
    let result = loader.load_batch(&table, 7, &mut loaded);
    assert_eq!(loader.sequence, loaded.len() as u64);
    (result, loaded)
}

#[test]
fn measurements_are_the_rows_of_one_sensor() {
    let sensor = SensorId::Camera(CameraName::FrontRight);
    let columns: Vec<ArrayRef> = vec![
        Arc::new(Int8Array::from(vec![3, 1, 3])),
        Arc::new(Int16Array::from(vec![3, 1, 3])),
        Arc::new(Int32Array::from(vec![3, 1, 3])),
        Arc::new(Int64Array::from(vec![3, 1, 3])),
        Arc::new(UInt8Array::from(vec![3, 1, 3])),
        Arc::new(UInt16Array::from(vec![3, 1, 3])),
        Arc::new(UInt32Array::from(vec![3, 1, 3])),
        Arc::new(UInt64Array::from(vec![3, 1, 3])),
    ];
    for numbers in columns {
        let (result, loaded) = load(sensor, numbers);
        assert_eq!(result, Ok(()));
        assert_eq!(loaded.len(), 2);
        for (sequence, measurement) in loaded.iter().enumerate() {
            assert_eq!(measurement.sensor, sensor);
            assert_eq!(measurement.sequence, sequence as u64);
            assert_eq!(
                measurement.sensor_timestamp_ns,
                (1_000 + 2 * sequence as i64) * 1_000
            );
            assert_eq!(measurement.payload.num_rows(), 1);
            assert_eq!(
                columns::int64(&measurement.payload, "key.frame_timestamp_micros").unwrap(),
                vec![1_000 + 2 * sequence as i64]
            );
            assert_eq!((measurement.due_at, measurement.enqueued_at), (7, 7));
        }
    }
}

#[test]
fn sensors_that_cannot_be_read_are_refused() {
    let sensor = SensorId::Lidar(LidarName::Top);
    let (result, loaded) = load(
        sensor,
        Arc::new(Int8Array::from(vec![Some(1), Some(2), None, Some(1)])),
    );
    assert_eq!(result, Err(LoadError::NullSensor(2)));
    assert_eq!(loaded.len(), 1);
    let (result, _) = load(sensor, Arc::new(UInt64Array::from(vec![1, u64::MAX])));
    assert_eq!(result, Err(LoadError::SensorOutOfRange));
    let (result, _) = load(sensor, Arc::new(Float32Array::from(vec![1.0])));
    assert_eq!(result, Err(LoadError::SensorType));
    let table = batch(vec![
        ("key.frame_timestamp_micros", Arc::new(Int32Array::from(vec![1]))),
        ("key.laser_name", Arc::new(Int8Array::from(vec![1]))),
    ]);
    let mut loader = ComponentLoader::open(table.schema(), sensor).unwrap();
    assert_eq!(
        loader.load_batch(&table, 0, &mut Vec::new()),
        Err(LoadError::TimestampType)
    );
}

#[test]
fn missing_columns_are_named() {
    let table = batch(vec![
        times(vec![1]),
        ("key.laser_name", Arc::new(Int8Array::from(vec![1]))),
    ]);
    let error = match ComponentLoader::open(table.schema(), SensorId::Camera(CameraName::Front)) {
        Err(error) => error,
        Ok(_) => panic!("there is no camera column"),
    };
    assert_eq!(error.name, "key.camera_name");
    assert_eq!(
        error.available,
        vec!["key.frame_timestamp_micros", "key.laser_name"]
    );
    let other = batch(vec![(
        "key.laser_name",
        Arc::new(Int8Array::from(vec![1])),
    )]);
    assert!(matches!(
        ComponentLoader::open(other.schema(), SensorId::Lidar(LidarName::Top)),
        Err(error) if error.name == "key.frame_timestamp_micros"
    ));
}

#[test]
fn rows_of_struct_columns_keep_their_columns() {
    let inner: ArrayRef = Arc::new(UInt64Array::from(vec![5, 6, 7]));
    let fields = vec![Field::new("inner", inner.data_type().clone(), false)];
    let outer: ArrayRef = Arc::new(StructArray::new(fields.into(), vec![inner], None));
    let table = batch(vec![times(vec![1, 2, 3]), ("outer", outer)]);
    let row = table.row(2);
    assert_eq!(row.num_rows(), 1);
    assert_eq!(wire::u64_col(&row.columns()[1], "inner").unwrap(), 7);
    let last = row.row(0);
    assert_eq!(wire::u64_col(&last.columns()[1], "inner").unwrap(), 7);
}

#[test]
fn timestamps_saturate() {
    let table = batch(vec![
        times(vec![i64::MAX, i64::MIN]),
        ("key.laser_name", Arc::new(Int8Array::from(vec![1, 1]))),
    ]);
    let mut loader =
        ComponentLoader::open(table.schema(), SensorId::Lidar(LidarName::Top)).unwrap();
    let mut loaded = Vec::new();
    loader.load_batch(&table, 0, &mut loaded).unwrap();
    assert_eq!(loaded[0].sensor_timestamp_ns, i64::MAX);
    assert_eq!(loaded[1].sensor_timestamp_ns, i64::MIN);
}

#[test]
fn replay_goes_by_time_and_then_by_sensor() {
    let (_, mut all) = load(
        SensorId::Lidar(LidarName::Top),
        Arc::new(Int8Array::from(vec![1, 1])),
    );
    let (_, cameras) = load(
        SensorId::Camera(CameraName::Front),
        Arc::new(Int8Array::from(vec![1, 1])),
    );
    all.extend(cameras);
    let sorted = measurement::order_measurements(all);
    let keys: Vec<(i64, String)> = sorted
        .iter()
        .map(|m| (m.sensor_timestamp_ns, m.sensor.to_text()))
        .collect();
    assert_eq!(
        keys,
        vec![
            (1_000_000, "camera:front".to_owned()),
            (1_000_000, "lidar:top".to_owned()),
            (1_001_000, "camera:front".to_owned()),
            (1_001_000, "lidar:top".to_owned()),
        ]
    );
}

#[test]
fn measurements_are_encoded_and_checksummed() {
    let (_, loaded) = load(
        SensorId::Lidar(LidarName::Top),
        Arc::new(Int8Array::from(vec![2, 1])),
    );
    assert!(loaded[0].payload.can_encode());
    let encoded = loaded[0].encode_ipc().unwrap();
    let mut reader = StreamReader::try_new(encoded.as_slice(), None).unwrap();
    let read = reader.next().unwrap().unwrap();
    assert_eq!((read.num_rows(), read.num_columns()), (1, 3));
    let timestamps = read.column(0).as_any().downcast_ref::<Int64Array>().unwrap();
    assert_eq!(timestamps.value(0), 1_001);
    let delivery = loaded[0].deliver(57).unwrap();
    assert_eq!(delivery.bytes, encoded.len() as u64);
    assert_eq!(delivery.checksum, crc32fast::hash(&encoded));
    assert_eq!((delivery.queue_wait, delivery.age), (50, 50));
    let check = loaded[0].delivery(3, b"123456789");
    assert_eq!((check.checksum, check.bytes, check.age), (0xcbf4_3926, 9, 0));
}

#[test]
fn schemas_beyond_the_format_are_told_apart() {
    let name = "n".repeat(0x100_0000);
    let number: ArrayRef = Arc::new(Int64Array::from(vec![1]));
    assert!(!batch(vec![(name.as_str(), number.clone())]).can_encode());
    let inner = Field::new(name.as_str(), number.data_type().clone(), true);
    let outer: ArrayRef = Arc::new(StructArray::new(vec![inner].into(), vec![number.clone()], None));
    assert!(!batch(vec![("outer", outer)]).can_encode());
    assert!(batch(vec![("a", number)]).can_encode());
}

#[test]
fn component_paths_are_joined() {
    assert_eq!(
        fusion::component_path("data", "training", "lidar", "7_1"),
        "data/training/lidar/7_1.parquet"
    );
    assert_eq!(
        fusion::component_path("data/", "/root", "lidar", "s"),
        "/root/lidar/s.parquet"
    );
    assert_eq!(
        fusion::component_path("", "split", "lidar", "s"),
        "split/lidar/s.parquet"
    );
}

#[test]
fn pushes_are_accounted_for() {
    let sensor = SensorId::Lidar(LidarName::Top);
    let (_, loaded) = load(sensor, Arc::new(Int8Array::from(vec![1, 1, 1])));
    let mut queue = BoundedQueue::new(2, QueuePolicy::DropOldest);
    let mut run = RunMetrics::default();
    for measurement in loaded {
        let result = queue.push(measurement);
        assert!(producer::record_push(&mut run, sensor, result));
    }
    let delivered = queue.pop().unwrap();
    assert_eq!(delivered.sequence, 1);
    run.for_sensor(sensor)
        .record_delivered(delivered.deliver(9).unwrap(), 9);
    let row = &run.summary()[0];
    assert_eq!((row.accepted, row.delivered, row.dropped), (3, 1, 1));
    assert_eq!(row.max_depth, 2);
    assert!(!producer::record_push(&mut run, sensor, PushResult::Closed));
    assert_eq!(run.summary()[0].accepted, 3);
    assert!(run.csv_rows()[0].starts_with("lidar:top,0,dropped,1000000,0,0,0,0,00000000"));
}
