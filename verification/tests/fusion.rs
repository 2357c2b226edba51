use pipes_rs::demo;
use pipes_rs::frames::{Calibration, LidarFrame};
use pipes_rs::fusion::{self, Detection, FarCorner, Point};
use pipes_rs::pipeline::{self, CameraOutput, FrameTimes, LidarOutput};
use pipes_rs::pointcloud::{self, Beam, ConvertError, LidarReturn, Position};
use pipes_rs::table::Batch;
use arrow::array::{Array, Float32Array, Float64Array, Int8Array, StringArray};

fn bits32(values: &[f32]) -> Vec<u32> {
    values.iter().map(|value| value.to_bits()).collect()
}

fn frame(values: &[f32], shape: [usize; 3]) -> LidarFrame {
    LidarFrame {
        timestamp: 123,
        values: bits32(values),
        shape,
    }
}

fn calibration(inclinations: &[f64]) -> Calibration {
    let transform: [f64; 16] = [
        1.0, 0.0, 0.0, 1.0, 0.0, 1.0, 0.0, 2.0, 0.0, 0.0, 1.0, 3.0, 0.0, 0.0, 0.0, 1.0,
    ];
    Calibration {
        extrinsic: transform.map(f64::to_bits),
        inclination_min: (0.0f64).to_bits(),
        inclination_max: (0.0f64).to_bits(),
        inclinations: inclinations.iter().map(|value| value.to_bits()).collect(),
    }
}

fn locate(calibration: &Calibration, width: usize, found: LidarReturn, beam: Beam) -> Position {
    let transform = calibration.extrinsic.map(f64::from_bits);
    let inclination = match beam {
        Beam::Given(bits) => f64::from_bits(bits),
        Beam::Step(_) => panic!("the table gives every beam"),
    };
    let correction = transform[1].atan2(transform[0]);
    let range = f32::from_bits(found.range) as f64;
    let azimuth = ((width as f64 - found.column as f64 - 0.5) / width as f64 * 2.0 - 1.0)
        * std::f64::consts::PI
        - correction;
    let sensor = [
        azimuth.cos() * inclination.cos() * range,
        azimuth.sin() * inclination.cos() * range,
        inclination.sin() * range,
    ];
    let along = |row: usize| {
        (transform[row] * sensor[0]
            + transform[row + 1] * sensor[1]
            + transform[row + 2] * sensor[2]
            + transform[row + 3]) as f32
    };
    Position {
        x: along(0).to_bits(),
        y: along(4).to_bits(),
        z: along(8).to_bits(),
    }
}

#[test]
fn converts_valid_ranges_to_an_arrow_point_cloud() {
    let lidar = frame(&[10.0, 0.5, 0.1, 0.0, 0.0, 0.2, 0.3, 0.0], [1, 2, 4]);
    let projection = frame(
        &[
            1.0, 100.0, 200.0, 0.0, 0.0, 0.0, 1.0, 120.0, 220.0, 0.0, 0.0, 0.0,
        ],
        [1, 2, 6],
    );
    let calibration = calibration(&[0.0]);

    let cloud = pointcloud::convert_top_lidar(&lidar, &projection, &calibration, |found, beam| {
        locate(&calibration, 2, found, beam)
    })
    .unwrap();
    assert_eq!(cloud.points.len(), 1, "zero ranges must be discarded");
    assert_eq!(cloud.batch.num_rows(), 1);
    assert_eq!(cloud.batch.num_columns(), 9);
    assert_eq!(cloud.points[0].camera, 1);
    assert_eq!(
        (
            f32::from_bits(cloud.points[0].u),
            f32::from_bits(cloud.points[0].v)
        ),
        (100.0, 200.0)
    );
    assert!(f32::from_bits(cloud.points[0].x).is_finite());
    assert!(f32::from_bits(cloud.points[0].y).is_finite());
    assert_eq!(f32::from_bits(cloud.points[0].z), 3.0);
    assert_eq!(
        cloud.batch.schema().metadata().get("coordinate_frame"),
        Some(&"vehicle".to_owned())
    );
}

fn column(batch: &Batch, at: usize) -> arrow::array::ArrayRef {
    batch.columns()[at].array.clone()
}

#[test]
fn point_tables_hold_the_points() {
    let points = vec![point(1.0, 2.0, 3.0), point(4.0, 5.0, 6.0)];
    let batch = pointcloud::point_batch(&points).unwrap();
    let names: Vec<String> = batch
        .schema()
        .fields()
        .iter()
        .map(|field| format!("{} {} {}", field.name(), field.data_type(), field.is_nullable()))
        .collect();
    assert_eq!(
        names,
        vec![
            "x Float32 false",
            "y Float32 false",
            "z Float32 false",
            "range Float32 false",
            "intensity Float32 false",
            "elongation Float32 false",
            "front_camera Int8 false",
            "front_u Float32 false",
            "front_v Float32 false",
        ]
    );
    let metadata = batch.schema().metadata();
    assert_eq!(metadata.len(), 3);
    assert_eq!(metadata["source"], "waymo_top_lidar_return1");
    assert_eq!(metadata["motion_compensated"], "false");
    let ranges = column(&batch, 3);
    let ranges = ranges.as_any().downcast_ref::<Float32Array>().unwrap();
    assert_eq!(ranges.values().to_vec(), vec![1.0, 4.0]);
    let cameras = column(&batch, 6);
    let cameras = cameras.as_any().downcast_ref::<Int8Array>().unwrap();
    assert_eq!(cameras.values().to_vec(), vec![1, 1]);
    let v = column(&batch, 8);
    let v = v.as_any().downcast_ref::<Float32Array>().unwrap();
    assert_eq!(v.values().to_vec(), vec![3.0, 6.0]);
    assert_eq!(pointcloud::point_batch(&[]).unwrap().num_rows(), 0);
}

#[test]
fn images_with_too_few_channels_are_refused() {
    let calibration = calibration(&[0.0]);
    let place = |_: LidarReturn, _: Beam| Position { x: 0, y: 0, z: 0 };
    let few = frame(&[1.0, 1.0, 1.0], [1, 1, 3]);
    let enough = frame(&[1.0, 1.0, 1.0, 1.0], [1, 1, 4]);
    assert!(matches!(
        pointcloud::convert_top_lidar(&few, &few, &calibration, place),
        Err(ConvertError::LidarChannels)
    ));
    assert!(matches!(
        pointcloud::convert_top_lidar(&enough, &enough, &calibration, place),
        Err(ConvertError::ProjectionChannels)
    ));
}

#[test]
fn returns_take_the_front_camera_from_either_triple() {
    let lidar = frame(
        &[
            5.0, 0.1, 0.2, 0.0, 6.0, 0.3, 0.4, 0.0, f32::NAN, 0.0, 0.0, 0.0, -1.0, 0.0, 0.0, 0.0,
        ],
        [2, 2, 4],
    );
    let projection = frame(
        &[
            3.0, 9.0, 9.0, 1.9, 7.0, 8.0, 0.0, 9.0, 9.0, 2.0, 9.0, 9.0, 0.0, 0.0, 0.0, 0.0, 0.0,
            0.0, 0.0, 0.0, 0.0, 0.0, 0.0, 0.0,
        ],
        [2, 2, 6],
    );
    assert!(pointcloud::can_convert(&lidar, &projection));
    assert!(pointcloud::same_grid(&lidar, &projection));
    let found = pointcloud::lidar_returns(&lidar, &projection).unwrap();
    assert_eq!(found.len(), 2);
    assert_eq!((found[0].row, found[0].column, found[0].camera), (0, 0, 1));
    assert_eq!((found[0].u, found[0].v), ((7.0f32).to_bits(), (8.0f32).to_bits()));
    assert_eq!((found[1].row, found[1].column, found[1].camera), (0, 1, 0));
    assert_eq!((found[1].u, found[1].v), ((-1.0f32).to_bits(), (-1.0f32).to_bits()));
    assert_eq!(found[1].elongation, (0.4f32).to_bits());
}

#[test]
fn grids_that_do_not_reach_cannot_be_converted() {
    let lidar = frame(&[5.0, 0.1, 0.2, 0.0, 6.0, 0.3, 0.4, 0.0], [1, 2, 4]);
    let short = frame(&[1.0, 2.0, 3.0, 0.0, 0.0, 0.0, 0.0, 2.0, 3.0], [1, 1, 6]);
    assert!(!pointcloud::can_convert(&lidar, &short));
    assert!(!pointcloud::same_grid(&lidar, &short));
    let enough = frame(&[1.0, 2.0, 3.0, 0.0, 0.0, 0.0, 1.0, 2.0, 3.0], [1, 1, 6]);
    assert!(pointcloud::can_convert(&lidar, &enough));
    let hollow = frame(&[1.0, 2.0, 3.0, 0.0], [2, 1, 4]);
    assert!(!pointcloud::can_convert(&hollow, &enough));
}

#[test]
fn beams_run_from_the_highest_down() {
    let table = calibration(&[0.1, 0.2, 0.3]);
    assert_eq!(pointcloud::beam(&table, 3, 0), Beam::Given((0.3f64).to_bits()));
    assert_eq!(pointcloud::beam(&table, 3, 2), Beam::Given((0.1f64).to_bits()));
    assert_eq!(pointcloud::beam(&table, 4, 0), Beam::Step(3));
    assert_eq!(pointcloud::beam(&table, 4, 3), Beam::Step(0));
}

fn point(range: f32, u: f32, v: f32) -> Point {
    Point {
        x: 0,
        y: 0,
        z: 0,
        range: range.to_bits(),
        intensity: 0,
        elongation: 0,
        camera: 1,
        u: u.to_bits(),
        v: v.to_bits(),
    }
}

fn detection(id: &str, kind: &'static str, x: f64, y: f64, width: f64, height: f64) -> Detection {
    Detection {
        id: id.to_owned(),
        kind,
        x: x.to_bits(),
        y: y.to_bits(),
        width: width.to_bits(),
        height: height.to_bits(),
        depth_m: None,
        depth_points: 0,
        score: None,
    }
}

fn far(detection: &Detection) -> FarCorner {
    let get = f64::from_bits;
    FarCorner {
        right: (get(detection.x) + get(detection.width)).to_bits(),
        bottom: (get(detection.y) + get(detection.height)).to_bits(),
    }
}

#[test]
fn depth_is_the_median_of_the_points_in_a_box() {
    let mut detections = vec![
        detection("a", "vehicle", 0.0, 0.0, 10.0, 10.0),
        detection("b", "sign", 100.0, 100.0, 1.0, 1.0),
    ];
    let mut elsewhere = point(1.0, 5.0, 5.0);
    elsewhere.camera = 2;
    let points = vec![
        point(30.0, 5.0, 5.0),
        point(10.0, 0.0, 10.0),
        point(20.0, 10.0, 0.0),
        point(40.0, 1.0, 1.0),
        point(5.0, 10.1, 5.0),
        point(f32::INFINITY, 5.0, 5.0),
        elsewhere,
    ];
    let corners: Vec<FarCorner> = detections.iter().map(far).collect();
    fusion::add_depths(&mut detections, &corners, &points);
    assert_eq!(detections[0].depth_points, 4);
    assert_eq!(detections[0].depth_m, Some((30.0f32).to_bits()));
    assert_eq!(detections[1].depth_points, 0);
    assert_eq!(detections[1].depth_m, None);
    assert_eq!(pipeline::count_with_depth(&detections), 1);

    fusion::add_depths(&mut detections, &corners, &points);
    assert_eq!(detections[0].depth_points, 4);
    let reversed: Vec<Point> = points.iter().rev().copied().collect();
    fusion::add_depths(&mut detections, &corners, &reversed);
    assert_eq!(detections[0].depth_points, 4);
    assert_eq!(detections[0].depth_m, Some((30.0f32).to_bits()));
    assert_eq!(detections[1].depth_m, None);
}

#[test]
fn a_depth_of_zero_keeps_a_sign() {
    let boxes = || vec![detection("a", "vehicle", 0.0, 0.0, 10.0, 10.0)];
    let points = [point(-0.0, 5.0, 5.0), point(0.0, 5.0, 5.0)];
    let corners: Vec<FarCorner> = boxes().iter().map(far).collect();
    let mut one = boxes();
    fusion::add_depths(&mut one, &corners, &points);
    assert_eq!(one[0].depth_m, Some((0.0f32).to_bits()));
    let mut other = boxes();
    fusion::add_depths(&mut other, &corners, &[points[1], points[0]]);
    assert_eq!(other[0].depth_m, Some((-0.0f32).to_bits()));
}

#[test]
fn predictions_match_the_best_box_of_their_kind() {
    let predictions = vec![
        detection("p0", "vehicle", 0.0, 0.0, 1.0, 1.0),
        detection("p1", "vehicle", 0.0, 0.0, 1.0, 1.0),
        detection("p2", "sign", 0.0, 0.0, 1.0, 1.0),
    ];
    let truths = vec![
        detection("t0", "vehicle", 0.0, 0.0, 1.0, 1.0),
        detection("t1", "vehicle", 0.0, 0.0, 1.0, 1.0),
        detection("t2", "cyclist", 0.0, 0.0, 1.0, 1.0),
    ];
    let rows = |values: [[f64; 3]; 3]| -> Vec<Vec<u64>> {
        values
            .iter()
            .map(|row| row.iter().map(|value| value.to_bits()).collect())
            .collect()
    };
    let overlaps = rows([[0.6, 0.9, 1.0], [0.4, 0.9, 1.0], [1.0, 1.0, 1.0]]);
    assert_eq!(
        fusion::evaluate_detections(&predictions, &truths, &overlaps, fusion::MATCH_THRESHOLD),
        (1, 2, 2)
    );
    let overlaps = rows([[0.9, 0.6, 1.0], [0.4, 0.5, 1.0], [1.0, 1.0, 1.0]]);
    assert_eq!(
        fusion::evaluate_detections(&predictions, &truths, &overlaps, fusion::MATCH_THRESHOLD),
        (2, 1, 1)
    );
    assert_eq!(
        fusion::evaluate_detections(&[], &truths, &[], fusion::MATCH_THRESHOLD),
        (0, 0, 3)
    );
}

#[test]
fn detection_tables_hold_the_detections() {
    let mut scored = detection("b", "sign", 1.0, 2.0, 3.0, 4.0);
    scored.score = Some((0.75f32).to_bits());
    let detections = vec![detection("a", "vehicle", 5.0, 6.0, 7.0, 8.0), scored];
    let batch = fusion::detection_batch(&detections).unwrap();
    assert_eq!((batch.num_rows(), batch.num_columns()), (2, 7));
    assert_eq!(
        batch.schema().metadata()["coordinate_frame"],
        "front_camera_pixels"
    );
    let ids = column(&batch, 0);
    let ids = ids.as_any().downcast_ref::<StringArray>().unwrap();
    assert_eq!((ids.value(0), ids.value(1)), ("a", "b"));
    let kinds = column(&batch, 1);
    let kinds = kinds.as_any().downcast_ref::<StringArray>().unwrap();
    assert_eq!((kinds.value(0), kinds.value(1)), ("vehicle", "sign"));
    let scores = column(&batch, 2);
    let scores = scores.as_any().downcast_ref::<Float32Array>().unwrap();
    assert!(scores.is_null(0));
    assert_eq!(scores.value(1), 0.75);
    let heights = column(&batch, 6);
    let heights = heights.as_any().downcast_ref::<Float64Array>().unwrap();
    assert_eq!(heights.values().to_vec(), vec![8.0, 4.0]);
    assert!(batch.schema().field(2).is_nullable());
    assert!(!batch.schema().field(0).is_nullable());
}

#[test]
fn object_types_have_names() {
    let names: Vec<&str> = (0..6).map(fusion::object_type).collect();
    assert_eq!(
        names,
        vec!["unknown", "vehicle", "pedestrian", "sign", "cyclist", "unknown"]
    );
}

fn camera(timestamp: i64) -> CameraOutput {
    CameraOutput {
        timestamp,
        image_width: 1920,
        image_height: 1280,
        image_checksum: 0xabc,
        detections: vec![detection("a", "vehicle", 0.0, 0.0, 10.0, 10.0)],
        ground_truth: vec![detection("t", "vehicle", 0.0, 0.0, 10.0, 10.0)],
        inference_ns: 5,
        stage_ns: 6,
    }
}

fn lidar(timestamp: i64) -> LidarOutput {
    LidarOutput {
        timestamp,
        points: vec![point(30.0, 5.0, 5.0), point(31.0, 50.0, 5.0)],
        stage_ns: 7,
    }
}

const TIMES: FrameTimes = FrameTimes {
    camera_queue_wait_ns: 8,
    lidar_queue_wait_ns: 9,
    fusion_ns: 10,
    end_to_end_ns: 11,
};

#[test]
fn synchronized_frames_are_fused_and_reported() {
    let mut front = camera(100);
    let corners: Vec<FarCorner> = front.detections.iter().map(far).collect();
    assert!(pipeline::fuse(&mut front, &corners, &lidar(100)));
    let overlaps = vec![vec![(1.0f64).to_bits()]];
    let report = pipeline::report_frame(
        3,
        &front,
        &lidar(100),
        &overlaps,
        fusion::MATCH_THRESHOLD,
        TIMES,
    );
    assert_eq!(
        report.csv_row(),
        "3,100,delivered,1920,1280,00000abc,2,1,1,1,0,0,1,6,5,7,8,9,0,10,11"
    );
    let mut summary = pipeline::empty_summary();
    assert!(summary.can_record(&report));
    summary.record(&report);
    summary.record(&report);
    assert_eq!((summary.frames, summary.points, summary.detections), (2, 4, 2));
    assert_eq!(
        (
            summary.depth_matched,
            summary.true_positives,
            summary.false_positives,
            summary.false_negatives
        ),
        (2, 2, 0, 0)
    );
}

#[test]
fn unsynchronized_frames_get_no_depth() {
    let mut front = camera(100);
    let corners: Vec<FarCorner> = front.detections.iter().map(far).collect();
    assert!(!pipeline::fuse(&mut front, &corners, &lidar(130)));
    assert_eq!(front.detections[0].depth_m, None);
    let overlaps = vec![vec![(0.49f64).to_bits()]];
    let report = pipeline::report_frame(
        0,
        &front,
        &lidar(130),
        &overlaps,
        fusion::MATCH_THRESHOLD,
        TIMES,
    );
    assert_eq!(
        report.csv_row(),
        "0,100,unsynchronized,1920,1280,00000abc,2,1,1,0,1,1,0,6,5,7,8,9,30000,10,11"
    );
}

#[test]
fn single_sensor_frames_are_reported() {
    let overlaps = vec![vec![(1.0f64).to_bits()]];
    let report =
        pipeline::report_camera_frame(4, &camera(9), &overlaps, fusion::MATCH_THRESHOLD, 2, 12);
    assert_eq!(
        report.csv_row(),
        "4,9,delivered,1920,1280,00000abc,0,1,1,1,0,0,0,6,5,0,2,0,0,0,12"
    );
    let report = pipeline::report_lidar_frame(5, &lidar(9), 3, 13);
    assert_eq!(
        report.csv_row(),
        "5,9,delivered,0,0,00000000,2,0,0,0,0,0,0,0,0,7,0,3,0,0,13"
    );
}

#[test]
fn report_header_names_the_columns() {
    assert_eq!(
        pipeline::perception_header(),
        "frame,timestamp_micros,status,camera_width,camera_height,camera_checksum,points,detections,ground_truth,true_positives,false_positives,false_negatives,depth_matched,camera_stage_ns,inference_ns,lidar_stage_ns,camera_queue_wait_ns,lidar_queue_wait_ns,sync_skew_ns,fusion_ns,end_to_end_ns"
    );
}

fn placed(x: f32, y: f32) -> Point {
    let mut point = point(1.0, 2.0, 3.0);
    point.x = x.to_bits();
    point.y = y.to_bits();
    point
}

#[test]
fn demo_draws_what_is_in_view() {
    let points = vec![
        placed(-30.0, 50.0),
        placed(-30.1, 0.0),
        placed(80.0, -50.0),
        placed(80.1, 0.0),
        placed(0.0, 50.1),
        placed(0.0, -50.1),
        placed(f32::NAN, 0.0),
        placed(0.0, f32::NAN),
    ];
    let drawn = demo::downsample_for_render(&points);
    assert_eq!(drawn.len(), 2);
    assert_eq!((drawn[0].x, drawn[0].y), (points[0].x, points[0].y));
    assert_eq!((drawn[1].x, drawn[1].v), (points[2].x, points[2].v));
}

#[test]
fn demo_draws_no_more_than_its_limit() {
    for (count, expected) in [(0, 0), (1, 1), (18_000, 18_000), (18_001, 9_001), (40_000, 13_334)] {
        let points: Vec<Point> = (0..count).map(|i| placed((i % 50) as f32, 0.0)).collect();
        let drawn = demo::downsample_for_render(&points);
        assert_eq!(drawn.len(), expected);
    }
}

#[test]
fn demo_page_holds_the_picture_and_the_data() {
    let page = demo::render_page(
        "<img src=\"__CAMERA_JPEG__\"><script>__DEMO_PAYLOAD__</script>__CAMERA_JPEG__",
        &[0xff, 0xd8, 0xff, 0xe0, 0x01],
        "{\"a\":1}",
    );
    assert_eq!(
        page,
        "<img src=\"/9j/4AE=\"><script>{\"a\":1}</script>/9j/4AE="
    );
    assert_eq!(demo::render_page("__CAMERA_JPEG__", b"Man", ""), "TWFu");
    assert_eq!(demo::render_page("__CAMERA_JPEG__", b"M", ""), "TQ==");
    assert_eq!(demo::render_page("__CAMERA_JPEG__", b"", ""), "");
}

#[test]
fn demo_summary_counts_boxes_with_depth() {
    let mut deep = detection("a", "sign", 0.0, 0.0, 1.0, 1.0);
    deep.depth_m = Some(1);
    let boxes = vec![deep, detection("b", "sign", 0.0, 0.0, 1.0, 1.0)];
    let summary =
        demo::summarize_demo("a.html".to_owned(), "a.arrow".to_owned(), 77, 12, &boxes);
    assert_eq!((summary.html.as_str(), summary.arrow.as_str()), ("a.html", "a.arrow"));
    assert_eq!((summary.timestamp_micros, summary.points), (77, 12));
    assert_eq!((summary.boxes, summary.boxes_with_depth), (2, 1));
}

#[test]
fn totals_say_when_they_are_full() {
    let mut summary = pipeline::empty_summary();
    summary.points = usize::MAX - 1;
    let report = pipeline::report_lidar_frame(0, &lidar(100), 0, 0);
    assert_eq!(report.points, 2);
    assert!(!summary.can_record(&report));
    summary.points = usize::MAX - 2;
    assert!(summary.can_record(&report));
    summary.frames = usize::MAX;
    assert!(!summary.can_record(&report));
}

#[test]
fn setup_times_have_a_line_each() {
    assert_eq!(
        pipeline::setup_report(12, 0),
        "camera_setup_ns=12\nlidar_setup_ns=0\n"
    );
}
