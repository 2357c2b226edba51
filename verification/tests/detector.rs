use image::{DynamicImage, Rgb, RgbImage};
use pipes_rs::detector::{self, Anchor, Guess, OutputShapeError, Prediction, Thresholds};
use pipes_rs::picture;
use pipes_rs::pipeline;
use pipes_rs::fusion::Detection;

const ROWS: usize = 3549;

fn output() -> Vec<f32> {
    vec![0.0; ROWS * 85]
}

fn see(raw: &mut [f32], row: usize, class: usize, object: f32, score: f32) {
    raw[row * 85 + 4] = object;
    raw[row * 85 + 5 + class] = score;
}

fn bits(raw: &[f32]) -> Vec<u32> {
    raw.iter().map(|value| value.to_bits()).collect()
}

fn thresholds(confidence: f32, nms: f32) -> Thresholds {
    Thresholds::new(confidence.to_bits(), nms.to_bits()).unwrap()
}

#[test]
fn thresholds_are_shares() {
    assert!(Thresholds::new((0.0f32).to_bits(), (1.0f32).to_bits()).is_some());
    assert!(Thresholds::new((-0.0f32).to_bits(), (0.5f32).to_bits()).is_some());
    for (confidence, nms) in [(-0.1, 0.5), (0.5, 1.1), (f32::NAN, 0.5), (0.5, f32::NAN)] {
        assert!(Thresholds::new(confidence.to_bits(), nms.to_bits()).is_none());
    }
}

#[test]
fn classes_are_kept_by_object_type() {
    let kinds: Vec<Option<&str>> = (0..13).map(detector::waymo_kind).collect();
    assert_eq!(
        kinds,
        vec![
            Some("pedestrian"),
            Some("cyclist"),
            Some("vehicle"),
            Some("cyclist"),
            None,
            Some("vehicle"),
            None,
            Some("vehicle"),
            None,
            None,
            None,
            Some("sign"),
            None,
        ]
    );
}

#[test]
fn anchors_walk_the_three_grids() {
    let mut raw = output();
    for (row, class) in [(0, 2), (53, 0), (2704, 11), (3380, 7), (3548, 1)] {
        see(&mut raw, row, class, 1.0, 0.5);
    }
    let found = detector::anchors(&bits(&raw)).unwrap();
    let anchor = |row, stride, gx, gy, class| Anchor {
        row,
        stride,
        gx,
        gy,
        class,
    };
    assert_eq!(
        found,
        vec![
            anchor(0, 8, 0, 0, 2),
            anchor(53, 8, 1, 1, 0),
            anchor(2704, 16, 0, 0, 11),
            anchor(3380, 32, 0, 0, 7),
            anchor(3548, 32, 12, 12, 1),
        ]
    );
}

#[test]
fn the_last_of_the_highest_classes_counts() {
    let mut raw = output();
    see(&mut raw, 0, 2, 1.0, 0.5);
    see(&mut raw, 0, 11, 1.0, 0.5);
    see(&mut raw, 1, 2, 1.0, 0.5);
    see(&mut raw, 1, 60, 1.0, 0.5);
    let found = detector::anchors(&bits(&raw)).unwrap();
    assert_eq!(found.len(), 1);
    assert_eq!((found[0].row, found[0].class), (0, 11));
}

#[test]
fn outputs_of_a_wrong_shape_are_refused() {
    assert_eq!(detector::anchors(&[0; 86]), Err(OutputShapeError));
}

fn guess(raw: &[f32], anchor: Anchor) -> Guess {
    let values = &raw[anchor.row * 85..];
    let score = values[4] * values[5 + anchor.class];
    Guess {
        score: score.to_bits(),
        x: (anchor.row as f64).to_bits(),
        y: (0.0f64).to_bits(),
        width: (10.0f64).to_bits(),
        height: (10.0f64).to_bits(),
    }
}

fn overlap(later: Prediction, earlier: Prediction) -> u32 {
    let distance = (f64::from_bits(later.x) - f64::from_bits(earlier.x)).abs();
    ((1.0 - distance / 10.0).max(0.0) as f32).to_bits()
}

#[test]
fn better_boxes_crowd_out_those_that_overlap_them() {
    let mut raw = output();
    see(&mut raw, 0, 2, 1.0, 0.6);
    see(&mut raw, 3, 2, 1.0, 0.9);
    see(&mut raw, 8, 0, 1.0, 0.8);
    see(&mut raw, 100, 1, 0.5, 0.5);
    see(&mut raw, 200, 11, 1.0, 0.8);
    let chosen = detector::read_output(
        &bits(&raw),
        thresholds(0.3, 0.45),
        |anchor| guess(&raw, anchor),
        overlap,
    )
    .unwrap();
    let seen: Vec<(&str, f32, f64)> = chosen
        .iter()
        .map(|p| (p.kind, f32::from_bits(p.score), f64::from_bits(p.x)))
        .collect();
    assert_eq!(
        seen,
        vec![
            ("vehicle", 0.9, 3.0),
            ("sign", 0.8, 200.0),
        ]
    );
    let detections = detector::detections_of(&chosen);
    assert_eq!(detections[1].id, "onnx-1");
    assert_eq!(detections[1].score, Some((0.8f32).to_bits()));
    assert_eq!(detections[1].kind, "sign");
}

#[test]
fn equal_scores_keep_their_order() {
    let mut raw = output();
    for row in [30, 10, 20] {
        see(&mut raw, row, 0, 1.0, 0.8);
    }
    let chosen = detector::read_output(
        &bits(&raw),
        thresholds(0.8, 1.0),
        |anchor| guess(&raw, anchor),
        overlap,
    )
    .unwrap();
    let places: Vec<f64> = chosen.iter().map(|p| f64::from_bits(p.x)).collect();
    assert_eq!(places, vec![10.0, 20.0, 30.0]);
}

#[test]
fn a_score_that_is_no_number_is_not_below_the_confidence() {
    let mut raw = output();
    see(&mut raw, 0, 0, f32::NAN, 0.5);
    let chosen = detector::read_output(
        &bits(&raw),
        thresholds(0.9, 0.5),
        |anchor| guess(&raw, anchor),
        overlap,
    )
    .unwrap();
    assert_eq!(chosen.len(), 1);
}

fn two_by_one() -> DynamicImage {
    let mut image = RgbImage::new(2, 1);
    image.put_pixel(0, 0, Rgb([1, 2, 3]));
    image.put_pixel(1, 0, Rgb([4, 5, 6]));
    DynamicImage::ImageRgb8(image)
}

#[test]
fn pictures_know_their_size_and_checksum() {
    let picture = picture::describe_picture(two_by_one());
    assert_eq!((picture.width, picture.height), (2, 1));
    assert_eq!(picture.checksum, crc32fast::hash(&[1, 2, 3, 4, 5, 6]));
}

#[test]
fn pictures_are_decoded_from_jpeg() {
    let mut jpeg = std::io::Cursor::new(Vec::new());
    let grey = DynamicImage::ImageRgb8(RgbImage::from_pixel(16, 8, Rgb([120, 120, 120])));
    grey.write_to(&mut jpeg, image::ImageFormat::Jpeg).unwrap();
    let picture = picture::decode_picture(&jpeg.into_inner()).unwrap();
    assert_eq!((picture.width, picture.height), (16, 8));
    assert_eq!(
        picture.checksum,
        crc32fast::hash(picture.image.to_rgb8().as_raw())
    );
    assert!(picture::decode_picture(b"no picture").is_err());
}

#[test]
fn detector_input_is_the_picture_on_grey() {
    let picture = picture::describe_picture(two_by_one());
    let input = picture::detector_input(&picture, 2, 1);
    let plane = 416 * 416;
    assert_eq!(input.len(), 3 * plane);
    assert_eq!(&input[0..3], &[3, 6, 114]);
    assert_eq!(&input[plane..plane + 3], &[2, 5, 114]);
    assert_eq!(&input[2 * plane..2 * plane + 3], &[1, 4, 114]);
    assert!(input[3..plane].iter().all(|value| *value == 114));
    let grown = picture::detector_input(
        &picture::describe_picture(DynamicImage::ImageRgb8(RgbImage::from_pixel(
            1,
            1,
            Rgb([9, 8, 7]),
        ))),
        4,
        2,
    );
    assert_eq!(&grown[0..5], &[7, 7, 7, 7, 114]);
    assert_eq!(&grown[416..421], &[7, 7, 7, 7, 114]);
    assert_eq!(grown[832], 114);
}

#[test]
fn camera_stage_falls_back_on_the_ground_truth() {
    let picture = picture::describe_picture(two_by_one());
    let truth = vec![Detection {
        id: "t".to_owned(),
        kind: "sign",
        x: 1,
        y: 2,
        width: 3,
        height: 4,
        depth_m: None,
        depth_points: 0,
        score: None,
    }];
    let output = pipeline::camera_output(5, &picture, None, truth, 77, 88);
    assert_eq!((output.inference_ns, output.stage_ns), (0, 88));
    assert_eq!(output.detections.len(), 1);
    assert_eq!(output.detections[0].id, "t");
    assert_eq!(output.ground_truth[0].height, 4);
    let predictions = vec![Prediction {
        kind: "vehicle",
        score: 1,
        x: 2,
        y: 3,
        width: 4,
        height: 5,
    }];
    let output = pipeline::camera_output(5, &picture, Some(&predictions), Vec::new(), 77, 88);
    assert_eq!(output.inference_ns, 77);
    assert_eq!(output.detections[0].id, "onnx-0");
    assert_eq!((output.image_width, output.image_height), (2, 1));
    assert_eq!(output.image_checksum, picture.checksum);
}
