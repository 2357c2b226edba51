//! Synchronized camera and LiDAR frames, and what a run over a segment reports.
use vstd::prelude::*;

use crate::detector::{self, Prediction};
use crate::fusion::{self, Detection, FarCorner, Point};
#[allow(unused_imports)]
use crate::order;
use crate::picture::Picture;
use crate::text;

verus! {

/// What the camera stage hands to fusion.
pub struct CameraOutput {
    pub timestamp: i64,
    pub image_width: u32,
    pub image_height: u32,
    pub image_checksum: u32,
    pub detections: Vec<Detection>,
    pub ground_truth: Vec<Detection>,
    pub inference_ns: u64,
    pub stage_ns: u64,
}

/// What the LiDAR stage hands to fusion.
pub struct LidarOutput {
    pub timestamp: i64,
    pub points: Vec<Point>,
    pub stage_ns: u64,
}

/// One row of the perception report. Times are in nanoseconds.
#[derive(Clone, Copy, Debug)]
pub struct FrameReport {
    pub frame: usize,
    pub timestamp: i64,
    /// The two stages met at one time.
    pub synchronized: bool,
    pub image_width: u32,
    pub image_height: u32,
    pub image_checksum: u32,
    pub points: usize,
    pub detections: usize,
    pub ground_truth: usize,
    pub true_positives: usize,
    pub false_positives: usize,
    pub false_negatives: usize,
    pub depth_matched: usize,
    pub camera_stage_ns: u64,
    pub inference_ns: u64,
    pub lidar_stage_ns: u64,
    pub camera_queue_wait_ns: u64,
    pub lidar_queue_wait_ns: u64,
    pub sync_skew_ns: u64,
    pub fusion_ns: u64,
    pub end_to_end_ns: u64,
}

/// The names of the columns of the perception report.
pub open spec fn perception_columns() -> Seq<Seq<char>> {
    seq![
        "frame"@,
        "timestamp_micros"@,
        "status"@,
        "camera_width"@,
        "camera_height"@,
        "camera_checksum"@,
        "points"@,
        "detections"@,
        "ground_truth"@,
        "true_positives"@,
        "false_positives"@,
        "false_negatives"@,
        "depth_matched"@,
        "camera_stage_ns"@,
        "inference_ns"@,
        "lidar_stage_ns"@,
        "camera_queue_wait_ns"@,
        "lidar_queue_wait_ns"@,
        "sync_skew_ns"@,
        "fusion_ns"@,
        "end_to_end_ns"@,
    ]
}

/// The first line of the perception report.
pub fn perception_header() -> (header: String)
    ensures
        header@ == text::comma_joined(perception_columns()),
{
    let mut names: Vec<String> = Vec::new();
    names.push("frame".to_owned());
    names.push("timestamp_micros".to_owned());
    names.push("status".to_owned());
    names.push("camera_width".to_owned());
    names.push("camera_height".to_owned());
    names.push("camera_checksum".to_owned());
    names.push("points".to_owned());
    names.push("detections".to_owned());
    names.push("ground_truth".to_owned());
    names.push("true_positives".to_owned());
    names.push("false_positives".to_owned());
    names.push("false_negatives".to_owned());
    names.push("depth_matched".to_owned());
    names.push("camera_stage_ns".to_owned());
    names.push("inference_ns".to_owned());
    names.push("lidar_stage_ns".to_owned());
    names.push("camera_queue_wait_ns".to_owned());
    names.push("lidar_queue_wait_ns".to_owned());
    names.push("sync_skew_ns".to_owned());
    names.push("fusion_ns".to_owned());
    names.push("end_to_end_ns".to_owned());
    assert(names@.map_values(|field: String| field@) =~= perception_columns());
    text::comma_row(&names)
}

impl FrameReport {
    pub open spec fn status(self) -> Seq<char> {
        if self.synchronized {
            "delivered"@
        } else {
            "unsynchronized"@
        }
    }

    /// The fields of the row, one for each column.
    pub open spec fn fields(self) -> Seq<Seq<char>> {
        seq![
            text::decimal(self.frame as nat),
            text::signed_decimal(self.timestamp as int),
            self.status(),
            text::decimal(self.image_width as nat),
            text::decimal(self.image_height as nat),
            text::hex(self.image_checksum as nat, 8),
            text::decimal(self.points as nat),
            text::decimal(self.detections as nat),
            text::decimal(self.ground_truth as nat),
            text::decimal(self.true_positives as nat),
            text::decimal(self.false_positives as nat),
            text::decimal(self.false_negatives as nat),
            text::decimal(self.depth_matched as nat),
            text::decimal(self.camera_stage_ns as nat),
            text::decimal(self.inference_ns as nat),
            text::decimal(self.lidar_stage_ns as nat),
            text::decimal(self.camera_queue_wait_ns as nat),
            text::decimal(self.lidar_queue_wait_ns as nat),
            text::decimal(self.sync_skew_ns as nat),
            text::decimal(self.fusion_ns as nat),
            text::decimal(self.end_to_end_ns as nat),
        ]
    }

    /// The row of the report for this frame.
    pub fn csv_row(&self) -> (row: String)
        ensures
            row@ == text::comma_joined(self.fields()),
    {
        let mut fields: Vec<String> = Vec::new();
        fields.push(text::decimal_text(self.frame as u128));
        fields.push(text::signed_text(self.timestamp));
        fields.push(
            if self.synchronized {
                "delivered".to_owned()
            } else {
                "unsynchronized".to_owned()
            },
        );
        fields.push(text::decimal_text(self.image_width as u128));
        fields.push(text::decimal_text(self.image_height as u128));
        fields.push(text::hex32_text(self.image_checksum));
        fields.push(text::decimal_text(self.points as u128));
        fields.push(text::decimal_text(self.detections as u128));
        fields.push(text::decimal_text(self.ground_truth as u128));
        fields.push(text::decimal_text(self.true_positives as u128));
        fields.push(text::decimal_text(self.false_positives as u128));
        fields.push(text::decimal_text(self.false_negatives as u128));
        fields.push(text::decimal_text(self.depth_matched as u128));
        fields.push(text::decimal_text(self.camera_stage_ns as u128));
        fields.push(text::decimal_text(self.inference_ns as u128));
        fields.push(text::decimal_text(self.lidar_stage_ns as u128));
        fields.push(text::decimal_text(self.camera_queue_wait_ns as u128));
        fields.push(text::decimal_text(self.lidar_queue_wait_ns as u128));
        fields.push(text::decimal_text(self.sync_skew_ns as u128));
        fields.push(text::decimal_text(self.fusion_ns as u128));
        fields.push(text::decimal_text(self.end_to_end_ns as u128));
        assert(fields@.map_values(|field: String| field@) =~= self.fields());
        text::comma_row(&fields)
    }
}

/// A row has a field for every column of the report.
pub proof fn law_rows_fit_the_header(report: FrameReport)
    ensures
        report.fields().len() == perception_columns().len(),
{
}

/// Totals of a run. `elapsed` is in nanoseconds.
#[derive(Clone, Copy, Debug, PartialEq, Eq, Structural)]
pub struct PerceptionSummary {
    pub frames: usize,
    pub points: usize,
    pub detections: usize,
    pub depth_matched: usize,
    pub elapsed: u128,
    pub true_positives: usize,
    pub false_positives: usize,
    pub false_negatives: usize,
}

/// A run that has seen no frame yet.
pub fn empty_summary() -> (summary: PerceptionSummary)
    ensures
        summary == (PerceptionSummary {
            frames: 0,
            points: 0,
            detections: 0,
            depth_matched: 0,
            elapsed: 0,
            true_positives: 0,
            false_positives: 0,
            false_negatives: 0,
        }),
{
    PerceptionSummary {
        frames: 0,
        points: 0,
        detections: 0,
        depth_matched: 0,
        elapsed: 0,
        true_positives: 0,
        false_positives: 0,
        false_negatives: 0,
    }
}

impl PerceptionSummary {
    /// No total overflows when the frame is added.
    pub open spec fn has_room_for(self, report: FrameReport) -> bool {
        &&& self.frames < usize::MAX
        &&& self.points + report.points <= usize::MAX
        &&& self.detections + report.detections <= usize::MAX
        &&& self.depth_matched + report.depth_matched <= usize::MAX
        &&& self.true_positives + report.true_positives <= usize::MAX
        &&& self.false_positives + report.false_positives <= usize::MAX
        &&& self.false_negatives + report.false_negatives <= usize::MAX
    }

    pub open spec fn plus(self, report: FrameReport) -> PerceptionSummary {
        PerceptionSummary {
            frames: (self.frames + 1) as usize,
            points: (self.points + report.points) as usize,
            detections: (self.detections + report.detections) as usize,
            depth_matched: (self.depth_matched + report.depth_matched) as usize,
            elapsed: self.elapsed,
            true_positives: (self.true_positives + report.true_positives) as usize,
            false_positives: (self.false_positives + report.false_positives) as usize,
            false_negatives: (self.false_negatives + report.false_negatives) as usize,
        }
    }

    /// Whether the frame can be added without an overflow.
    pub fn can_record(&self, report: &FrameReport) -> (can: bool)
        ensures
            can == self.has_room_for(*report),
    {
        self.frames < usize::MAX && report.points <= usize::MAX - self.points
            && report.detections <= usize::MAX - self.detections && report.depth_matched
            <= usize::MAX - self.depth_matched && report.true_positives <= usize::MAX
            - self.true_positives && report.false_positives <= usize::MAX - self.false_positives
            && report.false_negatives <= usize::MAX - self.false_negatives
    }

    /// Adds a frame to the totals.
    pub fn record(&mut self, report: &FrameReport)
        requires
            old(self).has_room_for(*report),
        ensures
            *final(self) == old(self).plus(*report),
    {
        self.frames = self.frames + 1;
        self.points = self.points + report.points;
        self.detections = self.detections + report.detections;
        self.depth_matched = self.depth_matched + report.depth_matched;
        self.true_positives = self.true_positives + report.true_positives;
        self.false_positives = self.false_positives + report.false_positives;
        self.false_negatives = self.false_negatives + report.false_negatives;
    }
}

/// What each stage took to set up, in nanoseconds, a line for each.
pub open spec fn setup_lines(camera_setup_ns: nat, lidar_setup_ns: nat) -> Seq<char> {
    "camera_setup_ns="@ + text::decimal(camera_setup_ns) + "\nlidar_setup_ns="@ + text::decimal(
        lidar_setup_ns,
    ) + "\n"@
}

pub fn setup_report(camera_setup_ns: u64, lidar_setup_ns: u64) -> (report: String)
    ensures
        report@ == setup_lines(camera_setup_ns as nat, lidar_setup_ns as nat),
{
    let mut report: String = "camera_setup_ns=".to_owned();
    text::push_decimal(&mut report, camera_setup_ns as u128);
    report.append("\nlidar_setup_ns=");
    text::push_decimal(&mut report, lidar_setup_ns as u128);
    report.append("\n");
    report
}

/// How far apart two times in microseconds are, in nanoseconds.
pub open spec fn skew(left: i64, right: i64) -> int {
    if left <= right {
        (right - left) * 1000
    } else {
        (left - right) * 1000
    }
}

pub fn sync_skew_ns(left: i64, right: i64) -> (ns: u64)
    requires
        skew(left, right) <= u64::MAX,
    ensures
        ns == skew(left, right),
{
    let apart: i128 = if left <= right {
        right as i128 - left as i128
    } else {
        left as i128 - right as i128
    };
    (apart * 1000) as u64
}

/// How many detections have a depth.
pub open spec fn with_depth(detections: Seq<Detection>) -> nat
    decreases detections.len(),
{
    if detections.len() == 0 {
        0
    } else if detections.last().depth_m is Some {
        with_depth(detections.drop_last()) + 1
    } else {
        with_depth(detections.drop_last())
    }
}

pub fn count_with_depth(detections: &[Detection]) -> (count: usize)
    ensures
        count == with_depth(detections@),
{
    let mut count: usize = 0;
    let mut i: usize = 0;
    while i < detections.len()
        invariant
            i <= detections.len(),
            count <= i,
            count == with_depth(detections@.take(i as int)),
        decreases detections.len() - i,
    {
        assert(detections@.take(i + 1).drop_last() =~= detections@.take(i as int));
        if detections[i].depth_m.is_some() {
            count = count + 1;
        }
        i = i + 1;
    }
    assert(detections@.take(detections@.len() as int) =~= detections@);
    count
}

/// None of the detections has a depth.
pub open spec fn undepthed(detections: Seq<Detection>) -> bool {
    forall|i: int| 0 <= i < detections.len() ==> (#[trigger] detections[i]).depth_m is None
}

/// What the camera stage hands to fusion: the detector's predictions, or the
/// ground truth where there is no detector and so no inference either.
pub fn camera_output(
    timestamp: i64,
    picture: &Picture,
    predictions: Option<&[Prediction]>,
    ground_truth: Vec<Detection>,
    inference_ns: u64,
    stage_ns: u64,
) -> (output: CameraOutput)
    ensures
        output.timestamp == timestamp,
        output.image_width == picture.width,
        output.image_height == picture.height,
        output.image_checksum == picture.checksum,
        output.ground_truth == ground_truth,
        output.stage_ns == stage_ns,
        match predictions {
            Some(predictions) => output.inference_ns == inference_ns && output.detections@.len()
                == predictions@.len() && forall|i: int|
                0 <= i < predictions@.len() ==> detector::is_detection_of(
                    #[trigger] output.detections@[i],
                    predictions@[i],
                    i,
                ),
            None => output.inference_ns == 0 && output.detections@ == ground_truth@,
        },
        undepthed(ground_truth@) ==> undepthed(output.detections@),
{
    let (detections, inference_ns): (Vec<Detection>, u64) = match predictions {
        Some(predictions) => (detector::detections_of(predictions), inference_ns),
        None => (fusion::copy_detections(&ground_truth), 0),
    };
    CameraOutput {
        timestamp,
        image_width: picture.width,
        image_height: picture.height,
        image_checksum: picture.checksum,
        detections,
        ground_truth,
        inference_ns,
        stage_ns,
    }
}

/// The camera's boxes have their depths where both frames are of one time, and are
/// left alone otherwise.
pub open spec fn is_fused(
    before: CameraOutput,
    corners: Seq<FarCorner>,
    lidar: LidarOutput,
    after: CameraOutput,
) -> bool {
    &&& after.detections.len() == before.detections.len()
    &&& after == (CameraOutput { detections: after.detections, ..before })
    &&& if before.timestamp == lidar.timestamp {
        forall|i: int|
            0 <= i < before.detections.len() ==> fusion::has_depth_from(
                before.detections@[i],
                #[trigger] after.detections@[i],
                corners[i],
                lidar.points@,
            )
    } else {
        after.detections == before.detections
    }
}

/// Gives the camera's boxes their depths where both frames are of one time, and
/// leaves them alone otherwise.
pub fn fuse(
    camera: &mut CameraOutput,
    corners: &[FarCorner],
    lidar: &LidarOutput,
) -> (synchronized: bool)
    requires
        corners.len() == old(camera).detections.len(),
    ensures
        synchronized == (old(camera).timestamp == lidar.timestamp),
        is_fused(*old(camera), corners@, *lidar, *final(camera)),
{
    if camera.timestamp == lidar.timestamp {
        fusion::add_depths(&mut camera.detections, corners, lidar.points.as_slice());
        true
    } else {
        false
    }
}

/// What was measured around one fused frame, in nanoseconds.
#[derive(Clone, Copy, Debug)]
pub struct FrameTimes {
    pub camera_queue_wait_ns: u64,
    pub lidar_queue_wait_ns: u64,
    pub fusion_ns: u64,
    pub end_to_end_ns: u64,
}

/// The report on a frame after fusion, where a box counts as found from an overlap
/// of `threshold` on.
pub open spec fn is_report(
    report: FrameReport,
    frame: usize,
    camera: CameraOutput,
    lidar: LidarOutput,
    overlaps: Seq<Vec<u64>>,
    threshold: u64,
    times: FrameTimes,
) -> bool {
    let matching = fusion::Matching {
        predictions: camera.detections@,
        truths: camera.ground_truth@,
        overlaps,
        threshold,
    };
    &&& report == (FrameReport {
        frame,
        timestamp: camera.timestamp,
        synchronized: camera.timestamp == lidar.timestamp,
        image_width: camera.image_width,
        image_height: camera.image_height,
        image_checksum: camera.image_checksum,
        points: lidar.points@.len() as usize,
        detections: camera.detections@.len() as usize,
        ground_truth: camera.ground_truth@.len() as usize,
        true_positives: report.true_positives,
        false_positives: (camera.detections@.len() - report.true_positives) as usize,
        false_negatives: (camera.ground_truth@.len() - report.true_positives) as usize,
        depth_matched: with_depth(camera.detections@) as usize,
        camera_stage_ns: camera.stage_ns,
        inference_ns: camera.inference_ns,
        lidar_stage_ns: lidar.stage_ns,
        camera_queue_wait_ns: times.camera_queue_wait_ns,
        lidar_queue_wait_ns: times.lidar_queue_wait_ns,
        sync_skew_ns: skew(camera.timestamp, lidar.timestamp) as u64,
        fusion_ns: times.fusion_ns,
        end_to_end_ns: times.end_to_end_ns,
    })
    &&& report.true_positives == matching.hits(camera.detections@.len() as int)
    &&& report.false_positives + report.true_positives == camera.detections@.len()
    &&& report.false_negatives + report.true_positives == camera.ground_truth@.len()
    &&& report.depth_matched == with_depth(camera.detections@)
    &&& report.depth_matched <= report.detections
    &&& report.sync_skew_ns == skew(camera.timestamp, lidar.timestamp)
}

/// The report on a frame after fusion. A box counts as found from an overlap of
/// `threshold` on.
pub fn report_frame(
    frame: usize,
    camera: &CameraOutput,
    lidar: &LidarOutput,
    overlaps: &[Vec<u64>],
    threshold: u64,
    times: FrameTimes,
) -> (report: FrameReport)
    requires
        (fusion::Matching {
            predictions: camera.detections@,
            truths: camera.ground_truth@,
            overlaps: overlaps@,
            threshold,
        }).valid(),
        skew(camera.timestamp, lidar.timestamp) <= u64::MAX,
    ensures
        is_report(report, frame, *camera, *lidar, overlaps@, threshold, times),
{
    proof {
        lemma_with_depth_bound(camera.detections@);
    }
    let (true_positives, false_positives, false_negatives) = fusion::evaluate_detections(
        camera.detections.as_slice(),
        camera.ground_truth.as_slice(),
        overlaps,
        threshold,
    );
    FrameReport {
        frame,
        timestamp: camera.timestamp,
        synchronized: camera.timestamp == lidar.timestamp,
        image_width: camera.image_width,
        image_height: camera.image_height,
        image_checksum: camera.image_checksum,
        points: lidar.points.len(),
        detections: camera.detections.len(),
        ground_truth: camera.ground_truth.len(),
        true_positives,
        false_positives,
        false_negatives,
        depth_matched: count_with_depth(camera.detections.as_slice()),
        camera_stage_ns: camera.stage_ns,
        inference_ns: camera.inference_ns,
        lidar_stage_ns: lidar.stage_ns,
        camera_queue_wait_ns: times.camera_queue_wait_ns,
        lidar_queue_wait_ns: times.lidar_queue_wait_ns,
        sync_skew_ns: sync_skew_ns(camera.timestamp, lidar.timestamp),
        fusion_ns: times.fusion_ns,
        end_to_end_ns: times.end_to_end_ns,
    }
}

/// The report on a frame of the camera alone.
pub fn report_camera_frame(
    frame: usize,
    camera: &CameraOutput,
    overlaps: &[Vec<u64>],
    threshold: u64,
    queue_wait_ns: u64,
    end_to_end_ns: u64,
) -> (report: FrameReport)
    requires
        (fusion::Matching {
            predictions: camera.detections@,
            truths: camera.ground_truth@,
            overlaps: overlaps@,
            threshold,
        }).valid(),
    ensures
        report == (FrameReport {
            frame,
            timestamp: camera.timestamp,
            synchronized: true,
            image_width: camera.image_width,
            image_height: camera.image_height,
            image_checksum: camera.image_checksum,
            points: 0,
            detections: camera.detections@.len() as usize,
            ground_truth: camera.ground_truth@.len() as usize,
            true_positives: report.true_positives,
            false_positives: (camera.detections@.len() - report.true_positives) as usize,
            false_negatives: (camera.ground_truth@.len() - report.true_positives) as usize,
            depth_matched: 0,
            camera_stage_ns: camera.stage_ns,
            inference_ns: camera.inference_ns,
            lidar_stage_ns: 0,
            camera_queue_wait_ns: queue_wait_ns,
            lidar_queue_wait_ns: 0,
            sync_skew_ns: 0,
            fusion_ns: 0,
            end_to_end_ns,
        }),
        report.true_positives == (fusion::Matching {
            predictions: camera.detections@,
            truths: camera.ground_truth@,
            overlaps: overlaps@,
            threshold,
        }).hits(camera.detections@.len() as int),
        report.false_positives + report.true_positives == camera.detections@.len(),
        report.false_negatives + report.true_positives == camera.ground_truth@.len(),
{
    let (true_positives, false_positives, false_negatives) = fusion::evaluate_detections(
        camera.detections.as_slice(),
        camera.ground_truth.as_slice(),
        overlaps,
        threshold,
    );
    FrameReport {
        frame,
        timestamp: camera.timestamp,
        synchronized: true,
        image_width: camera.image_width,
        image_height: camera.image_height,
        image_checksum: camera.image_checksum,
        points: 0,
        detections: camera.detections.len(),
        ground_truth: camera.ground_truth.len(),
        true_positives,
        false_positives,
        false_negatives,
        depth_matched: 0,
        camera_stage_ns: camera.stage_ns,
        inference_ns: camera.inference_ns,
        lidar_stage_ns: 0,
        camera_queue_wait_ns: queue_wait_ns,
        lidar_queue_wait_ns: 0,
        sync_skew_ns: 0,
        fusion_ns: 0,
        end_to_end_ns,
    }
}

/// The report on a frame of the LiDAR alone.
pub fn report_lidar_frame(
    frame: usize,
    lidar: &LidarOutput,
    queue_wait_ns: u64,
    end_to_end_ns: u64,
) -> (report: FrameReport)
    ensures
        report == (FrameReport {
            frame,
            timestamp: lidar.timestamp,
            synchronized: true,
            image_width: 0,
            image_height: 0,
            image_checksum: 0,
            points: lidar.points@.len() as usize,
            detections: 0,
            ground_truth: 0,
            true_positives: 0,
            false_positives: 0,
            false_negatives: 0,
            depth_matched: 0,
            camera_stage_ns: 0,
            inference_ns: 0,
            lidar_stage_ns: lidar.stage_ns,
            camera_queue_wait_ns: 0,
            lidar_queue_wait_ns: queue_wait_ns,
            sync_skew_ns: 0,
            fusion_ns: 0,
            end_to_end_ns,
        }),
{
    FrameReport {
        frame,
        timestamp: lidar.timestamp,
        synchronized: true,
        image_width: 0,
        image_height: 0,
        image_checksum: 0,
        points: lidar.points.len(),
        detections: 0,
        ground_truth: 0,
        true_positives: 0,
        false_positives: 0,
        false_negatives: 0,
        depth_matched: 0,
        camera_stage_ns: 0,
        inference_ns: 0,
        lidar_stage_ns: lidar.stage_ns,
        camera_queue_wait_ns: 0,
        lidar_queue_wait_ns: queue_wait_ns,
        sync_skew_ns: 0,
        fusion_ns: 0,
        end_to_end_ns,
    }
}

proof fn lemma_with_depth_bound(detections: Seq<Detection>)
    ensures
        with_depth(detections) <= detections.len(),
    decreases detections.len(),
{
    if detections.len() > 0 {
        lemma_with_depth_bound(detections.drop_last());
    }
}

proof fn lemma_undepthed(detections: Seq<Detection>)
    requires
        undepthed(detections),
    ensures
        with_depth(detections) == 0,
    decreases detections.len(),
{
    if detections.len() > 0 {
        assert(detections[detections.len() - 1].depth_m is None);
        let fewer = detections.drop_last();
        assert forall|i: int| 0 <= i < fewer.len() implies (#[trigger] fewer[i]).depth_m is None by {
            assert(fewer[i] == detections[i]);
        }
        lemma_undepthed(fewer);
    }
}

/// The row of a pair tells of its camera frame. It is delivered where the two
/// frames are of one time and unsynchronized otherwise, it says how far apart they
/// are, and without one time no box has a depth.
pub proof fn law_rows_tell_of_their_pair(
    before: CameraOutput,
    lidar: LidarOutput,
    corners: Seq<FarCorner>,
    after: CameraOutput,
    frame: usize,
    overlaps: Seq<Vec<u64>>,
    threshold: u64,
    times: FrameTimes,
    report: FrameReport,
)
    requires
        undepthed(before.detections@),
        is_fused(before, corners, lidar, after),
        is_report(report, frame, after, lidar, overlaps, threshold, times),
    ensures
        report.frame == frame,
        report.timestamp == before.timestamp,
        report.status() == if before.timestamp == lidar.timestamp {
            "delivered"@
        } else {
            "unsynchronized"@
        },
        report.sync_skew_ns == skew(before.timestamp, lidar.timestamp),
        before.timestamp == lidar.timestamp <==> report.sync_skew_ns == 0,
        before.timestamp != lidar.timestamp ==> report.depth_matched == 0,
{
    lemma_undepthed(before.detections@);
}

/// Every prediction of a run was either right or wrong: where that holds of the
/// frames, it holds of the totals, and no more boxes have a depth than there
/// are.
pub open spec fn adds_up(detections: int, right: int, wrong: int, deep: int) -> bool {
    right + wrong == detections && deep <= detections
}

/// Totals that add up still do when a frame that adds up is recorded.
pub proof fn law_totals_add_up(summary: PerceptionSummary, report: FrameReport)
    requires
        summary.has_room_for(report),
        adds_up(
            summary.detections as int,
            summary.true_positives as int,
            summary.false_positives as int,
            summary.depth_matched as int,
        ),
        adds_up(
            report.detections as int,
            report.true_positives as int,
            report.false_positives as int,
            report.depth_matched as int,
        ),
    ensures
        adds_up(
            summary.plus(report).detections as int,
            summary.plus(report).true_positives as int,
            summary.plus(report).false_positives as int,
            summary.plus(report).depth_matched as int,
        ),
        summary.plus(report).frames == summary.frames + 1,
{
}

/// Each field of a report's row stands in the place of the column of its name, and
/// can be read back from it.
pub proof fn law_rows_fit_their_columns(report: FrameReport)
    ensures
        report.fields().len() == perception_columns().len() == 21,
        perception_columns()[0] == "frame"@
            && text::decimal_value(report.fields()[0]) == report.frame,
        perception_columns()[1] == "timestamp_micros"@
            && report.fields()[1] == text::signed_decimal(report.timestamp as int),
        perception_columns()[2] == "status"@ && report.fields()[2] == if report.synchronized {
            "delivered"@
        } else {
            "unsynchronized"@
        },
        perception_columns()[3] == "camera_width"@
            && text::decimal_value(report.fields()[3]) == report.image_width,
        perception_columns()[4] == "camera_height"@
            && text::decimal_value(report.fields()[4]) == report.image_height,
        perception_columns()[5] == "camera_checksum"@
            && report.fields()[5].len() == 8 && text::hex_value(report.fields()[5])
            == report.image_checksum,
        perception_columns()[6] == "points"@
            && text::decimal_value(report.fields()[6]) == report.points,
        perception_columns()[7] == "detections"@
            && text::decimal_value(report.fields()[7]) == report.detections,
        perception_columns()[8] == "ground_truth"@
            && text::decimal_value(report.fields()[8]) == report.ground_truth,
        perception_columns()[9] == "true_positives"@
            && text::decimal_value(report.fields()[9]) == report.true_positives,
        perception_columns()[10] == "false_positives"@
            && text::decimal_value(report.fields()[10]) == report.false_positives,
        perception_columns()[11] == "false_negatives"@
            && text::decimal_value(report.fields()[11]) == report.false_negatives,
        perception_columns()[12] == "depth_matched"@
            && text::decimal_value(report.fields()[12]) == report.depth_matched,
        perception_columns()[13] == "camera_stage_ns"@
            && text::decimal_value(report.fields()[13]) == report.camera_stage_ns,
        perception_columns()[14] == "inference_ns"@
            && text::decimal_value(report.fields()[14]) == report.inference_ns,
        perception_columns()[15] == "lidar_stage_ns"@
            && text::decimal_value(report.fields()[15]) == report.lidar_stage_ns,
        perception_columns()[16] == "camera_queue_wait_ns"@
            && text::decimal_value(report.fields()[16]) == report.camera_queue_wait_ns,
        perception_columns()[17] == "lidar_queue_wait_ns"@
            && text::decimal_value(report.fields()[17]) == report.lidar_queue_wait_ns,
        perception_columns()[18] == "sync_skew_ns"@
            && text::decimal_value(report.fields()[18]) == report.sync_skew_ns,
        perception_columns()[19] == "fusion_ns"@
            && text::decimal_value(report.fields()[19]) == report.fusion_ns,
        perception_columns()[20] == "end_to_end_ns"@
            && text::decimal_value(report.fields()[20]) == report.end_to_end_ns,
{
    text::law_decimal_reads_back(report.frame as nat);
    text::law_decimal_reads_back(report.image_width as nat);
    text::law_decimal_reads_back(report.image_height as nat);
    text::law_decimal_reads_back(report.points as nat);
    text::law_decimal_reads_back(report.detections as nat);
    text::law_decimal_reads_back(report.ground_truth as nat);
    text::law_decimal_reads_back(report.true_positives as nat);
    text::law_decimal_reads_back(report.false_positives as nat);
    text::law_decimal_reads_back(report.false_negatives as nat);
    text::law_decimal_reads_back(report.depth_matched as nat);
    text::law_decimal_reads_back(report.camera_stage_ns as nat);
    text::law_decimal_reads_back(report.inference_ns as nat);
    text::law_decimal_reads_back(report.lidar_stage_ns as nat);
    text::law_decimal_reads_back(report.camera_queue_wait_ns as nat);
    text::law_decimal_reads_back(report.lidar_queue_wait_ns as nat);
    text::law_decimal_reads_back(report.sync_skew_ns as nat);
    text::law_decimal_reads_back(report.fusion_ns as nat);
    text::law_decimal_reads_back(report.end_to_end_ns as nat);
    text::lemma_hex32(report.image_checksum);
}

/// Recording a frame adds each of its numbers to the total of the same name.
pub proof fn law_totals_grow_by_their_frame(summary: PerceptionSummary, report: FrameReport)
    requires
        summary.has_room_for(report),
    ensures
        summary.plus(report).frames - summary.frames == 1,
        summary.plus(report).points - summary.points == report.points,
        summary.plus(report).detections - summary.detections == report.detections,
        summary.plus(report).depth_matched - summary.depth_matched == report.depth_matched,
        summary.plus(report).true_positives - summary.true_positives == report.true_positives,
        summary.plus(report).false_positives - summary.false_positives == report.false_positives,
        summary.plus(report).false_negatives - summary.false_negatives == report.false_negatives,
        summary.plus(report).elapsed == summary.elapsed,
{
}

/// The skew is how far two times are apart, whichever comes first, a thousand
/// nanoseconds for each microsecond.
pub proof fn law_skew_is_the_distance(left: i64, right: i64)
    ensures
        skew(left, right) == skew(right, left),
        left <= right ==> left * 1000 + skew(left, right) == right * 1000,
        skew(left, right) == 0 <==> left == right,
{
}

/// As many detections have a depth as are marked so one by one.
pub proof fn law_depths_are_counted_one_by_one(detections: Seq<Detection>)
    ensures
        with_depth(detections) == order::marks(
            Seq::new(detections.len(), |i: int| detections[i].depth_m is Some),
        ),
    decreases detections.len(),
{
    let marked = Seq::new(detections.len(), |i: int| detections[i].depth_m is Some);
    if detections.len() > 0 {
        let fewer = detections.drop_last();
        law_depths_are_counted_one_by_one(fewer);
        assert(marked.drop_last() =~= Seq::new(fewer.len(), |i: int| fewer[i].depth_m is Some));
    }
}

/// The setup report says the camera's time behind the camera's label and the
/// LiDAR's behind the LiDAR's, each on a line of its own.
pub proof fn law_setup_reports_label_their_times(camera_setup_ns: nat, lidar_setup_ns: nat)
    ensures
        setup_lines(camera_setup_ns, lidar_setup_ns) == "camera_setup_ns="@ + text::decimal(
            camera_setup_ns,
        ) + "\n"@ + "lidar_setup_ns="@ + text::decimal(lidar_setup_ns) + "\n"@,
{
    reveal_strlit("\nlidar_setup_ns=");
    reveal_strlit("\n");
    reveal_strlit("lidar_setup_ns=");
    assert("\nlidar_setup_ns="@ =~= "\n"@ + "lidar_setup_ns="@);
    assert(setup_lines(camera_setup_ns, lidar_setup_ns) =~= "camera_setup_ns="@ + text::decimal(
        camera_setup_ns,
    ) + "\n"@ + "lidar_setup_ns="@ + text::decimal(lidar_setup_ns) + "\n"@);
}

/// Fusion touches the depths of the camera's boxes and nothing else, and those only
/// where both frames are of one time.
pub proof fn law_fusion_touches_depths_only(
    before: CameraOutput,
    corners: Seq<FarCorner>,
    lidar: LidarOutput,
    after: CameraOutput,
    i: int,
)
    requires
        is_fused(before, corners, lidar, after),
        0 <= i < before.detections@.len(),
    ensures
        after.timestamp == before.timestamp,
        after.image_width == before.image_width,
        after.image_height == before.image_height,
        after.image_checksum == before.image_checksum,
        after.ground_truth == before.ground_truth,
        after.inference_ns == before.inference_ns,
        after.stage_ns == before.stage_ns,
        after.detections@.len() == before.detections@.len(),
        before.timestamp != lidar.timestamp ==> after.detections@[i] == before.detections@[i],
        before.timestamp == lidar.timestamp ==> fusion::has_depth_from(
            before.detections@[i],
            after.detections@[i],
            corners[i],
            lidar.points@,
        ),
        after.detections@[i].id == before.detections@[i].id,
        after.detections@[i].kind == before.detections@[i].kind,
        after.detections@[i].x == before.detections@[i].x,
        after.detections@[i].y == before.detections@[i].y,
        after.detections@[i].width == before.detections@[i].width,
        after.detections@[i].height == before.detections@[i].height,
        after.detections@[i].score == before.detections@[i].score,
{
}

/// A report holds the picture of its camera frame and the points of its LiDAR frame,
/// the time that each stage took, and how long each frame waited.
pub proof fn law_reports_hold_their_frames(
    report: FrameReport,
    frame: usize,
    camera: CameraOutput,
    lidar: LidarOutput,
    overlaps: Seq<Vec<u64>>,
    threshold: u64,
    times: FrameTimes,
)
    requires
        is_report(report, frame, camera, lidar, overlaps, threshold, times),
        lidar.points@.len() <= usize::MAX,
        camera.detections@.len() <= usize::MAX,
        camera.ground_truth@.len() <= usize::MAX,
    ensures
        report.frame == frame,
        report.timestamp == camera.timestamp,
        report.synchronized <==> camera.timestamp == lidar.timestamp,
        report.image_width == camera.image_width,
        report.image_height == camera.image_height,
        report.image_checksum == camera.image_checksum,
        report.points == lidar.points@.len(),
        report.detections == camera.detections@.len(),
        report.ground_truth == camera.ground_truth@.len(),
        report.true_positives == (fusion::Matching {
            predictions: camera.detections@,
            truths: camera.ground_truth@,
            overlaps,
            threshold,
        }).hits(camera.detections@.len() as int),
        report.true_positives + report.false_positives == camera.detections@.len(),
        report.true_positives + report.false_negatives == camera.ground_truth@.len(),
        report.depth_matched == with_depth(camera.detections@),
        report.camera_stage_ns == camera.stage_ns,
        report.inference_ns == camera.inference_ns,
        report.lidar_stage_ns == lidar.stage_ns,
        report.camera_queue_wait_ns == times.camera_queue_wait_ns,
        report.lidar_queue_wait_ns == times.lidar_queue_wait_ns,
        report.fusion_ns == times.fusion_ns,
        report.end_to_end_ns == times.end_to_end_ns,
        camera.timestamp <= lidar.timestamp ==> camera.timestamp * 1000 + report.sync_skew_ns
            == lidar.timestamp * 1000,
        lidar.timestamp <= camera.timestamp ==> lidar.timestamp * 1000 + report.sync_skew_ns
            == camera.timestamp * 1000,
{
}

/// A frame can be recorded wherever no total passes the greatest number.
pub proof fn law_totals_have_room_until_they_overflow(
    summary: PerceptionSummary,
    report: FrameReport,
)
    requires
        summary.frames + 1 <= usize::MAX,
        summary.points + report.points <= usize::MAX,
        summary.detections + report.detections <= usize::MAX,
        summary.depth_matched + report.depth_matched <= usize::MAX,
        summary.true_positives + report.true_positives <= usize::MAX,
        summary.false_positives + report.false_positives <= usize::MAX,
        summary.false_negatives + report.false_negatives <= usize::MAX,
    ensures
        summary.has_room_for(report),
{
}

} // verus!
