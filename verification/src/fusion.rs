//! Camera boxes and LiDAR points: which points lie in a box, how deep it is,
//! and which boxes were found.
use arrow::error::ArrowError;
use vstd::prelude::*;
use vstd::string::StringExecFns;

use crate::columns::{self, ColumnError};
#[allow(unused_imports)]
use crate::columns::ColumnFault;
use crate::frames::FRONT_CAMERA;
use crate::ieee;
use crate::order;
use crate::table::{self, Batch, Column, NewField};
#[allow(unused_imports)]
use crate::table::{ArrayModel, ArrayValues, FieldModel, TableModel};
use crate::text;

verus! {

/// From which overlap on a box counts as found: the bit pattern of 0.5 as a
/// 64-bit float.
pub const MATCH_THRESHOLD: u64 = 0x3fe0_0000_0000_0000;

/// One LiDAR return in vehicle coordinates, with its place in the front camera's
/// picture where it has one (`camera` is then 1). Bit patterns of 32-bit floats.
#[derive(Clone, Copy, Debug)]
pub struct Point {
    pub x: u32,
    pub y: u32,
    pub z: u32,
    pub range: u32,
    pub intensity: u32,
    pub elongation: u32,
    pub camera: i8,
    pub u: u32,
    pub v: u32,
}

/// A box in the front camera's picture. Position and size are bit patterns of
/// 64-bit floats, depth and score of 32-bit floats.
#[derive(Debug)]
pub struct Detection {
    pub id: String,
    pub kind: &'static str,
    pub x: u64,
    pub y: u64,
    pub width: u64,
    pub height: u64,
    pub depth_m: Option<u32>,
    pub depth_points: usize,
    pub score: Option<u32>,
}

impl Detection {
    /// The same detection again.
    pub fn copy(&self) -> (copy: Detection)
        ensures
            copy == *self,
    {
        Detection {
            id: self.id.clone(),
            kind: self.kind,
            x: self.x,
            y: self.y,
            width: self.width,
            height: self.height,
            depth_m: self.depth_m,
            depth_points: self.depth_points,
            score: self.score,
        }
    }
}

/// The same detections again.
pub fn copy_detections(detections: &Vec<Detection>) -> (copies: Vec<Detection>)
    ensures
        copies@ == detections@,
{
    let mut copies: Vec<Detection> = Vec::new();
    let mut i: usize = 0;
    while i < detections.len()
        invariant
            i <= detections.len(),
            copies@ == detections@.take(i as int),
        decreases detections.len() - i,
    {
        copies.push(detections[i].copy());
        i = i + 1;
        assert(copies@ =~= detections@.take(i as int));
    }
    assert(detections@.take(i as int) =~= detections@);
    copies
}

/// The far corner of a box: `x + width` and `y + height`.
#[derive(Clone, Copy, Debug)]
pub struct FarCorner {
    pub right: u64,
    pub bottom: u64,
}

/// The text for an object type of the dataset.
pub open spec fn object_type_text(value: i64) -> Seq<char> {
    if value == 1 {
        "vehicle"@
    } else if value == 2 {
        "pedestrian"@
    } else if value == 3 {
        "sign"@
    } else if value == 4 {
        "cyclist"@
    } else {
        "unknown"@
    }
}

pub fn object_type(value: i64) -> (kind: &'static str)
    ensures
        kind@ == object_type_text(value),
{
    match value {
        1 => "vehicle",
        2 => "pedestrian",
        3 => "sign",
        4 => "cyclist",
        _ => "unknown",
    }
}

/// Where a component of a segment is kept.
pub open spec fn component_path_text(
    root: Seq<char>,
    split: Seq<char>,
    component: Seq<char>,
    segment: Seq<char>,
) -> Seq<char> {
    text::joined_path(
        text::joined_path(text::joined_path(root, split), component),
        segment + ".parquet"@,
    )
}

pub fn component_path(root: &str, split: &str, component: &str, segment: &str) -> (path: String)
    ensures
        path@ == component_path_text(root@, split@, component@, segment@),
{
    let mut file: String = segment.to_owned();
    file.append(".parquet");
    let folder: String = text::join_path(root, split);
    let folder: String = text::join_path(folder.as_str(), component);
    text::join_path(folder.as_str(), file.as_str())
}

/// One row of the camera box table.
#[derive(Debug)]
pub struct BoxRow {
    pub timestamp: i64,
    pub id: String,
    pub kind: &'static str,
    pub center_x: u64,
    pub center_y: u64,
    pub width: u64,
    pub height: u64,
}

/// The columns of the camera box table.
pub struct BoxColumns {
    pub timestamps: Seq<i64>,
    pub cameras: Seq<i64>,
    pub ids: Seq<Seq<char>>,
    pub center_x: Seq<u64>,
    pub center_y: Seq<u64>,
    pub width: Seq<u64>,
    pub height: Seq<u64>,
    pub kinds: Seq<i64>,
}

/// The columns, or what is wrong with the first that is wrong.
pub open spec fn box_columns(table: TableModel) -> Result<BoxColumns, ColumnFault> {
    let timestamps = columns::int64_of(table, "key.frame_timestamp_micros"@);
    let cameras = columns::integer_of(table, "key.camera_name"@);
    let ids = columns::utf8_of(table, "key.camera_object_id"@);
    let center_x = columns::float64_of(table, "[CameraBoxComponent].box.center.x"@);
    let center_y = columns::float64_of(table, "[CameraBoxComponent].box.center.y"@);
    let width = columns::float64_of(table, "[CameraBoxComponent].box.size.x"@);
    let height = columns::float64_of(table, "[CameraBoxComponent].box.size.y"@);
    let kinds = columns::integer_of(table, "[CameraBoxComponent].type"@);
    if timestamps is Err {
        Err(timestamps->Err_0)
    } else if cameras is Err {
        Err(cameras->Err_0)
    } else if ids is Err {
        Err(ids->Err_0)
    } else if center_x is Err {
        Err(center_x->Err_0)
    } else if center_y is Err {
        Err(center_y->Err_0)
    } else if width is Err {
        Err(width->Err_0)
    } else if height is Err {
        Err(height->Err_0)
    } else if kinds is Err {
        Err(kinds->Err_0)
    } else {
        Ok(
            BoxColumns {
                timestamps: timestamps->Ok_0,
                cameras: cameras->Ok_0,
                ids: ids->Ok_0,
                center_x: center_x->Ok_0,
                center_y: center_y->Ok_0,
                width: width->Ok_0,
                height: height->Ok_0,
                kinds: kinds->Ok_0,
            },
        )
    }
}

impl BoxColumns {
    /// The row is a box of the front camera, at the wanted time where there is one.
    pub open spec fn wanted(self, row: int, only: Option<i64>) -> bool {
        self.cameras[row] == FRONT_CAMERA && (only matches Some(time) ==> self.timestamps[row]
            == time)
    }

    /// The wanted rows before `end`, in order.
    pub open spec fn wanted_rows(self, only: Option<i64>, end: int) -> Seq<int>
        decreases end,
    {
        if end <= 0 {
            Seq::empty()
        } else if self.wanted(end - 1, only) {
            self.wanted_rows(only, end - 1).push(end - 1)
        } else {
            self.wanted_rows(only, end - 1)
        }
    }

    pub open spec fn has_box(self, row: int, found: BoxRow) -> bool {
        &&& found.timestamp == self.timestamps[row]
        &&& found.id@ == self.ids[row]
        &&& found.kind@ == object_type_text(self.kinds[row])
        &&& found.center_x == self.center_x[row]
        &&& found.center_y == self.center_y[row]
        &&& found.width == self.width[row]
        &&& found.height == self.height[row]
    }
}

/// The boxes of the front camera in a table: all of them, or those of one time.
pub fn read_boxes(batch: &Batch, only: Option<i64>) -> (boxes: Result<Vec<BoxRow>, ColumnError>)
    requires
        batch@.valid(),
    ensures
        match (boxes, box_columns(batch@)) {
            (Ok(boxes), Ok(columns)) => {
                let rows = columns.wanted_rows(only, batch@.rows as int);
                &&& boxes.len() == rows.len()
                &&& forall|i: int|
                    0 <= i < rows.len() ==> columns.has_box(rows[i], #[trigger] boxes@[i])
            },
            (Err(error), Err(fault)) => error@ == fault,
            _ => false,
        },
{
    let timestamps: Vec<i64> = match columns::int64(batch, "key.frame_timestamp_micros") {
        Ok(values) => values,
        Err(error) => {
            return Err(error);
        },
    };
    let cameras: Vec<i64> = match columns::integer(batch, "key.camera_name") {
        Ok(values) => values,
        Err(error) => {
            return Err(error);
        },
    };
    let ids: Vec<String> = match columns::string(batch, "key.camera_object_id") {
        Ok(values) => values,
        Err(error) => {
            return Err(error);
        },
    };
    let center_x: Vec<u64> = match columns::float64(batch, "[CameraBoxComponent].box.center.x") {
        Ok(values) => values,
        Err(error) => {
            return Err(error);
        },
    };
    let center_y: Vec<u64> = match columns::float64(batch, "[CameraBoxComponent].box.center.y") {
        Ok(values) => values,
        Err(error) => {
            return Err(error);
        },
    };
    let width: Vec<u64> = match columns::float64(batch, "[CameraBoxComponent].box.size.x") {
        Ok(values) => values,
        Err(error) => {
            return Err(error);
        },
    };
    let height: Vec<u64> = match columns::float64(batch, "[CameraBoxComponent].box.size.y") {
        Ok(values) => values,
        Err(error) => {
            return Err(error);
        },
    };
    let kinds: Vec<i64> = match columns::integer(batch, "[CameraBoxComponent].type") {
        Ok(values) => values,
        Err(error) => {
            return Err(error);
        },
    };
    let ghost found = BoxColumns {
        timestamps: timestamps@,
        cameras: cameras@,
        ids: ids@.map_values(|text: String| text@),
        center_x: center_x@,
        center_y: center_y@,
        width: width@,
        height: height@,
        kinds: kinds@,
    };
    assert(box_columns(batch@) == Ok::<BoxColumns, ColumnFault>(found));
    let rows: usize = batch.num_rows();
    let mut boxes: Vec<BoxRow> = Vec::new();
    let mut row: usize = 0;
    while row < rows
        invariant
            row <= rows,
            rows == batch@.rows,
            timestamps.len() == rows,
            cameras.len() == rows,
            ids.len() == rows,
            center_x.len() == rows,
            center_y.len() == rows,
            width.len() == rows,
            height.len() == rows,
            kinds.len() == rows,
            found == (BoxColumns {
                timestamps: timestamps@,
                cameras: cameras@,
                ids: ids@.map_values(|text: String| text@),
                center_x: center_x@,
                center_y: center_y@,
                width: width@,
                height: height@,
                kinds: kinds@,
            }),
            boxes.len() == found.wanted_rows(only, row as int).len(),
            forall|i: int|
                0 <= i < boxes.len() ==> found.has_box(
                    found.wanted_rows(only, row as int)[i],
                    #[trigger] boxes@[i],
                ),
        decreases rows - row,
    {
        let at_time: bool = match only {
            Some(time) => timestamps[row] == time,
            None => true,
        };
        if at_time && cameras[row] == FRONT_CAMERA {
            boxes.push(
                BoxRow {
                    timestamp: timestamps[row],
                    id: ids[row].clone(),
                    kind: object_type(kinds[row]),
                    center_x: center_x[row],
                    center_y: center_y[row],
                    width: width[row],
                    height: height[row],
                },
            );
        }
        row = row + 1;
    }
    Ok(boxes)
}

impl BoxRow {
    /// The box as a detection without depth or score. The corner is half the size
    /// away from the center.
    pub fn into_detection(self, x: u64, y: u64) -> (detection: Detection)
        ensures
            detection == (Detection {
                id: self.id,
                kind: self.kind,
                x,
                y,
                width: self.width,
                height: self.height,
                depth_m: None,
                depth_points: 0,
                score: None,
            }),
    {
        Detection {
            id: self.id,
            kind: self.kind,
            x,
            y,
            width: self.width,
            height: self.height,
            depth_m: None,
            depth_points: 0,
            score: None,
        }
    }
}

/// The point is seen by the front camera inside the box, edges included.
pub open spec fn in_box(point: Point, x: u64, y: u64, corner: FarCorner) -> bool {
    &&& point.camera == 1
    &&& ieee::f64_le(x, ieee::f32_as_f64(point.u))
    &&& ieee::f64_le(ieee::f32_as_f64(point.u), corner.right)
    &&& ieee::f64_le(y, ieee::f32_as_f64(point.v))
    &&& ieee::f64_le(ieee::f32_as_f64(point.v), corner.bottom)
}

/// The finite ranges of the points inside the box, in order.
pub open spec fn ranges_in(points: Seq<Point>, x: u64, y: u64, corner: FarCorner) -> Seq<u32>
    decreases points.len(),
{
    if points.len() == 0 {
        Seq::empty()
    } else {
        let before = ranges_in(points.drop_last(), x, y, corner);
        let point = points.last();
        if in_box(point, x, y, corner) && ieee::f32_is_finite(point.range) {
            before.push(point.range)
        } else {
            before
        }
    }
}

/// What ranges are sorted by.
pub open spec fn range_keys(ranges: Seq<u32>) -> Seq<i128> {
    ranges.map_values(|range: u32| ieee::f32_key(range) as i128)
}

/// The range in the middle once the ranges are sorted, the upper of two.
pub open spec fn is_median(ranges: Seq<u32>, depth: Option<u32>) -> bool {
    if ranges.len() == 0 {
        depth is None
    } else {
        exists|sorted: Seq<usize>| #[trigger]
            order::is_stable_order(range_keys(ranges), sorted) && depth == Some(
                ranges[sorted[ranges.len() as int / 2] as int],
            )
    }
}

fn is_in_box(point: &Point, x: u64, y: u64, corner: FarCorner) -> (inside: bool)
    ensures
        inside == in_box(*point, x, y, corner),
{
    if point.camera != 1 {
        return false;
    }
    let u: u64 = ieee::widen(point.u);
    let v: u64 = ieee::widen(point.v);
    ieee::le64(x, u) && ieee::le64(u, corner.right) && ieee::le64(y, v) && ieee::le64(
        v,
        corner.bottom,
    )
}

/// The number of points inside a box and their median range.
pub fn depth_of(
    x: u64,
    y: u64,
    corner: FarCorner,
    points: &[Point],
) -> (depth: (usize, Option<u32>))
    ensures
        depth.0 == ranges_in(points@, x, y, corner).len(),
        is_median(ranges_in(points@, x, y, corner), depth.1),
{
    let mut ranges: Vec<u32> = Vec::new();
    let mut keys: Vec<i128> = Vec::new();
    let mut i: usize = 0;
    while i < points.len()
        invariant
            i <= points.len(),
            ranges@ == ranges_in(points@.take(i as int), x, y, corner),
            keys@ == range_keys(ranges@),
        decreases points.len() - i,
    {
        assert(points@.take(i + 1).drop_last() =~= points@.take(i as int));
        if is_in_box(&points[i], x, y, corner) && ieee::is_finite32(points[i].range) {
            ranges.push(points[i].range);
            keys.push(ieee::key32(points[i].range) as i128);
            assert(keys@ =~= range_keys(ranges@));
        }
        i = i + 1;
    }
    assert(points@.take(points@.len() as int) =~= points@);
    let count: usize = ranges.len();
    if count == 0 {
        return (0, None);
    }
    let sorted: Vec<usize> = order::stable_order(keys.as_slice());
    assert(order::is_stable_order(range_keys(ranges@), sorted@));
    (count, Some(ranges[sorted[count / 2]]))
}

/// The detection with the depth that the points give it.
pub open spec fn has_depth_from(
    before: Detection,
    after: Detection,
    corner: FarCorner,
    points: Seq<Point>,
) -> bool {
    &&& after == (Detection {
        depth_m: after.depth_m,
        depth_points: after.depth_points,
        ..before
    })
    &&& after.depth_points == ranges_in(points, before.x, before.y, corner).len()
    &&& is_median(ranges_in(points, before.x, before.y, corner), after.depth_m)
}

/// Gives every detection the median range of the points inside it.
pub fn add_depths(detections: &mut [Detection], corners: &[FarCorner], points: &[Point])
    requires
        corners.len() == old(detections).len(),
    ensures
        final(detections).len() == old(detections).len(),
        forall|i: int|
            0 <= i < old(detections).len() ==> has_depth_from(
                old(detections)@[i],
                #[trigger] final(detections)@[i],
                corners@[i],
                points@,
            ),
{
    let mut i: usize = 0;
    while i < detections.len()
        invariant
            i <= detections.len(),
            detections.len() == old(detections).len(),
            corners.len() == detections.len(),
            forall|j: int|
                0 <= j < i ==> has_depth_from(
                    old(detections)@[j],
                    #[trigger] detections@[j],
                    corners@[j],
                    points@,
                ),
            forall|j: int| i <= j < detections.len() ==> detections@[j] == old(detections)@[j],
        decreases detections.len() - i,
    {
        let (count, depth) = depth_of(detections[i].x, detections[i].y, corners[i], points);
        detections[i].depth_points = count;
        detections[i].depth_m = depth;
        i = i + 1;
    }
}

/// There is one median, and it is one of the ranges. Sorted, half of the ranges lie
/// on either side of it; counted, at most half of them are below it, and more than
/// half are not above it.
pub proof fn law_median(ranges: Seq<u32>, one: Option<u32>, other: Option<u32>)
    requires
        is_median(ranges, one),
        is_median(ranges, other),
    ensures
        one == other,
        one is Some <==> ranges.len() > 0,
        one matches Some(depth) ==> ranges.contains(depth) && exists|sorted: Seq<usize>| #[trigger]
            order::is_stable_order(range_keys(ranges), sorted) && (forall|i: int|
                0 <= i <= ranges.len() as int / 2 ==> ieee::f32_key(
                    ranges[#[trigger] sorted[i] as int],
                ) <= ieee::f32_key(depth)) && (forall|i: int|
                ranges.len() as int / 2 <= i < ranges.len() ==> ieee::f32_key(depth)
                    <= ieee::f32_key(ranges[#[trigger] sorted[i] as int])),
        one is Some && ranges.len() <= usize::MAX ==> order::has_rank(
            range_keys(ranges),
            ranges.len() as int / 2,
            ieee::f32_key(one->0),
        ),
{
    if ranges.len() > 0 {
        let keys = range_keys(ranges);
        let half = ranges.len() as int / 2;
        let sorted = choose|sorted: Seq<usize>| #[trigger]
            order::is_stable_order(keys, sorted) && one == Some(ranges[sorted[half] as int]);
        let again = choose|sorted: Seq<usize>| #[trigger]
            order::is_stable_order(keys, sorted) && other == Some(ranges[sorted[half] as int]);
        order::law_stable_order_is_unique(keys, sorted, again);
        let depth = one->0;
        assert(ranges[sorted[half] as int] == depth);
        if ranges.len() <= usize::MAX {
            order::law_rank_is_a_count(keys, sorted, half);
        }
        assert forall|i: int| 0 <= i <= half implies ieee::f32_key(
            ranges[#[trigger] sorted[i] as int],
        ) <= ieee::f32_key(depth) by {
            if i < half {
                assert(order::precedes(keys, sorted[i] as int, sorted[half] as int));
            }
        }
        assert forall|i: int| half <= i < ranges.len() implies ieee::f32_key(depth)
            <= ieee::f32_key(ranges[#[trigger] sorted[i] as int]) by {
            if half < i {
                assert(order::precedes(keys, sorted[half] as int, sorted[i] as int));
            }
        }
    }
}

/// The point gives a depth to the box.
pub open spec fn gives_depth(point: Point, x: u64, y: u64, corner: FarCorner) -> bool {
    in_box(point, x, y, corner) && ieee::f32_is_finite(point.range)
}

proof fn lemma_ranges_are_counted(
    points: Seq<Point>,
    x: u64,
    y: u64,
    corner: FarCorner,
    bound: int,
)
    ensures
        ranges_in(points, x, y, corner).len() == order::marks(
            points.map_values(|point: Point| gives_depth(point, x, y, corner)),
        ),
        order::count_below(range_keys(ranges_in(points, x, y, corner)), bound) == order::marks(
            points.map_values(
                |point: Point|
                    gives_depth(point, x, y, corner) && ieee::f32_key(point.range) < bound,
            ),
        ),
        ranges_in(points, x, y, corner).len() <= points.len(),
    decreases points.len(),
{
    let inside = points.map_values(|point: Point| gives_depth(point, x, y, corner));
    let below = points.map_values(
        |point: Point| gives_depth(point, x, y, corner) && ieee::f32_key(point.range) < bound,
    );
    let ranges = ranges_in(points, x, y, corner);
    let counted = range_keys(ranges).map_values(|key: i128| key < bound);
    if points.len() > 0 {
        let before = points.drop_last();
        lemma_ranges_are_counted(before, x, y, corner, bound);
        let earlier = ranges_in(before, x, y, corner);
        assert(inside.drop_last() =~= before.map_values(
            |point: Point| gives_depth(point, x, y, corner),
        ));
        assert(below.drop_last() =~= before.map_values(
            |point: Point| gives_depth(point, x, y, corner) && ieee::f32_key(point.range) < bound,
        ));
        if gives_depth(points.last(), x, y, corner) {
            assert(counted.drop_last() =~= range_keys(earlier).map_values(
                |key: i128| key < bound,
            ));
        }
    }
}

/// The order of the points does not matter: as many give a depth, and it is the
/// same number. Only whether a depth of zero has a sign may change.
pub proof fn law_depths_ignore_the_order(
    points: Seq<Point>,
    places: Seq<usize>,
    corner: FarCorner,
    before: Detection,
    one: Detection,
    other: Detection,
)
    requires
        order::is_permutation(places, points.len()),
        has_depth_from(before, one, corner, points),
        has_depth_from(before, other, corner, order::permuted(points, places)),
    ensures
        one.depth_points == other.depth_points,
        one.depth_m is Some <==> other.depth_m is Some,
        one.depth_m is Some ==> ieee::f32_key(one.depth_m->0) == ieee::f32_key(other.depth_m->0),
        one.depth_m is Some && ieee::f32_key(one.depth_m->0) != 0 ==> one == other,
        one.depth_m is None ==> one == other,
{
    let again = order::permuted(points, places);
    let (x, y) = (before.x, before.y);
    let ranges = ranges_in(points, x, y, corner);
    let ranges_again = ranges_in(again, x, y, corner);
    let inside = points.map_values(|point: Point| gives_depth(point, x, y, corner));
    assert(forall|i: int| 0 <= i < places.len() ==> (#[trigger] places[i]) < points.len());
    assert(again.map_values(|point: Point| gives_depth(point, x, y, corner)) =~= order::permuted(
        inside,
        places,
    ));
    order::lemma_marks_permuted(inside, places);
    lemma_ranges_are_counted(points, x, y, corner, 0);
    lemma_ranges_are_counted(again, x, y, corner, 0);
    assert(ranges.len() == ranges_again.len());
    if ranges.len() > 0 {
        law_median(ranges, one.depth_m, one.depth_m);
        law_median(ranges_again, other.depth_m, other.depth_m);
        let half = ranges.len() as int / 2;
        let key = ieee::f32_key(other.depth_m->0);
        lemma_count_again(points, places, x, y, corner, key);
        lemma_count_again(points, places, x, y, corner, key + 1);
        order::law_ranks_are_ordered(
            range_keys(ranges),
            half,
            half,
            ieee::f32_key(one.depth_m->0),
            key,
        );
    }
}

proof fn lemma_count_again(
    points: Seq<Point>,
    places: Seq<usize>,
    x: u64,
    y: u64,
    corner: FarCorner,
    bound: int,
)
    requires
        order::is_permutation(places, points.len()),
    ensures
        order::count_below(
            range_keys(ranges_in(order::permuted(points, places), x, y, corner)),
            bound,
        ) == order::count_below(range_keys(ranges_in(points, x, y, corner)), bound),
{
    let again = order::permuted(points, places);
    let below = points.map_values(
        |point: Point| gives_depth(point, x, y, corner) && ieee::f32_key(point.range) < bound,
    );
    assert(forall|i: int| 0 <= i < places.len() ==> (#[trigger] places[i]) < points.len());
    assert(again.map_values(
        |point: Point| gives_depth(point, x, y, corner) && ieee::f32_key(point.range) < bound,
    ) =~= order::permuted(below, places));
    order::lemma_marks_permuted(below, places);
    lemma_ranges_are_counted(points, x, y, corner, bound);
    lemma_ranges_are_counted(again, x, y, corner, bound);
}

/// Adding depths a second time changes nothing.
pub proof fn law_depths_come_again(
    points: Seq<Point>,
    corner: FarCorner,
    before: Detection,
    one: Detection,
    again: Detection,
)
    requires
        has_depth_from(before, one, corner, points),
        has_depth_from(one, again, corner, points),
    ensures
        again == one,
{
    law_median(ranges_in(points, before.x, before.y, corner), one.depth_m, again.depth_m);
}

/// What is being matched: predictions in order, the true boxes, how much each
/// prediction overlaps each true box (bit patterns of 64-bit floats), and the
/// least overlap that counts.
pub struct Matching {
    pub predictions: Seq<Detection>,
    pub truths: Seq<Detection>,
    pub overlaps: Seq<Vec<u64>>,
    pub threshold: u64,
}

impl Matching {
    /// There is an overlap for each prediction and true box.
    pub open spec fn valid(self) -> bool {
        &&& self.overlaps.len() == self.predictions.len()
        &&& forall|p: int|
            0 <= p < self.overlaps.len() ==> (#[trigger] self.overlaps[p]).len()
                == self.truths.len()
    }

    pub open spec fn overlap(self, p: int, t: int) -> u64 {
        self.overlaps[p]@[t]
    }

    /// The prediction can take the true box: nobody has it, the kind is right,
    /// and the overlap is enough.
    pub open spec fn eligible(self, matched: Seq<bool>, p: int, t: int) -> bool {
        &&& !matched[t]
        &&& self.truths[t].kind@ == self.predictions[p].kind@
        &&& ieee::f64_le(self.threshold, self.overlap(p, t))
    }

    /// The best true box before `end` for a prediction: the one with the
    /// greatest overlap, the last of several.
    pub open spec fn best_before(self, matched: Seq<bool>, p: int, end: int) -> Option<int>
        decreases end,
    {
        if end <= 0 {
            None
        } else {
            let best = self.best_before(matched, p, end - 1);
            if !self.eligible(matched, p, end - 1) {
                best
            } else if best matches Some(t) && ieee::f64_total_key(self.overlap(p, t))
                > ieee::f64_total_key(self.overlap(p, end - 1)) {
                best
            } else {
                Some(end - 1)
            }
        }
    }

    pub open spec fn best(self, matched: Seq<bool>, p: int) -> Option<int> {
        self.best_before(matched, p, self.truths.len() as int)
    }

    /// Which true boxes the first `count` predictions have taken.
    pub open spec fn matched_after(self, count: int) -> Seq<bool>
        decreases count,
    {
        if count <= 0 {
            Seq::new(self.truths.len(), |t: int| false)
        } else {
            let before = self.matched_after(count - 1);
            match self.best(before, count - 1) {
                Some(t) => before.update(t, true),
                None => before,
            }
        }
    }

    /// How many of the first `count` predictions have taken a true box.
    pub open spec fn hits(self, count: int) -> nat
        decreases count,
    {
        if count <= 0 {
            0
        } else if self.best(self.matched_after(count - 1), count - 1) is Some {
            self.hits(count - 1) + 1
        } else {
            self.hits(count - 1)
        }
    }
}

proof fn lemma_marks_bound(marked: Seq<bool>)
    ensures
        order::marks(marked) <= marked.len(),
    decreases marked.len(),
{
    if marked.len() > 0 {
        lemma_marks_bound(marked.drop_last());
    }
}

proof fn lemma_marks_none(len: nat)
    ensures
        order::marks(Seq::new(len, |t: int| false)) == 0,
    decreases len,
{
    let marked = Seq::new(len, |t: int| false);
    if len > 0 {
        lemma_marks_none((len - 1) as nat);
        assert(marked.drop_last() =~= Seq::new((len - 1) as nat, |t: int| false));
    }
}

proof fn lemma_marks_set(marked: Seq<bool>, at: int)
    requires
        0 <= at < marked.len(),
        !marked[at],
    ensures
        order::marks(marked.update(at, true)) == order::marks(marked) + 1,
    decreases marked.len(),
{
    let set = marked.update(at, true);
    if at == marked.len() - 1 {
        assert(set.drop_last() =~= marked.drop_last());
    } else {
        lemma_marks_set(marked.drop_last(), at);
        assert(set.drop_last() =~= marked.drop_last().update(at, true));
    }
}

proof fn lemma_best_before(matching: Matching, matched: Seq<bool>, p: int, end: int)
    ensures
        match matching.best_before(matched, p, end) {
            Some(t) => 0 <= t < end && matching.eligible(matched, p, t) && forall|u: int|
                0 <= u < end && #[trigger] matching.eligible(matched, p, u) ==> {
                    let key = ieee::f64_total_key(matching.overlap(p, u));
                    let best = ieee::f64_total_key(matching.overlap(p, t));
                    key < best || (key == best && u <= t)
                },
            None => forall|u: int| 0 <= u < end ==> !#[trigger] matching.eligible(matched, p, u),
        },
    decreases end,
{
    if end > 0 {
        lemma_best_before(matching, matched, p, end - 1);
    }
}

/// A prediction takes the true box that it overlaps most among those of its kind
/// that nobody has taken and that it overlaps enough, the last of several that
/// it overlaps equally; none where there is none.
pub proof fn law_best_match(matching: Matching, matched: Seq<bool>, p: int)
    requires
        matching.valid(),
        0 <= p < matching.predictions.len(),
    ensures
        match matching.best(matched, p) {
            Some(t) => 0 <= t < matching.truths.len() && matching.eligible(matched, p, t) && forall|
                u: int,
            |
                0 <= u < matching.truths.len() && #[trigger] matching.eligible(matched, p, u) ==> {
                    let key = ieee::f64_total_key(matching.overlap(p, u));
                    let best = ieee::f64_total_key(matching.overlap(p, t));
                    key < best || (key == best && u <= t)
                },
            None => forall|u: int|
                0 <= u < matching.truths.len() ==> !#[trigger] matching.eligible(matched, p, u),
        },
{
    lemma_best_before(matching, matched, p, matching.truths.len() as int);
}

/// No true box is taken twice: each hit takes one more, so there are never more
/// hits than predictions or than true boxes.
pub proof fn law_hits_take_distinct_boxes(matching: Matching, count: int)
    requires
        matching.valid(),
        0 <= count <= matching.predictions.len(),
    ensures
        matching.matched_after(count).len() == matching.truths.len(),
        order::marks(matching.matched_after(count)) == matching.hits(count),
        matching.hits(count) <= matching.truths.len(),
        matching.hits(count) <= count,
    decreases count,
{
    if count <= 0 {
        lemma_marks_none(matching.truths.len());
    } else {
        law_hits_take_distinct_boxes(matching, count - 1);
        let before = matching.matched_after(count - 1);
        law_best_match(matching, before, count - 1);
        if let Some(t) = matching.best(before, count - 1) {
            lemma_marks_set(before, t);
        }
        lemma_marks_bound(matching.matched_after(count));
    }
}

proof fn lemma_matched_stays(matching: Matching, early: int, late: int, t: int)
    requires
        matching.valid(),
        0 <= early <= late <= matching.predictions.len(),
        0 <= t < matching.truths.len(),
        matching.matched_after(early)[t],
    ensures
        matching.matched_after(late)[t],
    decreases late,
{
    if early < late {
        lemma_matched_stays(matching, early, late - 1, t);
        let before = matching.matched_after(late - 1);
        law_hits_take_distinct_boxes(matching, late - 1);
        law_best_match(matching, before, late - 1);
    }
}

/// No pair is left over: a prediction that found no true box could take none of
/// those that are still free in the end. So where nothing was found, no prediction
/// could take any true box.
pub proof fn law_no_pair_is_left_over(matching: Matching, p: int, t: int)
    requires
        matching.valid(),
        0 <= p < matching.predictions.len(),
        0 <= t < matching.truths.len(),
    ensures
        matching.best(matching.matched_after(p), p) is None ==> !matching.eligible(
            matching.matched_after(matching.predictions.len() as int),
            p,
            t,
        ),
        matching.hits(matching.predictions.len() as int) == 0 ==> !matching.eligible(
            matching.matched_after(0),
            p,
            t,
        ),
{
    let count = matching.predictions.len() as int;
    law_best_match(matching, matching.matched_after(p), p);
    if matching.best(matching.matched_after(p), p) is None {
        assert(!matching.eligible(matching.matched_after(p), p, t));
        if matching.matched_after(p)[t] {
            lemma_matched_stays(matching, p, count, t);
        }
    }
    if matching.hits(count) == 0 {
        lemma_no_hits(matching, p, count);
    }
}

proof fn lemma_no_hits(matching: Matching, p: int, count: int)
    requires
        0 <= p < count,
        matching.hits(count) == 0,
    ensures
        matching.matched_after(p) == matching.matched_after(0),
        matching.best(matching.matched_after(p), p) is None,
    decreases count,
{
    if p < count - 1 {
        lemma_no_hits(matching, p, count - 1);
    } else if p > 0 {
        lemma_no_hits(matching, p - 1, count - 1);
    }
}

/// Counts the predictions that found a true box, those that found none, and the
/// true boxes that were not found.
pub fn evaluate_detections(
    predictions: &[Detection],
    ground_truth: &[Detection],
    overlaps: &[Vec<u64>],
    threshold: u64,
) -> (counts: (usize, usize, usize))
    requires
        (Matching {
            predictions: predictions@,
            truths: ground_truth@,
            overlaps: overlaps@,
            threshold,
        }).valid(),
    ensures
        counts.0 == (Matching {
            predictions: predictions@,
            truths: ground_truth@,
            overlaps: overlaps@,
            threshold,
        }).hits(predictions@.len() as int),
        counts.0 + counts.1 == predictions.len(),
        counts.0 + counts.2 == ground_truth.len(),
{
    let ghost matching = Matching {
        predictions: predictions@,
        truths: ground_truth@,
        overlaps: overlaps@,
        threshold,
    };
    let mut matched: Vec<bool> = Vec::new();
    while matched.len() < ground_truth.len()
        invariant
            matched.len() <= ground_truth.len(),
            forall|t: int| 0 <= t < matched.len() ==> !matched@[t],
        decreases ground_truth.len() - matched.len(),
    {
        matched.push(false);
    }
    assert(matched@ =~= matching.matched_after(0));
    let mut true_positives: usize = 0;
    let mut p: usize = 0;
    while p < predictions.len()
        invariant
            p <= predictions.len(),
            matching == (Matching {
                predictions: predictions@,
                truths: ground_truth@,
                overlaps: overlaps@,
                threshold,
            }),
            matching.valid(),
            matched@ == matching.matched_after(p as int),
            matched.len() == ground_truth.len(),
            true_positives == matching.hits(p as int),
            true_positives <= p,
        decreases predictions.len() - p,
    {
        let mut best: Option<usize> = None;
        let mut t: usize = 0;
        while t < ground_truth.len()
            invariant
                t <= ground_truth.len(),
                p < predictions.len(),
                matching == (Matching {
                    predictions: predictions@,
                    truths: ground_truth@,
                    overlaps: overlaps@,
                    threshold,
                }),
                matching.valid(),
                matched.len() == ground_truth.len(),
                match best {
                    Some(b) => b < t && matching.best_before(matched@, p as int, t as int) == Some(
                        b as int,
                    ),
                    None => matching.best_before(matched@, p as int, t as int) is None,
                },
            decreases ground_truth.len() - t,
        {
            let row: &Vec<u64> = &overlaps[p];
            assert(matching.overlaps[p as int].len() == matching.truths.len());
            let eligible: bool = !matched[t] && text::same_text(
                ground_truth[t].kind,
                predictions[p].kind,
            ) && ieee::le64(threshold, row[t]);
            if eligible {
                best = match best {
                    Some(b) => if ieee::total_key64(row[b]) > ieee::total_key64(row[t]) {
                        Some(b)
                    } else {
                        Some(t)
                    },
                    None => Some(t),
                };
            }
            t = t + 1;
        }
        if let Some(b) = best {
            matched.set(b, true);
            true_positives = true_positives + 1;
        }
        p = p + 1;
    }
    proof {
        law_hits_take_distinct_boxes(matching, predictions@.len() as int);
    }
    (true_positives, predictions.len() - true_positives, ground_truth.len() - true_positives)
}

/// The fields of a detection table.
pub open spec fn detection_fields() -> Seq<FieldModel> {
    seq![
        FieldModel { name: "object_id"@, nullable: false },
        FieldModel { name: "class"@, nullable: false },
        FieldModel { name: "score"@, nullable: true },
        FieldModel { name: "x"@, nullable: false },
        FieldModel { name: "y"@, nullable: false },
        FieldModel { name: "width"@, nullable: false },
        FieldModel { name: "height"@, nullable: false },
    ]
}

/// The ids of detections.
pub open spec fn ids_of(detections: Seq<Detection>) -> Seq<Seq<char>> {
    detections.map_values(|d: Detection| d.id@)
}

/// The classes of detections.
pub open spec fn kinds_of(detections: Seq<Detection>) -> Seq<Seq<char>> {
    detections.map_values(|d: Detection| d.kind@)
}

/// The scores of detections: zero stands in a slot that is null.
pub open spec fn scores_of(detections: Seq<Detection>) -> ArrayModel {
    ArrayModel {
        len: detections.len(),
        nulls: detections.map_values(|d: Detection| d.score is None),
        values: ArrayValues::Float32(
            detections.map_values(
                |d: Detection|
                    match d.score {
                        Some(score) => score,
                        None => 0,
                    },
            ),
        ),
    }
}

/// The table holds the detections, one to a row.
pub open spec fn is_detection_table(batch: TableModel, detections: Seq<Detection>) -> bool {
    &&& batch.valid()
    &&& batch.rows == detections.len()
    &&& batch.fields() == detection_fields()
    &&& table::schema_metadata(batch.schema) == Map::<Seq<char>, Seq<char>>::empty().insert(
        "coordinate_frame"@,
        "front_camera_pixels"@,
    )
    &&& batch.columns.len() == 7
    &&& batch.array(0) == table::plain_array(
        detections.len(),
        ArrayValues::Utf8(ids_of(detections)),
    )
    &&& batch.array(1) == table::plain_array(
        detections.len(),
        ArrayValues::Utf8(kinds_of(detections)),
    )
    &&& batch.array(2) == scores_of(detections)
    &&& batch.array(3) == table::float64s(detections.map_values(|d: Detection| d.x))
    &&& batch.array(4) == table::float64s(detections.map_values(|d: Detection| d.y))
    &&& batch.array(5) == table::float64s(detections.map_values(|d: Detection| d.width))
    &&& batch.array(6) == table::float64s(detections.map_values(|d: Detection| d.height))
}

/// The Arrow table of the detections.
pub fn detection_batch(detections: &[Detection]) -> (batch: Result<Batch, ArrowError>)
    requires
        table::text_bytes(ids_of(detections@)) <= i32::MAX,
        table::text_bytes(kinds_of(detections@)) <= i32::MAX,
    ensures
        batch matches Ok(batch) && is_detection_table(batch@, detections@),
{
    let mut ids: Vec<String> = Vec::new();
    let mut kinds: Vec<String> = Vec::new();
    let mut scores: Vec<u32> = Vec::new();
    let mut scored: Vec<bool> = Vec::new();
    let mut x: Vec<u64> = Vec::new();
    let mut y: Vec<u64> = Vec::new();
    let mut width: Vec<u64> = Vec::new();
    let mut height: Vec<u64> = Vec::new();
    let mut i: usize = 0;
    while i < detections.len()
        invariant
            i <= detections.len(),
            ids.len() == i,
            kinds.len() == i,
            scores.len() == i,
            scored.len() == i,
            forall|j: int| 0 <= j < i ==> (#[trigger] ids@[j])@ == detections@[j].id@,
            forall|j: int| 0 <= j < i ==> (#[trigger] kinds@[j])@ == detections@[j].kind@,
            forall|j: int|
                0 <= j < i ==> #[trigger] scores@[j] == match detections@[j].score {
                    Some(score) => score,
                    None => 0,
                },
            forall|j: int| 0 <= j < i ==> #[trigger] scored@[j] == detections@[j].score is Some,
            x@ == detections@.take(i as int).map_values(|d: Detection| d.x),
            y@ == detections@.take(i as int).map_values(|d: Detection| d.y),
            width@ == detections@.take(i as int).map_values(|d: Detection| d.width),
            height@ == detections@.take(i as int).map_values(|d: Detection| d.height),
        decreases detections.len() - i,
    {
        let detection = &detections[i];
        ids.push(detection.id.clone());
        kinds.push(detection.kind.to_owned());
        match detection.score {
            Some(score) => {
                scores.push(score);
                scored.push(true);
            },
            None => {
                scores.push(0);
                scored.push(false);
            },
        }
        x.push(detection.x);
        y.push(detection.y);
        width.push(detection.width);
        height.push(detection.height);
        i = i + 1;
    }
    proof {
        assert(detections@.take(i as int) =~= detections@);
        assert(ids@.map_values(|text: String| text@) =~= ids_of(detections@));
        assert(kinds@.map_values(|text: String| text@) =~= kinds_of(detections@));
        assert(scores@ =~= scores_of(detections@).values->Float32_0);
        assert(scored@.map_values(|v: bool| !v) =~= scores_of(detections@).nulls);
    }
    let fields: Vec<NewField> = vec![
        table::required("object_id"),
        table::required("class"),
        NewField { name: "score".to_owned(), nullable: true },
        table::required("x"),
        table::required("y"),
        table::required("width"),
        table::required("height"),
    ];
    let metadata: Vec<(String, String)> = vec![
        table::entry("coordinate_frame", "front_camera_pixels"),
    ];
    let columns: Vec<Column> = vec![
        table::utf8_array(&ids),
        table::utf8_array(&kinds),
        table::nullable_float32_array(scores, scored),
        table::float64_array(x),
        table::float64_array(y),
        table::float64_array(width),
        table::float64_array(height),
    ];
    proof {
        reveal_with_fuel(table::metadata_map, 2);
        assert(metadata@.drop_last() =~= Seq::empty());
        assert(fields@.map_values(
            |field: NewField| FieldModel { name: field.name@, nullable: field.nullable },
        ) =~= detection_fields());
    }
    Batch::with_fields(&fields, columns, &metadata)
}

/// The points that count for a box are those with a finite range that the front
/// camera sees across between its left and its right edge and down between its
/// upper and its lower one. The depth is the range of one of them, there is one
/// exactly where any counts, and nothing else of the detection changes.
pub proof fn law_points_between_the_edges_count(
    points: Seq<Point>,
    corner: FarCorner,
    before: Detection,
    after: Detection,
)
    requires
        has_depth_from(before, after, corner, points),
    ensures
        after.depth_points == order::marks(
            Seq::new(
                points.len(),
                |i: int|
                    {
                        let across = ieee::f32_as_f64(points[i].u);
                        let down = ieee::f32_as_f64(points[i].v);
                        &&& points[i].camera == 1
                        &&& ieee::f32_is_finite(points[i].range)
                        &&& ieee::f64_le(before.x, across) && ieee::f64_le(across, corner.right)
                        &&& ieee::f64_le(before.y, down) && ieee::f64_le(down, corner.bottom)
                    },
            ),
        ),
        after.depth_m is Some <==> after.depth_points > 0,
        after.depth_m matches Some(depth) ==> exists|i: int|
            {
                let across = ieee::f32_as_f64(points[i].u);
                let down = ieee::f32_as_f64(points[i].v);
                &&& 0 <= i < points.len()
                &&& (#[trigger] points[i]).range == depth
                &&& points[i].camera == 1
                &&& ieee::f64_le(before.x, across) && ieee::f64_le(across, corner.right)
                &&& ieee::f64_le(before.y, down) && ieee::f64_le(down, corner.bottom)
            },
        after.id == before.id,
        after.kind == before.kind,
        after.x == before.x,
        after.y == before.y,
        after.width == before.width,
        after.height == before.height,
        after.score == before.score,
{
    let (x, y) = (before.x, before.y);
    lemma_ranges_are_counted(points, x, y, corner, 0);
    assert(points.map_values(|point: Point| gives_depth(point, x, y, corner)) =~= Seq::new(
        points.len(),
        |i: int|
            {
                let across = ieee::f32_as_f64(points[i].u);
                let down = ieee::f32_as_f64(points[i].v);
                &&& points[i].camera == 1
                &&& ieee::f32_is_finite(points[i].range)
                &&& ieee::f64_le(before.x, across) && ieee::f64_le(across, corner.right)
                &&& ieee::f64_le(before.y, down) && ieee::f64_le(down, corner.bottom)
            },
    ));
    let ranges = ranges_in(points, x, y, corner);
    law_median(ranges, after.depth_m, after.depth_m);
    if let Some(depth) = after.depth_m {
        let at = choose|at: int| 0 <= at < ranges.len() && ranges[at] == depth;
        lemma_range_of_point(points, x, y, corner, at);
    }
}

proof fn lemma_range_of_point(points: Seq<Point>, x: u64, y: u64, corner: FarCorner, at: int)
    requires
        0 <= at < ranges_in(points, x, y, corner).len(),
    ensures
        exists|i: int|
            0 <= i < points.len() && (#[trigger] points[i]).range == ranges_in(
                points,
                x,
                y,
                corner,
            )[at] && in_box(points[i], x, y, corner),
    decreases points.len(),
{
    if points.len() > 0 {
        let fewer = points.drop_last();
        let before = ranges_in(fewer, x, y, corner);
        if at < before.len() {
            lemma_range_of_point(fewer, x, y, corner, at);
            let i = choose|i: int|
                0 <= i < fewer.len() && (#[trigger] fewer[i]).range == before[at] && in_box(
                    fewer[i],
                    x,
                    y,
                    corner,
                );
            assert(points[i] == fewer[i]);
        } else {
            assert(points[points.len() - 1] == points.last());
        }
    }
}

/// Only whether a point lies between the edges matters, not where: a point that
/// moves across between the left and the right edge, or down between the upper and
/// the lower one, changes nothing.
pub proof fn law_moves_between_the_edges_change_nothing(
    points: Seq<Point>,
    moved: Seq<Point>,
    corner: FarCorner,
    before: Detection,
    one: Detection,
    other: Detection,
)
    requires
        moved.len() == points.len(),
        forall|i: int|
            #![trigger moved[i]]
            0 <= i < points.len() ==> {
                let (u, v) = (ieee::f32_as_f64(points[i].u), ieee::f32_as_f64(points[i].v));
                let (new_u, new_v) = (
                    ieee::f32_as_f64(moved[i].u),
                    ieee::f32_as_f64(moved[i].v),
                );
                &&& moved[i].camera == points[i].camera
                &&& moved[i].range == points[i].range
                &&& moved[i].u == points[i].u || (ieee::f64_le(before.x, u) && ieee::f64_le(
                    u,
                    corner.right,
                ) && ieee::f64_le(before.x, new_u) && ieee::f64_le(new_u, corner.right))
                &&& moved[i].v == points[i].v || (ieee::f64_le(before.y, v) && ieee::f64_le(
                    v,
                    corner.bottom,
                ) && ieee::f64_le(before.y, new_v) && ieee::f64_le(new_v, corner.bottom))
            },
        has_depth_from(before, one, corner, points),
        has_depth_from(before, other, corner, moved),
    ensures
        other == one,
{
    assert(ranges_in(moved, before.x, before.y, corner) == ranges_in(
        points,
        before.x,
        before.y,
        corner,
    )) by {
        assert forall|i: int| 0 <= i < points.len() implies (#[trigger] moved[i]).range
            == points[i].range && in_box(moved[i], before.x, before.y, corner) == in_box(
            points[i],
            before.x,
            before.y,
            corner,
        ) by {}
        lemma_same_ranges(points, moved, before.x, before.y, corner);
    }
    law_median(ranges_in(points, before.x, before.y, corner), one.depth_m, other.depth_m);
}

proof fn lemma_same_ranges(
    points: Seq<Point>,
    moved: Seq<Point>,
    x: u64,
    y: u64,
    corner: FarCorner,
)
    requires
        moved.len() == points.len(),
        forall|i: int|
            0 <= i < points.len() ==> (#[trigger] moved[i]).range == points[i].range && in_box(
                moved[i],
                x,
                y,
                corner,
            ) == in_box(points[i], x, y, corner),
    ensures
        ranges_in(moved, x, y, corner) == ranges_in(points, x, y, corner),
    decreases points.len(),
{
    if points.len() > 0 {
        let (fewer, again) = (points.drop_last(), moved.drop_last());
        assert forall|i: int| 0 <= i < fewer.len() implies (#[trigger] again[i]).range
            == fewer[i].range && in_box(again[i], x, y, corner) == in_box(fewer[i], x, y, corner) by {
            assert(again[i] == moved[i]);
        }
        lemma_same_ranges(fewer, again, x, y, corner);
        assert(moved[moved.len() - 1] == moved.last());
    }
}

/// The dataset numbers vehicles, pedestrians, signs and cyclists from one to four;
/// no other number has a name.
pub proof fn law_object_types(value: i64)
    ensures
        value == 1 <==> object_type_text(value) == "vehicle"@,
        value == 2 <==> object_type_text(value) == "pedestrian"@,
        value == 3 <==> object_type_text(value) == "sign"@,
        value == 4 <==> object_type_text(value) == "cyclist"@,
        value < 1 || value > 4 <==> object_type_text(value) == "unknown"@,
{
    reveal_strlit("vehicle");
    reveal_strlit("pedestrian");
    reveal_strlit("sign");
    reveal_strlit("cyclist");
    reveal_strlit("unknown");
    assert("vehicle"@.len() == 7 && "pedestrian"@.len() == 10 && "sign"@.len() == 4
        && "cyclist"@.len() == 7 && "unknown"@.len() == 7);
    assert("vehicle"@[0] == 'v' && "cyclist"@[0] == 'c' && "unknown"@[0] == 'u');
}

/// A box holds what its row of the table holds, each number from the column of its
/// name.
pub proof fn law_boxes_tell_of_their_rows(
    table: TableModel,
    columns: BoxColumns,
    row: int,
    found: BoxRow,
)
    requires
        box_columns(table) == Ok::<BoxColumns, ColumnFault>(columns),
        columns.has_box(row, found),
    ensures
        columns::int64_of(table, "key.frame_timestamp_micros"@) matches Ok(times)
            && found.timestamp == times[row],
        columns::utf8_of(table, "key.camera_object_id"@) matches Ok(ids) && found.id@ == ids[row],
        columns::float64_of(table, "[CameraBoxComponent].box.center.x"@) matches Ok(values)
            && found.center_x == values[row],
        columns::float64_of(table, "[CameraBoxComponent].box.center.y"@) matches Ok(values)
            && found.center_y == values[row],
        columns::float64_of(table, "[CameraBoxComponent].box.size.x"@) matches Ok(values)
            && found.width == values[row],
        columns::float64_of(table, "[CameraBoxComponent].box.size.y"@) matches Ok(values)
            && found.height == values[row],
        columns::integer_of(table, "[CameraBoxComponent].type"@) matches Ok(kinds)
            && found.kind@ == object_type_text(kinds[row]),
        columns::integer_of(table, "key.camera_name"@) matches Ok(cameras) && columns.cameras
            == cameras,
{
}

/// The rows that are read are those of the front camera, whose number is one, at
/// the wanted time where one is wanted; each is read once, and they come in order.
pub proof fn law_wanted_rows(columns: BoxColumns, only: Option<i64>, end: int)
    ensures
        forall|row: int| #[trigger]
            columns.wanted_rows(only, end).contains(row) <==> 0 <= row < end
                && columns.cameras[row] == 1 && (only is None || columns.timestamps[row]
                == only->0),
        forall|i: int, j: int|
            0 <= i < j < columns.wanted_rows(only, end).len() ==> #[trigger] columns.wanted_rows(
                only,
                end,
            )[i] < #[trigger] columns.wanted_rows(only, end)[j],
    decreases end,
{
    if end > 0 {
        law_wanted_rows(columns, only, end - 1);
        let before = columns.wanted_rows(only, end - 1);
        let rows = columns.wanted_rows(only, end);
        assert forall|row: int| #[trigger] rows.contains(row) <==> 0 <= row < end
            && columns.cameras[row] == 1 && (only is None || columns.timestamps[row] == only->0) by {
            if before.contains(row) {
                let i = choose|i: int| 0 <= i < before.len() && before[i] == row;
                assert(rows[i] == row);
            }
            if rows.contains(row) {
                let i = choose|i: int| 0 <= i < rows.len() && rows[i] == row;
                if i < before.len() {
                    assert(before[i] == row);
                }
            }
            if rows.len() > before.len() {
                assert(rows[before.len() as int] == end - 1);
            }
        }
        assert forall|i: int, j: int| 0 <= i < j < rows.len() implies #[trigger] rows[i]
            < #[trigger] rows[j] by {
            assert(rows[i] == before[i]);
            assert(before.contains(before[i]));
            if j < before.len() {
                assert(rows[j] == before[j]);
            }
        }
    }
}

/// A prediction takes a true box only where nobody has it, it is of the prediction's
/// type, and they overlap at least as much as the threshold; where there is such a
/// box it takes one, and one that it overlaps no less.
pub proof fn law_taken_boxes_are_free_and_alike(
    matching: Matching,
    matched: Seq<bool>,
    p: int,
    u: int,
)
    requires
        matching.valid(),
        0 <= p < matching.predictions.len(),
        0 <= u < matching.truths.len(),
    ensures
        matching.best(matched, p) matches Some(t) ==> {
            &&& 0 <= t < matching.truths.len()
            &&& !matched[t]
            &&& matching.truths[t].kind@ == matching.predictions[p].kind@
            &&& ieee::f64_le(matching.threshold, matching.overlaps[p]@[t])
        },
        !matched[u] && matching.truths[u].kind@ == matching.predictions[p].kind@ && ieee::f64_le(
            matching.threshold,
            matching.overlaps[p]@[u],
        ) ==> {
            &&& matching.best(matched, p) is Some
            &&& ieee::f64_total_key(matching.overlaps[p]@[u]) <= ieee::f64_total_key(
                matching.overlaps[p]@[matching.best(matched, p)->0],
            )
        },
{
    law_best_match(matching, matched, p);
    assert(matching.overlap(p, u) == matching.overlaps[p]@[u]);
    assert(matching.eligible(matched, p, u) == (!matched[u] && matching.truths[u].kind@
        == matching.predictions[p].kind@ && ieee::f64_le(
        matching.threshold,
        matching.overlaps[p]@[u],
    )));
    if let Some(t) = matching.best(matched, p) {
        assert(matching.eligible(matched, p, t));
        assert(matching.overlap(p, t) == matching.overlaps[p]@[t]);
    }
}

/// A true box is taken after some predictions exactly where one of them took it.
pub proof fn law_taken_boxes_were_taken(matching: Matching, count: int, t: int)
    requires
        matching.valid(),
        0 <= count <= matching.predictions.len(),
        0 <= t < matching.truths.len(),
    ensures
        matching.matched_after(count)[t] <==> exists|p: int|
            0 <= p < count && #[trigger] matching.best(matching.matched_after(p), p) == Some(t),
    decreases count,
{
    law_hits_take_distinct_boxes(matching, count);
    if count > 0 {
        law_taken_boxes_were_taken(matching, count - 1, t);
        law_hits_take_distinct_boxes(matching, count - 1);
        let before = matching.matched_after(count - 1);
        law_best_match(matching, before, count - 1);
        if matching.matched_after(count)[t] && !before[t] {
            assert(matching.best(matching.matched_after(count - 1), count - 1) == Some(t));
        }
        if matching.matched_after(count - 1)[t] {
            let p = choose|p: int|
                0 <= p < count - 1 && #[trigger] matching.best(matching.matched_after(p), p)
                    == Some(t);
            assert(0 <= p < count);
        }
    }
}

/// The column at a place has that name and holds these numbers, none of them null.
pub open spec fn column_holds(
    batch: TableModel,
    at: int,
    name: Seq<char>,
    values: Seq<u64>,
) -> bool {
    &&& batch.fields()[at].name == name
    &&& !batch.fields()[at].nullable
    &&& batch.array(at).len == values.len()
    &&& batch.array(at).values == ArrayValues::Float64(values)
    &&& forall|row: int| 0 <= row < values.len() ==> !batch.array(at).nulls[row]
}

/// A detection table has a row for each detection, in order: its name and its type,
/// its score or a null, its corner and its size, each in the column of its name.
pub proof fn law_detection_tables_name_their_columns(
    batch: TableModel,
    detections: Seq<Detection>,
    row: int,
)
    requires
        is_detection_table(batch, detections),
        0 <= row < detections.len(),
    ensures
        batch.rows == detections.len(),
        batch.fields()[0].name == "object_id"@,
        batch.array(0).values matches ArrayValues::Utf8(ids) && ids[row] == detections[row].id@,
        batch.fields()[1].name == "class"@,
        batch.array(1).values matches ArrayValues::Utf8(kinds) && kinds[row]
            == detections[row].kind@,
        batch.fields()[2].name == "score"@,
        batch.array(2).nulls[row] <==> detections[row].score is None,
        detections[row].score matches Some(score) ==> (batch.array(2).values
            matches ArrayValues::Float32(scores) && scores[row] == score),
        column_holds(batch, 3, "x"@, Seq::new(detections.len(), |i: int| detections[i].x)),
        column_holds(batch, 4, "y"@, Seq::new(detections.len(), |i: int| detections[i].y)),
        column_holds(batch, 5, "width"@, Seq::new(detections.len(), |i: int| detections[i].width)),
        column_holds(batch, 6, "height"@, Seq::new(detections.len(), |i: int| detections[i].height)),
{
    assert(detections.map_values(|d: Detection| d.x) =~= Seq::new(
        detections.len(),
        |i: int| detections[i].x,
    ));
    assert(detections.map_values(|d: Detection| d.y) =~= Seq::new(
        detections.len(),
        |i: int| detections[i].y,
    ));
    assert(detections.map_values(|d: Detection| d.width) =~= Seq::new(
        detections.len(),
        |i: int| detections[i].width,
    ));
    assert(detections.map_values(|d: Detection| d.height) =~= Seq::new(
        detections.len(),
        |i: int| detections[i].height,
    ));
}

/// A part of a path that is one name: it is not empty, and no slash begins or ends
/// it.
pub open spec fn is_plain_part(part: Seq<char>) -> bool {
    part.len() > 0 && part[0] != '/' && part.last() != '/'
}

/// A component of a segment is a file named after the segment, in the folder of the
/// component, in that of the split, under the root.
pub proof fn law_components_lie_under_the_root(
    root: Seq<char>,
    split: Seq<char>,
    component: Seq<char>,
    segment: Seq<char>,
)
    requires
        root.len() > 0,
        root.last() != '/',
        is_plain_part(split),
        is_plain_part(component),
        is_plain_part(segment),
    ensures
        component_path_text(root, split, component, segment) == root + "/"@ + split + "/"@
            + component + "/"@ + segment + ".parquet"@,
{
    reveal_strlit("/");
    reveal_strlit(".parquet");
    assert(component_path_text(root, split, component, segment) =~= root + "/"@ + split + "/"@
        + component + "/"@ + segment + ".parquet"@);
}

} // verus!
