//! Camera and LiDAR frames, as rows of the dataset's tables.
//!
//! A file is read table by table. A cursor goes through the rows of each table
//! and hands out the frames of the front camera or of the top LiDAR, one at a
//! time, so that a frame is decoded only when it is wanted.
use vstd::prelude::*;
use vstd::string::StringExecFns;

use crate::columns::{self, ColumnError};
#[allow(unused_imports)]
use crate::columns::ColumnFault;
#[allow(unused_imports)]
use crate::measurement::{CameraName, LidarName, SensorId};
use crate::table::{self, Batch};
#[allow(unused_imports)]
use crate::table::TableModel;

verus! {

/// The dataset's number for the front camera.
pub const FRONT_CAMERA: i64 = 1;

/// The dataset's number for the top LiDAR.
pub const TOP_LIDAR: i64 = 1;

/// One picture of the front camera.
#[derive(Debug)]
pub struct CameraFrame {
    pub timestamp: i64,
    pub jpeg: Vec<u8>,
}

/// One range image: a grid of `shape[0]` rows and `shape[1]` columns with
/// `shape[2]` numbers per cell, given by their bit patterns.
#[derive(Debug)]
pub struct LidarFrame {
    pub timestamp: i64,
    pub values: Vec<u32>,
    pub shape: [usize; 3],
}

/// What is known of a LiDAR's place and beams: bit patterns of 64-bit floats.
#[derive(Debug)]
pub struct Calibration {
    pub extrinsic: [u64; 16],
    pub inclination_min: u64,
    pub inclination_max: u64,
    pub inclinations: Vec<u64>,
}

/// Why a row holds no range image.
#[derive(Debug)]
pub enum FrameError {
    Column(ColumnError),
    /// The shape does not have three dimensions.
    ShapeRank,
    /// The shape does not multiply out to the number of values.
    ShapeMismatch,
}

/// What a frame error says.
pub enum FrameFault {
    Column(ColumnFault),
    ShapeRank,
    ShapeMismatch,
}

impl View for FrameError {
    type V = FrameFault;

    open spec fn view(&self) -> FrameFault {
        match self {
            FrameError::Column(error) => FrameFault::Column(error@),
            FrameError::ShapeRank => FrameFault::ShapeRank,
            FrameError::ShapeMismatch => FrameFault::ShapeMismatch,
        }
    }
}

/// Why a row holds no calibration.
#[derive(Debug)]
pub enum CalibrationError {
    Column(ColumnError),
    /// The transform does not have sixteen numbers.
    ExtrinsicSize,
}

/// What a calibration error says.
pub enum CalibrationFault {
    Column(ColumnFault),
    ExtrinsicSize,
}

impl View for CalibrationError {
    type V = CalibrationFault;

    open spec fn view(&self) -> CalibrationFault {
        match self {
            CalibrationError::Column(error) => CalibrationFault::Column(error@),
            CalibrationError::ExtrinsicSize => CalibrationFault::ExtrinsicSize,
        }
    }
}

/// The first row from `from` on whose key is the wanted one.
pub open spec fn next_match(keys: Seq<i64>, wanted: i64, from: int) -> Option<int>
    decreases keys.len() - from,
{
    if from < 0 || from >= keys.len() {
        None
    } else if keys[from] == wanted {
        Some(from)
    } else {
        next_match(keys, wanted, from + 1)
    }
}

/// All rows from `from` on whose key is the wanted one, in order.
pub open spec fn matches_from(keys: Seq<i64>, wanted: i64, from: int) -> Seq<int>
    decreases keys.len() - from,
{
    if from < 0 || from >= keys.len() {
        Seq::empty()
    } else if keys[from] == wanted {
        seq![from] + matches_from(keys, wanted, from + 1)
    } else {
        matches_from(keys, wanted, from + 1)
    }
}

/// Going from match to match visits every matching row once, in order.
pub proof fn law_matches_are_visited_in_turn(keys: Seq<i64>, wanted: i64, from: int)
    requires
        0 <= from <= keys.len(),
    ensures
        matches_from(keys, wanted, from) == match next_match(keys, wanted, from) {
            Some(row) => seq![row] + matches_from(keys, wanted, row + 1),
            None => Seq::<int>::empty(),
        },
        next_match(keys, wanted, from) matches Some(row) ==> from <= row < keys.len()
            && keys[row] == wanted && forall|k: int| from <= k < row ==> keys[k] != wanted,
        next_match(keys, wanted, from) is None ==> forall|k: int|
            from <= k < keys.len() ==> keys[k] != wanted,
    decreases keys.len() - from,
{
    if from < keys.len() && keys[from] != wanted {
        law_matches_are_visited_in_turn(keys, wanted, from + 1);
    }
}

/// The columns of a camera image table that the library reads.
pub struct CameraColumns {
    pub timestamps: Seq<i64>,
    pub cameras: Seq<i64>,
    pub images: Seq<Seq<u8>>,
}

pub open spec fn camera_columns(table: TableModel) -> Result<CameraColumns, ColumnFault> {
    match columns::int64_of(table, "key.frame_timestamp_micros"@) {
        Err(fault) => Err(fault),
        Ok(timestamps) => match columns::integer_of(table, "key.camera_name"@) {
            Err(fault) => Err(fault),
            Ok(cameras) => match columns::binary_of(table, "[CameraImageComponent].image"@) {
                Err(fault) => Err(fault),
                Ok(images) => Ok(CameraColumns { timestamps, cameras, images }),
            },
        },
    }
}

impl CameraColumns {
    /// `frame` is the row at `row`.
    pub open spec fn has_frame(self, row: int, frame: CameraFrame) -> bool {
        frame.timestamp == self.timestamps[row] && frame.jpeg@ == self.images[row]
    }
}

/// Where a reader stands: the next row of the current table, how many frames it
/// has handed out, and how many it may hand out (without limit where zero).
#[derive(Clone, Copy)]
pub struct FrameCursor {
    pub row: usize,
    pub count: usize,
    pub limit: usize,
}

impl FrameCursor {
    /// As many frames as were asked for have been handed out.
    pub open spec fn at_limit(self) -> bool {
        self.limit > 0 && self.count >= self.limit
    }

    pub fn new(limit: usize) -> (cursor: FrameCursor)
        ensures
            cursor == (FrameCursor { row: 0, count: 0, limit }),
    {
        FrameCursor { row: 0, count: 0, limit }
    }

    /// Goes to the first row of the next table.
    pub fn start_table(&mut self)
        ensures
            *final(self) == (FrameCursor { row: 0, ..*old(self) }),
    {
        self.row = 0;
    }

    pub fn is_at_limit(&self) -> (done: bool)
        ensures
            done == self.at_limit(),
    {
        self.limit > 0 && self.count >= self.limit
    }

    /// The next picture of the front camera in this table.
    pub fn next_camera_frame(&mut self, batch: &Batch) -> (frame: Result<
        Option<CameraFrame>,
        ColumnError,
    >)
        requires
            batch@.valid(),
            old(self).row <= batch@.rows,
            old(self).row < batch@.rows ==> old(self).count < usize::MAX,
        ensures
            final(self).row <= batch@.rows,
            old(self).at_limit() ==> frame == Ok::<Option<CameraFrame>, ColumnError>(None)
                && *final(self) == *old(self),
            !old(self).at_limit() ==> match camera_columns(batch@) {
                Err(fault) => frame matches Err(error) && error@ == fault && *final(self) == *old(
                    self,
                ),
                Ok(columns) => match next_match(columns.cameras, FRONT_CAMERA, old(self).row as int) {
                    None => frame == Ok::<Option<CameraFrame>, ColumnError>(None) && *final(self)
                        == (FrameCursor { row: batch@.rows as usize, ..*old(self) }),
                    Some(row) => frame matches Ok(Some(frame)) && columns.has_frame(row, frame)
                        && *final(self) == (FrameCursor {
                        row: (row + 1) as usize,
                        count: (old(self).count + 1) as usize,
                        ..*old(self)
                    }),
                },
            },
    {
        if self.is_at_limit() {
            return Ok(None);
        }
        let timestamps: Vec<i64> = match columns::int64(batch, "key.frame_timestamp_micros") {
            Ok(values) => values,
            Err(error) => {
                return Err(error);
            },
        };
        let cameras: Vec<i64> = match columns::integer(batch, "key.camera_name") {
            Ok(values) => values,
            Err(error) => {
                return Err(error);
            },
        };
        let images: usize = match columns::binary(batch, "[CameraImageComponent].image") {
            Ok(index) => index,
            Err(error) => {
                return Err(error);
            },
        };
        let mut row: usize = self.row;
        while row < cameras.len()
            invariant
                row <= cameras.len(),
                cameras.len() == batch@.rows,
                next_match(cameras@, FRONT_CAMERA, old(self).row as int) == next_match(
                    cameras@,
                    FRONT_CAMERA,
                    row as int,
                ),
                *self == *old(self),
                batch@.valid(),
                timestamps.len() == batch@.rows,
                row < cameras.len() ==> old(self).count < usize::MAX,
                !old(self).at_limit(),
                images < batch@.columns.len(),
                columns::column_at(batch@, "[CameraImageComponent].image"@) == Ok::<
                    int,
                    ColumnFault,
                >(images as int),
                batch@.array(images as int).values is Binary,
                camera_columns(batch@) == Ok::<CameraColumns, ColumnFault>(
                    CameraColumns {
                        timestamps: timestamps@,
                        cameras: cameras@,
                        images: batch@.array(images as int).values->Binary_0,
                    },
                ),
            decreases cameras.len() - row,
        {
            if cameras[row] == FRONT_CAMERA {
                if let Some(jpeg) = table::binary_at(&batch.columns()[images], row) {
                    self.row = row + 1;
                    self.count = self.count + 1;
                    return Ok(Some(CameraFrame { timestamp: timestamps[row], jpeg }));
                }
            }
            row = row + 1;
        }
        self.row = row;
        Ok(None)
    }
}

/// A search for the front camera's picture with a given index: how many
/// pictures have gone by, and which one is wanted.
pub struct CameraFrameSearch {
    pub passed: usize,
    pub frame_index: usize,
}

impl CameraFrameSearch {
    pub fn new(frame_index: usize) -> (search: CameraFrameSearch)
        ensures
            search == (CameraFrameSearch { passed: 0, frame_index }),
    {
        CameraFrameSearch { passed: 0, frame_index }
    }

    /// The wanted picture, where it is in this table; otherwise the pictures of
    /// this table have gone by.
    pub fn read_camera_frame(&mut self, batch: &Batch) -> (frame: Result<
        Option<CameraFrame>,
        ColumnError,
    >)
        requires
            batch@.valid(),
            old(self).passed <= old(self).frame_index,
        ensures
            final(self).frame_index == old(self).frame_index,
            final(self).passed <= final(self).frame_index,
            match camera_columns(batch@) {
                Err(fault) => frame matches Err(error) && error@ == fault && *final(self) == *old(
                    self,
                ),
                Ok(columns) => {
                    let front = matches_from(columns.cameras, FRONT_CAMERA, 0);
                    let wanted = old(self).frame_index - old(self).passed;
                    if wanted < front.len() {
                        frame matches Ok(Some(frame)) && columns.has_frame(front[wanted], frame)
                            && final(self).passed == old(self).frame_index
                    } else {
                        frame == Ok::<Option<CameraFrame>, ColumnError>(None)
                            && final(self).passed == old(self).passed + front.len()
                    }
                },
            },
    {
        let mut cursor: FrameCursor = FrameCursor::new(0);
        let ghost cameras: Seq<i64> = if let Ok(columns) = camera_columns(batch@) {
            columns.cameras
        } else {
            Seq::empty()
        };
        let ghost front = matches_from(cameras, FRONT_CAMERA, 0);
        let ghost wanted = self.frame_index - self.passed;
        let mut seen: usize = 0;
        let rows: usize = batch.num_rows();
        proof {
            if camera_columns(batch@) is Ok {
                lemma_camera_column_length(batch@);
            }
            assert(front.skip(0) =~= front);
        }
        loop
            invariant
                batch@.valid(),
                rows == batch@.rows,
                cursor.row <= batch@.rows,
                cursor.limit == 0,
                cursor.count == seen,
                seen <= cursor.row,
                *self == *old(self),
                wanted == self.frame_index - self.passed,
                0 <= seen <= wanted,
                camera_columns(batch@) matches Ok(columns) ==> cameras == columns.cameras
                    && cameras.len() == batch@.rows,
                camera_columns(batch@) is Err ==> seen == 0,
                front == matches_from(cameras, FRONT_CAMERA, 0),
                camera_columns(batch@) is Ok ==> seen <= front.len() && front.skip(seen as int)
                    == matches_from(cameras, FRONT_CAMERA, cursor.row as int),
            decreases batch@.rows - cursor.row,
        {
            proof {
                if camera_columns(batch@) is Ok {
                    law_matches_are_visited_in_turn(cameras, FRONT_CAMERA, cursor.row as int);
                }
            }
            let ghost before = cursor.row as int;
            match cursor.next_camera_frame(batch) {
                Err(error) => {
                    return Err(error);
                },
                Ok(None) => {
                    assert(front.skip(seen as int).len() == 0);
                    self.passed = self.passed + seen;
                    return Ok(None);
                },
                Ok(Some(frame)) => {
                    assert(front.skip(seen as int)[0] == front[seen as int]);
                    if seen == self.frame_index - self.passed {
                        self.passed = self.frame_index;
                        return Ok(Some(frame));
                    }
                    assert(front.skip(seen + 1) =~= front.skip(seen as int).skip(1));
                    let ghost row = next_match(cameras, FRONT_CAMERA, before)->0;
                    assert((seq![row] + matches_from(cameras, FRONT_CAMERA, row + 1)).skip(1)
                        =~= matches_from(cameras, FRONT_CAMERA, row + 1));
                    seen = seen + 1;
                },
            }
        }
    }
}

/// The camera column of a table is as long as the table.
proof fn lemma_camera_column_length(table: TableModel)
    requires
        table.valid(),
        camera_columns(table) is Ok,
    ensures
        camera_columns(table)->Ok_0.cameras.len() == table.rows,
{
    columns::lemma_field_at(table.fields(), "key.camera_name"@);
    let index = columns::column_at(table, "key.camera_name"@)->Ok_0;
    assert(table::array_model(table.columns[index]).has_len(table.rows));
}

/// A dimension as an unsigned size: a negative one counts down from the greatest
/// size.
pub open spec fn dimension(raw: i32) -> int {
    if raw >= 0 {
        raw as int
    } else {
        raw + usize::MAX + 1
    }
}

fn unsigned_dimension(raw: i32) -> (size: usize)
    ensures
        size == dimension(raw),
{
    if raw >= 0 {
        raw as usize
    } else {
        usize::MAX - ((-(raw as i64) - 1) as usize)
    }
}

impl LidarFrame {
    /// The grid takes up all the values.
    pub open spec fn well_shaped(&self) -> bool {
        self.shape@[0] * self.shape@[1] * self.shape@[2] == self.values@.len()
    }
}

/// Whether three sizes multiply out to a count.
fn product_is(a: usize, b: usize, c: usize, count: usize) -> (equal: bool)
    ensures
        equal == (a * b * c == count),
{
    assert(a * b <= usize::MAX * usize::MAX) by (nonlinear_arith)
        requires
            a <= usize::MAX,
            b <= usize::MAX,
    ;
    assert(usize::MAX * usize::MAX <= u128::MAX) by (nonlinear_arith)
        requires
            usize::MAX <= 0xffff_ffff_ffff_ffff,
    ;
    let area: u128 = (a as u128) * (b as u128);
    if c == 0 {
        assert(a * b * 0 == 0);
        return count == 0;
    }
    if area > count as u128 {
        assert(a * b * c >= a * b) by (nonlinear_arith)
            requires
                c >= 1,
                a * b >= 0,
        ;
        return false;
    }
    assert(area * c <= usize::MAX * usize::MAX) by (nonlinear_arith)
        requires
            area <= usize::MAX,
            c <= usize::MAX,
    ;
    area * (c as u128) == count as u128
}

/// The values and the shape of the range image in a row.
pub struct RangeImage {
    pub values: Seq<u32>,
    pub shape: Seq<i32>,
}

/// The range image in a row, under columns that start with `prefix`.
pub open spec fn range_image(table: TableModel, prefix: Seq<char>, row: int) -> Result<
    RangeImage,
    FrameFault,
> {
    match columns::list_float32_of(table, prefix + ".range_image_return1.values"@, row) {
        Err(fault) => Err(FrameFault::Column(fault)),
        Ok(values) => match columns::fixed_int32_of(
            table,
            prefix + ".range_image_return1.shape"@,
            row,
        ) {
            Err(fault) => Err(FrameFault::Column(fault)),
            Ok(shape) => if shape.len() != 3 {
                Err(FrameFault::ShapeRank)
            } else if dimension(shape[0]) * dimension(shape[1]) * dimension(shape[2])
                != values.len() {
                Err(FrameFault::ShapeMismatch)
            } else {
                Ok(RangeImage { values, shape })
            },
        },
    }
}

/// `frame` is that range image, taken at that time.
pub open spec fn is_frame_of(frame: LidarFrame, timestamp: i64, image: RangeImage) -> bool {
    &&& frame.timestamp == timestamp
    &&& frame.values@ == image.values
    &&& forall|i: int| 0 <= i < 3 ==> #[trigger] frame.shape@[i] == dimension(image.shape[i])
    &&& frame.well_shaped()
}

fn read_range_image(batch: &Batch, prefix: &str, row: usize, timestamp: i64) -> (frame: Result<
    LidarFrame,
    FrameError,
>)
    requires
        batch@.valid(),
        row < batch@.rows,
    ensures
        match (frame, range_image(batch@, prefix@, row as int)) {
            (Ok(frame), Ok(image)) => is_frame_of(frame, timestamp, image),
            (Err(error), Err(fault)) => error@ == fault,
            _ => false,
        },
{
    let mut values_name: String = prefix.to_owned();
    values_name.append(".range_image_return1.values");
    let values: Vec<u32> = match columns::list_f32(batch, values_name.as_str(), row) {
        Ok(values) => values,
        Err(error) => {
            return Err(FrameError::Column(error));
        },
    };
    let mut shape_name: String = prefix.to_owned();
    shape_name.append(".range_image_return1.shape");
    let raw: Vec<i32> = match columns::fixed_i32(batch, shape_name.as_str(), row) {
        Ok(raw) => raw,
        Err(error) => {
            return Err(FrameError::Column(error));
        },
    };
    if raw.len() != 3 {
        return Err(FrameError::ShapeRank);
    }
    let shape: [usize; 3] = [
        unsigned_dimension(raw[0]),
        unsigned_dimension(raw[1]),
        unsigned_dimension(raw[2]),
    ];
    if !product_is(shape[0], shape[1], shape[2], values.len()) {
        return Err(FrameError::ShapeMismatch);
    }
    Ok(LidarFrame { timestamp, values, shape })
}

/// The key columns of a LiDAR table.
pub struct LidarKeys {
    pub timestamps: Seq<i64>,
    pub lasers: Seq<i64>,
}

pub open spec fn lidar_keys(table: TableModel) -> Result<LidarKeys, ColumnFault> {
    match columns::int64_of(table, "key.frame_timestamp_micros"@) {
        Err(fault) => Err(fault),
        Ok(timestamps) => match columns::integer_of(table, "key.laser_name"@) {
            Err(fault) => Err(fault),
            Ok(lasers) => Ok(LidarKeys { timestamps, lasers }),
        },
    }
}

impl LidarKeys {
    /// The first row from `from` on that holds the top LiDAR at that time.
    pub open spec fn next_at(self, timestamp: i64, from: int) -> Option<int>
        decreases self.lasers.len() - from,
    {
        if from < 0 || from >= self.lasers.len() {
            None
        } else if self.timestamps[from] == timestamp && self.lasers[from] == TOP_LIDAR {
            Some(from)
        } else {
            self.next_at(timestamp, from + 1)
        }
    }
}

/// The top LiDAR's range image at that time, where it is in this table.
pub fn read_lidar_frame(batch: &Batch, target_timestamp: i64, prefix: &str) -> (frame: Result<
    Option<LidarFrame>,
    FrameError,
>)
    requires
        batch@.valid(),
    ensures
        match lidar_keys(batch@) {
            Err(fault) => frame matches Err(error) && error@ == FrameFault::Column(fault),
            Ok(keys) => match keys.next_at(target_timestamp, 0) {
                None => frame == Ok::<Option<LidarFrame>, FrameError>(None),
                Some(row) => match (frame, range_image(batch@, prefix@, row)) {
                    (Ok(Some(frame)), Ok(image)) => is_frame_of(frame, target_timestamp, image),
                    (Err(error), Err(fault)) => error@ == fault,
                    _ => false,
                },
            },
        },
{
    let timestamps: Vec<i64> = match columns::int64(batch, "key.frame_timestamp_micros") {
        Ok(values) => values,
        Err(error) => {
            return Err(FrameError::Column(error));
        },
    };
    let lasers: Vec<i64> = match columns::integer(batch, "key.laser_name") {
        Ok(values) => values,
        Err(error) => {
            return Err(FrameError::Column(error));
        },
    };
    let ghost keys = LidarKeys { timestamps: timestamps@, lasers: lasers@ };
    let mut row: usize = 0;
    while row < lasers.len()
        invariant
            row <= lasers.len(),
            lasers.len() == batch@.rows,
            timestamps.len() == batch@.rows,
            batch@.valid(),
            keys == (LidarKeys { timestamps: timestamps@, lasers: lasers@ }),
            lidar_keys(batch@) == Ok::<LidarKeys, ColumnFault>(keys),
            keys.next_at(target_timestamp, 0) == keys.next_at(target_timestamp, row as int),
        decreases lasers.len() - row,
    {
        if timestamps[row] == target_timestamp && lasers[row] == TOP_LIDAR {
            return match read_range_image(batch, prefix, row, target_timestamp) {
                Ok(frame) => Ok(Some(frame)),
                Err(error) => Err(error),
            };
        }
        row = row + 1;
    }
    Ok(None)
}

impl FrameCursor {
    /// The next range image of the top LiDAR in this table.
    pub fn next_top_lidar_frame(&mut self, batch: &Batch, prefix: &str) -> (frame: Result<
        Option<LidarFrame>,
        FrameError,
    >)
        requires
            batch@.valid(),
            old(self).row <= batch@.rows,
            old(self).row < batch@.rows ==> old(self).count < usize::MAX,
        ensures
            final(self).row <= batch@.rows,
            old(self).at_limit() ==> frame == Ok::<Option<LidarFrame>, FrameError>(None)
                && *final(self) == *old(self),
            !old(self).at_limit() ==> match lidar_keys(batch@) {
                Err(fault) => frame matches Err(error) && error@ == FrameFault::Column(fault)
                    && *final(self) == *old(self),
                Ok(keys) => match next_match(keys.lasers, TOP_LIDAR, old(self).row as int) {
                    None => frame == Ok::<Option<LidarFrame>, FrameError>(None) && *final(self)
                        == (FrameCursor { row: batch@.rows as usize, ..*old(self) }),
                    Some(row) => match (frame, range_image(batch@, prefix@, row)) {
                        (Ok(Some(frame)), Ok(image)) => is_frame_of(
                            frame,
                            keys.timestamps[row],
                            image,
                        ) && *final(self) == (FrameCursor {
                            row: (row + 1) as usize,
                            count: (old(self).count + 1) as usize,
                            ..*old(self)
                        }),
                        (Err(error), Err(fault)) => error@ == fault && *final(self) == *old(self),
                        _ => false,
                    },
                },
            },
    {
        if self.is_at_limit() {
            return Ok(None);
        }
        let timestamps: Vec<i64> = match columns::int64(batch, "key.frame_timestamp_micros") {
            Ok(values) => values,
            Err(error) => {
                return Err(FrameError::Column(error));
            },
        };
        let lasers: Vec<i64> = match columns::integer(batch, "key.laser_name") {
            Ok(values) => values,
            Err(error) => {
                return Err(FrameError::Column(error));
            },
        };
        let mut row: usize = self.row;
        while row < lasers.len()
            invariant
                row <= lasers.len(),
                lasers.len() == batch@.rows,
                timestamps.len() == batch@.rows,
                next_match(lasers@, TOP_LIDAR, old(self).row as int) == next_match(
                    lasers@,
                    TOP_LIDAR,
                    row as int,
                ),
                *self == *old(self),
                batch@.valid(),
                row < lasers.len() ==> old(self).count < usize::MAX,
                !old(self).at_limit(),
                lidar_keys(batch@) == Ok::<LidarKeys, ColumnFault>(
                    LidarKeys { timestamps: timestamps@, lasers: lasers@ },
                ),
            decreases lasers.len() - row,
        {
            if lasers[row] == TOP_LIDAR {
                return match read_range_image(batch, prefix, row, timestamps[row]) {
                    Ok(frame) => {
                        self.row = row + 1;
                        self.count = self.count + 1;
                        Ok(Some(frame))
                    },
                    Err(error) => Err(error),
                };
            }
            row = row + 1;
        }
        self.row = row;
        Ok(None)
    }
}

/// The numbers of a calibration row.
pub struct CalibrationModel {
    pub extrinsic: Seq<u64>,
    pub inclination_min: u64,
    pub inclination_max: u64,
    pub inclinations: Seq<u64>,
}

impl View for Calibration {
    type V = CalibrationModel;

    open spec fn view(&self) -> CalibrationModel {
        CalibrationModel {
            extrinsic: self.extrinsic@,
            inclination_min: self.inclination_min,
            inclination_max: self.inclination_max,
            inclinations: self.inclinations@,
        }
    }
}

/// The calibration in a row.
pub open spec fn calibration_at(table: TableModel, row: int) -> Result<
    CalibrationModel,
    CalibrationFault,
> {
    match columns::fixed_float64_of(table, "[LiDARCalibrationComponent].extrinsic.transform"@, row) {
        Err(fault) => Err(CalibrationFault::Column(fault)),
        Ok(extrinsic) => if extrinsic.len() != 16 {
            Err(CalibrationFault::ExtrinsicSize)
        } else {
            match columns::float64_of(
                table,
                "[LiDARCalibrationComponent].beam_inclination.min"@,
            ) {
                Err(fault) => Err(CalibrationFault::Column(fault)),
                Ok(least) => match columns::float64_of(
                    table,
                    "[LiDARCalibrationComponent].beam_inclination.max"@,
                ) {
                    Err(fault) => Err(CalibrationFault::Column(fault)),
                    Ok(greatest) => match columns::list_float64_of(
                        table,
                        "[LiDARCalibrationComponent].beam_inclination.values"@,
                        row,
                    ) {
                        Err(fault) => Err(CalibrationFault::Column(fault)),
                        Ok(inclinations) => Ok(
                            CalibrationModel {
                                extrinsic,
                                inclination_min: least[row],
                                inclination_max: greatest[row],
                                inclinations,
                            },
                        ),
                    },
                },
            }
        },
    }
}

/// The top LiDAR's calibration, where it is in this table.
pub fn read_calibration(batch: &Batch) -> (calibration: Result<
    Option<Calibration>,
    CalibrationError,
>)
    requires
        batch@.valid(),
    ensures
        match columns::integer_of(batch@, "key.laser_name"@) {
            Err(fault) => calibration matches Err(error) && error@ == CalibrationFault::Column(
                fault,
            ),
            Ok(lasers) => match next_match(lasers, TOP_LIDAR, 0) {
                None => calibration == Ok::<Option<Calibration>, CalibrationError>(None),
                Some(row) => match (calibration, calibration_at(batch@, row)) {
                    (Ok(Some(calibration)), Ok(model)) => calibration@ == model,
                    (Err(error), Err(fault)) => error@ == fault,
                    _ => false,
                },
            },
        },
{
    let lasers: Vec<i64> = match columns::integer(batch, "key.laser_name") {
        Ok(values) => values,
        Err(error) => {
            return Err(CalibrationError::Column(error));
        },
    };
    let mut row: usize = 0;
    while row < lasers.len()
        invariant
            row <= lasers.len(),
            lasers.len() == batch@.rows,
            batch@.valid(),
            columns::integer_of(batch@, "key.laser_name"@) == Ok::<Seq<i64>, ColumnFault>(lasers@),
            next_match(lasers@, TOP_LIDAR, 0) == next_match(lasers@, TOP_LIDAR, row as int),
        decreases lasers.len() - row,
    {
        if lasers[row] == TOP_LIDAR {
            return match read_calibration_row(batch, row) {
                Ok(calibration) => Ok(Some(calibration)),
                Err(error) => Err(error),
            };
        }
        row = row + 1;
    }
    Ok(None)
}

fn read_calibration_row(batch: &Batch, row: usize) -> (calibration: Result<
    Calibration,
    CalibrationError,
>)
    requires
        batch@.valid(),
        row < batch@.rows,
    ensures
        match (calibration, calibration_at(batch@, row as int)) {
            (Ok(calibration), Ok(model)) => calibration@ == model,
            (Err(error), Err(fault)) => error@ == fault,
            _ => false,
        },
{
    let transform: Vec<u64> = match columns::fixed_f64(
        batch,
        "[LiDARCalibrationComponent].extrinsic.transform",
        row,
    ) {
        Ok(values) => values,
        Err(error) => {
            return Err(CalibrationError::Column(error));
        },
    };
    if transform.len() != 16 {
        return Err(CalibrationError::ExtrinsicSize);
    }
    let inclination_min: u64 = match columns::float64_scalar(
        batch,
        "[LiDARCalibrationComponent].beam_inclination.min",
        row,
    ) {
        Ok(value) => value,
        Err(error) => {
            return Err(CalibrationError::Column(error));
        },
    };
    let inclination_max: u64 = match columns::float64_scalar(
        batch,
        "[LiDARCalibrationComponent].beam_inclination.max",
        row,
    ) {
        Ok(value) => value,
        Err(error) => {
            return Err(CalibrationError::Column(error));
        },
    };
    let inclinations: Vec<u64> = match columns::list_f64(
        batch,
        "[LiDARCalibrationComponent].beam_inclination.values",
        row,
    ) {
        Ok(values) => values,
        Err(error) => {
            return Err(CalibrationError::Column(error));
        },
    };
    let extrinsic: [u64; 16] = [
        transform[0],
        transform[1],
        transform[2],
        transform[3],
        transform[4],
        transform[5],
        transform[6],
        transform[7],
        transform[8],
        transform[9],
        transform[10],
        transform[11],
        transform[12],
        transform[13],
        transform[14],
        transform[15],
    ];
    assert(extrinsic@ =~= transform@);
    Ok(Calibration { extrinsic, inclination_min, inclination_max, inclinations })
}

/// The frames that are read are those of the sensors that the dataset numbers so.
pub proof fn law_frames_are_of_the_front_camera_and_the_top_lidar()
    ensures
        FRONT_CAMERA == SensorId::Camera(CameraName::Front).number(),
        TOP_LIDAR == SensorId::Lidar(LidarName::Top).number(),
{
}

/// A camera frame holds the time and the picture of its row, each from the column of
/// its name.
pub proof fn law_camera_frames_tell_of_their_rows(
    table: TableModel,
    columns: CameraColumns,
    row: int,
    frame: CameraFrame,
)
    requires
        camera_columns(table) == Ok::<CameraColumns, ColumnFault>(columns),
        columns.has_frame(row, frame),
    ensures
        columns::int64_of(table, "key.frame_timestamp_micros"@) matches Ok(times)
            && frame.timestamp == times[row],
        columns::binary_of(table, "[CameraImageComponent].image"@) matches Ok(images)
            && frame.jpeg@ == images[row],
        columns::integer_of(table, "key.camera_name"@) matches Ok(cameras) && columns.cameras
            == cameras,
{
}

/// A reader without a limit goes on for ever; one with a limit stops once it has
/// handed out as many frames, and not before.
pub proof fn law_readers_stop_at_their_limit(cursor: FrameCursor)
    ensures
        cursor.limit == 0 ==> !cursor.at_limit(),
        cursor.limit > 0 && cursor.count < cursor.limit ==> !cursor.at_limit(),
        cursor.limit > 0 && cursor.count >= cursor.limit ==> cursor.at_limit(),
{
}

/// A range image comes from the values and the shape of its row, each from the
/// column of its name, and the shape has three sizes that multiply out to the
/// number of the values.
pub proof fn law_range_images_tell_of_their_rows(
    table: TableModel,
    prefix: Seq<char>,
    row: int,
    image: RangeImage,
    timestamp: i64,
    frame: LidarFrame,
)
    requires
        range_image(table, prefix, row) == Ok::<RangeImage, FrameFault>(image),
        is_frame_of(frame, timestamp, image),
    ensures
        frame.timestamp == timestamp,
        columns::list_float32_of(table, prefix + ".range_image_return1.values"@, row) == Ok::<
            Seq<u32>,
            ColumnFault,
        >(frame.values@),
        columns::fixed_int32_of(table, prefix + ".range_image_return1.shape"@, row) matches Ok(
            shape,
        ) && shape.len() == 3 && forall|i: int|
            #![trigger frame.shape@[i]]
            0 <= i < 3 && shape[i] >= 0 ==> frame.shape@[i] == shape[i],
        frame.shape@[0] * frame.shape@[1] * frame.shape@[2] == frame.values@.len(),
{
}

/// A size that is negative counts down from the greatest size; any other is itself.
pub proof fn law_sizes_are_unsigned(raw: i32)
    ensures
        raw >= 0 ==> dimension(raw) == raw,
        raw < 0 ==> dimension(raw) - raw == usize::MAX + 1,
        0 <= dimension(raw) <= usize::MAX,
{
}

/// The row of the top LiDAR at a time is the first that is of both; there is none
/// only where no row is.
pub proof fn law_the_first_row_of_a_time_is_read(keys: LidarKeys, timestamp: i64, from: int)
    requires
        0 <= from <= keys.lasers.len(),
    ensures
        match keys.next_at(timestamp, from) {
            Some(row) => {
                &&& from <= row < keys.lasers.len()
                &&& keys.timestamps[row] == timestamp
                &&& keys.lasers[row] == 1
                &&& forall|k: int|
                    from <= k < row ==> keys.timestamps[k] != timestamp || #[trigger] keys.lasers[k]
                        != 1
            },
            None => forall|k: int|
                from <= k < keys.lasers.len() ==> keys.timestamps[k] != timestamp
                    || #[trigger] keys.lasers[k] != 1,
        },
    decreases keys.lasers.len() - from,
{
    if from < keys.lasers.len() && !(keys.timestamps[from] == timestamp && keys.lasers[from]
        == TOP_LIDAR) {
        law_the_first_row_of_a_time_is_read(keys, timestamp, from + 1);
    }
}

/// The keys of a LiDAR table are its columns of times and of LiDARs.
pub proof fn law_lidar_keys_are_columns(table: TableModel, keys: LidarKeys)
    requires
        lidar_keys(table) == Ok::<LidarKeys, ColumnFault>(keys),
    ensures
        columns::int64_of(table, "key.frame_timestamp_micros"@) == Ok::<Seq<i64>, ColumnFault>(
            keys.timestamps,
        ),
        columns::integer_of(table, "key.laser_name"@) == Ok::<Seq<i64>, ColumnFault>(keys.lasers),
{
}

/// A calibration holds the numbers of its row, each from the column of its name, and
/// its transform has sixteen.
pub proof fn law_calibrations_tell_of_their_rows(
    table: TableModel,
    row: int,
    calibration: CalibrationModel,
)
    requires
        calibration_at(table, row) == Ok::<CalibrationModel, CalibrationFault>(calibration),
    ensures
        calibration.extrinsic.len() == 16,
        columns::fixed_float64_of(
            table,
            "[LiDARCalibrationComponent].extrinsic.transform"@,
            row,
        ) == Ok::<Seq<u64>, ColumnFault>(calibration.extrinsic),
        columns::float64_of(table, "[LiDARCalibrationComponent].beam_inclination.min"@) matches Ok(
            least,
        ) && least[row] == calibration.inclination_min,
        columns::float64_of(table, "[LiDARCalibrationComponent].beam_inclination.max"@) matches Ok(
            greatest,
        ) && greatest[row] == calibration.inclination_max,
        columns::list_float64_of(
            table,
            "[LiDARCalibrationComponent].beam_inclination.values"@,
            row,
        ) == Ok::<Seq<u64>, ColumnFault>(calibration.inclinations),
{
}

} // verus!
