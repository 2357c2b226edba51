//! Point clouds: which cells of a range image are returns, and the clouds and
//! tables that are made of them.
use arrow::error::ArrowError;
use vstd::prelude::*;

use crate::frames::{Calibration, LidarFrame};
use crate::fusion::Point;
use crate::ieee;
use crate::table::{self, Batch, Column, NewField};
#[allow(unused_imports)]
use crate::table::{ArrayModel, ArrayValues, FieldModel, TableModel};

verus! {

/// One return of the LiDAR: the cell of the grid that it comes from, what was
/// measured, and where the front camera sees it. Bit patterns of 32-bit floats.
#[derive(Clone, Copy, Debug)]
pub struct LidarReturn {
    pub row: usize,
    pub column: usize,
    pub range: u32,
    pub intensity: u32,
    pub elongation: u32,
    /// 1 where the front camera sees the return, 0 elsewhere.
    pub camera: i8,
    /// -1 where the front camera does not see the return.
    pub u: u32,
    /// -1 where the front camera does not see the return.
    pub v: u32,
}

/// Why two range images make no point cloud.
#[derive(Debug)]
pub enum ConvertError {
    /// The LiDAR image has fewer than four numbers per cell.
    LidarChannels,
    /// The projection image has fewer than six numbers per cell.
    ProjectionChannels,
    /// Arrow refuses the table of the points.
    Table(ArrowError),
}

/// The bit pattern of -1 as a 32-bit float.
pub const MINUS_ONE: u32 = 0xbf80_0000;

/// Where the numbers of a cell start.
pub open spec fn cell_offset(frame: LidarFrame, row: int, column: int) -> int {
    (row * frame.shape@[1] + column) * frame.shape@[2]
}

/// The cell holds a range that is finite and positive.
pub open spec fn is_return(lidar: LidarFrame, row: int, column: int) -> bool {
    ieee::f32_is_positive_finite(lidar.values@[cell_offset(lidar, row, column)])
}

/// The return in a cell.
pub open spec fn return_at(
    lidar: LidarFrame,
    projection: LidarFrame,
    row: int,
    column: int,
) -> LidarReturn {
    let at = cell_offset(lidar, row, column);
    let seen = cell_offset(projection, row, column);
    let (camera, u, v) = if ieee::f32_truncates_to_one(projection.values@[seen]) {
        (1i8, projection.values@[seen + 1], projection.values@[seen + 2])
    } else if ieee::f32_truncates_to_one(projection.values@[seen + 3]) {
        (1i8, projection.values@[seen + 4], projection.values@[seen + 5])
    } else {
        (0i8, MINUS_ONE, MINUS_ONE)
    };
    LidarReturn {
        row: row as usize,
        column: column as usize,
        range: lidar.values@[at],
        intensity: lidar.values@[at + 1],
        elongation: lidar.values@[at + 2],
        camera,
        u,
        v,
    }
}

/// The returns in the first `cells` cells, row by row.
pub open spec fn returns_before(
    lidar: LidarFrame,
    projection: LidarFrame,
    cells: int,
) -> Seq<LidarReturn>
    decreases cells,
{
    if cells <= 0 {
        Seq::empty()
    } else {
        let before = returns_before(lidar, projection, cells - 1);
        let row = (cells - 1) / lidar.shape@[1] as int;
        let column = (cells - 1) % lidar.shape@[1] as int;
        if is_return(lidar, row, column) {
            before.push(return_at(lidar, projection, row, column))
        } else {
            before
        }
    }
}

/// The projection holds what is read of it at `seen`: two camera numbers, and
/// the place in the picture behind the first that is the front camera's.
pub open spec fn projection_reaches(projection: LidarFrame, seen: int) -> bool {
    let values = projection.values@;
    &&& seen < values.len()
    &&& if ieee::f32_truncates_to_one(values[seen]) {
        seen + 2 < values.len()
    } else {
        &&& seen + 3 < values.len()
        &&& ieee::f32_truncates_to_one(values[seen + 3]) ==> seen + 5 < values.len()
    }
}

/// The numbers of a cell are there, and for a return those of the projection.
pub open spec fn cell_reaches(
    lidar: LidarFrame,
    projection: LidarFrame,
    row: int,
    column: int,
) -> bool {
    let at = cell_offset(lidar, row, column);
    &&& at < lidar.values@.len()
    &&& is_return(lidar, row, column) ==> at + 2 < lidar.values@.len() && projection_reaches(
        projection,
        cell_offset(projection, row, column),
    )
}

/// Every cell of the LiDAR's grid can be read.
pub open spec fn grids_match(lidar: LidarFrame, projection: LidarFrame) -> bool {
    forall|row: int, column: int|
        0 <= row < lidar.shape@[0] && 0 <= column < lidar.shape@[1] ==> #[trigger] cell_reaches(
            lidar,
            projection,
            row,
            column,
        )
}

/// Both images have the numbers per cell that a return is made of.
pub open spec fn has_channels(lidar: LidarFrame, projection: LidarFrame) -> bool {
    lidar.shape@[2] >= 4 && projection.shape@[2] >= 6
}

/// Where the numbers of a cell start, nothing where that is beyond `limit`.
fn offset_within(
    frame: &LidarFrame,
    row: usize,
    column: usize,
    limit: usize,
) -> (offset: Option<usize>)
    requires
        frame.shape@[2] >= 1,
    ensures
        match offset {
            Some(offset) => offset == cell_offset(*frame, row as int, column as int) && offset
                < limit,
            None => cell_offset(*frame, row as int, column as int) >= limit,
        },
{
    let width: usize = frame.shape[1];
    let channels: usize = frame.shape[2];
    let ghost cell: int = row * width + column;
    proof {
        assert(0 <= row * width) by (nonlinear_arith)
            requires
                row >= 0,
                width >= 0,
        ;
        assert(cell <= cell * channels) by (nonlinear_arith)
            requires
                cell >= 0,
                channels >= 1,
        ;
    }
    if let Some(start) = row.checked_mul(width) {
        if let Some(index) = start.checked_add(column) {
            if let Some(offset) = index.checked_mul(channels) {
                if offset < limit {
                    return Some(offset);
                }
            }
        }
    }
    None
}

/// Whether a cell can be read.
fn reaches(lidar: &LidarFrame, projection: &LidarFrame, row: usize, column: usize) -> (can: bool)
    requires
        has_channels(*lidar, *projection),
    ensures
        can == cell_reaches(*lidar, *projection, row as int, column as int),
{
    let offset: usize = match offset_within(lidar, row, column, lidar.values.len()) {
        Some(offset) => offset,
        None => return false,
    };
    if !ieee::is_positive_finite32(lidar.values[offset]) {
        return true;
    }
    if lidar.values.len() - offset <= 2 {
        return false;
    }
    let count: usize = projection.values.len();
    let seen: usize = match offset_within(projection, row, column, count) {
        Some(seen) => seen,
        None => return false,
    };
    if ieee::truncates_to_one32(projection.values[seen]) {
        count - seen > 2
    } else if count - seen <= 3 {
        false
    } else {
        !ieee::truncates_to_one32(projection.values[seen + 3]) || count - seen > 5
    }
}

/// Whether every cell of the LiDAR's grid can be read, so that the images can be
/// converted.
pub fn can_convert(lidar: &LidarFrame, projection: &LidarFrame) -> (can: bool)
    requires
        has_channels(*lidar, *projection),
    ensures
        can == grids_match(*lidar, *projection),
{
    let mut row: usize = 0;
    while row < lidar.shape[0]
        invariant
            has_channels(*lidar, *projection),
            row <= lidar.shape@[0],
            forall|r: int, c: int|
                0 <= r < row && 0 <= c < lidar.shape@[1] ==> #[trigger] cell_reaches(
                    *lidar,
                    *projection,
                    r,
                    c,
                ),
        decreases lidar.shape@[0] - row,
    {
        let mut column: usize = 0;
        while column < lidar.shape[1]
            invariant
                has_channels(*lidar, *projection),
                row < lidar.shape@[0],
                column <= lidar.shape@[1],
                forall|r: int, c: int|
                    0 <= r < row && 0 <= c < lidar.shape@[1] ==> #[trigger] cell_reaches(
                        *lidar,
                        *projection,
                        r,
                        c,
                    ),
                forall|c: int|
                    0 <= c < column ==> #[trigger] cell_reaches(
                        *lidar,
                        *projection,
                        row as int,
                        c,
                    ),
            decreases lidar.shape@[1] - column,
        {
            if !reaches(lidar, projection, row, column) {
                return false;
            }
            column = column + 1;
        }
        row = row + 1;
    }
    true
}

/// Whether two range images have as many rows and columns.
pub fn same_grid(lidar: &LidarFrame, projection: &LidarFrame) -> (same: bool)
    ensures
        same == (lidar.shape@[0] == projection.shape@[0] && lidar.shape@[1] == projection.shape@[1]),
{
    lidar.shape[0] == projection.shape[0] && lidar.shape[1] == projection.shape[1]
}

/// The return in a cell, where it holds one.
fn read_cell(
    lidar: &LidarFrame,
    projection: &LidarFrame,
    row: usize,
    column: usize,
) -> (found: Option<LidarReturn>)
    requires
        has_channels(*lidar, *projection),
        cell_reaches(*lidar, *projection, row as int, column as int),
    ensures
        found == if is_return(*lidar, row as int, column as int) {
            Some(return_at(*lidar, *projection, row as int, column as int))
        } else {
            None
        },
{
    let offset: usize = match offset_within(lidar, row, column, lidar.values.len()) {
        Some(offset) => offset,
        None => return None,
    };
    let range: u32 = lidar.values[offset];
    if !ieee::is_positive_finite32(range) {
        return None;
    }
    let seen: usize = match offset_within(projection, row, column, projection.values.len()) {
        Some(seen) => seen,
        None => return None,
    };
    let (camera, u, v): (i8, u32, u32) = if ieee::truncates_to_one32(projection.values[seen]) {
        (1, projection.values[seen + 1], projection.values[seen + 2])
    } else if ieee::truncates_to_one32(projection.values[seen + 3]) {
        (1, projection.values[seen + 4], projection.values[seen + 5])
    } else {
        (0, MINUS_ONE, MINUS_ONE)
    };
    Some(
        LidarReturn {
            row,
            column,
            range,
            intensity: lidar.values[offset + 1],
            elongation: lidar.values[offset + 2],
            camera,
            u,
            v,
        },
    )
}

/// The returns of a range image, row by row, with their places in the front
/// camera's picture. Cells without a finite positive range are left out.
pub fn lidar_returns(lidar: &LidarFrame, projection: &LidarFrame) -> (read: Result<
    Vec<LidarReturn>,
    ConvertError,
>)
    requires
        has_channels(*lidar, *projection) ==> grids_match(*lidar, *projection),
    ensures
        match read {
            Ok(list) => has_channels(*lidar, *projection) && list@ == returns_before(
                *lidar,
                *projection,
                lidar.shape@[0] * lidar.shape@[1],
            ),
            Err(ConvertError::LidarChannels) => lidar.shape@[2] < 4,
            Err(ConvertError::ProjectionChannels) => lidar.shape@[2] >= 4 && projection.shape@[2]
                < 6,
            Err(ConvertError::Table(_)) => false,
        },
{
    let height: usize = lidar.shape[0];
    let width: usize = lidar.shape[1];
    if lidar.shape[2] < 4 {
        return Err(ConvertError::LidarChannels);
    }
    if projection.shape[2] < 6 {
        return Err(ConvertError::ProjectionChannels);
    }
    let mut found: Vec<LidarReturn> = Vec::new();
    let mut row: usize = 0;
    assert(0 * width == 0);
    while row < height
        invariant
            row <= height,
            height == lidar.shape@[0],
            width == lidar.shape@[1],
            has_channels(*lidar, *projection),
            grids_match(*lidar, *projection),
            found@ == returns_before(*lidar, *projection, row * width),
        decreases height - row,
    {
        let mut column: usize = 0;
        while column < width
            invariant
                row < height,
                column <= width,
                height == lidar.shape@[0],
                width == lidar.shape@[1],
                has_channels(*lidar, *projection),
                grids_match(*lidar, *projection),
                found@ == returns_before(*lidar, *projection, row * width + column),
            decreases width - column,
        {
            assert(cell_reaches(*lidar, *projection, row as int, column as int));
            proof {
                let cell = row * width + column;
                assert(0 <= row * width) by (nonlinear_arith)
                    requires
                        row >= 0,
                        width >= 0,
                ;
                vstd::arithmetic::div_mod::lemma_fundamental_div_mod_converse(
                    cell,
                    width as int,
                    row as int,
                    column as int,
                );
            }
            if let Some(one) = read_cell(lidar, projection, row, column) {
                found.push(one);
            }
            column = column + 1;
        }
        assert((row + 1) * width == row * width + width) by (nonlinear_arith);
        row = row + 1;
    }
    Ok(found)
}

/// Every return has a finite positive range, and a place in the picture exactly
/// where the front camera sees it: cells without a valid range are discarded.
pub proof fn law_returns_are_valid(lidar: LidarFrame, projection: LidarFrame, cells: int, i: int)
    requires
        0 <= i < returns_before(lidar, projection, cells).len(),
    ensures
        ({
            let found = returns_before(lidar, projection, cells)[i];
            &&& ieee::f32_is_positive_finite(found.range)
            &&& found.camera == 0 || found.camera == 1
            &&& found.camera == 0 ==> found.u == MINUS_ONE && found.v == MINUS_ONE
        }),
    decreases cells,
{
    if cells > 0 {
        let before = returns_before(lidar, projection, cells - 1);
        if i < before.len() {
            law_returns_are_valid(lidar, projection, cells - 1, i);
        }
    }
}

/// A cell gives at most one return, and every valid cell gives its own.
pub proof fn law_returns_cover_the_grid(
    lidar: LidarFrame,
    projection: LidarFrame,
    cells: int,
    cell: int,
)
    requires
        0 <= cell < cells,
        is_return(lidar, cell / lidar.shape@[1] as int, cell % lidar.shape@[1] as int),
    ensures
        returns_before(lidar, projection, cells).len() <= cells,
        returns_before(lidar, projection, cells).contains(
            return_at(
                lidar,
                projection,
                cell / lidar.shape@[1] as int,
                cell % lidar.shape@[1] as int,
            ),
        ),
    decreases cells,
{
    lemma_returns_bound(lidar, projection, cells);
    let found = return_at(
        lidar,
        projection,
        cell / lidar.shape@[1] as int,
        cell % lidar.shape@[1] as int,
    );
    let before = returns_before(lidar, projection, cells - 1);
    let all = returns_before(lidar, projection, cells);
    if cell == cells - 1 {
        assert(all[before.len() as int] == found);
    } else {
        law_returns_cover_the_grid(lidar, projection, cells - 1, cell);
        let i = choose|i: int| 0 <= i < before.len() && before[i] == found;
        assert(all[i] == found);
    }
}

proof fn lemma_returns_bound(lidar: LidarFrame, projection: LidarFrame, cells: int)
    requires
        cells >= 0,
    ensures
        returns_before(lidar, projection, cells).len() <= cells,
    decreases cells,
{
    if cells > 0 {
        lemma_returns_bound(lidar, projection, cells - 1);
    }
}

/// Where the inclination of a row of beams comes from.
#[derive(Clone, Copy, Debug, PartialEq, Eq, Structural)]
pub enum Beam {
    /// The calibration gives it: the bit pattern of a 64-bit float.
    Given(u64),
    /// It lies between the lowest and the highest, at the middle of this one of
    /// as many equal steps as there are rows.
    Step(usize),
}

/// The beam of a row. The rows of an image run from the highest beam down, the
/// calibration from the lowest up; its table counts where it has all the rows.
pub open spec fn beam_of(calibration: Calibration, height: int, row: int) -> Beam {
    if calibration.inclinations@.len() == height {
        Beam::Given(calibration.inclinations@[height - 1 - row])
    } else {
        Beam::Step((height - 1 - row) as usize)
    }
}

/// The beam of a row of an image of `height` rows.
pub fn beam(calibration: &Calibration, height: usize, row: usize) -> (beam: Beam)
    requires
        row < height,
    ensures
        beam == beam_of(*calibration, height as int, row as int),
{
    if calibration.inclinations.len() == height {
        Beam::Given(calibration.inclinations[height - 1 - row])
    } else {
        Beam::Step(height - 1 - row)
    }
}

/// A place in the vehicle's frame: bit patterns of 32-bit floats.
#[derive(Clone, Copy, Debug)]
pub struct Position {
    pub x: u32,
    pub y: u32,
    pub z: u32,
}

/// A point cloud: its points, and the Arrow table that holds them.
#[derive(Debug)]
pub struct PointCloud {
    pub batch: Batch,
    pub points: Vec<Point>,
}

/// The point that a return becomes at a position.
pub open spec fn point_at(found: LidarReturn, position: Position) -> Point {
    Point {
        x: position.x,
        y: position.y,
        z: position.z,
        range: found.range,
        intensity: found.intensity,
        elongation: found.elongation,
        camera: found.camera,
        u: found.u,
        v: found.v,
    }
}

/// The point stands for the return, at a position that `locate` gives for it.
pub open spec fn is_located<F: Fn(LidarReturn, Beam) -> Position>(
    locate: F,
    calibration: Calibration,
    height: int,
    found: LidarReturn,
    point: Point,
) -> bool {
    let position = Position { x: point.x, y: point.y, z: point.z };
    &&& point == point_at(found, position)
    &&& call_ensures(locate, (found, beam_of(calibration, height, found.row as int)), position)
}

/// The names of a point table's columns.
pub open spec fn point_columns() -> Seq<Seq<char>> {
    seq![
        "x"@,
        "y"@,
        "z"@,
        "range"@,
        "intensity"@,
        "elongation"@,
        "front_camera"@,
        "front_u"@,
        "front_v"@,
    ]
}

/// What a point table says of itself.
pub open spec fn point_metadata() -> Map<Seq<char>, Seq<char>> {
    Map::empty().insert("coordinate_frame"@, "vehicle"@).insert(
        "source"@,
        "waymo_top_lidar_return1"@,
    ).insert("motion_compensated"@, "false"@)
}

/// The table holds the points, one to a row.
pub open spec fn is_point_table(batch: TableModel, points: Seq<Point>) -> bool {
    &&& batch.valid()
    &&& batch.rows == points.len()
    &&& batch.fields() == table::required_fields(point_columns())
    &&& table::schema_metadata(batch.schema) == point_metadata()
    &&& batch.columns.len() == 9
    &&& batch.array(0) == table::float32s(points.map_values(|p: Point| p.x))
    &&& batch.array(1) == table::float32s(points.map_values(|p: Point| p.y))
    &&& batch.array(2) == table::float32s(points.map_values(|p: Point| p.z))
    &&& batch.array(3) == table::float32s(points.map_values(|p: Point| p.range))
    &&& batch.array(4) == table::float32s(points.map_values(|p: Point| p.intensity))
    &&& batch.array(5) == table::float32s(points.map_values(|p: Point| p.elongation))
    &&& batch.array(6) == table::plain_array(
        points.len(),
        ArrayValues::Int8(points.map_values(|p: Point| p.camera)),
    )
    &&& batch.array(7) == table::float32s(points.map_values(|p: Point| p.u))
    &&& batch.array(8) == table::float32s(points.map_values(|p: Point| p.v))
}

/// The Arrow table of the points.
pub fn point_batch(points: &[Point]) -> (batch: Result<Batch, ArrowError>)
    ensures
        batch matches Ok(batch) && is_point_table(batch@, points@),
{
    let mut x: Vec<u32> = Vec::new();
    let mut y: Vec<u32> = Vec::new();
    let mut z: Vec<u32> = Vec::new();
    let mut range: Vec<u32> = Vec::new();
    let mut intensity: Vec<u32> = Vec::new();
    let mut elongation: Vec<u32> = Vec::new();
    let mut camera: Vec<i8> = Vec::new();
    let mut u: Vec<u32> = Vec::new();
    let mut v: Vec<u32> = Vec::new();
    let mut i: usize = 0;
    while i < points.len()
        invariant
            i <= points.len(),
            x@ == points@.take(i as int).map_values(|p: Point| p.x),
            y@ == points@.take(i as int).map_values(|p: Point| p.y),
            z@ == points@.take(i as int).map_values(|p: Point| p.z),
            range@ == points@.take(i as int).map_values(|p: Point| p.range),
            intensity@ == points@.take(i as int).map_values(|p: Point| p.intensity),
            elongation@ == points@.take(i as int).map_values(|p: Point| p.elongation),
            camera@ == points@.take(i as int).map_values(|p: Point| p.camera),
            u@ == points@.take(i as int).map_values(|p: Point| p.u),
            v@ == points@.take(i as int).map_values(|p: Point| p.v),
        decreases points.len() - i,
    {
        let point = &points[i];
        x.push(point.x);
        y.push(point.y);
        z.push(point.z);
        range.push(point.range);
        intensity.push(point.intensity);
        elongation.push(point.elongation);
        camera.push(point.camera);
        u.push(point.u);
        v.push(point.v);
        i = i + 1;
    }
    assert(points@.take(i as int) =~= points@);
    let fields: Vec<NewField> = vec![
        table::required("x"),
        table::required("y"),
        table::required("z"),
        table::required("range"),
        table::required("intensity"),
        table::required("elongation"),
        table::required("front_camera"),
        table::required("front_u"),
        table::required("front_v"),
    ];
    let metadata: Vec<(String, String)> = vec![
        table::entry("coordinate_frame", "vehicle"),
        table::entry("source", "waymo_top_lidar_return1"),
        table::entry("motion_compensated", "false"),
    ];
    let columns: Vec<Column> = vec![
        table::float32_array(x),
        table::float32_array(y),
        table::float32_array(z),
        table::float32_array(range),
        table::float32_array(intensity),
        table::float32_array(elongation),
        table::int8_array(camera),
        table::float32_array(u),
        table::float32_array(v),
    ];
    proof {
        reveal_with_fuel(table::metadata_map, 4);
        assert(metadata@.drop_last().drop_last().drop_last() =~= Seq::empty());
        assert(fields@.map_values(
            |field: NewField| FieldModel { name: field.name@, nullable: field.nullable },
        ) =~= table::required_fields(point_columns()));
    }
    Batch::with_fields(&fields, columns, &metadata)
}

/// The point cloud of the top LiDAR: its returns, each at the position that
/// `locate` gives for it and its beam, with the front camera's view of it.
pub fn convert_top_lidar<F: Fn(LidarReturn, Beam) -> Position>(
    lidar: &LidarFrame,
    projection: &LidarFrame,
    calibration: &Calibration,
    locate: F,
) -> (cloud: Result<PointCloud, ConvertError>)
    requires
        has_channels(*lidar, *projection) ==> grids_match(*lidar, *projection),
        forall|found: LidarReturn, beam: Beam| #[trigger] call_requires(locate, (found, beam)),
    ensures
        match cloud {
            Ok(cloud) => {
                let found = returns_before(
                    *lidar,
                    *projection,
                    lidar.shape@[0] * lidar.shape@[1],
                );
                &&& has_channels(*lidar, *projection)
                &&& cloud.points@.len() == found.len()
                &&& forall|i: int|
                    0 <= i < found.len() ==> is_located(
                        locate,
                        *calibration,
                        lidar.shape@[0] as int,
                        found[i],
                        #[trigger] cloud.points@[i],
                    )
                &&& is_point_table(cloud.batch@, cloud.points@)
            },
            Err(ConvertError::LidarChannels) => lidar.shape@[2] < 4,
            Err(ConvertError::ProjectionChannels) => lidar.shape@[2] >= 4 && projection.shape@[2]
                < 6,
            Err(ConvertError::Table(_)) => false,
        },
{
    let height: usize = lidar.shape[0];
    let found: Vec<LidarReturn> = match lidar_returns(lidar, projection) {
        Ok(found) => found,
        Err(error) => return Err(error),
    };
    let mut points: Vec<Point> = Vec::new();
    let mut i: usize = 0;
    while i < found.len()
        invariant
            i <= found.len(),
            points.len() == i,
            height == lidar.shape@[0],
            found@ == returns_before(*lidar, *projection, lidar.shape@[0] * lidar.shape@[1]),
            forall|found: LidarReturn, beam: Beam| #[trigger] call_requires(locate, (found, beam)),
            forall|j: int|
                0 <= j < i ==> is_located(
                    locate,
                    *calibration,
                    height as int,
                    found@[j],
                    #[trigger] points@[j],
                ),
        decreases found.len() - i,
    {
        let one = found[i];
        proof {
            lemma_return_row(*lidar, *projection, lidar.shape@[0] * lidar.shape@[1], i as int);
        }
        let position = locate(one, beam(calibration, height, one.row));
        points.push(
            Point {
                x: position.x,
                y: position.y,
                z: position.z,
                range: one.range,
                intensity: one.intensity,
                elongation: one.elongation,
                camera: one.camera,
                u: one.u,
                v: one.v,
            },
        );
        i = i + 1;
    }
    match point_batch(points.as_slice()) {
        Ok(batch) => Ok(PointCloud { batch, points }),
        Err(error) => Err(ConvertError::Table(error)),
    }
}

/// A return lies in a row of the image.
proof fn lemma_return_row(lidar: LidarFrame, projection: LidarFrame, cells: int, i: int)
    requires
        cells <= lidar.shape@[0] * lidar.shape@[1],
        0 <= i < returns_before(lidar, projection, cells).len(),
    ensures
        returns_before(lidar, projection, cells)[i].row < lidar.shape@[0],
    decreases cells,
{
    if cells > 0 {
        let before = returns_before(lidar, projection, cells - 1);
        if i < before.len() {
            lemma_return_row(lidar, projection, cells - 1, i);
        } else {
            let height = lidar.shape@[0] as int;
            let width = lidar.shape@[1] as int;
            let row = (cells - 1) / width;
            assert(width > 0) by (nonlinear_arith)
                requires
                    0 < cells <= height * width,
                    width >= 0,
            ;
            assert(0 <= row < height) by (nonlinear_arith)
                requires
                    row == (cells - 1) / width,
                    0 < cells <= height * width,
                    width > 0,
            ;
        }
    }
}

/// A return comes from a cell of the grid.
proof fn lemma_return_cell(lidar: LidarFrame, projection: LidarFrame, cells: int, i: int) -> (cell:
    int)
    requires
        cells <= lidar.shape@[0] * lidar.shape@[1],
        0 <= i < returns_before(lidar, projection, cells).len(),
    ensures
        0 <= cell < cells,
        ({
            let found = returns_before(lidar, projection, cells)[i];
            &&& found.row < lidar.shape@[0]
            &&& found.column < lidar.shape@[1]
            &&& found.row == cell / lidar.shape@[1] as int
            &&& found.column == cell % lidar.shape@[1] as int
            &&& found.row * lidar.shape@[1] + found.column == cell
            &&& is_return(lidar, found.row as int, found.column as int)
            &&& found == return_at(lidar, projection, found.row as int, found.column as int)
        }),
        forall|j: int|
            #![trigger returns_before(lidar, projection, cells)[j]]
            0 <= j < i ==> returns_before(lidar, projection, cells)[j].row * lidar.shape@[1]
                + returns_before(lidar, projection, cells)[j].column < cell,
    decreases cells,
{
    if cells > 0 {
        let before = returns_before(lidar, projection, cells - 1);
        let all = returns_before(lidar, projection, cells);
        let width = lidar.shape@[1] as int;
        if i < before.len() {
            let cell = lemma_return_cell(lidar, projection, cells - 1, i);
            assert(all[i] == before[i]);
            assert forall|j: int| 0 <= j < i implies (#[trigger] all[j]).row * width
                + all[j].column < cell by {
                assert(all[j] == before[j]);
            }
            cell
        } else {
            let cell = cells - 1;
            lemma_return_row(lidar, projection, cells, i);
            assert(width > 0) by (nonlinear_arith)
                requires
                    0 < cells <= lidar.shape@[0] * width,
                    width >= 0,
            ;
            let height = lidar.shape@[0] as int;
            let row = cell / width;
            assert(0 <= row < height) by (nonlinear_arith)
                requires
                    row == cell / width,
                    0 <= cell < height * width,
                    width > 0,
            ;
            vstd::arithmetic::div_mod::lemma_fundamental_div_mod(cell, width);
            assert(row * width == width * row) by (nonlinear_arith);
            assert forall|j: int| 0 <= j < i implies (#[trigger] all[j]).row * width
                + all[j].column < cell by {
                assert(all[j] == before[j]);
                let earlier = lemma_return_cell(lidar, projection, cells - 1, j);
            }
            cell
        }
    } else {
        0
    }
}

/// A return holds the first three numbers of its cell, in the order range,
/// intensity, elongation. It has the place in the picture that the projection holds
/// at its cell behind the front camera's number, which stands first or fourth.
pub proof fn law_returns_read_their_cells(lidar: LidarFrame, projection: LidarFrame, i: int)
    requires
        0 <= i < returns_before(lidar, projection, lidar.shape@[0] * lidar.shape@[1]).len(),
    ensures
        ({
            let found = returns_before(
                lidar,
                projection,
                lidar.shape@[0] * lidar.shape@[1],
            )[i];
            let at = (found.row * lidar.shape@[1] + found.column) * lidar.shape@[2];
            let seen = (found.row * projection.shape@[1] + found.column) * projection.shape@[2];
            let first = ieee::f32_truncates_to_one(projection.values@[seen]);
            let second = ieee::f32_truncates_to_one(projection.values@[seen + 3]);
            &&& found.row < lidar.shape@[0]
            &&& found.column < lidar.shape@[1]
            &&& found.range == lidar.values@[at]
            &&& found.intensity == lidar.values@[at + 1]
            &&& found.elongation == lidar.values@[at + 2]
            &&& ieee::f32_is_finite(found.range) && ieee::f32_lt(0, found.range)
            &&& found.camera == 1 <==> first || second
            &&& first ==> found.u == projection.values@[seen + 1] && found.v
                == projection.values@[seen + 2]
            &&& !first && second ==> found.u == projection.values@[seen + 4] && found.v
                == projection.values@[seen + 5]
            &&& !first && !second ==> found.camera == 0 && found.u == 0xbf80_0000u32 && found.v
                == 0xbf80_0000u32
        }),
{
    let cell = lemma_return_cell(lidar, projection, lidar.shape@[0] * lidar.shape@[1], i);
}

/// Returns come line by line, and within a line from left to right.
pub proof fn law_returns_come_line_by_line(
    lidar: LidarFrame,
    projection: LidarFrame,
    i: int,
    j: int,
)
    requires
        0 <= i < j < returns_before(lidar, projection, lidar.shape@[0] * lidar.shape@[1]).len(),
    ensures
        ({
            let found = returns_before(lidar, projection, lidar.shape@[0] * lidar.shape@[1]);
            found[i].row < found[j].row || (found[i].row == found[j].row && found[i].column
                < found[j].column)
        }),
{
    let cells = lidar.shape@[0] * lidar.shape@[1];
    let found = returns_before(lidar, projection, cells);
    let width = lidar.shape@[1] as int;
    let early = lemma_return_cell(lidar, projection, cells, i);
    let late = lemma_return_cell(lidar, projection, cells, j);
    assert(found[i].row * width + found[i].column < late);
    if found[i].row > found[j].row {
        let (low, high) = (found[j].row as int, found[i].row as int);
        assert(high * width >= low * width + width) by (nonlinear_arith)
            requires
                high >= low + 1,
                width >= 0,
        ;
    }
}

/// A point lies where `locate` puts its return, each coordinate in its own place,
/// and keeps what was measured and where the front camera sees it.
pub proof fn law_points_lie_where_located<F: Fn(LidarReturn, Beam) -> Position>(
    locate: F,
    calibration: Calibration,
    height: int,
    found: LidarReturn,
    point: Point,
)
    requires
        is_located(locate, calibration, height, found, point),
    ensures
        exists|position: Position|
            {
                &&& #[trigger] call_ensures(
                    locate,
                    (found, beam_of(calibration, height, found.row as int)),
                    position,
                )
                &&& point.x == position.x
                &&& point.y == position.y
                &&& point.z == position.z
            },
        point.range == found.range,
        point.intensity == found.intensity,
        point.elongation == found.elongation,
        point.camera == found.camera,
        point.u == found.u,
        point.v == found.v,
{
    let position = Position { x: point.x, y: point.y, z: point.z };
    assert(call_ensures(
        locate,
        (found, beam_of(calibration, height, found.row as int)),
        position,
    ));
}

/// The rows of an image go from the highest beam down: the first has the last
/// inclination of the calibration, or the highest step, and the last the first.
pub proof fn law_beams_go_down(calibration: Calibration, height: int, row: int)
    requires
        0 <= row < height <= usize::MAX,
    ensures
        calibration.inclinations@.len() == height ==> beam_of(calibration, height, row)
            == Beam::Given(calibration.inclinations@.reverse()[row]),
        calibration.inclinations@.len() != height ==> {
            &&& beam_of(calibration, height, row) is Step
            &&& beam_of(calibration, height, row)->Step_0 + row + 1 == height
        },
{
}

/// The column `name` of the table holds these numbers, none of them null.
pub open spec fn holds_floats(batch: TableModel, name: Seq<char>, values: Seq<u32>) -> bool {
    exists|i: int|
        0 <= i < batch.fields().len() && (#[trigger] batch.fields()[i]).name == name && batch.array(
            i,
        ).values == ArrayValues::Float32(values) && batch.array(i).len == values.len() && forall|
            row: int,
        |
            0 <= row < values.len() ==> !batch.array(i).nulls[row]
}

/// A point table has a row for each point, in order, with each of its numbers in
/// the column of its name.
pub proof fn law_point_tables_name_their_columns(batch: TableModel, points: Seq<Point>)
    requires
        is_point_table(batch, points),
    ensures
        batch.rows == points.len(),
        holds_floats(batch, "x"@, Seq::new(points.len(), |i: int| points[i].x)),
        holds_floats(batch, "y"@, Seq::new(points.len(), |i: int| points[i].y)),
        holds_floats(batch, "z"@, Seq::new(points.len(), |i: int| points[i].z)),
        holds_floats(batch, "range"@, Seq::new(points.len(), |i: int| points[i].range)),
        holds_floats(batch, "intensity"@, Seq::new(points.len(), |i: int| points[i].intensity)),
        holds_floats(batch, "elongation"@, Seq::new(points.len(), |i: int| points[i].elongation)),
        holds_floats(batch, "front_u"@, Seq::new(points.len(), |i: int| points[i].u)),
        holds_floats(batch, "front_v"@, Seq::new(points.len(), |i: int| points[i].v)),
        batch.fields()[6].name == "front_camera"@,
        batch.array(6).values == ArrayValues::Int8(
            Seq::new(points.len(), |i: int| points[i].camera),
        ),
        table::schema_metadata(batch.schema).contains_pair("coordinate_frame"@, "vehicle"@),
{
    let fields = batch.fields();
    assert(fields[0].name == "x"@);
    assert(fields[1].name == "y"@);
    assert(fields[2].name == "z"@);
    assert(fields[3].name == "range"@);
    assert(fields[4].name == "intensity"@);
    assert(fields[5].name == "elongation"@);
    assert(fields[7].name == "front_u"@);
    assert(fields[8].name == "front_v"@);
    assert(points.map_values(|p: Point| p.x) =~= Seq::new(points.len(), |i: int| points[i].x));
    assert(points.map_values(|p: Point| p.y) =~= Seq::new(points.len(), |i: int| points[i].y));
    assert(points.map_values(|p: Point| p.z) =~= Seq::new(points.len(), |i: int| points[i].z));
    assert(points.map_values(|p: Point| p.range) =~= Seq::new(
        points.len(),
        |i: int| points[i].range,
    ));
    assert(points.map_values(|p: Point| p.intensity) =~= Seq::new(
        points.len(),
        |i: int| points[i].intensity,
    ));
    assert(points.map_values(|p: Point| p.elongation) =~= Seq::new(
        points.len(),
        |i: int| points[i].elongation,
    ));
    assert(points.map_values(|p: Point| p.camera) =~= Seq::new(
        points.len(),
        |i: int| points[i].camera,
    ));
    assert(points.map_values(|p: Point| p.u) =~= Seq::new(points.len(), |i: int| points[i].u));
    assert(points.map_values(|p: Point| p.v) =~= Seq::new(points.len(), |i: int| points[i].v));
    reveal_strlit("coordinate_frame");
    reveal_strlit("source");
    reveal_strlit("motion_compensated");
    assert("coordinate_frame"@.len() == 16 && "source"@.len() == 6 && "motion_compensated"@.len()
        == 18);
}

/// Two whole images over one grid can be converted: where both have the numbers per
/// cell that are read, every cell can be read.
pub proof fn law_whole_images_can_be_converted(lidar: LidarFrame, projection: LidarFrame)
    requires
        has_channels(lidar, projection),
        lidar.shape@[0] * lidar.shape@[1] * lidar.shape@[2] == lidar.values@.len(),
        projection.shape@[0] * projection.shape@[1] * projection.shape@[2]
            == projection.values@.len(),
        projection.shape@[0] == lidar.shape@[0],
        projection.shape@[1] == lidar.shape@[1],
    ensures
        grids_match(lidar, projection),
{
    assert forall|row: int, column: int|
        0 <= row < lidar.shape@[0] && 0 <= column < lidar.shape@[1] implies #[trigger] cell_reaches(
        lidar,
        projection,
        row,
        column,
    ) by {
        lemma_cell_lies_within(
            row,
            column,
            lidar.shape@[0] as int,
            lidar.shape@[1] as int,
            lidar.shape@[2] as int,
        );
        lemma_cell_lies_within(
            row,
            column,
            projection.shape@[0] as int,
            projection.shape@[1] as int,
            projection.shape@[2] as int,
        );
    }
}

proof fn lemma_cell_lies_within(row: int, column: int, height: int, width: int, channels: int)
    requires
        0 <= row < height,
        0 <= column < width,
        0 <= channels,
    ensures
        0 <= (row * width + column) * channels,
        (row * width + column) * channels + channels <= height * width * channels,
{
    let cell = row * width + column;
    assert(0 <= cell && cell + 1 <= height * width) by (nonlinear_arith)
        requires
            cell == row * width + column,
            0 <= row,
            row + 1 <= height,
            0 <= column < width,
    ;
    assert(0 <= cell * channels && cell * channels + channels <= height * width * channels)
        by (nonlinear_arith)
        requires
            0 <= cell,
            cell + 1 <= height * width,
            0 <= channels,
    ;
}

} // verus!
