//! Loading the measurements of one sensor from the tables of a component file.
use arrow::datatypes::Schema;
use vstd::prelude::*;

use crate::columns;
use crate::measurement::{Measurement, SensorId, SensorKind};
use crate::nanos;
use crate::table::{self, Batch, Column};
#[allow(unused_imports)]
use crate::table::{ArrayModel, ArrayValues, TableModel};

verus! {

/// A file without a column that is needed.
#[derive(Debug)]
pub struct MissingColumn {
    pub name: String,
    /// The columns that the file has.
    pub available: Vec<String>,
}

/// Why a table cannot be loaded.
#[derive(Clone, Copy, Debug, PartialEq, Eq, Structural)]
pub enum LoadError {
    /// The timestamps are not of type `Int64`.
    TimestampType,
    /// The sensor's number is null in this row.
    NullSensor(usize),
    /// The sensor's number does not fit in 64 signed bits.
    SensorOutOfRange,
    /// The sensors' numbers are not integers.
    SensorType,
}

/// The name of the column that holds the timestamps.
pub open spec fn timestamp_column() -> Seq<char> {
    "key.frame_timestamp_micros"@
}

/// The name of the column that holds the sensors' numbers.
pub open spec fn sensor_column(sensor: SensorId) -> Seq<char> {
    if sensor.is_camera() {
        "key.camera_name"@
    } else {
        "key.laser_name"@
    }
}

/// The number in a row of a column of any integer type.
pub open spec fn integer_at(array: ArrayModel, row: int) -> Result<i64, LoadError> {
    if array.nulls[row] {
        Err(LoadError::NullSensor(row as usize))
    } else {
        match array.values {
            ArrayValues::Int8(v) => Ok(v[row] as i64),
            ArrayValues::Int16(v) => Ok(v[row] as i64),
            ArrayValues::Int32(v) => Ok(v[row] as i64),
            ArrayValues::Int64(v) => Ok(v[row]),
            ArrayValues::UInt8(v) => Ok(v[row] as i64),
            ArrayValues::UInt16(v) => Ok(v[row] as i64),
            ArrayValues::UInt32(v) => Ok(v[row] as i64),
            ArrayValues::UInt64(v) => if v[row] <= i64::MAX {
                Ok(v[row] as i64)
            } else {
                Err(LoadError::SensorOutOfRange)
            },
            _ => Err(LoadError::SensorType),
        }
    }
}

/// The values of a column of any integer type.
enum Integers {
    Int8(Vec<i8>),
    Int16(Vec<i16>),
    Int32(Vec<i32>),
    Int64(Vec<i64>),
    UInt8(Vec<u8>),
    UInt16(Vec<u16>),
    UInt32(Vec<u32>),
    UInt64(Vec<u64>),
    Other,
}

impl Integers {
    spec fn are_of(&self, array: ArrayModel) -> bool {
        match self {
            Integers::Int8(v) => array.values == ArrayValues::Int8(v@),
            Integers::Int16(v) => array.values == ArrayValues::Int16(v@),
            Integers::Int32(v) => array.values == ArrayValues::Int32(v@),
            Integers::Int64(v) => array.values == ArrayValues::Int64(v@),
            Integers::UInt8(v) => array.values == ArrayValues::UInt8(v@),
            Integers::UInt16(v) => array.values == ArrayValues::UInt16(v@),
            Integers::UInt32(v) => array.values == ArrayValues::UInt32(v@),
            Integers::UInt64(v) => array.values == ArrayValues::UInt64(v@),
            Integers::Other => integer_at(
                ArrayModel { nulls: seq![false], ..array },
                0,
            ) == Err::<i64, LoadError>(LoadError::SensorType),
        }
    }

    fn read(data: &Column) -> (integers: Integers)
        ensures
            integers.are_of(table::array_model(*data)),
    {
        if let Some(values) = table::int8_values(data) {
            return Integers::Int8(values);
        }
        if let Some(values) = table::int16_values(data) {
            return Integers::Int16(values);
        }
        if let Some(values) = table::int32_values(data) {
            return Integers::Int32(values);
        }
        if let Some(values) = table::int64_values(data) {
            return Integers::Int64(values);
        }
        if let Some(values) = table::uint8_values(data) {
            return Integers::UInt8(values);
        }
        if let Some(values) = table::uint16_values(data) {
            return Integers::UInt16(values);
        }
        if let Some(values) = table::uint32_values(data) {
            return Integers::UInt32(values);
        }
        if let Some(values) = table::uint64_values(data) {
            return Integers::UInt64(values);
        }
        Integers::Other
    }

    /// The number in a row that is not null.
    fn at(&self, Ghost(array): Ghost<ArrayModel>, row: usize) -> (value: Result<i64, LoadError>)
        requires
            self.are_of(array),
            array.has_len(array.len),
            row < array.len,
            !array.nulls[row as int],
        ensures
            value == integer_at(array, row as int),
    {
        match self {
            Integers::Int8(v) => Ok(v[row] as i64),
            Integers::Int16(v) => Ok(v[row] as i64),
            Integers::Int32(v) => Ok(v[row] as i64),
            Integers::Int64(v) => Ok(v[row]),
            Integers::UInt8(v) => Ok(v[row] as i64),
            Integers::UInt16(v) => Ok(v[row] as i64),
            Integers::UInt32(v) => Ok(v[row] as i64),
            Integers::UInt64(v) => {
                if v[row] <= i64::MAX as u64 {
                    Ok(v[row] as i64)
                } else {
                    Err(LoadError::SensorOutOfRange)
                }
            },
            Integers::Other => Err(LoadError::SensorType),
        }
    }
}

/// The rows before `end` in which a column holds a number.
pub open spec fn rows_with(array: ArrayModel, number: int, end: int) -> Seq<int>
    decreases end,
{
    if end <= 0 {
        Seq::empty()
    } else {
        let before = rows_with(array, number, end - 1);
        match integer_at(array, end - 1) {
            Ok(value) => if value == number {
                before.push(end - 1)
            } else {
                before
            },
            Err(_) => before,
        }
    }
}

/// Every row before `end` holds a number.
pub open spec fn readable(array: ArrayModel, end: int) -> bool {
    forall|row: int| 0 <= row < end ==> #[trigger] integer_at(array, row) is Ok
}

/// Reads the measurements of one sensor, table by table.
pub struct ComponentLoader {
    pub sensor: SensorId,
    pub timestamp_index: usize,
    pub sensor_index: usize,
    /// The number of the next measurement.
    pub sequence: u64,
}

impl ComponentLoader {
    /// The columns are there.
    pub open spec fn fits(&self, table: TableModel) -> bool {
        &&& table.valid()
        &&& self.timestamp_index < table.columns.len()
        &&& self.sensor_index < table.columns.len()
    }

    /// The measurement holds the row of a table, under its number.
    pub open spec fn is_loaded(
        &self,
        table: TableModel,
        row: int,
        sequence: int,
        now: u128,
        loaded: Measurement,
    ) -> bool {
        &&& loaded.sensor == self.sensor
        &&& loaded.sequence == sequence
        &&& table.array(self.timestamp_index as int).values matches ArrayValues::Int64(times)
            && loaded.sensor_timestamp_ns == nanos::saturated(times[row] * 1000)
        &&& loaded.host_arrival_unix_ns == 0
        &&& loaded.due_at == now
        &&& loaded.enqueued_at == now
        &&& table::is_row_of(table, row, loaded.payload@)
    }

    /// These measurements hold the sensor's rows before `end`, numbered in turn.
    pub open spec fn are_loaded(
        &self,
        table: TableModel,
        end: int,
        now: u128,
        loaded: Seq<Measurement>,
    ) -> bool {
        let rows = rows_with(table.array(self.sensor_index as int), self.sensor.number(), end);
        &&& loaded.len() == rows.len()
        &&& forall|i: int|
            0 <= i < rows.len() ==> self.is_loaded(
                table,
                rows[i],
                self.sequence + i,
                now,
                #[trigger] loaded[i],
            )
    }

    /// A loader for the tables of a file with this schema.
    pub fn open(schema: &Schema, sensor: SensorId) -> (loader: Result<
        ComponentLoader,
        MissingColumn,
    >)
        ensures
            match loader {
                Ok(loader) => loader.sensor == sensor && loader.sequence == 0 && columns::field_at(
                    table::schema_fields(*schema),
                    timestamp_column(),
                ) == Some(loader.timestamp_index as int) && columns::field_at(
                    table::schema_fields(*schema),
                    sensor_column(sensor),
                ) == Some(loader.sensor_index as int),
                Err(error) => {
                    &&& error.name@ == if columns::field_at(
                        table::schema_fields(*schema),
                        timestamp_column(),
                    ) is None {
                        timestamp_column()
                    } else {
                        sensor_column(sensor)
                    }
                    &&& columns::field_at(table::schema_fields(*schema), error.name@) is None
                    &&& error.available@.len() == table::schema_fields(*schema).len()
                    &&& forall|i: int|
                        0 <= i < error.available@.len() ==> (#[trigger] error.available@[i])@
                            == table::schema_fields(*schema)[i].name
                },
            },
            loader matches Ok(loader) ==> loader.timestamp_index < table::schema_fields(
                *schema,
            ).len() && loader.sensor_index < table::schema_fields(*schema).len(),
    {
        let timestamp: &str = "key.frame_timestamp_micros";
        let number: &str = match sensor.kind() {
            SensorKind::Camera => "key.camera_name",
            SensorKind::Lidar => "key.laser_name",
        };
        match columns::find_field(schema, timestamp) {
            Some(timestamp_index) => match columns::find_field(schema, number) {
                Some(sensor_index) => Ok(
                    ComponentLoader { sensor, timestamp_index, sensor_index, sequence: 0 },
                ),
                None => Err(
                    MissingColumn {
                        name: number.to_owned(),
                        available: table::field_names(schema),
                    },
                ),
            },
            None => Err(
                MissingColumn {
                    name: timestamp.to_owned(),
                    available: table::field_names(schema),
                },
            ),
        }
    }

    /// Adds the sensor's measurements in a table to those loaded so far, up to
    /// the first row that cannot be read.
    pub fn load_batch(
        &mut self,
        batch: &Batch,
        now: u128,
        output: &mut Vec<Measurement>,
    ) -> (loaded: Result<(), LoadError>)
        requires
            old(self).fits(batch@),
            old(self).sequence + batch@.rows <= u64::MAX,
        ensures
            *final(self) == (ComponentLoader {
                sequence: (old(self).sequence + final(output)@.len() - old(output)@.len()) as u64,
                ..*old(self)
            }),
            old(output)@.is_prefix_of(final(output)@),
            ({
                let added = final(output)@.skip(old(output)@.len() as int);
                let numbers = batch@.array(old(self).sensor_index as int);
                let times = batch@.array(old(self).timestamp_index as int);
                match loaded {
                    Ok(_) => times.values is Int64 && readable(numbers, batch@.rows as int)
                        && old(self).are_loaded(batch@, batch@.rows as int, now, added),
                    Err(LoadError::TimestampType) => !(times.values is Int64) && added.len() == 0,
                    Err(error) => times.values is Int64 && exists|row: int|
                        0 <= row < batch@.rows && readable(numbers, row) && #[trigger] integer_at(
                            numbers,
                            row,
                        ) == Err::<i64, LoadError>(error) && old(self).are_loaded(
                            batch@,
                            row,
                            now,
                            added,
                        ),
                }
            }),
    {
        let ghost start = *self;
        let ghost before = output@;
        assert(before.skip(before.len() as int) =~= Seq::empty());
        let rows: usize = batch.num_rows();
        let times: Vec<i64> = match table::int64_values(&batch.columns()[self.timestamp_index]) {
            Some(times) => times,
            None => return Err(LoadError::TimestampType),
        };
        let column: &Column = &batch.columns()[self.sensor_index];
        let numbers = Integers::read(column);
        let ghost array = table::array_model(*column);
        let wanted: i64 = self.sensor.waymo_id();
        assert(array == batch@.array(start.sensor_index as int));
        assert(table::array_model(batch@.columns[start.timestamp_index as int]).has_len(
            batch@.rows,
        ));
        assert(array.has_len(batch@.rows));
        let mut row: usize = 0;
        while row < rows
            invariant
                start == *old(self),
                before == old(output)@,
                start.fits(batch@),
                start.sequence + batch@.rows <= u64::MAX,
                rows == batch@.rows,
                row <= rows,
                array == table::array_model(*column),
                array == batch@.array(start.sensor_index as int),
                array.has_len(batch@.rows),
                numbers.are_of(array),
                wanted == start.sensor.number(),
                batch@.array(start.timestamp_index as int).values == ArrayValues::Int64(times@),
                times@.len() == batch@.rows,
                before.is_prefix_of(output@),
                output@.len() - before.len() <= row,
                *self == (ComponentLoader {
                    sequence: (start.sequence + output@.len() - before.len()) as u64,
                    ..start
                }),
                readable(array, row as int),
                start.are_loaded(batch@, row as int, now, output@.skip(before.len() as int)),
            decreases rows - row,
        {
            let ghost added = output@.skip(before.len() as int);
            if table::array_is_null(column, row) {
                assert(integer_at(array, row as int) == Err::<i64, LoadError>(
                    LoadError::NullSensor(row),
                ));
                return Err(LoadError::NullSensor(row));
            }
            let number: i64 = match numbers.at(Ghost(array), row) {
                Ok(number) => number,
                Err(error) => {
                    assert(integer_at(array, row as int) == Err::<i64, LoadError>(error));
                    return Err(error);
                },
            };
            if number == wanted {
                let loaded = Measurement {
                    sensor: self.sensor,
                    sequence: self.sequence,
                    sensor_timestamp_ns: nanos::saturate(times[row] as i128 * 1000),
                    host_arrival_unix_ns: 0,
                    due_at: now,
                    enqueued_at: now,
                    payload: batch.row(row),
                };
                let ghost one = loaded;
                output.push(loaded);
                self.sequence = self.sequence + 1;
                proof {
                    assert(output@.skip(before.len() as int) =~= added.push(one));
                    let wanted_rows = rows_with(array, start.sensor.number(), row + 1);
                    assert forall|i: int| 0 <= i < wanted_rows.len() implies start.is_loaded(
                        batch@,
                        wanted_rows[i],
                        start.sequence + i,
                        now,
                        #[trigger] added.push(one)[i],
                    ) by {
                        if i < added.len() {
                            assert(added.push(one)[i] == added[i]);
                        }
                    }
                }
            }
            row = row + 1;
        }
        Ok(())
    }
}

/// A measurement is loaded from every row that holds the sensor's number, and
/// from no other.
pub proof fn law_rows_with_a_number(array: ArrayModel, number: int, end: int, row: int)
    requires
        0 <= row < end,
    ensures
        rows_with(array, number, end).contains(row) <==> (integer_at(array, row) matches Ok(value)
            && value == number),
        rows_with(array, number, end).len() <= end,
    decreases end,
{
    let before = rows_with(array, number, end - 1);
    let all = rows_with(array, number, end);
    lemma_rows_below(array, number, end - 1);
    lemma_rows_below(array, number, end);
    if row < end - 1 {
        law_rows_with_a_number(array, number, end - 1, row);
        if before.contains(row) {
            let i = choose|i: int| 0 <= i < before.len() && before[i] == row;
            assert(all[i] == row);
        }
        if all.contains(row) {
            let i = choose|i: int| 0 <= i < all.len() && all[i] == row;
            assert(i < before.len());
            assert(before[i] == row);
        }
    } else {
        if all.len() > before.len() {
            assert(all[before.len() as int] == row);
        }
    }
}

proof fn lemma_rows_below(array: ArrayModel, number: int, end: int)
    requires
        0 <= end,
    ensures
        rows_with(array, number, end).len() <= end,
        forall|i: int|
            0 <= i < rows_with(array, number, end).len() ==> 0 <= #[trigger] rows_with(
                array,
                number,
                end,
            )[i] < end,
    decreases end,
{
    if end > 0 {
        lemma_rows_below(array, number, end - 1);
    }
}

/// A measurement tells of its row: it is of the sensor that is loaded, at the row's
/// time, a thousand nanoseconds for each microsecond, and holds the row's values.
/// It is due and came in at the instant of loading, and has not arrived yet.
pub proof fn law_measurements_tell_of_their_rows(
    loader: ComponentLoader,
    table: TableModel,
    end: int,
    now: u128,
    loaded: Seq<Measurement>,
    i: int,
)
    requires
        loader.are_loaded(table, end, now, loaded),
        0 <= i < loaded.len(),
    ensures
        ({
            let rows = rows_with(
                table.array(loader.sensor_index as int),
                loader.sensor.number(),
                end,
            );
            let one = loaded[i];
            &&& loaded.len() == rows.len()
            &&& one.sensor == loader.sensor
            &&& one.sequence - i == loader.sequence
            &&& table.array(loader.timestamp_index as int).values is Int64
            &&& ({
                let micros = table.array(
                    loader.timestamp_index as int,
                ).values->Int64_0[rows[i]];
                &&& i64::MIN <= micros * 1000 <= i64::MAX ==> one.sensor_timestamp_ns == micros
                    * 1000
                &&& micros * 1000 > i64::MAX ==> one.sensor_timestamp_ns == i64::MAX
                &&& micros * 1000 < i64::MIN ==> one.sensor_timestamp_ns == i64::MIN
            })
            &&& one.due_at == now
            &&& one.enqueued_at == now
            &&& one.host_arrival_unix_ns == 0
            &&& table::is_row_of(table, rows[i], one.payload@)
        }),
{
    assert(loader.is_loaded(
        table,
        rows_with(table.array(loader.sensor_index as int), loader.sensor.number(), end)[i],
        loader.sequence + i,
        now,
        loaded[i],
    ));
}

/// The rows of a sensor come in order.
pub proof fn law_rows_come_in_order(array: ArrayModel, number: int, end: int)
    ensures
        forall|i: int, j: int|
            0 <= i < j < rows_with(array, number, end).len() ==> #[trigger] rows_with(
                array,
                number,
                end,
            )[i] < #[trigger] rows_with(array, number, end)[j],
    decreases end,
{
    if end > 0 {
        law_rows_come_in_order(array, number, end - 1);
        lemma_rows_below(array, number, end - 1);
        let before = rows_with(array, number, end - 1);
        let rows = rows_with(array, number, end);
        assert forall|i: int, j: int| 0 <= i < j < rows.len() implies #[trigger] rows[i]
            < #[trigger] rows[j] by {
            assert(rows[i] == before[i]);
            if j < before.len() {
                assert(rows[j] == before[j]);
            }
        }
    }
}

/// A number that is read is the one in its row, whatever the type of the column; a
/// null is none, and neither is one that is greater than 64 signed bits hold.
pub proof fn law_numbers_keep_their_value(array: ArrayModel, row: int, value: i64)
    ensures
        integer_at(array, row) == Ok::<i64, LoadError>(value) <==> !array.nulls[row]
            && match array.values {
            ArrayValues::Int8(v) => v[row] == value,
            ArrayValues::Int16(v) => v[row] == value,
            ArrayValues::Int32(v) => v[row] == value,
            ArrayValues::Int64(v) => v[row] == value,
            ArrayValues::UInt8(v) => v[row] == value,
            ArrayValues::UInt16(v) => v[row] == value,
            ArrayValues::UInt32(v) => v[row] == value,
            ArrayValues::UInt64(v) => v[row] == value,
            _ => false,
        },
{
}

/// Times stand in one column for all sensors, the sensors' numbers in one for the
/// cameras and in another for the LiDARs.
pub proof fn law_sensors_have_their_columns(sensor: SensorId)
    ensures
        timestamp_column() == "key.frame_timestamp_micros"@,
        sensor is Camera ==> sensor_column(sensor) == "key.camera_name"@,
        sensor is Lidar ==> sensor_column(sensor) == "key.laser_name"@,
{
}

} // verus!
