//! The transport benchmark: a payload of points without meaning, and its report.
use arrow::error::ArrowError;
use vstd::prelude::*;

use crate::table::{self, Column};
#[allow(unused_imports)]
use crate::table::{ArrayModel, ArrayValues, StructColumn};
use crate::text;
use crate::wire::{self, MessageColumns, WireError};

verus! {

/// How many bytes a point takes: eight numbers of four bytes and one of one.
pub const POINT_BYTES: usize = 33;

/// The columns of a payload of points: `ramp` in all of them, but for the camera,
/// which is 1 everywhere.
pub open spec fn payload_columns(ramp: Seq<u32>) -> Seq<StructColumn> {
    seq![
        wire::f32_list_column("x"@, ramp),
        wire::f32_list_column("y"@, ramp),
        wire::f32_list_column("z"@, ramp),
        wire::f32_list_column("range"@, ramp),
        wire::f32_list_column("intensity"@, ramp),
        wire::f32_list_column("elongation"@, ramp),
        wire::i8_list_column("camera"@, Seq::new(ramp.len(), |i: int| 1i8)),
        wire::f32_list_column("u"@, ramp),
        wire::f32_list_column("v"@, ramp),
    ]
}

fn copy_of(values: &Vec<u32>) -> (copy: Vec<u32>)
    ensures
        copy@ == values@,
{
    let mut copy: Vec<u32> = Vec::new();
    let mut i: usize = 0;
    while i < values.len()
        invariant
            i <= values.len(),
            copy@ == values@.take(i as int),
        decreases values.len() - i,
    {
        copy.push(values[i]);
        i = i + 1;
        assert(copy@ =~= values@.take(i as int));
    }
    assert(values@.take(i as int) =~= values@);
    copy
}

/// The columns of a payload of as many points as `ramp` has numbers.
pub fn transport_columns(ramp: &Vec<u32>) -> (columns: MessageColumns)
    requires
        ramp@.len() <= i32::MAX,
    ensures
        columns.valid(),
        columns@ == payload_columns(ramp@),
{
    let mut cameras: Vec<i8> = Vec::new();
    let mut i: usize = 0;
    while i < ramp.len()
        invariant
            i <= ramp.len(),
            cameras@ == Seq::new(i as nat, |i: int| 1i8),
        decreases ramp.len() - i,
    {
        cameras.push(1);
        i = i + 1;
        assert(cameras@ =~= Seq::new(i as nat, |i: int| 1i8));
    }
    let mut columns = MessageColumns::new();
    columns.push_f32_list("x", copy_of(ramp));
    columns.push_f32_list("y", copy_of(ramp));
    columns.push_f32_list("z", copy_of(ramp));
    columns.push_f32_list("range", copy_of(ramp));
    columns.push_f32_list("intensity", copy_of(ramp));
    columns.push_f32_list("elongation", copy_of(ramp));
    columns.push_i8_list("camera", cameras);
    columns.push_f32_list("u", copy_of(ramp));
    columns.push_f32_list("v", copy_of(ramp));
    assert(columns@ =~= payload_columns(ramp@));
    columns
}

/// The payload that threads hand to each other: its sequence number is zero.
pub fn payload(ramp: &Vec<u32>) -> (message: Result<Column, ArrowError>)
    requires
        ramp@.len() <= i32::MAX,
    ensures
        message matches Ok(message) && table::array_model(message) == wire::message_of(
            payload_columns(ramp@).push(wire::u64_column("sequence"@, 0)),
        ),
{
    let mut columns: MessageColumns = transport_columns(ramp);
    columns.push_u64("sequence", 0);
    wire::struct_array(&columns)
}

/// The payload that a node sends, with its number and the times at which it was
/// begun and sent.
pub fn numbered_payload(
    ramp: &Vec<u32>,
    sequence: u64,
    started_unix_ns: u64,
    sent_unix_ns: u64,
) -> (message: Result<Column, ArrowError>)
    requires
        ramp@.len() <= i32::MAX,
    ensures
        message matches Ok(message) && table::array_model(message) == wire::message_of(
            payload_columns(ramp@).push(wire::u64_column("sequence"@, sequence)).push(
                wire::u64_column("started_unix_ns"@, started_unix_ns),
            ).push(wire::u64_column("sent_unix_ns"@, sent_unix_ns)),
        ),
{
    let mut columns: MessageColumns = transport_columns(ramp);
    columns.push_u64("sequence", sequence);
    columns.push_u64("started_unix_ns", started_unix_ns);
    columns.push_u64("sent_unix_ns", sent_unix_ns);
    wire::struct_array(&columns)
}

/// How many points a payload holds, nothing where its first column is not there
/// or holds no lists.
pub open spec fn points_of(message: ArrayModel) -> Option<nat> {
    match wire::column_of(message, "x"@) {
        Ok(array) => match array.values {
            ArrayValues::List(lists) => Some(table::list_len(lists, 0)),
            _ => None,
        },
        Err(_) => None,
    }
}

/// How many points a payload holds: the length of its list `x`, where it has one.
pub fn payload_points(message: &Column) -> (points: Option<usize>)
    requires
        wire::is_list_column(table::array_model(*message), "x"@) ==> table::array_model(
            *message,
        ).len > 0,
    ensures
        match points {
            Some(points) => points_of(table::array_model(*message)) == Some(points as nat),
            None => points_of(table::array_model(*message)) is None,
        },
{
    match wire::find_column(message, "x") {
        Ok(column) => table::list_len_at(&column, 0),
        Err(_) => None,
    }
}

/// What a node's payload says of itself.
#[derive(Clone, Copy, Debug, PartialEq, Eq, Structural)]
pub struct Arrival {
    pub sequence: u64,
    pub started_unix_ns: u64,
    pub sent_unix_ns: u64,
    pub points: usize,
}

/// Why a node's payload cannot be read.
#[derive(Debug)]
pub enum ArrivalError {
    Message(WireError),
    /// There is no list `x`.
    MissingPayload,
}

/// Reads a node's payload.
pub fn parse_payload(message: &Column) -> (arrival: Result<Arrival, ArrivalError>)
    requires
        wire::u64_of(table::array_model(*message), "sequence"@) is Ok ==> table::array_model(
            *message,
        ).len > 0,
    ensures
        ({
            let model = table::array_model(*message);
            let sequence = wire::u64_of(model, "sequence"@);
            let started = wire::u64_of(model, "started_unix_ns"@);
            let sent = wire::u64_of(model, "sent_unix_ns"@);
            match arrival {
                Ok(arrival) => {
                    &&& sequence == Ok::<u64, wire::WireFault>(arrival.sequence)
                    &&& started == Ok::<u64, wire::WireFault>(arrival.started_unix_ns)
                    &&& sent == Ok::<u64, wire::WireFault>(arrival.sent_unix_ns)
                    &&& points_of(model) == Some(arrival.points as nat)
                },
                Err(ArrivalError::Message(error)) => {
                    let fault = Err::<u64, wire::WireFault>(error@);
                    sequence == fault || (sequence is Ok && started == fault) || (sequence is Ok
                        && started is Ok && sent == fault)
                },
                Err(ArrivalError::MissingPayload) => sequence is Ok && started is Ok && sent is Ok
                    && points_of(model) is None,
            }
        }),
{
    let sequence: u64 = match wire::u64_col(message, "sequence") {
        Ok(value) => value,
        Err(error) => return Err(ArrivalError::Message(error)),
    };
    let started_unix_ns: u64 = match wire::u64_col(message, "started_unix_ns") {
        Ok(value) => value,
        Err(error) => return Err(ArrivalError::Message(error)),
    };
    let sent_unix_ns: u64 = match wire::u64_col(message, "sent_unix_ns") {
        Ok(value) => value,
        Err(error) => return Err(ArrivalError::Message(error)),
    };
    match payload_points(message) {
        Some(points) => Ok(Arrival { sequence, started_unix_ns, sent_unix_ns, points }),
        None => Err(ArrivalError::MissingPayload),
    }
}

/// A payload arrives with the points and the times with which it was sent.
pub proof fn law_payloads_arrive(ramp: Seq<u32>, sequence: u64, started: u64, sent: u64)
    ensures
        ({
            let model = wire::message_of(
                payload_columns(ramp).push(wire::u64_column("sequence"@, sequence)).push(
                    wire::u64_column("started_unix_ns"@, started),
                ).push(wire::u64_column("sent_unix_ns"@, sent)),
            );
            &&& points_of(model) == Some(ramp.len())
            &&& wire::u64_of(model, "sequence"@) == Ok::<u64, wire::WireFault>(sequence)
            &&& wire::u64_of(model, "started_unix_ns"@) == Ok::<u64, wire::WireFault>(started)
            &&& wire::u64_of(model, "sent_unix_ns"@) == Ok::<u64, wire::WireFault>(sent)
        }),
{
    let columns = payload_columns(ramp).push(wire::u64_column("sequence"@, sequence)).push(
        wire::u64_column("started_unix_ns"@, started),
    ).push(wire::u64_column("sent_unix_ns"@, sent));
    reveal_strlit("x");
    reveal_strlit("y");
    reveal_strlit("z");
    reveal_strlit("range");
    reveal_strlit("intensity");
    reveal_strlit("elongation");
    reveal_strlit("camera");
    reveal_strlit("u");
    reveal_strlit("v");
    reveal_strlit("sequence");
    reveal_strlit("started_unix_ns");
    reveal_strlit("sent_unix_ns");
    assert forall|i: int| 0 <= i < 9 implies (#[trigger] columns[i]).name != "sequence"@
        && columns[i].name != "started_unix_ns"@ && columns[i].name != "sent_unix_ns"@ by {
        assert(columns[i].name.len() <= 10);
        assert(columns[i].name.len() != 8);
    }
    assert("sequence"@.len() == 8 && "started_unix_ns"@.len() == 15 && "sent_unix_ns"@.len()
        == 12);
    wire::lemma_named(columns, "x"@, 0, 0);
    wire::lemma_named(columns, "sequence"@, 0, 9);
    wire::lemma_named(columns, "started_unix_ns"@, 0, 10);
    wire::lemma_named(columns, "sent_unix_ns"@, 0, 11);
}

/// One message of the benchmark. Times are in nanoseconds.
#[derive(Clone, Copy, Debug)]
pub struct TransportRow {
    pub frame: u64,
    pub points: usize,
    pub payload_bytes: usize,
    pub queue_wait_ns: u128,
    pub end_to_end_ns: u128,
}

/// The columns of the benchmark's report.
pub open spec fn transport_report_columns() -> Seq<Seq<char>> {
    seq![
        "frame"@,
        "status"@,
        "points"@,
        "payload_bytes"@,
        "queue_wait_ns"@,
        "end_to_end_ns"@,
    ]
}

/// The first line of the benchmark's report.
pub fn transport_header() -> (header: String)
    ensures
        header@ == text::comma_joined(transport_report_columns()),
{
    let names: Vec<String> = vec![
        "frame".to_owned(),
        "status".to_owned(),
        "points".to_owned(),
        "payload_bytes".to_owned(),
        "queue_wait_ns".to_owned(),
        "end_to_end_ns".to_owned(),
    ];
    assert(names@.map_values(|name: String| name@) =~= transport_report_columns());
    text::comma_row(&names)
}

/// The bytes that points take.
pub fn payload_bytes(points: usize) -> (bytes: usize)
    requires
        points * POINT_BYTES <= usize::MAX,
    ensures
        bytes == points * POINT_BYTES,
{
    points * POINT_BYTES
}

impl TransportRow {
    pub open spec fn fields(self) -> Seq<Seq<char>> {
        seq![
            text::decimal(self.frame as nat),
            "delivered"@,
            text::decimal(self.points as nat),
            text::decimal(self.payload_bytes as nat),
            text::decimal(self.queue_wait_ns as nat),
            text::decimal(self.end_to_end_ns as nat),
        ]
    }

    /// The row of the report.
    pub fn csv_row(&self) -> (row: String)
        ensures
            row@ == text::comma_joined(self.fields()),
    {
        let fields: Vec<String> = vec![
            text::decimal_text(self.frame as u128),
            "delivered".to_owned(),
            text::decimal_text(self.points as u128),
            text::decimal_text(self.payload_bytes as u128),
            text::decimal_text(self.queue_wait_ns),
            text::decimal_text(self.end_to_end_ns),
        ];
        assert(fields@.map_values(|field: String| field@) =~= self.fields());
        text::comma_row(&fields)
    }
}

/// Each field of a row of the benchmark stands in the place of the column of its
/// name, and can be read back from it.
pub proof fn law_transport_rows_fit_their_columns(row: TransportRow)
    ensures
        row.fields().len() == transport_report_columns().len() == 6,
        transport_report_columns()[0] == "frame"@ && text::decimal_value(row.fields()[0])
            == row.frame,
        transport_report_columns()[1] == "status"@ && row.fields()[1] == "delivered"@,
        transport_report_columns()[2] == "points"@ && text::decimal_value(row.fields()[2])
            == row.points,
        transport_report_columns()[3] == "payload_bytes"@ && text::decimal_value(row.fields()[3])
            == row.payload_bytes,
        transport_report_columns()[4] == "queue_wait_ns"@ && text::decimal_value(row.fields()[4])
            == row.queue_wait_ns,
        transport_report_columns()[5] == "end_to_end_ns"@ && text::decimal_value(row.fields()[5])
            == row.end_to_end_ns,
{
    text::law_decimal_reads_back(row.frame as nat);
    text::law_decimal_reads_back(row.points as nat);
    text::law_decimal_reads_back(row.payload_bytes as nat);
    text::law_decimal_reads_back(row.queue_wait_ns as nat);
    text::law_decimal_reads_back(row.end_to_end_ns as nat);
}

/// A payload has the columns of a LiDAR message, each as long as the ramp: the ramp
/// itself in the eight columns of four bytes, and the front camera's number in the
/// one of a single byte. That is what a point takes.
pub proof fn law_payloads_look_like_points(ramp: Seq<u32>, i: int)
    requires
        0 <= i < payload_columns(ramp).len(),
    ensures
        payload_columns(ramp).len() == 9,
        POINT_BYTES == 8 * 4 + 1,
        ({
            let column = payload_columns(ramp)[i];
            &&& column.name == seq![
                "x"@,
                "y"@,
                "z"@,
                "range"@,
                "intensity"@,
                "elongation"@,
                "camera"@,
                "u"@,
                "v"@,
            ][i]
            &&& i != 6 ==> column == wire::f32_list_column(column.name, ramp)
            &&& i == 6 ==> exists|cameras: Seq<i8>|
                {
                    &&& column == #[trigger] wire::i8_list_column(column.name, cameras)
                    &&& cameras.len() == ramp.len()
                    &&& forall|k: int| 0 <= k < cameras.len() ==> cameras[k] == 1
                }
        }),
{
    if i == 6 {
        let cameras = Seq::new(ramp.len(), |i: int| 1i8);
        assert(payload_columns(ramp)[i] == wire::i8_list_column("camera"@, cameras));
    }
}

} // verus!
