//! Messages between the nodes of a dataflow: struct arrays of one row.
use arrow::error::ArrowError;
use vstd::prelude::*;

use crate::fusion::{Detection, Point};
use crate::pipeline::FrameTimes;
use crate::table::{self, Column};
#[allow(unused_imports)]
use crate::table::{ArrayModel, ArrayValues, ListValues, StructColumn};
use crate::text;

verus! {

/// A detection as it travels. Bit patterns of floats.
#[derive(Debug)]
pub struct WireDetection {
    pub id: String,
    pub kind: String,
    pub score: Option<u32>,
    pub x: u64,
    pub y: u64,
    pub width: u64,
    pub height: u64,
}

/// The object type of a name, `unknown` for a name that is not known.
pub open spec fn known_kind(kind: Seq<char>) -> Seq<char> {
    if kind == "vehicle"@ || kind == "pedestrian"@ || kind == "cyclist"@ || kind == "sign"@ {
        kind
    } else {
        "unknown"@
    }
}

/// The detection as it travels.
pub open spec fn is_wire_of(wire: WireDetection, detection: Detection) -> bool {
    &&& wire.id@ == detection.id@
    &&& wire.kind@ == detection.kind@
    &&& wire.score == detection.score
    &&& wire.x == detection.x
    &&& wire.y == detection.y
    &&& wire.width == detection.width
    &&& wire.height == detection.height
}

/// The detection that arrived: it has no depth yet.
pub open spec fn is_detection_of(detection: Detection, wire: WireDetection) -> bool {
    &&& detection.id@ == wire.id@
    &&& detection.kind@ == known_kind(wire.kind@)
    &&& detection.score == wire.score
    &&& detection.x == wire.x
    &&& detection.y == wire.y
    &&& detection.width == wire.width
    &&& detection.height == wire.height
    &&& detection.depth_m is None
    &&& detection.depth_points == 0
}

impl WireDetection {
    pub fn from_detection(detection: &Detection) -> (wire: WireDetection)
        ensures
            is_wire_of(wire, *detection),
    {
        WireDetection {
            id: detection.id.clone(),
            kind: detection.kind.to_owned(),
            score: detection.score,
            x: detection.x,
            y: detection.y,
            width: detection.width,
            height: detection.height,
        }
    }

    pub fn to_detection(&self) -> (detection: Detection)
        ensures
            is_detection_of(detection, *self),
    {
        let kind: &'static str = if text::same_text(self.kind.as_str(), "vehicle") {
            "vehicle"
        } else if text::same_text(self.kind.as_str(), "pedestrian") {
            "pedestrian"
        } else if text::same_text(self.kind.as_str(), "cyclist") {
            "cyclist"
        } else if text::same_text(self.kind.as_str(), "sign") {
            "sign"
        } else {
            "unknown"
        };
        Detection {
            id: self.id.clone(),
            kind,
            x: self.x,
            y: self.y,
            width: self.width,
            height: self.height,
            depth_m: None,
            depth_points: 0,
            score: self.score,
        }
    }
}

/// A detection of a known type arrives as it was sent, but for its depth.
pub proof fn law_detections_arrive(sent: Detection, wire: WireDetection, arrived: Detection)
    requires
        is_wire_of(wire, sent),
        is_detection_of(arrived, wire),
        known_kind(sent.kind@) == sent.kind@,
    ensures
        arrived.id@ == sent.id@,
        arrived.kind@ == sent.kind@,
        arrived.score == sent.score,
        arrived.x == sent.x && arrived.y == sent.y,
        arrived.width == sent.width && arrived.height == sent.height,
        arrived.depth_m is None,
{
}

/// What a message lacks.
#[derive(Debug)]
pub enum WireError {
    /// It is not a struct array.
    NotStruct,
    MissingColumn(String),
    /// The column is not of the type that it should have.
    WrongType(String),
    /// The column holds lists, but not of the type that it should have.
    WrongValueType(String),
}

/// What a message lacks.
pub enum WireFault {
    NotStruct,
    MissingColumn(Seq<char>),
    WrongType(Seq<char>),
    WrongValueType(Seq<char>),
}

impl View for WireError {
    type V = WireFault;

    open spec fn view(&self) -> WireFault {
        match self {
            WireError::NotStruct => WireFault::NotStruct,
            WireError::MissingColumn(name) => WireFault::MissingColumn(name@),
            WireError::WrongType(name) => WireFault::WrongType(name@),
            WireError::WrongValueType(name) => WireFault::WrongValueType(name@),
        }
    }
}

/// The first column of that name from `from` on.
pub open spec fn named_from(
    columns: Seq<StructColumn>,
    name: Seq<char>,
    from: int,
) -> Option<ArrayModel>
    decreases columns.len() - from,
{
    if from < 0 || from >= columns.len() {
        None
    } else if columns[from].name == name {
        Some(columns[from].array)
    } else {
        named_from(columns, name, from + 1)
    }
}

/// The first column of that name in a message.
pub open spec fn column_of(message: ArrayModel, name: Seq<char>) -> Result<ArrayModel, WireFault> {
    match message.values {
        ArrayValues::Struct(columns) => match named_from(columns, name, 0) {
            Some(array) => Ok(array),
            None => Err(WireFault::MissingColumn(name)),
        },
        _ => Err(WireFault::NotStruct),
    }
}

pub open spec fn i64_of(message: ArrayModel, name: Seq<char>) -> Result<i64, WireFault> {
    match column_of(message, name) {
        Ok(array) => match array.values {
            ArrayValues::Int64(v) => Ok(v[0]),
            _ => Err(WireFault::WrongType(name)),
        },
        Err(fault) => Err(fault),
    }
}

pub open spec fn u64_of(message: ArrayModel, name: Seq<char>) -> Result<u64, WireFault> {
    match column_of(message, name) {
        Ok(array) => match array.values {
            ArrayValues::UInt64(v) => Ok(v[0]),
            _ => Err(WireFault::WrongType(name)),
        },
        Err(fault) => Err(fault),
    }
}

pub open spec fn u32_of(message: ArrayModel, name: Seq<char>) -> Result<u32, WireFault> {
    match column_of(message, name) {
        Ok(array) => match array.values {
            ArrayValues::UInt32(v) => Ok(v[0]),
            _ => Err(WireFault::WrongType(name)),
        },
        Err(fault) => Err(fault),
    }
}

pub open spec fn binary_of(message: ArrayModel, name: Seq<char>) -> Result<Seq<u8>, WireFault> {
    match column_of(message, name) {
        Ok(array) => match array.values {
            ArrayValues::Binary(v) => Ok(v[0]),
            _ => Err(WireFault::WrongType(name)),
        },
        Err(fault) => Err(fault),
    }
}

pub open spec fn f32_list_of(message: ArrayModel, name: Seq<char>) -> Result<Seq<u32>, WireFault> {
    match column_of(message, name) {
        Ok(array) => match array.values {
            ArrayValues::List(ListValues::Float32(lists)) => Ok(lists[0]),
            ArrayValues::List(_) => Err(WireFault::WrongValueType(name)),
            _ => Err(WireFault::WrongType(name)),
        },
        Err(fault) => Err(fault),
    }
}

pub open spec fn i8_list_of(message: ArrayModel, name: Seq<char>) -> Result<Seq<i8>, WireFault> {
    match column_of(message, name) {
        Ok(array) => match array.values {
            ArrayValues::List(ListValues::Int8(lists)) => Ok(lists[0]),
            ArrayValues::List(_) => Err(WireFault::WrongValueType(name)),
            _ => Err(WireFault::WrongType(name)),
        },
        Err(fault) => Err(fault),
    }
}

pub proof fn lemma_named(columns: Seq<StructColumn>, name: Seq<char>, from: int, at: int)
    requires
        0 <= from <= at < columns.len(),
        columns[at].name == name,
        forall|j: int| from <= j < at ==> (#[trigger] columns[j]).name != name,
    ensures
        named_from(columns, name, from) == Some(columns[at].array),
    decreases at - from,
{
    if from < at {
        lemma_named(columns, name, from + 1, at);
    }
}

proof fn lemma_not_named(columns: Seq<StructColumn>, name: Seq<char>, from: int)
    requires
        0 <= from <= columns.len(),
        forall|j: int| from <= j < columns.len() ==> (#[trigger] columns[j]).name != name,
    ensures
        named_from(columns, name, from) is None,
    decreases columns.len() - from,
{
    if from < columns.len() {
        lemma_not_named(columns, name, from + 1);
    }
}

/// The column of that name in a message.
pub(crate) fn find_column(message: &Column, name: &str) -> (column: Result<Column, WireError>)
    ensures
        match column {
            Ok(column) => column_of(table::array_model(*message), name@) == Ok::<
                ArrayModel,
                WireFault,
            >(table::array_model(column)) && table::array_model(column).len == table::array_model(
                *message,
            ).len,
            Err(error) => column_of(table::array_model(*message), name@) == Err::<
                ArrayModel,
                WireFault,
            >(error@),
        },
{
    if !table::is_struct(message) {
        return Err(WireError::NotStruct);
    }
    let ghost columns = table::array_model(*message).values->Struct_0;
    match table::struct_column(message, name) {
        Some(column) => {
            proof {
                let at = choose|i: int|
                    0 <= i < columns.len() && (#[trigger] columns[i]).name == name@
                        && columns[i].array == table::array_model(column) && forall|j: int|
                        0 <= j < i ==> (#[trigger] columns[j]).name != name@;
                lemma_named(columns, name@, 0, at);
            }
            Ok(column)
        },
        None => {
            proof {
                lemma_not_named(columns, name@, 0);
            }
            Err(WireError::MissingColumn(name.to_owned()))
        },
    }
}

/// The outcome of a lookup is the one that is wanted.
pub open spec fn found<T>(result: Result<T, WireError>, wanted: Result<T, WireFault>) -> bool {
    match result {
        Ok(value) => wanted == Ok::<T, WireFault>(value),
        Err(error) => wanted == Err::<T, WireFault>(error@),
    }
}

/// The same for a list.
pub open spec fn found_list<T>(
    result: Result<Vec<T>, WireError>,
    wanted: Result<Seq<T>, WireFault>,
) -> bool {
    match result {
        Ok(value) => wanted == Ok::<Seq<T>, WireFault>(value@),
        Err(error) => wanted == Err::<Seq<T>, WireFault>(error@),
    }
}

/// The number in a column of type `Int64`.
pub fn i64_col(message: &Column, name: &str) -> (value: Result<i64, WireError>)
    requires
        i64_of(table::array_model(*message), name@) is Ok ==> table::array_model(*message).len > 0,
    ensures
        found(value, i64_of(table::array_model(*message), name@)),
{
    match find_column(message, name) {
        Ok(column) => match table::int64_values(&column) {
            Some(values) => Ok(values[0]),
            None => Err(WireError::WrongType(name.to_owned())),
        },
        Err(error) => Err(error),
    }
}

/// The number in a column of type `UInt64`.
pub fn u64_col(message: &Column, name: &str) -> (value: Result<u64, WireError>)
    requires
        u64_of(table::array_model(*message), name@) is Ok ==> table::array_model(*message).len > 0,
    ensures
        found(value, u64_of(table::array_model(*message), name@)),
{
    match find_column(message, name) {
        Ok(column) => match table::uint64_values(&column) {
            Some(values) => Ok(values[0]),
            None => Err(WireError::WrongType(name.to_owned())),
        },
        Err(error) => Err(error),
    }
}

/// The number in a column of type `UInt32`.
pub fn u32_col(message: &Column, name: &str) -> (value: Result<u32, WireError>)
    requires
        u32_of(table::array_model(*message), name@) is Ok ==> table::array_model(*message).len > 0,
    ensures
        found(value, u32_of(table::array_model(*message), name@)),
{
    match find_column(message, name) {
        Ok(column) => match table::uint32_values(&column) {
            Some(values) => Ok(values[0]),
            None => Err(WireError::WrongType(name.to_owned())),
        },
        Err(error) => Err(error),
    }
}

/// The bytes in a column of type `Binary`.
pub fn binary_col(message: &Column, name: &str) -> (value: Result<Vec<u8>, WireError>)
    requires
        binary_of(table::array_model(*message), name@) is Ok ==> table::array_model(*message).len
            > 0,
    ensures
        found_list(value, binary_of(table::array_model(*message), name@)),
{
    match find_column(message, name) {
        Ok(column) => {
            if !table::is_binary(&column) {
                return Err(WireError::WrongType(name.to_owned()));
            }
            match table::binary_at(&column, 0) {
                Some(bytes) => Ok(bytes),
                None => Err(WireError::WrongType(name.to_owned())),
            }
        },
        Err(error) => Err(error),
    }
}

/// A column of the message holds lists.
pub open spec fn is_list_column(message: ArrayModel, name: Seq<char>) -> bool {
    column_of(message, name) matches Ok(array) && array.values is List
}

/// The numbers in a column of lists of type `Float32`.
pub fn list_col(message: &Column, name: &str) -> (value: Result<Vec<u32>, WireError>)
    requires
        is_list_column(table::array_model(*message), name@) ==> table::array_model(*message).len
            > 0,
    ensures
        found_list(value, f32_list_of(table::array_model(*message), name@)),
{
    match find_column(message, name) {
        Ok(column) => {
            if !table::is_list(&column) {
                return Err(WireError::WrongType(name.to_owned()));
            }
            match table::list_float32_at(&column, 0) {
                Some(values) => Ok(values),
                None => Err(WireError::WrongValueType(name.to_owned())),
            }
        },
        Err(error) => Err(error),
    }
}

/// The numbers in a column of lists of type `Int8`.
pub fn i8_list_col(message: &Column, name: &str) -> (value: Result<Vec<i8>, WireError>)
    requires
        is_list_column(table::array_model(*message), name@) ==> table::array_model(*message).len
            > 0,
    ensures
        found_list(value, i8_list_of(table::array_model(*message), name@)),
{
    match find_column(message, name) {
        Ok(column) => {
            if !table::is_list(&column) {
                return Err(WireError::WrongType(name.to_owned()));
            }
            match table::list_int8_at(&column, 0) {
                Some(values) => Ok(values),
                None => Err(WireError::WrongValueType(name.to_owned())),
            }
        },
        Err(error) => Err(error),
    }
}

/// A message of one row: columns side by side under their names.
pub open spec fn message_of(columns: Seq<StructColumn>) -> ArrayModel {
    table::plain_array(1, ArrayValues::Struct(columns))
}

pub open spec fn i64_column(name: Seq<char>, value: i64) -> StructColumn {
    StructColumn { name, array: table::plain_array(1, ArrayValues::Int64(seq![value])) }
}

pub open spec fn u64_column(name: Seq<char>, value: u64) -> StructColumn {
    StructColumn { name, array: table::plain_array(1, ArrayValues::UInt64(seq![value])) }
}

pub open spec fn u32_column(name: Seq<char>, value: u32) -> StructColumn {
    StructColumn { name, array: table::plain_array(1, ArrayValues::UInt32(seq![value])) }
}

pub open spec fn binary_column(name: Seq<char>, value: Seq<u8>) -> StructColumn {
    StructColumn { name, array: table::plain_array(1, ArrayValues::Binary(seq![value])) }
}

pub open spec fn f32_list_column(name: Seq<char>, values: Seq<u32>) -> StructColumn {
    StructColumn {
        name,
        array: table::plain_array(1, ArrayValues::List(ListValues::Float32(seq![values]))),
    }
}

pub open spec fn i8_list_column(name: Seq<char>, values: Seq<i8>) -> StructColumn {
    StructColumn {
        name,
        array: table::plain_array(1, ArrayValues::List(ListValues::Int8(seq![values]))),
    }
}

/// Columns of one row under names, as they are gathered for a message.
pub struct MessageColumns {
    names: Vec<String>,
    arrays: Vec<Column>,
}

impl View for MessageColumns {
    type V = Seq<StructColumn>;

    closed spec fn view(&self) -> Seq<StructColumn> {
        Seq::new(
            self.arrays@.len(),
            |i: int| StructColumn {
                name: self.names@[i]@,
                array: table::array_model(self.arrays@[i]),
            },
        )
    }
}

impl MessageColumns {
    /// There are as many names as columns, and each column has one slot, which is
    /// not null.
    pub closed spec fn valid(&self) -> bool {
        &&& self.names@.len() == self.arrays@.len()
        &&& forall|i: int|
            0 <= i < self.arrays@.len() ==> {
                let array = table::array_model(#[trigger] self.arrays@[i]);
                &&& array.len == 1
                &&& array.nulls == seq![false]
                &&& !(array.values is Other)
            }
    }

    pub fn new() -> (columns: MessageColumns)
        ensures
            columns.valid(),
            columns@ == Seq::<StructColumn>::empty(),
    {
        let columns = MessageColumns { names: Vec::new(), arrays: Vec::new() };
        assert(columns@ =~= Seq::<StructColumn>::empty());
        columns
    }

    fn push(&mut self, name: &str, array: Column)
        requires
            old(self).valid(),
            table::array_model(array).len == 1,
            table::array_model(array).nulls == seq![false],
            !(table::array_model(array).values is Other),
        ensures
            final(self).valid(),
            final(self)@ == old(self)@.push(
                StructColumn { name: name@, array: table::array_model(array) },
            ),
    {
        self.names.push(name.to_owned());
        self.arrays.push(array);
        assert(self@ =~= old(self)@.push(
            StructColumn { name: name@, array: table::array_model(array) },
        ));
    }

    pub fn push_i64(&mut self, name: &str, value: i64)
        requires
            old(self).valid(),
        ensures
            final(self).valid(),
            final(self)@ == old(self)@.push(i64_column(name@, value)),
    {
        let values: Vec<i64> = vec![value];
        assert(values@ =~= seq![value]);
        let array = table::int64_array(values);
        assert(table::array_model(array).nulls =~= seq![false]);
        self.push(name, array);
    }

    pub fn push_u64(&mut self, name: &str, value: u64)
        requires
            old(self).valid(),
        ensures
            final(self).valid(),
            final(self)@ == old(self)@.push(u64_column(name@, value)),
    {
        let values: Vec<u64> = vec![value];
        assert(values@ =~= seq![value]);
        let array = table::uint64_array(values);
        assert(table::array_model(array).nulls =~= seq![false]);
        self.push(name, array);
    }

    pub fn push_u32(&mut self, name: &str, value: u32)
        requires
            old(self).valid(),
        ensures
            final(self).valid(),
            final(self)@ == old(self)@.push(u32_column(name@, value)),
    {
        let values: Vec<u32> = vec![value];
        assert(values@ =~= seq![value]);
        let array = table::uint32_array(values);
        assert(table::array_model(array).nulls =~= seq![false]);
        self.push(name, array);
    }

    pub fn push_binary(&mut self, name: &str, value: &Vec<u8>)
        requires
            old(self).valid(),
            value@.len() <= i32::MAX,
        ensures
            final(self).valid(),
            final(self)@ == old(self)@.push(binary_column(name@, value@)),
    {
        let array = table::binary_array_of_one(value);
        assert(table::array_model(array).nulls =~= seq![false]);
        self.push(name, array);
    }

    pub fn push_f32_list(&mut self, name: &str, values: Vec<u32>)
        requires
            old(self).valid(),
            values@.len() <= i32::MAX,
        ensures
            final(self).valid(),
            final(self)@ == old(self)@.push(f32_list_column(name@, values@)),
    {
        let array = table::list_of_one(table::float32_array(values));
        assert(table::array_model(array).nulls =~= seq![false]);
        self.push(name, array);
    }

    pub fn push_i8_list(&mut self, name: &str, values: Vec<i8>)
        requires
            old(self).valid(),
            values@.len() <= i32::MAX,
        ensures
            final(self).valid(),
            final(self)@ == old(self)@.push(i8_list_column(name@, values@)),
    {
        let array = table::list_of_one(table::int8_array(values));
        assert(table::array_model(array).nulls =~= seq![false]);
        self.push(name, array);
    }
}

/// A message of the columns, refused where there is none.
pub fn struct_array(columns: &MessageColumns) -> (message: Result<Column, ArrowError>)
    requires
        columns.valid(),
    ensures
        message is Ok <==> columns@.len() > 0,
        message matches Ok(message) ==> table::array_model(message) == message_of(columns@),
{
    proof {
        assert forall|i: int| 0 <= i < columns.arrays@.len() implies !table::has_null(
            #[trigger] columns.arrays@[i],
        ) && table::array_model(columns.arrays@[i]).len == 1 by {
            assert(table::array_model(columns.arrays@[i]).nulls == seq![false]);
        }
    }
    let message = table::struct_of(&columns.names, &columns.arrays);
    proof {
        if columns.arrays@.len() > 0 {
            assert(table::array_model(columns.arrays@[0]).len == 1);
            assert(table::columns_fit(columns.arrays@));
        }
        assert(columns@ =~= Seq::new(
            columns.arrays@.len(),
            |i: int| StructColumn {
                name: columns.names@[i]@,
                array: table::array_model(columns.arrays@[i]),
            },
        ));
    }
    message
}

/// What a camera message says beside its detections.
#[derive(Clone, Copy, Debug, PartialEq, Eq, Structural)]
pub struct CameraArrayMeta {
    pub timestamp: i64,
    pub stage_ns: u64,
    pub inference_ns: u64,
    pub width: u32,
    pub height: u32,
    pub checksum: u32,
    pub started_unix_ns: u64,
    pub sent_unix_ns: u64,
}

/// A camera message: the detections and the ground truth are encoded.
#[derive(Debug)]
pub struct CameraMessage {
    pub meta: CameraArrayMeta,
    pub predictions: Vec<u8>,
    pub truth: Vec<u8>,
}

/// The columns of a camera message.
pub open spec fn camera_columns(meta: CameraArrayMeta, predictions: Seq<u8>, truth: Seq<u8>) -> Seq<
    StructColumn,
> {
    seq![
        i64_column("timestamp"@, meta.timestamp),
        binary_column("predictions"@, predictions),
        binary_column("truth"@, truth),
        u64_column("stage_ns"@, meta.stage_ns),
        u64_column("inference_ns"@, meta.inference_ns),
        u32_column("width"@, meta.width),
        u32_column("height"@, meta.height),
        u32_column("checksum"@, meta.checksum),
        u64_column("started_unix_ns"@, meta.started_unix_ns),
        u64_column("sent_unix_ns"@, meta.sent_unix_ns),
    ]
}

/// A camera message for detections and ground truth that are encoded.
pub fn camera_array(
    predictions: &Vec<u8>,
    truth: &Vec<u8>,
    meta: CameraArrayMeta,
) -> (message: Result<Column, ArrowError>)
    requires
        predictions@.len() <= i32::MAX,
        truth@.len() <= i32::MAX,
    ensures
        message matches Ok(message) && table::array_model(message) == message_of(
            camera_columns(meta, predictions@, truth@),
        ),
{
    let mut columns = MessageColumns::new();
    columns.push_i64("timestamp", meta.timestamp);
    columns.push_binary("predictions", predictions);
    columns.push_binary("truth", truth);
    columns.push_u64("stage_ns", meta.stage_ns);
    columns.push_u64("inference_ns", meta.inference_ns);
    columns.push_u32("width", meta.width);
    columns.push_u32("height", meta.height);
    columns.push_u32("checksum", meta.checksum);
    columns.push_u64("started_unix_ns", meta.started_unix_ns);
    columns.push_u64("sent_unix_ns", meta.sent_unix_ns);
    assert(columns@ =~= camera_columns(meta, predictions@, truth@));
    struct_array(&columns)
}

/// What a camera message holds, or what it lacks.
pub open spec fn camera_message(message: ArrayModel) -> Result<
    (CameraArrayMeta, Seq<u8>, Seq<u8>),
    WireFault,
> {
    let timestamp = i64_of(message, "timestamp"@);
    let predictions = binary_of(message, "predictions"@);
    let truth = binary_of(message, "truth"@);
    let stage_ns = u64_of(message, "stage_ns"@);
    let inference_ns = u64_of(message, "inference_ns"@);
    let width = u32_of(message, "width"@);
    let height = u32_of(message, "height"@);
    let checksum = u32_of(message, "checksum"@);
    let started_unix_ns = u64_of(message, "started_unix_ns"@);
    let sent_unix_ns = u64_of(message, "sent_unix_ns"@);
    if timestamp is Err {
        Err(timestamp->Err_0)
    } else if predictions is Err {
        Err(predictions->Err_0)
    } else if truth is Err {
        Err(truth->Err_0)
    } else if stage_ns is Err {
        Err(stage_ns->Err_0)
    } else if inference_ns is Err {
        Err(inference_ns->Err_0)
    } else if width is Err {
        Err(width->Err_0)
    } else if height is Err {
        Err(height->Err_0)
    } else if checksum is Err {
        Err(checksum->Err_0)
    } else if started_unix_ns is Err {
        Err(started_unix_ns->Err_0)
    } else if sent_unix_ns is Err {
        Err(sent_unix_ns->Err_0)
    } else {
        Ok(
            (
                CameraArrayMeta {
                    timestamp: timestamp->Ok_0,
                    stage_ns: stage_ns->Ok_0,
                    inference_ns: inference_ns->Ok_0,
                    width: width->Ok_0,
                    height: height->Ok_0,
                    checksum: checksum->Ok_0,
                    started_unix_ns: started_unix_ns->Ok_0,
                    sent_unix_ns: sent_unix_ns->Ok_0,
                },
                predictions->Ok_0,
                truth->Ok_0,
            ),
        )
    }
}

/// Reads a camera message.
pub fn parse_camera(message: &Column) -> (camera: Result<CameraMessage, WireError>)
    requires
        i64_of(table::array_model(*message), "timestamp"@) is Ok ==> table::array_model(
            *message,
        ).len > 0,
    ensures
        match (camera, camera_message(table::array_model(*message))) {
            (Ok(camera), Ok((meta, predictions, truth))) => camera.meta == meta
                && camera.predictions@ == predictions && camera.truth@ == truth,
            (Err(error), Err(fault)) => error@ == fault,
            _ => false,
        },
{
    let timestamp: i64 = match i64_col(message, "timestamp") {
        Ok(value) => value,
        Err(error) => return Err(error),
    };
    let predictions: Vec<u8> = match binary_col(message, "predictions") {
        Ok(value) => value,
        Err(error) => return Err(error),
    };
    let truth: Vec<u8> = match binary_col(message, "truth") {
        Ok(value) => value,
        Err(error) => return Err(error),
    };
    let stage_ns: u64 = match u64_col(message, "stage_ns") {
        Ok(value) => value,
        Err(error) => return Err(error),
    };
    let inference_ns: u64 = match u64_col(message, "inference_ns") {
        Ok(value) => value,
        Err(error) => return Err(error),
    };
    let width: u32 = match u32_col(message, "width") {
        Ok(value) => value,
        Err(error) => return Err(error),
    };
    let height: u32 = match u32_col(message, "height") {
        Ok(value) => value,
        Err(error) => return Err(error),
    };
    let checksum: u32 = match u32_col(message, "checksum") {
        Ok(value) => value,
        Err(error) => return Err(error),
    };
    let started_unix_ns: u64 = match u64_col(message, "started_unix_ns") {
        Ok(value) => value,
        Err(error) => return Err(error),
    };
    let sent_unix_ns: u64 = match u64_col(message, "sent_unix_ns") {
        Ok(value) => value,
        Err(error) => return Err(error),
    };
    Ok(
        CameraMessage {
            meta: CameraArrayMeta {
                timestamp,
                stage_ns,
                inference_ns,
                width,
                height,
                checksum,
                started_unix_ns,
                sent_unix_ns,
            },
            predictions,
            truth,
        },
    )
}

/// A camera message arrives as it was sent.
pub proof fn law_camera_messages_arrive(meta: CameraArrayMeta, predictions: Seq<u8>, truth: Seq<u8>)
    ensures
        camera_message(message_of(camera_columns(meta, predictions, truth))) == Ok::<
            (CameraArrayMeta, Seq<u8>, Seq<u8>),
            WireFault,
        >((meta, predictions, truth)),
{
    reveal_strlit("timestamp");
    reveal_strlit("predictions");
    reveal_strlit("truth");
    reveal_strlit("stage_ns");
    reveal_strlit("inference_ns");
    reveal_strlit("width");
    reveal_strlit("height");
    reveal_strlit("checksum");
    reveal_strlit("started_unix_ns");
    reveal_strlit("sent_unix_ns");
    let columns = camera_columns(meta, predictions, truth);
    assert forall|i: int, j: int| 0 <= i < j < columns.len() implies (#[trigger] columns[i]).name
        != (#[trigger] columns[j]).name by {
        assert(columns[i].name.len() != columns[j].name.len() || columns[i].name[0]
            != columns[j].name[0] || columns[i].name[1] != columns[j].name[1]);
    }
    assert forall|i: int| 0 <= i < columns.len() implies named_from(
        columns,
        (#[trigger] columns[i]).name,
        0,
    ) == Some(columns[i].array) by {
        lemma_named(columns, columns[i].name, 0, i);
    }
    assert(columns[0].name == "timestamp"@);
    assert(columns[1].name == "predictions"@);
    assert(columns[2].name == "truth"@);
    assert(columns[3].name == "stage_ns"@);
    assert(columns[4].name == "inference_ns"@);
    assert(columns[5].name == "width"@);
    assert(columns[6].name == "height"@);
    assert(columns[7].name == "checksum"@);
    assert(columns[8].name == "started_unix_ns"@);
    assert(columns[9].name == "sent_unix_ns"@);
}

/// The lists of a LiDAR message, one number in each for a point.
pub struct PointLists {
    pub x: Seq<u32>,
    pub y: Seq<u32>,
    pub z: Seq<u32>,
    pub range: Seq<u32>,
    pub intensity: Seq<u32>,
    pub elongation: Seq<u32>,
    pub camera: Seq<i8>,
    pub u: Seq<u32>,
    pub v: Seq<u32>,
}

impl PointLists {
    /// No list is shorter than the first.
    pub open spec fn reach(self) -> bool {
        let count = self.x.len();
        &&& count <= self.y.len()
        &&& count <= self.z.len()
        &&& count <= self.range.len()
        &&& count <= self.intensity.len()
        &&& count <= self.elongation.len()
        &&& count <= self.camera.len()
        &&& count <= self.u.len()
        &&& count <= self.v.len()
    }

    /// The points, as many as the first list is long.
    pub open spec fn points(self) -> Seq<Point> {
        Seq::new(
            self.x.len(),
            |i: int| Point {
                x: self.x[i],
                y: self.y[i],
                z: self.z[i],
                range: self.range[i],
                intensity: self.intensity[i],
                elongation: self.elongation[i],
                camera: self.camera[i],
                u: self.u[i],
                v: self.v[i],
            },
        )
    }
}

/// The lists that hold these points.
pub open spec fn lists_of(points: Seq<Point>) -> PointLists {
    PointLists {
        x: points.map_values(|p: Point| p.x),
        y: points.map_values(|p: Point| p.y),
        z: points.map_values(|p: Point| p.z),
        range: points.map_values(|p: Point| p.range),
        intensity: points.map_values(|p: Point| p.intensity),
        elongation: points.map_values(|p: Point| p.elongation),
        camera: points.map_values(|p: Point| p.camera),
        u: points.map_values(|p: Point| p.u),
        v: points.map_values(|p: Point| p.v),
    }
}

/// What a LiDAR message says beside its points.
#[derive(Clone, Copy, Debug, PartialEq, Eq, Structural)]
pub struct LidarArrayMeta {
    pub timestamp: i64,
    pub stage_ns: u64,
    pub started_unix_ns: u64,
    pub sent_unix_ns: u64,
}

/// A LiDAR message.
#[derive(Debug)]
pub struct LidarMessage {
    pub meta: LidarArrayMeta,
    pub points: Vec<Point>,
}

/// The columns of a LiDAR message.
pub open spec fn lidar_columns(meta: LidarArrayMeta, points: Seq<Point>) -> Seq<StructColumn> {
    let lists = lists_of(points);
    seq![
        i64_column("timestamp"@, meta.timestamp),
        f32_list_column("x"@, lists.x),
        f32_list_column("y"@, lists.y),
        f32_list_column("z"@, lists.z),
        f32_list_column("range"@, lists.range),
        f32_list_column("intensity"@, lists.intensity),
        f32_list_column("elongation"@, lists.elongation),
        i8_list_column("camera"@, lists.camera),
        f32_list_column("u"@, lists.u),
        f32_list_column("v"@, lists.v),
        u64_column("stage_ns"@, meta.stage_ns),
        u64_column("started_unix_ns"@, meta.started_unix_ns),
        u64_column("sent_unix_ns"@, meta.sent_unix_ns),
    ]
}

/// A LiDAR message for points.
pub fn lidar_array(points: &[Point], meta: LidarArrayMeta) -> (message: Result<
    Column,
    ArrowError,
>)
    requires
        points@.len() <= i32::MAX,
    ensures
        message matches Ok(message) && table::array_model(message) == message_of(
            lidar_columns(meta, points@),
        ),
{
    let mut x: Vec<u32> = Vec::new();
    let mut y: Vec<u32> = Vec::new();
    let mut z: Vec<u32> = Vec::new();
    let mut range: Vec<u32> = Vec::new();
    let mut intensity: Vec<u32> = Vec::new();
    let mut elongation: Vec<u32> = Vec::new();
    let mut camera: Vec<i8> = Vec::new();
    let mut u: Vec<u32> = Vec::new();
    let mut v: Vec<u32> = Vec::new();
    let mut i: usize = 0;
    while i < points.len()
        invariant
            i <= points.len(),
            x@ == lists_of(points@.take(i as int)).x,
            y@ == lists_of(points@.take(i as int)).y,
            z@ == lists_of(points@.take(i as int)).z,
            range@ == lists_of(points@.take(i as int)).range,
            intensity@ == lists_of(points@.take(i as int)).intensity,
            elongation@ == lists_of(points@.take(i as int)).elongation,
            camera@ == lists_of(points@.take(i as int)).camera,
            u@ == lists_of(points@.take(i as int)).u,
            v@ == lists_of(points@.take(i as int)).v,
        decreases points.len() - i,
    {
        let point = &points[i];
        x.push(point.x);
        y.push(point.y);
        z.push(point.z);
        range.push(point.range);
        intensity.push(point.intensity);
        elongation.push(point.elongation);
        camera.push(point.camera);
        u.push(point.u);
        v.push(point.v);
        i = i + 1;
    }
    assert(points@.take(i as int) =~= points@);
    let mut columns = MessageColumns::new();
    columns.push_i64("timestamp", meta.timestamp);
    columns.push_f32_list("x", x);
    columns.push_f32_list("y", y);
    columns.push_f32_list("z", z);
    columns.push_f32_list("range", range);
    columns.push_f32_list("intensity", intensity);
    columns.push_f32_list("elongation", elongation);
    columns.push_i8_list("camera", camera);
    columns.push_f32_list("u", u);
    columns.push_f32_list("v", v);
    columns.push_u64("stage_ns", meta.stage_ns);
    columns.push_u64("started_unix_ns", meta.started_unix_ns);
    columns.push_u64("sent_unix_ns", meta.sent_unix_ns);
    assert(columns@ =~= lidar_columns(meta, points@));
    struct_array(&columns)
}

/// The lists of a LiDAR message, or what it lacks.
pub open spec fn point_lists(message: ArrayModel) -> Result<PointLists, WireFault> {
    let x = f32_list_of(message, "x"@);
    let y = f32_list_of(message, "y"@);
    let z = f32_list_of(message, "z"@);
    let range = f32_list_of(message, "range"@);
    let intensity = f32_list_of(message, "intensity"@);
    let elongation = f32_list_of(message, "elongation"@);
    let camera = i8_list_of(message, "camera"@);
    let u = f32_list_of(message, "u"@);
    let v = f32_list_of(message, "v"@);
    if x is Err {
        Err(x->Err_0)
    } else if y is Err {
        Err(y->Err_0)
    } else if z is Err {
        Err(z->Err_0)
    } else if range is Err {
        Err(range->Err_0)
    } else if intensity is Err {
        Err(intensity->Err_0)
    } else if elongation is Err {
        Err(elongation->Err_0)
    } else if camera is Err {
        Err(camera->Err_0)
    } else if u is Err {
        Err(u->Err_0)
    } else if v is Err {
        Err(v->Err_0)
    } else {
        Ok(
            PointLists {
                x: x->Ok_0,
                y: y->Ok_0,
                z: z->Ok_0,
                range: range->Ok_0,
                intensity: intensity->Ok_0,
                elongation: elongation->Ok_0,
                camera: camera->Ok_0,
                u: u->Ok_0,
                v: v->Ok_0,
            },
        )
    }
}

/// What a LiDAR message holds, or what it lacks.
pub open spec fn lidar_message(message: ArrayModel) -> Result<
    (LidarArrayMeta, Seq<Point>),
    WireFault,
> {
    let lists = point_lists(message);
    let timestamp = i64_of(message, "timestamp"@);
    let stage_ns = u64_of(message, "stage_ns"@);
    let started_unix_ns = u64_of(message, "started_unix_ns"@);
    let sent_unix_ns = u64_of(message, "sent_unix_ns"@);
    if lists is Err {
        Err(lists->Err_0)
    } else if timestamp is Err {
        Err(timestamp->Err_0)
    } else if stage_ns is Err {
        Err(stage_ns->Err_0)
    } else if started_unix_ns is Err {
        Err(started_unix_ns->Err_0)
    } else if sent_unix_ns is Err {
        Err(sent_unix_ns->Err_0)
    } else {
        Ok(
            (
                LidarArrayMeta {
                    timestamp: timestamp->Ok_0,
                    stage_ns: stage_ns->Ok_0,
                    started_unix_ns: started_unix_ns->Ok_0,
                    sent_unix_ns: sent_unix_ns->Ok_0,
                },
                lists->Ok_0.points(),
            ),
        )
    }
}

/// The lists of a LiDAR message, as they are read.
struct PointColumns {
    x: Vec<u32>,
    y: Vec<u32>,
    z: Vec<u32>,
    range: Vec<u32>,
    intensity: Vec<u32>,
    elongation: Vec<u32>,
    camera: Vec<i8>,
    u: Vec<u32>,
    v: Vec<u32>,
}

impl View for PointColumns {
    type V = PointLists;

    closed spec fn view(&self) -> PointLists {
        PointLists {
            x: self.x@,
            y: self.y@,
            z: self.z@,
            range: self.range@,
            intensity: self.intensity@,
            elongation: self.elongation@,
            camera: self.camera@,
            u: self.u@,
            v: self.v@,
        }
    }
}

impl PointColumns {
    fn read(message: &Column) -> (columns: Result<PointColumns, WireError>)
        requires
            is_list_column(table::array_model(*message), "x"@) ==> table::array_model(
                *message,
            ).len > 0,
        ensures
            match (columns, point_lists(table::array_model(*message))) {
                (Ok(columns), Ok(lists)) => columns@ == lists,
                (Err(error), Err(fault)) => error@ == fault,
                _ => false,
            },
            columns is Ok ==> table::array_model(*message).len > 0,
    {
        let x: Vec<u32> = match list_col(message, "x") {
            Ok(values) => values,
            Err(error) => return Err(error),
        };
        let y: Vec<u32> = match list_col(message, "y") {
            Ok(values) => values,
            Err(error) => return Err(error),
        };
        let z: Vec<u32> = match list_col(message, "z") {
            Ok(values) => values,
            Err(error) => return Err(error),
        };
        let range: Vec<u32> = match list_col(message, "range") {
            Ok(values) => values,
            Err(error) => return Err(error),
        };
        let intensity: Vec<u32> = match list_col(message, "intensity") {
            Ok(values) => values,
            Err(error) => return Err(error),
        };
        let elongation: Vec<u32> = match list_col(message, "elongation") {
            Ok(values) => values,
            Err(error) => return Err(error),
        };
        let camera: Vec<i8> = match i8_list_col(message, "camera") {
            Ok(values) => values,
            Err(error) => return Err(error),
        };
        let u: Vec<u32> = match list_col(message, "u") {
            Ok(values) => values,
            Err(error) => return Err(error),
        };
        let v: Vec<u32> = match list_col(message, "v") {
            Ok(values) => values,
            Err(error) => return Err(error),
        };
        Ok(PointColumns { x, y, z, range, intensity, elongation, camera, u, v })
    }

    fn do_reach(&self) -> (reach: bool)
        ensures
            reach == self@.reach(),
    {
        let count: usize = self.x.len();
        count <= self.y.len() && count <= self.z.len() && count <= self.range.len() && count
            <= self.intensity.len() && count <= self.elongation.len() && count
            <= self.camera.len() && count <= self.u.len() && count <= self.v.len()
    }

    fn points(&self) -> (points: Vec<Point>)
        requires
            self@.reach(),
        ensures
            points@ == self@.points(),
    {
        let mut points: Vec<Point> = Vec::new();
        let mut i: usize = 0;
        while i < self.x.len()
            invariant
                i <= self.x.len(),
                self@.reach(),
                points@ == self@.points().take(i as int),
            decreases self.x.len() - i,
        {
            points.push(
                Point {
                    x: self.x[i],
                    y: self.y[i],
                    z: self.z[i],
                    range: self.range[i],
                    intensity: self.intensity[i],
                    elongation: self.elongation[i],
                    camera: self.camera[i],
                    u: self.u[i],
                    v: self.v[i],
                },
            );
            i = i + 1;
            assert(points@ =~= self@.points().take(i as int));
        }
        assert(self@.points().take(i as int) =~= self@.points());
        points
    }
}

/// Whether a message has a row to read: a struct without one would be read beyond
/// its end, and another array is refused as it is.
pub fn has_row(message: &Column) -> (has: bool)
    ensures
        has == (table::array_model(*message).values is Struct ==> table::array_model(*message).len
            > 0),
{
    !table::is_struct(message) || table::array_len(message) > 0
}

/// Whether a LiDAR message can be read: where it has all its lists, none is
/// shorter than the first.
pub fn can_parse_lidar(message: &Column) -> (can: bool)
    requires
        is_list_column(table::array_model(*message), "x"@) ==> table::array_model(*message).len
            > 0,
    ensures
        can == (point_lists(table::array_model(*message)) matches Ok(lists) ==> lists.reach()),
{
    match PointColumns::read(message) {
        Ok(columns) => columns.do_reach(),
        Err(_) => true,
    }
}

/// Reads a LiDAR message.
pub fn parse_lidar(message: &Column) -> (lidar: Result<LidarMessage, WireError>)
    requires
        is_list_column(table::array_model(*message), "x"@) ==> table::array_model(*message).len
            > 0,
        point_lists(table::array_model(*message)) matches Ok(lists) ==> lists.reach(),
    ensures
        match (lidar, lidar_message(table::array_model(*message))) {
            (Ok(lidar), Ok((meta, points))) => lidar.meta == meta && lidar.points@ == points,
            (Err(error), Err(fault)) => error@ == fault,
            _ => false,
        },
{
    let columns: PointColumns = match PointColumns::read(message) {
        Ok(columns) => columns,
        Err(error) => return Err(error),
    };
    let points: Vec<Point> = columns.points();
    let timestamp: i64 = match i64_col(message, "timestamp") {
        Ok(value) => value,
        Err(error) => return Err(error),
    };
    let stage_ns: u64 = match u64_col(message, "stage_ns") {
        Ok(value) => value,
        Err(error) => return Err(error),
    };
    let started_unix_ns: u64 = match u64_col(message, "started_unix_ns") {
        Ok(value) => value,
        Err(error) => return Err(error),
    };
    let sent_unix_ns: u64 = match u64_col(message, "sent_unix_ns") {
        Ok(value) => value,
        Err(error) => return Err(error),
    };
    Ok(
        LidarMessage {
            meta: LidarArrayMeta { timestamp, stage_ns, started_unix_ns, sent_unix_ns },
            points,
        },
    )
}

/// A LiDAR message arrives as it was sent.
pub proof fn law_lidar_messages_arrive(meta: LidarArrayMeta, points: Seq<Point>)
    ensures
        point_lists(message_of(lidar_columns(meta, points))) == Ok::<PointLists, WireFault>(
            lists_of(points),
        ),
        lists_of(points).reach(),
        lidar_message(message_of(lidar_columns(meta, points))) == Ok::<
            (LidarArrayMeta, Seq<Point>),
            WireFault,
        >((meta, points)),
{
    reveal_strlit("timestamp");
    reveal_strlit("x");
    reveal_strlit("y");
    reveal_strlit("z");
    reveal_strlit("range");
    reveal_strlit("intensity");
    reveal_strlit("elongation");
    reveal_strlit("camera");
    reveal_strlit("u");
    reveal_strlit("v");
    reveal_strlit("stage_ns");
    reveal_strlit("started_unix_ns");
    reveal_strlit("sent_unix_ns");
    let columns = lidar_columns(meta, points);
    assert forall|i: int, j: int| 0 <= i < j < columns.len() implies (#[trigger] columns[i]).name
        != (#[trigger] columns[j]).name by {
        assert(columns[i].name.len() != columns[j].name.len() || columns[i].name[0]
            != columns[j].name[0]);
    }
    assert forall|i: int| 0 <= i < columns.len() implies named_from(
        columns,
        (#[trigger] columns[i]).name,
        0,
    ) == Some(columns[i].array) by {
        lemma_named(columns, columns[i].name, 0, i);
    }
    assert(columns[0].name == "timestamp"@);
    assert(columns[1].name == "x"@);
    assert(columns[2].name == "y"@);
    assert(columns[3].name == "z"@);
    assert(columns[4].name == "range"@);
    assert(columns[5].name == "intensity"@);
    assert(columns[6].name == "elongation"@);
    assert(columns[7].name == "camera"@);
    assert(columns[8].name == "u"@);
    assert(columns[9].name == "v"@);
    assert(columns[10].name == "stage_ns"@);
    assert(columns[11].name == "started_unix_ns"@);
    assert(columns[12].name == "sent_unix_ns"@);
    assert(lists_of(points).points() =~= points);
}

/// The time from one instant to another by the wall clock, none where the other
/// comes first.
pub open spec fn wall_span(from: u64, to: u64) -> u64 {
    if to > from {
        (to - from) as u64
    } else {
        0
    }
}

/// How long a message waited before it arrived at `received`, and how old it was
/// when it was done with at `finished`.
pub fn arrival_times(sent: u64, started: u64, received: u64, finished: u64) -> (times: (u64, u64))
    ensures
        times == (wall_span(sent, received), wall_span(started, finished)),
{
    (received.saturating_sub(sent), finished.saturating_sub(started))
}

/// The times of a pair of messages that arrived at `received` and was done with
/// at `finished`, after it was fused for `fusion_ns`.
pub fn pair_times(
    camera: CameraArrayMeta,
    lidar: LidarArrayMeta,
    received: u64,
    finished: u64,
    fusion_ns: u64,
) -> (times: FrameTimes)
    ensures
        times == (FrameTimes {
            camera_queue_wait_ns: wall_span(camera.sent_unix_ns, received),
            lidar_queue_wait_ns: wall_span(lidar.sent_unix_ns, received),
            fusion_ns,
            end_to_end_ns: wall_span(
                if camera.started_unix_ns < lidar.started_unix_ns {
                    camera.started_unix_ns
                } else {
                    lidar.started_unix_ns
                },
                finished,
            ),
        }),
{
    let started: u64 = if camera.started_unix_ns < lidar.started_unix_ns {
        camera.started_unix_ns
    } else {
        lidar.started_unix_ns
    };
    FrameTimes {
        camera_queue_wait_ns: received.saturating_sub(camera.sent_unix_ns),
        lidar_queue_wait_ns: received.saturating_sub(lidar.sent_unix_ns),
        fusion_ns,
        end_to_end_ns: finished.saturating_sub(started),
    }
}

/// A detection travels with its name, its type, its score, its corner and its size,
/// each under its own name, and arrives with what traveled.
pub proof fn law_detections_travel_field_by_field(
    wire: WireDetection,
    sent: Detection,
    arrived: Detection,
)
    requires
        is_wire_of(wire, sent),
        is_detection_of(arrived, wire),
    ensures
        wire.id@ == sent.id@ && arrived.id@ == wire.id@,
        wire.kind@ == sent.kind@,
        wire.score == sent.score && arrived.score == wire.score,
        wire.x == sent.x && arrived.x == wire.x,
        wire.y == sent.y && arrived.y == wire.y,
        wire.width == sent.width && arrived.width == wire.width,
        wire.height == sent.height && arrived.height == wire.height,
        arrived.depth_m is None && arrived.depth_points == 0,
{
}

/// The types that arrive are those that the dataset names; a type of any other name
/// arrives as unknown.
pub proof fn law_types_arrive_by_name(kind: Seq<char>)
    ensures
        kind == "vehicle"@ || kind == "pedestrian"@ || kind == "sign"@ || kind == "cyclist"@
            ==> known_kind(kind) == kind,
        kind != "vehicle"@ && kind != "pedestrian"@ && kind != "sign"@ && kind != "cyclist"@
            ==> known_kind(kind) == "unknown"@,
{
}

/// What a camera message is sent with stands under its name.
pub proof fn law_camera_messages_name_their_parts(
    meta: CameraArrayMeta,
    predictions: Seq<u8>,
    truth: Seq<u8>,
)
    ensures
        ({
            let message = message_of(camera_columns(meta, predictions, truth));
            &&& i64_of(message, "timestamp"@) == Ok::<i64, WireFault>(meta.timestamp)
            &&& binary_of(message, "predictions"@) == Ok::<Seq<u8>, WireFault>(predictions)
            &&& binary_of(message, "truth"@) == Ok::<Seq<u8>, WireFault>(truth)
            &&& u64_of(message, "stage_ns"@) == Ok::<u64, WireFault>(meta.stage_ns)
            &&& u64_of(message, "inference_ns"@) == Ok::<u64, WireFault>(meta.inference_ns)
            &&& u32_of(message, "width"@) == Ok::<u32, WireFault>(meta.width)
            &&& u32_of(message, "height"@) == Ok::<u32, WireFault>(meta.height)
            &&& u32_of(message, "checksum"@) == Ok::<u32, WireFault>(meta.checksum)
            &&& u64_of(message, "started_unix_ns"@) == Ok::<u64, WireFault>(meta.started_unix_ns)
            &&& u64_of(message, "sent_unix_ns"@) == Ok::<u64, WireFault>(meta.sent_unix_ns)
        }),
{
    law_camera_messages_arrive(meta, predictions, truth);
}

/// What a LiDAR message is sent with stands under its name: a list for each
/// coordinate and each measured number, one entry for each point.
pub proof fn law_lidar_messages_name_their_parts(meta: LidarArrayMeta, points: Seq<Point>)
    ensures
        ({
            let message = message_of(lidar_columns(meta, points));
            let count = points.len();
            &&& i64_of(message, "timestamp"@) == Ok::<i64, WireFault>(meta.timestamp)
            &&& u64_of(message, "stage_ns"@) == Ok::<u64, WireFault>(meta.stage_ns)
            &&& u64_of(message, "started_unix_ns"@) == Ok::<u64, WireFault>(meta.started_unix_ns)
            &&& u64_of(message, "sent_unix_ns"@) == Ok::<u64, WireFault>(meta.sent_unix_ns)
            &&& f32_list_of(message, "x"@) == Ok::<Seq<u32>, WireFault>(
                Seq::new(count, |i: int| points[i].x),
            )
            &&& f32_list_of(message, "y"@) == Ok::<Seq<u32>, WireFault>(
                Seq::new(count, |i: int| points[i].y),
            )
            &&& f32_list_of(message, "z"@) == Ok::<Seq<u32>, WireFault>(
                Seq::new(count, |i: int| points[i].z),
            )
            &&& f32_list_of(message, "range"@) == Ok::<Seq<u32>, WireFault>(
                Seq::new(count, |i: int| points[i].range),
            )
            &&& f32_list_of(message, "intensity"@) == Ok::<Seq<u32>, WireFault>(
                Seq::new(count, |i: int| points[i].intensity),
            )
            &&& f32_list_of(message, "elongation"@) == Ok::<Seq<u32>, WireFault>(
                Seq::new(count, |i: int| points[i].elongation),
            )
            &&& i8_list_of(message, "camera"@) == Ok::<Seq<i8>, WireFault>(
                Seq::new(count, |i: int| points[i].camera),
            )
            &&& f32_list_of(message, "u"@) == Ok::<Seq<u32>, WireFault>(
                Seq::new(count, |i: int| points[i].u),
            )
            &&& f32_list_of(message, "v"@) == Ok::<Seq<u32>, WireFault>(
                Seq::new(count, |i: int| points[i].v),
            )
        }),
{
    law_lidar_messages_arrive(meta, points);
    let lists = lists_of(points);
    let count = points.len();
    assert(lists.x =~= Seq::new(count, |i: int| points[i].x));
    assert(lists.y =~= Seq::new(count, |i: int| points[i].y));
    assert(lists.z =~= Seq::new(count, |i: int| points[i].z));
    assert(lists.range =~= Seq::new(count, |i: int| points[i].range));
    assert(lists.intensity =~= Seq::new(count, |i: int| points[i].intensity));
    assert(lists.elongation =~= Seq::new(count, |i: int| points[i].elongation));
    assert(lists.camera =~= Seq::new(count, |i: int| points[i].camera));
    assert(lists.u =~= Seq::new(count, |i: int| points[i].u));
    assert(lists.v =~= Seq::new(count, |i: int| points[i].v));
}

/// What is read of a message comes from the columns of those names, and of a LiDAR
/// message the numbers at one place make one point.
pub proof fn law_messages_are_read_by_name(message: ArrayModel, i: int)
    ensures
        camera_message(message) matches Ok((meta, predictions, truth)) ==> {
            &&& i64_of(message, "timestamp"@) == Ok::<i64, WireFault>(meta.timestamp)
            &&& binary_of(message, "predictions"@) == Ok::<Seq<u8>, WireFault>(predictions)
            &&& binary_of(message, "truth"@) == Ok::<Seq<u8>, WireFault>(truth)
            &&& u64_of(message, "stage_ns"@) == Ok::<u64, WireFault>(meta.stage_ns)
            &&& u64_of(message, "inference_ns"@) == Ok::<u64, WireFault>(meta.inference_ns)
            &&& u32_of(message, "width"@) == Ok::<u32, WireFault>(meta.width)
            &&& u32_of(message, "height"@) == Ok::<u32, WireFault>(meta.height)
            &&& u32_of(message, "checksum"@) == Ok::<u32, WireFault>(meta.checksum)
            &&& u64_of(message, "started_unix_ns"@) == Ok::<u64, WireFault>(meta.started_unix_ns)
            &&& u64_of(message, "sent_unix_ns"@) == Ok::<u64, WireFault>(meta.sent_unix_ns)
        },
        lidar_message(message) matches Ok((meta, points)) ==> {
            &&& i64_of(message, "timestamp"@) == Ok::<i64, WireFault>(meta.timestamp)
            &&& u64_of(message, "stage_ns"@) == Ok::<u64, WireFault>(meta.stage_ns)
            &&& u64_of(message, "started_unix_ns"@) == Ok::<u64, WireFault>(meta.started_unix_ns)
            &&& u64_of(message, "sent_unix_ns"@) == Ok::<u64, WireFault>(meta.sent_unix_ns)
            &&& f32_list_of(message, "x"@) matches Ok(values) && values.len() == points.len()
            &&& 0 <= i < points.len() ==> {
                &&& f32_list_of(message, "x"@)->Ok_0[i] == points[i].x
                &&& f32_list_of(message, "y"@)->Ok_0[i] == points[i].y
                &&& f32_list_of(message, "z"@)->Ok_0[i] == points[i].z
                &&& f32_list_of(message, "range"@)->Ok_0[i] == points[i].range
                &&& f32_list_of(message, "intensity"@)->Ok_0[i] == points[i].intensity
                &&& f32_list_of(message, "elongation"@)->Ok_0[i] == points[i].elongation
                &&& i8_list_of(message, "camera"@)->Ok_0[i] == points[i].camera
                &&& f32_list_of(message, "u"@)->Ok_0[i] == points[i].u
                &&& f32_list_of(message, "v"@)->Ok_0[i] == points[i].v
            }
        },
{
}

/// A span by the wall clock leads from the earlier instant to the later one, and
/// there is none backwards.
pub proof fn law_wall_spans_lead_to_the_later_instant(from: u64, to: u64)
    ensures
        from <= to ==> from + wall_span(from, to) == to,
        to <= from ==> wall_span(from, to) == 0,
{
}

/// A value of a message is the first one in the first column of its name.
pub proof fn law_values_come_from_the_first_row(
    columns: Seq<StructColumn>,
    message: ArrayModel,
    name: Seq<char>,
    at: int,
)
    requires
        message.values == ArrayValues::Struct(columns),
        0 <= at < columns.len(),
        columns[at].name == name,
        forall|i: int| 0 <= i < at ==> (#[trigger] columns[i]).name != name,
    ensures
        match columns[at].array.values {
            ArrayValues::Int64(v) => i64_of(message, name) == Ok::<i64, WireFault>(v[0]),
            ArrayValues::UInt64(v) => u64_of(message, name) == Ok::<u64, WireFault>(v[0]),
            ArrayValues::UInt32(v) => u32_of(message, name) == Ok::<u32, WireFault>(v[0]),
            ArrayValues::Binary(v) => binary_of(message, name) == Ok::<Seq<u8>, WireFault>(v[0]),
            ArrayValues::List(ListValues::Float32(v)) => f32_list_of(message, name) == Ok::<
                Seq<u32>,
                WireFault,
            >(v[0]),
            ArrayValues::List(ListValues::Int8(v)) => i8_list_of(message, name) == Ok::<
                Seq<i8>,
                WireFault,
            >(v[0]),
            _ => true,
        },
{
    lemma_named(columns, name, 0, at);
}

/// The lists of a message can be read as points exactly where each has a number for
/// each number of the first.
pub proof fn law_lists_reach_as_far_as_the_first(lists: PointLists)
    ensures
        lists.reach() <==> {
            &&& lists.y.len() >= lists.x.len()
            &&& lists.z.len() >= lists.x.len()
            &&& lists.range.len() >= lists.x.len()
            &&& lists.intensity.len() >= lists.x.len()
            &&& lists.elongation.len() >= lists.x.len()
            &&& lists.camera.len() >= lists.x.len()
            &&& lists.u.len() >= lists.x.len()
            &&& lists.v.len() >= lists.x.len()
        },
        lists.points().len() == lists.x.len(),
{
}

} // verus!
