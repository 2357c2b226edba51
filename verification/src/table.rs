//! Arrow columns, as the library sees them.
//!
//! A column is an Arrow array of any type; a table is a schema with columns of one
//! length. What a column holds is named by `array_model`, what a schema says by
//! `schema_fields` and `schema_metadata`. The functions marked as external call
//! Arrow; everything else in the library is proved over those names.
use arrow::array::{
    Array, ArrayData, ArrayRef, BinaryArray, FixedSizeListArray, Float32Array, Float64Array,
    Int16Array, Int32Array, Int64Array, Int8Array, ListArray, StringArray, StructArray,
    UInt16Array, UInt32Array, UInt64Array, UInt8Array,
};
use arrow::buffer::{Buffer, NullBuffer, OffsetBuffer};
use arrow::datatypes::{Field, Schema};
use arrow::error::ArrowError;
use arrow::ipc::writer::StreamWriter;
use arrow::record_batch::RecordBatch;
use std::sync::Arc;
use vstd::prelude::*;

verus! {

/// An Arrow schema, opaque here.
#[verifier::external_type_specification]
#[verifier::external_body]
pub struct ExSchema(arrow::datatypes::Schema);

/// The buffers of an Arrow array, opaque here.
#[verifier::external_type_specification]
#[verifier::external_body]
pub struct ExArrayData(arrow::array::ArrayData);

/// An Arrow array of any type, opaque here. Any array may stand in it: what makes
/// an array sound, Arrow has seen to before there is one.
#[verifier::external_body]
#[derive(Debug)]
pub struct Column {
    pub array: ArrayRef,
}

/// What Arrow reports when it refuses.
#[verifier::external_type_specification]
#[verifier::external_body]
pub struct ExArrowError(arrow::error::ArrowError);

/// The lists of a list column, by the type of their values.
pub enum ListValues {
    Int8(Seq<Seq<i8>>),
    Int32(Seq<Seq<i32>>),
    /// Bit patterns.
    Float32(Seq<Seq<u32>>),
    /// Bit patterns.
    Float64(Seq<Seq<u64>>),
    /// Lists whose values the library does not read: how long they are.
    Other(Seq<nat>),
}

/// One column of a struct array.
pub struct StructColumn {
    pub name: Seq<char>,
    pub array: ArrayModel,
}

/// The value slots of an array, by its Arrow type. A slot holds a value also
/// where the array marks it null.
pub enum ArrayValues {
    Int8(Seq<i8>),
    Int16(Seq<i16>),
    Int32(Seq<i32>),
    Int64(Seq<i64>),
    UInt8(Seq<u8>),
    UInt16(Seq<u16>),
    UInt32(Seq<u32>),
    UInt64(Seq<u64>),
    /// Bit patterns.
    Float32(Seq<u32>),
    /// Bit patterns.
    Float64(Seq<u64>),
    Utf8(Seq<Seq<char>>),
    Binary(Seq<Seq<u8>>),
    List(ListValues),
    FixedSizeList(ListValues),
    Struct(Seq<StructColumn>),
    Other,
}

/// What an array holds.
pub struct ArrayModel {
    pub len: nat,
    /// Which slots are marked null.
    pub nulls: Seq<bool>,
    pub values: ArrayValues,
}

pub open spec fn lists_len_is(lists: ListValues, len: nat) -> bool {
    match lists {
        ListValues::Int8(v) => v.len() == len,
        ListValues::Int32(v) => v.len() == len,
        ListValues::Float32(v) => v.len() == len,
        ListValues::Float64(v) => v.len() == len,
        ListValues::Other(v) => v.len() == len,
    }
}

impl ArrayModel {
    /// There are `len` slots, each with a null mark and, where the library reads
    /// the type, a value.
    pub open spec fn has_len(self, len: nat) -> bool {
        &&& self.len == len
        &&& self.nulls.len() == len
        &&& match self.values {
            ArrayValues::Int8(v) => v.len() == len,
            ArrayValues::Int16(v) => v.len() == len,
            ArrayValues::Int32(v) => v.len() == len,
            ArrayValues::Int64(v) => v.len() == len,
            ArrayValues::UInt8(v) => v.len() == len,
            ArrayValues::UInt16(v) => v.len() == len,
            ArrayValues::UInt32(v) => v.len() == len,
            ArrayValues::UInt64(v) => v.len() == len,
            ArrayValues::Float32(v) => v.len() == len,
            ArrayValues::Float64(v) => v.len() == len,
            ArrayValues::Utf8(v) => v.len() == len,
            ArrayValues::Binary(v) => v.len() == len,
            ArrayValues::List(lists) => lists_len_is(lists, len),
            ArrayValues::FixedSizeList(lists) => lists_len_is(lists, len),
            ArrayValues::Struct(_) => true,
            ArrayValues::Other => true,
        }
    }
}

/// One field of a schema.
pub struct FieldModel {
    pub name: Seq<char>,
    pub nullable: bool,
}

/// What an array holds.
pub uninterp spec fn array_model(data: Column) -> ArrayModel;

/// The fields of a schema, in order.
pub uninterp spec fn schema_fields(schema: Schema) -> Seq<FieldModel>;

/// The metadata of a schema.
pub uninterp spec fn schema_metadata(schema: Schema) -> Map<Seq<char>, Seq<char>>;

/// An array without nulls.
pub open spec fn plain_array(len: nat, values: ArrayValues) -> ArrayModel {
    ArrayModel { len, nulls: Seq::new(len, |i: int| false), values }
}

/// `Schema::fields` and `Field::name`: the names of the fields, in order.
#[verifier::external_body]
pub(crate) fn field_names(schema: &Schema) -> (names: Vec<String>)
    ensures
        names.len() == schema_fields(*schema).len(),
        forall|i: int| 0 <= i < names.len() ==> (#[trigger] names[i])@ == schema_fields(*schema)[i].name,
{
    schema.fields().iter().map(|field| field.name().to_owned()).collect()
}

/// `Array::len`: how many slots the array has, and so how many null marks
/// and values.
#[verifier::external_body]
pub(crate) fn array_len(data: &Column) -> (len: usize)
    ensures
        array_model(*data).has_len(len as nat),
{
    data.array.len()
}

/// `Array::is_null`: whether a slot is marked null. A slot beyond the array
/// would panic.
#[verifier::external_body]
pub(crate) fn array_is_null(data: &Column, row: usize) -> (null: bool)
    requires
        row < array_model(*data).len,
    ensures
        null == array_model(*data).nulls[row as int],
{
    data.array.is_null(row)
}

/// `Int8Array::values`: the slots of an array of type `Int8`, nothing for
/// another type.
#[verifier::external_body]
pub(crate) fn int8_values(data: &Column) -> (values: Option<Vec<i8>>)
    ensures
        match values {
            Some(v) => array_model(*data).values == ArrayValues::Int8(v@) && array_model(*data).len
                == v.len(),
            None => !(array_model(*data).values is Int8),
        },
{
    data.array.as_any().downcast_ref::<Int8Array>().map(|a| a.values().to_vec())
}

/// `Int16Array::values`: the slots of an array of type `Int16`, nothing for
/// another type.
#[verifier::external_body]
pub(crate) fn int16_values(data: &Column) -> (values: Option<Vec<i16>>)
    ensures
        match values {
            Some(v) => array_model(*data).values == ArrayValues::Int16(v@) && array_model(*data).len
                == v.len(),
            None => !(array_model(*data).values is Int16),
        },
{
    data.array.as_any().downcast_ref::<Int16Array>().map(|a| a.values().to_vec())
}

/// `Int32Array::values`: the slots of an array of type `Int32`, nothing for
/// another type.
#[verifier::external_body]
pub(crate) fn int32_values(data: &Column) -> (values: Option<Vec<i32>>)
    ensures
        match values {
            Some(v) => array_model(*data).values == ArrayValues::Int32(v@) && array_model(*data).len
                == v.len(),
            None => !(array_model(*data).values is Int32),
        },
{
    data.array.as_any().downcast_ref::<Int32Array>().map(|a| a.values().to_vec())
}

/// `Int64Array::values`: the slots of an array of type `Int64`, nothing for
/// another type.
#[verifier::external_body]
pub(crate) fn int64_values(data: &Column) -> (values: Option<Vec<i64>>)
    ensures
        match values {
            Some(v) => array_model(*data).values == ArrayValues::Int64(v@) && array_model(*data).len
                == v.len(),
            None => !(array_model(*data).values is Int64),
        },
{
    data.array.as_any().downcast_ref::<Int64Array>().map(|a| a.values().to_vec())
}

/// `UInt8Array::values`: the slots of an array of type `UInt8`, nothing for
/// another type.
#[verifier::external_body]
pub(crate) fn uint8_values(data: &Column) -> (values: Option<Vec<u8>>)
    ensures
        match values {
            Some(v) => array_model(*data).values == ArrayValues::UInt8(v@) && array_model(*data).len
                == v.len(),
            None => !(array_model(*data).values is UInt8),
        },
{
    data.array.as_any().downcast_ref::<UInt8Array>().map(|a| a.values().to_vec())
}

/// `UInt16Array::values`: the slots of an array of type `UInt16`, nothing for
/// another type.
#[verifier::external_body]
pub(crate) fn uint16_values(data: &Column) -> (values: Option<Vec<u16>>)
    ensures
        match values {
            Some(v) => array_model(*data).values == ArrayValues::UInt16(v@) && array_model(
                *data,
            ).len == v.len(),
            None => !(array_model(*data).values is UInt16),
        },
{
    data.array.as_any().downcast_ref::<UInt16Array>().map(|a| a.values().to_vec())
}

/// `UInt32Array::values`: the slots of an array of type `UInt32`, nothing for
/// another type.
#[verifier::external_body]
pub(crate) fn uint32_values(data: &Column) -> (values: Option<Vec<u32>>)
    ensures
        match values {
            Some(v) => array_model(*data).values == ArrayValues::UInt32(v@) && array_model(
                *data,
            ).len == v.len(),
            None => !(array_model(*data).values is UInt32),
        },
{
    data.array.as_any().downcast_ref::<UInt32Array>().map(|a| a.values().to_vec())
}

/// `UInt64Array::values`: the slots of an array of type `UInt64`, nothing for
/// another type.
#[verifier::external_body]
pub(crate) fn uint64_values(data: &Column) -> (values: Option<Vec<u64>>)
    ensures
        match values {
            Some(v) => array_model(*data).values == ArrayValues::UInt64(v@) && array_model(
                *data,
            ).len == v.len(),
            None => !(array_model(*data).values is UInt64),
        },
{
    data.array.as_any().downcast_ref::<UInt64Array>().map(|a| a.values().to_vec())
}

/// `Float64Array::values`: the bit patterns of an array of type `Float64`,
/// nothing for another type.
#[verifier::external_body]
pub(crate) fn float64_values(data: &Column) -> (values: Option<Vec<u64>>)
    ensures
        match values {
            Some(v) => array_model(*data).values == ArrayValues::Float64(v@) && array_model(
                *data,
            ).len == v.len(),
            None => !(array_model(*data).values is Float64),
        },
{
    data.array.as_any().downcast_ref::<Float64Array>().map(
        |a| a.values().iter().map(|value| value.to_bits()).collect(),
    )
}

/// `StringArray::value`: the texts of an array of type `Utf8`, nothing for
/// another type.
#[verifier::external_body]
pub(crate) fn utf8_values(data: &Column) -> (values: Option<Vec<String>>)
    ensures
        match values {
            Some(v) => array_model(*data).values == ArrayValues::Utf8(
                v@.map_values(|text: String| text@),
            ) && array_model(*data).len == v.len(),
            None => !(array_model(*data).values is Utf8),
        },
{
    data.array.as_any().downcast_ref::<StringArray>().map(
        |a| (0..a.len()).map(|row| a.value(row).to_owned()).collect(),
    )
}

/// A downcast to `BinaryArray`: whether the array has type `Binary`.
#[verifier::external_body]
pub(crate) fn is_binary(data: &Column) -> (binary: bool)
    ensures
        binary == (array_model(*data).values is Binary),
{
    data.array.as_any().is::<BinaryArray>()
}

/// `BinaryArray::value`: the bytes in one slot of an array of type `Binary`,
/// nothing for another type. A slot beyond the array would panic.
#[verifier::external_body]
pub(crate) fn binary_at(data: &Column, row: usize) -> (bytes: Option<Vec<u8>>)
    requires
        row < array_model(*data).len,
    ensures
        match bytes {
            Some(v) => array_model(*data).values is Binary && array_model(
                *data,
            ).values->Binary_0.len() == array_model(*data).len && array_model(
                *data,
            ).values->Binary_0[row as int] == v@,
            None => !(array_model(*data).values is Binary),
        },
{
    data.array.as_any().downcast_ref::<BinaryArray>().map(|a| a.value(row).to_vec())
}

/// A downcast to `ListArray`: whether the array has type `List`.
#[verifier::external_body]
pub(crate) fn is_list(data: &Column) -> (list: bool)
    ensures
        list == (array_model(*data).values is List),
{
    data.array.as_any().is::<ListArray>()
}

/// `ListArray::value` and `Float32Array::values`: the bit patterns of one list
/// of `Float32` values, nothing for another type. A slot beyond the array would
/// panic.
#[verifier::external_body]
pub(crate) fn list_float32_at(data: &Column, row: usize) -> (values: Option<Vec<u32>>)
    requires
        row < array_model(*data).len,
    ensures
        match values {
            Some(v) => array_model(*data).values matches ArrayValues::List(ListValues::Float32(lists))
                && lists.len() == array_model(*data).len && lists[row as int] == v@,
            None => !(array_model(*data).values matches ArrayValues::List(ListValues::Float32(_))),
        },
{
        let list = data.array.as_any().downcast_ref::<ListArray>()?.value(row);
    list.as_any().downcast_ref::<Float32Array>().map(
        |a| a.values().iter().map(|value| value.to_bits()).collect(),
    )
}

/// `ListArray::value` and `Float64Array::values`: the bit patterns of one list
/// of `Float64` values, nothing for another type. A slot beyond the array would
/// panic.
#[verifier::external_body]
pub(crate) fn list_float64_at(data: &Column, row: usize) -> (values: Option<Vec<u64>>)
    requires
        row < array_model(*data).len,
    ensures
        match values {
            Some(v) => array_model(*data).values matches ArrayValues::List(ListValues::Float64(lists))
                && lists.len() == array_model(*data).len && lists[row as int] == v@,
            None => !(array_model(*data).values matches ArrayValues::List(ListValues::Float64(_))),
        },
{
        let list = data.array.as_any().downcast_ref::<ListArray>()?.value(row);
    list.as_any().downcast_ref::<Float64Array>().map(
        |a| a.values().iter().map(|value| value.to_bits()).collect(),
    )
}

/// `ListArray::value` and `Int8Array::values`: one list of `Int8` values,
/// nothing for another type. A slot beyond the array would panic.
#[verifier::external_body]
pub(crate) fn list_int8_at(data: &Column, row: usize) -> (values: Option<Vec<i8>>)
    requires
        row < array_model(*data).len,
    ensures
        match values {
            Some(v) => array_model(*data).values matches ArrayValues::List(ListValues::Int8(lists))
                && lists.len() == array_model(*data).len && lists[row as int] == v@,
            None => !(array_model(*data).values matches ArrayValues::List(ListValues::Int8(_))),
        },
{
        let list = data.array.as_any().downcast_ref::<ListArray>()?.value(row);
    list.as_any().downcast_ref::<Int8Array>().map(|a| a.values().to_vec())
}

/// How long the list in a slot is.
pub open spec fn list_len(lists: ListValues, row: int) -> nat {
    match lists {
        ListValues::Int8(v) => v[row].len(),
        ListValues::Int32(v) => v[row].len(),
        ListValues::Float32(v) => v[row].len(),
        ListValues::Float64(v) => v[row].len(),
        ListValues::Other(v) => v[row],
    }
}

/// `ListArray::value_length`: how long the list in a slot is, nothing for an
/// array that does not hold lists. A slot beyond the array would panic.
#[verifier::external_body]
pub(crate) fn list_len_at(data: &Column, row: usize) -> (len: Option<usize>)
    requires
        array_model(*data).values is List ==> row < array_model(*data).len,
    ensures
        match len {
            Some(len) => array_model(*data).values matches ArrayValues::List(lists) && len
                == list_len(lists, row as int),
            None => !(array_model(*data).values is List),
        },
{
    let lists = data.array.as_any().downcast_ref::<ListArray>()?;
    Some(lists.value_length(row) as usize)
}

/// A downcast to `FixedSizeListArray`: whether the array has type
/// `FixedSizeList`.
#[verifier::external_body]
pub(crate) fn is_fixed_list(data: &Column) -> (list: bool)
    ensures
        list == (array_model(*data).values is FixedSizeList),
{
    data.array.as_any().is::<FixedSizeListArray>()
}

/// `FixedSizeListArray::value` and `Int32Array::values`: one fixed-size list of
/// `Int32` values, nothing for another type. A slot beyond the array would
/// panic.
#[verifier::external_body]
pub(crate) fn fixed_int32_at(data: &Column, row: usize) -> (values: Option<Vec<i32>>)
    requires
        row < array_model(*data).len,
    ensures
        match values {
            Some(v) => array_model(*data).values matches ArrayValues::FixedSizeList(
                ListValues::Int32(lists),
            ) && lists.len() == array_model(*data).len && lists[row as int] == v@,
            None => !(array_model(*data).values matches ArrayValues::FixedSizeList(
                ListValues::Int32(_),
            )),
        },
{
        let list = data.array.as_any().downcast_ref::<FixedSizeListArray>()?.value(row);
    list.as_any().downcast_ref::<Int32Array>().map(|a| a.values().to_vec())
}

/// `FixedSizeListArray::value` and `Float64Array::values`: the bit patterns of
/// one fixed-size list of `Float64` values, nothing for another type. A slot
/// beyond the array would panic.
#[verifier::external_body]
pub(crate) fn fixed_float64_at(data: &Column, row: usize) -> (values: Option<Vec<u64>>)
    requires
        row < array_model(*data).len,
    ensures
        match values {
            Some(v) => array_model(*data).values matches ArrayValues::FixedSizeList(
                ListValues::Float64(lists),
            ) && lists.len() == array_model(*data).len && lists[row as int] == v@,
            None => !(array_model(*data).values matches ArrayValues::FixedSizeList(
                ListValues::Float64(_),
            )),
        },
{
        let list = data.array.as_any().downcast_ref::<FixedSizeListArray>()?.value(row);
    list.as_any().downcast_ref::<Float64Array>().map(
        |a| a.values().iter().map(|value| value.to_bits()).collect(),
    )
}

/// `Int8Array::from`: an array of type `Int8` without nulls.
#[verifier::external_body]
pub(crate) fn int8_array(values: Vec<i8>) -> (data: Column)
    ensures
        array_model(data) == plain_array(values@.len(), ArrayValues::Int8(values@)),
{
    Column { array: Arc::new(Int8Array::from(values)) }
}

/// `Int64Array::from`: an array of type `Int64` without nulls.
#[verifier::external_body]
pub(crate) fn int64_array(values: Vec<i64>) -> (data: Column)
    ensures
        array_model(data) == plain_array(values@.len(), ArrayValues::Int64(values@)),
{
    Column { array: Arc::new(Int64Array::from(values)) }
}

/// `UInt32Array::from`: an array of type `UInt32` without nulls.
#[verifier::external_body]
pub(crate) fn uint32_array(values: Vec<u32>) -> (data: Column)
    ensures
        array_model(data) == plain_array(values@.len(), ArrayValues::UInt32(values@)),
{
    Column { array: Arc::new(UInt32Array::from(values)) }
}

/// `UInt64Array::from`: an array of type `UInt64` without nulls.
#[verifier::external_body]
pub(crate) fn uint64_array(values: Vec<u64>) -> (data: Column)
    ensures
        array_model(data) == plain_array(values@.len(), ArrayValues::UInt64(values@)),
{
    Column { array: Arc::new(UInt64Array::from(values)) }
}

/// `Float32Array::new`: an array of type `Float32` without nulls, of numbers
/// with these bit patterns.
#[verifier::external_body]
pub(crate) fn float32_array(bits: Vec<u32>) -> (data: Column)
    ensures
        array_model(data) == plain_array(bits@.len(), ArrayValues::Float32(bits@)),
{
    Column { array: Arc::new(Float32Array::new(Buffer::from_vec(bits).into(), None)) }
}

/// `Float32Array::new` with a null buffer: an array of type `Float32` of numbers
/// with these bit patterns, null where `valid` is false. Panics where the two
/// differ in length.
#[verifier::external_body]
pub(crate) fn nullable_float32_array(bits: Vec<u32>, valid: Vec<bool>) -> (data: Column)
    requires
        bits.len() == valid.len(),
    ensures
        array_model(data) == (ArrayModel {
            len: bits@.len(),
            nulls: valid@.map_values(|v: bool| !v),
            values: ArrayValues::Float32(bits@),
        }),
{
    let nulls = NullBuffer::from(valid);
    Column { array: Arc::new(Float32Array::new(Buffer::from_vec(bits).into(), Some(nulls))) }
}

/// `Float64Array::new`: an array of type `Float64` without nulls, of numbers
/// with these bit patterns.
#[verifier::external_body]
pub(crate) fn float64_array(bits: Vec<u64>) -> (data: Column)
    ensures
        array_model(data) == plain_array(bits@.len(), ArrayValues::Float64(bits@)),
{
    Column { array: Arc::new(Float64Array::new(Buffer::from_vec(bits).into(), None)) }
}

/// How many bytes the texts take in UTF-8, together.
pub open spec fn text_bytes(texts: Seq<Seq<char>>) -> nat
    decreases texts.len(),
{
    if texts.len() == 0 {
        0
    } else {
        text_bytes(texts.drop_last()) + vstd::utf8::encode_utf8(texts.last()).len()
    }
}

/// `StringArray::from_iter_values`: an array of type `Utf8` without nulls.
/// Panics where the texts together have more than 2^31 - 1 bytes.
#[verifier::external_body]
pub(crate) fn utf8_array(values: &Vec<String>) -> (data: Column)
    requires
        text_bytes(values@.map_values(|text: String| text@)) <= i32::MAX,
    ensures
        array_model(data) == plain_array(
            values@.len(),
            ArrayValues::Utf8(values@.map_values(|text: String| text@)),
        ),
{
    Column { array: Arc::new(StringArray::from_iter_values(values)) }
}

/// `BinaryArray::from_vec`: an array of type `Binary` of one slot.
/// Panics where the slot has more than 2^31 - 1 bytes.
#[verifier::external_body]
pub(crate) fn binary_array_of_one(bytes: &Vec<u8>) -> (data: Column)
    requires
        bytes.len() <= i32::MAX,
    ensures
        array_model(data) == plain_array(1, ArrayValues::Binary(seq![bytes@])),
{
    Column { array: Arc::new(BinaryArray::from_vec(vec![bytes.as_slice()])) }
}

/// The lists of a list array with one slot that holds all of an array's values.
pub open spec fn one_list(array: ArrayModel) -> ListValues {
    match array.values {
        ArrayValues::Int8(v) => ListValues::Int8(seq![v]),
        ArrayValues::Int32(v) => ListValues::Int32(seq![v]),
        ArrayValues::Float32(v) => ListValues::Float32(seq![v]),
        ArrayValues::Float64(v) => ListValues::Float64(seq![v]),
        _ => ListValues::Other(seq![array.len]),
    }
}

/// `ListArray::new` over offsets from zero to the number of values: an array of
/// type `List` with one slot that holds all the values. Panics where the values
/// hold a null or are more than 2^31 - 1.
#[verifier::external_body]
pub(crate) fn list_of_one(values: Column) -> (data: Column)
    requires
        array_model(values).len <= i32::MAX,
        !has_null(values),
        !(array_model(values).values is Other),
    ensures
        array_model(data) == plain_array(1, ArrayValues::List(one_list(array_model(values)))),
{
    let item = Arc::new(Field::new("item", values.array.data_type().clone(), false));
    let offsets = OffsetBuffer::new(vec![0, values.array.len() as i32].into());
    Column { array: Arc::new(ListArray::new(item, offsets, values.array, None)) }
}

/// Columns that can stand side by side: at least one, all of one length.
pub open spec fn columns_fit(columns: Seq<Column>) -> bool {
    &&& columns.len() > 0
    &&& forall|i: int|
        0 <= i < columns.len() ==> (#[trigger] array_model(columns[i])).len == array_model(
            columns[0],
        ).len
}

pub open spec fn has_null(data: Column) -> bool {
    exists|i: int| 0 <= i < array_model(data).len && #[trigger] array_model(data).nulls[i]
}

/// `StructArray::try_new` with fields that take each column's type and no null:
/// an array of type `Struct`, refused where the columns do not fit or one of
/// them holds a null.
#[verifier::external_body]
pub(crate) fn struct_of(names: &Vec<String>, columns: &Vec<Column>) -> (data: Result<
    Column,
    ArrowError,
>)
    requires
        names.len() == columns.len(),
        forall|i: int| 0 <= i < columns.len() ==> !(array_model(#[trigger] columns@[i]).values is Other),
    ensures
        data is Ok <==> columns_fit(columns@) && forall|i: int|
            0 <= i < columns.len() ==> !has_null(#[trigger] columns@[i]),
        data matches Ok(data) ==> array_model(data) == plain_array(
            array_model(columns@[0]).len,
            ArrayValues::Struct(
                Seq::new(
                    columns@.len(),
                    |i: int| StructColumn { name: names@[i]@, array: array_model(columns@[i]) },
                ),
            ),
        ),
{
    let fields: Vec<Field> = names.iter().zip(columns).map(
        |(name, column)| Field::new(name, column.array.data_type().clone(), false),
    ).collect();
    let arrays = columns.iter().map(|column| column.array.clone()).collect();
    StructArray::try_new(fields.into(), arrays, None).map(|array| Column { array: Arc::new(array) })
}

/// `StructArray::column_by_name`: the first column of that name of an array of
/// type `Struct`, nothing for another type or where no column has the name.
#[verifier::external_body]
pub(crate) fn struct_column(data: &Column, name: &str) -> (column: Option<Column>)
    ensures
        match column {
            Some(column) => array_model(*data).values matches ArrayValues::Struct(columns) && exists|
                i: int,
            |
                0 <= i < columns.len() && (#[trigger] columns[i]).name == name@ && columns[i].array
                    == array_model(column) && array_model(column).len == array_model(*data).len
                    && forall|j: int|
                    0 <= j < i ==> (#[trigger] columns[j]).name != name@,
            None => array_model(*data).values matches ArrayValues::Struct(columns) ==> forall|j: int|
                0 <= j < columns.len() ==> (#[trigger] columns[j]).name != name@,
        },
{
        let columns = data.array.as_any().downcast_ref::<StructArray>()?;
    columns.column_by_name(name).map(|column| Column { array: column.clone() })
}

/// A downcast to `StructArray`: whether the array has type `Struct`.
#[verifier::external_body]
pub(crate) fn is_struct(data: &Column) -> (is_struct: bool)
    ensures
        is_struct == (array_model(*data).values is Struct),
{
    data.array.as_any().is::<StructArray>()
}

/// The value slots of one row.
pub open spec fn values_at(values: ArrayValues, row: int) -> ArrayValues {
    match values {
        ArrayValues::Int8(v) => ArrayValues::Int8(seq![v[row]]),
        ArrayValues::Int16(v) => ArrayValues::Int16(seq![v[row]]),
        ArrayValues::Int32(v) => ArrayValues::Int32(seq![v[row]]),
        ArrayValues::Int64(v) => ArrayValues::Int64(seq![v[row]]),
        ArrayValues::UInt8(v) => ArrayValues::UInt8(seq![v[row]]),
        ArrayValues::UInt16(v) => ArrayValues::UInt16(seq![v[row]]),
        ArrayValues::UInt32(v) => ArrayValues::UInt32(seq![v[row]]),
        ArrayValues::UInt64(v) => ArrayValues::UInt64(seq![v[row]]),
        ArrayValues::Float32(v) => ArrayValues::Float32(seq![v[row]]),
        ArrayValues::Float64(v) => ArrayValues::Float64(seq![v[row]]),
        ArrayValues::Utf8(v) => ArrayValues::Utf8(seq![v[row]]),
        ArrayValues::Binary(v) => ArrayValues::Binary(seq![v[row]]),
        ArrayValues::List(lists) => ArrayValues::List(lists_at(lists, row)),
        ArrayValues::FixedSizeList(lists) => ArrayValues::FixedSizeList(lists_at(lists, row)),
        other => other,
    }
}

/// The array that holds one row of another, and of a struct array one row of each
/// of its columns.
pub open spec fn row_of(array: ArrayModel, row: int) -> ArrayModel
    decreases array,
{
    ArrayModel {
        len: 1,
        nulls: seq![array.nulls[row]],
        values: match array.values {
            ArrayValues::Struct(columns) => ArrayValues::Struct(
                Seq::new(
                    columns.len(),
                    |i: int|
                        if 0 <= i < columns.len() {
                            StructColumn {
                                name: columns[i].name,
                                array: row_of(columns[i].array, row),
                            }
                        } else {
                            columns[i]
                        },
                ),
            ),
            values => values_at(values, row),
        },
    }
}

pub open spec fn lists_at(lists: ListValues, row: int) -> ListValues {
    match lists {
        ListValues::Int8(v) => ListValues::Int8(seq![v[row]]),
        ListValues::Int32(v) => ListValues::Int32(seq![v[row]]),
        ListValues::Float32(v) => ListValues::Float32(seq![v[row]]),
        ListValues::Float64(v) => ListValues::Float64(seq![v[row]]),
        ListValues::Other(v) => ListValues::Other(seq![v[row]]),
    }
}

/// `Array::slice` over one row: an array of the same type that holds that
/// row. Panics beyond the array.
#[verifier::external_body]
pub(crate) fn array_row(data: &Column, row: usize) -> (one: Column)
    requires
        row < array_model(*data).len,
    ensures
        array_model(one) == row_of(array_model(*data), row as int),
{
    Column { array: data.array.slice(row, 1) }
}

/// A field to be: its name, and whether it may hold nulls.
pub struct NewField {
    pub name: String,
    pub nullable: bool,
}

/// An array of type `Float32` without nulls.
pub open spec fn float32s(bits: Seq<u32>) -> ArrayModel {
    plain_array(bits.len(), ArrayValues::Float32(bits))
}

/// An array of type `Float64` without nulls.
pub open spec fn float64s(bits: Seq<u64>) -> ArrayModel {
    plain_array(bits.len(), ArrayValues::Float64(bits))
}

/// Fields of these names that take no nulls.
pub open spec fn required_fields(names: Seq<Seq<char>>) -> Seq<FieldModel> {
    names.map_values(|name: Seq<char>| FieldModel { name, nullable: false })
}

/// A field that takes no nulls.
pub(crate) fn required(name: &str) -> (field: NewField)
    ensures
        field.name@ == name@,
        !field.nullable,
{
    NewField { name: name.to_owned(), nullable: false }
}

/// An entry of a schema's metadata.
pub(crate) fn entry(key: &str, value: &str) -> (entry: (String, String))
    ensures
        entry.0@ == key@,
        entry.1@ == value@,
{
    (key.to_owned(), value.to_owned())
}

/// Metadata entries as a map: the last entry for a key counts.
pub open spec fn metadata_map(entries: Seq<(String, String)>) -> Map<Seq<char>, Seq<char>>
    decreases entries.len(),
{
    if entries.len() == 0 {
        Map::empty()
    } else {
        metadata_map(entries.drop_last()).insert(entries.last().0@, entries.last().1@)
    }
}

/// Columns that can stand side by side under these fields.
pub open spec fn table_fits(fields: Seq<NewField>, columns: Seq<Column>) -> bool {
    &&& columns_fit(columns)
    &&& forall|i: int|
        0 <= i < columns.len() ==> fields[i].nullable || !has_null(#[trigger] columns[i])
}

/// `Schema::new_with_metadata` with fields that take each column's type, held to
/// the columns by `RecordBatch::try_new`: a schema for these columns, refused
/// where they do not fit.
#[verifier::external_body]
fn table_schema(
    fields: &Vec<NewField>,
    columns: &Vec<Column>,
    metadata: &Vec<(String, String)>,
) -> (schema: Result<Arc<Schema>, ArrowError>)
    requires
        fields.len() == columns.len(),
    ensures
        schema is Ok <==> table_fits(fields@, columns@),
        schema matches Ok(schema) ==> schema_fields(*schema) == fields@.map_values(
            |field: NewField| FieldModel { name: field.name@, nullable: field.nullable },
        ) && schema_metadata(*schema) == metadata_map(metadata@),
{
    let described: Vec<Field> = fields.iter().zip(columns).map(
        |(field, column)| Field::new(&field.name, column.array.data_type().clone(), field.nullable),
    ).collect();
    let schema = Schema::new_with_metadata(described, metadata.iter().cloned().collect());
    let arrays = columns.iter().map(|column| column.array.clone()).collect();
    RecordBatch::try_new(Arc::new(schema), arrays).map(|batch| batch.schema())
}

/// How long a schema is when it is written out with `Debug`, in bytes.
pub uninterp spec fn schema_width(schema: Schema) -> nat;

/// `Debug` of `Schema`: how many bytes it writes for all the names, types and
/// metadata, those of nested fields too. The order in which it writes metadata
/// changes, its length does not.
#[verifier::external_body]
fn debug_width(schema: &Schema) -> (width: usize)
    ensures
        width == schema_width(*schema),
{
    format!("{schema:?}").len()
}

/// How many buffers an array is kept in, and the arrays below it.
pub struct BufferTree {
    pub buffers: nat,
    pub children: Seq<BufferTree>,
}

/// What an array is kept in.
pub uninterp spec fn array_data(column: Column) -> ArrayData;

/// The buffers of an array, and of the arrays below it.
pub uninterp spec fn buffer_tree(data: ArrayData) -> BufferTree;

/// `Array::to_data`: what the array is kept in.
#[verifier::external_body]
fn column_data(column: &Column) -> (data: ArrayData)
    ensures
        data == array_data(*column),
{
    column.array.to_data()
}

/// `ArrayData::buffers`: how many buffers the array itself is kept in.
#[verifier::external_body]
fn own_buffers(data: &ArrayData) -> (count: usize)
    ensures
        count == buffer_tree(*data).buffers,
{
    data.buffers().len()
}

/// `ArrayData::child_data`: the arrays below this one.
#[verifier::external_body]
fn child_arrays(data: &ArrayData) -> (children: Vec<ArrayData>)
    ensures
        buffer_tree(*data).children == children@.map_values(|child: ArrayData| buffer_tree(child)),
{
    data.child_data().to_vec()
}

/// How many arrays and buffers there are in all.
pub open spec fn tree_size(tree: BufferTree) -> nat
    decreases tree,
{
    1 + tree.buffers + forest_size(tree.children)
}

pub open spec fn forest_size(trees: Seq<BufferTree>) -> nat
    decreases trees,
{
    if trees.len() == 0 {
        0
    } else {
        forest_size(trees.drop_last()) + tree_size(trees.last())
    }
}

/// Takes the arrays and buffers of an array out of a budget, nothing where it
/// does not reach.
fn take_tree(data: &ArrayData, budget: u64) -> (left: Option<u64>)
    ensures
        match left {
            Some(left) => tree_size(buffer_tree(*data)) + left == budget,
            None => tree_size(buffer_tree(*data)) > budget,
        },
    decreases buffer_tree(*data),
{
    let buffers: u64 = own_buffers(data) as u64;
    if budget == 0 || buffers > budget - 1 {
        return None;
    }
    let children: Vec<ArrayData> = child_arrays(data);
    let ghost trees = buffer_tree(*data).children;
    let mut left: u64 = budget - 1 - buffers;
    let mut i: usize = 0;
    assert(trees.take(0) =~= Seq::empty());
    while i < children.len()
        invariant
            i <= children.len(),
            trees == buffer_tree(*data).children,
            trees == children@.map_values(|child: ArrayData| buffer_tree(child)),
            forest_size(trees.take(i as int)) + left + 1 + buffers == budget,
            buffers == buffer_tree(*data).buffers,
        decreases children.len() - i,
    {
        assert(trees.take(i + 1).drop_last() =~= trees.take(i as int));
        assert(trees.take(i + 1).last() == buffer_tree(children@[i as int]));
        assert(trees[i as int] == buffer_tree(children@[i as int]));
        match take_tree(&children[i], left) {
            Some(rest) => {
                left = rest;
            },
            None => {
                proof {
                    lemma_forest_grows(trees, i + 1);
                }
                return None;
            },
        }
        i = i + 1;
    }
    assert(trees.take(trees.len() as int) =~= trees);
    Some(left)
}

proof fn lemma_forest_grows(trees: Seq<BufferTree>, end: int)
    requires
        0 <= end <= trees.len(),
    ensures
        forest_size(trees.take(end)) <= forest_size(trees),
    decreases trees.len() - end,
{
    if end < trees.len() {
        assert(trees.take(end + 1).drop_last() =~= trees.take(end));
        lemma_forest_grows(trees, end + 1);
    } else {
        assert(trees.take(end) =~= trees);
    }
}

/// The trees of a table's columns.
pub open spec fn column_trees(columns: Seq<Column>) -> Seq<BufferTree> {
    columns.map_values(|column: Column| buffer_tree(array_data(column)))
}

/// How long a schema may be, and how many arrays and buffers a table may have, so
/// that what the IPC format says about them stays far below its two gigabytes.
pub const MESSAGE_LIMIT: u64 = 0x100_0000;

/// A table of which the IPC format can tell.
pub open spec fn fits_message(schema: Schema, columns: Seq<Column>) -> bool {
    &&& schema_width(schema) <= MESSAGE_LIMIT
    &&& forest_size(column_trees(columns)) <= MESSAGE_LIMIT
}

/// The bytes of a table in the Arrow IPC stream format, nothing where Arrow
/// refuses to write it.
pub uninterp spec fn ipc_stream_bytes(schema: Schema, columns: Seq<Column>) -> Option<Seq<u8>>;

/// `RecordBatch::try_new` and an IPC `StreamWriter` into memory: the bytes that
/// `ipc_stream_bytes` names. Panics where what it writes about the schema or the
/// buffers takes two gigabytes: a field or a metadata entry takes less than 64
/// times what `Debug` writes for it, an array or a buffer less than 64 bytes.
#[verifier::external_body]
pub(crate) fn ipc_stream(schema: &Arc<Schema>, columns: &Vec<Column>) -> (bytes: Result<
    Vec<u8>,
    ArrowError,
>)
    requires
        fits_message(**schema, columns@),
    ensures
        match bytes {
            Ok(bytes) => ipc_stream_bytes(**schema, columns@) == Some(bytes@),
            Err(_) => ipc_stream_bytes(**schema, columns@) is None,
        },
{
    let arrays = columns.iter().map(|column| column.array.clone()).collect();
    let batch = RecordBatch::try_new(schema.clone(), arrays)?;
    let mut writer = StreamWriter::try_new(Vec::new(), &batch.schema())?;
    writer.write(&batch)?;
    writer.finish()?;
    writer.into_inner()
}

/// A table: a schema, and for each of its fields a column of `rows` slots.
pub struct TableModel {
    pub schema: Schema,
    pub columns: Seq<Column>,
    pub rows: nat,
}

impl TableModel {
    pub open spec fn fields(self) -> Seq<FieldModel> {
        schema_fields(self.schema)
    }

    pub open spec fn valid(self) -> bool {
        &&& self.columns.len() == self.fields().len()
        &&& forall|i: int|
            0 <= i < self.columns.len() ==> (#[trigger] array_model(self.columns[i])).has_len(
                self.rows,
            )
    }

    /// What the column at `index` holds.
    pub open spec fn array(self, index: int) -> ArrayModel {
        array_model(self.columns[index])
    }
}

/// Whether every column has that many slots.
fn all_have_len(columns: &Vec<Column>, rows: usize) -> (all: bool)
    ensures
        all <==> forall|i: int|
            0 <= i < columns.len() ==> (#[trigger] array_model(columns@[i])).len == rows,
        all ==> forall|i: int|
            0 <= i < columns.len() ==> (#[trigger] array_model(columns@[i])).has_len(rows as nat),
{
    let mut i: usize = 0;
    while i < columns.len()
        invariant
            i <= columns.len(),
            forall|j: int|
                0 <= j < i ==> (#[trigger] array_model(columns@[j])).has_len(rows as nat),
        decreases columns.len() - i,
    {
        if array_len(&columns[i]) != rows {
            assert(array_model(columns@[i as int]).len != rows);
            return false;
        }
        i = i + 1;
    }
    true
}

/// A table of the library, made from the parts of a record batch.
#[derive(Debug)]
pub struct Batch {
    schema: Arc<Schema>,
    columns: Vec<Column>,
    rows: usize,
}

impl View for Batch {
    type V = TableModel;

    closed spec fn view(&self) -> TableModel {
        TableModel { schema: *self.schema, columns: self.columns@, rows: self.rows as nat }
    }
}

impl Batch {
    /// A table from its parts, refused where they do not belong together.
    pub fn from_parts(schema: Arc<Schema>, columns: Vec<Column>, rows: usize) -> (batch: Option<
        Batch,
    >)
        ensures
            batch is Some <==> (TableModel {
                schema: *schema,
                columns: columns@,
                rows: rows as nat,
            }).valid(),
            batch matches Some(batch) ==> batch@ == (TableModel {
                schema: *schema,
                columns: columns@,
                rows: rows as nat,
            }),
    {
        if field_names(&schema).len() != columns.len() || !all_have_len(&columns, rows) {
            return None;
        }
        Some(Batch { schema, columns, rows })
    }

    /// A table under new fields, refused where the columns do not fit them.
    pub fn with_fields(
        fields: &Vec<NewField>,
        columns: Vec<Column>,
        metadata: &Vec<(String, String)>,
    ) -> (batch: Result<Batch, ArrowError>)
        requires
            fields.len() == columns.len(),
        ensures
            batch is Ok <==> table_fits(fields@, columns@),
            batch matches Ok(batch) ==> batch@.valid() && batch@.columns == columns@
                && batch@.rows == array_model(columns@[0]).len && schema_metadata(batch@.schema)
                == metadata_map(metadata@) && batch@.fields() == fields@.map_values(
                |field: NewField| FieldModel { name: field.name@, nullable: field.nullable },
            ),
    {
        match table_schema(fields, &columns, metadata) {
            Ok(schema) => {
                let rows: usize = array_len(&columns[0]);
                let _ = all_have_len(&columns, rows);
                Ok(Batch { schema, columns, rows })
            },
            Err(error) => Err(error),
        }
    }

    pub fn num_rows(&self) -> (rows: usize)
        ensures
            rows == self@.rows,
    {
        self.rows
    }

    pub fn num_columns(&self) -> (count: usize)
        ensures
            count == self@.columns.len(),
    {
        self.columns.len()
    }

    pub fn schema(&self) -> (schema: &Arc<Schema>)
        ensures
            **schema == self@.schema,
    {
        &self.schema
    }

    pub fn columns(&self) -> (columns: &Vec<Column>)
        ensures
            columns@ == self@.columns,
    {
        &self.columns
    }

    /// The table that holds one row of this one.
    pub fn row(&self, row: usize) -> (one: Batch)
        requires
            self@.valid(),
            row < self@.rows,
        ensures
            is_row_of(self@, row as int, one@),
    {
        let mut columns: Vec<Column> = Vec::new();
        let mut i: usize = 0;
        while i < self.columns.len()
            invariant
                self@.valid(),
                row < self@.rows,
                i <= self.columns.len(),
                columns.len() == i,
                forall|j: int|
                    0 <= j < i ==> #[trigger] array_model(columns@[j]) == row_of(
                        array_model(self.columns@[j]),
                        row as int,
                    ),
            decreases self.columns.len() - i,
        {
            columns.push(array_row(&self.columns[i], row));
            i = i + 1;
        }
        Batch { schema: self.schema.clone(), columns, rows: 1 }
    }

    /// Whether the IPC format can tell of this table.
    pub fn can_encode(&self) -> (can: bool)
        ensures
            can == fits_message(self@.schema, self@.columns),
    {
        if debug_width(&self.schema) as u64 > MESSAGE_LIMIT {
            return false;
        }
        let ghost trees = column_trees(self.columns@);
        let mut left: u64 = MESSAGE_LIMIT;
        let mut i: usize = 0;
        assert(trees.take(0) =~= Seq::empty());
        while i < self.columns.len()
            invariant
                i <= self.columns.len(),
                trees == column_trees(self.columns@),
                forest_size(trees.take(i as int)) + left == MESSAGE_LIMIT,
            decreases self.columns.len() - i,
        {
            assert(trees.take(i + 1).drop_last() =~= trees.take(i as int));
            match take_tree(&column_data(&self.columns[i]), left) {
                Some(rest) => {
                    left = rest;
                },
                None => {
                    proof {
                        lemma_forest_grows(trees, i + 1);
                    }
                    return false;
                },
            }
            i = i + 1;
        }
        assert(trees.take(trees.len() as int) =~= trees);
        true
    }

    /// The table in the Arrow IPC stream format.
    pub fn encode_ipc(&self) -> (bytes: Result<Vec<u8>, ArrowError>)
        requires
            fits_message(self@.schema, self@.columns),
        ensures
            match bytes {
                Ok(bytes) => ipc_stream_bytes(self@.schema, self@.columns) == Some(bytes@),
                Err(_) => ipc_stream_bytes(self@.schema, self@.columns) is None,
            },
    {
        ipc_stream(&self.schema, &self.columns)
    }
}

/// `one` holds the row of `table` at `row`, under the same schema.
pub open spec fn is_row_of(table: TableModel, row: int, one: TableModel) -> bool {
    &&& one.schema == table.schema
    &&& one.rows == 1
    &&& one.columns.len() == table.columns.len()
    &&& one.valid()
    &&& forall|i: int|
        0 <= i < table.columns.len() ==> #[trigger] one.array(i) == row_of(table.array(i), row)
}

/// One row of a table has its fields and one slot in each column, with what the
/// column holds in that row.
pub proof fn law_one_row_holds_its_values(table: TableModel, row: int, one: TableModel, i: int)
    requires
        is_row_of(table, row, one),
        0 <= i < table.columns.len(),
    ensures
        one.fields() == table.fields(),
        one.rows == 1,
        one.columns.len() == table.columns.len(),
        one.array(i).len == 1,
        one.array(i).nulls[0] == table.array(i).nulls[row],
        match (one.array(i).values, table.array(i).values) {
            (ArrayValues::Int8(new), ArrayValues::Int8(old)) => new[0] == old[row],
            (ArrayValues::Int16(new), ArrayValues::Int16(old)) => new[0] == old[row],
            (ArrayValues::Int32(new), ArrayValues::Int32(old)) => new[0] == old[row],
            (ArrayValues::Int64(new), ArrayValues::Int64(old)) => new[0] == old[row],
            (ArrayValues::UInt8(new), ArrayValues::UInt8(old)) => new[0] == old[row],
            (ArrayValues::UInt16(new), ArrayValues::UInt16(old)) => new[0] == old[row],
            (ArrayValues::UInt32(new), ArrayValues::UInt32(old)) => new[0] == old[row],
            (ArrayValues::UInt64(new), ArrayValues::UInt64(old)) => new[0] == old[row],
            (ArrayValues::Float32(new), ArrayValues::Float32(old)) => new[0] == old[row],
            (ArrayValues::Float64(new), ArrayValues::Float64(old)) => new[0] == old[row],
            (ArrayValues::Utf8(new), ArrayValues::Utf8(old)) => new[0] == old[row],
            (ArrayValues::Binary(new), ArrayValues::Binary(old)) => new[0] == old[row],
            (ArrayValues::List(new), ArrayValues::List(old)) => list_len(new, 0) == list_len(
                old,
                row,
            ),
            (ArrayValues::FixedSizeList(new), ArrayValues::FixedSizeList(old)) => list_len(new, 0)
                == list_len(old, row),
            (ArrayValues::Struct(new), ArrayValues::Struct(old)) => new.len() == old.len(),
            (ArrayValues::Other, ArrayValues::Other) => true,
            _ => false,
        },
{
    assert(one.array(i) == row_of(table.array(i), row));
}

} // verus!
