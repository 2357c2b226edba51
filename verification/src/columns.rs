//! Columns of a table by name and type.
use arrow::datatypes::Schema;
use vstd::prelude::*;

use crate::table::{self, Batch};
#[allow(unused_imports)]
use crate::table::{ArrayValues, FieldModel, ListValues, TableModel};
use crate::text;

verus! {

/// The type that a column was wanted in.
#[derive(Clone, Copy, Debug, PartialEq, Eq, Structural)]
pub enum ColumnKind {
    Int64,
    Float64,
    Binary,
    Utf8,
    /// `Int8` or `Int32`.
    Integer,
    List,
    /// Lists of `Float32` values.
    ListFloat32,
    /// Lists of `Float64` values.
    ListFloat64,
    FixedSizeList,
    /// Fixed-size lists of `Int32` values.
    FixedInt32,
    /// Fixed-size lists of `Float64` values.
    FixedFloat64,
}

/// A column that a table does not have, or has in another type.
#[derive(Debug)]
pub enum ColumnError {
    Missing(String),
    WrongType(String, ColumnKind),
}

/// What a column error says.
pub enum ColumnFault {
    Missing(Seq<char>),
    WrongType(Seq<char>, ColumnKind),
}

impl View for ColumnError {
    type V = ColumnFault;

    open spec fn view(&self) -> ColumnFault {
        match self {
            ColumnError::Missing(name) => ColumnFault::Missing(name@),
            ColumnError::WrongType(name, kind) => ColumnFault::WrongType(name@, *kind),
        }
    }
}

/// The result that was found is the one that was wanted.
pub open spec fn found<T>(
    result: Result<Vec<T>, ColumnError>,
    wanted: Result<Seq<T>, ColumnFault>,
) -> bool {
    match (result, wanted) {
        (Ok(values), Ok(sought)) => values@ == sought,
        (Err(error), Err(fault)) => error@ == fault,
        _ => false,
    }
}

/// The first field of that name from `from` on.
pub open spec fn field_from(fields: Seq<FieldModel>, name: Seq<char>, from: int) -> Option<int>
    decreases fields.len() - from,
{
    if from < 0 || from >= fields.len() {
        None
    } else if fields[from].name == name {
        Some(from)
    } else {
        field_from(fields, name, from + 1)
    }
}

/// The first field of that name.
pub open spec fn field_at(fields: Seq<FieldModel>, name: Seq<char>) -> Option<int> {
    field_from(fields, name, 0)
}

pub open spec fn column_at(table: TableModel, name: Seq<char>) -> Result<int, ColumnFault> {
    match field_at(table.fields(), name) {
        Some(index) => Ok(index),
        None => Err(ColumnFault::Missing(name)),
    }
}

/// Values of the column of type `Int64` with that name.
pub open spec fn int64_of(table: TableModel, name: Seq<char>) -> Result<Seq<i64>, ColumnFault> {
    match column_at(table, name) {
        Ok(index) => match table.array(index).values {
            ArrayValues::Int64(values) => Ok(values),
            _ => Err(ColumnFault::WrongType(name, ColumnKind::Int64)),
        },
        Err(fault) => Err(fault),
    }
}

/// Bit patterns of the column of type `Float64` with that name.
pub open spec fn float64_of(table: TableModel, name: Seq<char>) -> Result<Seq<u64>, ColumnFault> {
    match column_at(table, name) {
        Ok(index) => match table.array(index).values {
            ArrayValues::Float64(values) => Ok(values),
            _ => Err(ColumnFault::WrongType(name, ColumnKind::Float64)),
        },
        Err(fault) => Err(fault),
    }
}

/// Values of the column of type `Int8` or `Int32` with that name.
pub open spec fn integer_of(table: TableModel, name: Seq<char>) -> Result<Seq<i64>, ColumnFault> {
    match column_at(table, name) {
        Ok(index) => match table.array(index).values {
            ArrayValues::Int8(values) => Ok(values.map_values(|value: i8| value as i64)),
            ArrayValues::Int32(values) => Ok(values.map_values(|value: i32| value as i64)),
            _ => Err(ColumnFault::WrongType(name, ColumnKind::Integer)),
        },
        Err(fault) => Err(fault),
    }
}

/// Texts of the column of type `Utf8` with that name.
pub open spec fn utf8_of(
    table: TableModel,
    name: Seq<char>,
) -> Result<Seq<Seq<char>>, ColumnFault> {
    match column_at(table, name) {
        Ok(index) => match table.array(index).values {
            ArrayValues::Utf8(values) => Ok(values),
            _ => Err(ColumnFault::WrongType(name, ColumnKind::Utf8)),
        },
        Err(fault) => Err(fault),
    }
}

/// Slots of the column of type `Binary` with that name.
pub open spec fn binary_of(
    table: TableModel,
    name: Seq<char>,
) -> Result<Seq<Seq<u8>>, ColumnFault> {
    match column_at(table, name) {
        Ok(index) => match table.array(index).values {
            ArrayValues::Binary(values) => Ok(values),
            _ => Err(ColumnFault::WrongType(name, ColumnKind::Binary)),
        },
        Err(fault) => Err(fault),
    }
}

/// Bit patterns of the list at `row` of the `Float32` list column with that name.
pub open spec fn list_float32_of(table: TableModel, name: Seq<char>, row: int) -> Result<
    Seq<u32>,
    ColumnFault,
> {
    match column_at(table, name) {
        Ok(index) => match table.array(index).values {
            ArrayValues::List(ListValues::Float32(lists)) => Ok(lists[row]),
            ArrayValues::List(_) => Err(ColumnFault::WrongType(name, ColumnKind::ListFloat32)),
            _ => Err(ColumnFault::WrongType(name, ColumnKind::List)),
        },
        Err(fault) => Err(fault),
    }
}

/// Bit patterns of the list at `row` of the `Float64` list column with that name.
pub open spec fn list_float64_of(table: TableModel, name: Seq<char>, row: int) -> Result<
    Seq<u64>,
    ColumnFault,
> {
    match column_at(table, name) {
        Ok(index) => match table.array(index).values {
            ArrayValues::List(ListValues::Float64(lists)) => Ok(lists[row]),
            ArrayValues::List(_) => Err(ColumnFault::WrongType(name, ColumnKind::ListFloat64)),
            _ => Err(ColumnFault::WrongType(name, ColumnKind::List)),
        },
        Err(fault) => Err(fault),
    }
}

/// The fixed-size list at `row` of the `Int32` list column with that name.
pub open spec fn fixed_int32_of(table: TableModel, name: Seq<char>, row: int) -> Result<
    Seq<i32>,
    ColumnFault,
> {
    match column_at(table, name) {
        Ok(index) => match table.array(index).values {
            ArrayValues::FixedSizeList(ListValues::Int32(lists)) => Ok(lists[row]),
            ArrayValues::FixedSizeList(_) => Err(
                ColumnFault::WrongType(name, ColumnKind::FixedInt32),
            ),
            _ => Err(ColumnFault::WrongType(name, ColumnKind::FixedSizeList)),
        },
        Err(fault) => Err(fault),
    }
}

/// Bit patterns of the fixed-size list at `row` of the `Float64` list column
/// with that name.
pub open spec fn fixed_float64_of(table: TableModel, name: Seq<char>, row: int) -> Result<
    Seq<u64>,
    ColumnFault,
> {
    match column_at(table, name) {
        Ok(index) => match table.array(index).values {
            ArrayValues::FixedSizeList(ListValues::Float64(lists)) => Ok(lists[row]),
            ArrayValues::FixedSizeList(_) => Err(
                ColumnFault::WrongType(name, ColumnKind::FixedFloat64),
            ),
            _ => Err(ColumnFault::WrongType(name, ColumnKind::FixedSizeList)),
        },
        Err(fault) => Err(fault),
    }
}

proof fn lemma_field_from(fields: Seq<FieldModel>, name: Seq<char>, from: int)
    requires
        0 <= from,
    ensures
        field_from(fields, name, from) matches Some(index) ==> from <= index < fields.len()
            && fields[index].name == name,
    decreases fields.len() - from,
{
    if from < fields.len() && fields[from].name != name {
        lemma_field_from(fields, name, from + 1);
    }
}

/// A field that is found is there.
pub proof fn lemma_field_at(fields: Seq<FieldModel>, name: Seq<char>)
    ensures
        field_at(fields, name) matches Some(index) ==> 0 <= index < fields.len()
            && fields[index].name == name,
{
    lemma_field_from(fields, name, 0);
}

/// The position of the first field with that name.
pub fn find_field(schema: &Schema, name: &str) -> (found: Option<usize>)
    ensures
        match found {
            Some(index) => field_at(table::schema_fields(*schema), name@) == Some(index as int),
            None => field_at(table::schema_fields(*schema), name@) is None,
        },
        found matches Some(index) ==> index < table::schema_fields(*schema).len(),
{
    let names: Vec<String> = table::field_names(schema);
    let ghost fields = table::schema_fields(*schema);
    let mut i: usize = 0;
    while i < names.len()
        invariant
            i <= names.len(),
            names.len() == fields.len(),
            forall|j: int| 0 <= j < names.len() ==> (#[trigger] names@[j])@ == fields[j].name,
            field_at(fields, name@) == field_from(fields, name@, i as int),
            fields == table::schema_fields(*schema),
        decreases names.len() - i,
    {
        if text::same_text(names[i].as_str(), name) {
            return Some(i);
        }
        i = i + 1;
    }
    None
}

pub fn column_index(batch: &Batch, name: &str) -> (index: Result<usize, ColumnError>)
    requires
        batch@.valid(),
    ensures
        match index {
            Ok(index) => column_at(batch@, name@) == Ok::<int, ColumnFault>(index as int),
            Err(error) => column_at(batch@, name@) == Err::<int, ColumnFault>(error@),
        },
        index matches Ok(index) ==> index < batch@.columns.len(),
{
    match find_field(batch.schema(), name) {
        Some(index) => Ok(index),
        None => Err(ColumnError::Missing(name.to_owned())),
    }
}

pub fn int64(batch: &Batch, name: &str) -> (values: Result<Vec<i64>, ColumnError>)
    requires
        batch@.valid(),
    ensures
        found(values, int64_of(batch@, name@)),
        values matches Ok(values) ==> values.len() == batch@.rows,
{
    match column_index(batch, name) {
        Ok(index) => match table::int64_values(&batch.columns()[index]) {
            Some(values) => Ok(values),
            None => Err(ColumnError::WrongType(name.to_owned(), ColumnKind::Int64)),
        },
        Err(error) => Err(error),
    }
}

pub fn float64(batch: &Batch, name: &str) -> (values: Result<Vec<u64>, ColumnError>)
    requires
        batch@.valid(),
    ensures
        found(values, float64_of(batch@, name@)),
        values matches Ok(values) ==> values.len() == batch@.rows,
{
    match column_index(batch, name) {
        Ok(index) => match table::float64_values(&batch.columns()[index]) {
            Some(values) => Ok(values),
            None => Err(ColumnError::WrongType(name.to_owned(), ColumnKind::Float64)),
        },
        Err(error) => Err(error),
    }
}

pub fn integer(batch: &Batch, name: &str) -> (values: Result<Vec<i64>, ColumnError>)
    requires
        batch@.valid(),
    ensures
        found(values, integer_of(batch@, name@)),
        values matches Ok(values) ==> values.len() == batch@.rows,
{
    let index: usize = match column_index(batch, name) {
        Ok(index) => index,
        Err(error) => {
            return Err(error);
        },
    };
    let column = &batch.columns()[index];
    let mut wide: Vec<i64> = Vec::new();
    if let Some(values) = table::int8_values(column) {
        let mut i: usize = 0;
        while i < values.len()
            invariant
                i <= values.len(),
                wide.len() == i,
                forall|j: int| 0 <= j < i ==> wide@[j] == values@[j] as i64,
            decreases values.len() - i,
        {
            wide.push(values[i] as i64);
            i = i + 1;
        }
        assert(wide@ =~= values@.map_values(|value: i8| value as i64));
        return Ok(wide);
    }
    if let Some(values) = table::int32_values(column) {
        let mut i: usize = 0;
        while i < values.len()
            invariant
                i <= values.len(),
                wide.len() == i,
                forall|j: int| 0 <= j < i ==> wide@[j] == values@[j] as i64,
            decreases values.len() - i,
        {
            wide.push(values[i] as i64);
            i = i + 1;
        }
        assert(wide@ =~= values@.map_values(|value: i32| value as i64));
        return Ok(wide);
    }
    Err(ColumnError::WrongType(name.to_owned(), ColumnKind::Integer))
}

pub fn string(batch: &Batch, name: &str) -> (values: Result<Vec<String>, ColumnError>)
    requires
        batch@.valid(),
    ensures
        match (values, utf8_of(batch@, name@)) {
            (Ok(values), Ok(texts)) => values@.map_values(|text: String| text@) == texts,
            (Err(error), Err(fault)) => error@ == fault,
            _ => false,
        },
        values matches Ok(values) ==> values.len() == batch@.rows,
{
    match column_index(batch, name) {
        Ok(index) => match table::utf8_values(&batch.columns()[index]) {
            Some(values) => Ok(values),
            None => Err(ColumnError::WrongType(name.to_owned(), ColumnKind::Utf8)),
        },
        Err(error) => Err(error),
    }
}

/// The index of the column of type `Binary` with that name.
pub fn binary(batch: &Batch, name: &str) -> (index: Result<usize, ColumnError>)
    requires
        batch@.valid(),
    ensures
        match (index, binary_of(batch@, name@)) {
            (Ok(index), Ok(_)) => column_at(batch@, name@) == Ok::<int, ColumnFault>(index as int)
                && index < batch@.columns.len(),
            (Err(error), Err(fault)) => error@ == fault,
            _ => false,
        },
{
    match column_index(batch, name) {
        Ok(index) => if table::is_binary(&batch.columns()[index]) {
            Ok(index)
        } else {
            Err(ColumnError::WrongType(name.to_owned(), ColumnKind::Binary))
        },
        Err(error) => Err(error),
    }
}

pub fn float64_scalar(batch: &Batch, name: &str, row: usize) -> (value: Result<u64, ColumnError>)
    requires
        batch@.valid(),
        row < batch@.rows,
    ensures
        match (value, float64_of(batch@, name@)) {
            (Ok(value), Ok(values)) => value == values[row as int],
            (Err(error), Err(fault)) => error@ == fault,
            _ => false,
        },
{
    match float64(batch, name) {
        Ok(values) => Ok(values[row]),
        Err(error) => Err(error),
    }
}

pub fn list_f32(batch: &Batch, name: &str, row: usize) -> (values: Result<Vec<u32>, ColumnError>)
    requires
        batch@.valid(),
        row < batch@.rows,
    ensures
        found(values, list_float32_of(batch@, name@, row as int)),
{
    let index: usize = match column_index(batch, name) {
        Ok(index) => index,
        Err(error) => {
            return Err(error);
        },
    };
    let column = &batch.columns()[index];
    if !table::is_list(column) {
        return Err(ColumnError::WrongType(name.to_owned(), ColumnKind::List));
    }
    match table::list_float32_at(column, row) {
        Some(values) => Ok(values),
        None => Err(ColumnError::WrongType(name.to_owned(), ColumnKind::ListFloat32)),
    }
}

pub fn list_f64(batch: &Batch, name: &str, row: usize) -> (values: Result<Vec<u64>, ColumnError>)
    requires
        batch@.valid(),
        row < batch@.rows,
    ensures
        found(values, list_float64_of(batch@, name@, row as int)),
{
    let index: usize = match column_index(batch, name) {
        Ok(index) => index,
        Err(error) => {
            return Err(error);
        },
    };
    let column = &batch.columns()[index];
    if !table::is_list(column) {
        return Err(ColumnError::WrongType(name.to_owned(), ColumnKind::List));
    }
    match table::list_float64_at(column, row) {
        Some(values) => Ok(values),
        None => Err(ColumnError::WrongType(name.to_owned(), ColumnKind::ListFloat64)),
    }
}

pub fn fixed_i32(batch: &Batch, name: &str, row: usize) -> (values: Result<Vec<i32>, ColumnError>)
    requires
        batch@.valid(),
        row < batch@.rows,
    ensures
        found(values, fixed_int32_of(batch@, name@, row as int)),
{
    let index: usize = match column_index(batch, name) {
        Ok(index) => index,
        Err(error) => {
            return Err(error);
        },
    };
    let column = &batch.columns()[index];
    if !table::is_fixed_list(column) {
        return Err(ColumnError::WrongType(name.to_owned(), ColumnKind::FixedSizeList));
    }
    match table::fixed_int32_at(column, row) {
        Some(values) => Ok(values),
        None => Err(ColumnError::WrongType(name.to_owned(), ColumnKind::FixedInt32)),
    }
}

pub fn fixed_f64(batch: &Batch, name: &str, row: usize) -> (values: Result<Vec<u64>, ColumnError>)
    requires
        batch@.valid(),
        row < batch@.rows,
    ensures
        found(values, fixed_float64_of(batch@, name@, row as int)),
{
    let index: usize = match column_index(batch, name) {
        Ok(index) => index,
        Err(error) => {
            return Err(error);
        },
    };
    let column = &batch.columns()[index];
    if !table::is_fixed_list(column) {
        return Err(ColumnError::WrongType(name.to_owned(), ColumnKind::FixedSizeList));
    }
    match table::fixed_float64_at(column, row) {
        Some(values) => Ok(values),
        None => Err(ColumnError::WrongType(name.to_owned(), ColumnKind::FixedFloat64)),
    }
}

/// A column is the first that has the wanted name, and it is missing only where none
/// has it.
pub proof fn law_columns_are_found_by_name(table: TableModel, name: Seq<char>)
    ensures
        match column_at(table, name) {
            Ok(index) => {
                &&& 0 <= index < table.fields().len()
                &&& table.fields()[index].name == name
                &&& forall|i: int| 0 <= i < index ==> (#[trigger] table.fields()[i]).name != name
            },
            Err(fault) => {
                &&& fault == ColumnFault::Missing(name)
                &&& forall|i: int|
                    0 <= i < table.fields().len() ==> (#[trigger] table.fields()[i]).name != name
            },
        },
{
    lemma_first_field(table.fields(), name, 0);
}

proof fn lemma_first_field(fields: Seq<FieldModel>, name: Seq<char>, from: int)
    requires
        0 <= from <= fields.len(),
    ensures
        match field_from(fields, name, from) {
            Some(index) => {
                &&& from <= index < fields.len()
                &&& fields[index].name == name
                &&& forall|i: int| from <= i < index ==> (#[trigger] fields[i]).name != name
            },
            None => forall|i: int|
                from <= i < fields.len() ==> (#[trigger] fields[i]).name != name,
        },
    decreases fields.len() - from,
{
    if from < fields.len() && fields[from].name != name {
        lemma_first_field(fields, name, from + 1);
    }
}

/// What is read of a column stands in it, row for row: numbers as they are, and of a
/// column of lists the list of the wanted row.
pub proof fn law_columns_are_read_row_for_row(
    table: TableModel,
    name: Seq<char>,
    index: int,
    row: int,
)
    requires
        column_at(table, name) == Ok::<int, ColumnFault>(index),
    ensures
        int64_of(table, name) matches Ok(values) ==> table.array(index).values
            == ArrayValues::Int64(values),
        float64_of(table, name) matches Ok(values) ==> table.array(index).values
            == ArrayValues::Float64(values),
        utf8_of(table, name) matches Ok(values) ==> table.array(index).values
            == ArrayValues::Utf8(values),
        binary_of(table, name) matches Ok(values) ==> table.array(index).values
            == ArrayValues::Binary(values),
        integer_of(table, name) matches Ok(values) ==> match table.array(index).values {
            ArrayValues::Int8(v) => values.len() == v.len() && (0 <= row < v.len() ==> values[row]
                == v[row]),
            ArrayValues::Int32(v) => values.len() == v.len() && (0 <= row < v.len() ==> values[row]
                == v[row]),
            _ => false,
        },
        list_float32_of(table, name, row) matches Ok(list) ==> (table.array(index).values
            matches ArrayValues::List(ListValues::Float32(lists)) && lists[row] == list),
        list_float64_of(table, name, row) matches Ok(list) ==> (table.array(index).values
            matches ArrayValues::List(ListValues::Float64(lists)) && lists[row] == list),
        fixed_int32_of(table, name, row) matches Ok(list) ==> (table.array(index).values
            matches ArrayValues::FixedSizeList(ListValues::Int32(lists)) && lists[row] == list),
        fixed_float64_of(table, name, row) matches Ok(list) ==> (table.array(index).values
            matches ArrayValues::FixedSizeList(ListValues::Float64(lists)) && lists[row] == list),
{
}

/// A column of the right type is never refused.
pub proof fn law_columns_of_their_type_are_read(table: TableModel, name: Seq<char>, row: int)
    requires
        column_at(table, name) is Ok,
    ensures
        ({
            let values = table.array(column_at(table, name)->Ok_0).values;
            &&& values is Int64 <==> int64_of(table, name) is Ok
            &&& values is Float64 <==> float64_of(table, name) is Ok
            &&& values is Utf8 <==> utf8_of(table, name) is Ok
            &&& values is Binary <==> binary_of(table, name) is Ok
            &&& values is Int8 || values is Int32 <==> integer_of(table, name) is Ok
            &&& values is List && values->List_0 is Float32 <==> list_float32_of(table, name, row)
                is Ok
            &&& values is List && values->List_0 is Float64 <==> list_float64_of(table, name, row)
                is Ok
            &&& values is FixedSizeList && values->FixedSizeList_0 is Int32 <==> fixed_int32_of(
                table,
                name,
                row,
            ) is Ok
            &&& values is FixedSizeList && values->FixedSizeList_0 is Float64
                <==> fixed_float64_of(table, name, row) is Ok
        }),
{
}

} // verus!
