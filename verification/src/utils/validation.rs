//! Free-standing input validation helpers.

use vstd::prelude::*;

use crate::data::DataSet;
use crate::data::DataType;
use crate::data::Value;
use crate::data::float_bits::F64_ZERO_BITS;
use crate::data::float_bits::spec_float_lt_bits;
use crate::data::float_bits::float_lt_bits;
use crate::data::spec_col_index;
use crate::data::lemma_col_index;
use crate::text::concat3;

verus! {

/// Structural equality of two data types.
pub open spec fn spec_dt_eq(a: DataType, b: DataType) -> bool
    decreases a,
{
    match (a, b) {
        (DataType::Boolean, DataType::Boolean) => true,
        (DataType::Integer, DataType::Integer) => true,
        (DataType::Float, DataType::Float) => true,
        (DataType::String, DataType::String) => true,
        (DataType::Binary, DataType::Binary) => true,
        (DataType::Array(x), DataType::Array(y)) => spec_dt_eq(*x, *y),
        (DataType::Mapping(x), DataType::Mapping(y)) => spec_dt_eq(*x, *y),
        _ => false,
    }
}

/// Structural equality of two data types; agrees with [`spec_dt_eq`].
pub fn dt_eq(a: &DataType, b: &DataType) -> (r: bool)
    ensures
        r == spec_dt_eq(*a, *b),
    decreases *a,
{
    match (a, b) {
        (DataType::Boolean, DataType::Boolean) => true,
        (DataType::Integer, DataType::Integer) => true,
        (DataType::Float, DataType::Float) => true,
        (DataType::String, DataType::String) => true,
        (DataType::Binary, DataType::Binary) => true,
        (DataType::Array(x), DataType::Array(y)) => dt_eq(x, y),
        (DataType::Mapping(x), DataType::Mapping(y)) => dt_eq(x, y),
        _ => false,
    }
}

/// Validate that a dataset has the expected columns with the expected
/// types; `Ok` exactly when every named column resolves (first match) and
/// its declared type matches structurally.
pub fn validate_schema(dataset: &DataSet, expected_columns: &Vec<(String, DataType)>) -> (r:
    Result<(), String>)
    ensures
        r is Ok <==> (forall|k: int|
            0 <= k < expected_columns@.len() ==> {
                let c = spec_col_index(dataset@.schema, (#[trigger] expected_columns@[k]).0@);
                c >= 0 && spec_dt_eq(dataset@.schema[c].data_type, expected_columns@[k].1)
            }),
{
    let mut k: usize = 0;
    while k < expected_columns.len()
        invariant
            k <= expected_columns@.len(),
            forall|j: int|
                0 <= j < k ==> {
                    let c = spec_col_index(dataset@.schema, (#[trigger] expected_columns@[j]).0@);
                    c >= 0 && spec_dt_eq(dataset@.schema[c].data_type, expected_columns@[j].1)
                },
        decreases expected_columns.len() - k,
    {
        let entry = &expected_columns[k];
        match dataset.schema.col_index(entry.0.as_str()) {
            Some(i) => {
                proof {
                    lemma_col_index(dataset@.schema, entry.0@);
                }
                if !dt_eq(&dataset.schema.fields[i].data_type, &entry.1) {
                    proof {
                        assert(dataset@.schema[i as int]
                            == dataset.schema.fields@[i as int]@);
                    }
                    return Err(
                        concat3("Column '", entry.0.as_str(), "' has an unexpected type"),
                    );
                }
                proof {
                    assert(dataset@.schema[i as int] == dataset.schema.fields@[i as int]@);
                }
            },
            None => {
                return Err(concat3("Column '", entry.0.as_str(), "' not found"));
            },
        }
        k = k + 1;
    }
    Ok(())
}

/// Validate that a value is not null.
pub fn validate_not_null(value: &Value, name: &str) -> (r: Result<(), String>)
    ensures
        r is Ok <==> !(value@ is Null),
{
    match value {
        Value::Null => Err(concat3("'", name, "' cannot be null")),
        _ => Ok(()),
    }
}

/// Validate that a value is a non-empty string.
pub fn validate_not_empty(value: &Value, name: &str) -> (r: Result<(), String>)
    ensures
        r is Ok <==> (value@ is String && value@->String_0.len() > 0),
{
    match value {
        Value::String(s) => {
            if s.as_str().is_empty() {
                Err(concat3("'", name, "' cannot be empty"))
            } else {
                Ok(())
            }
        },
        _ => Err(concat3("'", name, "' must be a string")),
    }
}

/// Validate that a value is a positive number: an integer above zero, or a
/// float the IEEE order places strictly above positive zero.
pub fn validate_positive(value: &Value, name: &str) -> (r: Result<(), String>)
    ensures
        r is Ok <==> ((value@ is Integer && value@->Integer_0 > 0) || (value@ is Float
            && spec_float_lt_bits(F64_ZERO_BITS, value@->Float_0))),
{
    match value {
        Value::Integer(i) => {
            if *i > 0 {
                Ok(())
            } else {
                Err(concat3("'", name, "' must be positive"))
            }
        },
        Value::Float(bits) => {
            if float_lt_bits(F64_ZERO_BITS, *bits) {
                Ok(())
            } else {
                Err(concat3("'", name, "' must be positive"))
            }
        },
        _ => Err(concat3("'", name, "' must be a number")),
    }
}

/// Validate that a number lies in a closed range.
pub fn validate_range(value: i64, min: i64, max: i64, name: &str) -> (r: Result<(), String>)
    ensures
        r is Ok <==> min <= value <= max,
{
    if value < min || value > max {
        Err(concat3("'", name, "' is out of range"))
    } else {
        Ok(())
    }
}

} // verus!
