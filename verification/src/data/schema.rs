//! Schema conformance validation (an opt-in pass, never implicit) and a
//! fluent schema builder.

use vstd::prelude::*;

use crate::data::DataError;
use crate::data::DataType;
use crate::data::Field;
use crate::data::FieldV;
use crate::data::Row;
use crate::data::Schema;
use crate::data::Value;
use crate::data::ValueV;
use crate::data::values_view;
use crate::data::entries_view;
use vstd::string::StringExecFns;

verus! {

/// Whether a value conforms to a declared type: null conforms to anything,
/// scalars to their own type, arrays and maps elementwise to their element
/// type.
pub open spec fn spec_value_conforms(v: ValueV, t: DataType) -> bool
    decreases v,
{
    match v {
        ValueV::Null => true,
        ValueV::Boolean(_) => t is Boolean,
        ValueV::Integer(_) => t is Integer,
        ValueV::Float(_) => t is Float,
        ValueV::String(_) => t is String,
        ValueV::Binary(_) => t is Binary,
        ValueV::Array(items) => match t {
            DataType::Array(et) => forall|i: int|
                0 <= i < items.len() ==> spec_value_conforms(#[trigger] items[i], *et),
            _ => false,
        },
        ValueV::Mapping(entries) => match t {
            DataType::Mapping(vt) => forall|i: int|
                0 <= i < entries.len() ==> spec_value_conforms((#[trigger] entries[i]).1, *vt),
            _ => false,
        },
    }
}

/// Whether a row conforms to a schema: same arity, no null in a non-null
/// field, every value of its field's type.
pub open spec fn spec_row_conforms(row: Seq<ValueV>, schema: Seq<FieldV>) -> bool {
    row.len() == schema.len() && (forall|i: int|
        0 <= i < row.len() ==> (schema[i].nullable || !((#[trigger] row[i]) is Null))
            && spec_value_conforms(row[i], schema[i].data_type))
}

/// Schema validator: checks values and rows against declared types.
pub struct SchemaValidator;

impl SchemaValidator {
    /// Validate a value against a data type; `Ok` exactly when the value
    /// conforms, a `ValidationError` otherwise.
    pub fn validate_value(value: &Value, data_type: &DataType) -> (r: Result<(), DataError>)
        ensures
            r is Ok <==> spec_value_conforms(value@, *data_type),
            r is Err ==> r->Err_0 is ValidationError,
        decreases *value,
    {
        match (value, data_type) {
            (Value::Null, _) => Ok(()),
            (Value::Boolean(_), DataType::Boolean) => Ok(()),
            (Value::Integer(_), DataType::Integer) => Ok(()),
            (Value::Float(_), DataType::Float) => Ok(()),
            (Value::String(_), DataType::String) => Ok(()),
            (Value::Binary(_), DataType::Binary) => Ok(()),
            (Value::Array(items), DataType::Array(elem_type)) => {
                proof {
                    crate::data::lemma_values_view(items@);
                }
                let mut i: usize = 0;
                while i < items.len()
                    invariant
                        i <= items.len(),
                        value is Array,
                        value->Array_0 == *items,
                        data_type is Array,
                        data_type->Array_0 == *elem_type,
                        forall|j: int|
                            0 <= j < i ==> spec_value_conforms(#[trigger] items@[j]@, **elem_type),
                    decreases items.len() - i,
                {
                    proof {
                        assert(decreases_to!(*value => items@[i as int]));
                    }
                    match SchemaValidator::validate_value(&items[i], elem_type) {
                        Ok(()) => {},
                        Err(e) => {
                            proof {
                                crate::data::lemma_values_view(items@);
                                assert(value@->Array_0[i as int] == items@[i as int]@);
                            }
                            return Err(e);
                        },
                    }
                    i = i + 1;
                }
                proof {
                    crate::data::lemma_values_view(items@);
                    assert forall|k: int|
                        0 <= k < values_view(items@).len() implies spec_value_conforms(
                        #[trigger] values_view(items@)[k],
                        **elem_type,
                    ) by {
                        assert(values_view(items@)[k] == items@[k]@);
                    }
                }
                Ok(())
            },
            (Value::Mapping(entries), DataType::Mapping(val_type)) => {
                proof {
                    crate::data::lemma_entries_view(entries@);
                }
                let mut i: usize = 0;
                while i < entries.len()
                    invariant
                        i <= entries.len(),
                        value is Mapping,
                        value->Mapping_0 == *entries,
                        data_type is Mapping,
                        data_type->Mapping_0 == *val_type,
                        forall|j: int|
                            0 <= j < i ==> spec_value_conforms(
                                (#[trigger] entries@[j]).1@,
                                **val_type,
                            ),
                    decreases entries.len() - i,
                {
                    proof {
                        assert(decreases_to!(*value => entries@[i as int]));
                        assert(decreases_to!(entries@[i as int] => entries@[i as int].1));
                    }
                    match SchemaValidator::validate_value(&entries[i].1, val_type) {
                        Ok(()) => {},
                        Err(e) => {
                            proof {
                                crate::data::lemma_entries_view(entries@);
                                assert(value@->Mapping_0[i as int].1 == entries@[i as int].1@);
                            }
                            return Err(e);
                        },
                    }
                    i = i + 1;
                }
                proof {
                    crate::data::lemma_entries_view(entries@);
                    assert forall|k: int|
                        0 <= k < entries_view(entries@).len() implies spec_value_conforms(
                        (#[trigger] entries_view(entries@)[k]).1,
                        **val_type,
                    ) by {
                        assert(entries_view(entries@)[k].1 == entries@[k].1@);
                    }
                }
                Ok(())
            },
            _ => Err(
                crate::data::DataError::ValidationError(
                    String::from_str("Value type mismatch"),
                ),
            ),
        }
    }

    /// Validate a row against a schema; `Ok` exactly when the row conforms
    /// (arity, nullability, types), a `ValidationError` otherwise.
    pub fn validate_row(row: &Row, schema: &Schema) -> (r: Result<(), DataError>)
        ensures
            r is Ok <==> spec_row_conforms(row@, schema@),
            r is Err ==> r->Err_0 is ValidationError,
    {
        if row.values.len() != schema.fields.len() {
            return Err(
                crate::data::DataError::ValidationError(
                    String::from_str("Row arity does not match the schema"),
                ),
            );
        }
        let mut i: usize = 0;
        while i < schema.fields.len()
            invariant
                i <= schema.fields.len(),
                row@.len() == schema@.len(),
                forall|j: int|
                    0 <= j < i ==> (schema@[j].nullable || !((#[trigger] row@[j]) is Null))
                        && spec_value_conforms(row@[j], schema@[j].data_type),
            decreases schema.fields.len() - i,
        {
            let field = &schema.fields[i];
            let value = &row.values[i];
            proof {
                assert(row@[i as int] == row.values@[i as int]@);
                assert(schema@[i as int] == schema.fields@[i as int]@);
            }
            let is_null = match value {
                Value::Null => true,
                _ => false,
            };
            if !field.nullable && is_null {
                return Err(
                    crate::data::DataError::ValidationError(
                        crate::text::concat3("Field '", field.name.as_str(), "' cannot be null"),
                    ),
                );
            }
            match SchemaValidator::validate_value(value, &field.data_type) {
                Ok(()) => {},
                Err(e) => {
                    return Err(e);
                },
            }
            i = i + 1;
        }
        Ok(())
    }
}

/// A fluent builder for schemas.
pub struct SchemaBuilder {
    pub fields: Vec<Field>,
}

impl SchemaBuilder {
    /// Create a new schema builder.
    pub fn new() -> (r: SchemaBuilder)
        ensures
            r.fields@.len() == 0,
    {
        SchemaBuilder { fields: Vec::new() }
    }

    /// Add a field.
    pub fn add_field(self, name: &str, data_type: DataType, nullable: bool) -> (r: SchemaBuilder)
        ensures
            r.fields@.len() == self.fields@.len() + 1,
            forall|i: int|
                0 <= i < self.fields@.len() ==> #[trigger] r.fields@[i] == self.fields@[i],
            r.fields@.last()@ == (FieldV { name: name@, data_type, nullable }),
    {
        let mut s = self;
        s.fields.push(Field { name: name.to_owned(), data_type, nullable });
        s
    }

    /// Add a boolean field.
    pub fn add_boolean(self, name: &str, nullable: bool) -> (r: SchemaBuilder)
        ensures
            r.fields@.len() == self.fields@.len() + 1,
            forall|i: int|
                0 <= i < self.fields@.len() ==> #[trigger] r.fields@[i] == self.fields@[i],
            r.fields@.last()@ == (FieldV { name: name@, data_type: DataType::Boolean, nullable }),
    {
        self.add_field(name, DataType::Boolean, nullable)
    }

    /// Add an integer field.
    pub fn add_integer(self, name: &str, nullable: bool) -> (r: SchemaBuilder)
        ensures
            r.fields@.len() == self.fields@.len() + 1,
            forall|i: int|
                0 <= i < self.fields@.len() ==> #[trigger] r.fields@[i] == self.fields@[i],
            r.fields@.last()@ == (FieldV { name: name@, data_type: DataType::Integer, nullable }),
    {
        self.add_field(name, DataType::Integer, nullable)
    }

    /// Add a float field.
    pub fn add_float(self, name: &str, nullable: bool) -> (r: SchemaBuilder)
        ensures
            r.fields@.len() == self.fields@.len() + 1,
            forall|i: int|
                0 <= i < self.fields@.len() ==> #[trigger] r.fields@[i] == self.fields@[i],
            r.fields@.last()@ == (FieldV { name: name@, data_type: DataType::Float, nullable }),
    {
        self.add_field(name, DataType::Float, nullable)
    }

    /// Add a string field.
    pub fn add_string(self, name: &str, nullable: bool) -> (r: SchemaBuilder)
        ensures
            r.fields@.len() == self.fields@.len() + 1,
            forall|i: int|
                0 <= i < self.fields@.len() ==> #[trigger] r.fields@[i] == self.fields@[i],
            r.fields@.last()@ == (FieldV { name: name@, data_type: DataType::String, nullable }),
    {
        self.add_field(name, DataType::String, nullable)
    }

    /// Add a binary field.
    pub fn add_binary(self, name: &str, nullable: bool) -> (r: SchemaBuilder)
        ensures
            r.fields@.len() == self.fields@.len() + 1,
            forall|i: int|
                0 <= i < self.fields@.len() ==> #[trigger] r.fields@[i] == self.fields@[i],
            r.fields@.last()@ == (FieldV { name: name@, data_type: DataType::Binary, nullable }),
    {
        self.add_field(name, DataType::Binary, nullable)
    }

    /// Add an array field with the given element type.
    pub fn add_array(self, name: &str, element_type: DataType, nullable: bool) -> (r:
        SchemaBuilder)
        ensures
            r.fields@.len() == self.fields@.len() + 1,
            forall|i: int|
                0 <= i < self.fields@.len() ==> #[trigger] r.fields@[i] == self.fields@[i],
            r.fields@.last().name@ == name@,
            r.fields@.last().data_type is Array,
            r.fields@.last().data_type->Array_0 == element_type,
            r.fields@.last().nullable == nullable,
    {
        self.add_field(name, DataType::Array(Box::new(element_type)), nullable)
    }

    /// Add a map field with the given value type.
    pub fn add_map(self, name: &str, value_type: DataType, nullable: bool) -> (r: SchemaBuilder)
        ensures
            r.fields@.len() == self.fields@.len() + 1,
            forall|i: int|
                0 <= i < self.fields@.len() ==> #[trigger] r.fields@[i] == self.fields@[i],
            r.fields@.last().name@ == name@,
            r.fields@.last().data_type is Mapping,
            r.fields@.last().data_type->Mapping_0 == value_type,
            r.fields@.last().nullable == nullable,
    {
        self.add_field(name, DataType::Mapping(Box::new(value_type)), nullable)
    }

    /// Build the schema.
    pub fn build(self) -> (r: Schema)
        ensures
            r.fields == self.fields,
    {
        Schema { fields: self.fields }
    }
}

} // verus!
