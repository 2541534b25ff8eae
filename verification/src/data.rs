//! The value / row / schema / dataset data model.
//!
//! A dataset couples an ordered schema with rows of values; the arity
//! invariant (`DataSet::wf`) says that every row has exactly one value per
//! schema field.  Floating-point cells are carried as IEEE 754 binary64 bit
//! patterns (`Value::Float` holds the raw bits), so that grouping, joining
//! and comparison are exact bit-level or value-level operations.
//!
//! Every container has a mathematical view: a `Value` abstracts to the pure
//! [`ValueV`], a `Row` to a sequence of `ValueV`, a `Schema` to a sequence of
//! [`FieldV`], and a `DataSet` to [`DataSetV`].  All contracts in the crate
//! are stated over these views.

use vstd::prelude::*;

pub mod float_bits;
pub mod schema;

use float_bits::float_eq_bits;
use float_bits::float_cmp_bits;
use float_bits::spec_float_eq_bits;
use float_bits::spec_float_cmp_bits;
use vstd::string::StrSliceExecFns;

verus! {

/// The declared type of a column.  Mirrors `Value` without payloads.
#[derive(Debug)]
pub enum DataType {
    Boolean,
    Integer,
    Float,
    String,
    Binary,
    Array(Box<DataType>),
    Mapping(Box<DataType>),
}

/// A single cell.  `Float` holds the IEEE 754 binary64 bit pattern of the
/// number; `Mapping` holds entries in insertion order, looked up first-match.
#[derive(Debug)]
pub enum Value {
    Null,
    Boolean(bool),
    Integer(i64),
    Float(u64),
    String(String),
    Binary(Vec<u8>),
    Array(Vec<Value>),
    Mapping(Vec<(String, Value)>),
}

/// The mathematical abstraction of a [`Value`]: strings are character
/// sequences, binaries byte sequences, containers sequences of abstractions.
pub enum ValueV {
    Null,
    Boolean(bool),
    Integer(i64),
    Float(u64),
    String(Seq<char>),
    Binary(Seq<u8>),
    Array(Seq<ValueV>),
    Mapping(Seq<(Seq<char>, ValueV)>),
}

/// The abstraction function from a [`Value`] to its view.
pub open spec fn value_view(v: Value) -> ValueV
    decreases v,
    via value_view_decreases
{
    match v {
        Value::Null => ValueV::Null,
        Value::Boolean(b) => ValueV::Boolean(b),
        Value::Integer(i) => ValueV::Integer(i),
        Value::Float(bits) => ValueV::Float(bits),
        Value::String(s) => ValueV::String(s@),
        Value::Binary(bytes) => ValueV::Binary(bytes@),
        Value::Array(items) => ValueV::Array(values_view(items@)),
        Value::Mapping(entries) => ValueV::Mapping(entries_view(entries@)),
    }
}

/// The views of a sequence of values, elementwise.
pub open spec fn values_view(items: Seq<Value>) -> Seq<ValueV>
    decreases items,
    via values_view_decreases
{
    if items.len() == 0 {
        Seq::empty()
    } else {
        values_view(items.drop_last()).push(value_view(items.last()))
    }
}

/// The views of a sequence of map entries, elementwise.
pub open spec fn entries_view(entries: Seq<(String, Value)>) -> Seq<(Seq<char>, ValueV)>
    decreases entries,
    via entries_view_decreases
{
    if entries.len() == 0 {
        Seq::empty()
    } else {
        entries_view(entries.drop_last()).push(
            (entries.last().0@, value_view(entries.last().1)),
        )
    }
}

#[via_fn]
proof fn value_view_decreases(v: Value) {
    broadcast use vstd::std_specs::vec::group_vec_axioms;

    match v {
        Value::Array(items) => {
            assert(decreases_to!(v => items));
            assert(decreases_to!(items => items@));
        },
        Value::Mapping(entries) => {
            assert(decreases_to!(v => entries));
            assert(decreases_to!(entries => entries@));
        },
        _ => {},
    }
}

#[via_fn]
proof fn values_view_decreases(items: Seq<Value>) {
    if items.len() > 0 {
        assert(decreases_to!(items => items.last()));
        assert(decreases_to!(items => items.drop_last()));
    }
}

#[via_fn]
proof fn entries_view_decreases(entries: Seq<(String, Value)>) {
    if entries.len() > 0 {
        assert(decreases_to!(entries => entries.last()));
        assert(decreases_to!(entries.last() => entries.last().1));
        assert(decreases_to!(entries => entries.drop_last()));
    }
}

/// `values_view` maps elementwise: same length, each element the view of the
/// corresponding value.
pub proof fn lemma_values_view(items: Seq<Value>)
    ensures
        values_view(items).len() == items.len(),
        forall|i: int| 0 <= i < items.len() ==> values_view(items)[i] == value_view(#[trigger] items[i]),
    decreases items.len(),
{
    if items.len() > 0 {
        lemma_values_view(items.drop_last());
        assert forall|i: int|
            0 <= i < items.len() implies values_view(items)[i] == value_view(items[i]) by {
            if i < items.len() - 1 {
                assert(items.drop_last()[i] == items[i]);
            } else {
                assert(items.last() == items[i]);
            }
        }
    }
}

/// `entries_view` maps elementwise.
pub proof fn lemma_entries_view(entries: Seq<(String, Value)>)
    ensures
        entries_view(entries).len() == entries.len(),
        forall|i: int|
            0 <= i < entries.len() ==> entries_view(entries)[i] == (
                (#[trigger] entries[i]).0@,
                value_view(entries[i].1),
            ),
    decreases entries.len(),
{
    if entries.len() > 0 {
        lemma_entries_view(entries.drop_last());
        assert forall|i: int|
            0 <= i < entries.len() implies entries_view(entries)[i] == (
                entries[i].0@,
                value_view(entries[i].1),
            ) by {
            if i < entries.len() - 1 {
                assert(entries.drop_last()[i] == entries[i]);
            } else {
                assert(entries.last() == entries[i]);
            }
        }
    }
}

impl View for Value {
    type V = ValueV;

    open spec fn view(&self) -> ValueV {
        value_view(*self)
    }
}

impl DeepView for Value {
    type V = ValueV;

    open spec fn deep_view(&self) -> ValueV {
        self.view()
    }
}

/// One column declaration: name, type, and whether nulls are allowed.
#[derive(Debug)]
pub struct Field {
    pub name: String,
    pub data_type: DataType,
    pub nullable: bool,
}

/// The mathematical abstraction of a [`Field`].
pub struct FieldV {
    pub name: Seq<char>,
    pub data_type: DataType,
    pub nullable: bool,
}

impl View for Field {
    type V = FieldV;

    open spec fn view(&self) -> FieldV {
        FieldV { name: self.name@, data_type: self.data_type, nullable: self.nullable }
    }
}

/// An ordered sequence of fields; position defines the column index.
#[derive(Debug)]
pub struct Schema {
    pub fields: Vec<Field>,
}

impl View for Schema {
    type V = Seq<FieldV>;

    open spec fn view(&self) -> Seq<FieldV> {
        Seq::new(self.fields@.len(), |i: int| self.fields@[i]@)
    }
}

/// An ordered sequence of values, one per schema field.
#[derive(Debug)]
pub struct Row {
    pub values: Vec<Value>,
}

impl View for Row {
    type V = Seq<ValueV>;

    open spec fn view(&self) -> Seq<ValueV> {
        Seq::new(self.values@.len(), |i: int| self.values@[i]@)
    }
}

/// Free-form provenance properties, with unique keys in insertion order.
#[derive(Debug)]
pub struct Metadata {
    pub properties: Vec<(String, String)>,
}

impl View for Metadata {
    type V = Seq<(Seq<char>, Seq<char>)>;

    open spec fn view(&self) -> Seq<(Seq<char>, Seq<char>)> {
        Seq::new(self.properties@.len(), |i: int| (self.properties@[i].0@, self.properties@[i].1@))
    }
}

/// A schema, the rows that conform to it, and provenance metadata.
#[derive(Debug)]
pub struct DataSet {
    pub schema: Schema,
    pub data: Vec<Row>,
    pub metadata: Metadata,
}

/// The mathematical abstraction of a [`DataSet`].
pub struct DataSetV {
    pub schema: Seq<FieldV>,
    pub data: Seq<Seq<ValueV>>,
    pub metadata: Seq<(Seq<char>, Seq<char>)>,
}

impl View for DataSet {
    type V = DataSetV;

    open spec fn view(&self) -> DataSetV {
        DataSetV {
            schema: self.schema@,
            data: Seq::new(self.data@.len(), |i: int| self.data@[i]@),
            metadata: self.metadata@,
        }
    }
}

/// An error raised by the data model or a codec.
#[derive(Debug)]
pub enum DataError {
    IoError(String),
    ParseError(String),
    SchemaMismatch,
    ValidationError(String),
    NotSupported(String),
    Other(String),
}

/// Where a data source reads from.
#[derive(Debug, PartialEq, Eq, Structural, Clone)]
pub enum SourceType {
    File,
    Database,
    Stream,
    API,
    Custom(u32),
}

/// Where a data sink writes to.
#[derive(Debug, PartialEq, Eq, Structural, Clone)]
pub enum SinkType {
    File,
    Database,
    Stream,
    API,
    Custom(u32),
}

/// Three-way comparison result used by value ordering.
#[derive(Debug, PartialEq, Eq, Structural, Clone, Copy)]
pub enum ValueOrdering {
    Less,
    Equal,
    Greater,
}

/// The text a data-model error renders as.
pub open spec fn spec_data_error_message(e: DataError) -> Seq<char> {
    match e {
        DataError::IoError(m) => "IO error: "@ + m@,
        DataError::ParseError(m) => "Parse error: "@ + m@,
        DataError::SchemaMismatch => "Schema mismatch"@,
        DataError::ValidationError(m) => "Validation error: "@ + m@,
        DataError::NotSupported(m) => "Not supported: "@ + m@,
        DataError::Other(m) => "Error: "@ + m@,
    }
}

impl DataError {
    /// The error rendered as text.
    pub fn message(&self) -> (r: String)
        ensures
            r@ == spec_data_error_message(*self),
    {
        match self {
            DataError::IoError(m) => crate::text::concat2("IO error: ", m.as_str()),
            DataError::ParseError(m) => crate::text::concat2("Parse error: ", m.as_str()),
            DataError::SchemaMismatch => "Schema mismatch".to_owned(),
            DataError::ValidationError(m) => crate::text::concat2(
                "Validation error: ",
                m.as_str(),
            ),
            DataError::NotSupported(m) => crate::text::concat2("Not supported: ", m.as_str()),
            DataError::Other(m) => crate::text::concat2("Error: ", m.as_str()),
        }
    }
}

// ---------------------------------------------------------------------------
// Structural value equality
// ---------------------------------------------------------------------------

/// Structural equality of two values: same variant with equal payloads,
/// floats by IEEE 754 equality of their bit patterns, arrays element by
/// element, maps entry by entry in order.  Values of different variants are
/// never equal.
pub open spec fn spec_value_eq(a: ValueV, b: ValueV) -> bool
    decreases a,
{
    match (a, b) {
        (ValueV::Null, ValueV::Null) => true,
        (ValueV::Boolean(x), ValueV::Boolean(y)) => x == y,
        (ValueV::Integer(x), ValueV::Integer(y)) => x == y,
        (ValueV::Float(x), ValueV::Float(y)) => spec_float_eq_bits(x, y),
        (ValueV::String(x), ValueV::String(y)) => x == y,
        (ValueV::Binary(x), ValueV::Binary(y)) => x == y,
        (ValueV::Array(x), ValueV::Array(y)) => x.len() == y.len() && (forall|i: int|
            0 <= i < x.len() ==> spec_value_eq(#[trigger] x[i], y[i])),
        (ValueV::Mapping(x), ValueV::Mapping(y)) => x.len() == y.len() && (forall|i: int|
            0 <= i < x.len() ==> (#[trigger] x[i]).0 == y[i].0 && spec_value_eq(x[i].1, y[i].1)),
        _ => false,
    }
}

/// Structural equality, executable form; agrees with [`spec_value_eq`] on
/// the views.
pub fn value_eq(a: &Value, b: &Value) -> (r: bool)
    ensures
        r == spec_value_eq(a@, b@),
    decreases *a,
{
    match (a, b) {
        (Value::Null, Value::Null) => true,
        (Value::Boolean(x), Value::Boolean(y)) => *x == *y,
        (Value::Integer(x), Value::Integer(y)) => *x == *y,
        (Value::Float(x), Value::Float(y)) => float_eq_bits(*x, *y),
        (Value::String(x), Value::String(y)) => x.eq(y),
        (Value::Binary(x), Value::Binary(y)) => bytes_eq(x, y),
        (Value::Array(x), Value::Array(y)) => {
            proof {
                lemma_values_view(x@);
                lemma_values_view(y@);
            }
            if x.len() != y.len() {
                return false;
            }
            let mut i: usize = 0;
            while i < x.len()
                invariant
                    i <= x.len(),
                    x.len() == y.len(),
                    a is Array,
                    a->Array_0 == *x,
                    b is Array,
                    b->Array_0 == *y,
                    forall|j: int| 0 <= j < i ==> spec_value_eq(#[trigger] x@[j]@, y@[j]@),
                decreases x.len() - i,
            {
                proof {
                    lemma_values_view(x@);
                    lemma_values_view(y@);
                    assert(decreases_to!(*a => x@[i as int]));
                }
                if !value_eq(&x[i], &y[i]) {
                    return false;
                }
                i = i + 1;
            }
            proof {
                lemma_values_view(x@);
                lemma_values_view(y@);
                assert forall|k: int|
                    0 <= k < values_view(x@).len() implies spec_value_eq(
                    #[trigger] values_view(x@)[k],
                    values_view(y@)[k],
                ) by {
                    assert(spec_value_eq(x@[k]@, y@[k]@));
                }
                assert(spec_value_eq(a@, b@));
            }
            true
        },
        (Value::Mapping(x), Value::Mapping(y)) => {
            proof {
                lemma_entries_view(x@);
                lemma_entries_view(y@);
            }
            if x.len() != y.len() {
                return false;
            }
            let mut i: usize = 0;
            while i < x.len()
                invariant
                    i <= x.len(),
                    x.len() == y.len(),
                    a is Mapping,
                    a->Mapping_0 == *x,
                    b is Mapping,
                    b->Mapping_0 == *y,
                    forall|j: int|
                        0 <= j < i ==> (#[trigger] x@[j]).0@ == y@[j].0@ && spec_value_eq(
                            x@[j].1@,
                            y@[j].1@,
                        ),
                decreases x.len() - i,
            {
                proof {
                    lemma_entries_view(x@);
                    lemma_entries_view(y@);
                    assert(decreases_to!(*a => x@[i as int]));
                    assert(decreases_to!(x@[i as int] => x@[i as int].1));
                }
                let xe = &x[i];
                let ye = &y[i];
                if !(xe.0.eq(&ye.0)) {
                    return false;
                }
                if !value_eq(&xe.1, &ye.1) {
                    return false;
                }
                i = i + 1;
            }
            proof {
                lemma_entries_view(x@);
                lemma_entries_view(y@);
                assert forall|k: int|
                    0 <= k < entries_view(x@).len() implies (#[trigger] entries_view(x@)[k]).0
                    == entries_view(y@)[k].0 && spec_value_eq(
                    entries_view(x@)[k].1,
                    entries_view(y@)[k].1,
                ) by {
                    assert(x@[k].0@ == y@[k].0@ && spec_value_eq(x@[k].1@, y@[k].1@));
                }
                assert(spec_value_eq(a@, b@));
            }
            true
        },
        _ => false,
    }
}

/// Byte-vector equality by contents.
pub fn bytes_eq(x: &Vec<u8>, y: &Vec<u8>) -> (r: bool)
    ensures
        r == (x@ == y@),
{
    if x.len() != y.len() {
        assert(x@ != y@);
        return false;
    }
    let mut i: usize = 0;
    while i < x.len()
        invariant
            i <= x.len(),
            x.len() == y.len(),
            forall|j: int| 0 <= j < i ==> x@[j] == y@[j],
        decreases x.len() - i,
    {
        if x[i] != y[i] {
            return false;
        }
        i = i + 1;
    }
    proof {
        assert(x@ =~= y@);
    }
    true
}


// ---------------------------------------------------------------------------
// Value ordering
// ---------------------------------------------------------------------------

/// Lexicographic three-way comparison of two character sequences, by code
/// point.  This is the order `str` comparison uses.
pub open spec fn spec_lex_cmp_chars(a: Seq<char>, b: Seq<char>) -> ValueOrdering
    decreases a.len(),
{
    if a.len() == 0 && b.len() == 0 {
        ValueOrdering::Equal
    } else if a.len() == 0 {
        ValueOrdering::Less
    } else if b.len() == 0 {
        ValueOrdering::Greater
    } else if a[0] < b[0] {
        ValueOrdering::Less
    } else if b[0] < a[0] {
        ValueOrdering::Greater
    } else {
        spec_lex_cmp_chars(a.drop_first(), b.drop_first())
    }
}

/// Lexicographic comparison of two strings; agrees with
/// [`spec_lex_cmp_chars`] on the character sequences.
pub fn str_cmp(x: &str, y: &str) -> (r: ValueOrdering)
    ensures
        r == spec_lex_cmp_chars(x@, y@),
{
    let xn = x.unicode_len();
    let yn = y.unicode_len();
    proof {
        assert(x@.subrange(0, xn as int) =~= x@);
        assert(y@.subrange(0, yn as int) =~= y@);
    }
    let mut i: usize = 0;
    loop
        invariant
            i <= xn,
            i <= yn,
            xn == x@.len(),
            yn == y@.len(),
            spec_lex_cmp_chars(x@, y@) == spec_lex_cmp_chars(
                x@.subrange(i as int, xn as int),
                y@.subrange(i as int, yn as int),
            ),
        decreases xn - i,
    {
        let ghost xs = x@.subrange(i as int, xn as int);
        let ghost ys = y@.subrange(i as int, yn as int);
        if i == xn && i == yn {
            return ValueOrdering::Equal;
        }
        if i == xn {
            return ValueOrdering::Less;
        }
        if i == yn {
            return ValueOrdering::Greater;
        }
        let cx = x.get_char(i);
        let cy = y.get_char(i);
        proof {
            assert(xs[0] == x@[i as int]);
            assert(ys[0] == y@[i as int]);
        }
        if cx < cy {
            return ValueOrdering::Less;
        }
        if cy < cx {
            return ValueOrdering::Greater;
        }
        proof {
            assert(xs.drop_first() =~= x@.subrange(i + 1, xn as int));
            assert(ys.drop_first() =~= y@.subrange(i + 1, yn as int));
        }
        i = i + 1;
    }
}

/// Three-way ordering of two values, as the window and filter operators use
/// it: null sorts before everything, booleans, integers, floats and strings
/// order by their payloads, and any other pairing is treated as equal.
pub open spec fn spec_value_cmp(a: ValueV, b: ValueV) -> ValueOrdering {
    match (a, b) {
        (ValueV::Null, ValueV::Null) => ValueOrdering::Equal,
        (ValueV::Null, _) => ValueOrdering::Less,
        (_, ValueV::Null) => ValueOrdering::Greater,
        (ValueV::Boolean(x), ValueV::Boolean(y)) => if x == y {
            ValueOrdering::Equal
        } else if !x {
            ValueOrdering::Less
        } else {
            ValueOrdering::Greater
        },
        (ValueV::Integer(x), ValueV::Integer(y)) => if x < y {
            ValueOrdering::Less
        } else if x == y {
            ValueOrdering::Equal
        } else {
            ValueOrdering::Greater
        },
        (ValueV::Float(x), ValueV::Float(y)) => spec_float_cmp_bits(x, y),
        (ValueV::String(x), ValueV::String(y)) => spec_lex_cmp_chars(x, y),
        _ => ValueOrdering::Equal,
    }
}

/// Three-way ordering of two values; agrees with [`spec_value_cmp`].
pub fn value_cmp(a: &Value, b: &Value) -> (r: ValueOrdering)
    ensures
        r == spec_value_cmp(a@, b@),
{
    match (a, b) {
        (Value::Null, Value::Null) => ValueOrdering::Equal,
        (Value::Null, _) => ValueOrdering::Less,
        (_, Value::Null) => ValueOrdering::Greater,
        (Value::Boolean(x), Value::Boolean(y)) => {
            if *x == *y {
                ValueOrdering::Equal
            } else if !*x {
                ValueOrdering::Less
            } else {
                ValueOrdering::Greater
            }
        },
        (Value::Integer(x), Value::Integer(y)) => {
            if *x < *y {
                ValueOrdering::Less
            } else if *x == *y {
                ValueOrdering::Equal
            } else {
                ValueOrdering::Greater
            }
        },
        (Value::Float(x), Value::Float(y)) => float_cmp_bits(*x, *y),
        (Value::String(x), Value::String(y)) => str_cmp(x.as_str(), y.as_str()),
        _ => ValueOrdering::Equal,
    }
}

// ---------------------------------------------------------------------------
// Clone implementations with view-preserving contracts
// ---------------------------------------------------------------------------

impl Clone for DataType {
    /// A clone is equal to the original.
    fn clone(&self) -> (res: Self)
        ensures
            res == *self,
        decreases self,
    {
        match self {
            DataType::Boolean => DataType::Boolean,
            DataType::Integer => DataType::Integer,
            DataType::Float => DataType::Float,
            DataType::String => DataType::String,
            DataType::Binary => DataType::Binary,
            DataType::Array(t) => DataType::Array(Box::new((**t).clone())),
            DataType::Mapping(t) => DataType::Mapping(Box::new((**t).clone())),
        }
    }
}

impl Clone for Value {
    /// A clone has the same view as the original.
    fn clone(&self) -> (res: Self)
        ensures
            res@ == self@,
        decreases self,
    {
        match self {
            Value::Null => Value::Null,
            Value::Boolean(b) => Value::Boolean(*b),
            Value::Integer(i) => Value::Integer(*i),
            Value::Float(bits) => Value::Float(*bits),
            Value::String(s) => Value::String(s.clone()),
            Value::Binary(bytes) => Value::Binary(bytes.clone()),
            Value::Array(items) => {
                let mut out: Vec<Value> = Vec::new();
                let mut i: usize = 0;
                while i < items.len()
                    invariant
                        i <= items.len(),
                        self is Array,
                        self->Array_0 == *items,
                        out@.len() == i,
                        forall|j: int| 0 <= j < i ==> (#[trigger] out@[j])@ == items@[j]@,
                    decreases items.len() - i,
                {
                    proof {
                        assert(decreases_to!(*self => items@[i as int]));
                    }
                    out.push(items[i].clone());
                    i = i + 1;
                }
                proof {
                    lemma_values_view(out@);
                    lemma_values_view(items@);
                    assert forall|k: int|
                        0 <= k < values_view(out@).len() implies values_view(out@)[k]
                        == values_view(items@)[k] by {
                        assert(out@[k]@ == items@[k]@);
                    }
                    assert(values_view(out@) =~= values_view(items@));
                }
                Value::Array(out)
            },
            Value::Mapping(entries) => {
                let mut out: Vec<(String, Value)> = Vec::new();
                let mut i: usize = 0;
                while i < entries.len()
                    invariant
                        i <= entries.len(),
                        self is Mapping,
                        self->Mapping_0 == *entries,
                        out@.len() == i,
                        forall|j: int|
                            0 <= j < i ==> (#[trigger] out@[j]).0@ == entries@[j].0@ && out@[j].1@
                                == entries@[j].1@,
                    decreases entries.len() - i,
                {
                    proof {
                        assert(decreases_to!(*self => entries@[i as int]));
                        assert(decreases_to!(entries@[i as int] => entries@[i as int].1));
                    }
                    let e = &entries[i];
                    out.push((e.0.clone(), e.1.clone()));
                    i = i + 1;
                }
                proof {
                    lemma_entries_view(out@);
                    lemma_entries_view(entries@);
                    assert forall|k: int|
                        0 <= k < entries_view(out@).len() implies entries_view(out@)[k]
                        == entries_view(entries@)[k] by {
                        assert(out@[k].0@ == entries@[k].0@);
                        assert(out@[k].1@ == entries@[k].1@);
                    }
                    assert(entries_view(out@) =~= entries_view(entries@));
                }
                Value::Mapping(out)
            },
        }
    }
}

/// Clones a vector of values; the views match elementwise.
pub fn clone_values(values: &Vec<Value>) -> (res: Vec<Value>)
    ensures
        res@.len() == values@.len(),
        forall|i: int| 0 <= i < values@.len() ==> (#[trigger] res@[i])@ == values@[i]@,
{
    let mut out: Vec<Value> = Vec::new();
    let mut i: usize = 0;
    while i < values.len()
        invariant
            i <= values.len(),
            out@.len() == i,
            forall|j: int| 0 <= j < i ==> (#[trigger] out@[j])@ == values@[j]@,
        decreases values.len() - i,
    {
        out.push(values[i].clone());
        i = i + 1;
    }
    out
}

impl Clone for Field {
    /// A clone has the same view as the original.
    fn clone(&self) -> (res: Self)
        ensures
            res@ == self@,
    {
        Field { name: self.name.clone(), data_type: self.data_type.clone(), nullable: self.nullable }
    }
}

impl Clone for Schema {
    /// A clone has the same view as the original.
    fn clone(&self) -> (res: Self)
        ensures
            res@ == self@,
    {
        let mut fields: Vec<Field> = Vec::new();
        let mut i: usize = 0;
        while i < self.fields.len()
            invariant
                i <= self.fields.len(),
                fields@.len() == i,
                forall|j: int| 0 <= j < i ==> (#[trigger] fields@[j])@ == self.fields@[j]@,
            decreases self.fields.len() - i,
        {
            fields.push(self.fields[i].clone());
            i = i + 1;
        }
        let res = Schema { fields };
        proof {
            assert(res@ =~= self@);
        }
        res
    }
}

impl Clone for Row {
    /// A clone has the same view as the original.
    fn clone(&self) -> (res: Self)
        ensures
            res@ == self@,
    {
        let res = Row { values: clone_values(&self.values) };
        proof {
            assert(res@ =~= self@);
        }
        res
    }
}

impl Clone for Metadata {
    /// A clone has the same view as the original.
    fn clone(&self) -> (res: Self)
        ensures
            res@ == self@,
    {
        let mut properties: Vec<(String, String)> = Vec::new();
        let mut i: usize = 0;
        while i < self.properties.len()
            invariant
                i <= self.properties.len(),
                properties@.len() == i,
                forall|j: int|
                    0 <= j < i ==> (#[trigger] properties@[j]).0@ == self.properties@[j].0@
                        && properties@[j].1@ == self.properties@[j].1@,
            decreases self.properties.len() - i,
        {
            let e = &self.properties[i];
            properties.push((e.0.clone(), e.1.clone()));
            i = i + 1;
        }
        let res = Metadata { properties };
        proof {
            assert(res@ =~= self@);
        }
        res
    }
}

impl Clone for DataSet {
    /// A clone has the same view as the original.
    fn clone(&self) -> (res: Self)
        ensures
            res@ == self@,
    {
        let mut data: Vec<Row> = Vec::new();
        let mut i: usize = 0;
        while i < self.data.len()
            invariant
                i <= self.data.len(),
                data@.len() == i,
                forall|j: int| 0 <= j < i ==> (#[trigger] data@[j])@ == self.data@[j]@,
            decreases self.data.len() - i,
        {
            data.push(self.data[i].clone());
            i = i + 1;
        }
        let res = DataSet { schema: self.schema.clone(), data, metadata: self.metadata.clone() };
        proof {
            assert(res@.data =~= self@.data);
        }
        res
    }
}

// ---------------------------------------------------------------------------
// Equality operator for values
// ---------------------------------------------------------------------------

impl PartialEq for Value {
    /// `==` on values is structural equality of the views.
    fn eq(&self, other: &Self) -> (r: bool) {
        value_eq(self, other)
    }
}

impl vstd::std_specs::cmp::PartialEqSpecImpl for Value {
    open spec fn obeys_eq_spec() -> bool {
        true
    }

    open spec fn eq_spec(&self, other: &Self) -> bool {
        spec_value_eq(self@, other@)
    }
}

// ---------------------------------------------------------------------------
// First-match column resolution
// ---------------------------------------------------------------------------

/// The index of the first field named `name`, or -1 when there is none.
/// Operators resolve column names with these first-match semantics.
pub open spec fn spec_col_index(fields: Seq<FieldV>, name: Seq<char>) -> int
    decreases fields.len(),
{
    if fields.len() == 0 {
        -1
    } else if fields[0].name == name {
        0
    } else {
        let rest = spec_col_index(fields.drop_first(), name);
        if rest < 0 {
            -1
        } else {
            rest + 1
        }
    }
}

/// What [`spec_col_index`] returns: -1 when no field matches, otherwise the
/// first matching index.
pub proof fn lemma_col_index(fields: Seq<FieldV>, name: Seq<char>)
    ensures
        -1 <= spec_col_index(fields, name) < fields.len(),
        spec_col_index(fields, name) >= 0 ==> (#[trigger] fields[spec_col_index(fields, name)]).name
            == name,
        spec_col_index(fields, name) >= 0 ==> (forall|j: int|
            0 <= j < spec_col_index(fields, name) ==> (#[trigger] fields[j]).name != name),
        spec_col_index(fields, name) == -1 ==> (forall|j: int|
            0 <= j < fields.len() ==> (#[trigger] fields[j]).name != name),
    decreases fields.len(),
{
    if fields.len() > 0 && fields[0].name != name {
        lemma_col_index(fields.drop_first(), name);
        assert forall|j: int|
            1 <= j < fields.len() implies fields[j] == fields.drop_first()[j - 1] by {}
    }
}

/// A first match at `i` determines [`spec_col_index`].
pub proof fn lemma_col_index_is(fields: Seq<FieldV>, name: Seq<char>, i: int)
    requires
        0 <= i < fields.len(),
        fields[i].name == name,
        forall|j: int| 0 <= j < i ==> (#[trigger] fields[j]).name != name,
    ensures
        spec_col_index(fields, name) == i,
    decreases fields.len(),
{
    if i > 0 {
        assert forall|j: int|
            0 <= j < i - 1 implies (#[trigger] fields.drop_first()[j]).name != name by {
            assert(fields.drop_first()[j] == fields[j + 1]);
        }
        assert(fields.drop_first()[i - 1] == fields[i]);
        lemma_col_index_is(fields.drop_first(), name, i - 1);
    }
}

/// No match anywhere determines [`spec_col_index`] to be -1.
pub proof fn lemma_col_index_none(fields: Seq<FieldV>, name: Seq<char>)
    requires
        forall|j: int| 0 <= j < fields.len() ==> (#[trigger] fields[j]).name != name,
    ensures
        spec_col_index(fields, name) == -1,
    decreases fields.len(),
{
    if fields.len() > 0 {
        assert forall|j: int|
            0 <= j < fields.drop_first().len() implies (#[trigger] fields.drop_first()[j]).name
            != name by {
            assert(fields.drop_first()[j] == fields[j + 1]);
        }
        lemma_col_index_none(fields.drop_first(), name);
    }
}

impl Schema {
    /// Create a new schema with the given fields.
    pub fn new(fields: Vec<Field>) -> (r: Schema)
        ensures
            r@.len() == fields@.len(),
            forall|i: int| 0 <= i < fields@.len() ==> r@[i] == (#[trigger] fields@[i])@,
    {
        Schema { fields }
    }

    /// The index of the first field with this name, if any.
    pub fn col_index(&self, name: &str) -> (r: Option<usize>)
        ensures
            match r {
                Some(i) => spec_col_index(self@, name@) == i as int,
                None => spec_col_index(self@, name@) == -1,
            },
    {
        let mut i: usize = 0;
        while i < self.fields.len()
            invariant
                i <= self.fields.len(),
                forall|j: int| 0 <= j < i ==> (#[trigger] self@[j]).name != name@,
            decreases self.fields.len() - i,
        {
            if str_eq(self.fields[i].name.as_str(), name) {
                proof {
                    assert(self@[i as int].name == name@);
                    lemma_col_index_is(self@, name@, i as int);
                }
                return Some(i);
            }
            proof {
                assert(self@[i as int].name != name@);
            }
            i = i + 1;
        }
        proof {
            lemma_col_index_none(self@, name@);
        }
        None
    }

    /// Get a reference to the first field with this name.
    pub fn get_field_by_name(&self, name: &str) -> (r: Option<&Field>)
        ensures
            match r {
                Some(f) => spec_col_index(self@, name@) >= 0 && f@ == self@[spec_col_index(
                    self@,
                    name@,
                )],
                None => spec_col_index(self@, name@) == -1,
            },
    {
        match self.col_index(name) {
            Some(i) => {
                proof {
                    lemma_col_index(self@, name@);
                }
                Some(&self.fields[i])
            },
            None => None,
        }
    }

    /// Get a reference to a field by index.
    pub fn get_field(&self, index: usize) -> (r: Option<&Field>)
        ensures
            match r {
                Some(f) => index < self@.len() && f@ == self@[index as int],
                None => index >= self@.len(),
            },
    {
        if index < self.fields.len() {
            Some(&self.fields[index])
        } else {
            None
        }
    }
}

/// String equality on string slices, by contents.
pub fn str_eq(x: &str, y: &str) -> (r: bool)
    ensures
        r == (x@ == y@),
{
    match str_cmp(x, y) {
        ValueOrdering::Equal => {
            proof {
                lemma_lex_cmp_equal(x@, y@);
            }
            true
        },
        _ => {
            proof {
                lemma_lex_cmp_equal(x@, y@);
            }
            false
        },
    }
}

/// Lexicographic comparison returns `Equal` exactly on equal sequences.
pub proof fn lemma_lex_cmp_equal(a: Seq<char>, b: Seq<char>)
    ensures
        (spec_lex_cmp_chars(a, b) == ValueOrdering::Equal) <==> (a == b),
    decreases a.len(),
{
    if a.len() > 0 && b.len() > 0 && !(a[0] < b[0]) && !(b[0] < a[0]) {
        lemma_lex_cmp_equal(a.drop_first(), b.drop_first());
        if spec_lex_cmp_chars(a, b) == ValueOrdering::Equal {
            assert forall|i: int| 0 <= i < a.len() implies a[i] == b[i] by {
                if i > 0 {
                    assert(a.drop_first()[i - 1] == a[i]);
                    assert(b.drop_first()[i - 1] == b[i]);
                }
            }
            assert(a =~= b);
        } else {
            if a == b {
                assert(a.drop_first() =~= b.drop_first());
            }
        }
    } else {
        if a.len() == 0 && b.len() == 0 {
            assert(a =~= b);
        }
    }
}

impl Field {
    /// Create a new field.
    pub fn new(name: String, data_type: DataType, nullable: bool) -> (r: Field)
        ensures
            r@.name == name@,
            r@.data_type == data_type,
            r@.nullable == nullable,
    {
        Field { name, data_type, nullable }
    }
}

impl Row {
    /// Create a new row with the given values.
    pub fn new(values: Vec<Value>) -> (r: Row)
        ensures
            r@.len() == values@.len(),
            forall|i: int| 0 <= i < values@.len() ==> r@[i] == (#[trigger] values@[i])@,
    {
        Row { values }
    }

    /// Get a reference to a value by index.
    pub fn get(&self, index: usize) -> (r: Option<&Value>)
        ensures
            match r {
                Some(v) => index < self@.len() && v@ == self@[index as int],
                None => index >= self@.len(),
            },
    {
        if index < self.values.len() {
            Some(&self.values[index])
        } else {
            None
        }
    }
}

// ---------------------------------------------------------------------------
// Metadata
// ---------------------------------------------------------------------------

/// The index of the first property with this key, or -1 when there is none.
pub open spec fn spec_meta_index(props: Seq<(Seq<char>, Seq<char>)>, key: Seq<char>) -> int
    decreases props.len(),
{
    if props.len() == 0 {
        -1
    } else if props[0].0 == key {
        0
    } else {
        let rest = spec_meta_index(props.drop_first(), key);
        if rest < 0 {
            -1
        } else {
            rest + 1
        }
    }
}

/// The value stored under this key, if any.
pub open spec fn spec_meta_get(props: Seq<(Seq<char>, Seq<char>)>, key: Seq<char>) -> Option<
    Seq<char>,
> {
    if spec_meta_index(props, key) >= 0 {
        Option::Some(props[spec_meta_index(props, key)].1)
    } else {
        Option::None
    }
}

/// What [`spec_meta_index`] returns: -1 when no key matches, otherwise the
/// first matching index.
pub proof fn lemma_meta_index(props: Seq<(Seq<char>, Seq<char>)>, key: Seq<char>)
    ensures
        -1 <= spec_meta_index(props, key) < props.len(),
        spec_meta_index(props, key) >= 0 ==> (#[trigger] props[spec_meta_index(props, key)]).0
            == key,
        spec_meta_index(props, key) >= 0 ==> (forall|j: int|
            0 <= j < spec_meta_index(props, key) ==> (#[trigger] props[j]).0 != key),
        spec_meta_index(props, key) == -1 ==> (forall|j: int|
            0 <= j < props.len() ==> (#[trigger] props[j]).0 != key),
    decreases props.len(),
{
    if props.len() > 0 && props[0].0 != key {
        lemma_meta_index(props.drop_first(), key);
        assert forall|j: int| 1 <= j < props.len() implies props[j] == props.drop_first()[j - 1] by {}
    }
}

/// A first match at `i` determines [`spec_meta_index`].
pub proof fn lemma_meta_index_is(props: Seq<(Seq<char>, Seq<char>)>, key: Seq<char>, i: int)
    requires
        0 <= i < props.len(),
        props[i].0 == key,
        forall|j: int| 0 <= j < i ==> (#[trigger] props[j]).0 != key,
    ensures
        spec_meta_index(props, key) == i,
    decreases props.len(),
{
    if i > 0 {
        assert forall|j: int|
            0 <= j < i - 1 implies (#[trigger] props.drop_first()[j]).0 != key by {
            assert(props.drop_first()[j] == props[j + 1]);
        }
        assert(props.drop_first()[i - 1] == props[i]);
        lemma_meta_index_is(props.drop_first(), key, i - 1);
    }
}

/// No match anywhere determines [`spec_meta_index`] to be -1.
pub proof fn lemma_meta_index_none(props: Seq<(Seq<char>, Seq<char>)>, key: Seq<char>)
    requires
        forall|j: int| 0 <= j < props.len() ==> (#[trigger] props[j]).0 != key,
    ensures
        spec_meta_index(props, key) == -1,
    decreases props.len(),
{
    if props.len() > 0 {
        assert forall|j: int|
            0 <= j < props.drop_first().len() implies (#[trigger] props.drop_first()[j]).0
            != key by {
            assert(props.drop_first()[j] == props[j + 1]);
        }
        lemma_meta_index_none(props.drop_first(), key);
    }
}

impl Metadata {
    /// Keys are pairwise distinct.
    pub open spec fn wf(&self) -> bool {
        forall|i: int, j: int|
            0 <= i < j < self@.len() ==> (#[trigger] self@[i]).0 != (#[trigger] self@[j]).0
    }

    /// Create new empty metadata.
    pub fn new() -> (r: Metadata)
        ensures
            r@.len() == 0,
            r.wf(),
    {
        Metadata { properties: Vec::new() }
    }

    /// Add a property; an existing property with the same key is replaced.
    pub fn add(&mut self, key: String, value: String)
        ensures
            spec_meta_index(old(self)@, key@) >= 0 ==> final(self)@ == old(self)@.update(
                spec_meta_index(old(self)@, key@),
                (key@, value@),
            ),
            spec_meta_index(old(self)@, key@) == -1 ==> final(self)@ == old(self)@.push(
                (key@, value@),
            ),
            old(self).wf() ==> final(self).wf(),
    {
        let ghost orig = self@;
        let mut i: usize = 0;
        while i < self.properties.len()
            invariant
                i <= self.properties.len(),
                self@ == orig,
                orig == old(self)@,
                forall|j: int| 0 <= j < i ==> (#[trigger] orig[j]).0 != key@,
            decreases self.properties.len() - i,
        {
            if str_eq(self.properties[i].0.as_str(), key.as_str()) {
                proof {
                    assert(orig[i as int].0 == key@);
                    lemma_meta_index_is(orig, key@, i as int);
                }
                self.properties[i] = (key, value);
                proof {
                    assert(self@ =~= orig.update(i as int, (key@, value@)));
                    lemma_meta_index(orig, key@);
                }
                return ;
            }
            proof {
                assert(orig[i as int].0 != key@);
            }
            i = i + 1;
        }
        proof {
            lemma_meta_index_none(orig, key@);
        }
        self.properties.push((key, value));
        proof {
            assert(self@ =~= orig.push((key@, value@)));
        }
    }

    /// Get the value stored under this key.
    pub fn get(&self, key: &str) -> (r: Option<&String>)
        ensures
            match r {
                Some(v) => spec_meta_get(self@, key@) == Option::Some(v@),
                None => spec_meta_get(self@, key@) is None,
            },
    {
        let mut i: usize = 0;
        while i < self.properties.len()
            invariant
                i <= self.properties.len(),
                forall|j: int| 0 <= j < i ==> (#[trigger] self@[j]).0 != key@,
            decreases self.properties.len() - i,
        {
            if str_eq(self.properties[i].0.as_str(), key) {
                proof {
                    assert(self@[i as int].0 == key@);
                    lemma_meta_index_is(self@, key@, i as int);
                }
                return Some(&self.properties[i].1);
            }
            proof {
                assert(self@[i as int].0 != key@);
            }
            i = i + 1;
        }
        proof {
            lemma_meta_index_none(self@, key@);
        }
        None
    }
}

// ---------------------------------------------------------------------------
// DataSet
// ---------------------------------------------------------------------------

impl DataSet {
    /// The arity invariant: every row has exactly one value per schema field.
    pub open spec fn wf(&self) -> bool {
        forall|i: int| 0 <= i < self@.data.len() ==> (#[trigger] self@.data[i]).len()
            == self@.schema.len()
    }

    /// Create a new empty dataset with this schema.
    pub fn new(schema: Schema) -> (r: DataSet)
        ensures
            r@.schema == schema@,
            r@.data.len() == 0,
            r@.metadata.len() == 0,
            r.wf(),
            r.metadata.wf(),
    {
        let r = DataSet { schema, data: Vec::new(), metadata: Metadata::new() };
        proof {
            assert(r@.data =~= Seq::<Seq<ValueV>>::empty());
        }
        r
    }

    /// Append a row.  The row is accepted exactly when its value count
    /// matches the schema's field count; otherwise the dataset is unchanged
    /// and a `SchemaMismatch` error is returned.
    pub fn add_row(&mut self, row: Row) -> (r: Result<(), DataError>)
        ensures
            match r {
                Ok(()) => row@.len() == old(self)@.schema.len()
                    && final(self)@.schema == old(self)@.schema
                    && final(self)@.metadata == old(self)@.metadata
                    && final(self)@.data == old(self)@.data.push(row@),
                Err(e) => row@.len() != old(self)@.schema.len()
                    && e is SchemaMismatch
                    && *final(self) == *old(self),
            },
            old(self).wf() ==> final(self).wf(),
    {
        if row.values.len() != self.schema.fields.len() {
            return Err(DataError::SchemaMismatch);
        }
        let ghost orig = self@;
        let ghost rv = row@;
        self.data.push(row);
        proof {
            assert(self@.data =~= orig.data.push(rv));
        }
        Ok(())
    }

    /// The number of rows.
    pub fn len(&self) -> (r: usize)
        ensures
            r == self@.data.len(),
    {
        self.data.len()
    }

    /// Whether the dataset has no rows.
    pub fn is_empty(&self) -> (r: bool)
        ensures
            r == (self@.data.len() == 0),
    {
        self.data.len() == 0
    }

    /// Get a reference to a row by index.
    pub fn get_row(&self, index: usize) -> (r: Option<&Row>)
        ensures
            match r {
                Some(row) => index < self@.data.len() && row@ == self@.data[index as int],
                None => index >= self@.data.len(),
            },
    {
        if index < self.data.len() {
            Some(&self.data[index])
        } else {
            None
        }
    }
}

} // verus!
