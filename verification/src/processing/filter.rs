//! Row filtering: named predicates over (row, schema), plus limit, skip and
//! sampling helpers.

use vstd::prelude::*;

use crate::data::DataSet;
use crate::data::FieldV;
use crate::data::Row;
use crate::data::Value;
use crate::data::ValueV;
use crate::data::ValueOrdering;
use crate::data::float_bits::float_cmp_bits;
use crate::data::float_bits::spec_float_cmp_bits;
use crate::data::lemma_col_index;
use crate::data::spec_col_index;
use crate::data::spec_lex_cmp_chars;
use crate::data::str_cmp;
use crate::processing::FloatOps;
use crate::processing::ProcessingError;
use crate::text::concat2;
use crate::text::spec_contains_seq;
use crate::text::str_contains;

verus! {

/// A built-in row predicate: the column is resolved by name (first match)
/// before the comparison; a missing column makes the predicate false.
pub enum Predicate {
    /// The column's value equals the given value (see [`spec_filter_eq`]).
    Equals(String, Value),
    /// The column's value is strictly greater (integers, floats, strings).
    GreaterThan(String, Value),
    /// The column's value is strictly less (integers, floats, strings).
    LessThan(String, Value),
    /// The column's value is not null.
    NotNull(String),
    /// The column is a string containing the given substring.
    Contains(String, String),
}

/// The mathematical abstraction of a [`Predicate`].
pub enum PredicateV {
    Equals(Seq<char>, ValueV),
    GreaterThan(Seq<char>, ValueV),
    LessThan(Seq<char>, ValueV),
    NotNull(Seq<char>),
    Contains(Seq<char>, Seq<char>),
}

impl View for Predicate {
    type V = PredicateV;

    open spec fn view(&self) -> PredicateV {
        match self {
            Predicate::Equals(c, v) => PredicateV::Equals(c@, v@),
            Predicate::GreaterThan(c, v) => PredicateV::GreaterThan(c@, v@),
            Predicate::LessThan(c, v) => PredicateV::LessThan(c@, v@),
            Predicate::NotNull(c) => PredicateV::NotNull(c@),
            Predicate::Contains(c, s) => PredicateV::Contains(c@, s@),
        }
    }
}

/// Equality as the equals-filter sees it, on the pairings it decides
/// itself: nulls are equal, booleans, integers and strings compare by
/// value, and any other pairing, composites included, is not equal.  A pair
/// of floats is the one pairing this predicate does not govern: the filter
/// compares such a pair with the floating-point unit's epsilon tolerance
/// (see [`spec_pred_determined`]).
pub open spec fn spec_filter_eq(a: ValueV, b: ValueV) -> bool {
    match (a, b) {
        (ValueV::Null, ValueV::Null) => true,
        (ValueV::Boolean(x), ValueV::Boolean(y)) => x == y,
        (ValueV::Integer(x), ValueV::Integer(y)) => x == y,
        (ValueV::String(x), ValueV::String(y)) => x == y,
        _ => false,
    }
}

/// Whether the predicate's decision on this row is the model's own: every
/// predicate except an equals over two floats, whose tolerance the
/// floating-point unit computes.
pub open spec fn spec_pred_determined(p: PredicateV, schema: Seq<FieldV>, row: Seq<ValueV>) -> bool {
    match p {
        PredicateV::Equals(c, v) => {
            let i = spec_col_index(schema, c);
            i < 0 || !(row[i] is Float && v is Float)
        },
        _ => true,
    }
}

/// Strict order as the ordering filters see it: only integer/integer,
/// float/float and string/string pairs are ordered; anything else is false.
pub open spec fn spec_filter_gt(a: ValueV, b: ValueV) -> bool {
    match (a, b) {
        (ValueV::Integer(x), ValueV::Integer(y)) => x > y,
        (ValueV::Float(x), ValueV::Float(y)) => spec_float_cmp_bits(x, y)
            == ValueOrdering::Greater,
        (ValueV::String(x), ValueV::String(y)) => spec_lex_cmp_chars(x, y)
            == ValueOrdering::Greater,
        _ => false,
    }
}

/// Strict less-than; the mirror of [`spec_filter_gt`].
pub open spec fn spec_filter_lt(a: ValueV, b: ValueV) -> bool {
    match (a, b) {
        (ValueV::Integer(x), ValueV::Integer(y)) => x < y,
        (ValueV::Float(x), ValueV::Float(y)) => spec_float_cmp_bits(x, y) == ValueOrdering::Less,
        (ValueV::String(x), ValueV::String(y)) => spec_lex_cmp_chars(x, y) == ValueOrdering::Less,
        _ => false,
    }
}

/// Whether the predicate holds of a row under a schema.  A missing column
/// makes every predicate false.
pub open spec fn spec_pred_holds(p: PredicateV, schema: Seq<FieldV>, row: Seq<ValueV>) -> bool {
    match p {
        PredicateV::Equals(c, v) => {
            let i = spec_col_index(schema, c);
            i >= 0 && spec_filter_eq(row[i], v)
        },
        PredicateV::GreaterThan(c, v) => {
            let i = spec_col_index(schema, c);
            i >= 0 && spec_filter_gt(row[i], v)
        },
        PredicateV::LessThan(c, v) => {
            let i = spec_col_index(schema, c);
            i >= 0 && spec_filter_lt(row[i], v)
        },
        PredicateV::NotNull(c) => {
            let i = spec_col_index(schema, c);
            i >= 0 && !(row[i] is Null)
        },
        PredicateV::Contains(c, sub) => {
            let i = spec_col_index(schema, c);
            i >= 0 && row[i] is String && spec_contains_seq(row[i]->String_0, sub)
        },
    }
}

/// The rows of `rows` satisfying the predicate, in order.
pub open spec fn spec_filtered(
    p: PredicateV,
    schema: Seq<FieldV>,
    rows: Seq<Seq<ValueV>>,
) -> Seq<Seq<ValueV>>
    decreases rows.len(),
{
    if rows.len() == 0 {
        Seq::empty()
    } else {
        let rest = spec_filtered(p, schema, rows.drop_last());
        if spec_pred_holds(p, schema, rows.last()) {
            rest.push(rows.last())
        } else {
            rest
        }
    }
}

/// The rows selected by a keep mask, in order.
pub open spec fn spec_kept_rows(keep: Seq<bool>, rows: Seq<Seq<ValueV>>) -> Seq<Seq<ValueV>>
    decreases rows.len(),
{
    if rows.len() == 0 {
        Seq::empty()
    } else {
        let rest = spec_kept_rows(keep.drop_last(), rows.drop_last());
        if keep.len() == rows.len() && keep.last() {
            rest.push(rows.last())
        } else {
            rest
        }
    }
}

/// A keep mask that agrees with the predicate everywhere selects exactly
/// the filtered rows.
pub proof fn lemma_kept_rows_filtered(
    p: PredicateV,
    schema: Seq<FieldV>,
    rows: Seq<Seq<ValueV>>,
    keep: Seq<bool>,
)
    requires
        keep.len() == rows.len(),
        forall|i: int| 0 <= i < rows.len() ==> keep[i] == spec_pred_holds(
            p,
            schema,
            #[trigger] rows[i],
        ),
    ensures
        spec_kept_rows(keep, rows) == spec_filtered(p, schema, rows),
    decreases rows.len(),
{
    if rows.len() > 0 {
        assert forall|i: int|
            0 <= i < rows.drop_last().len() implies keep.drop_last()[i] == spec_pred_holds(
            p,
            schema,
            #[trigger] rows.drop_last()[i],
        ) by {
            assert(rows.drop_last()[i] == rows[i]);
            assert(keep.drop_last()[i] == keep[i]);
        }
        lemma_kept_rows_filtered(p, schema, rows.drop_last(), keep.drop_last());
        assert(rows.last() == rows[rows.len() - 1]);
        assert(keep.last() == keep[rows.len() - 1]);
    }
}

/// Every filtered row keeps the arity of the rows it was taken from.
pub proof fn lemma_filtered_arity(
    p: PredicateV,
    schema: Seq<FieldV>,
    rows: Seq<Seq<ValueV>>,
    n: int,
)
    requires
        forall|i: int| 0 <= i < rows.len() ==> (#[trigger] rows[i]).len() == n,
    ensures
        forall|k: int|
            0 <= k < spec_filtered(p, schema, rows).len() ==> (#[trigger] spec_filtered(
                p,
                schema,
                rows,
            )[k]).len() == n,
    decreases rows.len(),
{
    if rows.len() > 0 {
        assert forall|i: int|
            0 <= i < rows.drop_last().len() implies (#[trigger] rows.drop_last()[i]).len()
            == n by {
            assert(rows.drop_last()[i] == rows[i]);
        }
        lemma_filtered_arity(p, schema, rows.drop_last(), n);
        let f = spec_filtered(p, schema, rows);
        let rest = spec_filtered(p, schema, rows.drop_last());
        assert(rows.last() == rows[rows.len() - 1]);
        assert forall|k: int| 0 <= k < f.len() implies (#[trigger] f[k]).len() == n by {
            if spec_pred_holds(p, schema, rows.last()) && k == rest.len() {
                assert(f[k] == rows.last());
            } else {
                assert(f[k] == rest[k]);
            }
        }
    }
}

/// Equality as the equals-filter sees it on the pairings it decides
/// itself; agrees with [`spec_filter_eq`].
pub fn filter_eq(a: &Value, b: &Value) -> (r: bool)
    ensures
        r == spec_filter_eq(a@, b@),
{
    match (a, b) {
        (Value::Null, Value::Null) => true,
        (Value::Boolean(x), Value::Boolean(y)) => *x == *y,
        (Value::Integer(x), Value::Integer(y)) => *x == *y,
        (Value::String(x), Value::String(y)) => x.eq(y),
        _ => false,
    }
}

/// Three-way comparison for the ordering filters; `None` for unordered
/// pairings.
fn filter_cmp(a: &Value, b: &Value) -> (r: Option<ValueOrdering>)
    ensures
        (r == Option::Some(ValueOrdering::Greater)) == spec_filter_gt(a@, b@),
        (r == Option::Some(ValueOrdering::Less)) == spec_filter_lt(a@, b@),
{
    match (a, b) {
        (Value::Integer(x), Value::Integer(y)) => {
            if *x > *y {
                Some(ValueOrdering::Greater)
            } else if *x < *y {
                Some(ValueOrdering::Less)
            } else {
                Some(ValueOrdering::Equal)
            }
        },
        (Value::Float(x), Value::Float(y)) => Some(float_cmp_bits(*x, *y)),
        (Value::String(x), Value::String(y)) => Some(str_cmp(x.as_str(), y.as_str())),
        _ => None,
    }
}

/// Whether the predicate holds of a row of `input`.  On every decision the
/// model makes itself the result agrees with [`spec_pred_holds`]; an equals
/// over two floats is decided by the unit's epsilon comparison.
pub fn eval_predicate<F: FloatOps>(p: &Predicate, input: &DataSet, row: &Row, ops: &F) -> (r: bool)
    requires
        row@.len() == input@.schema.len(),
    ensures
        spec_pred_determined(p@, input@.schema, row@) ==> r == spec_pred_holds(
            p@,
            input@.schema,
            row@,
        ),
{
    match p {
        Predicate::Equals(c, v) => {
            match input.schema.col_index(c.as_str()) {
                Some(i) => {
                    proof {
                        lemma_col_index(input@.schema, c@);
                        assert(row@[i as int] == row.values@[i as int]@);
                    }
                    match (&row.values[i], v) {
                        (Value::Float(x), Value::Float(y)) => ops.eps_eq(*x, *y),
                        _ => filter_eq(&row.values[i], v),
                    }
                },
                None => false,
            }
        },
        Predicate::GreaterThan(c, v) => {
            match input.schema.col_index(c.as_str()) {
                Some(i) => {
                    proof {
                        lemma_col_index(input@.schema, c@);
                        assert(row@[i as int] == row.values@[i as int]@);
                    }
                    match filter_cmp(&row.values[i], v) {
                        Some(ValueOrdering::Greater) => true,
                        _ => false,
                    }
                },
                None => false,
            }
        },
        Predicate::LessThan(c, v) => {
            match input.schema.col_index(c.as_str()) {
                Some(i) => {
                    proof {
                        lemma_col_index(input@.schema, c@);
                        assert(row@[i as int] == row.values@[i as int]@);
                    }
                    match filter_cmp(&row.values[i], v) {
                        Some(ValueOrdering::Less) => true,
                        _ => false,
                    }
                },
                None => false,
            }
        },
        Predicate::NotNull(c) => {
            match input.schema.col_index(c.as_str()) {
                Some(i) => {
                    proof {
                        lemma_col_index(input@.schema, c@);
                        assert(row@[i as int] == row.values@[i as int]@);
                    }
                    match &row.values[i] {
                        Value::Null => false,
                        _ => true,
                    }
                },
                None => false,
            }
        },
        Predicate::Contains(c, sub) => {
            match input.schema.col_index(c.as_str()) {
                Some(i) => {
                    proof {
                        lemma_col_index(input@.schema, c@);
                        assert(row@[i as int] == row.values@[i as int]@);
                    }
                    match &row.values[i] {
                        Value::String(s) => str_contains(s.as_str(), sub.as_str()),
                        _ => false,
                    }
                },
                None => false,
            }
        },
    }
}

/// What a filter run guarantees (it never fails): unchanged schema and
/// metadata, and the rows selected by a keep mask agreeing with the
/// predicate model on every decision the model makes itself; when all
/// decisions are the model's, exactly the filtered row sequence.
pub open spec fn spec_filter_ok(
    p: PredicateV,
    input: crate::data::DataSetV,
    out: crate::data::DataSetV,
) -> bool {
    &&& out.schema == input.schema
    &&& out.metadata == input.metadata
    &&& exists|keep: Seq<bool>|
        keep.len() == input.data.len() && out.data == spec_kept_rows(keep, input.data) && (forall|
            i: int,
        |
            0 <= i < input.data.len() && spec_pred_determined(p, input.schema, #[trigger] input.data[i])
                ==> keep[i] == spec_pred_holds(p, input.schema, input.data[i]))
    &&& ((forall|i: int|
        0 <= i < input.data.len() ==> spec_pred_determined(
            p,
            input.schema,
            #[trigger] input.data[i],
        )) ==> out.data == spec_filtered(p, input.schema, input.data))
}

/// What a limit run guarantees (it never fails).
pub open spec fn spec_limit_ok(
    limit: int,
    input: crate::data::DataSetV,
    out: crate::data::DataSetV,
) -> bool {
    &&& out.schema == input.schema
    &&& out.metadata == input.metadata
    &&& out.data == input.data.take(
        if limit <= input.data.len() {
            limit
        } else {
            input.data.len() as int
        },
    )
}

/// What a skip run guarantees (it never fails).
pub open spec fn spec_skip_ok(
    skip: int,
    input: crate::data::DataSetV,
    out: crate::data::DataSetV,
) -> bool {
    &&& out.schema == input.schema
    &&& out.metadata == input.metadata
    &&& out.data == input.data.skip(
        if skip <= input.data.len() {
            skip
        } else {
            input.data.len() as int
        },
    )
}

/// Filter rows by a named predicate.
pub struct FilterProcessor {
    pub name: String,
    pub predicate: Predicate,
}

impl FilterProcessor {
    /// Create a new filter processor with the given predicate.
    pub fn new(name: &str, predicate: Predicate) -> (r: FilterProcessor)
        ensures
            r.name@ == name@,
            r.predicate == predicate,
    {
        FilterProcessor { name: name.to_owned(), predicate }
    }

    /// A filter keeping rows where the column equals the value.
    pub fn equals(column: &str, value: Value) -> (r: FilterProcessor)
        ensures
            r.predicate@ == PredicateV::Equals(column@, value@),
    {
        let name = concat2("equals_", column);
        FilterProcessor { name, predicate: Predicate::Equals(column.to_owned(), value) }
    }

    /// A filter keeping rows where the column is greater than the value.
    pub fn greater_than(column: &str, value: Value) -> (r: FilterProcessor)
        ensures
            r.predicate@ == PredicateV::GreaterThan(column@, value@),
    {
        let name = concat2("greater_than_", column);
        FilterProcessor { name, predicate: Predicate::GreaterThan(column.to_owned(), value) }
    }

    /// A filter keeping rows where the column is less than the value.
    pub fn less_than(column: &str, value: Value) -> (r: FilterProcessor)
        ensures
            r.predicate@ == PredicateV::LessThan(column@, value@),
    {
        let name = concat2("less_than_", column);
        FilterProcessor { name, predicate: Predicate::LessThan(column.to_owned(), value) }
    }

    /// A filter keeping rows where the column is not null.
    pub fn not_null(column: &str) -> (r: FilterProcessor)
        ensures
            r.predicate@ == PredicateV::NotNull(column@),
    {
        let name = concat2("not_null_", column);
        FilterProcessor { name, predicate: Predicate::NotNull(column.to_owned()) }
    }

    /// A filter keeping rows where the column is a string containing the
    /// substring.
    pub fn contains(column: &str, substring: &str) -> (r: FilterProcessor)
        ensures
            r.predicate@ == PredicateV::Contains(column@, substring@),
    {
        let name = concat2("contains_", column);
        FilterProcessor {
            name,
            predicate: Predicate::Contains(column.to_owned(), substring.to_owned()),
        }
    }

    /// Keep exactly the rows satisfying the predicate, in input order, as
    /// copies, under the unchanged schema; metadata is carried over.  Never
    /// fails.  The output is the rows selected by some keep mask that agrees
    /// with the predicate model on every decision the model makes itself; an
    /// equals over two floats is decided by the unit's epsilon tolerance.
    /// When no row puts an equals predicate before a pair of floats, the
    /// output is exactly the model's filtered row sequence.
    pub fn process<F: FloatOps>(&self, input: &DataSet, ops: &F) -> (r: Result<
        DataSet,
        ProcessingError,
    >)
        requires
            input.wf(),
        ensures
            r is Ok,
            match r {
                Ok(out) => spec_filter_ok(self.predicate@, input@, out@) && out.wf(),
                Err(e) => false,
            },
    {
        let ghost schema = input@.schema;
        let ghost pv = self.predicate@;
        let mut data: Vec<Row> = Vec::new();
        let ghost mut keep: Seq<bool> = Seq::empty();
        let mut i: usize = 0;
        proof {
            assert(input@.data.take(0) =~= Seq::<Seq<ValueV>>::empty());
        }
        while i < input.data.len()
            invariant
                i <= input.data.len(),
                input.wf(),
                schema == input@.schema,
                pv == self.predicate@,
                keep.len() == i,
                Seq::new(data@.len(), |j: int| data@[j]@) == spec_kept_rows(
                    keep,
                    input@.data.take(i as int),
                ),
                forall|j: int|
                    0 <= j < i && spec_pred_determined(pv, schema, #[trigger] input@.data[j])
                        ==> keep[j] == spec_pred_holds(pv, schema, input@.data[j]),
                forall|j: int| 0 <= j < data@.len() ==> (#[trigger] data@[j])@.len() == schema.len(),
            decreases input.data.len() - i,
        {
            let ghost out_rows = Seq::new(data@.len(), |j: int| data@[j]@);
            proof {
                assert(input@.data[i as int] == input.data@[i as int]@);
                assert(input@.data[i as int].len() == schema.len());
            }
            let keep_row = eval_predicate(&self.predicate, input, &input.data[i], ops);
            let ghost prev = keep;
            proof {
                keep = keep.push(keep_row);
                assert(keep.drop_last() =~= prev);
                assert(input@.data.take(i + 1).drop_last() =~= input@.data.take(i as int));
                assert(input@.data.take(i + 1).last() == input@.data[i as int]);
            }
            if keep_row {
                data.push(input.data[i].clone());
                proof {
                    assert(Seq::new(data@.len(), |j: int| data@[j]@) =~= out_rows.push(
                        input@.data[i as int],
                    ));
                }
            }
            proof {
                assert(spec_kept_rows(keep, input@.data.take(i + 1)) == (
                if keep_row {
                    spec_kept_rows(prev, input@.data.take(i as int)).push(input@.data[i as int])
                } else {
                    spec_kept_rows(prev, input@.data.take(i as int))
                }));
            }
            i = i + 1;
        }
        proof {
            assert(input@.data.take(i as int) =~= input@.data);
        }
        let out = DataSet {
            schema: input.schema.clone(),
            data,
            metadata: input.metadata.clone(),
        };
        proof {
            assert(out@.data =~= Seq::new(out.data@.len(), |j: int| out.data@[j]@));
            if forall|j: int|
                0 <= j < input@.data.len() ==> spec_pred_determined(
                    pv,
                    schema,
                    #[trigger] input@.data[j],
                ) {
                assert forall|j: int|
                    0 <= j < input@.data.len() implies keep[j] == spec_pred_holds(
                    pv,
                    schema,
                    #[trigger] input@.data[j],
                ) by {
                    assert(spec_pred_determined(pv, schema, input@.data[j]));
                }
                lemma_kept_rows_filtered(pv, schema, input@.data, keep);
            }
        }
        Ok(out)
    }
}

/// Keep at most the first `limit` rows.
pub struct LimitProcessor {
    pub limit: usize,
}

impl LimitProcessor {
    /// Create a new limit processor.
    pub fn new(limit: usize) -> (r: LimitProcessor)
        ensures
            r.limit == limit,
    {
        LimitProcessor { limit }
    }

    /// Keep the first `limit` rows (all rows when fewer), as copies, under
    /// the unchanged schema; metadata is carried over.  Never fails.
    pub fn process(&self, input: &DataSet) -> (r: Result<DataSet, ProcessingError>)
        requires
            input.wf(),
        ensures
            r is Ok,
            match r {
                Ok(out) => spec_limit_ok(self.limit as int, input@, out@) && out.wf(),
                Err(e) => false,
            },
    {
        let n = if self.limit < input.data.len() {
            self.limit
        } else {
            input.data.len()
        };
        let mut data: Vec<Row> = Vec::new();
        let mut i: usize = 0;
        while i < n
            invariant
                i <= n,
                n <= input.data.len(),
                data@.len() == i,
                forall|j: int| 0 <= j < i ==> (#[trigger] data@[j])@ == input@.data[j],
            decreases n - i,
        {
            proof {
                assert(input@.data[i as int] == input.data@[i as int]@);
            }
            data.push(input.data[i].clone());
            i = i + 1;
        }
        let out = DataSet {
            schema: input.schema.clone(),
            data,
            metadata: input.metadata.clone(),
        };
        proof {
            assert(out@.data =~= input@.data.take(n as int));
        }
        Ok(out)
    }
}

/// Skip the first `skip` rows.
pub struct SkipProcessor {
    pub skip: usize,
}

impl SkipProcessor {
    /// Create a new skip processor.
    pub fn new(skip: usize) -> (r: SkipProcessor)
        ensures
            r.skip == skip,
    {
        SkipProcessor { skip }
    }

    /// Drop the first `skip` rows (all rows when fewer), copying the rest in
    /// order, under the unchanged schema; metadata is carried over.  Never
    /// fails.
    pub fn process(&self, input: &DataSet) -> (r: Result<DataSet, ProcessingError>)
        requires
            input.wf(),
        ensures
            r is Ok,
            match r {
                Ok(out) => spec_skip_ok(self.skip as int, input@, out@) && out.wf(),
                Err(e) => false,
            },
    {
        let start = if self.skip < input.data.len() {
            self.skip
        } else {
            input.data.len()
        };
        let mut data: Vec<Row> = Vec::new();
        let mut i: usize = start;
        while i < input.data.len()
            invariant
                start <= i <= input.data.len(),
                data@.len() == i - start,
                forall|j: int| 0 <= j < data@.len() ==> (#[trigger] data@[j])@ == input@.data[j + start],
            decreases input.data.len() - i,
        {
            proof {
                assert(input@.data[i as int] == input.data@[i as int]@);
            }
            data.push(input.data[i].clone());
            i = i + 1;
        }
        let out = DataSet {
            schema: input.schema.clone(),
            data,
            metadata: input.metadata.clone(),
        };
        proof {
            assert(out@.data =~= input@.data.skip(start as int));
        }
        Ok(out)
    }
}


/// Every row kept by a filter satisfies the predicate.
pub proof fn lemma_filtered_all_hold(p: PredicateV, schema: Seq<FieldV>, rows: Seq<Seq<ValueV>>)
    ensures
        forall|k: int|
            0 <= k < spec_filtered(p, schema, rows).len() ==> spec_pred_holds(
                p,
                schema,
                #[trigger] spec_filtered(p, schema, rows)[k],
            ),
    decreases rows.len(),
{
    if rows.len() > 0 {
        lemma_filtered_all_hold(p, schema, rows.drop_last());
        let f = spec_filtered(p, schema, rows);
        let rest = spec_filtered(p, schema, rows.drop_last());
        assert forall|k: int|
            0 <= k < f.len() implies spec_pred_holds(p, schema, #[trigger] f[k]) by {
            if spec_pred_holds(p, schema, rows.last()) && k == rest.len() {
                assert(f[k] == rows.last());
            } else {
                assert(f[k] == rest[k]);
            }
        }
    }
}

/// Filtering rows that all satisfy the predicate keeps them all.
pub proof fn lemma_filter_of_holding(p: PredicateV, schema: Seq<FieldV>, rows: Seq<Seq<ValueV>>)
    requires
        forall|i: int| 0 <= i < rows.len() ==> spec_pred_holds(p, schema, #[trigger] rows[i]),
    ensures
        spec_filtered(p, schema, rows) == rows,
    decreases rows.len(),
{
    if rows.len() > 0 {
        assert forall|i: int|
            0 <= i < rows.drop_last().len() implies spec_pred_holds(
            p,
            schema,
            #[trigger] rows.drop_last()[i],
        ) by {
            assert(rows.drop_last()[i] == rows[i]);
        }
        lemma_filter_of_holding(p, schema, rows.drop_last());
        assert(rows.last() == rows[rows.len() - 1]);
        assert(spec_filtered(p, schema, rows) =~= rows);
    } else {
        assert(spec_filtered(p, schema, rows) =~= rows);
    }
}

/// Filtering is idempotent: filtering an already-filtered row sequence with
/// the same predicate leaves it unchanged.  Since the filter operator keeps
/// the schema and metadata of its input, running the same filter twice
/// yields the same dataset as running it once.
pub proof fn lemma_filter_idempotent(p: PredicateV, schema: Seq<FieldV>, rows: Seq<Seq<ValueV>>)
    ensures
        spec_filtered(p, schema, spec_filtered(p, schema, rows)) == spec_filtered(p, schema, rows),
{
    lemma_filtered_all_hold(p, schema, rows);
    lemma_filter_of_holding(p, schema, spec_filtered(p, schema, rows));
}

} // verus!
