//! Group-by aggregation: composite-key grouping with typed accumulators for
//! count, sum, average, minimum and maximum.
//!
//! Grouping keys compare by structural value equality; groups appear in
//! first-occurrence order of their keys.  Each accumulator is a closed,
//! typed state machine: integer sums are exact (clamped to the `i64` range
//! at the end), float arithmetic goes through the floating-point unit, and
//! minima/maxima track per-type extrema exactly.

use vstd::prelude::*;

use crate::data::DataSet;
use crate::data::DataType;
use crate::data::Field;
use crate::data::FieldV;
use crate::data::Row;
use crate::data::Schema;
use crate::data::Value;
use crate::data::ValueV;
use crate::data::ValueOrdering;
use crate::data::float_bits::float_lt_bits;
use crate::data::float_bits::spec_float_lt_bits;
use crate::data::lemma_col_index;
use crate::data::spec_col_index;
use crate::data::spec_lex_cmp_chars;
use crate::data::str_cmp;
use crate::processing::FloatOps;
use crate::processing::ProcessingError;
use crate::processing::project_row;
use crate::processing::join::spec_key;
use crate::processing::join::spec_key_eq;
use crate::text::concat3;

verus! {

/// The built-in aggregate function family.
#[derive(Debug, PartialEq, Eq, Structural, Clone, Copy)]
pub enum AggregateKind {
    Count,
    Sum,
    Avg,
    Min,
    Max,
}

/// Clamp a mathematical integer into the `i64` range.
pub open spec fn spec_clamp_i64(x: int) -> i64 {
    if x > i64::MAX as int {
        i64::MAX
    } else if x < i64::MIN as int {
        i64::MIN
    } else {
        x as i64
    }
}

/// The number of non-null values.
pub open spec fn spec_count_non_null(vals: Seq<ValueV>) -> int
    decreases vals.len(),
{
    if vals.len() == 0 {
        0
    } else {
        spec_count_non_null(vals.drop_last()) + if vals.last() is Null {
            0int
        } else {
            1int
        }
    }
}

/// The number of numeric (integer or float) values.
pub open spec fn spec_count_numeric(vals: Seq<ValueV>) -> int
    decreases vals.len(),
{
    if vals.len() == 0 {
        0
    } else {
        spec_count_numeric(vals.drop_last()) + if vals.last() is Integer || vals.last() is Float {
            1int
        } else {
            0int
        }
    }
}

/// Whether any value is a float.
pub open spec fn spec_has_float(vals: Seq<ValueV>) -> bool
    decreases vals.len(),
{
    if vals.len() == 0 {
        false
    } else {
        spec_has_float(vals.drop_last()) || vals.last() is Float
    }
}

/// The mathematical sum of the integer values.
pub open spec fn spec_int_sum(vals: Seq<ValueV>) -> int
    decreases vals.len(),
{
    if vals.len() == 0 {
        0
    } else {
        spec_int_sum(vals.drop_last()) + match vals.last() {
            ValueV::Integer(i) => i as int,
            _ => 0int,
        }
    }
}

/// The running integer minimum, folded in order.
pub open spec fn spec_min_int(vals: Seq<ValueV>) -> Option<i64>
    decreases vals.len(),
{
    if vals.len() == 0 {
        Option::None
    } else {
        let rest = spec_min_int(vals.drop_last());
        match vals.last() {
            ValueV::Integer(i) => match rest {
                Option::Some(b) => if i < b {
                    Option::Some(i)
                } else {
                    Option::Some(b)
                },
                Option::None => Option::Some(i),
            },
            _ => rest,
        }
    }
}

/// The running integer maximum, folded in order.
pub open spec fn spec_max_int(vals: Seq<ValueV>) -> Option<i64>
    decreases vals.len(),
{
    if vals.len() == 0 {
        Option::None
    } else {
        let rest = spec_max_int(vals.drop_last());
        match vals.last() {
            ValueV::Integer(i) => match rest {
                Option::Some(b) => if i > b {
                    Option::Some(i)
                } else {
                    Option::Some(b)
                },
                Option::None => Option::Some(i),
            },
            _ => rest,
        }
    }
}

/// The running float minimum: a new value replaces the best exactly when it
/// is IEEE-less than it (so a leading NaN is kept, later NaNs are not).
pub open spec fn spec_min_float(vals: Seq<ValueV>) -> Option<u64>
    decreases vals.len(),
{
    if vals.len() == 0 {
        Option::None
    } else {
        let rest = spec_min_float(vals.drop_last());
        match vals.last() {
            ValueV::Float(x) => match rest {
                Option::Some(b) => if spec_float_lt_bits(x, b) {
                    Option::Some(x)
                } else {
                    Option::Some(b)
                },
                Option::None => Option::Some(x),
            },
            _ => rest,
        }
    }
}

/// The running float maximum; the mirror of [`spec_min_float`].
pub open spec fn spec_max_float(vals: Seq<ValueV>) -> Option<u64>
    decreases vals.len(),
{
    if vals.len() == 0 {
        Option::None
    } else {
        let rest = spec_max_float(vals.drop_last());
        match vals.last() {
            ValueV::Float(x) => match rest {
                Option::Some(b) => if spec_float_lt_bits(b, x) {
                    Option::Some(x)
                } else {
                    Option::Some(b)
                },
                Option::None => Option::Some(x),
            },
            _ => rest,
        }
    }
}

/// The running string minimum, by lexicographic order.
pub open spec fn spec_min_str(vals: Seq<ValueV>) -> Option<Seq<char>>
    decreases vals.len(),
{
    if vals.len() == 0 {
        Option::None
    } else {
        let rest = spec_min_str(vals.drop_last());
        match vals.last() {
            ValueV::String(s) => match rest {
                Option::Some(b) => if spec_lex_cmp_chars(s, b) == ValueOrdering::Less {
                    Option::Some(s)
                } else {
                    Option::Some(b)
                },
                Option::None => Option::Some(s),
            },
            _ => rest,
        }
    }
}

/// The running string maximum, by lexicographic order.
pub open spec fn spec_max_str(vals: Seq<ValueV>) -> Option<Seq<char>>
    decreases vals.len(),
{
    if vals.len() == 0 {
        Option::None
    } else {
        let rest = spec_max_str(vals.drop_last());
        match vals.last() {
            ValueV::String(s) => match rest {
                Option::Some(b) => if spec_lex_cmp_chars(s, b) == ValueOrdering::Greater {
                    Option::Some(s)
                } else {
                    Option::Some(b)
                },
                Option::None => Option::Some(s),
            },
            _ => rest,
        }
    }
}

/// The extremum value under the fixed type-precedence rule: an integer
/// extremum wins over a float extremum, which wins over a string extremum;
/// null when no value of any of the three types was seen.
pub open spec fn spec_extremum_value(
    int_best: Option<i64>,
    float_best: Option<u64>,
    str_best: Option<Seq<char>>,
) -> ValueV {
    match int_best {
        Option::Some(i) => ValueV::Integer(i),
        Option::None => match float_best {
            Option::Some(x) => ValueV::Float(x),
            Option::None => match str_best {
                Option::Some(s) => ValueV::String(s),
                Option::None => ValueV::Null,
            },
        },
    }
}

/// The accumulator state of one aggregation.
pub enum AggState {
    Count { count: i128 },
    Sum { int_sum: i128, float_sum: u64, is_float: bool },
    Avg { sum_bits: u64, count: i128 },
    Min { int_best: Option<i64>, float_best: Option<u64>, str_best: Option<String> },
    Max { int_best: Option<i64>, float_best: Option<u64>, str_best: Option<String> },
}

/// Whether an optional string matches an optional character sequence.
pub open spec fn spec_opt_str_view(s: Option<String>, v: Option<Seq<char>>) -> bool {
    match (s, v) {
        (Option::None, Option::None) => true,
        (Option::Some(a), Option::Some(b)) => a@ == b,
        _ => false,
    }
}

/// The state an accumulator must be in after folding `vals`, given a bound
/// on how many values can still arrive (so that the wide counters provably
/// do not overflow).
pub open spec fn spec_state_ok(st: AggState, vals: Seq<ValueV>) -> bool {
    match st {
        AggState::Count { count } => count == spec_count_non_null(vals),
        AggState::Sum { int_sum, float_sum, is_float } => is_float == spec_has_float(vals) && (
        !is_float ==> int_sum == spec_int_sum(vals)),
        AggState::Avg { sum_bits, count } => count == spec_count_numeric(vals),
        AggState::Min { int_best, float_best, str_best } => int_best == spec_min_int(vals)
            && float_best == spec_min_float(vals) && spec_opt_str_view(
            str_best,
            spec_min_str(vals),
        ),
        AggState::Max { int_best, float_best, str_best } => int_best == spec_max_int(vals)
            && float_best == spec_max_float(vals) && spec_opt_str_view(
            str_best,
            spec_max_str(vals),
        ),
    }
}

/// What the finalized cell of one aggregation must be, given the folded
/// column values of the group.
pub open spec fn spec_agg_ok(kind: AggregateKind, vals: Seq<ValueV>, w: ValueV) -> bool {
    match kind {
        AggregateKind::Count => w == ValueV::Integer(spec_clamp_i64(spec_count_non_null(vals))),
        AggregateKind::Sum => if spec_has_float(vals) {
            w is Float
        } else {
            w == ValueV::Integer(spec_clamp_i64(spec_int_sum(vals)))
        },
        AggregateKind::Avg => if spec_count_numeric(vals) == 0 {
            w == ValueV::Null
        } else {
            w is Float
        },
        AggregateKind::Min => w == spec_extremum_value(
            spec_min_int(vals),
            spec_min_float(vals),
            spec_min_str(vals),
        ),
        AggregateKind::Max => w == spec_extremum_value(
            spec_max_int(vals),
            spec_max_float(vals),
            spec_max_str(vals),
        ),
    }
}

/// The declared output type of one aggregation for a given input type.
pub open spec fn spec_output_type(kind: AggregateKind, input: DataType) -> DataType {
    match kind {
        AggregateKind::Count => DataType::Integer,
        AggregateKind::Sum => match input {
            DataType::Integer => DataType::Integer,
            DataType::Float => DataType::Float,
            _ => DataType::Float,
        },
        AggregateKind::Avg => DataType::Float,
        AggregateKind::Min => input,
        AggregateKind::Max => input,
    }
}

/// The initial accumulator state of a kind.
pub fn agg_init(kind: AggregateKind) -> (r: AggState)
    ensures
        spec_state_ok(r, Seq::empty()),
        agg_state_matches(r, kind),
{
    match kind {
        AggregateKind::Count => AggState::Count { count: 0 },
        AggregateKind::Sum => AggState::Sum { int_sum: 0, float_sum: 0, is_float: false },
        AggregateKind::Avg => AggState::Avg { sum_bits: 0, count: 0 },
        AggregateKind::Min => AggState::Min { int_best: None, float_best: None, str_best: None },
        AggregateKind::Max => AggState::Max { int_best: None, float_best: None, str_best: None },
    }
}

/// Whether the state variant belongs to the kind.
pub open spec fn agg_state_matches(st: AggState, kind: AggregateKind) -> bool {
    match (st, kind) {
        (AggState::Count { .. }, AggregateKind::Count) => true,
        (AggState::Sum { .. }, AggregateKind::Sum) => true,
        (AggState::Avg { .. }, AggregateKind::Avg) => true,
        (AggState::Min { .. }, AggregateKind::Min) => true,
        (AggState::Max { .. }, AggregateKind::Max) => true,
        _ => false,
    }
}

/// Fold one more value into an accumulator.  The ghost sequence carries the
/// values folded so far; the bound keeps the wide counters from
/// overflowing.
pub fn agg_update<F: FloatOps>(
    st: AggState,
    v: &Value,
    ops: &F,
    Ghost(vals): Ghost<Seq<ValueV>>,
) -> (r: AggState)
    requires
        spec_state_ok(st, vals),
        vals.len() <= usize::MAX,
    ensures
        spec_state_ok(r, vals.push(v@)),
        forall|k: AggregateKind| agg_state_matches(st, k) ==> agg_state_matches(r, k),
{
    proof {
        assert(vals.push(v@).drop_last() =~= vals);
        assert(vals.push(v@).last() == v@);
        lemma_count_bound(vals);
        lemma_int_sum_bound(vals);
    }
    match st {
        AggState::Count { count } => {
            match v {
                Value::Null => AggState::Count { count },
                _ => AggState::Count { count: count + 1 },
            }
        },
        AggState::Sum { int_sum, float_sum, is_float } => {
            match v {
                Value::Integer(i) => {
                    if is_float {
                        let f = ops.from_int(*i);
                        AggState::Sum { int_sum, float_sum: ops.add(float_sum, f), is_float }
                    } else {
                        AggState::Sum { int_sum: int_sum + (*i as i128), float_sum, is_float }
                    }
                },
                Value::Float(x) => {
                    if !is_float {
                        let start = if int_sum > (i64::MAX as i128) {
                            i64::MAX
                        } else if int_sum < (i64::MIN as i128) {
                            i64::MIN
                        } else {
                            int_sum as i64
                        };
                        let base = ops.from_int(start);
                        AggState::Sum {
                            int_sum,
                            float_sum: ops.add(base, *x),
                            is_float: true,
                        }
                    } else {
                        AggState::Sum { int_sum, float_sum: ops.add(float_sum, *x), is_float }
                    }
                },
                _ => AggState::Sum { int_sum, float_sum, is_float },
            }
        },
        AggState::Avg { sum_bits, count } => {
            match v {
                Value::Integer(i) => {
                    let f = ops.from_int(*i);
                    AggState::Avg { sum_bits: ops.add(sum_bits, f), count: count + 1 }
                },
                Value::Float(x) => {
                    AggState::Avg { sum_bits: ops.add(sum_bits, *x), count: count + 1 }
                },
                _ => AggState::Avg { sum_bits, count },
            }
        },
        AggState::Min { int_best, float_best, str_best } => {
            match v {
                Value::Integer(i) => {
                    let nb = match int_best {
                        Some(b) => if *i < b {
                            Some(*i)
                        } else {
                            Some(b)
                        },
                        None => Some(*i),
                    };
                    AggState::Min { int_best: nb, float_best, str_best }
                },
                Value::Float(x) => {
                    let nb = match float_best {
                        Some(b) => if float_lt_bits(*x, b) {
                            Some(*x)
                        } else {
                            Some(b)
                        },
                        None => Some(*x),
                    };
                    AggState::Min { int_best, float_best: nb, str_best }
                },
                Value::String(s) => {
                    let nb = match str_best {
                        Some(b) => {
                            match str_cmp(s.as_str(), b.as_str()) {
                                ValueOrdering::Less => Some(s.clone()),
                                _ => Some(b),
                            }
                        },
                        None => Some(s.clone()),
                    };
                    AggState::Min { int_best, float_best, str_best: nb }
                },
                _ => AggState::Min { int_best, float_best, str_best },
            }
        },
        AggState::Max { int_best, float_best, str_best } => {
            match v {
                Value::Integer(i) => {
                    let nb = match int_best {
                        Some(b) => if *i > b {
                            Some(*i)
                        } else {
                            Some(b)
                        },
                        None => Some(*i),
                    };
                    AggState::Max { int_best: nb, float_best, str_best }
                },
                Value::Float(x) => {
                    let nb = match float_best {
                        Some(b) => if float_lt_bits(b, *x) {
                            Some(*x)
                        } else {
                            Some(b)
                        },
                        None => Some(*x),
                    };
                    AggState::Max { int_best, float_best: nb, str_best }
                },
                Value::String(s) => {
                    let nb = match str_best {
                        Some(b) => {
                            match str_cmp(s.as_str(), b.as_str()) {
                                ValueOrdering::Greater => Some(s.clone()),
                                _ => Some(b),
                            }
                        },
                        None => Some(s.clone()),
                    };
                    AggState::Max { int_best, float_best, str_best: nb }
                },
                _ => AggState::Max { int_best, float_best, str_best },
            }
        },
    }
}

/// Counters stay within the number of values folded.
pub proof fn lemma_count_bound(vals: Seq<ValueV>)
    ensures
        0 <= spec_count_non_null(vals) <= vals.len(),
        0 <= spec_count_numeric(vals) <= vals.len(),
    decreases vals.len(),
{
    if vals.len() > 0 {
        lemma_count_bound(vals.drop_last());
    }
}

/// The integer sum is bounded by the number of values times the largest
/// magnitude of an `i64`.
pub proof fn lemma_int_sum_bound(vals: Seq<ValueV>)
    ensures
        -(vals.len() as int) * 0x8000_0000_0000_0000 <= spec_int_sum(vals) <= (vals.len() as int)
            * 0x8000_0000_0000_0000,
    decreases vals.len(),
{
    if vals.len() == 0 {
    } else {
        lemma_int_sum_bound(vals.drop_last());
        let n = vals.drop_last().len() as int;
        assert((n + 1) * 0x8000_0000_0000_0000 == n * 0x8000_0000_0000_0000
            + 0x8000_0000_0000_0000) by (nonlinear_arith);
        assert(-(n + 1) * 0x8000_0000_0000_0000 == -(n) * 0x8000_0000_0000_0000 - (
        0x8000_0000_0000_0000)) by (nonlinear_arith);
    }
}

/// Finalize an accumulator into its output cell.
pub fn agg_finalize<F: FloatOps>(
    kind: AggregateKind,
    st: AggState,
    ops: &F,
    Ghost(vals): Ghost<Seq<ValueV>>,
) -> (r: Value)
    requires
        spec_state_ok(st, vals),
        agg_state_matches(st, kind),
        vals.len() <= usize::MAX,
    ensures
        spec_agg_ok(kind, vals, r@),
{
    proof {
        lemma_count_bound(vals);
        lemma_int_sum_bound(vals);
    }
    match st {
        AggState::Count { count } => {
            let c = if count > (i64::MAX as i128) {
                i64::MAX
            } else if count < (i64::MIN as i128) {
                i64::MIN
            } else {
                count as i64
            };
            Value::Integer(c)
        },
        AggState::Sum { int_sum, float_sum, is_float } => {
            if is_float {
                Value::Float(float_sum)
            } else {
                let s = if int_sum > (i64::MAX as i128) {
                    i64::MAX
                } else if int_sum < (i64::MIN as i128) {
                    i64::MIN
                } else {
                    int_sum as i64
                };
                Value::Integer(s)
            }
        },
        AggState::Avg { sum_bits, count } => {
            if count > 0 {
                let c = if count > (i64::MAX as i128) {
                    i64::MAX
                } else {
                    count as i64
                };
                Value::Float(ops.div(sum_bits, ops.from_int(c)))
            } else {
                Value::Null
            }
        },
        AggState::Min { int_best, float_best, str_best } => {
            match int_best {
                Some(i) => Value::Integer(i),
                None => match float_best {
                    Some(x) => Value::Float(x),
                    None => match str_best {
                        Some(s) => Value::String(s),
                        None => Value::Null,
                    },
                },
            }
        },
        AggState::Max { int_best, float_best, str_best } => {
            match int_best {
                Some(i) => Value::Integer(i),
                None => match float_best {
                    Some(x) => Value::Float(x),
                    None => match str_best {
                        Some(s) => Value::String(s),
                        None => Value::Null,
                    },
                },
            }
        },
    }
}

/// The count aggregate: the number of non-null values, as an integer.
pub struct CountFunction;

impl CountFunction {
    /// The output type: always integer.
    pub fn output_type(&self, input_type: &DataType) -> (r: DataType)
        ensures
            r == spec_output_type(AggregateKind::Count, *input_type),
    {
        DataType::Integer
    }

    /// The kind this function stands for.
    pub fn kind(&self) -> (r: AggregateKind)
        ensures
            r == AggregateKind::Count,
    {
        AggregateKind::Count
    }
}

/// The sum aggregate: integer accumulation until the first float promotes
/// the running total to a float, permanently for the group.
pub struct SumFunction;

impl SumFunction {
    /// The output type: integer for integer input, float otherwise.
    pub fn output_type(&self, input_type: &DataType) -> (r: DataType)
        ensures
            r == spec_output_type(AggregateKind::Sum, *input_type),
    {
        match input_type {
            DataType::Integer => DataType::Integer,
            _ => DataType::Float,
        }
    }

    /// The kind this function stands for.
    pub fn kind(&self) -> (r: AggregateKind)
        ensures
            r == AggregateKind::Sum,
    {
        AggregateKind::Sum
    }
}

/// The average aggregate: always a float; null over an empty sample.
pub struct AvgFunction;

impl AvgFunction {
    /// The output type: always float.
    pub fn output_type(&self, input_type: &DataType) -> (r: DataType)
        ensures
            r == spec_output_type(AggregateKind::Avg, *input_type),
    {
        DataType::Float
    }

    /// The kind this function stands for.
    pub fn kind(&self) -> (r: AggregateKind)
        ensures
            r == AggregateKind::Avg,
    {
        AggregateKind::Avg
    }
}

/// The minimum aggregate, with the fixed integer-over-float-over-string
/// precedence for mixed columns.
pub struct MinFunction;

impl MinFunction {
    /// The output type: the input type.
    pub fn output_type(&self, input_type: &DataType) -> (r: DataType)
        ensures
            r == spec_output_type(AggregateKind::Min, *input_type),
    {
        input_type.clone()
    }

    /// The kind this function stands for.
    pub fn kind(&self) -> (r: AggregateKind)
        ensures
            r == AggregateKind::Min,
    {
        AggregateKind::Min
    }
}

/// The maximum aggregate, with the fixed integer-over-float-over-string
/// precedence for mixed columns.
pub struct MaxFunction;

impl MaxFunction {
    /// The output type: the input type.
    pub fn output_type(&self, input_type: &DataType) -> (r: DataType)
        ensures
            r == spec_output_type(AggregateKind::Max, *input_type),
    {
        input_type.clone()
    }

    /// The kind this function stands for.
    pub fn kind(&self) -> (r: AggregateKind)
        ensures
            r == AggregateKind::Max,
    {
        AggregateKind::Max
    }
}


// ---------------------------------------------------------------------------
// Grouping
// ---------------------------------------------------------------------------

/// Whether a key tuple occurs among collected keys.
pub open spec fn spec_key_in(keys: Seq<Seq<ValueV>>, key: Seq<ValueV>) -> bool {
    exists|j: int| 0 <= j < keys.len() && spec_key_eq(#[trigger] keys[j], key)
}

/// The distinct group keys of `rows` from position `i` on, appended to the
/// keys already collected, in first-occurrence order.
pub open spec fn spec_collect_keys(
    rows: Seq<Seq<ValueV>>,
    gidx: Seq<int>,
    i: int,
    acc: Seq<Seq<ValueV>>,
) -> Seq<Seq<ValueV>>
    decreases rows.len() - i,
{
    if i < 0 || i >= rows.len() {
        acc
    } else {
        let key = spec_key(rows[i], gidx);
        if spec_key_in(acc, key) {
            spec_collect_keys(rows, gidx, i + 1, acc)
        } else {
            spec_collect_keys(rows, gidx, i + 1, acc.push(key))
        }
    }
}

/// The values of column `c` over the rows whose group key equals `key`, in
/// row order.
pub open spec fn spec_group_col_values(
    rows: Seq<Seq<ValueV>>,
    gidx: Seq<int>,
    key: Seq<ValueV>,
    c: int,
) -> Seq<ValueV>
    decreases rows.len(),
{
    if rows.len() == 0 {
        Seq::empty()
    } else {
        let rest = spec_group_col_values(rows.drop_last(), gidx, key, c);
        if spec_key_eq(spec_key(rows.last(), gidx), key) {
            rest.push(rows.last()[c])
        } else {
            rest
        }
    }
}

/// A group's column values are no more numerous than the rows.
pub proof fn lemma_group_vals_len(rows: Seq<Seq<ValueV>>, gidx: Seq<int>, key: Seq<ValueV>, c: int)
    ensures
        spec_group_col_values(rows, gidx, key, c).len() <= rows.len(),
    decreases rows.len(),
{
    if rows.len() > 0 {
        lemma_group_vals_len(rows.drop_last(), gidx, key, c);
    }
}

/// Whether a key row occurs among the collected key rows.
fn key_in_keys(keys: &Vec<Row>, krow: &Row) -> (r: bool)
    ensures
        r == spec_key_in(Seq::new(keys@.len(), |g: int| keys@[g]@), krow@),
{
    let ghost acc = Seq::new(keys@.len(), |g: int| keys@[g]@);
    let mut g: usize = 0;
    while g < keys.len()
        invariant
            g <= keys.len(),
            acc == Seq::new(keys@.len(), |g2: int| keys@[g2]@),
            forall|g2: int| 0 <= g2 < g ==> !spec_key_eq(#[trigger] acc[g2], krow@),
        decreases keys.len() - g,
    {
        if crate::processing::join::key_eq_rows(&keys[g], krow) {
            proof {
                assert(acc[g as int] == keys@[g as int]@);
                assert(spec_key_eq(acc[g as int], krow@));
            }
            return true;
        }
        proof {
            assert(acc[g as int] == keys@[g as int]@);
        }
        g = g + 1;
    }
    proof {
        if spec_key_in(acc, krow@) {
            let w = choose|w: int| 0 <= w < acc.len() && spec_key_eq(acc[w], krow@);
            assert(!spec_key_eq(acc[w], krow@));
        }
    }
    false
}

/// Group rows by key columns and fold aggregations over each group.
pub struct GroupByProcessor {
    pub group_by_columns: Vec<String>,
    pub aggregations: Vec<(String, String, AggregateKind)>,
}

/// The views of a vector of strings.
pub open spec fn spec_strings_view_agg(s: Seq<String>) -> Seq<Seq<char>> {
    Seq::new(s.len(), |i: int| s[i]@)
}

/// The views of the aggregation triples.
pub open spec fn spec_aggs_view(s: Seq<(String, String, AggregateKind)>) -> Seq<
    (Seq<char>, Seq<char>, AggregateKind),
> {
    Seq::new(s.len(), |i: int| (s[i].0@, s[i].1@, s[i].2))
}

/// What a successful group-by guarantees: the configuration is non-empty
/// and resolves, the output holds the distinct keys in first-occurrence
/// order, each row the key tuple followed by the finalized cells, under the
/// exact output schema, with metadata carried over.
pub open spec fn spec_group_by_ok(
    gcols: Seq<Seq<char>>,
    aggs: Seq<(Seq<char>, Seq<char>, AggregateKind)>,
    input: crate::data::DataSetV,
    out: crate::data::DataSetV,
) -> bool {
    let gidx = Seq::new(gcols.len(), |k: int| spec_col_index(input.schema, gcols[k]));
    let aidx = Seq::new(aggs.len(), |a: int| spec_col_index(input.schema, aggs[a].1));
    let keys = spec_collect_keys(input.data, gidx, 0, Seq::empty());
    &&& gcols.len() > 0 || aggs.len() > 0
    &&& forall|k: int| 0 <= k < gcols.len() ==> spec_col_index(input.schema, #[trigger] gcols[k]) >= 0
    &&& forall|a: int|
        0 <= a < aggs.len() ==> spec_col_index(input.schema, (#[trigger] aggs[a]).1) >= 0
    &&& out.schema == Seq::new(gcols.len(), |k: int| input.schema[gidx[k]]).add(
        Seq::new(
            aggs.len(),
            |a: int|
                FieldV {
                    name: aggs[a].0,
                    data_type: spec_output_type(aggs[a].2, input.schema[aidx[a]].data_type),
                    nullable: true,
                },
        ),
    )
    &&& out.data.len() == keys.len()
    &&& forall|g: int|
        0 <= g < keys.len() ==> (#[trigger] out.data[g]).len() == gcols.len() + aggs.len()
            && out.data[g].subrange(0, gcols.len() as int) == keys[g]
    &&& forall|g: int, a: int|
        0 <= g < keys.len() && 0 <= a < aggs.len() ==> spec_agg_ok(
            (#[trigger] aggs[a]).2,
            spec_group_col_values(input.data, gidx, #[trigger] keys[g], aidx[a]),
            out.data[g][gcols.len() + a],
        )
    &&& out.metadata == input.metadata
}

/// When a group-by fails: nothing is configured, or a named column does not
/// resolve.
pub open spec fn spec_group_by_err(
    gcols: Seq<Seq<char>>,
    aggs: Seq<(Seq<char>, Seq<char>, AggregateKind)>,
    input: crate::data::DataSetV,
    e: ProcessingError,
) -> bool {
    e is InvalidArgument && ((gcols.len() == 0 && aggs.len() == 0) || (exists|k: int|
        0 <= k < gcols.len() && spec_col_index(input.schema, #[trigger] gcols[k]) == -1) || (
    exists|a: int|
        0 <= a < aggs.len() && spec_col_index(input.schema, (#[trigger] aggs[a]).1) == -1))
}

impl GroupByProcessor {
    /// Create a new group-by processor with no key columns and no
    /// aggregations.
    pub fn new() -> (r: GroupByProcessor)
        ensures
            r.group_by_columns@.len() == 0,
            r.aggregations@.len() == 0,
    {
        GroupByProcessor { group_by_columns: Vec::new(), aggregations: Vec::new() }
    }

    /// Add a column to group by.
    pub fn group_by(self, column: &str) -> (r: GroupByProcessor)
        ensures
            r.group_by_columns@.len() == self.group_by_columns@.len() + 1,
            spec_strings_view_agg(r.group_by_columns@) == spec_strings_view_agg(
                self.group_by_columns@,
            ).push(column@),
            r.aggregations == self.aggregations,
    {
        let mut s = self;
        let ghost before = spec_strings_view_agg(s.group_by_columns@);
        s.group_by_columns.push(column.to_owned());
        proof {
            assert(spec_strings_view_agg(s.group_by_columns@) =~= before.push(column@));
        }
        s
    }

    /// Add an aggregation.
    pub fn aggregate(self, output_name: &str, input_column: &str, kind: AggregateKind) -> (r:
        GroupByProcessor)
        ensures
            r.group_by_columns == self.group_by_columns,
            spec_aggs_view(r.aggregations@) == spec_aggs_view(self.aggregations@).push(
                (output_name@, input_column@, kind),
            ),
    {
        let mut s = self;
        let ghost before = spec_aggs_view(s.aggregations@);
        s.aggregations.push((output_name.to_owned(), input_column.to_owned(), kind));
        proof {
            assert(spec_aggs_view(s.aggregations@) =~= before.push(
                (output_name@, input_column@, kind),
            ));
        }
        s
    }

    /// Add a count aggregation.
    pub fn count(self, output_name: &str, input_column: &str) -> (r: GroupByProcessor)
        ensures
            r.group_by_columns == self.group_by_columns,
            spec_aggs_view(r.aggregations@) == spec_aggs_view(self.aggregations@).push(
                (output_name@, input_column@, AggregateKind::Count),
            ),
    {
        self.aggregate(output_name, input_column, AggregateKind::Count)
    }

    /// Add a sum aggregation.
    pub fn sum(self, output_name: &str, input_column: &str) -> (r: GroupByProcessor)
        ensures
            r.group_by_columns == self.group_by_columns,
            spec_aggs_view(r.aggregations@) == spec_aggs_view(self.aggregations@).push(
                (output_name@, input_column@, AggregateKind::Sum),
            ),
    {
        self.aggregate(output_name, input_column, AggregateKind::Sum)
    }

    /// Add an average aggregation.
    pub fn avg(self, output_name: &str, input_column: &str) -> (r: GroupByProcessor)
        ensures
            r.group_by_columns == self.group_by_columns,
            spec_aggs_view(r.aggregations@) == spec_aggs_view(self.aggregations@).push(
                (output_name@, input_column@, AggregateKind::Avg),
            ),
    {
        self.aggregate(output_name, input_column, AggregateKind::Avg)
    }

    /// Add a minimum aggregation.
    pub fn min(self, output_name: &str, input_column: &str) -> (r: GroupByProcessor)
        ensures
            r.group_by_columns == self.group_by_columns,
            spec_aggs_view(r.aggregations@) == spec_aggs_view(self.aggregations@).push(
                (output_name@, input_column@, AggregateKind::Min),
            ),
    {
        self.aggregate(output_name, input_column, AggregateKind::Min)
    }

    /// Add a maximum aggregation.
    pub fn max(self, output_name: &str, input_column: &str) -> (r: GroupByProcessor)
        ensures
            r.group_by_columns == self.group_by_columns,
            spec_aggs_view(r.aggregations@) == spec_aggs_view(self.aggregations@).push(
                (output_name@, input_column@, AggregateKind::Max),
            ),
    {
        self.aggregate(output_name, input_column, AggregateKind::Max)
    }

    /// Group the rows by the key columns (structural equality, groups in
    /// first-occurrence order of their keys) and fold each aggregation over
    /// each group.  Each output row is the group's key tuple followed by one
    /// finalized cell per aggregation; the output schema is the key fields
    /// followed by the aggregate fields.  Requires at least one key column
    /// or aggregation, and every named column to resolve; otherwise an
    /// `InvalidArgument` error.
    pub fn process<F: FloatOps>(&self, input: &DataSet, ops: &F) -> (r: Result<
        DataSet,
        ProcessingError,
    >)
        requires
            input.wf(),
        ensures
            match r {
                Ok(out) => spec_group_by_ok(
                    spec_strings_view_agg(self.group_by_columns@),
                    spec_aggs_view(self.aggregations@),
                    input@,
                    out@,
                ) && out.wf(),
                Err(e) => spec_group_by_err(
                    spec_strings_view_agg(self.group_by_columns@),
                    spec_aggs_view(self.aggregations@),
                    input@,
                    e,
                ),
            },
    {
        let ghost schema = input@.schema;
        let ghost rows = input@.data;
        let ghost gcols = spec_strings_view_agg(self.group_by_columns@);
        let ghost aggs = spec_aggs_view(self.aggregations@);
        if self.group_by_columns.len() == 0 && self.aggregations.len() == 0 {
            return Err(
                ProcessingError::InvalidArgument(
                    String::from_str(
                        "Group by requires at least one group by column or aggregation",
                    ),
                ),
            );
        }
        // Resolve the key columns.
        let mut gvec: Vec<usize> = Vec::new();
        let mut key_fields: Vec<Field> = Vec::new();
        let mut c: usize = 0;
        while c < self.group_by_columns.len()
            invariant
                c <= self.group_by_columns.len(),
                schema == input@.schema,
                gcols == spec_strings_view_agg(self.group_by_columns@),
                gvec@.len() == c,
                key_fields@.len() == c,
                forall|k: int|
                    0 <= k < c ==> spec_col_index(schema, gcols[k]) == (#[trigger] gvec@[k]) as int,
                forall|k: int| 0 <= k < c ==> (#[trigger] gvec@[k]) < schema.len(),
                forall|k: int|
                    0 <= k < c ==> (#[trigger] key_fields@[k])@ == schema[gvec@[k] as int],
            decreases self.group_by_columns.len() - c,
        {
            let col = &self.group_by_columns[c];
            proof {
                assert(gcols[c as int] == col@);
            }
            match input.schema.col_index(col.as_str()) {
                Some(i) => {
                    proof {
                        lemma_col_index(schema, col@);
                    }
                    gvec.push(i);
                    key_fields.push(input.schema.fields[i].clone());
                },
                None => {
                    return Err(
                        ProcessingError::InvalidArgument(
                            concat3("Group by column '", col.as_str(), "' not found"),
                        ),
                    );
                },
            }
            c = c + 1;
        }
        // Resolve the aggregation input columns.
        let mut avec: Vec<usize> = Vec::new();
        let mut agg_fields: Vec<Field> = Vec::new();
        let mut a: usize = 0;
        while a < self.aggregations.len()
            invariant
                a <= self.aggregations.len(),
                schema == input@.schema,
                aggs == spec_aggs_view(self.aggregations@),
                avec@.len() == a,
                agg_fields@.len() == a,
                forall|k: int|
                    0 <= k < a ==> spec_col_index(schema, aggs[k].1) == (#[trigger] avec@[k]) as int,
                forall|k: int| 0 <= k < a ==> (#[trigger] avec@[k]) < schema.len(),
                forall|k: int|
                    0 <= k < a ==> (#[trigger] agg_fields@[k])@ == (FieldV {
                        name: aggs[k].0,
                        data_type: spec_output_type(aggs[k].2, schema[avec@[k] as int].data_type),
                        nullable: true,
                    }),
            decreases self.aggregations.len() - a,
        {
            let entry = &self.aggregations[a];
            proof {
                assert(aggs[a as int] == (entry.0@, entry.1@, entry.2));
            }
            match input.schema.col_index(entry.1.as_str()) {
                Some(i) => {
                    proof {
                        lemma_col_index(schema, entry.1@);
                    }
                    avec.push(i);
                    let ghost ft = spec_output_type(entry.2, schema[i as int].data_type);
                    let out_type = match entry.2 {
                        AggregateKind::Count => DataType::Integer,
                        AggregateKind::Sum => match &input.schema.fields[i].data_type {
                            DataType::Integer => DataType::Integer,
                            _ => DataType::Float,
                        },
                        AggregateKind::Avg => DataType::Float,
                        AggregateKind::Min => input.schema.fields[i].data_type.clone(),
                        AggregateKind::Max => input.schema.fields[i].data_type.clone(),
                    };
                    agg_fields.push(Field { name: entry.0.clone(), data_type: out_type, nullable: true });
                },
                None => {
                    return Err(
                        ProcessingError::InvalidArgument(
                            concat3("Aggregation column '", entry.1.as_str(), "' not found"),
                        ),
                    );
                },
            }
            a = a + 1;
        }
        let na = self.aggregations.len();
        let ng = self.group_by_columns.len();
        let ghost gidx = Seq::new(gvec@.len(), |k: int| gvec@[k] as int);
        let ghost aidx = Seq::new(avec@.len(), |k: int| avec@[k] as int);
        proof {
            assert(gidx =~= Seq::new(gcols.len(), |k: int| spec_col_index(schema, gcols[k])));
            assert(aidx =~= Seq::new(aggs.len(), |k: int| spec_col_index(schema, aggs[k].1)));
        }
        // The output schema.
        let mut fields: Vec<Field> = key_fields;
        let mut agg_fields_m = agg_fields;
        fields.append(&mut agg_fields_m);
        let out_schema = Schema { fields };
        proof {
            assert(out_schema@ =~= Seq::new(gcols.len(), |k: int| schema[gidx[k]]).add(
                Seq::new(
                    aggs.len(),
                    |a2: int|
                        FieldV {
                            name: aggs[a2].0,
                            data_type: spec_output_type(aggs[a2].2, schema[aidx[a2]].data_type),
                            nullable: true,
                        },
                ),
            ));
        }
        // Collect the distinct keys in first-occurrence order.
        let ghost keys_spec = spec_collect_keys(rows, gidx, 0, Seq::empty());
        let nrows = input.data.len();
        let mut keys: Vec<Row> = Vec::new();
        let mut i: usize = 0;
        proof {
            assert(Seq::new(keys@.len(), |g: int| keys@[g]@) =~= Seq::<Seq<ValueV>>::empty());
        }
        while i < nrows
            invariant
                i <= nrows,
                nrows == input.data@.len(),
                input.wf(),
                schema == input@.schema,
                rows == input@.data,
                gidx == Seq::new(gvec@.len(), |k: int| gvec@[k] as int),
                ng == gvec@.len(),
                forall|k: int| 0 <= k < gvec@.len() ==> (#[trigger] gvec@[k]) < schema.len(),
                keys_spec == spec_collect_keys(
                    rows,
                    gidx,
                    i as int,
                    Seq::new(keys@.len(), |g: int| keys@[g]@),
                ),
                forall|g2: int| 0 <= g2 < keys@.len() ==> (#[trigger] keys@[g2])@.len() == ng,
            decreases nrows - i,
        {
            let ghost acc = Seq::new(keys@.len(), |g: int| keys@[g]@);
            proof {
                assert(rows[i as int] == input.data@[i as int]@);
                assert(rows[i as int].len() == schema.len());
            }
            let krow = project_row(&input.data[i], &gvec);
            proof {
                assert(krow@ =~= spec_key(rows[i as int], gidx));
            }
            if !key_in_keys(&keys, &krow) {
                keys.push(krow);
                proof {
                    assert(Seq::new(keys@.len(), |g2: int| keys@[g2]@) =~= acc.push(
                        spec_key(rows[i as int], gidx),
                    ));
                }
            }
            i = i + 1;
        }
        proof {
            assert(keys_spec == Seq::new(keys@.len(), |g: int| keys@[g]@));
        }
        // Fold the aggregations over each group.
        let mut data: Vec<Row> = Vec::new();
        let mut g: usize = 0;
        while g < keys.len()
            invariant
                g <= keys.len(),
                input.wf(),
                nrows == input.data@.len(),
                schema == input@.schema,
                rows == input@.data,
                na == self.aggregations@.len(),
                ng == self.group_by_columns@.len(),
                ng == gvec@.len(),
                aggs == spec_aggs_view(self.aggregations@),
                gidx == Seq::new(gvec@.len(), |k: int| gvec@[k] as int),
                aidx == Seq::new(avec@.len(), |k: int| avec@[k] as int),
                gvec@.len() == ng,
                avec@.len() == na,
                forall|k: int| 0 <= k < gvec@.len() ==> (#[trigger] gvec@[k]) < schema.len(),
                forall|k: int| 0 <= k < avec@.len() ==> (#[trigger] avec@[k]) < schema.len(),
                keys_spec == Seq::new(keys@.len(), |g2: int| keys@[g2]@),
                forall|g2: int| 0 <= g2 < keys@.len() ==> (#[trigger] keys@[g2])@.len() == ng,
                data@.len() == g,
                forall|g2: int|
                    0 <= g2 < g ==> (#[trigger] data@[g2])@.len() == ng + na && data@[g2]@.subrange(
                        0,
                        ng as int,
                    ) == keys_spec[g2],
                forall|g2: int, a2: int|
                    0 <= g2 < g && 0 <= a2 < na ==> spec_agg_ok(
                        (#[trigger] aggs[a2]).2,
                        spec_group_col_values(rows, gidx, #[trigger] keys_spec[g2], aidx[a2]),
                        data@[g2]@[ng + a2],
                    ),
            decreases keys.len() - g,
        {
            let ghost keyv = keys_spec[g as int];
            proof {
                assert(keys@[g as int]@ == keyv);
            }
            // Initialize the accumulators.
            let mut states: Vec<AggState> = Vec::new();
            let mut a2: usize = 0;
            while a2 < na
                invariant
                    a2 <= na,
                    na == self.aggregations@.len(),
                    aggs == spec_aggs_view(self.aggregations@),
                    states@.len() == a2,
                    forall|k: int|
                        0 <= k < a2 ==> spec_state_ok(#[trigger] states@[k], Seq::empty())
                            && agg_state_matches(states@[k], aggs[k].2),
                decreases na - a2,
            {
                proof {
                    assert(aggs[a2 as int].2 == self.aggregations@[a2 as int].2);
                }
                states.push(agg_init(self.aggregations[a2].2));
                a2 = a2 + 1;
            }
            proof {
                assert(spec_group_col_values(rows.take(0), gidx, keyv, 0) =~= Seq::<ValueV>::empty());
            }
            // Fold over the matching rows.
            let mut i2: usize = 0;
            proof {
                assert forall|k: int|
                    0 <= k < na implies spec_state_ok(
                    #[trigger] states@[k],
                    spec_group_col_values(rows.take(i2 as int), gidx, keyv, aidx[k]),
                ) && agg_state_matches(states@[k], aggs[k].2) by {
                    assert(rows.take(0) =~= Seq::<Seq<ValueV>>::empty());
                    assert(spec_group_col_values(rows.take(0), gidx, keyv, aidx[k])
                        =~= Seq::<ValueV>::empty());
                }
            }
            while i2 < input.data.len()
                invariant
                    i2 <= input.data.len(),
                    nrows == input.data@.len(),
                    g < keys@.len(),
                    keys@[g as int]@ == keyv,
                    input.wf(),
                    schema == input@.schema,
                    rows == input@.data,
                    na == self.aggregations@.len(),
                    aggs == spec_aggs_view(self.aggregations@),
                    gidx == Seq::new(gvec@.len(), |k: int| gvec@[k] as int),
                    aidx == Seq::new(avec@.len(), |k: int| avec@[k] as int),
                    avec@.len() == na,
                    forall|k: int| 0 <= k < gvec@.len() ==> (#[trigger] gvec@[k]) < schema.len(),
                    forall|k: int| 0 <= k < avec@.len() ==> (#[trigger] avec@[k]) < schema.len(),
                    states@.len() == na,
                    forall|k: int|
                        0 <= k < na ==> spec_state_ok(
                            #[trigger] states@[k],
                            spec_group_col_values(rows.take(i2 as int), gidx, keyv, aidx[k]),
                        ) && agg_state_matches(states@[k], aggs[k].2),
                decreases input.data.len() - i2,
            {
                proof {
                    assert(rows[i2 as int] == input.data@[i2 as int]@);
                    assert(rows[i2 as int].len() == schema.len());
                    assert(rows.take(i2 + 1).drop_last() =~= rows.take(i2 as int));
                    assert(rows.take(i2 + 1).last() == rows[i2 as int]);
                }
                let krow = project_row(&input.data[i2], &gvec);
                proof {
                    assert(krow@ =~= spec_key(rows[i2 as int], gidx));
                }
                let keyrow = &keys[g];
                let matches_key = crate::processing::join::key_eq_rows(&krow, keyrow);
                if matches_key {
                    let mut a3: usize = 0;
                    while a3 < na
                        invariant
                            a3 <= na,
                            i2 < input.data.len(),
                            nrows == input.data@.len(),
                            input.wf(),
                            schema == input@.schema,
                            rows == input@.data,
                            na == self.aggregations@.len(),
                            aggs == spec_aggs_view(self.aggregations@),
                            aidx == Seq::new(avec@.len(), |k: int| avec@[k] as int),
                            avec@.len() == na,
                            forall|k: int|
                                0 <= k < avec@.len() ==> (#[trigger] avec@[k]) < schema.len(),
                            states@.len() == na,
                            spec_key_eq(spec_key(rows[i2 as int], gidx), keyv),
                            forall|k: int|
                                a3 <= k < na ==> spec_state_ok(
                                    #[trigger] states@[k],
                                    spec_group_col_values(rows.take(i2 as int), gidx, keyv, aidx[k]),
                                ) && agg_state_matches(states@[k], aggs[k].2),
                            forall|k: int|
                                0 <= k < a3 ==> spec_state_ok(
                                    #[trigger] states@[k],
                                    spec_group_col_values(rows.take(i2 + 1), gidx, keyv, aidx[k]),
                                ) && agg_state_matches(states@[k], aggs[k].2),
                        decreases na - a3,
                    {
                        let ghost prevs = states@;
                        let ghost prefix = spec_group_col_values(
                            rows.take(i2 as int),
                            gidx,
                            keyv,
                            aidx[a3 as int],
                        );
                        proof {
                            lemma_group_vals_len(rows.take(i2 as int), gidx, keyv, aidx[a3 as int]);
                            assert(rows.take(i2 + 1).drop_last() =~= rows.take(i2 as int));
                            assert(rows.take(i2 + 1).last() == rows[i2 as int]);
                        }
                        proof {
                            assert(rows[i2 as int] == input.data@[i2 as int]@);
                            assert(rows[i2 as int].len() == schema.len());
                            assert(rows.take(i2 as int).len() <= rows.len());
                        }
                        let st = states.remove(a3);
                        let v = &input.data[i2].values[avec[a3]];
                        proof {
                            assert(v@ == rows[i2 as int][aidx[a3 as int]]);
                        }
                        let st2 = agg_update(st, v, ops, Ghost(prefix));
                        states.insert(a3, st2);
                        proof {
                            assert(prefix.push(rows[i2 as int][aidx[a3 as int]])
                                =~= spec_group_col_values(rows.take(i2 + 1), gidx, keyv, aidx[a3 as int]));
                            assert forall|k: int|
                                0 <= k < na && k != a3 implies states@[k] == prevs[k] by {}
                        }
                        a3 = a3 + 1;
                    }
                } else {
                    proof {
                        assert forall|k: int|
                            0 <= k < na implies spec_group_col_values(
                            rows.take(i2 + 1),
                            gidx,
                            keyv,
                            aidx[k],
                        ) == spec_group_col_values(rows.take(i2 as int), gidx, keyv, aidx[k]) by {
                            assert(!spec_key_eq(spec_key(rows.take(i2 + 1).last(), gidx), keyv));
                        }
                    }
                }
                i2 = i2 + 1;
            }
            proof {
                assert(rows.take(i2 as int) =~= rows);
            }
            // Finalize: the key tuple, then one cell per aggregation.
            let mut values = crate::data::clone_values(&keys[g].values);
            proof {
                assert(keys@[g as int]@.len() == ng);
                assert(keyv.len() == ng);
                assert forall|k: int| 0 <= k < ng implies (#[trigger] values@[k])@ == keyv[k] by {
                    assert(keys@[g as int]@[k] == keyv[k]);
                }
            }
            let mut a4: usize = 0;
            while a4 < na
                invariant
                    a4 <= na,
                    nrows == input.data@.len(),
                    na == self.aggregations@.len(),
                    ng == keyv.len(),
                    aggs == spec_aggs_view(self.aggregations@),
                    aidx == Seq::new(avec@.len(), |k: int| avec@[k] as int),
                    avec@.len() == na,
                    rows == input@.data,
                    states@.len() == na - a4,
                    forall|k: int|
                        0 <= k < states@.len() ==> spec_state_ok(
                            #[trigger] states@[k],
                            spec_group_col_values(rows, gidx, keyv, aidx[k + a4]),
                        ) && agg_state_matches(states@[k], aggs[k + a4].2),
                    values@.len() == ng + a4,
                    forall|k: int| 0 <= k < ng ==> (#[trigger] values@[k])@ == keyv[k],
                    forall|k: int|
                        0 <= k < a4 ==> spec_agg_ok(
                            aggs[k].2,
                            spec_group_col_values(rows, gidx, keyv, aidx[k]),
                            (#[trigger] values@[ng + k])@,
                        ),
                decreases na - a4,
            {
                let ghost vals = spec_group_col_values(rows, gidx, keyv, aidx[a4 as int]);
                proof {
                    lemma_group_vals_len(rows, gidx, keyv, aidx[a4 as int]);
                    assert(spec_state_ok(states@[0], vals));
                    assert(agg_state_matches(states@[0], aggs[a4 as int].2));
                    assert(aggs[a4 as int].2 == self.aggregations@[a4 as int].2);
                }
                let st = states.remove(0);
                let cell = agg_finalize(self.aggregations[a4].2, st, ops, Ghost(vals));
                values.push(cell);
                a4 = a4 + 1;
            }
            let row = Row { values };
            proof {
                assert(row@.subrange(0, ng as int) =~= keyv);
            }
            data.push(row);
            g = g + 1;
        }
        let out = DataSet { schema: out_schema, data, metadata: input.metadata.clone() };
        proof {
            assert(out@.data =~= Seq::new(out.data@.len(), |d: int| out.data@[d]@));
            assert forall|k: int|
                0 <= k < gcols.len() implies spec_col_index(schema, #[trigger] gcols[k]) >= 0 by {
                let w = gvec@[k];
            }
            assert forall|a5: int|
                0 <= a5 < aggs.len() implies spec_col_index(schema, (#[trigger] aggs[a5]).1)
                >= 0 by {
                let w = avec@[a5];
            }
            assert forall|g2: int|
                0 <= g2 < keys_spec.len() implies (#[trigger] out@.data[g2]).len() == gcols.len()
                + aggs.len() && out@.data[g2].subrange(0, gcols.len() as int) == keys_spec[g2] by {
                assert(out@.data[g2] == data@[g2]@);
            }
            assert forall|g2: int, a5: int|
                0 <= g2 < keys_spec.len() && 0 <= a5 < aggs.len() implies spec_agg_ok(
                (#[trigger] aggs[a5]).2,
                spec_group_col_values(rows, gidx, #[trigger] keys_spec[g2], aidx[a5]),
                out@.data[g2][gcols.len() + a5],
            ) by {
                assert(out@.data[g2] == data@[g2]@);
            }
            assert forall|d: int|
                0 <= d < out@.data.len() implies (#[trigger] out@.data[d]).len()
                == out@.schema.len() by {
                assert(out@.data[d] == data@[d]@);
            }
        }
        Ok(out)
    }
}


/// With no group-by columns every row's key is the empty tuple, so one
/// group holds the whole column: the values a single-group aggregation
/// folds are exactly the column's values.
pub proof fn lemma_single_group_is_column(rows: Seq<Seq<ValueV>>, c: int)
    ensures
        spec_group_col_values(rows, Seq::empty(), Seq::empty(), c) == Seq::new(
            rows.len(),
            |i: int| rows[i][c],
        ),
    decreases rows.len(),
{
    let col = Seq::new(rows.len(), |i: int| rows[i][c]);
    if rows.len() == 0 {
        assert(spec_group_col_values(rows, Seq::empty(), Seq::empty(), c) =~= col);
    } else {
        lemma_single_group_is_column(rows.drop_last(), c);
        assert(spec_key(rows.last(), Seq::empty()) =~= Seq::<ValueV>::empty());
        assert(Seq::new(rows.drop_last().len(), |i: int| rows.drop_last()[i][c]) =~= col.drop_last());
        assert(spec_group_col_values(rows, Seq::empty(), Seq::empty(), c) =~= col);
    }
}

/// Over one group (no group-by columns), the count the count aggregation
/// reports and the size of the sample the statistics operator gathers agree
/// whenever every non-null value of the column is numeric; and the sum
/// aggregation and the statistics operator fold the same sample, with the
/// same exact integer sum.
pub proof fn lemma_group_count_matches_stats(rows: Seq<Seq<ValueV>>, c: int)
    requires
        forall|i: int|
            0 <= i < rows.len() ==> !((#[trigger] rows[i][c]) is Null) ==> (rows[i][c] is Integer
                || rows[i][c] is Float),
    ensures
        spec_group_col_values(rows, Seq::empty(), Seq::empty(), c) == Seq::new(
            rows.len(),
            |i: int| rows[i][c],
        ),
        spec_count_non_null(spec_group_col_values(rows, Seq::empty(), Seq::empty(), c))
            == spec_count_numeric(Seq::new(rows.len(), |i: int| rows[i][c])),
        spec_int_sum(spec_group_col_values(rows, Seq::empty(), Seq::empty(), c)) == spec_int_sum(
            Seq::new(rows.len(), |i: int| rows[i][c]),
        ),
    decreases rows.len(),
{
    lemma_single_group_is_column(rows, c);
    let col = Seq::new(rows.len(), |i: int| rows[i][c]);
    lemma_count_agree(col);
}

/// Counting non-null values and counting numeric values agree on sequences
/// whose non-null values are all numeric.
proof fn lemma_count_agree(vals: Seq<ValueV>)
    requires
        forall|i: int|
            0 <= i < vals.len() ==> !((#[trigger] vals[i]) is Null) ==> (vals[i] is Integer
                || vals[i] is Float),
    ensures
        spec_count_non_null(vals) == spec_count_numeric(vals),
    decreases vals.len(),
{
    if vals.len() > 0 {
        assert forall|i: int|
            0 <= i < vals.drop_last().len() && !((#[trigger] vals.drop_last()[i]) is Null) implies (
            vals.drop_last()[i] is Integer || vals.drop_last()[i] is Float) by {
            assert(vals.drop_last()[i] == vals[i]);
        }
        lemma_count_agree(vals.drop_last());
        assert(vals.last() == vals[vals.len() - 1]);
    }
}

} // verus!
