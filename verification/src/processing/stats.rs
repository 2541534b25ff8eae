//! Descriptive statistics over one or two numeric columns.
//!
//! Non-numeric and null values are excluded from the sample; an empty
//! sample yields a defined zero value, never a fault.  All arithmetic on
//! the sampled values goes through the floating-point unit; the sample is
//! gathered and ordered by exact bit-level operations.

use vstd::prelude::*;

use crate::data::DataSet;
use crate::data::DataType;
use crate::data::Field;
use crate::data::FieldV;
use crate::data::Row;
use crate::data::Schema;
use crate::data::Value;
use crate::data::ValueV;
use crate::data::float_bits::F64_ZERO_BITS;
use crate::data::float_bits::F64_TWO_BITS;
use crate::data::float_bits::F64_POS_INFINITY_BITS;
use crate::data::float_bits::F64_NEG_INFINITY_BITS;
use crate::data::float_bits::total_key_bits;
use crate::data::lemma_col_index;
use crate::data::spec_col_index;
use crate::processing::FloatOps;
use crate::processing::ProcessingError;
use crate::processing::aggregate::spec_count_numeric;
use crate::text::concat3;

verus! {

/// The statistic to compute.
#[derive(Debug, PartialEq, Eq, Structural, Clone, Copy)]
pub enum StatsType {
    Mean,
    Median,
    Mode,
    StdDev,
    Variance,
    Min,
    Max,
    Range,
    Sum,
    Count,
    Quantile,
    Correlation,
    Covariance,
}

/// The values of one column over all rows.
pub open spec fn spec_column_values(rows: Seq<Seq<ValueV>>, c: int) -> Seq<ValueV> {
    Seq::new(rows.len(), |i: int| rows[i][c])
}

/// The bit patterns of the float values, in order.
pub open spec fn spec_float_sample(vals: Seq<ValueV>) -> Seq<u64>
    decreases vals.len(),
{
    if vals.len() == 0 {
        Seq::empty()
    } else {
        let rest = spec_float_sample(vals.drop_last());
        match vals.last() {
            ValueV::Float(bits) => rest.push(bits),
            _ => rest,
        }
    }
}

/// Whether the column holds no integers (its numeric sample is then exactly
/// its floats, bit for bit).
pub open spec fn spec_no_integers(vals: Seq<ValueV>) -> bool {
    forall|i: int| 0 <= i < vals.len() ==> !((#[trigger] vals[i]) is Integer)
}

/// The IEEE minimum of a sample, folded in order from positive infinity: a
/// value replaces the running best exactly when it is IEEE-less than it.
pub open spec fn spec_fold_min_bits(s: Seq<u64>) -> u64
    decreases s.len(),
{
    if s.len() == 0 {
        F64_POS_INFINITY_BITS
    } else {
        let rest = spec_fold_min_bits(s.drop_last());
        if crate::data::float_bits::spec_float_lt_bits(s.last(), rest) {
            s.last()
        } else {
            rest
        }
    }
}

/// The IEEE maximum of a sample, folded in order from negative infinity.
pub open spec fn spec_fold_max_bits(s: Seq<u64>) -> u64
    decreases s.len(),
{
    if s.len() == 0 {
        F64_NEG_INFINITY_BITS
    } else {
        let rest = spec_fold_max_bits(s.drop_last());
        if crate::data::float_bits::spec_float_lt_bits(rest, s.last()) {
            s.last()
        } else {
            rest
        }
    }
}

/// How many times `v` occurs in the sample.
pub open spec fn spec_count_in(s: Seq<u64>, v: u64) -> int
    decreases s.len(),
{
    if s.len() == 0 {
        0
    } else {
        spec_count_in(s.drop_last(), v) + if s.last() == v {
            1int
        } else {
            0int
        }
    }
}

/// The scan that picks the most frequent pattern: candidates in order, a
/// candidate replaces the best exactly when its count is strictly larger,
/// so the first pattern of maximal count wins.
pub open spec fn spec_mode_scan(s: Seq<u64>, i: int, best: u64, best_count: int) -> u64
    decreases s.len() - i,
{
    if i < 0 || i >= s.len() {
        best
    } else {
        let c = spec_count_in(s, s[i]);
        if c > best_count {
            spec_mode_scan(s, i + 1, s[i], c)
        } else {
            spec_mode_scan(s, i + 1, best, best_count)
        }
    }
}

/// The most frequent bit pattern of a sample, first occurrence winning
/// ties; positive zero over an empty sample.
pub open spec fn spec_mode_bits(s: Seq<u64>) -> u64 {
    if s.len() == 0 {
        F64_ZERO_BITS
    } else {
        spec_mode_scan(s, 0, s[0], 0)
    }
}

/// Whether the statistic needs two columns.
pub open spec fn spec_needs_two_columns(t: StatsType) -> bool {
    t is Correlation || t is Covariance
}

/// Compute one descriptive statistic and emit it as a single-row,
/// single-column dataset named after the processor.
pub struct StatsProcessor {
    pub name: String,
    pub columns: Vec<String>,
    pub stats_type: StatsType,
    /// The quantile to take, as the bit pattern of a binary64 in [0, 1];
    /// used by the quantile statistic only.
    pub quantile: u64,
}

/// Gather the numeric sample of a column as binary64 bit patterns:
/// integers converted through the floating-point unit, floats kept bit for
/// bit, everything else skipped.
fn numeric_values<F: FloatOps>(input: &DataSet, col: usize, ops: &F) -> (r: Vec<u64>)
    requires
        input.wf(),
        (col as int) < input@.schema.len(),
    ensures
        r@.len() == spec_count_numeric(spec_column_values(input@.data, col as int)),
        spec_no_integers(spec_column_values(input@.data, col as int)) ==> r@ == spec_float_sample(
            spec_column_values(input@.data, col as int),
        ),
{
    let ghost cvals = spec_column_values(input@.data, col as int);
    let mut out: Vec<u64> = Vec::new();
    let mut i: usize = 0;
    proof {
        assert(cvals.take(0) =~= Seq::<ValueV>::empty());
    }
    while i < input.data.len()
        invariant
            i <= input.data.len(),
            input.wf(),
            (col as int) < input@.schema.len(),
            cvals == spec_column_values(input@.data, col as int),
            out@.len() == spec_count_numeric(cvals.take(i as int)),
            spec_no_integers(cvals.take(i as int)) ==> out@ == spec_float_sample(
                cvals.take(i as int),
            ),
        decreases input.data.len() - i,
    {
        proof {
            assert(input@.data[i as int] == input.data@[i as int]@);
            assert(input@.data[i as int].len() == input@.schema.len());
            assert(cvals.take(i + 1).drop_last() =~= cvals.take(i as int));
            assert(cvals.take(i + 1).last() == cvals[i as int]);
            assert(cvals[i as int] == input@.data[i as int][col as int]);
        }
        proof {
            if spec_no_integers(cvals.take(i + 1)) {
                assert forall|j: int|
                    0 <= j < cvals.take(i as int).len() implies !((#[trigger] cvals.take(
                    i as int,
                )[j]) is Integer) by {
                    assert(cvals.take(i as int)[j] == cvals.take(i + 1)[j]);
                }
            }
        }
        match &input.data[i].values[col] {
            Value::Integer(v) => {
                out.push(ops.from_int(*v));
            },
            Value::Float(bits) => {
                out.push(*bits);
            },
            _ => {},
        }
        i = i + 1;
    }
    proof {
        assert(cvals.take(i as int) =~= cvals);
        if spec_no_integers(cvals) {
            assert forall|j: int|
                0 <= j < cvals.take(i as int).len() implies !((#[trigger] cvals.take(
                i as int,
            )[j]) is Integer) by {
                assert(cvals.take(i as int)[j] == cvals[j]);
            }
        }
    }
    out
}

/// Sort a sample ascending by the binary64 total order of the patterns.
fn sort_bits(values: &Vec<u64>) -> (r: Vec<u64>)
    ensures
        r@.len() == values@.len(),
{
    let mut out: Vec<u64> = Vec::new();
    let mut i: usize = 0;
    while i < values.len()
        invariant
            i <= values.len(),
            out@.len() == i,
        decreases values.len() - i,
    {
        out.push(values[i]);
        i = i + 1;
    }
    let n = out.len();
    let mut s: usize = 1;
    while s < n
        invariant
            n == out@.len(),
        decreases n - s,
    {
        let mut t: usize = s;
        while t > 0
            invariant
                t <= s < n,
                n == out@.len(),
            decreases t,
        {
            if total_key_bits(out[t - 1]) > total_key_bits(out[t]) {
                let a = out[t - 1];
                let b = out[t];
                out[t - 1] = b;
                out[t] = a;
            } else {
                break ;
            }
            t = t - 1;
        }
        s = s + 1;
    }
    out
}

/// The sum of a sample, accumulated in order from positive zero.
fn sum_bits<F: FloatOps>(values: &Vec<u64>, ops: &F) -> (r: u64)
    ensures
        values@.len() == 0 ==> r == F64_ZERO_BITS,
{
    if values.len() == 0 {
        return F64_ZERO_BITS;
    }
    let mut acc: u64 = F64_ZERO_BITS;
    let mut i: usize = 0;
    while i < values.len()
        decreases values.len() - i,
    {
        acc = ops.add(acc, values[i]);
        i = i + 1;
    }
    acc
}

/// The length of a sample as a binary64 pattern.
fn len_bits<F: FloatOps>(values: &Vec<u64>, ops: &F) -> u64 {
    let n = values.len();
    let c = if n > (i64::MAX as usize) {
        i64::MAX
    } else {
        n as i64
    };
    ops.from_int(c)
}

/// The mean of a sample; positive zero over an empty sample.
fn mean_bits<F: FloatOps>(values: &Vec<u64>, ops: &F) -> (r: u64)
    ensures
        values@.len() == 0 ==> r == F64_ZERO_BITS,
{
    if values.len() == 0 {
        return F64_ZERO_BITS;
    }
    ops.div(sum_bits(values, ops), len_bits(values, ops))
}

/// The population variance of a sample; positive zero over an empty sample.
fn variance_bits<F: FloatOps>(values: &Vec<u64>, ops: &F) -> (r: u64)
    ensures
        values@.len() == 0 ==> r == F64_ZERO_BITS,
{
    if values.len() == 0 {
        return F64_ZERO_BITS;
    }
    let m = mean_bits(values, ops);
    let mut acc: u64 = F64_ZERO_BITS;
    let mut i: usize = 0;
    while i < values.len()
        decreases values.len() - i,
    {
        let d = ops.sub(values[i], m);
        acc = ops.add(acc, ops.mul(d, d));
        i = i + 1;
    }
    ops.div(acc, len_bits(values, ops))
}

/// The minimum of a sample, folded with IEEE minimum from positive
/// infinity.
fn min_bits(values: &Vec<u64>) -> (r: u64)
    ensures
        r == spec_fold_min_bits(values@),
{
    proof {
        assert(values@.take(0) =~= Seq::<u64>::empty());
    }
    let mut acc: u64 = F64_POS_INFINITY_BITS;
    let mut i: usize = 0;
    while i < values.len()
        invariant
            i <= values@.len(),
            acc == spec_fold_min_bits(values@.take(i as int)),
        decreases values.len() - i,
    {
        proof {
            assert(values@.take(i + 1).drop_last() =~= values@.take(i as int));
            assert(values@.take(i + 1).last() == values@[i as int]);
        }
        if crate::data::float_bits::float_lt_bits(values[i], acc) {
            acc = values[i];
        }
        i = i + 1;
    }
    proof {
        assert(values@.take(i as int) =~= values@);
    }
    acc
}

/// The maximum of a sample, folded with IEEE maximum from negative
/// infinity.
fn max_bits(values: &Vec<u64>) -> (r: u64)
    ensures
        r == spec_fold_max_bits(values@),
{
    proof {
        assert(values@.take(0) =~= Seq::<u64>::empty());
    }
    let mut acc: u64 = F64_NEG_INFINITY_BITS;
    let mut i: usize = 0;
    while i < values.len()
        invariant
            i <= values@.len(),
            acc == spec_fold_max_bits(values@.take(i as int)),
        decreases values.len() - i,
    {
        proof {
            assert(values@.take(i + 1).drop_last() =~= values@.take(i as int));
            assert(values@.take(i + 1).last() == values@[i as int]);
        }
        if crate::data::float_bits::float_lt_bits(acc, values[i]) {
            acc = values[i];
        }
        i = i + 1;
    }
    proof {
        assert(values@.take(i as int) =~= values@);
    }
    acc
}

/// The median of a sample: the middle value of the sorted sample, or the
/// mean of the two middle values for an even sample; positive zero over an
/// empty sample.
fn median_bits<F: FloatOps>(values: &Vec<u64>, ops: &F) -> (r: u64)
    ensures
        values@.len() == 0 ==> r == F64_ZERO_BITS,
{
    if values.len() == 0 {
        return F64_ZERO_BITS;
    }
    let sorted = sort_bits(values);
    let mid = sorted.len() / 2;
    if sorted.len() % 2 == 0 {
        ops.div(ops.add(sorted[mid - 1], sorted[mid]), F64_TWO_BITS)
    } else {
        sorted[mid]
    }
}

/// The most frequent bit pattern of a sample, ties and order resolved by
/// first occurrence; positive zero over an empty sample.  Agrees with
/// [`spec_mode_bits`].
fn mode_bits(values: &Vec<u64>) -> (r: u64)
    ensures
        r == spec_mode_bits(values@),
{
    if values.len() == 0 {
        return F64_ZERO_BITS;
    }
    let mut best: u64 = values[0];
    let mut best_count: usize = 0;
    let mut i: usize = 0;
    while i < values.len()
        invariant
            i <= values@.len(),
            values@.len() > 0,
            best_count <= values@.len(),
            spec_mode_bits(values@) == spec_mode_scan(values@, i as int, best, best_count as int),
        decreases values.len() - i,
    {
        let v = values[i];
        let mut count: usize = 0;
        let mut j: usize = 0;
        proof {
            assert(values@.take(0) =~= Seq::<u64>::empty());
        }
        while j < values.len()
            invariant
                j <= values@.len(),
                count == spec_count_in(values@.take(j as int), v),
                count <= j,
            decreases values.len() - j,
        {
            proof {
                assert(values@.take(j + 1).drop_last() =~= values@.take(j as int));
                assert(values@.take(j + 1).last() == values@[j as int]);
                lemma_count_in_bound(values@.take(j as int), v);
            }
            if values[j] == v {
                count = count + 1;
            }
            j = j + 1;
        }
        proof {
            assert(values@.take(j as int) =~= values@);
        }
        if count > best_count {
            best = v;
            best_count = count;
        }
        i = i + 1;
    }
    best
}

/// A count within a sample never exceeds the sample's length.
proof fn lemma_count_in_bound(s: Seq<u64>, v: u64)
    ensures
        0 <= spec_count_in(s, v) <= s.len(),
    decreases s.len(),
{
    if s.len() > 0 {
        lemma_count_in_bound(s.drop_last(), v);
    }
}

/// The quantile of a sample with linear interpolation between the two
/// nearest order statistics; positive zero over an empty sample.
fn quantile_bits<F: FloatOps>(values: &Vec<u64>, q: u64, ops: &F) -> (r: u64)
    ensures
        values@.len() == 0 ==> r == F64_ZERO_BITS,
{
    if values.len() == 0 {
        return F64_ZERO_BITS;
    }
    let sorted = sort_bits(values);
    let n = sorted.len();
    let last = if n > (i64::MAX as usize) {
        i64::MAX
    } else {
        (n - 1) as i64
    };
    let pos = ops.mul(q, ops.from_int(last));
    let raw = ops.to_int(pos);
    let idx: usize = if raw < 0 {
        0
    } else if (raw as u64) >= ((n - 1) as u64) {
        n - 1
    } else {
        raw as usize
    };
    let frac = ops.sub(pos, ops.from_int(idx as i64));
    if idx + 1 < n {
        ops.add(sorted[idx], ops.mul(frac, ops.sub(sorted[idx + 1], sorted[idx])))
    } else {
        sorted[idx]
    }
}

/// The Pearson correlation of two equal-length samples; positive zero for
/// empty or mismatched samples or a degenerate denominator.
fn correlation_bits<F: FloatOps>(a: &Vec<u64>, b: &Vec<u64>, ops: &F) -> (r: u64)
    ensures
        a@.len() == 0 ==> r == F64_ZERO_BITS,
{
    if a.len() == 0 || b.len() == 0 || a.len() != b.len() {
        return F64_ZERO_BITS;
    }
    let ma = mean_bits(a, ops);
    let mb = mean_bits(b, ops);
    let mut num: u64 = F64_ZERO_BITS;
    let mut da: u64 = F64_ZERO_BITS;
    let mut db: u64 = F64_ZERO_BITS;
    let mut i: usize = 0;
    while i < a.len()
        invariant
            a@.len() == b@.len(),
        decreases a.len() - i,
    {
        let xa = ops.sub(a[i], ma);
        let xb = ops.sub(b[i], mb);
        num = ops.add(num, ops.mul(xa, xb));
        da = ops.add(da, ops.mul(xa, xa));
        db = ops.add(db, ops.mul(xb, xb));
        i = i + 1;
    }
    if da == F64_ZERO_BITS || db == F64_ZERO_BITS {
        F64_ZERO_BITS
    } else {
        ops.div(num, ops.mul(ops.sqrt(da), ops.sqrt(db)))
    }
}

/// The population covariance of two equal-length samples; positive zero for
/// empty or mismatched samples.
fn covariance_bits<F: FloatOps>(a: &Vec<u64>, b: &Vec<u64>, ops: &F) -> (r: u64)
    ensures
        a@.len() == 0 ==> r == F64_ZERO_BITS,
{
    if a.len() == 0 || b.len() == 0 || a.len() != b.len() {
        return F64_ZERO_BITS;
    }
    let ma = mean_bits(a, ops);
    let mb = mean_bits(b, ops);
    let mut acc: u64 = F64_ZERO_BITS;
    let mut i: usize = 0;
    while i < a.len()
        invariant
            a@.len() == b@.len(),
        decreases a.len() - i,
    {
        acc = ops.add(acc, ops.mul(ops.sub(a[i], ma), ops.sub(b[i], mb)));
        i = i + 1;
    }
    ops.div(acc, len_bits(a, ops))
}

impl StatsProcessor {
    /// Create a new stats processor.
    pub fn new(name: &str, columns: Vec<String>, stats_type: StatsType) -> (r: StatsProcessor)
        ensures
            r.name@ == name@,
            r.columns == columns,
            r.stats_type == stats_type,
            r.quantile == F64_ZERO_BITS,
    {
        StatsProcessor { name: name.to_owned(), columns, stats_type, quantile: F64_ZERO_BITS }
    }

    /// A mean processor.
    pub fn mean(column: &str) -> (r: StatsProcessor)
        ensures
            r.stats_type == StatsType::Mean,
            r.columns@.len() == 1,
    {
        let mut columns: Vec<String> = Vec::new();
        columns.push(column.to_owned());
        StatsProcessor::new("mean", columns, StatsType::Mean)
    }

    /// A median processor.
    pub fn median(column: &str) -> (r: StatsProcessor)
        ensures
            r.stats_type == StatsType::Median,
            r.columns@.len() == 1,
    {
        let mut columns: Vec<String> = Vec::new();
        columns.push(column.to_owned());
        StatsProcessor::new("median", columns, StatsType::Median)
    }

    /// A mode processor.
    pub fn mode(column: &str) -> (r: StatsProcessor)
        ensures
            r.stats_type == StatsType::Mode,
            r.columns@.len() == 1,
    {
        let mut columns: Vec<String> = Vec::new();
        columns.push(column.to_owned());
        StatsProcessor::new("mode", columns, StatsType::Mode)
    }

    /// A standard-deviation processor (population).
    pub fn std_dev(column: &str) -> (r: StatsProcessor)
        ensures
            r.stats_type == StatsType::StdDev,
            r.columns@.len() == 1,
    {
        let mut columns: Vec<String> = Vec::new();
        columns.push(column.to_owned());
        StatsProcessor::new("std_dev", columns, StatsType::StdDev)
    }

    /// A variance processor (population).
    pub fn variance(column: &str) -> (r: StatsProcessor)
        ensures
            r.stats_type == StatsType::Variance,
            r.columns@.len() == 1,
    {
        let mut columns: Vec<String> = Vec::new();
        columns.push(column.to_owned());
        StatsProcessor::new("variance", columns, StatsType::Variance)
    }

    /// A minimum processor.
    pub fn min(column: &str) -> (r: StatsProcessor)
        ensures
            r.stats_type == StatsType::Min,
            r.columns@.len() == 1,
    {
        let mut columns: Vec<String> = Vec::new();
        columns.push(column.to_owned());
        StatsProcessor::new("min", columns, StatsType::Min)
    }

    /// A maximum processor.
    pub fn max(column: &str) -> (r: StatsProcessor)
        ensures
            r.stats_type == StatsType::Max,
            r.columns@.len() == 1,
    {
        let mut columns: Vec<String> = Vec::new();
        columns.push(column.to_owned());
        StatsProcessor::new("max", columns, StatsType::Max)
    }

    /// A range processor.
    pub fn range(column: &str) -> (r: StatsProcessor)
        ensures
            r.stats_type == StatsType::Range,
            r.columns@.len() == 1,
    {
        let mut columns: Vec<String> = Vec::new();
        columns.push(column.to_owned());
        StatsProcessor::new("range", columns, StatsType::Range)
    }

    /// A sum processor.
    pub fn sum(column: &str) -> (r: StatsProcessor)
        ensures
            r.stats_type == StatsType::Sum,
            r.columns@.len() == 1,
    {
        let mut columns: Vec<String> = Vec::new();
        columns.push(column.to_owned());
        StatsProcessor::new("sum", columns, StatsType::Sum)
    }

    /// A count processor.
    pub fn count(column: &str) -> (r: StatsProcessor)
        ensures
            r.stats_type == StatsType::Count,
            r.columns@.len() == 1,
    {
        let mut columns: Vec<String> = Vec::new();
        columns.push(column.to_owned());
        StatsProcessor::new("count", columns, StatsType::Count)
    }

    /// A quantile processor; the quantile is the bit pattern of a binary64
    /// in [0, 1].
    pub fn quantile(column: &str, quantile: u64) -> (r: StatsProcessor)
        ensures
            r.stats_type == StatsType::Quantile,
            r.columns@.len() == 1,
            r.quantile == quantile,
    {
        let mut columns: Vec<String> = Vec::new();
        columns.push(column.to_owned());
        let mut p = StatsProcessor::new("quantile", columns, StatsType::Quantile);
        p.quantile = quantile;
        p
    }

    /// A Pearson correlation processor over two columns.
    pub fn correlation(column1: &str, column2: &str) -> (r: StatsProcessor)
        ensures
            r.stats_type == StatsType::Correlation,
            r.columns@.len() == 2,
    {
        let mut columns: Vec<String> = Vec::new();
        columns.push(column1.to_owned());
        columns.push(column2.to_owned());
        StatsProcessor::new("correlation", columns, StatsType::Correlation)
    }

    /// A population covariance processor over two columns.
    pub fn covariance(column1: &str, column2: &str) -> (r: StatsProcessor)
        ensures
            r.stats_type == StatsType::Covariance,
            r.columns@.len() == 2,
    {
        let mut columns: Vec<String> = Vec::new();
        columns.push(column1.to_owned());
        columns.push(column2.to_owned());
        StatsProcessor::new("covariance", columns, StatsType::Covariance)
    }

    /// What a successful statistics run guarantees; see `process`.
    pub open spec fn spec_ok(&self, input: crate::data::DataSetV, out: crate::data::DataSetV) -> bool {
        &&& out.schema == seq![
            FieldV { name: self.name@, data_type: DataType::Float, nullable: false },
        ]
        &&& out.data.len() == 1
        &&& out.data[0].len() == 1
        &&& out.data[0][0] is Float
        &&& out.metadata == input.metadata
        &&& self.columns@.len() >= 1
        &&& spec_col_index(input.schema, self.columns@[0]@) >= 0
        &&& (spec_needs_two_columns(self.stats_type) ==> self.columns@.len() >= 2
            && spec_col_index(input.schema, self.columns@[1]@) >= 0)
        &&& {
            let col = spec_col_index(input.schema, self.columns@[0]@);
            let cvals = spec_column_values(input.data, col);
            let sample = spec_float_sample(cvals);
            &&& (self.stats_type is Min && spec_no_integers(cvals) ==> out.data[0][0]
                == ValueV::Float(spec_fold_min_bits(sample)))
            &&& (self.stats_type is Max && spec_no_integers(cvals) ==> out.data[0][0]
                == ValueV::Float(spec_fold_max_bits(sample)))
            &&& (self.stats_type is Mode && spec_no_integers(cvals) ==> out.data[0][0]
                == ValueV::Float(spec_mode_bits(sample)))
            &&& (spec_count_numeric(cvals) == 0 && !(self.stats_type is Min) && !(self.stats_type
                is Max) ==> out.data[0][0] == ValueV::Float(F64_ZERO_BITS))
        }
    }

    /// When a statistics run fails: no column is configured, a referenced
    /// column does not resolve, or a two-column statistic has fewer than two
    /// columns.
    pub open spec fn spec_err(&self, input: crate::data::DataSetV, e: ProcessingError) -> bool {
        e is InvalidArgument && (self.columns@.len() == 0 || (exists|k: int|
            0 <= k < self.columns@.len() && spec_col_index(
                input.schema,
                (#[trigger] self.columns@[k])@,
            ) == -1) || (spec_needs_two_columns(self.stats_type) && self.columns@.len() < 2))
    }

    /// Compute the statistic over the named column's numeric sample (two
    /// columns for correlation and covariance) and return a dataset with a
    /// single float field named after the processor, holding a single row.
    /// Fails with `InvalidArgument` exactly when a needed column name is
    /// absent from the configuration or does not resolve.
    pub fn process<F: FloatOps>(&self, input: &DataSet, ops: &F) -> (r: Result<
        DataSet,
        ProcessingError,
    >)
        requires
            input.wf(),
        ensures
            match r {
                Ok(out) => self.spec_ok(input@, out@) && out.wf(),
                Err(e) => self.spec_err(input@, e),
            },
    {
        let ghost schema = input@.schema;
        if self.columns.len() == 0 {
            return Err(
                ProcessingError::InvalidArgument(
                    String::from_str("Statistics require a column"),
                ),
            );
        }
        let needs_two = match self.stats_type {
            StatsType::Correlation => true,
            StatsType::Covariance => true,
            _ => false,
        };
        if needs_two && self.columns.len() < 2 {
            return Err(
                ProcessingError::InvalidArgument(
                    String::from_str("Two-column statistics require two columns"),
                ),
            );
        }
        let col0 = match input.schema.col_index(self.columns[0].as_str()) {
            Some(i) => i,
            None => {
                proof {
                    assert(self.columns@[0]@ == self.columns@[0 as int]@);
                }
                return Err(
                    ProcessingError::InvalidArgument(
                        concat3("Column '", self.columns[0].as_str(), "' not found"),
                    ),
                );
            },
        };
        proof {
            lemma_col_index(schema, self.columns@[0 as int]@);
        }
        let values = numeric_values(input, col0, ops);
        let bits: u64 = if needs_two {
            let col1 = match input.schema.col_index(self.columns[1].as_str()) {
                Some(i) => i,
                None => {
                    return Err(
                        ProcessingError::InvalidArgument(
                            concat3("Column '", self.columns[1].as_str(), "' not found"),
                        ),
                    );
                },
            };
            proof {
                lemma_col_index(schema, self.columns@[1 as int]@);
            }
            let values2 = numeric_values(input, col1, ops);
            match self.stats_type {
                StatsType::Correlation => correlation_bits(&values, &values2, ops),
                _ => covariance_bits(&values, &values2, ops),
            }
        } else {
            match self.stats_type {
                StatsType::Mean => mean_bits(&values, ops),
                StatsType::Median => median_bits(&values, ops),
                StatsType::Mode => mode_bits(&values),
                StatsType::StdDev => {
                    if values.len() == 0 {
                        F64_ZERO_BITS
                    } else {
                        ops.sqrt(variance_bits(&values, ops))
                    }
                },
                StatsType::Variance => variance_bits(&values, ops),
                StatsType::Min => min_bits(&values),
                StatsType::Max => max_bits(&values),
                StatsType::Range => {
                    let lo = min_bits(&values);
                    let hi = max_bits(&values);
                    if values.len() == 0 {
                        F64_ZERO_BITS
                    } else {
                        ops.sub(hi, lo)
                    }
                },
                StatsType::Sum => sum_bits(&values, ops),
                StatsType::Count => {
                    if values.len() == 0 {
                        F64_ZERO_BITS
                    } else {
                        len_bits(&values, ops)
                    }
                },
                StatsType::Quantile => quantile_bits(&values, self.quantile, ops),
                _ => F64_ZERO_BITS,
            }
        };
        let mut fields: Vec<Field> = Vec::new();
        fields.push(Field { name: self.name.clone(), data_type: DataType::Float, nullable: false });
        let out_schema = Schema { fields };
        let mut values_row: Vec<Value> = Vec::new();
        values_row.push(Value::Float(bits));
        let row = Row { values: values_row };
        let mut data: Vec<Row> = Vec::new();
        data.push(row);
        let out = DataSet { schema: out_schema, data, metadata: input.metadata.clone() };
        proof {
            assert(out@.schema =~= seq![
                FieldV { name: self.name@, data_type: DataType::Float, nullable: false },
            ]);
            assert(out@.data =~= seq![out.data@[0]@]);
            assert(out@.data[0] =~= seq![ValueV::Float(bits)]);
        }
        Ok(out)
    }
}

} // verus!
