//! Window functions: partitioned, ordered row-set functions that attach one
//! computed value to every input row.
//!
//! Rows are partitioned by the partition-by key (no key: one partition with
//! all rows, in input order), sorted stably within each partition by the
//! order-by columns, and the function is applied to each row by its
//! position inside its own partition.  Each row's original index is carried
//! through partitioning and sorting, and the computed value is written back
//! at that index, so the value is attached to the row it was computed from
//! regardless of the grouping strategy.

use vstd::prelude::*;

use crate::data::DataSet;
use crate::data::DataType;
use crate::data::Field;
use crate::data::FieldV;
use crate::data::Row;
use crate::data::Schema;
use crate::data::Value;
use crate::data::ValueV;
use crate::data::ValueOrdering;
use crate::data::lemma_col_index;
use crate::data::spec_col_index;
use crate::data::value_cmp;
use crate::processing::ProcessingError;
use crate::processing::project_row;
use crate::processing::aggregate::spec_clamp_i64;
use crate::text::concat3;

verus! {

/// The window function kind.
#[derive(Debug, PartialEq, Eq, Structural, Clone, Copy)]
pub enum WindowFunctionType {
    RowNumber,
    Rank,
    DenseRank,
    Lead,
    Lag,
    FirstValue,
    LastValue,
    NthValue,
}

/// The index of the first key row whose tuple equals `krow`'s, if any.
fn find_key_row(keys: &Vec<Row>, krow: &Row) -> (r: Option<usize>)
    ensures
        match r {
            Some(i) => i < keys@.len() && crate::processing::join::spec_key_eq(
                keys@[i as int]@,
                krow@,
            ),
            None => forall|g: int|
                0 <= g < keys@.len() ==> !crate::processing::join::spec_key_eq(
                    (#[trigger] keys@[g])@,
                    krow@,
                ),
        },
{
    let mut g: usize = 0;
    while g < keys.len()
        invariant
            g <= keys.len(),
            forall|g2: int|
                0 <= g2 < g ==> !crate::processing::join::spec_key_eq(
                    (#[trigger] keys@[g2])@,
                    krow@,
                ),
        decreases keys.len() - g,
    {
        if crate::processing::join::key_eq_rows(&keys[g], krow) {
            return Some(g);
        }
        g = g + 1;
    }
    None
}

/// Clamp a position (1-based) into an `i64` value.
fn clamp_pos_i64(p: u64) -> (r: i64)
    ensures
        r == spec_clamp_i64(p as int),
{
    if p > (i64::MAX as u64) {
        i64::MAX
    } else {
        p as i64
    }
}

/// Add a computed column by a window function.
pub struct WindowProcessor {
    pub output_column: String,
    pub function_type: WindowFunctionType,
    pub partition_by: Vec<String>,
    pub order_by: Vec<(String, bool)>,
    pub function_args: Vec<Value>,
}

impl WindowProcessor {
    /// Create a new window processor.
    pub fn new(
        output_column: &str,
        function_type: WindowFunctionType,
        partition_by: Vec<String>,
        order_by: Vec<(String, bool)>,
        function_args: Vec<Value>,
    ) -> (r: WindowProcessor)
        ensures
            r.output_column@ == output_column@,
            r.function_type == function_type,
            r.partition_by == partition_by,
            r.order_by == order_by,
            r.function_args == function_args,
    {
        WindowProcessor {
            output_column: output_column.to_owned(),
            function_type,
            partition_by,
            order_by,
            function_args,
        }
    }

    /// A row-number window function over one partition in input order.
    pub fn row_number(output_column: &str) -> (r: WindowProcessor)
        ensures
            r.output_column@ == output_column@,
            r.function_type == WindowFunctionType::RowNumber,
            r.partition_by@.len() == 0,
            r.order_by@.len() == 0,
            r.function_args@.len() == 0,
    {
        WindowProcessor::new(
            output_column,
            WindowFunctionType::RowNumber,
            Vec::new(),
            Vec::new(),
            Vec::new(),
        )
    }

    /// A rank window function; order-by columns must be added.
    pub fn rank(output_column: &str) -> (r: WindowProcessor)
        ensures
            r.output_column@ == output_column@,
            r.function_type == WindowFunctionType::Rank,
            r.partition_by@.len() == 0,
            r.order_by@.len() == 0,
            r.function_args@.len() == 0,
    {
        WindowProcessor::new(
            output_column,
            WindowFunctionType::Rank,
            Vec::new(),
            Vec::new(),
            Vec::new(),
        )
    }

    /// A dense-rank window function; order-by columns must be added.
    pub fn dense_rank(output_column: &str) -> (r: WindowProcessor)
        ensures
            r.output_column@ == output_column@,
            r.function_type == WindowFunctionType::DenseRank,
            r.partition_by@.len() == 0,
            r.order_by@.len() == 0,
            r.function_args@.len() == 0,
    {
        WindowProcessor::new(
            output_column,
            WindowFunctionType::DenseRank,
            Vec::new(),
            Vec::new(),
            Vec::new(),
        )
    }

    /// A lead window function with the given offset.
    pub fn lead(output_column: &str, offset: i64) -> (r: WindowProcessor)
        ensures
            r.output_column@ == output_column@,
            r.function_type == WindowFunctionType::Lead,
            r.function_args@.len() == 1,
            r.function_args@[0]@ == ValueV::Integer(offset),
    {
        let mut args: Vec<Value> = Vec::new();
        args.push(Value::Integer(offset));
        WindowProcessor::new(output_column, WindowFunctionType::Lead, Vec::new(), Vec::new(), args)
    }

    /// A lag window function with the given offset.
    pub fn lag(output_column: &str, offset: i64) -> (r: WindowProcessor)
        ensures
            r.output_column@ == output_column@,
            r.function_type == WindowFunctionType::Lag,
            r.function_args@.len() == 1,
            r.function_args@[0]@ == ValueV::Integer(offset),
    {
        let mut args: Vec<Value> = Vec::new();
        args.push(Value::Integer(offset));
        WindowProcessor::new(output_column, WindowFunctionType::Lag, Vec::new(), Vec::new(), args)
    }

    /// A first-value window function.
    pub fn first_value(output_column: &str) -> (r: WindowProcessor)
        ensures
            r.output_column@ == output_column@,
            r.function_type == WindowFunctionType::FirstValue,
    {
        WindowProcessor::new(
            output_column,
            WindowFunctionType::FirstValue,
            Vec::new(),
            Vec::new(),
            Vec::new(),
        )
    }

    /// A last-value window function.
    pub fn last_value(output_column: &str) -> (r: WindowProcessor)
        ensures
            r.output_column@ == output_column@,
            r.function_type == WindowFunctionType::LastValue,
    {
        WindowProcessor::new(
            output_column,
            WindowFunctionType::LastValue,
            Vec::new(),
            Vec::new(),
            Vec::new(),
        )
    }

    /// An nth-value window function.
    pub fn nth_value(output_column: &str, n: i64) -> (r: WindowProcessor)
        ensures
            r.output_column@ == output_column@,
            r.function_type == WindowFunctionType::NthValue,
            r.function_args@.len() == 1,
            r.function_args@[0]@ == ValueV::Integer(n),
    {
        let mut args: Vec<Value> = Vec::new();
        args.push(Value::Integer(n));
        WindowProcessor::new(
            output_column,
            WindowFunctionType::NthValue,
            Vec::new(),
            Vec::new(),
            args,
        )
    }

    /// Replace the partition-by columns.
    pub fn partition_by(self, columns: Vec<String>) -> (r: WindowProcessor)
        ensures
            r.output_column == self.output_column,
            r.function_type == self.function_type,
            r.partition_by == columns,
            r.order_by == self.order_by,
            r.function_args == self.function_args,
    {
        let mut s = self;
        s.partition_by = columns;
        s
    }

    /// Replace the order-by columns (name, ascending).
    pub fn order_by(self, columns: Vec<(String, bool)>) -> (r: WindowProcessor)
        ensures
            r.output_column == self.output_column,
            r.function_type == self.function_type,
            r.partition_by == self.partition_by,
            r.order_by == columns,
            r.function_args == self.function_args,
    {
        let mut s = self;
        s.order_by = columns;
        s
    }
}

/// The partition-key tuple of a row at the given column positions.
pub open spec fn spec_part_key(row: Seq<ValueV>, pidx: Seq<usize>) -> Seq<ValueV> {
    Seq::new(pidx.len(), |k: int| row[pidx[k] as int])
}

/// The integer argument of an offset or positional window function, zero
/// for every other kind.
pub open spec fn spec_window_arg(ft: WindowFunctionType, args: Seq<ValueV>) -> i64 {
    if (ft is Lead || ft is Lag || ft is NthValue) && args.len() > 0 && args[0] is Integer {
        args[0]->Integer_0
    } else {
        0
    }
}

/// The views of a list of partitions.
pub open spec fn views_of_parts(parts: Seq<Vec<usize>>) -> Seq<Seq<usize>> {
    Seq::new(parts.len(), |g: int| parts[g]@)
}

/// Whether some partition stores the row index `i`.
pub open spec fn spec_parts_contain(parts: Seq<Seq<usize>>, i: int) -> bool {
    exists|g: int, k: int|
        0 <= g < parts.len() && 0 <= k < parts[g].len() && #[trigger] parts[g][k] as int == i
}

/// Whether a row's partition-key tuple belongs under a partition's key:
/// the tuples are identical, or equal value by value.  (The identity
/// disjunct matters for keys holding NaN floats, which structural value
/// equality does not relate to themselves.)
pub open spec fn spec_cap_matches(cap: Seq<ValueV>, key: Seq<ValueV>) -> bool {
    cap == key || crate::processing::join::spec_key_eq(cap, key)
}

/// A partitioning of the row indices: every stored index is a row index,
/// every row index is stored somewhere; with partition columns the rows of
/// one partition all bear that partition's key tuple (`caps`), and distinct
/// partitions bear distinct keys; with none, a single partition holds all
/// rows.
pub open spec fn spec_partitioning_ok(
    parts: Seq<Seq<usize>>,
    caps: Seq<Seq<ValueV>>,
    rows: Seq<Seq<ValueV>>,
    pidx: Seq<usize>,
    npart: int,
) -> bool {
    &&& forall|g: int, k: int|
        0 <= g < parts.len() && 0 <= k < parts[g].len() ==> (#[trigger] parts[g][k] as int)
            < rows.len()
    &&& forall|i: int|
        0 <= i < rows.len() ==> spec_parts_contain(parts, i)
    &&& (npart > 0 ==> caps.len() == parts.len() && (forall|g: int, k: int|
        0 <= g < parts.len() && 0 <= k < parts[g].len() ==> spec_cap_matches(
            caps[g],
            spec_part_key(rows[#[trigger] parts[g][k] as int], pidx),
        )) && (forall|g1: int, g2: int|
        0 <= g1 < g2 < parts.len() ==> !crate::processing::join::spec_key_eq(
            #[trigger] caps[g1],
            #[trigger] caps[g2],
        )))
    &&& (npart == 0 ==> parts.len() == 1 && parts[0].len() == rows.len())
}

/// Whether two rows bear equal order-by keys (direction ignored).
pub open spec fn spec_order_equal(a: Seq<ValueV>, b: Seq<ValueV>, ovec: Seq<usize>) -> bool {
    forall|k: int|
        0 <= k < ovec.len() ==> crate::data::spec_value_cmp(
            a[(#[trigger] ovec[k]) as int],
            b[ovec[k] as int],
        ) == ValueOrdering::Equal
}

/// The direction-respecting three-way comparison of two rows by the
/// order-by columns: the first column whose values differ decides, reversed
/// for a descending column.
pub open spec fn spec_order_cmp(
    a: Seq<ValueV>,
    b: Seq<ValueV>,
    ovec: Seq<usize>,
    dirs: Seq<bool>,
    k: int,
) -> ValueOrdering
    decreases ovec.len() - k,
{
    if k < 0 || k >= ovec.len() {
        ValueOrdering::Equal
    } else {
        match crate::data::spec_value_cmp(a[ovec[k] as int], b[ovec[k] as int]) {
            ValueOrdering::Equal => spec_order_cmp(a, b, ovec, dirs, k + 1),
            ValueOrdering::Less => if dirs[k] {
                ValueOrdering::Less
            } else {
                ValueOrdering::Greater
            },
            ValueOrdering::Greater => if dirs[k] {
                ValueOrdering::Greater
            } else {
                ValueOrdering::Less
            },
        }
    }
}

/// How many of the first `j` rows of the partition bear an order key
/// different from the row at position `p`.
pub open spec fn spec_rank_before(
    rows: Seq<Seq<ValueV>>,
    part: Seq<usize>,
    ovec: Seq<usize>,
    p: int,
    j: int,
) -> int
    decreases j,
{
    if j <= 0 {
        0
    } else {
        spec_rank_before(rows, part, ovec, p, j - 1) + if spec_order_equal(
            rows[part[j - 1] as int],
            rows[part[p] as int],
            ovec,
        ) {
            0int
        } else {
            1int
        }
    }
}

/// How many order-key changes occur between consecutive rows among the
/// first `j + 1` rows of the partition.
pub open spec fn spec_boundaries_before(
    rows: Seq<Seq<ValueV>>,
    part: Seq<usize>,
    ovec: Seq<usize>,
    j: int,
) -> int
    decreases j,
{
    if j <= 0 {
        0
    } else {
        spec_boundaries_before(rows, part, ovec, j - 1) + if spec_order_equal(
            rows[part[j - 1] as int],
            rows[part[j] as int],
            ovec,
        ) {
            0int
        } else {
            1int
        }
    }
}

/// The value a window function computes for the row at position `p` of a
/// (sorted) partition, given as a list of row indices: row numbers and
/// ranks are 1-based positions clamped into the `i64` range; the offset and
/// positional functions look up the first order-by column (or report
/// 1-based positions when there is none), null when out of range.
pub open spec fn spec_window_value(
    ft: WindowFunctionType,
    rows: Seq<Seq<ValueV>>,
    part: Seq<usize>,
    p: int,
    ovec: Seq<usize>,
    arg: i64,
) -> ValueV {
    let n = part.len() as int;
    match ft {
        WindowFunctionType::RowNumber => ValueV::Integer(spec_clamp_i64(p + 1)),
        WindowFunctionType::Rank => ValueV::Integer(
            spec_clamp_i64(1 + spec_rank_before(rows, part, ovec, p, p)),
        ),
        WindowFunctionType::DenseRank => ValueV::Integer(
            spec_clamp_i64(1 + spec_boundaries_before(rows, part, ovec, p)),
        ),
        WindowFunctionType::Lead => if arg < 0 || p + arg >= n {
            ValueV::Null
        } else if ovec.len() == 0 {
            ValueV::Integer(spec_clamp_i64(p + arg + 1))
        } else {
            rows[part[p + arg] as int][ovec[0] as int]
        },
        WindowFunctionType::Lag => if arg < 0 || arg > p {
            ValueV::Null
        } else if ovec.len() == 0 {
            ValueV::Integer(spec_clamp_i64(p - arg + 1))
        } else {
            rows[part[p - arg] as int][ovec[0] as int]
        },
        WindowFunctionType::FirstValue => if ovec.len() == 0 {
            ValueV::Integer(1)
        } else {
            rows[part[0] as int][ovec[0] as int]
        },
        WindowFunctionType::LastValue => if ovec.len() == 0 {
            ValueV::Integer(spec_clamp_i64(n))
        } else {
            rows[part[n - 1] as int][ovec[0] as int]
        },
        WindowFunctionType::NthValue => if arg <= 0 || arg > n {
            ValueV::Null
        } else if ovec.len() == 0 {
            ValueV::Integer(arg)
        } else {
            rows[part[arg - 1] as int][ovec[0] as int]
        },
    }
}

/// The counts behind rank and dense rank never exceed the position.
pub proof fn lemma_rank_counts_bounded(
    rows: Seq<Seq<ValueV>>,
    part: Seq<usize>,
    ovec: Seq<usize>,
    p: int,
    j: int,
)
    requires
        j >= 0,
    ensures
        0 <= spec_rank_before(rows, part, ovec, p, j) <= j,
        0 <= spec_boundaries_before(rows, part, ovec, j) <= j,
    decreases j,
{
    if j > 0 {
        lemma_rank_counts_bounded(rows, part, ovec, p, j - 1);
    }
}

/// Whether the window configuration needs order-by columns but has none.
pub open spec fn spec_needs_order(ft: WindowFunctionType, n_order: int) -> bool {
    (ft is Rank || ft is DenseRank) && n_order == 0
}

/// Whether the window configuration needs an integer argument but lacks one.
pub open spec fn spec_needs_arg(ft: WindowFunctionType, args: Seq<ValueV>) -> bool {
    (ft is Lead || ft is Lag || ft is NthValue) && !(args.len() > 0 && args[0] is Integer)
}

impl WindowProcessor {
    /// Compare two rows by the order-by columns, respecting each column's
    /// direction; agrees with [`spec_order_cmp`].
    fn order_cmp(a: &Row, b: &Row, ovec: &Vec<usize>, dirs: &Vec<bool>) -> (r: ValueOrdering)
        requires
            ovec@.len() == dirs@.len(),
            forall|k: int| 0 <= k < ovec@.len() ==> (#[trigger] ovec@[k]) < a@.len(),
            forall|k: int| 0 <= k < ovec@.len() ==> (#[trigger] ovec@[k]) < b@.len(),
        ensures
            r == spec_order_cmp(a@, b@, ovec@, dirs@, 0),
    {
        let mut k: usize = 0;
        while k < ovec.len()
            invariant
                k <= ovec.len(),
                ovec@.len() == dirs@.len(),
                forall|j: int| 0 <= j < ovec@.len() ==> (#[trigger] ovec@[j]) < a@.len(),
                forall|j: int| 0 <= j < ovec@.len() ==> (#[trigger] ovec@[j]) < b@.len(),
                spec_order_cmp(a@, b@, ovec@, dirs@, 0) == spec_order_cmp(
                    a@,
                    b@,
                    ovec@,
                    dirs@,
                    k as int,
                ),
            decreases ovec.len() - k,
        {
            proof {
                assert(a@[ovec@[k as int] as int] == a.values@[ovec@[k as int] as int]@);
                assert(b@[ovec@[k as int] as int] == b.values@[ovec@[k as int] as int]@);
            }
            let c = value_cmp(&a.values[ovec[k]], &b.values[ovec[k]]);
            match c {
                ValueOrdering::Equal => {},
                ValueOrdering::Less => {
                    return if dirs[k] {
                        ValueOrdering::Less
                    } else {
                        ValueOrdering::Greater
                    };
                },
                ValueOrdering::Greater => {
                    return if dirs[k] {
                        ValueOrdering::Greater
                    } else {
                        ValueOrdering::Less
                    };
                },
            }
            k = k + 1;
        }
        ValueOrdering::Equal
    }

    /// Whether two rows bear equal order-by keys (direction ignored);
    /// agrees with [`spec_order_equal`].
    fn order_equal(a: &Row, b: &Row, ovec: &Vec<usize>) -> (r: bool)
        requires
            forall|k: int| 0 <= k < ovec@.len() ==> (#[trigger] ovec@[k]) < a@.len(),
            forall|k: int| 0 <= k < ovec@.len() ==> (#[trigger] ovec@[k]) < b@.len(),
        ensures
            r == spec_order_equal(a@, b@, ovec@),
    {
        let mut k: usize = 0;
        while k < ovec.len()
            invariant
                k <= ovec.len(),
                forall|j: int| 0 <= j < ovec@.len() ==> (#[trigger] ovec@[j]) < a@.len(),
                forall|j: int| 0 <= j < ovec@.len() ==> (#[trigger] ovec@[j]) < b@.len(),
                forall|j: int|
                    0 <= j < k ==> crate::data::spec_value_cmp(
                        a@[(#[trigger] ovec@[j]) as int],
                        b@[ovec@[j] as int],
                    ) == ValueOrdering::Equal,
            decreases ovec.len() - k,
        {
            proof {
                assert(a@[ovec@[k as int] as int] == a.values@[ovec@[k as int] as int]@);
                assert(b@[ovec@[k as int] as int] == b.values@[ovec@[k as int] as int]@);
            }
            match value_cmp(&a.values[ovec[k]], &b.values[ovec[k]]) {
                ValueOrdering::Equal => {},
                _ => {
                    return false;
                },
            }
            k = k + 1;
        }
        true
    }

    /// Apply the window function to the row at position `p` of the sorted
    /// partition `part` (a list of row indices into `input`); returns
    /// exactly the model's window value.
    fn apply_window_function(
        &self,
        input: &DataSet,
        part: &Vec<usize>,
        p: usize,
        ovec: &Vec<usize>,
        dirs: &Vec<bool>,
        offset_arg: i64,
    ) -> (r: Value)
        requires
            input.wf(),
            p < part@.len(),
            part@.len() <= usize::MAX,
            ovec@.len() == dirs@.len(),
            forall|k: int| 0 <= k < part@.len() ==> (#[trigger] part@[k]) < input@.data.len(),
            forall|k: int| 0 <= k < ovec@.len() ==> (#[trigger] ovec@[k]) < input@.schema.len(),
        ensures
            r@ == spec_window_value(
                self.function_type,
                input@.data,
                part@,
                p as int,
                ovec@,
                offset_arg,
            ),
    {
        let ghost rows = input@.data;
        let n = part.len();
        match self.function_type {
            WindowFunctionType::RowNumber => Value::Integer(clamp_pos_i64((p as u64) + 1)),
            WindowFunctionType::Rank => {
                // 1 + the number of preceding rows with a different order key;
                // within a sorted partition ties share a rank and the next
                // rank skips past them.
                let mut rank: u64 = 1;
                let mut j: usize = 0;
                while j < p
                    invariant
                        j <= p,
                        p < part@.len(),
                        part@.len() <= usize::MAX,
                        input.wf(),
                        rows == input@.data,
                        rank as int == 1 + spec_rank_before(rows, part@, ovec@, p as int, j as int),
                        rank <= j + 1,
                        ovec@.len() == dirs@.len(),
                        forall|k: int|
                            0 <= k < part@.len() ==> (#[trigger] part@[k]) < input@.data.len(),
                        forall|k: int|
                            0 <= k < ovec@.len() ==> (#[trigger] ovec@[k]) < input@.schema.len(),
                    decreases p - j,
                {
                    proof {
                        lemma_rank_counts_bounded(rows, part@, ovec@, p as int, j as int);
                        assert(input.data@[part@[j as int] as int]@ == rows[part@[j as int] as int]);
                        assert(input.data@[part@[p as int] as int]@ == rows[part@[p as int] as int]);
                        assert(rows[part@[j as int] as int].len() == input@.schema.len());
                        assert(rows[part@[p as int] as int].len() == input@.schema.len());
                    }
                    if !WindowProcessor::order_equal(
                        &input.data[part[j]],
                        &input.data[part[p]],
                        ovec,
                    ) {
                        rank = rank + 1;
                    }
                    j = j + 1;
                }
                Value::Integer(clamp_pos_i64(rank))
            },
            WindowFunctionType::DenseRank => {
                // 1 + the number of order-key changes among the rows up to
                // and including position p.
                let mut rank: u64 = 1;
                let mut j: usize = 1;
                while j <= p
                    invariant
                        1 <= j <= p + 1,
                        p < part@.len(),
                        part@.len() <= usize::MAX,
                        input.wf(),
                        rows == input@.data,
                        rank as int == 1 + spec_boundaries_before(rows, part@, ovec@, j - 1),
                        rank <= j,
                        ovec@.len() == dirs@.len(),
                        forall|k: int|
                            0 <= k < part@.len() ==> (#[trigger] part@[k]) < input@.data.len(),
                        forall|k: int|
                            0 <= k < ovec@.len() ==> (#[trigger] ovec@[k]) < input@.schema.len(),
                    decreases p + 1 - j,
                {
                    proof {
                        lemma_rank_counts_bounded(rows, part@, ovec@, p as int, j - 1);
                        assert(input.data@[part@[j - 1] as int]@ == rows[part@[j - 1] as int]);
                        assert(input.data@[part@[j as int] as int]@ == rows[part@[j as int] as int]);
                        assert(rows[part@[j - 1] as int].len() == input@.schema.len());
                        assert(rows[part@[j as int] as int].len() == input@.schema.len());
                    }
                    if !WindowProcessor::order_equal(
                        &input.data[part[j - 1]],
                        &input.data[part[j]],
                        ovec,
                    ) {
                        rank = rank + 1;
                    }
                    j = j + 1;
                }
                Value::Integer(clamp_pos_i64(rank))
            },
            WindowFunctionType::Lead => {
                if offset_arg < 0 {
                    return Value::Null;
                }
                let offset = offset_arg as u64;
                if offset >= (n as u64) || (p as u64) >= (n as u64) - offset {
                    proof {
                        assert(p + offset_arg >= part@.len());
                    }
                    return Value::Null;
                }
                let lead_idx = p + (offset as usize);
                if ovec.len() == 0 {
                    Value::Integer(clamp_pos_i64((lead_idx as u64) + 1))
                } else {
                    proof {
                        assert(input.data@[part@[lead_idx as int] as int]@ == rows[part@[lead_idx as int] as int]);
                        assert(rows[part@[lead_idx as int] as int].len() == input@.schema.len());
                        assert(rows[part@[lead_idx as int] as int][ovec@[0] as int]
                            == input.data@[part@[lead_idx as int] as int].values@[ovec@[0] as int]@);
                    }
                    input.data[part[lead_idx]].values[ovec[0]].clone()
                }
            },
            WindowFunctionType::Lag => {
                if offset_arg < 0 {
                    return Value::Null;
                }
                let offset = offset_arg as u64;
                if offset > (p as u64) {
                    return Value::Null;
                }
                let lag_idx = p - (offset as usize);
                if ovec.len() == 0 {
                    Value::Integer(clamp_pos_i64((lag_idx as u64) + 1))
                } else {
                    proof {
                        assert(input.data@[part@[lag_idx as int] as int]@ == rows[part@[lag_idx as int] as int]);
                        assert(rows[part@[lag_idx as int] as int].len() == input@.schema.len());
                        assert(rows[part@[lag_idx as int] as int][ovec@[0] as int]
                            == input.data@[part@[lag_idx as int] as int].values@[ovec@[0] as int]@);
                    }
                    input.data[part[lag_idx]].values[ovec[0]].clone()
                }
            },
            WindowFunctionType::FirstValue => {
                if ovec.len() == 0 {
                    Value::Integer(1)
                } else {
                    proof {
                        assert(input.data@[part@[0] as int]@ == rows[part@[0] as int]);
                        assert(rows[part@[0] as int].len() == input@.schema.len());
                        assert(rows[part@[0] as int][ovec@[0] as int]
                            == input.data@[part@[0] as int].values@[ovec@[0] as int]@);
                    }
                    input.data[part[0]].values[ovec[0]].clone()
                }
            },
            WindowFunctionType::LastValue => {
                if ovec.len() == 0 {
                    Value::Integer(clamp_pos_i64(n as u64))
                } else {
                    proof {
                        assert(input.data@[part@[n - 1] as int]@ == rows[part@[n - 1] as int]);
                        assert(rows[part@[n - 1] as int].len() == input@.schema.len());
                        assert(rows[part@[n - 1] as int][ovec@[0] as int]
                            == input.data@[part@[n - 1] as int].values@[ovec@[0] as int]@);
                    }
                    input.data[part[n - 1]].values[ovec[0]].clone()
                }
            },
            WindowFunctionType::NthValue => {
                if offset_arg <= 0 || (offset_arg as u64) > (n as u64) {
                    return Value::Null;
                }
                let nth = (offset_arg as u64) as usize;
                if ovec.len() == 0 {
                    Value::Integer(offset_arg)
                } else {
                    proof {
                        assert(input.data@[part@[nth - 1] as int]@ == rows[part@[nth - 1] as int]);
                        assert(rows[part@[nth - 1] as int].len() == input@.schema.len());
                        assert(rows[part@[nth - 1] as int][ovec@[0] as int]
                            == input.data@[part@[nth - 1] as int].values@[ovec@[0] as int]@);
                    }
                    input.data[part[nth - 1]].values[ovec[0]].clone()
                }
            },
        }
    }

    /// What a successful window run guarantees; see `process`.
    pub open spec fn spec_ok(&self, input: crate::data::DataSetV, out: crate::data::DataSetV) -> bool {
        let n = input.data.len();
        &&& spec_col_index(input.schema, self.output_column@) == -1
        &&& out.schema == input.schema.push(
            FieldV { name: self.output_column@, data_type: DataType::Integer, nullable: true },
        )
        &&& out.data.len() == n
        &&& forall|i: int|
            0 <= i < n ==> (#[trigger] out.data[i]).len() == input.schema.len() + 1
                && out.data[i].subrange(0, input.schema.len() as int) == input.data[i]
        &&& (self.function_type is RowNumber && self.partition_by@.len() == 0
            && self.order_by@.len() == 0 ==> (forall|i: int|
            0 <= i < n ==> out.data[i][input.schema.len() as int] == ValueV::Integer(
                spec_clamp_i64(i + 1),
            )))
        &&& out.metadata == input.metadata
        &&& exists|parts: Seq<Seq<usize>>, caps: Seq<Seq<ValueV>>, assign: Seq<(int, int)>, pidx: Seq<usize>, oseq: Seq<usize>|
            #[trigger] self.spec_witness(input, out, parts, caps, assign, pidx, oseq)
    }

    /// One witnessing partitioning behind a successful window run: the
    /// resolved partition and order columns, a partitioning of the row
    /// indices that is key-homogeneous (a single all-row partition when
    /// there are no partition columns), and, for every row, the partition
    /// and position the row was assigned, whose window value is the cell
    /// appended to that very row.
    pub open spec fn spec_witness(
        &self,
        input: crate::data::DataSetV,
        out: crate::data::DataSetV,
        parts: Seq<Seq<usize>>,
        caps: Seq<Seq<ValueV>>,
        assign: Seq<(int, int)>,
        pidx: Seq<usize>,
        oseq: Seq<usize>,
    ) -> bool {
        let n = input.data.len();
        &&& spec_partitioning_ok(parts, caps, input.data, pidx, self.partition_by@.len() as int)
        &&& pidx.len() == self.partition_by@.len()
        &&& forall|k: int|
            0 <= k < pidx.len() ==> (#[trigger] pidx[k]) as int == spec_col_index(
                input.schema,
                self.partition_by@[k]@,
            )
        &&& oseq.len() == self.order_by@.len()
        &&& forall|k: int|
            0 <= k < oseq.len() ==> (#[trigger] oseq[k]) as int == spec_col_index(
                input.schema,
                self.order_by@[k].0@,
            )
        &&& assign.len() == n
        &&& forall|i: int|
            0 <= i < n ==> {
                let g = (#[trigger] assign[i]).0;
                let q = assign[i].1;
                &&& 0 <= g < parts.len()
                &&& 0 <= q < parts[g].len()
                &&& parts[g][q] == i
                &&& out.data[i][input.schema.len() as int] == spec_window_value(
                    self.function_type,
                    input.data,
                    parts[g],
                    q,
                    oseq,
                    spec_window_arg(
                        self.function_type,
                        Seq::new(self.function_args@.len(), |k: int| self.function_args@[k]@),
                    ),
                )
            }
    }

    /// When a window run is allowed to fail; see `process`.
    pub open spec fn spec_err(&self, input: crate::data::DataSetV, e: ProcessingError) -> bool {
        e is InvalidArgument && (spec_col_index(input.schema, self.output_column@) >= 0 || (exists|
            k: int,
        |
            0 <= k < self.partition_by@.len() && spec_col_index(
                input.schema,
                (#[trigger] self.partition_by@[k])@,
            ) == -1) || (exists|k: int|
            0 <= k < self.order_by@.len() && spec_col_index(
                input.schema,
                (#[trigger] self.order_by@[k]).0@,
            ) == -1) || spec_needs_order(self.function_type, self.order_by@.len() as int)
            || spec_needs_arg(
            self.function_type,
            Seq::new(self.function_args@.len(), |k: int| self.function_args@[k]@),
        ))
    }


}

    /// Partition the row indices by the partition-key tuple: each index goes
    /// to the partition of its key (structural equality), new keys opening
    /// new partitions in first-occurrence order.
    #[verifier::spinoff_prover]
    #[verifier::rlimit(60)]
    fn build_keyed_partitions(input: &DataSet, pvec: &Vec<usize>) -> (r: (Vec<Vec<usize>>, Vec<Row>))
        requires
            input.wf(),
            forall|k: int| 0 <= k < pvec@.len() ==> (#[trigger] pvec@[k]) < input@.schema.len(),
        ensures
            r.1@.len() == r.0@.len(),
            forall|g: int, k: int|
                0 <= g < r.0@.len() && 0 <= k < r.0@[g]@.len() ==> (#[trigger] r.0@[g]@[k])
                    < input@.data.len(),
            forall|j: int|
                0 <= j < input@.data.len() ==> spec_parts_contain(views_of_parts(r.0@), j),
            forall|g: int, k: int|
                0 <= g < r.0@.len() && 0 <= k < r.0@[g]@.len() ==> spec_cap_matches(
                    (r.1@[g])@,
                    spec_part_key(input@.data[(#[trigger] r.0@[g]@[k]) as int], pvec@),
                ),
            forall|g1: int, g2: int|
                0 <= g1 < g2 < r.1@.len() ==> !crate::processing::join::spec_key_eq(
                    (#[trigger] r.1@[g1])@,
                    (#[trigger] r.1@[g2])@,
                ),
    {
        let ghost schema = input@.schema;
        let ghost rows = input@.data;
        let ghost pidxg = pvec@;
        let n = input.data.len();
        let mut parts: Vec<Vec<usize>> = Vec::new();
        let mut keys: Vec<Row> = Vec::new();
        let mut i: usize = 0;
        while i < n
            invariant
                i <= n,
                n == input.data@.len(),
                input.wf(),
                schema == input@.schema,
                rows == input@.data,
                pidxg == pvec@,
                forall|k: int| 0 <= k < pvec@.len() ==> (#[trigger] pvec@[k]) < schema.len(),
                keys@.len() == parts@.len(),
                forall|g: int, k: int|
                    0 <= g < parts@.len() && 0 <= k < (#[trigger] parts@[g])@.len() ==> (
                    #[trigger] parts@[g]@[k]) < i,
                forall|j: int| 0 <= j < i ==> spec_parts_contain(views_of_parts(parts@), j),
                forall|g: int, k: int|
                    0 <= g < parts@.len() && 0 <= k < parts@[g]@.len() ==> spec_cap_matches(
                        (keys@[g])@,
                        spec_part_key(rows[(#[trigger] parts@[g]@[k]) as int], pidxg),
                    ),
                forall|g1: int, g2: int|
                    0 <= g1 < g2 < keys@.len() ==> !crate::processing::join::spec_key_eq(
                        (#[trigger] keys@[g1])@,
                        (#[trigger] keys@[g2])@,
                    ),
            decreases n - i,
        {
            proof {
                assert(input@.data[i as int] == input.data@[i as int]@);
                assert(input@.data[i as int].len() == schema.len());
            }
            let krow = project_row(&input.data[i], &pvec);
            proof {
                assert(krow@ =~= spec_part_key(rows[i as int], pidxg));
            }
            // Find this key's partition, or start a new one.
            let found = find_key_row(&keys, &krow);
            match found {
                Some(gi) => {
                    let ghost partsb = parts@;
                    let mut part = parts.remove(gi);
                    part.push(i);
                    parts.insert(gi, part);
                    proof {
                        assert(parts@ =~= partsb.update(gi as int, parts@[gi as int]));
                        assert(parts@[gi as int]@ =~= partsb[gi as int]@.push(i));
                        assert forall|g2: int, k: int|
                            0 <= g2 < parts@.len() && 0 <= k < parts@[g2]@.len()
                            implies (#[trigger] parts@[g2]@[k]) < i + 1 by {
                            if g2 == gi as int {
                                if k < partsb[g2]@.len() {
                                    assert(parts@[g2]@[k] == partsb[g2]@[k]);
                                }
                            } else {
                                assert(parts@[g2] == partsb[g2]);
                            }
                        }
                        assert forall|g2: int, k: int|
                            0 <= g2 < parts@.len() && 0 <= k < parts@[g2]@.len()
                            implies spec_cap_matches(
                            (keys@[g2])@,
                            spec_part_key(rows[(#[trigger] parts@[g2]@[k]) as int], pidxg),
                        ) by {
                            if g2 == gi as int {
                                if k < partsb[g2]@.len() {
                                    assert(parts@[g2]@[k] == partsb[g2]@[k]);
                                } else {
                                    assert(parts@[g2]@[k] == i);
                                }
                            } else {
                                assert(parts@[g2] == partsb[g2]);
                            }
                        }
                        assert forall|j: int|
                            0 <= j < i + 1 implies spec_parts_contain(
                            views_of_parts(parts@),
                            j,
                        ) by {
                            if j < i {
                                assert(spec_parts_contain(views_of_parts(partsb), j));
                                let (g0, k0) = choose|g0: int, k0: int|
                                    0 <= g0 < views_of_parts(partsb).len() && 0 <= k0
                                        < views_of_parts(partsb)[g0].len()
                                        && #[trigger] views_of_parts(partsb)[g0][k0] as int == j;
                                if g0 == gi as int {
                                    assert(parts@[g0]@[k0] == partsb[g0]@[k0]);
                                    assert(views_of_parts(parts@)[g0][k0] as int == j);
                                } else {
                                    assert(parts@[g0] == partsb[g0]);
                                    assert(views_of_parts(parts@)[g0][k0] as int == j);
                                }
                            } else {
                                assert(parts@[gi as int]@[partsb[gi as int]@.len() as int] == i);
                                assert(views_of_parts(parts@)[gi as int][partsb[gi as int]@.len() as int]
                                    as int == j);
                            }
                        }
                    }
                },
                None => {
                    keys.push(krow);
                    let mut fresh: Vec<usize> = Vec::new();
                    fresh.push(i);
                    let ghost partsb = parts@;
                    parts.push(fresh);
                    proof {
                        assert forall|g2: int, k: int|
                            0 <= g2 < parts@.len() && 0 <= k < parts@[g2]@.len()
                            implies (#[trigger] parts@[g2]@[k]) < i + 1 by {
                            if g2 < partsb.len() {
                                assert(parts@[g2] == partsb[g2]);
                            }
                        }
                        assert forall|g2: int, k: int|
                            0 <= g2 < parts@.len() && 0 <= k < parts@[g2]@.len()
                            implies spec_cap_matches(
                            (keys@[g2])@,
                            spec_part_key(rows[(#[trigger] parts@[g2]@[k]) as int], pidxg),
                        ) by {
                            if g2 < partsb.len() {
                                assert(parts@[g2] == partsb[g2]);
                            } else {
                                assert(parts@[g2]@[k] == i);
                                assert((keys@[g2])@ == krow@);
                            }
                        }
                        assert forall|j: int|
                            0 <= j < i + 1 implies spec_parts_contain(
                            views_of_parts(parts@),
                            j,
                        ) by {
                            if j < i {
                                assert(spec_parts_contain(views_of_parts(partsb), j));
                                let (g0, k0) = choose|g0: int, k0: int|
                                    0 <= g0 < views_of_parts(partsb).len() && 0 <= k0
                                        < views_of_parts(partsb)[g0].len()
                                        && #[trigger] views_of_parts(partsb)[g0][k0] as int == j;
                                assert(parts@[g0] == partsb[g0]);
                                assert(views_of_parts(parts@)[g0][k0] as int == j);
                            } else {
                                assert(parts@[partsb.len() as int]@[0] == i);
                                assert(views_of_parts(parts@)[partsb.len() as int][0] as int == j);
                            }
                        }
                    }
                },
            }
            i = i + 1;
        }
        (parts, keys)
    }

    /// The single partition holding every row index, in input order.
    fn identity_partition(n: usize) -> (r: Vec<usize>)
        ensures
            r@.len() == n,
            forall|k: int| 0 <= k < n ==> (#[trigger] r@[k]) == k,
    {
        let mut all: Vec<usize> = Vec::new();
        let mut i: usize = 0;
        while i < n
            invariant
                i <= n,
                all@.len() == i,
                forall|k: int| 0 <= k < i ==> (#[trigger] all@[k]) == k,
            decreases n - i,
        {
            all.push(i);
            i = i + 1;
        }
        all
    }

    /// Sort one partition's row indices stably by the composite order key
    /// (insertion sort); with no order columns the partition is returned
    /// unchanged.  The sorted partition holds exactly the indices it was
    /// given.
    #[verifier::spinoff_prover]
    #[verifier::rlimit(60)]
    fn sort_partition(input: &DataSet, part: Vec<usize>, ovec: &Vec<usize>, dirs: &Vec<bool>) -> (r:
        Vec<usize>)
        requires
            input.wf(),
            ovec@.len() == dirs@.len(),
            forall|k: int| 0 <= k < ovec@.len() ==> (#[trigger] ovec@[k]) < input@.schema.len(),
            forall|k: int| 0 <= k < part@.len() ==> (#[trigger] part@[k]) < input@.data.len(),
        ensures
            r@.len() == part@.len(),
            forall|k: int| 0 <= k < r@.len() ==> (#[trigger] r@[k]) < input@.data.len(),
            forall|k: int| 0 <= k < part@.len() ==> r@.contains(#[trigger] part@[k]),
            forall|k: int| 0 <= k < r@.len() ==> part@.contains(#[trigger] r@[k]),
            ovec@.len() == 0 ==> r@ == part@,
    {
        let ghost schema = input@.schema;
        let ghost rows = input@.data;
        let ghost origv = part@;
        let n = input.data.len();
        let mut part = part;
        proof {
            assert forall|k: int| 0 <= k < origv.len() implies part@.contains(
                #[trigger] origv[k],
            ) by {
                assert(part@[k] == origv[k]);
            }
            assert forall|k: int| 0 <= k < part@.len() implies origv.contains(
                #[trigger] part@[k],
            ) by {
                assert(part@[k] == origv[k]);
            }
        }
        if ovec.len() == 0 {
            return part;
        }
        let ghost plen = part@.len();
        let mut s: usize = 1;
        while s < part.len()
            invariant
                part@.len() == plen,
                plen == origv.len(),
                n == input.data@.len(),
                input.wf(),
                schema == input@.schema,
                rows == input@.data,
                ovec@.len() == dirs@.len(),
                forall|k: int| 0 <= k < ovec@.len() ==> (#[trigger] ovec@[k]) < schema.len(),
                forall|k: int| 0 <= k < origv.len() ==> (#[trigger] origv[k]) < n,
                forall|k: int| 0 <= k < part@.len() ==> (#[trigger] part@[k]) < n,
                forall|k: int| 0 <= k < origv.len() ==> part@.contains(#[trigger] origv[k]),
                forall|k: int| 0 <= k < part@.len() ==> origv.contains(#[trigger] part@[k]),
            decreases plen - s,
        {
            let mut t: usize = s;
            while t > 0
                invariant
                    t <= s < part@.len(),
                    part@.len() == plen,
                    plen == origv.len(),
                    n == input.data@.len(),
                    input.wf(),
                    schema == input@.schema,
                    rows == input@.data,
                    ovec@.len() == dirs@.len(),
                    forall|k: int| 0 <= k < ovec@.len() ==> (#[trigger] ovec@[k]) < schema.len(),
                    forall|k: int| 0 <= k < origv.len() ==> (#[trigger] origv[k]) < n,
                    forall|k: int| 0 <= k < part@.len() ==> (#[trigger] part@[k]) < n,
                    forall|k: int| 0 <= k < origv.len() ==> part@.contains(#[trigger] origv[k]),
                    forall|k: int| 0 <= k < part@.len() ==> origv.contains(#[trigger] part@[k]),
                decreases t,
            {
                proof {
                    assert(input.data@[part@[t - 1] as int]@ == input@.data[part@[t - 1] as int]);
                    assert(input.data@[part@[t as int] as int]@ == input@.data[part@[t as int] as int]);
                }
                let cmp = WindowProcessor::order_cmp(
                    &input.data[part[t - 1]],
                    &input.data[part[t]],
                    &ovec,
                    &dirs,
                );
                let swap = match cmp {
                    ValueOrdering::Greater => true,
                    _ => false,
                };
                if !swap {
                    break ;
                }
                let ghost pb = part@;
                let a = part[t - 1];
                let b = part[t];
                part[t - 1] = b;
                part[t] = a;
                proof {
                    assert forall|k: int|
                        0 <= k < part@.len() implies (#[trigger] part@[k]) < n by {
                        if k != t - 1 && k != t {
                            assert(part@[k] == pb[k]);
                        }
                    }
                    assert forall|k: int| 0 <= k < origv.len() implies part@.contains(
                        #[trigger] origv[k],
                    ) by {
                        assert(pb.contains(origv[k]));
                        let k0 = choose|k0: int| 0 <= k0 < pb.len() && pb[k0] == origv[k];
                        if k0 == t - 1 {
                            assert(part@[t as int] == origv[k]);
                        } else if k0 == t {
                            assert(part@[t - 1] == origv[k]);
                        } else {
                            assert(part@[k0] == origv[k]);
                        }
                    }
                    assert forall|k: int| 0 <= k < part@.len() implies origv.contains(
                        #[trigger] part@[k],
                    ) by {
                        if k == t - 1 {
                            assert(pb[t as int] == part@[k]);
                            assert(origv.contains(pb[t as int]));
                        } else if k == t {
                            assert(pb[t - 1] == part@[k]);
                            assert(origv.contains(pb[t - 1]));
                        } else {
                            assert(pb[k] == part@[k]);
                            assert(origv.contains(pb[k]));
                        }
                    }
                }
                t = t - 1;
            }
            s = s + 1;
        }
        part
    }


    /// Sort every partition of a partitioning, each stably by the composite
    /// order key, keeping the partitions themselves in place: partition `g`
    /// of the result holds exactly the indices of partition `g` of the input.
    #[verifier::spinoff_prover]
    #[verifier::rlimit(60)]
    fn sort_all_partitions(
        input: &DataSet,
        parts: &Vec<Vec<usize>>,
        ovec: &Vec<usize>,
        dirs: &Vec<bool>,
    ) -> (r: Vec<Vec<usize>>)
        requires
            input.wf(),
            ovec@.len() == dirs@.len(),
            forall|k: int| 0 <= k < ovec@.len() ==> (#[trigger] ovec@[k]) < input@.schema.len(),
            forall|g2: int, k: int|
                0 <= g2 < parts@.len() && 0 <= k < (#[trigger] parts@[g2])@.len() ==> (
                #[trigger] parts@[g2]@[k]) < input@.data.len(),
        ensures
            r@.len() == parts@.len(),
            forall|g2: int| 0 <= g2 < r@.len() ==> (#[trigger] r@[g2])@.len() == parts@[g2]@.len(),
            forall|g2: int, k: int|
                0 <= g2 < r@.len() && 0 <= k < r@[g2]@.len() ==> (#[trigger] r@[g2]@[k])
                    < input@.data.len(),
            forall|g2: int, k: int|
                0 <= g2 < parts@.len() && 0 <= k < parts@[g2]@.len() ==> r@[g2]@.contains(
                    #[trigger] parts@[g2]@[k],
                ),
            forall|g2: int, k: int|
                0 <= g2 < r@.len() && 0 <= k < r@[g2]@.len() ==> parts@[g2]@.contains(
                    #[trigger] r@[g2]@[k],
                ),
            ovec@.len() == 0 ==> (forall|g2: int|
                0 <= g2 < r@.len() ==> (#[trigger] r@[g2])@ == parts@[g2]@),
    {
        let mut sorted_parts: Vec<Vec<usize>> = Vec::new();
        let mut g: usize = 0;
        while g < parts.len()
            invariant
                g <= parts@.len(),
                input.wf(),
                ovec@.len() == dirs@.len(),
                forall|k: int|
                    0 <= k < ovec@.len() ==> (#[trigger] ovec@[k]) < input@.schema.len(),
                forall|g2: int, k: int|
                    0 <= g2 < parts@.len() && 0 <= k < (#[trigger] parts@[g2])@.len() ==> (
                    #[trigger] parts@[g2]@[k]) < input@.data.len(),
                sorted_parts@.len() == g,
                forall|g2: int|
                    0 <= g2 < g ==> (#[trigger] sorted_parts@[g2])@.len() == parts@[g2]@.len(),
                forall|g2: int, k: int|
                    0 <= g2 < g && 0 <= k < sorted_parts@[g2]@.len() ==> (
                    #[trigger] sorted_parts@[g2]@[k]) < input@.data.len(),
                forall|g2: int, k: int|
                    0 <= g2 < g && 0 <= k < parts@[g2]@.len() ==> sorted_parts@[g2]@.contains(
                        #[trigger] parts@[g2]@[k],
                    ),
                forall|g2: int, k: int|
                    0 <= g2 < g && 0 <= k < sorted_parts@[g2]@.len() ==> parts@[g2]@.contains(
                        #[trigger] sorted_parts@[g2]@[k],
                    ),
                ovec@.len() == 0 ==> (forall|g2: int|
                    0 <= g2 < g ==> (#[trigger] sorted_parts@[g2])@ == parts@[g2]@),
            decreases parts.len() - g,
        {
            let src = &parts[g];
            let mut part: Vec<usize> = Vec::new();
            let mut c3: usize = 0;
            while c3 < src.len()
                invariant
                    c3 <= src@.len(),
                    src == parts@[g as int],
                    g < parts@.len(),
                    part@.len() == c3,
                    forall|k: int| 0 <= k < c3 ==> (#[trigger] part@[k]) == src@[k],
                decreases src.len() - c3,
            {
                part.push(src[c3]);
                c3 = c3 + 1;
            }
            proof {
                assert(part@ =~= parts@[g as int]@);
            }
            let ghost partv = part@;
            let sorted = sort_partition(input, part, ovec, dirs);
            let ghost sortedv = sorted@;
            let ghost spb = sorted_parts@;
            sorted_parts.push(sorted);
            proof {
                assert(sorted_parts@[g as int]@ == sortedv);
                assert forall|g2: int|
                    0 <= g2 < g + 1 implies (#[trigger] sorted_parts@[g2])@.len()
                    == parts@[g2]@.len() by {
                    if g2 == g as int {
                        assert(sortedv.len() == partv.len());
                    } else {
                        assert(sorted_parts@[g2] == spb[g2]);
                    }
                }
                assert forall|g2: int, k: int|
                    0 <= g2 < g + 1 && 0 <= k < sorted_parts@[g2]@.len() implies (
                #[trigger] sorted_parts@[g2]@[k]) < input@.data.len() by {
                    if g2 == g as int {
                        assert(sorted_parts@[g2]@[k] == sortedv[k]);
                    } else {
                        assert(sorted_parts@[g2] == spb[g2]);
                    }
                }
                assert forall|g2: int, k: int|
                    0 <= g2 < g + 1 && 0 <= k
                    < parts@[g2]@.len() implies sorted_parts@[g2]@.contains(
                    #[trigger] parts@[g2]@[k],
                ) by {
                    if g2 == g as int {
                        assert(partv[k] == parts@[g2]@[k]);
                        assert(sortedv.contains(partv[k]));
                        assert(sorted_parts@[g2]@ == sortedv);
                    } else {
                        assert(sorted_parts@[g2] == spb[g2]);
                        assert(spb[g2]@.contains(parts@[g2]@[k]));
                    }
                }
                assert forall|g2: int, k: int|
                    0 <= g2 < g + 1 && 0 <= k
                    < sorted_parts@[g2]@.len() implies parts@[g2]@.contains(
                    #[trigger] sorted_parts@[g2]@[k],
                ) by {
                    if g2 == g as int {
                        assert(sorted_parts@[g2]@ == sortedv);
                        assert(partv.contains(sortedv[k]));
                        assert(partv == parts@[g2]@);
                    } else {
                        assert(sorted_parts@[g2] == spb[g2]);
                        assert(parts@[g2]@.contains(spb[g2]@[k]));
                    }
                }
                assert forall|g2: int|
                    0 <= g2 < g + 1 && ovec@.len() == 0 implies (#[trigger] sorted_parts@[g2])@
                    == parts@[g2]@ by {
                    if g2 != g as int {
                        assert(sorted_parts@[g2] == spb[g2]);
                    }
                }
            }
            g = g + 1;
        }
        sorted_parts
    }

impl WindowProcessor {
    /// Compute each row's window value and write it back at the row's own
    /// original index; the returned ghost assignment records, for every row,
    /// the partition and position its value was computed at.
    #[verifier::spinoff_prover]
    #[verifier::rlimit(60)]
    fn compute_values(
        &self,
        input: &DataSet,
        sorted_parts: &Vec<Vec<usize>>,
        ovec: &Vec<usize>,
        dirs: &Vec<bool>,
        offset_arg: i64,
    ) -> (r: (Vec<Value>, Ghost<Seq<(int, int)>>))
        requires
            input.wf(),
            ovec@.len() == dirs@.len(),
            forall|k: int| 0 <= k < ovec@.len() ==> (#[trigger] ovec@[k]) < input@.schema.len(),
            forall|g: int, k: int|
                0 <= g < sorted_parts@.len() && 0 <= k < sorted_parts@[g]@.len() ==> (
                #[trigger] sorted_parts@[g]@[k]) < input@.data.len(),
            forall|j: int|
                0 <= j < input@.data.len() ==> spec_parts_contain(
                    views_of_parts(sorted_parts@),
                    j,
                ),
        ensures
            r.0@.len() == input@.data.len(),
            r.1@.len() == input@.data.len(),
            forall|i: int|
                0 <= i < input@.data.len() ==> {
                    let g0 = (#[trigger] r.1@[i]).0;
                    let q0 = r.1@[i].1;
                    &&& 0 <= g0 < views_of_parts(sorted_parts@).len()
                    &&& 0 <= q0 < views_of_parts(sorted_parts@)[g0].len()
                    &&& views_of_parts(sorted_parts@)[g0][q0] == i
                    &&& r.0@[i]@ == spec_window_value(
                        self.function_type,
                        input@.data,
                        views_of_parts(sorted_parts@)[g0],
                        q0,
                        ovec@,
                        offset_arg,
                    )
                },
    {
        let ghost schema = input@.schema;
        let ghost rows = input@.data;
        let ghost pview = views_of_parts(sorted_parts@);
        let n = input.data.len();
        let mut out_values: Vec<Value> = Vec::new();
        let mut i3: usize = 0;
        while i3 < n
            invariant
                i3 <= n,
                out_values@.len() == i3,
            decreases n - i3,
        {
            out_values.push(Value::Null);
            i3 = i3 + 1;
        }
        let ghost mut assign: Seq<(int, int)> = Seq::new(n as nat, |i: int| (0int, 0int));
        let ghost mut done: Seq<bool> = Seq::new(n as nat, |i: int| false);
        let mut g3: usize = 0;
        while g3 < sorted_parts.len()
            invariant
                g3 <= sorted_parts@.len(),
                n == input.data@.len(),
                input.wf(),
                schema == input@.schema,
                rows == input@.data,
                ovec@.len() == dirs@.len(),
                pview == views_of_parts(sorted_parts@),
                forall|k: int| 0 <= k < ovec@.len() ==> (#[trigger] ovec@[k]) < schema.len(),
                forall|g2: int, k: int|
                    0 <= g2 < sorted_parts@.len() && 0 <= k < sorted_parts@[g2]@.len() ==> (
                    #[trigger] sorted_parts@[g2]@[k]) < n,
                out_values@.len() == n,
                assign.len() == n,
                done.len() == n,
                forall|i: int|
                    0 <= i < n && #[trigger] done[i] ==> {
                        let g0 = assign[i].0;
                        let q0 = assign[i].1;
                        &&& 0 <= g0 < pview.len()
                        &&& 0 <= q0 < pview[g0].len()
                        &&& pview[g0][q0] == i
                        &&& out_values@[i]@ == spec_window_value(
                            self.function_type,
                            rows,
                            pview[g0],
                            q0,
                            ovec@,
                            offset_arg,
                        )
                    },
                forall|g2: int, k: int|
                    0 <= g2 < g3 && 0 <= k < pview[g2].len() ==> done[(#[trigger] pview[g2][k]) as int],
            decreases sorted_parts.len() - g3,
        {
            let part = &sorted_parts[g3];
            let mut p: usize = 0;
            while p < part.len()
                invariant
                    p <= part@.len(),
                    n == input.data@.len(),
                    input.wf(),
                    schema == input@.schema,
                    rows == input@.data,
                    g3 < sorted_parts@.len(),
                    part == sorted_parts@[g3 as int],
                    g3 < pview.len(),
                    pview == views_of_parts(sorted_parts@),
                    pview[g3 as int] == part@,
                    ovec@.len() == dirs@.len(),
                    forall|k: int| 0 <= k < ovec@.len() ==> (#[trigger] ovec@[k]) < schema.len(),
                    forall|k: int| 0 <= k < part@.len() ==> (#[trigger] part@[k]) < n,
                    forall|g2: int, k: int|
                        0 <= g2 < sorted_parts@.len() && 0 <= k < sorted_parts@[g2]@.len() ==> (
                        #[trigger] sorted_parts@[g2]@[k]) < n,
                    out_values@.len() == n,
                    assign.len() == n,
                    done.len() == n,
                    forall|i: int|
                        0 <= i < n && #[trigger] done[i] ==> {
                            let g0 = assign[i].0;
                            let q0 = assign[i].1;
                            &&& 0 <= g0 < pview.len()
                            &&& 0 <= q0 < pview[g0].len()
                            &&& pview[g0][q0] == i
                            &&& out_values@[i]@ == spec_window_value(
                                self.function_type,
                                rows,
                                pview[g0],
                                q0,
                                ovec@,
                                offset_arg,
                            )
                        },
                    forall|g2: int, k: int|
                        0 <= g2 < g3 && 0 <= k < pview[g2].len() ==> done[(#[trigger] pview[g2][k]) as int],
                    forall|k: int| 0 <= k < p ==> #[trigger] done[part@[k] as int],
                decreases part.len() - p,
            {
                let v = self.apply_window_function(input, part, p, ovec, dirs, offset_arg);
                let idx = part[p];
                let ghost ovb = out_values@;
                let ghost doneb = done;
                out_values[idx] = v;
                proof {
                    assign = assign.update(idx as int, (g3 as int, p as int));
                    done = done.update(idx as int, true);
                    assert forall|i: int|
                        0 <= i < n && #[trigger] done[i] implies {
                            let g0 = assign[i].0;
                            let q0 = assign[i].1;
                            &&& 0 <= g0 < pview.len()
                            &&& 0 <= q0 < pview[g0].len()
                            &&& pview[g0][q0] == i
                            &&& out_values@[i]@ == spec_window_value(
                                self.function_type,
                                rows,
                                pview[g0],
                                q0,
                                ovec@,
                                offset_arg,
                            )
                        } by {
                        if i == idx as int {
                            assert(pview[g3 as int][p as int] == idx);
                        } else {
                            assert(doneb[i] == done[i]);
                            assert(out_values@[i] == ovb[i]);
                        }
                    }
                    assert forall|g2: int, k: int|
                        0 <= g2 < g3 && 0 <= k < pview[g2].len() implies done[(
                        #[trigger] pview[g2][k]) as int] by {
                        assert(pview[g2] == sorted_parts@[g2]@);
                        assert(pview[g2][k] == sorted_parts@[g2]@[k]);
                        if pview[g2][k] as int != idx as int {
                            assert(doneb[pview[g2][k] as int]);
                            assert(done[pview[g2][k] as int] == doneb[pview[g2][k] as int]);
                        }
                    }
                    assert forall|k: int| 0 <= k < p + 1 implies #[trigger] done[part@[k] as int] by {
                        if part@[k] as int != idx as int {
                            assert(done[part@[k] as int] == doneb[part@[k] as int]);
                        }
                    }
                }
                p = p + 1;
            }
            proof {
                assert forall|k: int|
                    0 <= k < pview[g3 as int].len() implies done[(#[trigger] pview[g3 as int][k])
                    as int] by {
                    assert(pview[g3 as int][k] == part@[k]);
                    assert(done[part@[k] as int]);
                }
            }
            g3 = g3 + 1;
        }
        proof {
            assert forall|i: int| 0 <= i < n implies #[trigger] done[i] by {
                assert(spec_parts_contain(pview, i));
                let (g0, k0) = choose|g0: int, k0: int|
                    0 <= g0 < pview.len() && 0 <= k0 < pview[g0].len() && #[trigger] pview[g0][k0]
                        as int == i;
                assert(done[pview[g0][k0] as int]);
            }
            assert(views_of_parts(sorted_parts@) == pview);
            assert forall|i: int|
                0 <= i < n implies {
                    let g0 = (#[trigger] assign[i]).0;
                    let q0 = assign[i].1;
                    &&& 0 <= g0 < pview.len()
                    &&& 0 <= q0 < pview[g0].len()
                    &&& pview[g0][q0] == i
                    &&& out_values@[i]@ == spec_window_value(
                        self.function_type,
                        rows,
                        pview[g0],
                        q0,
                        ovec@,
                        offset_arg,
                    )
                } by {
                assert(done[i]);
            }
        }
        (out_values, Ghost(assign))
    }

    /// Attach the window value to every row.
    ///
    /// Succeeds exactly when the output column name is fresh, every
    /// partition-by and order-by column resolves, ranking functions have
    /// order-by columns, and offset functions have an integer argument; any
    /// violation is an `InvalidArgument` error.  The output schema is the
    /// input schema plus a nullable integer-typed column; every output row
    /// is its input row with the value computed for that row appended — row
    /// identity is preserved through partitioning.  A row-number window with
    /// no partition-by and no order-by numbers the rows 1, 2, 3, … in input
    /// order.
    #[verifier::spinoff_prover]
    #[verifier::rlimit(60)]
    pub fn process(&self, input: &DataSet) -> (r: Result<DataSet, ProcessingError>)
        requires
            input.wf(),
        ensures
            match r {
                Ok(out) => self.spec_ok(input@, out@) && out.wf(),
                Err(e) => self.spec_err(input@, e),
            },
    {
        let ghost schema = input@.schema;
        let ghost rows = input@.data;
        // The output column must be fresh.
        match input.schema.col_index(self.output_column.as_str()) {
            Some(_) => {
                return Err(
                    ProcessingError::InvalidArgument(
                        concat3("Output column '", self.output_column.as_str(), "' already exists"),
                    ),
                );
            },
            None => {},
        }
        // Configuration checks.
        let needs_order = match self.function_type {
            WindowFunctionType::Rank => true,
            WindowFunctionType::DenseRank => true,
            _ => false,
        };
        if needs_order && self.order_by.len() == 0 {
            return Err(
                ProcessingError::InvalidArgument(
                    String::from_str("Ranking window functions require order by columns"),
                ),
            );
        }
        let needs_arg = match self.function_type {
            WindowFunctionType::Lead => true,
            WindowFunctionType::Lag => true,
            WindowFunctionType::NthValue => true,
            _ => false,
        };
        let mut offset_arg: i64 = 0;
        if needs_arg {
            if self.function_args.len() == 0 {
                proof {
                    assert(spec_needs_arg(
                        self.function_type,
                        Seq::new(self.function_args@.len(), |k: int| self.function_args@[k]@),
                    ));
                }
                return Err(
                    ProcessingError::InvalidArgument(
                        String::from_str("Window function requires an integer argument"),
                    ),
                );
            }
            match &self.function_args[0] {
                Value::Integer(v) => {
                    offset_arg = *v;
                },
                _ => {
                    proof {
                        assert(Seq::new(
                            self.function_args@.len(),
                            |k: int| self.function_args@[k]@,
                        )[0] == self.function_args@[0]@);
                    }
                    return Err(
                        ProcessingError::InvalidArgument(
                            String::from_str("Window function argument must be an integer"),
                        ),
                    );
                },
            }
        }
        // Resolve the partition and order columns.
        let mut pvec: Vec<usize> = Vec::new();
        let mut c: usize = 0;
        while c < self.partition_by.len()
            invariant
                c <= self.partition_by@.len(),
                schema == input@.schema,
                pvec@.len() == c,
                forall|k: int| 0 <= k < c ==> (#[trigger] pvec@[k]) < schema.len(),
                forall|k: int|
                    0 <= k < c ==> (#[trigger] pvec@[k]) as int == spec_col_index(
                        schema,
                        self.partition_by@[k]@,
                    ),
            decreases self.partition_by.len() - c,
        {
            let col = &self.partition_by[c];
            match input.schema.col_index(col.as_str()) {
                Some(i) => {
                    proof {
                        lemma_col_index(schema, col@);
                    }
                    pvec.push(i);
                },
                None => {
                    return Err(
                        ProcessingError::InvalidArgument(
                            concat3("Partition by column '", col.as_str(), "' not found"),
                        ),
                    );
                },
            }
            c = c + 1;
        }
        let mut ovec: Vec<usize> = Vec::new();
        let mut dirs: Vec<bool> = Vec::new();
        let mut c2: usize = 0;
        while c2 < self.order_by.len()
            invariant
                c2 <= self.order_by@.len(),
                schema == input@.schema,
                ovec@.len() == c2,
                dirs@.len() == c2,
                forall|k: int| 0 <= k < c2 ==> (#[trigger] ovec@[k]) < schema.len(),
                forall|k: int|
                    0 <= k < c2 ==> (#[trigger] ovec@[k]) as int == spec_col_index(
                        schema,
                        self.order_by@[k].0@,
                    ),
            decreases self.order_by.len() - c2,
        {
            let col = &self.order_by[c2];
            match input.schema.col_index(col.0.as_str()) {
                Some(i) => {
                    proof {
                        lemma_col_index(schema, col.0@);
                    }
                    ovec.push(i);
                    dirs.push(col.1);
                },
                None => {
                    return Err(
                        ProcessingError::InvalidArgument(
                            concat3("Order by column '", col.0.as_str(), "' not found"),
                        ),
                    );
                },
            }
            c2 = c2 + 1;
        }
        let n = input.data.len();
        let ghost npart = self.partition_by@.len() as int;
        let ghost pidxg = pvec@;
        let ghost oseqg = ovec@;
        let ghost argsv = Seq::new(self.function_args@.len(), |k: int| self.function_args@[k]@);
        let ghost arg_spec = spec_window_arg(self.function_type, argsv);
        proof {
            if needs_arg {
                assert(argsv[0] == self.function_args@[0]@);
                assert(offset_arg == arg_spec);
            } else {
                assert(offset_arg == arg_spec);
            }
        }
        // Partition the row indices, carrying each row's original index.
        let mut parts: Vec<Vec<usize>> = Vec::new();
        let mut keys: Vec<Row> = Vec::new();
        if self.partition_by.len() == 0 {
            parts.push(identity_partition(n));
            proof {
                assert forall|j: int|
                    0 <= j < n implies spec_parts_contain(views_of_parts(parts@), j) by {
                    assert(views_of_parts(parts@)[0][j] as int == j);
                }
            }
        } else {
            let built = build_keyed_partitions(input, &pvec);
            parts = built.0;
            keys = built.1;
        }
        let ghost capsv = Seq::new(keys@.len(), |g: int| keys@[g]@);
        // Sort each partition by the order-by key, into a fresh list.
        let sorted_parts = sort_all_partitions(input, &parts, &ovec, &dirs);
        // The sorted partitioning inherits validity, coverage and
        // homogeneity from the built one.
        let ghost pview = Seq::new(sorted_parts@.len(), |g2: int| sorted_parts@[g2]@);
        proof {
            assert(pview =~= views_of_parts(sorted_parts@));
            assert forall|j: int| 0 <= j < rows.len() implies spec_parts_contain(pview, j) by {
                assert(spec_parts_contain(views_of_parts(parts@), j));
                let (g0, k0) = choose|g0: int, k0: int|
                    0 <= g0 < views_of_parts(parts@).len() && 0 <= k0 < views_of_parts(
                        parts@,
                    )[g0].len() && #[trigger] views_of_parts(parts@)[g0][k0] as int == j;
                assert(sorted_parts@[g0]@.contains(parts@[g0]@[k0]));
                let k2 = choose|k2: int|
                    0 <= k2 < sorted_parts@[g0]@.len() && sorted_parts@[g0]@[k2]
                        == parts@[g0]@[k0];
                assert(pview[g0][k2] as int == j);
            }
            if npart > 0 {
                assert forall|g2: int, k: int|
                    0 <= g2 < pview.len() && 0 <= k < pview[g2].len() implies spec_cap_matches(
                    capsv[g2],
                    spec_part_key(rows[#[trigger] pview[g2][k] as int], pidxg),
                ) by {
                    assert(pview[g2][k] == sorted_parts@[g2]@[k]);
                    assert(parts@[g2]@.contains(sorted_parts@[g2]@[k]));
                    let k2 = choose|k2: int|
                        0 <= k2 < parts@[g2]@.len() && parts@[g2]@[k2]
                            == sorted_parts@[g2]@[k];
                    assert(spec_cap_matches(
                        capsv[g2],
                        spec_part_key(rows[parts@[g2]@[k2] as int], pidxg),
                    ));
                }
            }
            if npart == 0 {
                assert(pview[0].len() == parts@[0]@.len());
            }
            assert(spec_partitioning_ok(pview, capsv, rows, pidxg, npart));
        }
        // Compute each row's value and write it back at the row's own index.
        let computed = self.compute_values(input, &sorted_parts, &ovec, &dirs, offset_arg);
        let out_values = computed.0;
        let ghost assign = computed.1@;
        // The row-number window over one partition in input order numbers
        // the rows by their original positions.
        let ghost special = self.function_type is RowNumber && self.partition_by@.len() == 0
            && self.order_by@.len() == 0;
        proof {
            if special {
                assert forall|i: int|
                    0 <= i < n implies (#[trigger] out_values@[i])@ == ValueV::Integer(
                    spec_clamp_i64(i + 1),
                ) by {
                    let g0 = assign[i].0;
                    let q0 = assign[i].1;
                    assert(pview[g0][q0] == i);
                    assert(sorted_parts@[0]@ == parts@[0]@);
                    assert(parts@[0]@[q0] == q0);
                    assert(q0 == i);
                }
            }
        }
        // Assemble the output.
        let mut fields: Vec<Field> = Vec::new();
        let mut f: usize = 0;
        while f < input.schema.fields.len()
            invariant
                f <= input.schema.fields.len(),
                schema == input@.schema,
                fields@.len() == f,
                forall|j: int| 0 <= j < f ==> (#[trigger] fields@[j])@ == schema[j],
            decreases input.schema.fields.len() - f,
        {
            fields.push(input.schema.fields[f].clone());
            f = f + 1;
        }
        fields.push(
            Field {
                name: self.output_column.clone(),
                data_type: DataType::Integer,
                nullable: true,
            },
        );
        let out_schema = Schema { fields };
        proof {
            assert(out_schema@ =~= schema.push(
                FieldV { name: self.output_column@, data_type: DataType::Integer, nullable: true },
            ));
        }
        let mut data: Vec<Row> = Vec::new();
        let mut i4: usize = 0;
        while i4 < n
            invariant
                i4 <= n,
                n == input.data@.len(),
                input.wf(),
                schema == input@.schema,
                rows == input@.data,
                out_values@.len() == n,
                data@.len() == i4,
                forall|j: int|
                    0 <= j < i4 ==> (#[trigger] data@[j])@ == rows[j].push(out_values@[j]@),
            decreases n - i4,
        {
            let mut values = crate::data::clone_values(&input.data[i4].values);
            values.push(out_values[i4].clone());
            let row = Row { values };
            proof {
                assert(rows[i4 as int] == input.data@[i4 as int]@);
                assert(row@ =~= rows[i4 as int].push(out_values@[i4 as int]@));
            }
            data.push(row);
            i4 = i4 + 1;
        }
        let out = DataSet { schema: out_schema, data, metadata: input.metadata.clone() };
        proof {
            assert(out@.data =~= Seq::new(out.data@.len(), |d: int| out.data@[d]@));
            assert forall|i5: int|
                0 <= i5 < n implies (#[trigger] out@.data[i5]).len() == schema.len() + 1
                && out@.data[i5].subrange(0, schema.len() as int) == rows[i5] by {
                assert(out@.data[i5] == data@[i5]@);
                assert(data@[i5]@ == rows[i5].push(out_values@[i5]@));
                assert(rows[i5].push(out_values@[i5]@).subrange(0, schema.len() as int) =~= rows[i5]);
            }
            if special {
                assert forall|i5: int|
                    0 <= i5 < n implies out@.data[i5][schema.len() as int] == ValueV::Integer(
                    spec_clamp_i64(i5 + 1),
                ) by {
                    assert(out@.data[i5] == data@[i5]@);
                }
            }
            // The witnessing partitioning: the sorted partitions, their key
            // tuples, and each row's recorded partition and position.
            assert forall|i5: int|
                0 <= i5 < n implies {
                    let g0 = (#[trigger] assign[i5]).0;
                    let q0 = assign[i5].1;
                    &&& 0 <= g0 < pview.len()
                    &&& 0 <= q0 < pview[g0].len()
                    &&& pview[g0][q0] == i5
                    &&& out@.data[i5][input@.schema.len() as int] == spec_window_value(
                        self.function_type,
                        input@.data,
                        pview[g0],
                        q0,
                        oseqg,
                        spec_window_arg(self.function_type, argsv),
                    )
                } by {
                assert(out@.data[i5] == data@[i5]@);
                assert(out@.data[i5][input@.schema.len() as int] == out_values@[i5]@);
            }
            assert(self.spec_witness(input@, out@, pview, capsv, assign, pidxg, oseqg));
        }
        Ok(out)
    }
}

} // verus!
