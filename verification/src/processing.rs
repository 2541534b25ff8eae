//! The processor contract: operator errors, the floating-point arithmetic
//! boundary, shared row helpers, and the pipeline that chains operators.
//!
//! Every operator is a pure function from one dataset to a new dataset; the
//! input is never mutated.  On success the output is well-formed and the
//! input's metadata is carried over.

use vstd::prelude::*;

pub mod aggregate;
pub mod filter;
pub mod join;
pub mod stats;
pub mod transform;
pub mod window;

use crate::data::DataError;
use crate::data::DataSet;
use crate::data::Row;

verus! {

/// An error raised by a processing operator.
#[derive(Debug)]
pub enum ProcessingError {
    DataError(DataError),
    InvalidOperation(String),
    InvalidArgument(String),
    NotSupported(String),
    Other(String),
}

/// The text an operator error renders as.
pub open spec fn spec_processing_error_message(e: ProcessingError) -> Seq<char> {
    match e {
        ProcessingError::DataError(inner) => "Data error: "@
            + crate::data::spec_data_error_message(inner),
        ProcessingError::InvalidOperation(m) => "Invalid operation: "@ + m@,
        ProcessingError::InvalidArgument(m) => "Invalid argument: "@ + m@,
        ProcessingError::NotSupported(m) => "Not supported: "@ + m@,
        ProcessingError::Other(m) => "Error: "@ + m@,
    }
}

impl ProcessingError {
    /// The error rendered as text.
    pub fn message(&self) -> (r: String)
        ensures
            r@ == spec_processing_error_message(*self),
    {
        match self {
            ProcessingError::DataError(e) => {
                let inner = e.message();
                crate::text::concat2("Data error: ", inner.as_str())
            },
            ProcessingError::InvalidOperation(m) => crate::text::concat2(
                "Invalid operation: ",
                m.as_str(),
            ),
            ProcessingError::InvalidArgument(m) => crate::text::concat2(
                "Invalid argument: ",
                m.as_str(),
            ),
            ProcessingError::NotSupported(m) => crate::text::concat2(
                "Not supported: ",
                m.as_str(),
            ),
            ProcessingError::Other(m) => crate::text::concat2("Error: ", m.as_str()),
        }
    }
}

/// The family an operator belongs to.
#[derive(Debug, PartialEq, Eq, Structural, Clone)]
pub enum ProcessorType {
    Transform,
    Filter,
    Aggregate,
    Join,
    Window,
    Stats,
    Custom(u32),
}

/// The floating-point arithmetic unit.
///
/// The engine stores floating-point cells as IEEE 754 binary64 bit patterns
/// and never performs floating-point arithmetic itself: every arithmetic
/// step is delegated through this trait, on raw bit patterns.  An
/// implementation is expected to interpret each `u64` as the IEEE 754
/// binary64 value it encodes and to compute with binary64 arithmetic; the
/// engine's contracts do not depend on it doing so.
pub trait FloatOps {
    /// The bit pattern of the sum of the two encoded values.
    fn add(&self, a: u64, b: u64) -> u64;

    /// Whether the two encoded values differ by less than the binary64
    /// machine epsilon: the equals-filter's tolerance for floats.
    fn eps_eq(&self, a: u64, b: u64) -> bool;

    /// The bit pattern of the difference of the two encoded values.
    fn sub(&self, a: u64, b: u64) -> u64;

    /// The bit pattern of the product of the two encoded values.
    fn mul(&self, a: u64, b: u64) -> u64;

    /// The bit pattern of the quotient of the two encoded values.
    fn div(&self, a: u64, b: u64) -> u64;

    /// The bit pattern of the square root of the encoded value.
    fn sqrt(&self, a: u64) -> u64;

    /// The bit pattern of the binary64 value nearest to the integer.
    fn from_int(&self, i: i64) -> u64;

    /// The encoded value truncated toward zero and saturated to the `i64`
    /// range; zero for NaN.
    fn to_int(&self, a: u64) -> i64;

    /// The bit pattern parsed from decimal or scientific text, or `None`
    /// when the text does not denote a binary64 value.
    fn parse_float(&self, s: &str) -> Option<u64>;

    /// The shortest decimal text that reads back as the encoded value.
    fn format_float(&self, a: u64) -> String;
}

/// Copies the values of `row` at the given positions, in order.
pub fn project_row(row: &Row, indices: &Vec<usize>) -> (r: Row)
    requires
        forall|k: int| 0 <= k < indices@.len() ==> (#[trigger] indices@[k]) < row@.len(),
    ensures
        r@.len() == indices@.len(),
        forall|k: int| 0 <= k < indices@.len() ==> r@[k] == row@[(#[trigger] indices@[k]) as int],
{
    let mut values: Vec<crate::data::Value> = Vec::new();
    let mut k: usize = 0;
    while k < indices.len()
        invariant
            k <= indices.len(),
            forall|j: int| 0 <= j < indices@.len() ==> (#[trigger] indices@[j]) < row@.len(),
            values@.len() == k,
            forall|j: int|
                0 <= j < k ==> (#[trigger] values@[j])@ == row@[indices@[j] as int],
        decreases indices.len() - k,
    {
        values.push(row.values[indices[k]].clone());
        k = k + 1;
    }
    Row { values }
}


/// One configured operator, ready to run inside a pipeline.
pub enum Operator {
    Select(transform::SelectTransform),
    Rename(transform::RenameTransform),
    AddColumn(transform::AddColumnTransform),
    Cast(transform::CastTransform),
    Drop(transform::DropColumnsTransform),
    Filter(filter::FilterProcessor),
    Limit(filter::LimitProcessor),
    Skip(filter::SkipProcessor),
    GroupBy(aggregate::GroupByProcessor),
    Join(join::JoinProcessor),
    Window(window::WindowProcessor),
    Stats(stats::StatsProcessor),
}

/// What a successful run of an operator guarantees, by its kind: exactly
/// the operator's own contract.  (A join needs a second dataset, so its
/// uniform single-input entry point never succeeds.)
pub open spec fn spec_operator_ok(
    op: Operator,
    input: crate::data::DataSetV,
    out: crate::data::DataSetV,
) -> bool {
    match op {
        Operator::Select(t) => transform::spec_select_ok(t@, input, out),
        Operator::Rename(t) => transform::spec_rename_ok(t@, input, out),
        Operator::AddColumn(t) => t.spec_ok(input, out),
        Operator::Cast(t) => transform::spec_cast_op_ok(t.column@, t.target_type, input, out),
        Operator::Drop(t) => transform::spec_drop_ok(t@, input, out),
        Operator::Filter(t) => filter::spec_filter_ok(t.predicate@, input, out),
        Operator::Limit(t) => filter::spec_limit_ok(t.limit as int, input, out),
        Operator::Skip(t) => filter::spec_skip_ok(t.skip as int, input, out),
        Operator::GroupBy(t) => aggregate::spec_group_by_ok(
            aggregate::spec_strings_view_agg(t.group_by_columns@),
            aggregate::spec_aggs_view(t.aggregations@),
            input,
            out,
        ),
        Operator::Join(t) => false,
        Operator::Window(t) => t.spec_ok(input, out),
        Operator::Stats(t) => t.spec_ok(input, out),
    }
}

/// When a run of an operator is allowed to fail with this error, by its
/// kind: exactly the operator's own error conditions.  Filters, limits,
/// skips and column drops never fail.
pub open spec fn spec_operator_err(
    op: Operator,
    input: crate::data::DataSetV,
    e: ProcessingError,
) -> bool {
    match op {
        Operator::Select(t) => transform::spec_select_err(t@, input, e),
        Operator::Rename(t) => transform::spec_rename_err(t@, input, e),
        Operator::AddColumn(t) => t.spec_err(input, e),
        Operator::Cast(t) => transform::spec_cast_op_err(t.column@, t.target_type, input, e),
        Operator::Drop(t) => false,
        Operator::Filter(t) => false,
        Operator::Limit(t) => false,
        Operator::Skip(t) => false,
        Operator::GroupBy(t) => aggregate::spec_group_by_err(
            aggregate::spec_strings_view_agg(t.group_by_columns@),
            aggregate::spec_aggs_view(t.aggregations@),
            input,
            e,
        ),
        Operator::Join(t) => e is InvalidOperation,
        Operator::Window(t) => t.spec_err(input, e),
        Operator::Stats(t) => t.spec_err(input, e),
    }
}

impl Operator {
    /// Run the operator on a dataset: a successful output is well-formed
    /// and satisfies the dispatched operator's own contract; a failure is
    /// one the dispatched operator's own error conditions allow.  (A join
    /// needs a second dataset and always refuses here.)
    pub fn apply<F: FloatOps>(&self, input: &DataSet, ops: &F) -> (r: Result<
        DataSet,
        ProcessingError,
    >)
        requires
            input.wf(),
        ensures
            match r {
                Ok(out) => out.wf() && spec_operator_ok(*self, input@, out@),
                Err(e) => spec_operator_err(*self, input@, e),
            },
    {
        match self {
            Operator::Select(t) => t.process(input),
            Operator::Rename(t) => t.process(input),
            Operator::AddColumn(t) => t.process(input),
            Operator::Cast(t) => t.process(input, ops),
            Operator::Drop(t) => t.process(input),
            Operator::Filter(t) => t.process(input, ops),
            Operator::Limit(t) => t.process(input),
            Operator::Skip(t) => t.process(input),
            Operator::GroupBy(t) => t.process(input, ops),
            Operator::Join(t) => t.process(input),
            Operator::Window(t) => t.process(input),
            Operator::Stats(t) => t.process(input, ops),
        }
    }
}

/// Whether `out` can result from folding the operators over `input` in
/// order: no operators leave the input unchanged; otherwise the first
/// operator runs on the input and the rest fold over its output.
pub open spec fn spec_runs_to(
    ops: Seq<Operator>,
    input: crate::data::DataSetV,
    out: crate::data::DataSetV,
) -> bool
    decreases ops.len(),
{
    if ops.len() == 0 {
        out == input
    } else {
        exists|mid: crate::data::DataSetV|
            #[trigger] spec_operator_ok(ops[0], input, mid) && spec_runs_to(
                ops.drop_first(),
                mid,
                out,
            )
    }
}

/// Appending one operator runs it after the earlier ones.
pub proof fn lemma_runs_to_snoc(
    ops: Seq<Operator>,
    op: Operator,
    input: crate::data::DataSetV,
    mid: crate::data::DataSetV,
    out: crate::data::DataSetV,
)
    requires
        spec_runs_to(ops, input, mid),
        spec_operator_ok(op, mid, out),
    ensures
        spec_runs_to(ops.push(op), input, out),
    decreases ops.len(),
{
    if ops.len() == 0 {
        assert(ops.push(op)[0] == op);
        assert(ops.push(op).drop_first() =~= Seq::<Operator>::empty());
        assert(spec_runs_to(ops.push(op).drop_first(), out, out));
    } else {
        let m0 = choose|m0: crate::data::DataSetV|
            #[trigger] spec_operator_ok(ops[0], input, m0) && spec_runs_to(
                ops.drop_first(),
                m0,
                mid,
            );
        lemma_runs_to_snoc(ops.drop_first(), op, m0, mid, out);
        assert(ops.push(op)[0] == ops[0]);
        assert(ops.push(op).drop_first() =~= ops.drop_first().push(op));
    }
}

/// An ordered chain of operators executed sequentially with fail-fast
/// semantics: the dataset is folded through each operator in order and the
/// first error aborts the run, surfaced unchanged, with no partial result.
pub struct Pipeline {
    pub name: String,
    pub processors: Vec<Operator>,
}

impl Pipeline {
    /// Create a new pipeline with the given name.
    pub fn new(name: &str) -> (r: Pipeline)
        ensures
            r.name@ == name@,
            r.processors@.len() == 0,
    {
        Pipeline { name: name.to_owned(), processors: Vec::new() }
    }

    /// Append an operator to the chain.
    pub fn add(self, processor: Operator) -> (r: Pipeline)
        ensures
            r.name == self.name,
            r.processors@ == self.processors@.push(processor),
    {
        let mut s = self;
        s.processors.push(processor);
        s
    }

    /// Fold the dataset through the operators in order, stopping at the
    /// first error.  A successful result is well-formed and is exactly a
    /// fold of the operators' specified runs over the input (a copy of the
    /// input when there are none).  A failure is the error of the first
    /// failing stage, surfaced unchanged: some prefix of the chain runs to
    /// an intermediate dataset on which the next operator's own error
    /// conditions allow exactly this error.
    pub fn execute<F: FloatOps>(&self, input: &DataSet, ops: &F) -> (r: Result<
        DataSet,
        ProcessingError,
    >)
        requires
            input.wf(),
        ensures
            match r {
                Ok(out) => out.wf() && spec_runs_to(self.processors@, input@, out@),
                Err(e) => exists|k: int, mid: crate::data::DataSetV|
                    0 <= k < self.processors@.len() && #[trigger] spec_runs_to(
                        self.processors@.take(k),
                        input@,
                        mid,
                    ) && spec_operator_err(self.processors@[k], mid, e),
            },
    {
        let mut current = input.clone();
        let mut k: usize = 0;
        proof {
            assert(self.processors@.take(0) =~= Seq::<Operator>::empty());
        }
        while k < self.processors.len()
            invariant
                k <= self.processors@.len(),
                current.wf(),
                spec_runs_to(self.processors@.take(k as int), input@, current@),
            decreases self.processors@.len() - k,
        {
            let ghost mid = current@;
            match self.processors[k].apply(&current, ops) {
                Ok(next) => {
                    proof {
                        lemma_runs_to_snoc(
                            self.processors@.take(k as int),
                            self.processors@[k as int],
                            input@,
                            mid,
                            next@,
                        );
                        assert(self.processors@.take(k as int).push(self.processors@[k as int])
                            =~= self.processors@.take(k + 1));
                    }
                    current = next;
                },
                Err(e) => {
                    return Err(e);
                },
            }
            k = k + 1;
        }
        proof {
            assert(self.processors@.take(k as int) =~= self.processors@);
        }
        Ok(current)
    }

    /// Run the pipeline; the uniform operator entry point, with `execute`'s
    /// contract.
    pub fn process<F: FloatOps>(&self, input: &DataSet, ops: &F) -> (r: Result<
        DataSet,
        ProcessingError,
    >)
        requires
            input.wf(),
        ensures
            match r {
                Ok(out) => out.wf() && spec_runs_to(self.processors@, input@, out@),
                Err(e) => exists|k: int, mid: crate::data::DataSetV|
                    0 <= k < self.processors@.len() && #[trigger] spec_runs_to(
                        self.processors@.take(k),
                        input@,
                        mid,
                    ) && spec_operator_err(self.processors@[k], mid, e),
            },
    {
        self.execute(input, ops)
    }
}

} // verus!
