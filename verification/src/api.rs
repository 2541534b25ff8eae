//! Request handling: the error taxonomy the facade maps to HTTP statuses,
//! the request models, and the translation of request payloads into
//! operator configurations.
//!
//! The functions here are the computational core of the request handlers:
//! they take fully materialized datasets and plain request values and apply
//! the configured operators.  Transport, serialization and storage access
//! happen in the program around the library.

use vstd::prelude::*;

use crate::data::DataError;
use crate::data::DataSet;
use crate::data::DataType;
use crate::data::Field;
use crate::data::Row;
use crate::data::Schema;
use crate::data::Value;
use crate::data::str_eq;
use crate::processing::FloatOps;
use crate::processing::ProcessingError;
use crate::processing::aggregate::GroupByProcessor;
use crate::processing::filter::FilterProcessor;
use crate::processing::filter::PredicateV;
use crate::processing::filter::spec_filter_ok;
use crate::processing::join::JoinProcessor;
use crate::processing::stats::StatsProcessor;
use crate::processing::stats::StatsType;
use crate::processing::transform::AddColumnTransform;
use crate::processing::transform::CastTransform;
use crate::processing::transform::SelectTransform;
use crate::storage::StorageError;
use crate::text::concat2;
use vstd::string::StringExecFns;

verus! {

/// An error raised while handling a request.
#[derive(Debug)]
pub enum ApiError {
    DataError(DataError),
    ProcessingError(ProcessingError),
    StorageError(StorageError),
    ValidationError(String),
    NotFound(String),
    Unauthorized(String),
    Forbidden(String),
    Conflict(String),
    InternalError(String),
}

/// The text a request-handling error renders as.
pub open spec fn spec_api_error_message(e: ApiError) -> Seq<char> {
    match e {
        ApiError::DataError(inner) => "Data error: "@ + crate::data::spec_data_error_message(
            inner,
        ),
        ApiError::ProcessingError(inner) => "Processing error: "@
            + crate::processing::spec_processing_error_message(inner),
        ApiError::StorageError(inner) => "Storage error: "@
            + crate::storage::spec_storage_error_message(inner),
        ApiError::ValidationError(m) => "Validation error: "@ + m@,
        ApiError::NotFound(m) => "Not found: "@ + m@,
        ApiError::Unauthorized(m) => "Unauthorized: "@ + m@,
        ApiError::Forbidden(m) => "Forbidden: "@ + m@,
        ApiError::Conflict(m) => "Conflict: "@ + m@,
        ApiError::InternalError(m) => "Internal error: "@ + m@,
    }
}

impl ApiError {
    /// The error rendered as text.
    pub fn message(&self) -> (r: String)
        ensures
            r@ == spec_api_error_message(*self),
    {
        match self {
            ApiError::DataError(inner) => {
                let m = inner.message();
                concat2("Data error: ", m.as_str())
            },
            ApiError::ProcessingError(inner) => {
                let m = inner.message();
                concat2("Processing error: ", m.as_str())
            },
            ApiError::StorageError(inner) => {
                let m = inner.message();
                concat2("Storage error: ", m.as_str())
            },
            ApiError::ValidationError(m) => concat2("Validation error: ", m.as_str()),
            ApiError::NotFound(m) => concat2("Not found: ", m.as_str()),
            ApiError::Unauthorized(m) => concat2("Unauthorized: ", m.as_str()),
            ApiError::Forbidden(m) => concat2("Forbidden: ", m.as_str()),
            ApiError::Conflict(m) => concat2("Conflict: ", m.as_str()),
            ApiError::InternalError(m) => concat2("Internal error: ", m.as_str()),
        }
    }
}

impl From<DataError> for ApiError {
    /// Wrap a data-model error.
    fn from(err: DataError) -> (r: Self) {
        ApiError::DataError(err)
    }
}

impl vstd::std_specs::convert::FromSpecImpl<DataError> for ApiError {
    open spec fn obeys_from_spec() -> bool {
        true
    }

    open spec fn from_spec(err: DataError) -> Self {
        ApiError::DataError(err)
    }
}

impl From<ProcessingError> for ApiError {
    /// Wrap an operator error.
    fn from(err: ProcessingError) -> (r: Self) {
        ApiError::ProcessingError(err)
    }
}

impl vstd::std_specs::convert::FromSpecImpl<ProcessingError> for ApiError {
    open spec fn obeys_from_spec() -> bool {
        true
    }

    open spec fn from_spec(err: ProcessingError) -> Self {
        ApiError::ProcessingError(err)
    }
}

impl From<StorageError> for ApiError {
    /// Wrap a storage error.
    fn from(err: StorageError) -> (r: Self) {
        ApiError::StorageError(err)
    }
}

impl vstd::std_specs::convert::FromSpecImpl<StorageError> for ApiError {
    open spec fn obeys_from_spec() -> bool {
        true
    }

    open spec fn from_spec(err: StorageError) -> Self {
        ApiError::StorageError(err)
    }
}

/// A column declaration in a request.
#[derive(Debug)]
pub struct SchemaField {
    pub name: String,
    pub data_type: String,
    pub nullable: bool,
}

/// A request to create a dataset from a declared schema and rows of plain
/// values.
#[derive(Debug)]
pub struct CreateDatasetRequest {
    pub name: String,
    pub schema: Vec<SchemaField>,
    pub data: Vec<Vec<Value>>,
}

/// A request to replace a dataset's rows.
#[derive(Debug)]
pub struct UpdateDatasetRequest {
    pub data: Option<Vec<Vec<Value>>>,
}

/// A request to transform a dataset; `params` holds the operator's
/// parameters as named plain values.
#[derive(Debug)]
pub struct TransformRequest {
    pub source: String,
    pub target: Option<String>,
    pub transform_type: String,
    pub params: Vec<(String, Value)>,
}

/// A request to filter a dataset.
#[derive(Debug)]
pub struct FilterRequest {
    pub source: String,
    pub target: Option<String>,
    pub filter_type: String,
    pub params: Vec<(String, Value)>,
}

/// One aggregation in an aggregate request.
#[derive(Debug)]
pub struct Aggregation {
    pub function: String,
    pub input_column: String,
    pub output_name: String,
}

/// A request to group and aggregate a dataset.
#[derive(Debug)]
pub struct AggregateRequest {
    pub source: String,
    pub target: Option<String>,
    pub group_by: Option<Vec<String>>,
    pub aggregations: Vec<Aggregation>,
}

/// A request to join two datasets.
#[derive(Debug)]
pub struct JoinRequest {
    pub left: String,
    pub right: String,
    pub target: Option<String>,
    pub join_type: String,
    pub left_columns: Vec<String>,
    pub right_columns: Vec<String>,
}

/// A request to compute a statistic over a dataset.
#[derive(Debug)]
pub struct StatsRequest {
    pub source: String,
    pub stats_type: String,
    pub columns: Vec<String>,
    pub output_name: String,
}

/// Parse a declared column type name; an unknown name is a
/// `ValidationError`.
pub fn data_type_from_str(s: &str) -> (r: Result<DataType, ApiError>)
    ensures
        match r {
            Ok(t) => (t is Boolean <==> s@ == "boolean"@) && (t is Integer <==> s@ == "integer"@)
                && (t is Float <==> s@ == "float"@) && (t is String <==> s@ == "string"@) && (
            t is Binary <==> s@ == "binary"@),
            Err(e) => e is ValidationError && s@ != "boolean"@ && s@ != "integer"@ && s@
                != "float"@ && s@ != "string"@ && s@ != "binary"@,
        },
{
    proof {
        reveal_strlit("boolean");
        reveal_strlit("integer");
        reveal_strlit("float");
        reveal_strlit("string");
        reveal_strlit("binary");
        assert("boolean"@.len() == 7);
        assert("integer"@.len() == 7);
        assert("float"@.len() == 5);
        assert("string"@.len() == 6);
        assert("binary"@.len() == 6);
        assert("boolean"@[0] != "integer"@[0]);
        assert("string"@[0] != "binary"@[0]);
        assert("boolean"@ != "integer"@);
        assert("boolean"@ != "float"@);
        assert("boolean"@ != "string"@);
        assert("boolean"@ != "binary"@);
        assert("integer"@ != "float"@);
        assert("integer"@ != "string"@);
        assert("integer"@ != "binary"@);
        assert("float"@ != "string"@);
        assert("float"@ != "binary"@);
        assert("string"@ != "binary"@);
    }
    if str_eq(s, "boolean") {
        Ok(DataType::Boolean)
    } else if str_eq(s, "integer") {
        Ok(DataType::Integer)
    } else if str_eq(s, "float") {
        Ok(DataType::Float)
    } else if str_eq(s, "string") {
        Ok(DataType::String)
    } else if str_eq(s, "binary") {
        Ok(DataType::Binary)
    } else {
        Err(ApiError::ValidationError(concat2("Invalid data type: ", s)))
    }
}

/// The first parameter with this name, if any.
fn get_param<'a>(params: &'a Vec<(String, Value)>, key: &str) -> (r: Option<&'a Value>) {
    let mut k: usize = 0;
    while k < params.len()
        decreases params.len() - k,
    {
        if str_eq(params[k].0.as_str(), key) {
            return Some(&params[k].1);
        }
        k = k + 1;
    }
    None
}

/// The strings of an array value, in order, skipping anything that is not a
/// string.
fn string_list(v: &Value) -> (r: Vec<String>) {
    let mut out: Vec<String> = Vec::new();
    match v {
        Value::Array(items) => {
            let mut k: usize = 0;
            while k < items.len()
                decreases items.len() - k,
            {
                match &items[k] {
                    Value::String(s) => {
                        out.push(s.clone());
                    },
                    _ => {},
                }
                k = k + 1;
            }
        },
        _ => {},
    }
    out
}

/// Build a dataset from a create request: the declared schema, then the
/// rows, each checked for arity.  A bad type name or a row of the wrong
/// arity is an error, surfaced before any later row is added.
pub fn create_dataset(req: &CreateDatasetRequest) -> (r: Result<DataSet, ApiError>)
    ensures
        match r {
            Ok(ds) => ds.wf() && ds@.schema.len() == req.schema@.len() && ds@.data.len()
                == req.data@.len(),
            Err(e) => e is ValidationError || e is DataError,
        },
{
    let mut fields: Vec<Field> = Vec::new();
    let mut k: usize = 0;
    while k < req.schema.len()
        invariant
            k <= req.schema@.len(),
            fields@.len() == k,
        decreases req.schema.len() - k,
    {
        let sf = &req.schema[k];
        let dt = match data_type_from_str(sf.data_type.as_str()) {
            Ok(t) => t,
            Err(e) => {
                return Err(e);
            },
        };
        fields.push(Field { name: sf.name.clone(), data_type: dt, nullable: sf.nullable });
        k = k + 1;
    }
    let mut ds = DataSet::new(Schema { fields });
    let mut i: usize = 0;
    while i < req.data.len()
        invariant
            i <= req.data@.len(),
            ds.wf(),
            ds@.schema.len() == req.schema@.len(),
            ds@.data.len() == i,
        decreases req.data.len() - i,
    {
        let values = crate::data::clone_values(&req.data[i]);
        match ds.add_row(Row { values }) {
            Ok(()) => {},
            Err(e) => {
                return Err(ApiError::DataError(e));
            },
        }
        i = i + 1;
    }
    Ok(ds)
}

/// Replace a dataset's rows from an update request; absent data leaves the
/// dataset unchanged (a copy is returned either way).
pub fn update_dataset(dataset: &DataSet, req: &UpdateDatasetRequest) -> (r: Result<
    DataSet,
    ApiError,
>)
    requires
        dataset.wf(),
    ensures
        match r {
            Ok(ds) => ds.wf() && ds@.schema == dataset@.schema,
            Err(e) => e is DataError,
        },
{
    match &req.data {
        Some(rows) => {
            let mut ds = DataSet {
                schema: dataset.schema.clone(),
                data: Vec::new(),
                metadata: dataset.metadata.clone(),
            };
            proof {
                assert(ds@.data =~= Seq::<Seq<crate::data::ValueV>>::empty());
            }
            let mut i: usize = 0;
            while i < rows.len()
                invariant
                    i <= rows@.len(),
                    ds.wf(),
                    ds@.schema == dataset@.schema,
                decreases rows.len() - i,
            {
                let values = crate::data::clone_values(&rows[i]);
                match ds.add_row(Row { values }) {
                    Ok(()) => {},
                    Err(e) => {
                        return Err(ApiError::DataError(e));
                    },
                }
                i = i + 1;
            }
            Ok(ds)
        },
        None => Ok(dataset.clone()),
    }
}

/// Apply a transform request: `select`, `add_column` or `cast`, configured
/// from the request's parameters.  An unknown transform kind or a missing
/// parameter is a `ValidationError`.
pub fn transform_dataset<F: FloatOps>(source: &DataSet, req: &TransformRequest, ops: &F) -> (r:
    Result<DataSet, ApiError>)
    requires
        source.wf(),
    ensures
        match r {
            Ok(out) => out.wf(),
            Err(e) => e is ValidationError || e is ProcessingError,
        },
{
    if str_eq(req.transform_type.as_str(), "select") {
        let columns = match get_param(&req.params, "columns") {
            Some(v) => string_list(v),
            None => {
                return Err(
                    ApiError::ValidationError(
                        String::from_str("Missing or invalid 'columns' parameter"),
                    ),
                );
            },
        };
        let transform = SelectTransform::new(columns);
        match transform.process(source) {
            Ok(out) => Ok(out),
            Err(e) => Err(ApiError::ProcessingError(e)),
        }
    } else if str_eq(req.transform_type.as_str(), "add_column") {
        let name = match get_param(&req.params, "name") {
            Some(Value::String(s)) => s.clone(),
            _ => {
                return Err(
                    ApiError::ValidationError(
                        String::from_str("Missing or invalid 'name' parameter"),
                    ),
                );
            },
        };
        let value = match get_param(&req.params, "value") {
            Some(v) => v.clone(),
            None => {
                return Err(
                    ApiError::ValidationError(String::from_str("Missing 'value' parameter")),
                );
            },
        };
        let data_type = match get_param(&req.params, "data_type") {
            Some(Value::String(s)) => {
                match data_type_from_str(s.as_str()) {
                    Ok(t) => t,
                    Err(e) => {
                        return Err(e);
                    },
                }
            },
            _ => {
                return Err(
                    ApiError::ValidationError(
                        String::from_str("Missing or invalid 'data_type' parameter"),
                    ),
                );
            },
        };
        let transform = AddColumnTransform::with_constant(name.as_str(), data_type, true, value);
        match transform.process(source) {
            Ok(out) => Ok(out),
            Err(e) => Err(ApiError::ProcessingError(e)),
        }
    } else if str_eq(req.transform_type.as_str(), "cast") {
        let column = match get_param(&req.params, "column") {
            Some(Value::String(s)) => s.clone(),
            _ => {
                return Err(
                    ApiError::ValidationError(
                        String::from_str("Missing or invalid 'column' parameter"),
                    ),
                );
            },
        };
        let target_type = match get_param(&req.params, "target_type") {
            Some(Value::String(s)) => {
                match data_type_from_str(s.as_str()) {
                    Ok(t) => t,
                    Err(e) => {
                        return Err(e);
                    },
                }
            },
            _ => {
                return Err(
                    ApiError::ValidationError(
                        String::from_str("Missing or invalid 'target_type' parameter"),
                    ),
                );
            },
        };
        let transform = CastTransform::new(column.as_str(), target_type);
        match transform.process(source, ops) {
            Ok(out) => Ok(out),
            Err(e) => Err(ApiError::ProcessingError(e)),
        }
    } else {
        Err(
            ApiError::ValidationError(
                concat2("Unknown transform type: ", req.transform_type.as_str()),
            ),
        )
    }
}

/// Apply a filter request: `equals`, `greater_than`, `less_than`,
/// `not_null` or `contains`, configured from the request's parameters.
/// Some predicate filters `input` to `out`: the output is the kept
/// subsequence of the input's rows under a single predicate.
pub open spec fn spec_filtered_from(input: crate::data::DataSetV, out: crate::data::DataSetV) -> bool {
    exists|p: PredicateV| spec_filter_ok(p, input, out)
}

pub fn filter_dataset<F: FloatOps>(source: &DataSet, req: &FilterRequest, ops: &F) -> (r: Result<
    DataSet,
    ApiError,
>)
    requires
        source.wf(),
    ensures
        match r {
            Ok(out) => out.wf() && out@.schema == source@.schema && spec_filtered_from(
                source@,
                out@,
            ),
            Err(e) => e is ValidationError,
        },
{
    let column = match get_param(&req.params, "column") {
        Some(Value::String(s)) => s.clone(),
        _ => {
            return Err(
                ApiError::ValidationError(
                    String::from_str("Missing or invalid 'column' parameter"),
                ),
            );
        },
    };
    let filter = if str_eq(req.filter_type.as_str(), "equals") {
        let value = match get_param(&req.params, "value") {
            Some(v) => v.clone(),
            None => {
                return Err(
                    ApiError::ValidationError(String::from_str("Missing 'value' parameter")),
                );
            },
        };
        FilterProcessor::equals(column.as_str(), value)
    } else if str_eq(req.filter_type.as_str(), "greater_than") {
        let value = match get_param(&req.params, "value") {
            Some(Value::Integer(i)) => Value::Integer(*i),
            Some(Value::Float(bits)) => Value::Float(*bits),
            Some(Value::String(s)) => Value::String(s.clone()),
            _ => {
                return Err(
                    ApiError::ValidationError(
                        String::from_str("Value must be a number or string"),
                    ),
                );
            },
        };
        FilterProcessor::greater_than(column.as_str(), value)
    } else if str_eq(req.filter_type.as_str(), "less_than") {
        let value = match get_param(&req.params, "value") {
            Some(Value::Integer(i)) => Value::Integer(*i),
            Some(Value::Float(bits)) => Value::Float(*bits),
            Some(Value::String(s)) => Value::String(s.clone()),
            _ => {
                return Err(
                    ApiError::ValidationError(
                        String::from_str("Value must be a number or string"),
                    ),
                );
            },
        };
        FilterProcessor::less_than(column.as_str(), value)
    } else if str_eq(req.filter_type.as_str(), "not_null") {
        FilterProcessor::not_null(column.as_str())
    } else if str_eq(req.filter_type.as_str(), "contains") {
        let substring = match get_param(&req.params, "substring") {
            Some(Value::String(s)) => s.clone(),
            _ => {
                return Err(
                    ApiError::ValidationError(
                        String::from_str("Missing or invalid 'substring' parameter"),
                    ),
                );
            },
        };
        FilterProcessor::contains(column.as_str(), substring.as_str())
    } else {
        return Err(
            ApiError::ValidationError(concat2("Unknown filter type: ", req.filter_type.as_str())),
        );
    };
    match filter.process(source, ops) {
        Ok(out) => {
            proof {
                assert(spec_filter_ok(filter.predicate@, source@, out@));
                assert(spec_filtered_from(source@, out@));
            }
            Ok(out)
        },
        Err(e) => Err(ApiError::ProcessingError(e)),
    }
}

/// Apply an aggregate request: the group-by columns and the named
/// aggregation functions.  An unknown function name is a `ValidationError`.
pub fn aggregate_dataset<F: FloatOps>(source: &DataSet, req: &AggregateRequest, ops: &F) -> (r:
    Result<DataSet, ApiError>)
    requires
        source.wf(),
    ensures
        match r {
            Ok(out) => out.wf(),
            Err(e) => e is ValidationError || e is ProcessingError,
        },
{
    let mut group_by = GroupByProcessor::new();
    match &req.group_by {
        Some(columns) => {
            let mut k: usize = 0;
            while k < columns.len()
                decreases columns.len() - k,
            {
                group_by = group_by.group_by(columns[k].as_str());
                k = k + 1;
            }
        },
        None => {},
    }
    let mut a: usize = 0;
    while a < req.aggregations.len()
        decreases req.aggregations.len() - a,
    {
        let agg = &req.aggregations[a];
        if str_eq(agg.function.as_str(), "count") {
            group_by = group_by.count(agg.output_name.as_str(), agg.input_column.as_str());
        } else if str_eq(agg.function.as_str(), "sum") {
            group_by = group_by.sum(agg.output_name.as_str(), agg.input_column.as_str());
        } else if str_eq(agg.function.as_str(), "avg") {
            group_by = group_by.avg(agg.output_name.as_str(), agg.input_column.as_str());
        } else if str_eq(agg.function.as_str(), "min") {
            group_by = group_by.min(agg.output_name.as_str(), agg.input_column.as_str());
        } else if str_eq(agg.function.as_str(), "max") {
            group_by = group_by.max(agg.output_name.as_str(), agg.input_column.as_str());
        } else {
            return Err(
                ApiError::ValidationError(
                    concat2("Unknown aggregation function: ", agg.function.as_str()),
                ),
            );
        }
        a = a + 1;
    }
    match group_by.process(source, ops) {
        Ok(out) => Ok(out),
        Err(e) => Err(ApiError::ProcessingError(e)),
    }
}

/// Apply a join request: the named join type over the given key columns.
/// An unknown join type is a `ValidationError`.
pub fn join_datasets(left: &DataSet, right: &DataSet, req: &JoinRequest) -> (r: Result<
    DataSet,
    ApiError,
>)
    requires
        left.wf(),
        right.wf(),
    ensures
        match r {
            Ok(out) => out.wf(),
            Err(e) => e is ValidationError || e is ProcessingError,
        },
{
    let join = if str_eq(req.join_type.as_str(), "inner") {
        JoinProcessor::inner(clone_strings(&req.left_columns), clone_strings(&req.right_columns))
    } else if str_eq(req.join_type.as_str(), "left") {
        JoinProcessor::left(clone_strings(&req.left_columns), clone_strings(&req.right_columns))
    } else if str_eq(req.join_type.as_str(), "right") {
        JoinProcessor::right(clone_strings(&req.left_columns), clone_strings(&req.right_columns))
    } else if str_eq(req.join_type.as_str(), "full") {
        JoinProcessor::full(clone_strings(&req.left_columns), clone_strings(&req.right_columns))
    } else if str_eq(req.join_type.as_str(), "cross") {
        JoinProcessor::cross()
    } else {
        return Err(
            ApiError::ValidationError(concat2("Unknown join type: ", req.join_type.as_str())),
        );
    };
    match join.process_join(left, right) {
        Ok(out) => Ok(out),
        Err(e) => Err(ApiError::ProcessingError(e)),
    }
}

/// Copies of a vector of strings.
fn clone_strings(v: &Vec<String>) -> (r: Vec<String>) {
    let mut out: Vec<String> = Vec::new();
    let mut k: usize = 0;
    while k < v.len()
        decreases v.len() - k,
    {
        out.push(v[k].clone());
        k = k + 1;
    }
    out
}

/// Apply a stats request: the named statistic over the request's columns,
/// emitted under the request's output name.  An unknown statistic is a
/// `ValidationError`.
pub fn compute_stats<F: FloatOps>(source: &DataSet, req: &StatsRequest, ops: &F) -> (r: Result<
    DataSet,
    ApiError,
>)
    requires
        source.wf(),
    ensures
        match r {
            Ok(out) => out.wf() && out@.data.len() == 1,
            Err(e) => e is ValidationError || e is ProcessingError,
        },
{
    let stats_type = if str_eq(req.stats_type.as_str(), "mean") {
        StatsType::Mean
    } else if str_eq(req.stats_type.as_str(), "median") {
        StatsType::Median
    } else if str_eq(req.stats_type.as_str(), "mode") {
        StatsType::Mode
    } else if str_eq(req.stats_type.as_str(), "std_dev") {
        StatsType::StdDev
    } else if str_eq(req.stats_type.as_str(), "variance") {
        StatsType::Variance
    } else if str_eq(req.stats_type.as_str(), "min") {
        StatsType::Min
    } else if str_eq(req.stats_type.as_str(), "max") {
        StatsType::Max
    } else if str_eq(req.stats_type.as_str(), "range") {
        StatsType::Range
    } else if str_eq(req.stats_type.as_str(), "sum") {
        StatsType::Sum
    } else if str_eq(req.stats_type.as_str(), "count") {
        StatsType::Count
    } else if str_eq(req.stats_type.as_str(), "correlation") {
        StatsType::Correlation
    } else if str_eq(req.stats_type.as_str(), "covariance") {
        StatsType::Covariance
    } else {
        return Err(
            ApiError::ValidationError(concat2("Unknown stats type: ", req.stats_type.as_str())),
        );
    };
    let stats = StatsProcessor::new(
        req.output_name.as_str(),
        clone_strings(&req.columns),
        stats_type,
    );
    match stats.process(source, ops) {
        Ok(out) => Ok(out),
        Err(e) => Err(ApiError::ProcessingError(e)),
    }
}

} // verus!
