// Pipeline and operator tests, exercising the engine with a real binary64
// arithmetic unit.

use rust_data_processing_engine::api;
use rust_data_processing_engine::data::float_bits::F64_ZERO_BITS;
use rust_data_processing_engine::data::schema::SchemaBuilder;
use rust_data_processing_engine::data::schema::SchemaValidator;
use rust_data_processing_engine::data::DataSet;
use rust_data_processing_engine::data::DataType;
use rust_data_processing_engine::data::Field;
use rust_data_processing_engine::data::Metadata;
use rust_data_processing_engine::data::Row;
use rust_data_processing_engine::data::Schema;
use rust_data_processing_engine::data::Value;
use rust_data_processing_engine::processing::aggregate::GroupByProcessor;
use rust_data_processing_engine::processing::filter::FilterProcessor;
use rust_data_processing_engine::processing::filter::LimitProcessor;
use rust_data_processing_engine::processing::filter::SkipProcessor;
use rust_data_processing_engine::processing::join::JoinProcessor;
use rust_data_processing_engine::processing::join::JoinType;
use rust_data_processing_engine::processing::stats::StatsProcessor;
use rust_data_processing_engine::processing::transform::AddColumnTransform;
use rust_data_processing_engine::processing::transform::CastTransform;
use rust_data_processing_engine::processing::transform::DropColumnsTransform;
use rust_data_processing_engine::processing::transform::RenameTransform;
use rust_data_processing_engine::processing::transform::SelectTransform;
use rust_data_processing_engine::processing::window::WindowProcessor;
use rust_data_processing_engine::processing::FloatOps;
use rust_data_processing_engine::processing::Operator;
use rust_data_processing_engine::processing::Pipeline;
use rust_data_processing_engine::processing::ProcessingError;
use rust_data_processing_engine::storage::FileFormat;
use rust_data_processing_engine::storage::FileStorage;
use rust_data_processing_engine::utils::config::Config;
use rust_data_processing_engine::utils::config::LogLevel;
use rust_data_processing_engine::utils::validation;

/// The binary64 arithmetic unit used by the tests: each `u64` is the bit
/// pattern of an `f64`.
struct Binary64;

impl FloatOps for Binary64 {
    fn add(&self, a: u64, b: u64) -> u64 {
        (f64::from_bits(a) + f64::from_bits(b)).to_bits()
    }
    fn eps_eq(&self, a: u64, b: u64) -> bool {
        (f64::from_bits(a) - f64::from_bits(b)).abs() < f64::EPSILON
    }
    fn sub(&self, a: u64, b: u64) -> u64 {
        (f64::from_bits(a) - f64::from_bits(b)).to_bits()
    }
    fn mul(&self, a: u64, b: u64) -> u64 {
        (f64::from_bits(a) * f64::from_bits(b)).to_bits()
    }
    fn div(&self, a: u64, b: u64) -> u64 {
        (f64::from_bits(a) / f64::from_bits(b)).to_bits()
    }
    fn sqrt(&self, a: u64) -> u64 {
        f64::from_bits(a).sqrt().to_bits()
    }
    fn from_int(&self, i: i64) -> u64 {
        (i as f64).to_bits()
    }
    fn to_int(&self, a: u64) -> i64 {
        f64::from_bits(a) as i64
    }
    fn parse_float(&self, s: &str) -> Option<u64> {
        s.parse::<f64>().ok().map(|f| f.to_bits())
    }
    fn format_float(&self, a: u64) -> String {
        f64::from_bits(a).to_string()
    }
}

fn fbits(x: f64) -> u64 {
    x.to_bits()
}

fn people() -> DataSet {
    let schema = Schema::new(vec![
        Field::new("id".to_string(), DataType::Integer, false),
        Field::new("name".to_string(), DataType::String, false),
        Field::new("age".to_string(), DataType::Integer, true),
    ]);
    let mut dataset = DataSet::new(schema);
    dataset
        .add_row(Row::new(vec![
            Value::Integer(1),
            Value::String("Alice".to_string()),
            Value::Integer(30),
        ]))
        .unwrap();
    dataset
        .add_row(Row::new(vec![
            Value::Integer(2),
            Value::String("Bob".to_string()),
            Value::Integer(25),
        ]))
        .unwrap();
    dataset
}

#[test]
fn test_filter_pipeline() {
    let schema = Schema::new(vec![
        Field::new("id".to_string(), DataType::Integer, false),
        Field::new("name".to_string(), DataType::String, false),
        Field::new("age".to_string(), DataType::Integer, true),
    ]);
    let mut dataset = DataSet::new(schema);
    dataset
        .add_row(Row::new(vec![
            Value::Integer(1),
            Value::String("Alice".to_string()),
            Value::Integer(30),
        ]))
        .unwrap();
    dataset
        .add_row(Row::new(vec![
            Value::Integer(2),
            Value::String("Bob".to_string()),
            Value::Integer(25),
        ]))
        .unwrap();
    dataset
        .add_row(Row::new(vec![
            Value::Integer(3),
            Value::String("Charlie".to_string()),
            Value::Integer(35),
        ]))
        .unwrap();
    let pipeline = Pipeline::new("test").add(Operator::Filter(FilterProcessor::greater_than(
        "age",
        Value::Integer(28),
    )));
    let result = pipeline.process(&dataset, &Binary64).unwrap();
    assert_eq!(result.len(), 2);
    assert_eq!(result.data[0].values[1], Value::String("Alice".to_string()));
    assert_eq!(result.data[1].values[1], Value::String("Charlie".to_string()));
}

#[test]
fn test_transform_pipeline() {
    let schema = Schema::new(vec![
        Field::new("id".to_string(), DataType::Integer, false),
        Field::new("name".to_string(), DataType::String, false),
        Field::new("age".to_string(), DataType::Integer, true),
    ]);
    let mut dataset = DataSet::new(schema);
    dataset
        .add_row(Row::new(vec![
            Value::Integer(1),
            Value::String("Alice".to_string()),
            Value::Integer(30),
        ]))
        .unwrap();
    dataset
        .add_row(Row::new(vec![
            Value::Integer(2),
            Value::String("Bob".to_string()),
            Value::Integer(25),
        ]))
        .unwrap();
    let pipeline = Pipeline::new("test")
        .add(Operator::Select(SelectTransform::new(vec![
            "name".to_string(),
            "age".to_string(),
        ])))
        .add(Operator::AddColumn(AddColumnTransform::with_constant(
            "adult",
            DataType::Boolean,
            false,
            Value::Boolean(true),
        )));
    let result = pipeline.process(&dataset, &Binary64).unwrap();
    assert_eq!(result.len(), 2);
    assert_eq!(result.schema.fields.len(), 3);
    assert_eq!(result.schema.fields[0].name, "name");
    assert_eq!(result.schema.fields[1].name, "age");
    assert_eq!(result.schema.fields[2].name, "adult");
    assert_eq!(result.data[0].values[2], Value::Boolean(true));
    assert_eq!(result.data[1].values[2], Value::Boolean(true));
}

#[test]
fn test_aggregate_pipeline() {
    let schema = Schema::new(vec![
        Field::new("category".to_string(), DataType::String, false),
        Field::new("amount".to_string(), DataType::Float, false),
    ]);
    let mut dataset = DataSet::new(schema);
    dataset
        .add_row(Row::new(vec![
            Value::String("A".to_string()),
            Value::Float(fbits(100.0)),
        ]))
        .unwrap();
    dataset
        .add_row(Row::new(vec![
            Value::String("B".to_string()),
            Value::Float(fbits(200.0)),
        ]))
        .unwrap();
    dataset
        .add_row(Row::new(vec![
            Value::String("A".to_string()),
            Value::Float(fbits(150.0)),
        ]))
        .unwrap();
    dataset
        .add_row(Row::new(vec![
            Value::String("B".to_string()),
            Value::Float(fbits(250.0)),
        ]))
        .unwrap();
    let group_by = GroupByProcessor::new()
        .group_by("category")
        .sum("total", "amount");
    let result = group_by.process(&dataset, &Binary64).unwrap();
    assert_eq!(result.len(), 2);
    let mut found_a = false;
    let mut found_b = false;
    for row in &result.data {
        if row.values[0] == Value::String("A".to_string()) {
            found_a = true;
            assert_eq!(row.values[1], Value::Float(fbits(250.0)));
        } else if row.values[0] == Value::String("B".to_string()) {
            found_b = true;
            assert_eq!(row.values[1], Value::Float(fbits(450.0)));
        }
    }
    assert!(found_a);
    assert!(found_b);
}

#[test]
fn test_join_pipeline() {
    let schema1 = Schema::new(vec![
        Field::new("id".to_string(), DataType::Integer, false),
        Field::new("name".to_string(), DataType::String, false),
    ]);
    let schema2 = Schema::new(vec![
        Field::new("id".to_string(), DataType::Integer, false),
        Field::new("age".to_string(), DataType::Integer, true),
    ]);
    let mut dataset1 = DataSet::new(schema1);
    let mut dataset2 = DataSet::new(schema2);
    dataset1
        .add_row(Row::new(vec![
            Value::Integer(1),
            Value::String("Alice".to_string()),
        ]))
        .unwrap();
    dataset1
        .add_row(Row::new(vec![
            Value::Integer(2),
            Value::String("Bob".to_string()),
        ]))
        .unwrap();
    dataset2
        .add_row(Row::new(vec![Value::Integer(1), Value::Integer(30)]))
        .unwrap();
    dataset2
        .add_row(Row::new(vec![Value::Integer(3), Value::Integer(25)]))
        .unwrap();
    let join = JoinProcessor::new(
        JoinType::Left,
        vec!["id".to_string()],
        vec!["id".to_string()],
    );
    let result = join.process_join(&dataset1, &dataset2).unwrap();
    assert_eq!(result.len(), 2);
    assert_eq!(result.schema.fields.len(), 3);
    assert_eq!(result.data[0].values[0], Value::Integer(1));
    assert_eq!(result.data[0].values[1], Value::String("Alice".to_string()));
    assert_eq!(result.data[0].values[2], Value::Integer(30));
    assert_eq!(result.data[1].values[0], Value::Integer(2));
    assert_eq!(result.data[1].values[1], Value::String("Bob".to_string()));
    assert_eq!(result.data[1].values[2], Value::Null);
}

#[test]
fn test_row_number_window_attaches_to_original_rows() {
    let dataset = people();
    let mut ds = dataset;
    ds.add_row(Row::new(vec![
        Value::Integer(3),
        Value::String("Charlie".to_string()),
        Value::Integer(35),
    ]))
    .unwrap();
    let window = WindowProcessor::row_number("rn");
    let result = window.process(&ds).unwrap();
    assert_eq!(result.len(), 3);
    assert_eq!(result.schema.fields.len(), 4);
    assert_eq!(result.data[0].values[3], Value::Integer(1));
    assert_eq!(result.data[1].values[3], Value::Integer(2));
    assert_eq!(result.data[2].values[3], Value::Integer(3));
    // The original columns are untouched.
    assert_eq!(result.data[2].values[1], Value::String("Charlie".to_string()));
}

#[test]
fn test_rank_and_dense_rank() {
    let schema = Schema::new(vec![Field::new(
        "score".to_string(),
        DataType::Integer,
        false,
    )]);
    let mut ds = DataSet::new(schema);
    for v in [10, 20, 20, 30] {
        ds.add_row(Row::new(vec![Value::Integer(v)])).unwrap();
    }
    let rank = WindowProcessor::rank("r").order_by(vec![("score".to_string(), true)]);
    let result = rank.process(&ds).unwrap();
    let mut ranks: Vec<i64> = Vec::new();
    for row in &result.data {
        match row.values[1] {
            Value::Integer(r) => ranks.push(r),
            _ => panic!("rank must be an integer"),
        }
    }
    assert_eq!(ranks, vec![1, 2, 2, 4]);
    let dense = WindowProcessor::dense_rank("d").order_by(vec![("score".to_string(), true)]);
    let result2 = dense.process(&ds).unwrap();
    let mut dranks: Vec<i64> = Vec::new();
    for row in &result2.data {
        match row.values[1] {
            Value::Integer(r) => dranks.push(r),
            _ => panic!("dense rank must be an integer"),
        }
    }
    assert_eq!(dranks, vec![1, 2, 2, 3]);
}

#[test]
fn test_lead_and_lag() {
    let schema = Schema::new(vec![Field::new("v".to_string(), DataType::Integer, false)]);
    let mut ds = DataSet::new(schema);
    for v in [5, 6, 7] {
        ds.add_row(Row::new(vec![Value::Integer(v)])).unwrap();
    }
    let lead = WindowProcessor::lead("next", 1).order_by(vec![("v".to_string(), true)]);
    let result = lead.process(&ds).unwrap();
    assert_eq!(result.data[0].values[1], Value::Integer(6));
    assert_eq!(result.data[1].values[1], Value::Integer(7));
    assert_eq!(result.data[2].values[1], Value::Null);
    let lag = WindowProcessor::lag("prev", 1).order_by(vec![("v".to_string(), true)]);
    let result2 = lag.process(&ds).unwrap();
    assert_eq!(result2.data[0].values[1], Value::Null);
    assert_eq!(result2.data[1].values[1], Value::Integer(5));
    assert_eq!(result2.data[2].values[1], Value::Integer(6));
}

#[test]
fn test_cast_string_to_boolean() {
    let schema = Schema::new(vec![Field::new(
        "flag".to_string(),
        DataType::String,
        false,
    )]);
    let mut ds = DataSet::new(schema);
    ds.add_row(Row::new(vec![Value::String("true".to_string())]))
        .unwrap();
    let cast = CastTransform::new("flag", DataType::Boolean);
    let result = cast.process(&ds, &Binary64).unwrap();
    assert_eq!(result.data[0].values[0], Value::Boolean(true));

    let mut bad = DataSet::new(Schema::new(vec![Field::new(
        "flag".to_string(),
        DataType::String,
        false,
    )]));
    bad.add_row(Row::new(vec![Value::String("maybe".to_string())]))
        .unwrap();
    let err = cast.process(&bad, &Binary64).unwrap_err();
    assert!(matches!(err, ProcessingError::InvalidOperation(_)));
}

#[test]
fn test_cast_round_trips() {
    // Integer -> Float -> Integer round-trips for values representable
    // exactly in binary64, and only for those.
    let schema = Schema::new(vec![Field::new("v".to_string(), DataType::Integer, false)]);
    let mut ds = DataSet::new(schema);
    ds.add_row(Row::new(vec![Value::Integer(42)])).unwrap();
    let big = (1i64 << 53) + 1;
    ds.add_row(Row::new(vec![Value::Integer(big)])).unwrap();
    let to_float = CastTransform::new("v", DataType::Float);
    let to_int = CastTransform::new("v", DataType::Integer);
    let floated = to_float.process(&ds, &Binary64).unwrap();
    let back = to_int.process(&floated, &Binary64).unwrap();
    assert_eq!(back.data[0].values[0], Value::Integer(42));
    assert_ne!(back.data[1].values[0], Value::Integer(big));
    // Float -> Integer truncates toward zero.
    let mut f = DataSet::new(Schema::new(vec![Field::new(
        "v".to_string(),
        DataType::Float,
        false,
    )]));
    f.add_row(Row::new(vec![Value::Float(fbits(3.7))])).unwrap();
    f.add_row(Row::new(vec![Value::Float(fbits(-3.7))])).unwrap();
    let trunced = to_int.process(&f, &Binary64).unwrap();
    assert_eq!(trunced.data[0].values[0], Value::Integer(3));
    assert_eq!(trunced.data[1].values[0], Value::Integer(-3));
}

#[test]
fn test_cast_numbers_and_text() {
    let schema = Schema::new(vec![Field::new("v".to_string(), DataType::Integer, false)]);
    let mut ds = DataSet::new(schema);
    ds.add_row(Row::new(vec![Value::Integer(-42)])).unwrap();
    let to_string = CastTransform::new("v", DataType::String);
    let texts = to_string.process(&ds, &Binary64).unwrap();
    assert_eq!(texts.data[0].values[0], Value::String("-42".to_string()));
    let to_int = CastTransform::new("v", DataType::Integer);
    let back = to_int.process(&texts, &Binary64).unwrap();
    assert_eq!(back.data[0].values[0], Value::Integer(-42));
    // An unparsable integer is a coercion error.
    let mut bad = DataSet::new(Schema::new(vec![Field::new(
        "v".to_string(),
        DataType::String,
        false,
    )]));
    bad.add_row(Row::new(vec![Value::String("4x".to_string())]))
        .unwrap();
    let err = to_int.process(&bad, &Binary64).unwrap_err();
    assert!(matches!(err, ProcessingError::InvalidOperation(_)));
    // An unsupported pairing is a different error.
    let mut bin = DataSet::new(Schema::new(vec![Field::new(
        "v".to_string(),
        DataType::Binary,
        false,
    )]));
    bin.add_row(Row::new(vec![Value::Binary(vec![1, 2])])).unwrap();
    let err2 = to_int.process(&bin, &Binary64).unwrap_err();
    assert!(matches!(err2, ProcessingError::NotSupported(_)));
}

#[test]
fn test_filter_is_idempotent_end_to_end() {
    let ds = people();
    let filter = FilterProcessor::greater_than("age", Value::Integer(26));
    let once = filter.process(&ds, &Binary64).unwrap();
    let twice = filter.process(&once, &Binary64).unwrap();
    assert_eq!(once.len(), twice.len());
    for i in 0..once.data.len() {
        for j in 0..once.data[i].values.len() {
            assert_eq!(once.data[i].values[j], twice.data[i].values[j]);
        }
    }
}

#[test]
fn test_filter_predicates() {
    let ds = people();
    let eq = FilterProcessor::equals("name", Value::String("Bob".to_string()));
    assert_eq!(eq.process(&ds, &Binary64).unwrap().len(), 1);
    let lt = FilterProcessor::less_than("age", Value::Integer(28));
    assert_eq!(lt.process(&ds, &Binary64).unwrap().len(), 1);
    let nn = FilterProcessor::not_null("age");
    assert_eq!(nn.process(&ds, &Binary64).unwrap().len(), 2);
    let ct = FilterProcessor::contains("name", "li");
    let kept = ct.process(&ds, &Binary64).unwrap();
    assert_eq!(kept.len(), 1);
    assert_eq!(kept.data[0].values[1], Value::String("Alice".to_string()));
    // A missing column keeps nothing rather than failing.
    let missing = FilterProcessor::not_null("nope");
    assert_eq!(missing.process(&ds, &Binary64).unwrap().len(), 0);
}

#[test]
fn test_select_compose_and_errors() {
    let ds = people();
    let wide = SelectTransform::new(vec!["name".to_string(), "age".to_string()]);
    let narrow = SelectTransform::new(vec!["age".to_string()]);
    let direct = narrow.process(&ds).unwrap();
    let composed = narrow.process(&wide.process(&ds).unwrap()).unwrap();
    assert_eq!(direct.schema.fields.len(), composed.schema.fields.len());
    for i in 0..direct.data.len() {
        assert_eq!(direct.data[i].values[0], composed.data[i].values[0]);
    }
    let unknown = SelectTransform::new(vec!["nope".to_string()]);
    assert!(matches!(
        unknown.process(&ds).unwrap_err(),
        ProcessingError::InvalidArgument(_)
    ));
}

#[test]
fn test_rename_and_drop() {
    let ds = people();
    let rename = RenameTransform::new(vec![("name".to_string(), "full_name".to_string())]);
    let renamed = rename.process(&ds).unwrap();
    assert_eq!(renamed.schema.fields[1].name, "full_name");
    // Renaming to an existing name is a duplicate-name error.
    let clash = RenameTransform::new(vec![("name".to_string(), "age".to_string())]);
    assert!(matches!(
        clash.process(&ds).unwrap_err(),
        ProcessingError::InvalidArgument(_)
    ));
    // Renaming a missing column is an error.
    let missing = RenameTransform::new(vec![("nope".to_string(), "x".to_string())]);
    assert!(matches!(
        missing.process(&ds).unwrap_err(),
        ProcessingError::InvalidArgument(_)
    ));
    let drop = DropColumnsTransform::new(vec!["id".to_string(), "nope".to_string()]);
    let dropped = drop.process(&ds).unwrap();
    assert_eq!(dropped.schema.fields.len(), 2);
    assert_eq!(dropped.schema.fields[0].name, "name");
    assert_eq!(dropped.schema.fields[1].name, "age");
}

#[test]
fn test_add_column_duplicate_is_error() {
    let ds = people();
    let add = AddColumnTransform::with_constant("age", DataType::Integer, true, Value::Integer(0));
    assert!(matches!(
        add.process(&ds).unwrap_err(),
        ProcessingError::InvalidArgument(_)
    ));
}

#[test]
fn test_limit_and_skip() {
    let ds = people();
    let limited = LimitProcessor::new(1).process(&ds).unwrap();
    assert_eq!(limited.len(), 1);
    assert_eq!(limited.data[0].values[0], Value::Integer(1));
    let skipped = SkipProcessor::new(1).process(&ds).unwrap();
    assert_eq!(skipped.len(), 1);
    assert_eq!(skipped.data[0].values[0], Value::Integer(2));
    let over = SkipProcessor::new(10).process(&ds).unwrap();
    assert_eq!(over.len(), 0);
}

#[test]
fn test_join_cardinalities() {
    let mut left = DataSet::new(Schema::new(vec![Field::new(
        "k".to_string(),
        DataType::Integer,
        false,
    )]));
    for v in [1, 2, 3] {
        left.add_row(Row::new(vec![Value::Integer(v)])).unwrap();
    }
    let mut right = DataSet::new(Schema::new(vec![
        Field::new("k".to_string(), DataType::Integer, false),
        Field::new("w".to_string(), DataType::Integer, false),
    ]));
    right
        .add_row(Row::new(vec![Value::Integer(1), Value::Integer(10)]))
        .unwrap();
    right
        .add_row(Row::new(vec![Value::Integer(4), Value::Integer(40)]))
        .unwrap();
    let keys = (vec!["k".to_string()], vec!["k".to_string()]);
    let inner = JoinProcessor::inner(keys.0.clone(), keys.1.clone())
        .process_join(&left, &right)
        .unwrap();
    let left_join = JoinProcessor::left(keys.0.clone(), keys.1.clone())
        .process_join(&left, &right)
        .unwrap();
    let right_join = JoinProcessor::right(keys.0.clone(), keys.1.clone())
        .process_join(&left, &right)
        .unwrap();
    let full = JoinProcessor::full(keys.0.clone(), keys.1.clone())
        .process_join(&left, &right)
        .unwrap();
    let cross = JoinProcessor::cross().process_join(&left, &right).unwrap();
    assert_eq!(inner.len(), 1);
    assert_eq!(left_join.len(), 3);
    assert_eq!(right_join.len(), 2);
    assert_eq!(full.len(), 4);
    assert_eq!(cross.len(), 6);
    assert!(inner.len() <= left_join.len());
    assert!(left_join.len() <= full.len());
    // The unmatched right row appears null-padded in the full join.
    assert_eq!(full.data[3].values[0], Value::Null);
    assert_eq!(full.data[3].values[1], Value::Integer(40));
}

#[test]
fn test_join_name_collisions_renamed() {
    let mut left = DataSet::new(Schema::new(vec![
        Field::new("k".to_string(), DataType::Integer, false),
        Field::new("v".to_string(), DataType::Integer, false),
    ]));
    left.add_row(Row::new(vec![Value::Integer(1), Value::Integer(5)]))
        .unwrap();
    let mut right = DataSet::new(Schema::new(vec![
        Field::new("k".to_string(), DataType::Integer, false),
        Field::new("v".to_string(), DataType::Integer, false),
    ]));
    right
        .add_row(Row::new(vec![Value::Integer(1), Value::Integer(7)]))
        .unwrap();
    let joined = JoinProcessor::inner(vec!["k".to_string()], vec!["k".to_string()])
        .process_join(&left, &right)
        .unwrap();
    assert_eq!(joined.schema.fields.len(), 3);
    assert_eq!(joined.schema.fields[2].name, "v_1");
    assert_eq!(joined.data[0].values[2], Value::Integer(7));
}

#[test]
fn test_join_metadata_merged_with_renaming() {
    let mut left = DataSet::new(Schema::new(vec![Field::new(
        "k".to_string(),
        DataType::Integer,
        false,
    )]));
    left.metadata.add("origin".to_string(), "l".to_string());
    let mut right = DataSet::new(Schema::new(vec![Field::new(
        "k".to_string(),
        DataType::Integer,
        false,
    )]));
    right.metadata.add("origin".to_string(), "r".to_string());
    let joined = JoinProcessor::inner(vec!["k".to_string()], vec!["k".to_string()])
        .process_join(&left, &right)
        .unwrap();
    assert_eq!(joined.metadata.get("origin"), Some(&"l".to_string()));
    assert_eq!(joined.metadata.get("origin_1"), Some(&"r".to_string()));
}

#[test]
fn test_group_by_count_min_max() {
    let mut ds = DataSet::new(Schema::new(vec![
        Field::new("g".to_string(), DataType::String, false),
        Field::new("v".to_string(), DataType::Integer, true),
    ]));
    let rows = vec![
        (Value::String("a".to_string()), Value::Integer(3)),
        (Value::String("a".to_string()), Value::Null),
        (Value::String("a".to_string()), Value::Integer(9)),
        (Value::String("b".to_string()), Value::Integer(4)),
    ];
    for (g, v) in rows {
        ds.add_row(Row::new(vec![g, v])).unwrap();
    }
    let agg = GroupByProcessor::new()
        .group_by("g")
        .count("n", "v")
        .min("lo", "v")
        .max("hi", "v");
    let result = agg.process(&ds, &Binary64).unwrap();
    assert_eq!(result.len(), 2);
    for row in &result.data {
        if row.values[0] == Value::String("a".to_string()) {
            assert_eq!(row.values[1], Value::Integer(2));
            assert_eq!(row.values[2], Value::Integer(3));
            assert_eq!(row.values[3], Value::Integer(9));
        } else {
            assert_eq!(row.values[1], Value::Integer(1));
            assert_eq!(row.values[2], Value::Integer(4));
            assert_eq!(row.values[3], Value::Integer(4));
        }
    }
}

#[test]
fn test_group_by_avg_and_empty_config() {
    let mut ds = DataSet::new(Schema::new(vec![
        Field::new("g".to_string(), DataType::String, false),
        Field::new("v".to_string(), DataType::Integer, true),
    ]));
    ds.add_row(Row::new(vec![
        Value::String("a".to_string()),
        Value::Integer(2),
    ]))
    .unwrap();
    ds.add_row(Row::new(vec![
        Value::String("a".to_string()),
        Value::Integer(4),
    ]))
    .unwrap();
    let agg = GroupByProcessor::new().group_by("g").avg("m", "v");
    let result = agg.process(&ds, &Binary64).unwrap();
    assert_eq!(result.data[0].values[1], Value::Float(fbits(3.0)));
    // A group whose column has no numeric values averages to null.
    let mut nulls = DataSet::new(Schema::new(vec![
        Field::new("g".to_string(), DataType::String, false),
        Field::new("v".to_string(), DataType::String, true),
    ]));
    nulls
        .add_row(Row::new(vec![
            Value::String("a".to_string()),
            Value::String("x".to_string()),
        ]))
        .unwrap();
    let agg2 = GroupByProcessor::new().group_by("g").avg("m", "v");
    let result2 = agg2.process(&nulls, &Binary64).unwrap();
    assert_eq!(result2.data[0].values[1], Value::Null);
    // No key columns and no aggregations is a configuration error.
    let empty = GroupByProcessor::new();
    assert!(matches!(
        empty.process(&ds, &Binary64).unwrap_err(),
        ProcessingError::InvalidArgument(_)
    ));
}

#[test]
fn test_group_by_sum_promotes_to_float() {
    let mut ds = DataSet::new(Schema::new(vec![
        Field::new("g".to_string(), DataType::String, false),
        Field::new("v".to_string(), DataType::Float, true),
    ]));
    ds.add_row(Row::new(vec![
        Value::String("a".to_string()),
        Value::Integer(1),
    ]))
    .unwrap();
    ds.add_row(Row::new(vec![
        Value::String("a".to_string()),
        Value::Float(fbits(2.5)),
    ]))
    .unwrap();
    let agg = GroupByProcessor::new().group_by("g").sum("s", "v");
    let result = agg.process(&ds, &Binary64).unwrap();
    assert_eq!(result.data[0].values[1], Value::Float(fbits(3.5)));
}

#[test]
fn test_group_by_matches_stats_over_one_group() {
    // GroupBy Sum/Count with no key columns equals the Stats Sum/Count over
    // the same column, numerically.
    let mut ds = DataSet::new(Schema::new(vec![Field::new(
        "v".to_string(),
        DataType::Integer,
        false,
    )]));
    for v in [1, 2, 3] {
        ds.add_row(Row::new(vec![Value::Integer(v)])).unwrap();
    }
    let agg = GroupByProcessor::new().sum("s", "v").count("n", "v");
    let grouped = agg.process(&ds, &Binary64).unwrap();
    assert_eq!(grouped.len(), 1);
    assert_eq!(grouped.data[0].values[0], Value::Integer(6));
    assert_eq!(grouped.data[0].values[1], Value::Integer(3));
    let sum = StatsProcessor::sum("v").process(&ds, &Binary64).unwrap();
    assert_eq!(sum.data[0].values[0], Value::Float(fbits(6.0)));
    let count = StatsProcessor::count("v").process(&ds, &Binary64).unwrap();
    assert_eq!(count.data[0].values[0], Value::Float(fbits(3.0)));
}

#[test]
fn test_stats_single_column() {
    let mut ds = DataSet::new(Schema::new(vec![Field::new(
        "v".to_string(),
        DataType::Float,
        false,
    )]));
    for v in [1.0, 2.0, 3.0, 2.0] {
        ds.add_row(Row::new(vec![Value::Float(fbits(v))])).unwrap();
    }
    let ops = Binary64;
    let mean = StatsProcessor::mean("v").process(&ds, &ops).unwrap();
    assert_eq!(mean.data[0].values[0], Value::Float(fbits(2.0)));
    assert_eq!(mean.schema.fields[0].name, "mean");
    let median = StatsProcessor::median("v").process(&ds, &ops).unwrap();
    assert_eq!(median.data[0].values[0], Value::Float(fbits(2.0)));
    let mode = StatsProcessor::mode("v").process(&ds, &ops).unwrap();
    assert_eq!(mode.data[0].values[0], Value::Float(fbits(2.0)));
    let min = StatsProcessor::min("v").process(&ds, &ops).unwrap();
    assert_eq!(min.data[0].values[0], Value::Float(fbits(1.0)));
    let max = StatsProcessor::max("v").process(&ds, &ops).unwrap();
    assert_eq!(max.data[0].values[0], Value::Float(fbits(3.0)));
    let range = StatsProcessor::range("v").process(&ds, &ops).unwrap();
    assert_eq!(range.data[0].values[0], Value::Float(fbits(2.0)));
    let variance = StatsProcessor::variance("v").process(&ds, &ops).unwrap();
    assert_eq!(variance.data[0].values[0], Value::Float(fbits(0.5)));
    let std_dev = StatsProcessor::std_dev("v").process(&ds, &ops).unwrap();
    assert_eq!(std_dev.data[0].values[0], Value::Float(fbits(0.5f64.sqrt())));
    // A missing column is an error; non-numeric cells are skipped silently.
    assert!(StatsProcessor::mean("nope").process(&ds, &ops).is_err());
}

#[test]
fn test_stats_two_columns() {
    let mut ds = DataSet::new(Schema::new(vec![
        Field::new("x".to_string(), DataType::Float, false),
        Field::new("y".to_string(), DataType::Float, false),
    ]));
    for (x, y) in [(1.0, 2.0), (2.0, 4.0), (3.0, 6.0)] {
        ds.add_row(Row::new(vec![
            Value::Float(fbits(x)),
            Value::Float(fbits(y)),
        ]))
        .unwrap();
    }
    let ops = Binary64;
    let corr = StatsProcessor::correlation("x", "y")
        .process(&ds, &ops)
        .unwrap();
    match corr.data[0].values[0] {
        Value::Float(bits) => assert!((f64::from_bits(bits) - 1.0).abs() < 1e-12),
        _ => panic!("correlation must be a float"),
    }
    let cov = StatsProcessor::covariance("x", "y")
        .process(&ds, &ops)
        .unwrap();
    // Population covariance of x=[1,2,3], y=[2,4,6] is 4/3.
    match cov.data[0].values[0] {
        Value::Float(bits) => assert!((f64::from_bits(bits) - 4.0 / 3.0).abs() < 1e-12),
        _ => panic!("covariance must be a float"),
    }
}

#[test]
fn test_quantile_interpolates() {
    let mut ds = DataSet::new(Schema::new(vec![Field::new(
        "v".to_string(),
        DataType::Float,
        false,
    )]));
    for v in [10.0, 20.0, 30.0, 40.0] {
        ds.add_row(Row::new(vec![Value::Float(fbits(v))])).unwrap();
    }
    let q = StatsProcessor::quantile("v", fbits(0.5));
    let result = q.process(&ds, &Binary64).unwrap();
    assert_eq!(result.data[0].values[0], Value::Float(fbits(25.0)));
}

#[test]
fn test_dataset_arity_invariant() {
    let schema = Schema::new(vec![
        Field::new("a".to_string(), DataType::Integer, false),
        Field::new("b".to_string(), DataType::Integer, false),
    ]);
    let mut ds = DataSet::new(schema);
    let err = ds
        .add_row(Row::new(vec![Value::Integer(1)]))
        .unwrap_err();
    assert!(matches!(
        err,
        rust_data_processing_engine::data::DataError::SchemaMismatch
    ));
    assert_eq!(ds.len(), 0);
    ds.add_row(Row::new(vec![Value::Integer(1), Value::Integer(2)]))
        .unwrap();
    assert_eq!(ds.len(), 1);
    assert!(!ds.is_empty());
    assert_eq!(ds.get_row(0).unwrap().values.len(), 2);
    assert!(ds.get_row(1).is_none());
}

#[test]
fn test_schema_validation() {
    let schema = SchemaBuilder::new()
        .add_integer("id", false)
        .add_string("name", true)
        .build();
    let ok = Row::new(vec![Value::Integer(1), Value::Null]);
    assert!(SchemaValidator::validate_row(&ok, &schema).is_ok());
    let null_in_required = Row::new(vec![Value::Null, Value::Null]);
    assert!(SchemaValidator::validate_row(&null_in_required, &schema).is_err());
    let wrong_type = Row::new(vec![
        Value::String("x".to_string()),
        Value::String("y".to_string()),
    ]);
    assert!(SchemaValidator::validate_row(&wrong_type, &schema).is_err());
    let wrong_arity = Row::new(vec![Value::Integer(1)]);
    assert!(SchemaValidator::validate_row(&wrong_arity, &schema).is_err());
    assert!(SchemaValidator::validate_value(
        &Value::Array(vec![Value::Integer(1)]),
        &DataType::Array(Box::new(DataType::Integer))
    )
    .is_ok());
    assert!(SchemaValidator::validate_value(
        &Value::Array(vec![Value::String("x".to_string())]),
        &DataType::Array(Box::new(DataType::Integer))
    )
    .is_err());
}

#[test]
fn test_metadata_and_validation_helpers() {
    let mut meta = Metadata::new();
    meta.add("source".to_string(), "unit".to_string());
    meta.add("source".to_string(), "unit2".to_string());
    assert_eq!(meta.get("source"), Some(&"unit2".to_string()));
    assert_eq!(meta.get("missing"), None);
    assert!(validation::validate_not_null(&Value::Integer(1), "x").is_ok());
    assert!(validation::validate_not_null(&Value::Null, "x").is_err());
    assert!(validation::validate_not_empty(&Value::String("hi".to_string()), "x").is_ok());
    assert!(validation::validate_not_empty(&Value::String("".to_string()), "x").is_err());
    assert!(validation::validate_positive(&Value::Integer(3), "x").is_ok());
    assert!(validation::validate_positive(&Value::Float(fbits(-1.0)), "x").is_err());
    assert!(validation::validate_positive(&Value::Float(fbits(0.5)), "x").is_ok());
    assert!(validation::validate_range(5, 0, 10, "x").is_ok());
    assert!(validation::validate_range(11, 0, 10, "x").is_err());
    let ds = people();
    assert!(validation::validate_schema(
        &ds,
        &vec![("id".to_string(), DataType::Integer)]
    )
    .is_ok());
    assert!(validation::validate_schema(
        &ds,
        &vec![("id".to_string(), DataType::String)]
    )
    .is_err());
}

#[test]
fn test_file_format_and_storage_paths() {
    assert_eq!(FileFormat::from_str("CSV").unwrap(), FileFormat::Csv);
    assert_eq!(FileFormat::from_str("json").unwrap(), FileFormat::Json);
    assert_eq!(FileFormat::from_extension("parquet").unwrap(), FileFormat::Parquet);
    assert!(FileFormat::from_str("xml").is_err());
    assert_eq!(FileFormat::Csv.extension(), "csv");
    let storage = FileStorage::new("./data", FileFormat::Csv);
    assert_eq!(storage.get_path("result"), "./data/result.csv");
}

#[test]
fn test_config_defaults_and_log_level() {
    let config = Config::default();
    assert_eq!(config.server.port, 8080);
    assert_eq!(config.storage.type_, "memory");
    assert_eq!(config.log_level_filter(), LogLevel::Info);
    let mut config2 = Config::default();
    config2.logging.level = "DEBUG".to_string();
    assert_eq!(config2.log_level_filter(), LogLevel::Debug);
    config2.logging.level = "nonsense".to_string();
    assert_eq!(config2.log_level_filter(), LogLevel::Info);
}

#[test]
fn test_api_request_handling() {
    let req = api::CreateDatasetRequest {
        name: "t".to_string(),
        schema: vec![
            api::SchemaField {
                name: "id".to_string(),
                data_type: "integer".to_string(),
                nullable: false,
            },
            api::SchemaField {
                name: "label".to_string(),
                data_type: "string".to_string(),
                nullable: true,
            },
        ],
        data: vec![
            vec![Value::Integer(1), Value::String("x".to_string())],
            vec![Value::Integer(2), Value::String("y".to_string())],
        ],
    };
    let ds = api::create_dataset(&req).unwrap();
    assert_eq!(ds.len(), 2);
    let filter_req = api::FilterRequest {
        source: "t".to_string(),
        target: None,
        filter_type: "equals".to_string(),
        params: vec![
            ("column".to_string(), Value::String("id".to_string())),
            ("value".to_string(), Value::Integer(2)),
        ],
    };
    let filtered = api::filter_dataset(&ds, &filter_req, &Binary64).unwrap();
    assert_eq!(filtered.len(), 1);
    assert_eq!(filtered.data[0].values[1], Value::String("y".to_string()));
    let bad = api::FilterRequest {
        source: "t".to_string(),
        target: None,
        filter_type: "nonsense".to_string(),
        params: vec![("column".to_string(), Value::String("id".to_string()))],
    };
    assert!(api::filter_dataset(&ds, &bad, &Binary64).is_err());
    let agg_req = api::AggregateRequest {
        source: "t".to_string(),
        target: None,
        group_by: None,
        aggregations: vec![api::Aggregation {
            function: "count".to_string(),
            input_column: "id".to_string(),
            output_name: "n".to_string(),
        }],
    };
    let agg = api::aggregate_dataset(&ds, &agg_req, &Binary64).unwrap();
    assert_eq!(agg.data[0].values[0], Value::Integer(2));
    let stats_req = api::StatsRequest {
        source: "t".to_string(),
        stats_type: "sum".to_string(),
        columns: vec!["id".to_string()],
        output_name: "total".to_string(),
    };
    let stats = api::compute_stats(&ds, &stats_req, &Binary64).unwrap();
    assert_eq!(stats.data[0].values[0], Value::Float(fbits(3.0)));
    assert_eq!(stats.schema.fields[0].name, "total");
}

#[test]
fn test_pipeline_fail_fast() {
    let ds = people();
    let pipeline = Pipeline::new("failing")
        .add(Operator::Select(SelectTransform::new(vec![
            "nope".to_string()
        ])))
        .add(Operator::Select(SelectTransform::new(vec![
            "name".to_string()
        ])));
    assert!(pipeline.process(&ds, &Binary64).is_err());
    let empty = Pipeline::new("empty");
    let out = empty.process(&ds, &Binary64).unwrap();
    assert_eq!(out.len(), ds.len());
}

#[test]
fn test_error_messages() {
    let e = rust_data_processing_engine::data::DataError::ValidationError("bad".to_string());
    assert_eq!(e.message(), "Validation error: bad");
    let p = ProcessingError::DataError(rust_data_processing_engine::data::DataError::SchemaMismatch);
    assert_eq!(p.message(), "Data error: Schema mismatch");
    let s = rust_data_processing_engine::storage::StorageError::NotFound("x".to_string());
    assert_eq!(s.message(), "Dataset 'x' not found");
    let a = rust_data_processing_engine::api::ApiError::Conflict("busy".to_string());
    assert_eq!(a.message(), "Conflict: busy");
    let app_err = rust_data_processing_engine::utils::AppError::Config("oops".to_string());
    assert_eq!(app_err.message(), "Configuration error: oops");
}

#[test]
fn test_float_ordering_in_filters() {
    let mut ds = DataSet::new(Schema::new(vec![Field::new(
        "v".to_string(),
        DataType::Float,
        false,
    )]));
    for v in [-1.5, 0.0, 2.25] {
        ds.add_row(Row::new(vec![Value::Float(fbits(v))])).unwrap();
    }
    let gt = FilterProcessor::greater_than("v", Value::Float(F64_ZERO_BITS));
    assert_eq!(gt.process(&ds, &Binary64).unwrap().len(), 1);
    let lt = FilterProcessor::less_than("v", Value::Float(F64_ZERO_BITS));
    assert_eq!(lt.process(&ds, &Binary64).unwrap().len(), 1);
    // Negative zero equals positive zero.
    let eq = FilterProcessor::equals("v", Value::Float(fbits(-0.0)));
    assert_eq!(eq.process(&ds, &Binary64).unwrap().len(), 1);
}
