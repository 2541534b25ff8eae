//! An embeddable, in-memory tabular data-processing engine.
//!
//! Datasets are typed collections of rows; operators (filter, projection,
//! cast, group-by aggregation, join, window functions, statistics) are pure
//! functions from one dataset to a new dataset, chained into pipelines.

pub mod api;
pub mod data;
pub mod processing;
pub mod storage;
pub mod text;
pub mod utils;

pub use data::DataError;
pub use data::DataSet;
pub use data::DataType;
pub use data::Field;
pub use data::Metadata;
pub use data::Row;
pub use data::Schema;
pub use data::Value;
pub use processing::Pipeline;
pub use storage::FileStorage;
pub use utils::config::Config;
