//! The storage contract: the backend interface the engine consumes, its
//! error type, and the file-format bookkeeping of the file backend.
//!
//! The engine is agnostic to how and where datasets persist; the actual
//! backends (in-memory map, filesystem, cache wrapper) perform I/O and live
//! with the program around the library.

use vstd::prelude::*;

use crate::data::DataError;
use crate::data::DataSet;
use crate::text::concat2;
use crate::text::concat3;
use crate::text::eq_ignore_ascii_case;
use crate::text::spec_eq_ignore_ascii_case;

verus! {

/// An error raised by a storage backend.
#[derive(Debug)]
pub enum StorageError {
    DataError(DataError),
    IoError(String),
    NotFound(String),
    AlreadyExists(String),
    InvalidFormat(String),
    Other(String),
}

/// The text a storage error renders as.
pub open spec fn spec_storage_error_message(e: StorageError) -> Seq<char> {
    match e {
        StorageError::DataError(inner) => "Data error: "@ + crate::data::spec_data_error_message(
            inner,
        ),
        StorageError::IoError(m) => "IO error: "@ + m@,
        StorageError::NotFound(name) => "Dataset '"@ + name@ + "' not found"@,
        StorageError::AlreadyExists(name) => "Dataset '"@ + name@ + "' already exists"@,
        StorageError::InvalidFormat(m) => "Invalid format: "@ + m@,
        StorageError::Other(m) => "Error: "@ + m@,
    }
}

impl StorageError {
    /// The error rendered as text.
    pub fn message(&self) -> (r: String)
        ensures
            r@ == spec_storage_error_message(*self),
    {
        match self {
            StorageError::DataError(inner) => {
                let m = inner.message();
                concat2("Data error: ", m.as_str())
            },
            StorageError::IoError(m) => concat2("IO error: ", m.as_str()),
            StorageError::NotFound(name) => concat3("Dataset '", name.as_str(), "' not found"),
            StorageError::AlreadyExists(name) => concat3(
                "Dataset '",
                name.as_str(),
                "' already exists",
            ),
            StorageError::InvalidFormat(m) => concat2("Invalid format: ", m.as_str()),
            StorageError::Other(m) => concat2("Error: ", m.as_str()),
        }
    }
}

/// A pluggable dataset store.  Implementations perform I/O and are provided
/// by the program around the library.
pub trait DataStorage {
    /// Store a dataset under a name.
    fn store(&self, name: &str, data: &DataSet) -> Result<(), StorageError>;

    /// Load the dataset stored under a name.
    fn load(&self, name: &str) -> Result<DataSet, StorageError>;

    /// Whether a dataset is stored under the name.
    fn contains(&self, name: &str) -> Result<bool, StorageError>;

    /// Delete the dataset stored under a name.
    fn delete(&self, name: &str) -> Result<(), StorageError>;

    /// The names of all stored datasets.
    fn list(&self) -> Result<Vec<String>, StorageError>;
}

/// The file format a file-backed store uses.
#[derive(Debug, PartialEq, Eq, Structural, Clone, Copy)]
pub enum FileFormat {
    Csv,
    Json,
    Parquet,
}

impl FileFormat {
    /// The file extension for this format.
    pub fn extension(&self) -> (r: &'static str)
        ensures
            *self is Csv ==> r@ == "csv"@,
            *self is Json ==> r@ == "json"@,
            *self is Parquet ==> r@ == "parquet"@,
    {
        match self {
            FileFormat::Csv => "csv",
            FileFormat::Json => "json",
            FileFormat::Parquet => "parquet",
        }
    }

    /// Parse a file format from text, case-insensitive; an unknown name is
    /// an `InvalidFormat` error.
    pub fn from_str(s: &str) -> (r: Result<FileFormat, StorageError>)
        ensures
            match r {
                Ok(f) => (f is Csv <==> spec_eq_ignore_ascii_case(s@, "csv"@)) && (f is Json
                    <==> spec_eq_ignore_ascii_case(s@, "json"@)) && (f is Parquet
                    <==> spec_eq_ignore_ascii_case(s@, "parquet"@)),
                Err(e) => e is InvalidFormat && !spec_eq_ignore_ascii_case(s@, "csv"@)
                    && !spec_eq_ignore_ascii_case(s@, "json"@) && !spec_eq_ignore_ascii_case(
                    s@,
                    "parquet"@,
                ),
            },
    {
        if eq_ignore_ascii_case(s, "csv") {
            proof {
                lemma_format_keywords_distinct(s@);
            }
            Ok(FileFormat::Csv)
        } else if eq_ignore_ascii_case(s, "json") {
            proof {
                lemma_format_keywords_distinct(s@);
            }
            Ok(FileFormat::Json)
        } else if eq_ignore_ascii_case(s, "parquet") {
            Ok(FileFormat::Parquet)
        } else {
            Err(StorageError::InvalidFormat(concat2("Unknown file format: ", s)))
        }
    }

    /// Parse a file format from a file extension.
    pub fn from_extension(ext: &str) -> (r: Result<FileFormat, StorageError>)
        ensures
            match r {
                Ok(f) => (f is Csv <==> spec_eq_ignore_ascii_case(ext@, "csv"@)) && (f is Json
                    <==> spec_eq_ignore_ascii_case(ext@, "json"@)) && (f is Parquet
                    <==> spec_eq_ignore_ascii_case(ext@, "parquet"@)),
                Err(e) => e is InvalidFormat && !spec_eq_ignore_ascii_case(ext@, "csv"@)
                    && !spec_eq_ignore_ascii_case(ext@, "json"@) && !spec_eq_ignore_ascii_case(
                    ext@,
                    "parquet"@,
                ),
            },
    {
        FileFormat::from_str(ext)
    }
}

/// No text reads as two of the format keywords at once: their lengths
/// differ.
proof fn lemma_format_keywords_distinct(s: Seq<char>)
    ensures
        spec_eq_ignore_ascii_case(s, "csv"@) ==> !spec_eq_ignore_ascii_case(s, "json"@)
            && !spec_eq_ignore_ascii_case(s, "parquet"@),
        spec_eq_ignore_ascii_case(s, "json"@) ==> !spec_eq_ignore_ascii_case(s, "csv"@)
            && !spec_eq_ignore_ascii_case(s, "parquet"@),
{
    reveal_strlit("csv");
    reveal_strlit("json");
    reveal_strlit("parquet");
}

/// The naming scheme of a file-backed dataset store: one file per dataset
/// under a base directory, named `<name>.<extension>`.  The I/O itself is
/// performed by the program around the library.
pub struct FileStorage {
    pub base_dir: String,
    pub format: FileFormat,
}

impl FileStorage {
    /// Create a new file storage naming scheme.
    pub fn new(base_dir: &str, format: FileFormat) -> (r: FileStorage)
        ensures
            r.base_dir@ == base_dir@,
            r.format == format,
    {
        FileStorage { base_dir: base_dir.to_owned(), format }
    }

    /// The path of the file holding a dataset:
    /// `<base_dir>/<name>.<extension>`.
    pub fn get_path(&self, name: &str) -> (r: String)
        ensures
            self.format is Csv ==> r@ == self.base_dir@ + "/"@ + name@ + "."@ + "csv"@,
            self.format is Json ==> r@ == self.base_dir@ + "/"@ + name@ + "."@ + "json"@,
            self.format is Parquet ==> r@ == self.base_dir@ + "/"@ + name@ + "."@ + "parquet"@,
    {
        let path = concat3(self.base_dir.as_str(), "/", name);
        let tail = concat2(".", self.format.extension());
        concat2(path.as_str(), tail.as_str())
    }
}

} // verus!
