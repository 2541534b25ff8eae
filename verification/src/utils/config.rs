//! Process configuration data.  Loading a configuration from a file is an
//! I/O concern of the program around the library; the types and defaults
//! live here.

use vstd::prelude::*;

use crate::text::spec_eq_ignore_ascii_case;
use crate::text::eq_ignore_ascii_case;
use vstd::string::StringExecFns;

verus! {

/// The verbosity of logging, from silence to full tracing.
#[derive(Debug, PartialEq, Eq, Structural, Clone, Copy)]
pub enum LogLevel {
    Off,
    Error,
    Warn,
    Info,
    Debug,
    Trace,
}

/// Where the HTTP facade listens.
#[derive(Debug)]
pub struct ServerConfig {
    pub host: String,
    pub port: u16,
    pub workers: Option<usize>,
    pub enable_cors: bool,
}

/// Which storage backend the program uses.
#[derive(Debug)]
pub struct StorageConfig {
    pub type_: String,
    pub path: Option<String>,
    pub format: Option<String>,
    pub cache_ttl: Option<u64>,
}

/// How the program logs.
#[derive(Debug)]
pub struct LoggingConfig {
    pub level: String,
    pub file: Option<String>,
}

/// The application configuration.
#[derive(Debug)]
pub struct Config {
    pub server: ServerConfig,
    pub storage: StorageConfig,
    pub logging: LoggingConfig,
}

impl Default for Config {
    /// The default configuration: a local server on port 8080, the
    /// in-memory store, and info-level logging.
    fn default() -> (r: Self)
        ensures
            r.server.host@ == "127.0.0.1"@,
            r.server.port == 8080,
            r.server.workers is None,
            !r.server.enable_cors,
            r.storage.type_@ == "memory"@,
            r.storage.path is None,
            r.storage.format is None,
            r.storage.cache_ttl is None,
            r.logging.level@ == "info"@,
            r.logging.file is None,
    {
        Config {
            server: ServerConfig {
                host: String::from_str("127.0.0.1"),
                port: 8080,
                workers: None,
                enable_cors: false,
            },
            storage: StorageConfig {
                type_: String::from_str("memory"),
                path: None,
                format: None,
                cache_ttl: None,
            },
            logging: LoggingConfig { level: String::from_str("info"), file: None },
        }
    }
}

impl Config {
    /// The configured log level: the level named in the logging section,
    /// case-insensitive, with info for anything unrecognized.
    pub fn log_level_filter(&self) -> (r: LogLevel)
        ensures
            spec_eq_ignore_ascii_case(self.logging.level@, "off"@) ==> r is Off,
            spec_eq_ignore_ascii_case(self.logging.level@, "error"@) ==> r is Error,
            spec_eq_ignore_ascii_case(self.logging.level@, "warn"@) ==> r is Warn,
            spec_eq_ignore_ascii_case(self.logging.level@, "debug"@) ==> r is Debug,
            spec_eq_ignore_ascii_case(self.logging.level@, "trace"@) ==> r is Trace,
    {
        let s = self.logging.level.as_str();
        if eq_ignore_ascii_case(s, "off") {
            proof {
                lemma_level_keywords(self.logging.level@);
            }
            LogLevel::Off
        } else if eq_ignore_ascii_case(s, "error") {
            proof {
                lemma_level_keywords(self.logging.level@);
            }
            LogLevel::Error
        } else if eq_ignore_ascii_case(s, "warn") {
            proof {
                lemma_level_keywords(self.logging.level@);
            }
            LogLevel::Warn
        } else if eq_ignore_ascii_case(s, "info") {
            proof {
                lemma_level_keywords(self.logging.level@);
            }
            LogLevel::Info
        } else if eq_ignore_ascii_case(s, "debug") {
            proof {
                lemma_level_keywords(self.logging.level@);
            }
            LogLevel::Debug
        } else if eq_ignore_ascii_case(s, "trace") {
            LogLevel::Trace
        } else {
            proof {
                lemma_level_keywords(self.logging.level@);
            }
            LogLevel::Info
        }
    }
}

/// No text reads as two of the level keywords at once.
proof fn lemma_level_keywords(s: Seq<char>)
    ensures
        spec_eq_ignore_ascii_case(s, "off"@) ==> !spec_eq_ignore_ascii_case(s, "error"@)
            && !spec_eq_ignore_ascii_case(s, "warn"@) && !spec_eq_ignore_ascii_case(s, "debug"@)
            && !spec_eq_ignore_ascii_case(s, "trace"@),
        spec_eq_ignore_ascii_case(s, "error"@) ==> !spec_eq_ignore_ascii_case(s, "warn"@)
            && !spec_eq_ignore_ascii_case(s, "debug"@) && !spec_eq_ignore_ascii_case(s, "trace"@),
        spec_eq_ignore_ascii_case(s, "warn"@) ==> !spec_eq_ignore_ascii_case(s, "error"@)
            && !spec_eq_ignore_ascii_case(s, "debug"@) && !spec_eq_ignore_ascii_case(s, "trace"@),
        spec_eq_ignore_ascii_case(s, "info"@) ==> !spec_eq_ignore_ascii_case(s, "debug"@)
            && !spec_eq_ignore_ascii_case(s, "trace"@),
        spec_eq_ignore_ascii_case(s, "debug"@) ==> !spec_eq_ignore_ascii_case(s, "trace"@),
{
    reveal_strlit("off");
    reveal_strlit("error");
    reveal_strlit("warn");
    reveal_strlit("info");
    reveal_strlit("debug");
    reveal_strlit("trace");
    if spec_eq_ignore_ascii_case(s, "error"@) && spec_eq_ignore_ascii_case(s, "trace"@) {
        assert(crate::text::spec_char_folds_to(s[0], 'e'));
        assert(crate::text::spec_char_folds_to(s[0], 't'));
    }
    if spec_eq_ignore_ascii_case(s, "warn"@) && spec_eq_ignore_ascii_case(s, "info"@) {
        assert(crate::text::spec_char_folds_to(s[0], 'w'));
        assert(crate::text::spec_char_folds_to(s[0], 'i'));
    }
    if spec_eq_ignore_ascii_case(s, "debug"@) && spec_eq_ignore_ascii_case(s, "trace"@) {
        assert(crate::text::spec_char_folds_to(s[0], 'd'));
        assert(crate::text::spec_char_folds_to(s[0], 't'));
    }
    if spec_eq_ignore_ascii_case(s, "error"@) && spec_eq_ignore_ascii_case(s, "debug"@) {
        assert(crate::text::spec_char_folds_to(s[0], 'e'));
        assert(crate::text::spec_char_folds_to(s[0], 'd'));
    }
    if spec_eq_ignore_ascii_case(s, "info"@) && spec_eq_ignore_ascii_case(s, "debug"@) {
        assert(crate::text::spec_char_folds_to(s[0], 'i'));
        assert(crate::text::spec_char_folds_to(s[0], 'd'));
    }
    if spec_eq_ignore_ascii_case(s, "info"@) && spec_eq_ignore_ascii_case(s, "trace"@) {
        assert(crate::text::spec_char_folds_to(s[0], 'i'));
        assert(crate::text::spec_char_folds_to(s[0], 't'));
    }
    if spec_eq_ignore_ascii_case(s, "warn"@) && spec_eq_ignore_ascii_case(s, "error"@) {
        assert(crate::text::spec_char_folds_to(s[0], 'w'));
        assert(crate::text::spec_char_folds_to(s[0], 'e'));
    }
    if spec_eq_ignore_ascii_case(s, "warn"@) && spec_eq_ignore_ascii_case(s, "debug"@) {
        assert(crate::text::spec_char_folds_to(s[0], 'w'));
        assert(crate::text::spec_char_folds_to(s[0], 'd'));
    }
    if spec_eq_ignore_ascii_case(s, "warn"@) && spec_eq_ignore_ascii_case(s, "trace"@) {
        assert(crate::text::spec_char_folds_to(s[0], 'w'));
        assert(crate::text::spec_char_folds_to(s[0], 't'));
    }
}

} // verus!
