//! Logging support: levels, the logger configuration, module filtering,
//! colored formatting and the daily log file naming.

use vstd::prelude::*;
use crate::input::state::opt_view;
use crate::text::{chars_eq_str, chars_of, lowercase, to_lowercase};
use subscriber::{daily_file_name, daily_log_path, path_join};

pub mod colors;
pub mod diagnostics;
pub mod filter;
pub mod formatter;
pub mod subscriber;

verus! {

/// How severe a log record is, from least to most.
#[derive(Debug, Clone, Copy, PartialEq, Eq, PartialOrd, Ord, Hash, Structural)]
pub enum Level {
    Trace,
    Debug,
    Info,
    Warn,
    Error,
}

/// The lowercase name of a level.
pub open spec fn level_name(l: Level) -> Seq<char> {
    match l {
        Level::Trace => "trace"@,
        Level::Debug => "debug"@,
        Level::Info => "info"@,
        Level::Warn => "warn"@,
        Level::Error => "error"@,
    }
}

/// The level a lowercase name denotes.
pub open spec fn level_of_name(t: Seq<char>) -> Option<Level> {
    if t == "trace"@ {
        Some(Level::Trace)
    } else if t == "debug"@ {
        Some(Level::Debug)
    } else if t == "info"@ {
        Some(Level::Info)
    } else if t == "warn"@ {
        Some(Level::Warn)
    } else if t == "error"@ {
        Some(Level::Error)
    } else {
        None
    }
}

/// The rank of a level, from least to most severe.
pub open spec fn level_rank(l: Level) -> nat {
    match l {
        Level::Trace => 0,
        Level::Debug => 1,
        Level::Info => 2,
        Level::Warn => 3,
        Level::Error => 4,
    }
}

/// A level's rank gives the level back.
pub proof fn lemma_rank_round_trip(l: Level, n: u8)
    requires
        n == level_rank(l),
    ensures
        n <= 4,
        forall|m: Level| level_rank(m) == n ==> m == l,
{
}

impl Level {
    /// The lowercase name: `trace`, `debug`, `info`, `warn` or `error`.
    pub fn as_str(&self) -> (s: &'static str)
        ensures
            s@ == level_name(*self),
    {
        match self {
            Level::Trace => "trace",
            Level::Debug => "debug",
            Level::Info => "info",
            Level::Warn => "warn",
            Level::Error => "error",
        }
    }

    /// The level named by an already lowercased name.
    pub fn from_lowercase(t: &str) -> (l: Option<Level>)
        ensures
            l == level_of_name(t@),
    {
        let cs = chars_of(t);
        if chars_eq_str(cs.as_slice(), "trace") {
            Some(Level::Trace)
        } else if chars_eq_str(cs.as_slice(), "debug") {
            Some(Level::Debug)
        } else if chars_eq_str(cs.as_slice(), "info") {
            Some(Level::Info)
        } else if chars_eq_str(cs.as_slice(), "warn") {
            Some(Level::Warn)
        } else if chars_eq_str(cs.as_slice(), "error") {
            Some(Level::Error)
        } else {
            None
        }
    }

    /// The level's rank, from 0 (`Trace`) to 4 (`Error`).
    pub fn as_u8(&self) -> (n: u8)
        ensures
            n == level_rank(*self),
    {
        match self {
            Level::Trace => 0,
            Level::Debug => 1,
            Level::Info => 2,
            Level::Warn => 3,
            Level::Error => 4,
        }
    }

    /// The level of a rank; a rank above 4 is `Error`.
    pub fn from_u8(n: u8) -> (l: Level)
        ensures
            n <= 4 ==> level_rank(l) == n,
            n > 4 ==> l == Level::Error,
    {
        match n {
            0 => Level::Trace,
            1 => Level::Debug,
            2 => Level::Info,
            3 => Level::Warn,
            _ => Level::Error,
        }
    }

    /// The level named by `s`, in any case.
    pub fn from_str(s: &str) -> (l: Option<Level>)
        ensures
            l == level_of_name(lowercase(s@)),
    {
        let lowered = to_lowercase(s);
        Self::from_lowercase(lowered.as_str())
    }
}

/// Naming a level and reading the name back gives the level.
pub proof fn lemma_level_name_round_trip(l: Level)
    ensures
        level_of_name(level_name(l)) == Some(l),
{
    reveal_strlit("trace");
    reveal_strlit("debug");
    reveal_strlit("info");
    reveal_strlit("warn");
    reveal_strlit("error");
    assert("trace"@[0] == 't');
    assert("debug"@[0] == 'd');
    assert("info"@[0] == 'i');
    assert("warn"@[0] == 'w');
    assert("error"@[0] == 'e');
}

/// How the logger is set up.
#[derive(Debug, Clone)]
pub struct LoggerConfig {
    pub level: Level,
    pub color: bool,
    pub timestamp: bool,
    pub module: bool,
    pub thread: bool,
    /// An explicit log file path.
    pub file: Option<String>,
    pub max_file_size: Option<u64>,
    pub max_files: Option<usize>,
    /// Development mode: log to a daily file when no path is given.
    pub dev: bool,
}

impl Default for LoggerConfig {
    fn default() -> (c: LoggerConfig)
        ensures
            c.level == Level::Info,
            c.color,
            c.timestamp,
            c.module,
            !c.thread,
            c.file is None,
            c.max_file_size == Some(10485760u64),
            c.max_files == Some(5usize),
            !c.dev,
    {
        LoggerConfig {
            level: Level::Info,
            color: true,
            timestamp: true,
            module: true,
            thread: false,
            file: None,
            max_file_size: Some(10 * 1024 * 1024),
            max_files: Some(5),
            dev: false,
        }
    }
}

/// Where file logs go: the directory to create and the file to open.
#[derive(Debug, Clone)]
pub struct FileLogTarget {
    pub dir: String,
    pub file: String,
}

/// The parent of a path, as `Path::parent` gives it: none when the path
/// ends in a root or a prefix, or is empty.
pub uninterp spec fn path_parent_of(path: Seq<char>) -> Option<Seq<char>>;

/// `Path::new(path).parent()`, as a string: named `path_parent_of`, a
/// function of the path alone. How the path splits into components is not
/// stated. The parent of a `str` path is a prefix of it, so the text is kept
/// as it is.
#[verifier::external_body]
fn path_parent(path: &str) -> (r: Option<String>)
    ensures
        opt_view(r) == path_parent_of(path@),
{
    std::path::Path::new(path).parent().map(|p| p.to_string_lossy().into_owned())
}

/// `file` is a daily log file (`bettertui-<date>.log`) in `dir`.
pub open spec fn is_daily_file_in(file: Seq<char>, dir: Seq<char>) -> bool {
    exists|date: Seq<char>| file == #[trigger] path_join(dir, daily_file_name(date))
}

/// A string that is present and not empty.
pub open spec fn is_set(o: Option<String>) -> bool {
    o matches Some(s) && s@.len() > 0
}

impl LoggerConfig {
    /// Where file logs should be written, if anywhere, given the value of
    /// the `BETTERTUI_LOG_DIR` environment variable and the development log
    /// directory. In order of precedence:
    /// 1. a non-empty `log_dir_env`: today's daily file in that directory;
    /// 2. a non-empty explicit `file`: that path, in its parent directory
    ///    (`.` when it has none);
    /// 3. development mode: today's daily file in `dev_log_dir`;
    /// 4. otherwise none: file logging is off.
    pub fn resolve_file_target(&self, log_dir_env: Option<String>, dev_log_dir: &str) -> (r: Option<
        FileLogTarget,
    >)
        ensures
            is_set(log_dir_env) ==> (r matches Some(t) && t.dir@ == log_dir_env.unwrap()@
                && is_daily_file_in(t.file@, t.dir@)),
            !is_set(log_dir_env) && is_set(self.file) ==> (r matches Some(t) && t.file@
                == self.file.unwrap()@ && t.dir@ == (match path_parent_of(t.file@) {
                Some(p) => p,
                None => "."@,
            })),
            !is_set(log_dir_env) && !is_set(self.file) && self.dev ==> (r matches Some(t) && t.dir@
                == dev_log_dir@ && is_daily_file_in(t.file@, t.dir@)),
            !is_set(log_dir_env) && !is_set(self.file) && !self.dev ==> r is None,
    {
        if let Some(dir) = log_dir_env {
            if dir.as_str().unicode_len() > 0 {
                let file = daily_log_path(dir.as_str());
                return Some(FileLogTarget { dir, file });
            }
        }
        if let Some(explicit) = &self.file {
            if explicit.as_str().unicode_len() > 0 {
                let file = explicit.clone();
                let dir = match path_parent(file.as_str()) {
                    Some(p) => p,
                    None => String::from_str("."),
                };
                proof {
                    reveal_strlit(".");
                }
                return Some(FileLogTarget { dir, file });
            }
        }
        if self.dev {
            let dir = dev_log_dir.to_string();
            let file = daily_log_path(dir.as_str());
            return Some(FileLogTarget { dir, file });
        }
        None
    }
}

} // verus!
