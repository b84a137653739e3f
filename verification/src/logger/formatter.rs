//! ANSI-colored formatting of log record parts: level badges, module names,
//! timestamps and thread ids, each optional and each colored when color is on.

use vstd::prelude::*;
use super::Level;
use super::colors;
use crate::text::push_str;

verus! {

/// Which parts of a record are shown, and whether color is used.
#[derive(Debug, Clone, Copy, PartialEq, Eq, Structural)]
pub struct ColoredFormatter {
    pub use_color: bool,
    pub show_timestamp: bool,
    pub show_module: bool,
    pub show_thread: bool,
}

/// The color code of a level.
pub open spec fn level_code(l: Level) -> Seq<char> {
    match l {
        Level::Trace => colors::BRIGHT_BLACK@,
        Level::Debug => colors::BLUE@,
        Level::Info => colors::GREEN@,
        Level::Warn => colors::YELLOW@,
        Level::Error => colors::RED@,
    }
}

/// The five-character label of a level.
pub open spec fn level_label(l: Level) -> Seq<char> {
    match l {
        Level::Trace => "TRACE"@,
        Level::Debug => "DEBUG"@,
        Level::Info => "INFO "@,
        Level::Warn => "WARN "@,
        Level::Error => "ERROR"@,
    }
}

/// `code` when color is on, nothing otherwise.
pub open spec fn when_colored(f: ColoredFormatter, code: Seq<char>) -> Seq<char> {
    if f.use_color {
        code
    } else {
        Seq::empty()
    }
}

/// `text` between `open` and `close`.
pub open spec fn wrapped(open: Seq<char>, text: Seq<char>, close: Seq<char>) -> Seq<char> {
    open + text + close
}

/// The characters of `b` as `bool` formats it.
pub open spec fn bool_text(b: bool) -> Seq<char> {
    if b {
        "true"@
    } else {
        "false"@
    }
}

fn push_bool(s: &mut String, b: bool)
    ensures
        final(s)@ == old(s)@ + bool_text(b),
{
    if b {
        push_str(s, "true");
    } else {
        push_str(s, "false");
    }
}

impl ColoredFormatter {
    /// Color, timestamps and modules on; threads off.
    pub fn new() -> (f: ColoredFormatter)
        ensures
            f == (ColoredFormatter { use_color: true, show_timestamp: true, show_module: true, show_thread: false }),
    {
        ColoredFormatter { use_color: true, show_timestamp: true, show_module: true, show_thread: false }
    }

    /// This formatter with color on or off.
    pub fn with_color(self, use_color: bool) -> (f: ColoredFormatter)
        ensures
            f == (ColoredFormatter { use_color, ..self }),
    {
        let mut f = self;
        f.use_color = use_color;
        f
    }

    /// This formatter showing timestamps or not.
    pub fn with_timestamp(self, show_timestamp: bool) -> (f: ColoredFormatter)
        ensures
            f == (ColoredFormatter { show_timestamp, ..self }),
    {
        let mut f = self;
        f.show_timestamp = show_timestamp;
        f
    }

    /// This formatter showing modules or not.
    pub fn with_module(self, show_module: bool) -> (f: ColoredFormatter)
        ensures
            f == (ColoredFormatter { show_module, ..self }),
    {
        let mut f = self;
        f.show_module = show_module;
        f
    }

    /// This formatter showing threads or not.
    pub fn with_thread(self, show_thread: bool) -> (f: ColoredFormatter)
        ensures
            f == (ColoredFormatter { show_thread, ..self }),
    {
        let mut f = self;
        f.show_thread = show_thread;
        f
    }

    /// The color code of `level`; empty without color.
    pub fn level_color(&self, level: Level) -> (s: &'static str)
        ensures
            s@ == when_colored(*self, level_code(level)),
    {
        if !self.use_color {
            proof {
                reveal_strlit("");
            }
            return "";
        }
        match level {
            Level::Trace => colors::BRIGHT_BLACK,
            Level::Debug => colors::BLUE,
            Level::Info => colors::GREEN,
            Level::Warn => colors::YELLOW,
            Level::Error => colors::RED,
        }
    }

    /// The color code of module names; empty without color.
    pub fn module_color(&self) -> (s: &'static str)
        ensures
            s@ == when_colored(*self, colors::CYAN@),
    {
        if !self.use_color {
            proof {
                reveal_strlit("");
            }
            return "";
        }
        colors::CYAN
    }

    /// The color code of timestamps; empty without color.
    pub fn timestamp_color(&self) -> (s: &'static str)
        ensures
            s@ == when_colored(*self, colors::DIM@),
    {
        if !self.use_color {
            proof {
                reveal_strlit("");
            }
            return "";
        }
        colors::DIM
    }

    /// The color code of thread ids; empty without color.
    pub fn thread_color(&self) -> (s: &'static str)
        ensures
            s@ == when_colored(*self, colors::BRIGHT_BLACK@),
    {
        if !self.use_color {
            proof {
                reveal_strlit("");
            }
            return "";
        }
        colors::BRIGHT_BLACK
    }

    /// The reset code; empty without color.
    pub fn reset(&self) -> (s: &'static str)
        ensures
            s@ == when_colored(*self, colors::RESET@),
    {
        if !self.use_color {
            proof {
                reveal_strlit("");
            }
            return "";
        }
        colors::RESET
    }

    /// The level's label in its color, such as `INFO ` in green.
    pub fn format_level_badge(&self, level: Level) -> (s: String)
        ensures
            s@ == wrapped(
                when_colored(*self, level_code(level)),
                level_label(level),
                when_colored(*self, colors::RESET@),
            ),
    {
        let label = match level {
            Level::Trace => "TRACE",
            Level::Debug => "DEBUG",
            Level::Info => "INFO ",
            Level::Warn => "WARN ",
            Level::Error => "ERROR",
        };
        let mut s = String::new();
        push_str(&mut s, self.level_color(level));
        push_str(&mut s, label);
        push_str(&mut s, self.reset());
        s
    }

    /// `[module]` in the module color; empty when modules are hidden.
    pub fn format_module(&self, module: &str) -> (s: String)
        ensures
            s@ == if self.show_module {
                wrapped(when_colored(*self, colors::CYAN@), "["@ + module@ + "]"@, when_colored(*self, colors::RESET@))
            } else {
                Seq::empty()
            },
    {
        if !self.show_module {
            return String::new();
        }
        let mut s = String::new();
        push_str(&mut s, self.module_color());
        push_str(&mut s, "[");
        push_str(&mut s, module);
        push_str(&mut s, "]");
        push_str(&mut s, self.reset());
        s
    }

    /// The timestamp in the timestamp color; empty when timestamps are hidden.
    pub fn format_timestamp(&self, timestamp: &str) -> (s: String)
        ensures
            s@ == if self.show_timestamp {
                wrapped(when_colored(*self, colors::DIM@), timestamp@, when_colored(*self, colors::RESET@))
            } else {
                Seq::empty()
            },
    {
        if !self.show_timestamp {
            return String::new();
        }
        let mut s = String::new();
        push_str(&mut s, self.timestamp_color());
        push_str(&mut s, timestamp);
        push_str(&mut s, self.reset());
        s
    }

    /// `[thread_id]` in the thread color; empty when threads are hidden.
    pub fn format_thread(&self, thread_id: &str) -> (s: String)
        ensures
            s@ == if self.show_thread {
                wrapped(
                    when_colored(*self, colors::BRIGHT_BLACK@),
                    "["@ + thread_id@ + "]"@,
                    when_colored(*self, colors::RESET@),
                )
            } else {
                Seq::empty()
            },
    {
        if !self.show_thread {
            return String::new();
        }
        let mut s = String::new();
        push_str(&mut s, self.thread_color());
        push_str(&mut s, "[");
        push_str(&mut s, thread_id);
        push_str(&mut s, "]");
        push_str(&mut s, self.reset());
        s
    }

    /// `ColoredFormatter { color: .., timestamp: .., module: .., thread: .. }`.
    pub fn to_string(&self) -> (s: String)
        ensures
            s@ == "ColoredFormatter { color: "@ + bool_text(self.use_color) + ", timestamp: "@ + bool_text(
                self.show_timestamp,
            ) + ", module: "@ + bool_text(self.show_module) + ", thread: "@ + bool_text(self.show_thread)
                + " }"@,
    {
        let mut s = String::new();
        push_str(&mut s, "ColoredFormatter { color: ");
        push_bool(&mut s, self.use_color);
        push_str(&mut s, ", timestamp: ");
        push_bool(&mut s, self.show_timestamp);
        push_str(&mut s, ", module: ");
        push_bool(&mut s, self.show_module);
        push_str(&mut s, ", thread: ");
        push_bool(&mut s, self.show_thread);
        push_str(&mut s, " }");
        s
    }
}

impl Default for ColoredFormatter {
    fn default() -> (f: ColoredFormatter)
        ensures
            f == (ColoredFormatter { use_color: true, show_timestamp: true, show_module: true, show_thread: false }),
    {
        ColoredFormatter::new()
    }
}

/// Without color, a badge is the bare label.
pub proof fn lemma_uncolored_badge_is_label(f: ColoredFormatter, l: Level)
    requires
        !f.use_color,
    ensures
        wrapped(when_colored(f, level_code(l)), level_label(l), when_colored(f, colors::RESET@)) == level_label(l),
{
    assert(Seq::<char>::empty() + level_label(l) + Seq::<char>::empty() =~= level_label(l));
}

} // verus!
