//! Levels of the log and what its lines look like.

use vstd::prelude::*;
use vstd::string::*;

use crate::text::{after_prefix, ascii_lowercase, debug_text, joined, lowercase, quoted, same_text,
    starts_with, strip_prefix, Text};

verus! {

/// How important a log record is.
#[derive(Clone, Copy, Debug, PartialEq, Eq, Structural)]
pub enum Level {
    Error,
    Warn,
    Info,
    Debug,
    Trace,
}

impl Level {
    /// How much a log holds that takes records down to a level.
    pub open spec fn verbosity(self) -> int {
        match self {
            Level::Error => 1,
            Level::Warn => 2,
            Level::Info => 3,
            Level::Debug => 4,
            Level::Trace => 5,
        }
    }

    fn number(self) -> (number: u8)
        ensures
            number == self.verbosity(),
    {
        match self {
            Level::Error => 1,
            Level::Warn => 2,
            Level::Info => 3,
            Level::Debug => 4,
            Level::Trace => 5,
        }
    }

    /// The word for a level.
    pub open spec fn word(self) -> Text {
        match self {
            Level::Error => "ERROR"@,
            Level::Warn => "WARN"@,
            Level::Info => "INFO"@,
            Level::Debug => "DEBUG"@,
            Level::Trace => "TRACE"@,
        }
    }

    /// The word for a level.
    pub fn name(self) -> (name: &'static str)
        ensures
            name@ == self.word(),
    {
        match self {
            Level::Error => "ERROR",
            Level::Warn => "WARN",
            Level::Info => "INFO",
            Level::Debug => "DEBUG",
            Level::Trace => "TRACE",
        }
    }
}

/// How much is logged.
#[derive(Clone, Copy, Debug, PartialEq, Eq, Structural)]
pub enum LogLevel {
    Trace,
    Debug,
    Info,
    Warn,
    Error,
}

/// The level of logging that a word names, in upper or lower case.
pub open spec fn level_named(word: Text) -> Option<LogLevel> {
    let name = lowercase(word);
    if name == "trace"@ {
        Some(LogLevel::Trace)
    } else if name == "debug"@ {
        Some(LogLevel::Debug)
    } else if name == "info"@ {
        Some(LogLevel::Info)
    } else if name == "warn"@ || name == "warning"@ {
        Some(LogLevel::Warn)
    } else if name == "error"@ {
        Some(LogLevel::Error)
    } else {
        None
    }
}

impl LogLevel {
    /// The least important records that are logged.
    pub fn filter(self) -> (level: Level)
        ensures
            level == (match self {
                LogLevel::Trace => Level::Trace,
                LogLevel::Debug => Level::Debug,
                LogLevel::Info => Level::Info,
                LogLevel::Warn => Level::Warn,
                LogLevel::Error => Level::Error,
            }),
    {
        match self {
            LogLevel::Trace => Level::Trace,
            LogLevel::Debug => Level::Debug,
            LogLevel::Info => Level::Info,
            LogLevel::Warn => Level::Warn,
            LogLevel::Error => Level::Error,
        }
    }

    /// The level that a word names, or the words for why it names none.
    pub fn named(word: &str) -> (outcome: Result<LogLevel, String>)
        ensures
            outcome is Ok <==> level_named(word@) is Some,
            outcome matches Ok(level) ==> level_named(word@) == Some(level),
            outcome matches Err(words) ==> words@ == "invalid log level "@ + debug_text(word@)
                + "; expected trace, debug, info, warn, or error"@,
    {
        let name = ascii_lowercase(word);
        let name = name.as_str();
        if same_text(name, "trace") {
            Ok(LogLevel::Trace)
        } else if same_text(name, "debug") {
            Ok(LogLevel::Debug)
        } else if same_text(name, "info") {
            Ok(LogLevel::Info)
        } else if same_text(name, "warn") || same_text(name, "warning") {
            Ok(LogLevel::Warn)
        } else if same_text(name, "error") {
            Ok(LogLevel::Error)
        } else {
            Err(
                joined("invalid log level ", quoted(word).as_str()).concat(
                    "; expected trace, debug, info, warn, or error",
                ),
            )
        }
    }
}

impl std::str::FromStr for LogLevel {
    type Err = String;

    fn from_str(word: &str) -> (outcome: Result<LogLevel, String>)
        ensures
            outcome is Ok <==> level_named(word@) is Some,
            outcome matches Ok(level) ==> level_named(word@) == Some(level),
            outcome matches Err(words) ==> words@ == "invalid log level "@ + debug_text(word@)
                + "; expected trace, debug, info, warn, or error"@,
    {
        LogLevel::named(word)
    }
}

/// Whether a record comes from this program.
pub open spec fn is_own_target(target: Text) -> bool {
    target == "salmon_watch"@ || "salmon_watch::"@.is_prefix_of(target)
}

/// Tests whether a record is logged: it comes from this program and is important enough. Without
/// a limit nothing is logged.
pub fn is_enabled(target: &str, level: Level, limit: Option<Level>) -> (enabled: bool)
    ensures
        enabled == (is_own_target(target@) && (limit matches Some(least) && level.verbosity()
            <= least.verbosity())),
{
    let own = same_text(target, "salmon_watch") || starts_with(target, "salmon_watch::");
    match limit {
        Some(least) => own && level.number() <= least.number(),
        None => false,
    }
}

/// The part of the program that a record comes from; empty for the program itself.
pub open spec fn component(target: Text) -> Text {
    match after_prefix(target, "salmon_watch::"@) {
        Some(name) => name,
        None => Seq::empty(),
    }
}

/// The part of the program that a record comes from; empty for the program itself.
pub fn component_name(target: &str) -> (name: String)
    ensures
        name@ == component(target@),
{
    match strip_prefix(target, "salmon_watch::") {
        Some(name) => name,
        None => {
            let name = String::new();
            assert(name@ =~= Seq::<char>::empty());
            name
        },
    }
}

/// A line of the log.
pub fn log_line(timestamp: &str, level: Level, target: &str, message: &str) -> (line: String)
    ensures
        line@ == (if component(target@).len() == 0 {
            timestamp@ + " "@ + level.word() + " salmon-watch: "@ + message@
        } else {
            timestamp@ + " "@ + level.word() + " salmon-watch["@ + component(target@) + "]: "@
                + message@
        }),
{
    let component = component_name(target);
    let start = joined(timestamp, " ").concat(level.name());
    if component.as_str().is_empty() {
        start.concat(" salmon-watch: ").concat(message)
    } else {
        start.concat(" salmon-watch[").concat(component.as_str()).concat("]: ").concat(message)
    }
}

// ---------------------------------------------------------------------------------------------
// Laws
// ---------------------------------------------------------------------------------------------

/// Each level of logging is named by its own word, in whichever case it is written, and warnings
/// also by the long word.
pub proof fn levels_are_named_in_any_case(word: Text)
    ensures
        lowercase(word) == "trace"@ ==> level_named(word) == Some(LogLevel::Trace),
        lowercase(word) == "debug"@ ==> level_named(word) == Some(LogLevel::Debug),
        lowercase(word) == "info"@ ==> level_named(word) == Some(LogLevel::Info),
        lowercase(word) == "warn"@ ==> level_named(word) == Some(LogLevel::Warn),
        lowercase(word) == "warning"@ ==> level_named(word) == Some(LogLevel::Warn),
        lowercase(word) == "error"@ ==> level_named(word) == Some(LogLevel::Error),
        level_named(word) is Some ==> {
            let name = lowercase(word);
            ||| name == "trace"@
            ||| name == "debug"@
            ||| name == "info"@
            ||| name == "warn"@
            ||| name == "warning"@
            ||| name == "error"@
        },
{
    reveal_strlit("trace");
    reveal_strlit("debug");
    reveal_strlit("info");
    reveal_strlit("warn");
    reveal_strlit("warning");
    reveal_strlit("error");
    assert("debug"@[0] != "trace"@[0]);
    assert("error"@[0] != "trace"@[0]);
    assert("error"@[0] != "debug"@[0]);
    assert("warn"@[0] != "info"@[0]);
}

/// A level of the log is read back from its word.
pub proof fn words_name_their_levels(level: Level)
    ensures
        level_named(level.word()) == Some(
            match level {
                Level::Error => LogLevel::Error,
                Level::Warn => LogLevel::Warn,
                Level::Info => LogLevel::Info,
                Level::Debug => LogLevel::Debug,
                Level::Trace => LogLevel::Trace,
            },
        ),
{
    reveal_strlit("ERROR");
    reveal_strlit("WARN");
    reveal_strlit("INFO");
    reveal_strlit("DEBUG");
    reveal_strlit("TRACE");
    reveal_strlit("trace");
    reveal_strlit("debug");
    reveal_strlit("info");
    reveal_strlit("warn");
    reveal_strlit("warning");
    reveal_strlit("error");
    assert("debug"@[0] != "trace"@[0]);
    assert("error"@[0] != "trace"@[0]);
    assert("error"@[0] != "debug"@[0]);
    assert("warn"@[0] != "info"@[0]);
    let name = lowercase(level.word());
    match level {
        Level::Error => assert(name =~= "error"@),
        Level::Warn => assert(name =~= "warn"@),
        Level::Info => assert(name =~= "info"@),
        Level::Debug => assert(name =~= "debug"@),
        Level::Trace => assert(name =~= "trace"@),
    }
}

/// Errors matter most, then warnings, information, and what is for developers.
pub proof fn levels_are_ordered_by_importance(level: Level)
    ensures
        Level::Error.verbosity() < Level::Warn.verbosity() < Level::Info.verbosity()
            < Level::Debug.verbosity() < Level::Trace.verbosity(),
        Level::Error.verbosity() <= level.verbosity() <= Level::Trace.verbosity(),
{
}

/// The records of this program and of each part of it are its own, and each part is told by its
/// name. Those of other programs are not, even where their names begin the same.
pub proof fn own_records_are_recognised(name: Text)
    ensures
        is_own_target("salmon_watch"@),
        is_own_target("salmon_watch::"@ + name),
        component("salmon_watch"@).len() == 0,
        component("salmon_watch::"@ + name) == name,
        name.len() > 0 && name[0] != ':' ==> !is_own_target("salmon_watch"@ + name),
{
    reveal_strlit("salmon_watch");
    reveal_strlit("salmon_watch::");
    let part = "salmon_watch::"@ + name;
    assert(part.skip("salmon_watch::"@.len() as int) =~= name);
    let other = "salmon_watch"@ + name;
    if name.len() > 0 && name[0] != ':' {
        assert(other[12] == name[0]);
        assert("salmon_watch::"@[12] == ':');
    }
}

} // verus!
