//! `console`: where the output of a page goes.

use crate::text::str_eq;
use vstd::prelude::*;

verus! {

/// How important a line of output is.
#[derive(Debug, Clone, Copy, PartialEq, Eq, Structural)]
pub enum LogLevel {
    /// An error.
    Error,
    /// A warning.
    Warn,
    /// Information.
    Info,
    /// Anything else.
    Debug,
}

/// The level that a mark stands for.
pub open spec fn level_of(mark: Seq<char>) -> LogLevel {
    if mark == "[ERR]"@ {
        LogLevel::Error
    } else if mark == "[WARN]"@ {
        LogLevel::Warn
    } else if mark == "[INFO]"@ {
        LogLevel::Info
    } else {
        LogLevel::Debug
    }
}

/// The level and the line that a page's output is logged with.
pub fn log_line(mark: &str, message: &str) -> (r: (LogLevel, String))
    ensures
        r.0 == level_of(mark@),
        r.1@ == "[JS] "@ + message@,
{
    let level = if str_eq(mark, "[ERR]") {
        LogLevel::Error
    } else if str_eq(mark, "[WARN]") {
        LogLevel::Warn
    } else if str_eq(mark, "[INFO]") {
        LogLevel::Info
    } else {
        LogLevel::Debug
    };
    let mut line = "[JS] ".to_string();
    line.append(message);
    (level, line)
}

/// A line is an error, a warning or information exactly when it is marked as such,
/// and else it is for debugging.
pub proof fn law_levels(mark: Seq<char>)
    ensures
        level_of(mark) is Error <==> mark == "[ERR]"@,
        level_of(mark) is Warn <==> mark == "[WARN]"@,
        level_of(mark) is Info <==> mark == "[INFO]"@,
        level_of(mark) is Debug <==> mark != "[ERR]"@ && mark != "[WARN]"@ && mark != "[INFO]"@,
{
    reveal_strlit("[ERR]");
    reveal_strlit("[WARN]");
    reveal_strlit("[INFO]");
    assert("[ERR]"@.len() == 5 && "[WARN]"@.len() == 6 && "[INFO]"@.len() == 6);
    assert("[WARN]"@[1] != "[INFO]"@[1]);
}

} // verus!
