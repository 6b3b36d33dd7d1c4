//! How the server logs.

use vstd::prelude::*;

verus! {

/// The form of log lines.
#[derive(Clone, Copy, Debug, PartialEq, Eq, Structural)]
pub enum LogFormat {
    Text,
    Json,
}

impl LogFormat {
    /// The name by which a format is asked for.
    pub open spec fn spelled(self) -> Seq<char> {
        match self {
            LogFormat::Text => "text"@,
            LogFormat::Json => "json"@,
        }
    }

    /// The name by which a format is asked for.
    pub fn name(self) -> (name: &'static str)
        ensures
            name@ == self.spelled(),
    {
        match self {
            LogFormat::Text => "text",
            LogFormat::Json => "json",
        }
    }
}

/// The formats are asked for as `text` and `json`, so their names tell them apart.
pub proof fn law_formats_have_their_names(a: LogFormat, b: LogFormat)
    ensures
        LogFormat::Text.spelled() == "text"@,
        LogFormat::Json.spelled() == "json"@,
        a.spelled() == b.spelled() <==> a == b,
{
    reveal_strlit("text");
    reveal_strlit("json");
    assert("text"@[0] == 't' && "json"@[0] == 'j');
}

/// The format to log in: the one that was asked for. It defaults to text, and to json when stdout
/// is not a terminal.
pub fn log_format(asked: Option<LogFormat>, is_terminal: bool) -> (format: LogFormat)
    ensures
        format == match asked {
            Some(format) => format,
            None => if is_terminal {
                LogFormat::Text
            } else {
                LogFormat::Json
            },
        },
{
    match asked {
        Some(format) => format,
        None => if is_terminal {
            LogFormat::Text
        } else {
            LogFormat::Json
        },
    }
}

/// The filter to log by.
#[derive(Debug)]
pub enum LogFilter {
    /// The one of this text.
    Given(String),
    /// The one of the environment.
    Environment,
}

/// The filter to log by: the one that was asked for, else that of the environment where it has
/// one, else the built-in one.
pub fn log_filter(asked: Option<String>, in_environment: bool) -> (filter: LogFilter)
    ensures
        match asked {
            Some(asked) => filter == LogFilter::Given(asked),
            None => if in_environment {
                filter is Environment
            } else {
                filter matches LogFilter::Given(text) && text@
                    == "cause=debug,axum::rejection=trace"@
            },
        },
{
    match asked {
        Some(asked) => LogFilter::Given(asked),
        None => if in_environment {
            LogFilter::Environment
        } else {
            LogFilter::Given("cause=debug,axum::rejection=trace".to_string())
        },
    }
}

} // verus!
