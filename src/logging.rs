//! Log levels and the verbosity options that choose one.
use vstd::prelude::*;

use crate::text::str_eq;

verus! {

/// The least severe kind of message that is logged.
#[derive(Clone, Copy, PartialEq, Eq, Structural, Debug)]
pub enum LevelFilter {
    Trace,
    Debug,
    Info,
    Warn,
    Fatal,
    Off,
}

impl LevelFilter {
    /// The lower-case name.
    pub open spec fn name_spec(&self) -> Seq<char> {
        match self {
            LevelFilter::Trace => "trace"@,
            LevelFilter::Debug => "debug"@,
            LevelFilter::Info => "info"@,
            LevelFilter::Warn => "warn"@,
            LevelFilter::Fatal => "fatal"@,
            LevelFilter::Off => "off"@,
        }
    }

    /// The lower-case name.
    pub fn name(&self) -> (r: &'static str)
        ensures
            r@ == self.name_spec(),
    {
        match self {
            LevelFilter::Trace => "trace",
            LevelFilter::Debug => "debug",
            LevelFilter::Info => "info",
            LevelFilter::Warn => "warn",
            LevelFilter::Fatal => "fatal",
            LevelFilter::Off => "off",
        }
    }

    /// The value with the given name, if any.
    pub fn from_name(text: &str) -> (r: Option<LevelFilter>)
        ensures
            match r {
                Some(v) => v.name_spec() == text@,
                None => forall|v: LevelFilter| v.name_spec() != text@,
            },
    {
        if str_eq(text, "trace") {
            Some(LevelFilter::Trace)
        } else if str_eq(text, "debug") {
            Some(LevelFilter::Debug)
        } else if str_eq(text, "info") {
            Some(LevelFilter::Info)
        } else if str_eq(text, "warn") {
            Some(LevelFilter::Warn)
        } else if str_eq(text, "fatal") {
            Some(LevelFilter::Fatal)
        } else if str_eq(text, "off") {
            Some(LevelFilter::Off)
        } else {
            None
        }
    }
}
/// A level name that is not known.
#[derive(Clone, PartialEq, Eq, Debug)]
pub struct ParseError {
    pub unknown: String,
}

impl LevelFilter {
    /// Reads a level name; an unknown name is an error that holds it.
    pub fn parse(text: &str) -> (r: Result<LevelFilter, ParseError>)
        ensures
            match r {
                Ok(v) => v.name_spec() == text@,
                Err(e) => e.unknown@ == text@ && forall|v: LevelFilter| v.name_spec() != text@,
            },
    {
        match LevelFilter::from_name(text) {
            Some(v) => Ok(v),
            None => Err(ParseError { unknown: text.to_owned() }),
        }
    }
}

/// The verbosity options: an explicit level, or counts of `-v` and `-q`.
#[derive(Clone, Copy, PartialEq, Eq, Debug)]
pub struct Logging {
    pub level: Option<LevelFilter>,
    /// How many times verbosity was raised, at most 2.
    pub v: u8,
    /// How many times verbosity was lowered, at most 3.
    pub q: u8,
}

/// The level chosen: the explicit one, else `info` moved one step per `-v` towards
/// `trace` and one step per `-q` towards `off`, stopping at either end.
pub open spec fn level_for(level: Option<LevelFilter>, v: int, q: int) -> LevelFilter {
    match level {
        Some(f) => f,
        None => if v - q <= -3 {
            LevelFilter::Off
        } else if v - q == -2 {
            LevelFilter::Fatal
        } else if v - q == -1 {
            LevelFilter::Warn
        } else if v - q == 0 {
            LevelFilter::Info
        } else if v - q == 1 {
            LevelFilter::Debug
        } else {
            LevelFilter::Trace
        },
    }
}

impl Logging {
    pub fn level_filter(&self) -> (r: LevelFilter)
        ensures
            r == level_for(self.level, self.v as int, self.q as int),
    {
        match self.level {
            Some(filter) => filter,
            None => {
                let d: i16 = self.v as i16 - self.q as i16;
                if d <= -3 {
                    LevelFilter::Off
                } else if d == -2 {
                    LevelFilter::Fatal
                } else if d == -1 {
                    LevelFilter::Warn
                } else if d == 0 {
                    LevelFilter::Info
                } else if d == 1 {
                    LevelFilter::Debug
                } else {
                    LevelFilter::Trace
                }
            },
        }
    }
}

/// The command-line options of the demo server.
pub struct AppArgs {
    pub logging: Logging,
    /// Extra paths of static content to serve.
    pub static_content: Option<Vec<String>>,
}

impl AppArgs {
    pub fn level_filter(&self) -> (r: LevelFilter)
        ensures
            r == level_for(self.logging.level, self.logging.v as int, self.logging.q as int),
    {
        self.logging.level_filter()
    }
}

} // verus!
