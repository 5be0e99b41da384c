use vstd::prelude::*;

verus! {

/// Severity of a log line.
#[derive(Clone, Copy, Debug, PartialEq, Eq, Structural)]
pub enum Priority {
    Info,
    Debug,
    Warning,
    Error,
}

/// Label printed for a priority.
pub open spec fn priority_label(p: Priority) -> Seq<char> {
    match p {
        Priority::Info => "INFO"@,
        Priority::Debug => "DEBUG"@,
        Priority::Warning => "WARNING"@,
        Priority::Error => "ERROR"@,
    }
}

impl Priority {
    /// The label printed for this priority.
    pub fn as_str(&self) -> (s: &'static str)
        ensures
            s@ == priority_label(*self),
    {
        match self {
            Priority::Info => "INFO",
            Priority::Debug => "DEBUG",
            Priority::Warning => "WARNING",
            Priority::Error => "ERROR",
        }
    }
}

/// Tag and priority used for lines that do not name their own.
pub struct Logger {
    pub default_tag: &'static str,
    pub default_priority: Priority,
}

impl Logger {
    /// A logger tagging its lines "no-tag" at debug priority.
    pub fn new() -> (l: Logger)
        ensures
            l.default_tag@ == "no-tag"@,
            l.default_priority == Priority::Debug,
    {
        Logger { default_tag: "no-tag", default_priority: Priority::Debug }
    }
}

} // verus!
