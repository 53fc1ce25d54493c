//! How much the program tells.

use vstd::prelude::*;

verus! {

/// A level of detail of the log.
#[derive(Debug, Clone, Copy, PartialEq, Eq, Structural)]
pub enum Level {
    Error,
    Info,
    Debug,
    Trace,
}

/// What the operator asked for: more detail, once or more often, or quiet.
#[derive(Debug, Clone, Copy, PartialEq, Eq, Structural)]
pub struct Verbosity {
    pub verbose: u8,
    pub quiet: bool,
}

impl Verbosity {
    /// The level of detail asked for: errors alone where quiet is asked
    /// for, else one level more for each request for detail.
    pub fn get_level(&self) -> (r: Level)
        ensures
            r == (if self.quiet {
                Level::Error
            } else if self.verbose == 0 {
                Level::Info
            } else if self.verbose == 1 {
                Level::Debug
            } else {
                Level::Trace
            }),
    {
        if self.quiet {
            Level::Error
        } else if self.verbose == 0 {
            Level::Info
        } else if self.verbose == 1 {
            Level::Debug
        } else {
            Level::Trace
        }
    }
}

} // verus!
