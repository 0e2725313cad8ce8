//! The unified error type of the launcher's operations.  Each variant
//! carries the message reported to the caller; nothing here is fatal.

use vstd::prelude::*;

use crate::text::{chars_of, string_from_chars};

verus! {

/// One failed launcher operation, by subsystem.
#[derive(Clone, Debug)]
pub enum VantaError {
    Config(String),
    Scanner(String),
    Matcher(String),
    Window(String),
    Script(String),
    Io(String),
}

impl VantaError {
    /// The message shown for this error, prefixed by its subsystem.
    pub fn message(&self) -> (r: String)
        ensures
            (self matches VantaError::Config(m) ==> r@ == "Config error: "@ + m@),
            (self matches VantaError::Scanner(m) ==> r@ == "Scanner error: "@ + m@),
            (self matches VantaError::Matcher(m) ==> r@ == "Matcher error: "@ + m@),
            (self matches VantaError::Window(m) ==> r@ == "Window error: "@ + m@),
            (self matches VantaError::Script(m) ==> r@ == "Script error: "@ + m@),
            (self matches VantaError::Io(m) ==> r@ == "I/O error: "@ + m@),
    {
        let (prefix, m): (&str, &String) = match self {
            VantaError::Config(m) => ("Config error: ", m),
            VantaError::Scanner(m) => ("Scanner error: ", m),
            VantaError::Matcher(m) => ("Matcher error: ", m),
            VantaError::Window(m) => ("Window error: ", m),
            VantaError::Script(m) => ("Script error: ", m),
            VantaError::Io(m) => ("I/O error: ", m),
        };
        let mut v = chars_of(prefix);
        v.extend_from_slice(chars_of(m.as_str()).as_slice());
        string_from_chars(v.as_slice())
    }
}

} // verus!
