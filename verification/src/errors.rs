//! The error taxonomy: five kinds, flat, each carrying a readable message.
//!
//! The machine raises four of them; `IoErr` belongs to the surrounding
//! input/output layer and is carried here so one type covers the whole
//! session.

use vstd::prelude::*;

use crate::model::SpecErr;

verus! {

/// A failed line, tagged by kind, with a human-readable message.
#[derive(Debug)]
pub enum Error {
    IoErr(String),
    MathErr(String),
    StackErr(String),
    EnvErr(String),
    ParseErr(String),
}

impl View for Error {
    type V = SpecErr;

    open spec fn view(&self) -> SpecErr {
        match self {
            Error::IoErr(m) => SpecErr::Io(m@),
            Error::MathErr(m) => SpecErr::Math(m@),
            Error::StackErr(m) => SpecErr::Stack(m@),
            Error::EnvErr(m) => SpecErr::Env(m@),
            Error::ParseErr(m) => SpecErr::Parse(m@),
        }
    }
}

/// The displayed form of an error: a common prefix, a kind-specific
/// sub-prefix, then the message.
pub open spec fn display_text(e: SpecErr) -> Seq<char> {
    "An error occured: "@ + match e {
        SpecErr::Io(m) => "io error: "@ + m,
        SpecErr::Math(m) => "math error: "@ + m,
        SpecErr::Stack(m) => "stack error: "@ + m,
        SpecErr::Env(m) => "env error: "@ + m,
        SpecErr::Parse(m) => "parse error: "@ + m,
    }
}

impl Error {
    /// The error as the session displays it.
    pub fn message(&self) -> (r: String)
        ensures
            r@ == display_text(self@),
    {
        let mut s = String::from_str("An error occured: ");
        match self {
            Error::IoErr(m) => {
                s.append("io error: ");
                s.append(m.as_str());
            },
            Error::MathErr(m) => {
                s.append("math error: ");
                s.append(m.as_str());
            },
            Error::StackErr(m) => {
                s.append("stack error: ");
                s.append(m.as_str());
            },
            Error::EnvErr(m) => {
                s.append("env error: ");
                s.append(m.as_str());
            },
            Error::ParseErr(m) => {
                s.append("parse error: ");
                s.append(m.as_str());
            },
        }
        proof {
            assert(s@ =~= display_text(self@));
        }
        s
    }
}

} // verus!
