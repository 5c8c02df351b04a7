//! The external programs the tool can hand a compiled mod to, and how their
//! names are read and written.
use vstd::prelude::*;

use crate::text::{str_chars, str_eq, string_from_chars};

verus! {

/// A launchable engine program.
#[derive(Clone, Copy, PartialEq, Eq, Structural, Debug)]
pub enum Program {
    NS2,
    Editor,
}

/// The name each program goes by on the command line.
pub open spec fn spec_program_name(p: Program) -> Seq<char> {
    match p {
        Program::NS2 => "ns2"@,
        Program::Editor => "editor"@,
    }
}

impl Program {
    /// The program's command-line name.
    pub fn name(&self) -> (r: String)
        ensures
            r@ == spec_program_name(*self),
    {
        match self {
            Program::NS2 => {
                let v = str_chars("ns2");
                string_from_chars(v)
            },
            Program::Editor => {
                let v = str_chars("editor");
                string_from_chars(v)
            },
        }
    }

    /// Reads a program name; anything else names no program.
    pub fn parse_str(s: &str) -> (r: Option<Program>)
        ensures
            match r {
                Some(p) => s@ == spec_program_name(p),
                None => s@ != "ns2"@ && s@ != "editor"@,
            },
    {
        if str_eq(s, "ns2") {
            Some(Program::NS2)
        } else if str_eq(s, "editor") {
            Some(Program::Editor)
        } else {
            None
        }
    }
}

} // verus!
