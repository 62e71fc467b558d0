//! The pipeline stage token: an externally defined phase identifier that a
//! transaction can be excluded from with `no-run:`. Parsable from a short
//! string and totally ordered, so it can serve as a set element.
use vstd::prelude::*;

use crate::text::str_eq;

verus! {

/// One phase of the transaction pipeline.
#[derive(Debug, Clone, Copy, PartialEq, Eq, Structural, PartialOrd, Ord, Hash)]
pub enum Stage {
    Compiler,
    Verifier,
    Serializer,
    Runtime,
}

/// The short token that names a stage.
pub open spec fn stage_token(st: Stage) -> Seq<char> {
    match st {
        Stage::Compiler => "compiler"@,
        Stage::Verifier => "verifier"@,
        Stage::Serializer => "serializer"@,
        Stage::Runtime => "runtime"@,
    }
}

/// The stage named by `s`, or `None` for an unrecognized token.
pub open spec fn stage_of(s: Seq<char>) -> Option<Stage> {
    if s == "compiler"@ {
        Some(Stage::Compiler)
    } else if s == "verifier"@ {
        Some(Stage::Verifier)
    } else if s == "serializer"@ {
        Some(Stage::Serializer)
    } else if s == "runtime"@ {
        Some(Stage::Runtime)
    } else {
        None
    }
}

impl Stage {
    /// Parses a stage token.
    pub fn parse(s: &str) -> (r: Option<Stage>)
        ensures
            r == stage_of(s@),
    {
        if str_eq(s, "compiler") {
            Some(Stage::Compiler)
        } else if str_eq(s, "verifier") {
            Some(Stage::Verifier)
        } else if str_eq(s, "serializer") {
            Some(Stage::Serializer)
        } else if str_eq(s, "runtime") {
            Some(Stage::Runtime)
        } else {
            None
        }
    }

    /// The token that names this stage.
    pub fn name(&self) -> (r: &'static str)
        ensures
            r@ == stage_token(*self),
    {
        match self {
            Stage::Compiler => "compiler",
            Stage::Verifier => "verifier",
            Stage::Serializer => "serializer",
            Stage::Runtime => "runtime",
        }
    }
}

} // verus!
