//! The order of a compile: what is reported, and whether the result may
//! replace the cached module, given how each stage ended.

use vstd::prelude::*;
use crate::diagnostics::CompileError;

verus! {

/// How parsing ended.
#[derive(Debug)]
pub enum ParseOutcome {
    /// The whole text was parsed.
    Parsed,
    /// Syntax errors were found, but an expression was recovered.
    Recovered(CompileError),
    /// Nothing could be recovered.
    Failed(CompileError),
}

/// How a compile ended.
#[derive(Debug)]
pub struct CompileOutcome {
    /// Whether the compiled module replaces the cached one: only a compile
    /// without any error does.
    pub store_module: bool,
    /// What the diagnostics are made from.
    pub result: Result<(), CompileError>,
}

/// A compile under way: the errors of the stages that have run, in order.
pub struct CompileRun {
    errors: Vec<CompileError>,
}

impl View for CompileRun {
    type V = Seq<CompileError>;

    closed spec fn view(&self) -> Seq<CompileError> {
        self.errors@
    }
}

/// The errors that parsing leaves for the later stages to add to.
pub open spec fn spec_after_parse(outcome: ParseOutcome) -> Result<Seq<CompileError>, CompileError> {
    match outcome {
        ParseOutcome::Parsed => Ok(Seq::empty()),
        ParseOutcome::Recovered(error) => Ok(seq![error]),
        ParseOutcome::Failed(error) => Err(error),
    }
}

impl CompileRun {
    /// Begins with the outcome of parsing. A text from which nothing was
    /// recovered ends the compile at once with the syntax error. A
    /// recovered expression goes on to the later stages, so that their
    /// errors are reported beside the syntax error.
    pub fn after_parse(outcome: ParseOutcome) -> (next: Result<CompileRun, CompileError>)
        ensures
            match spec_after_parse(outcome) {
                Ok(errors) => next matches Ok(run) && run@ == errors,
                Err(error) => next matches Err(reported) && reported == error,
            },
    {
        match outcome {
            ParseOutcome::Parsed => Ok(CompileRun { errors: Vec::new() }),
            ParseOutcome::Recovered(error) => {
                let mut errors: Vec<CompileError> = Vec::new();
                errors.push(error);
                assert(errors@ =~= seq![error]);
                Ok(CompileRun { errors })
            },
            ParseOutcome::Failed(error) => Err(error),
        }
    }

    /// Takes in how macro expansion or type checking ended. The compile
    /// goes on either way.
    pub fn record(&mut self, error: Option<CompileError>)
        ensures
            final(self)@ == match error {
                Some(error) => old(self)@.push(error),
                None => old(self)@,
            },
    {
        match error {
            Some(error) => {
                self.errors.push(error);
            },
            None => {},
        }
    }

    /// Ends the compile with how registering the compiled value went. A
    /// failure there is the whole result. Else the compile succeeded if no
    /// stage reported an error, and failed with all their errors, in
    /// order, otherwise.
    pub fn finish(self, registered: Result<(), CompileError>) -> (outcome: CompileOutcome)
        ensures
            outcome.store_module == (registered is Ok && self@.len() == 0),
            match registered {
                Err(error) => outcome.result == Err::<(), CompileError>(error),
                Ok(_) => if self@.len() == 0 {
                    outcome.result is Ok
                } else {
                    outcome.result matches Err(CompileError::Multiple(reported)) && reported@
                        == self@
                },
            },
    {
        match registered {
            Err(error) => CompileOutcome { store_module: false, result: Err(error) },
            Ok(_) => {
                if self.errors.len() == 0 {
                    CompileOutcome { store_module: true, result: Ok(()) }
                } else {
                    CompileOutcome {
                        store_module: false,
                        result: Err(CompileError::Multiple(self.errors)),
                    }
                }
            },
        }
    }
}

} // verus!
