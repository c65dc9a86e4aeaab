//! The assembler: from a program text to its measurement log.

use crate::complex::Scalar;
use crate::executor::{ErrorView, RunTimeError};
use crate::matrix::Matrix;
use crate::parser::{ParseError, ParseErrorView};
use crate::table::Table;
use vstd::prelude::*;

verus! {

/// Why a program text gave no measurement log.
#[derive(Debug, PartialEq)]
pub enum QuantumSimError {
    RuntimeError(RunTimeError),
    ParseError(ParseError),
}

/// What an error of the assembler says.
pub enum SimErrorView {
    RuntimeError(ErrorView),
    ParseError(ParseErrorView),
}

impl View for QuantumSimError {
    type V = SimErrorView;

    open spec fn view(&self) -> SimErrorView {
        match self {
            QuantumSimError::RuntimeError(e) => SimErrorView::RuntimeError(e@),
            QuantumSimError::ParseError(e) => SimErrorView::ParseError(e@),
        }
    }
}

impl QuantumSimError {
    /// The error as a line of text.
    pub fn to_string(&self) -> (s: String)
        ensures
            s@ == match self@ {
                SimErrorView::RuntimeError(ErrorView::SyntaxError(reason)) => "Syntax error: "@
                    + reason,
                SimErrorView::ParseError(ParseErrorView::SyntaxError(reason)) => "Syntax error: "@
                    + reason,
                _ => "Not implemented"@,
            },
    {
        match self {
            QuantumSimError::RuntimeError(e) => e.to_string(),
            QuantumSimError::ParseError(e) => e.to_string(),
        }
    }
}

/// The measurement log of a program text with the given draws: the text is
/// parsed, and the program is run.
pub open spec fn spec_run<T: Scalar>(text: Seq<char>, draws: Seq<u128>) -> Result<
    Map<Seq<char>, (Seq<Seq<T>>, Seq<char>)>,
    SimErrorView,
> {
    match crate::parser::spec_parse(text) {
        Err(e) => Err(SimErrorView::ParseError(e)),
        Ok(nodes) => match crate::executor::spec_execute::<T>(nodes, draws) {
            Ok(log) => Ok(log),
            Err(e) => Err(SimErrorView::RuntimeError(e)),
        },
    }
}

/// The view of the outcome of a run of a program text.
pub open spec fn sim_result<T>(r: Result<Table<(Matrix<T>, String)>, QuantumSimError>) -> Result<
    Map<Seq<char>, (Seq<Seq<T>>, Seq<char>)>,
    SimErrorView,
> {
    match r {
        Ok(log) => Ok(crate::executor::log_view(log@)),
        Err(e) => Err(e@),
    }
}

/// The outcome of a run of a program text for an outcome of the run of its
/// statements.
pub open spec fn run_outcome<T>(log: Result<Map<Seq<char>, (Seq<Seq<T>>, Seq<char>)>, ErrorView>)
    -> Result<Map<Seq<char>, (Seq<Seq<T>>, Seq<char>)>, SimErrorView> {
    match log {
        Ok(found) => Ok(found),
        Err(e) => Err(SimErrorView::RuntimeError(e)),
    }
}

/// `r` is a result of a run of a program text with the given draws: the
/// parse error of the text, if it has one, and otherwise a result of the
/// run of its statements.
pub open spec fn run_gives<T: Scalar>(
    text: Seq<char>,
    draws: Seq<u128>,
    r: Result<Map<Seq<char>, (Seq<Seq<T>>, Seq<char>)>, SimErrorView>,
) -> bool {
    match crate::parser::spec_parse(text) {
        Err(e) => r == Err::<Map<Seq<char>, (Seq<Seq<T>>, Seq<char>)>, SimErrorView>(
            SimErrorView::ParseError(e),
        ),
        Ok(nodes) => exists|log: Result<Map<Seq<char>, (Seq<Seq<T>>, Seq<char>)>, ErrorView>|
         #[trigger] crate::outcomes::execute_gives(nodes, draws, log) && r == run_outcome(log),
    }
}

/// Runs a program text with the given draws for its measurements.
pub fn run_with<T: Scalar>(input: String, draws: Vec<u128>) -> (r: Result<
    Table<(Matrix<T>, String)>,
    QuantumSimError,
>)
    ensures
        r matches Ok(log) ==> log.wf(),
        run_gives(input@, draws@, sim_result(r)),
        T::exact() ==> sim_result(r) == spec_run::<T>(input@, draws@),
{
    let ast = match crate::parser::parse(input) {
        Ok(ast) => ast,
        Err(e) => {
            return Err(QuantumSimError::ParseError(e));
        },
    };
    let ghost nodes = crate::parser::ast_view(ast@);
    let inner = crate::executor::execute_script_with::<T>(ast, draws);
    let ghost log = crate::executor::run_result(inner);
    let r = match inner {
        Ok(log) => Ok(log),
        Err(e) => Err(QuantumSimError::RuntimeError(e)),
    };
    assert(crate::outcomes::execute_gives(nodes, draws@, log) && sim_result(r) == run_outcome(log));
    r
}

/// Runs a program text. The outcomes of the measurements are drawn at random.
pub fn run<T: Scalar>(input: String) -> (r: Result<Table<(Matrix<T>, String)>, QuantumSimError>)
    ensures
        r matches Ok(log) ==> log.wf(),
        exists|draws: Seq<u128>| #[trigger] run_gives(input@, draws, sim_result(r)),
        T::exact() ==> exists|draws: Seq<u128>| sim_result(r) == #[trigger] spec_run::<T>(
            input@,
            draws,
        ),
{
    let ast = match crate::parser::parse(input) {
        Ok(ast) => ast,
        Err(e) => {
            let r = Err(QuantumSimError::ParseError(e));
            assert(T::exact() ==> sim_result::<T>(r) == spec_run::<T>(input@, Seq::empty()));
            assert(run_gives(input@, Seq::empty(), sim_result::<T>(r)));
            return r;
        },
    };
    let ghost nodes = crate::parser::ast_view(ast@);
    let inner = crate::executor::execute_script::<T>(ast);
    let ghost log = crate::executor::run_result(inner);
    let ghost witness = choose|draws: Seq<u128>|
        crate::executor::run_result(inner) == #[trigger] crate::executor::spec_execute::<T>(
            nodes,
            draws,
        );
    let ghost taken = choose|draws: Seq<u128>| #[trigger]
        crate::outcomes::execute_gives(nodes, draws, log);
    let r = match inner {
        Ok(log) => Ok(log),
        Err(e) => Err(QuantumSimError::RuntimeError(e)),
    };
    assert(T::exact() ==> sim_result(r) == spec_run::<T>(input@, witness));
    assert(crate::outcomes::execute_gives(nodes, taken, log) && sim_result(r) == run_outcome(log));
    assert(run_gives(input@, taken, sim_result(r)));
    r
}

} // verus!
