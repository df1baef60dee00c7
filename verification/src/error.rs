//! What can go wrong.
use vstd::prelude::*;

verus! {

/// Why an operation of the package manager failed.
#[derive(Debug)]
pub enum Error {
    StoreCorruption { message: String },
    NetworkFailure { message: String },
    MissingFormula { name: String },
    NotInstalled { name: String },
    FormulaParseError { message: String },
}

/// Model of an [`Error`].
pub enum ErrorView {
    StoreCorruption { message: Seq<char> },
    NetworkFailure { message: Seq<char> },
    MissingFormula { name: Seq<char> },
    NotInstalled { name: Seq<char> },
    FormulaParseError { message: Seq<char> },
}

impl Error {
    pub open spec fn view(&self) -> ErrorView {
        match self {
            Error::StoreCorruption { message } => ErrorView::StoreCorruption { message: message@ },
            Error::NetworkFailure { message } => ErrorView::NetworkFailure { message: message@ },
            Error::MissingFormula { name } => ErrorView::MissingFormula { name: name@ },
            Error::NotInstalled { name } => ErrorView::NotInstalled { name: name@ },
            Error::FormulaParseError { message } => ErrorView::FormulaParseError {
                message: message@,
            },
        }
    }
}

/// The first failure among some results, where there is one.
pub open spec fn first_failure<T>(results: Seq<Result<T, Error>>) -> Option<ErrorView>
    decreases results.len(),
{
    if results.len() == 0 {
        None
    } else {
        match results[0] {
            Err(e) => Some(e@),
            Ok(_) => first_failure(results.skip(1)),
        }
    }
}

/// The first failure among some results is the one with none before it.
pub proof fn law_first_failure<T>(results: Seq<Result<T, Error>>, i: int)
    requires
        0 <= i < results.len(),
        results[i] is Err,
        forall|j: int| 0 <= j < i ==> (#[trigger] results[j]) is Ok,
    ensures
        first_failure(results) == Some(results[i]->Err_0@),
    decreases results.len(),
{
    if i > 0 {
        let rest = results.skip(1);
        assert(results[0] is Ok);
        assert forall|j: int| 0 <= j < i - 1 implies (#[trigger] rest[j]) is Ok by {
            assert(results[j + 1] is Ok);
        }
        law_first_failure(rest, i - 1);
    }
}

/// Where nothing failed, there is no failure.
pub proof fn law_no_failure<T>(results: Seq<Result<T, Error>>)
    requires
        forall|j: int| 0 <= j < results.len() ==> (#[trigger] results[j]) is Ok,
    ensures
        first_failure(results) is None,
    decreases results.len(),
{
    if results.len() > 0 {
        let rest = results.skip(1);
        assert(results[0] is Ok);
        assert forall|j: int| 0 <= j < rest.len() implies (#[trigger] rest[j]) is Ok by {
            assert(results[j + 1] is Ok);
        }
        law_no_failure(rest);
    }
}

/// The model of an error is of its kind and holds its text.
pub proof fn law_error_model(e: Error)
    ensures
        match e {
            Error::StoreCorruption { message } => e@ == (ErrorView::StoreCorruption {
                message: message@,
            }),
            Error::NetworkFailure { message } => e@ == (ErrorView::NetworkFailure {
                message: message@,
            }),
            Error::MissingFormula { name } => e@ == (ErrorView::MissingFormula { name: name@ }),
            Error::NotInstalled { name } => e@ == (ErrorView::NotInstalled { name: name@ }),
            Error::FormulaParseError { message } => e@ == (ErrorView::FormulaParseError {
                message: message@,
            }),
        },
{
}

} // verus!
