//! What can go wrong, and how the contracts speak of it.

use vstd::prelude::*;

verus! {

/// A declared variable that no source gives a value, with the hint to show for it.
#[derive(Debug, Clone, PartialEq, Eq)]
pub struct MissingVar {
    /// The name of the variable.
    pub name: String,
    /// The hint of a declaration of it, or `(missing)` where none gives one.
    pub hint: String,
}

/// The errors of this library.
#[derive(Debug, Clone, PartialEq, Eq)]
pub enum EnvInventoryError {
    /// The settings file at this path could not be read.
    ReadFileError(String),
    /// The settings file at this path could not be parsed.
    ParseFileError(String),
    /// These declared variables have no value: all of them, sorted by name, each once.
    MissingEnvVars(Vec<MissingVar>),
    /// A value could not be expanded; the text says which variable it refers to.
    MissingEnvVar(String),
}

/// An error over plain text.
pub enum ErrorView {
    ReadFileError(Seq<char>),
    ParseFileError(Seq<char>),
    MissingEnvVars(Seq<(Seq<char>, Seq<char>)>),
    MissingEnvVar(Seq<char>),
}

/// The names and hints of a list of missing variables.
pub open spec fn report_of(missing: Seq<MissingVar>) -> Seq<(Seq<char>, Seq<char>)> {
    Seq::new(missing.len(), |i: int| (missing[i].name@, missing[i].hint@))
}

impl View for EnvInventoryError {
    type V = ErrorView;

    open spec fn view(&self) -> ErrorView {
        match self {
            EnvInventoryError::ReadFileError(path) => ErrorView::ReadFileError(path@),
            EnvInventoryError::ParseFileError(path) => ErrorView::ParseFileError(path@),
            EnvInventoryError::MissingEnvVars(missing) => ErrorView::MissingEnvVars(
                report_of(missing@),
            ),
            EnvInventoryError::MissingEnvVar(text) => ErrorView::MissingEnvVar(text@),
        }
    }
}

} // verus!
