//! Failures of registration and resolution.
use vstd::prelude::*;

verus! {

/// Why a registration or a resolution run failed.
#[derive(Debug)]
pub enum Error {
    /// The input ended, or broke the keyword sequence, while a macro still lacked
    /// required sections: the macro's name, the index of its first unmatched
    /// section, and the position of the last token consumed.
    UnterminatedMacro { name: String, section: usize, position: usize },
    /// A definition of this name is already registered.
    DuplicateMacroName { name: String },
}

/// The mathematical value of an error.
pub enum ErrorView {
    UnterminatedMacro { name: Seq<char>, section: nat, position: usize },
    DuplicateMacroName { name: Seq<char> },
}

impl View for Error {
    type V = ErrorView;

    open spec fn view(&self) -> ErrorView {
        match self {
            Error::UnterminatedMacro { name, section, position } => ErrorView::UnterminatedMacro {
                name: name@,
                section: *section as nat,
                position: *position,
            },
            Error::DuplicateMacroName { name } => ErrorView::DuplicateMacroName { name: name@ },
        }
    }
}

} // verus!
