//! Errors of code generation.

use vstd::prelude::*;

verus! {

/// A program that the backend rejects, with the reason.
#[derive(Debug)]
pub struct CompilerError {
    message: String,
}

impl CompilerError {
    /// The reason.
    pub closed spec fn text(&self) -> Seq<char> {
        self.message@
    }

    /// A code generation error.
    pub fn codegen_error(message: String) -> (r: Self)
        ensures
            r.text() == message@,
    {
        CompilerError { message }
    }

    /// The reason.
    pub fn message(&self) -> (r: &str)
        ensures
            r@ == self.text(),
    {
        self.message.as_str()
    }
}

/// What a function that can fail has come to: the reason of a failure as
/// text.
pub open spec fn outcome<T>(r: Result<T, CompilerError>) -> Result<T, Seq<char>> {
    match r {
        Ok(v) => Ok(v),
        Err(e) => Err(e.text()),
    }
}

/// A failure with the given reason.
pub fn fail<T>(message: &str) -> (r: Result<T, CompilerError>)
    ensures
        outcome(r) == Err::<T, Seq<char>>(message@),
{
    Err(CompilerError::codegen_error(message.to_owned()))
}

} // verus!
