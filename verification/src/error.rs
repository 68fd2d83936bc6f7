use vstd::prelude::*;

verus! {

/// An error carrying the process exit code and a human readable message.
#[derive(Debug)]
pub struct CliError {
    pub code: i32,
    pub message: String,
}

/// The plain-value view of a result: the success value, or the exit code and
/// message of the error.
pub open spec fn outcome<T>(r: Result<T, CliError>) -> Result<T, (i32, Seq<char>)> {
    match r {
        Ok(v) => Ok(v),
        Err(e) => Err((e.code, e.message@)),
    }
}

impl CliError {
    pub fn new(code: i32, message: String) -> (e: Self)
        ensures
            e.code == code,
            e.message@ == message@,
    {
        CliError { code, message }
    }

    /// An error whose message is a fixed text.
    pub fn with_text(code: i32, message: &str) -> (e: Self)
        ensures
            e.code == code,
            e.message@ == message@,
    {
        CliError { code, message: String::from_str(message) }
    }
}

} // verus!
