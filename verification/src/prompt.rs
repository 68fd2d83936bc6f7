//! Prompt sources and the output overwrite policy.
use vstd::prelude::*;
use crate::error::{CliError, outcome};
use crate::text::{all_white, is_blank};

verus! {

/// A prompt file as read from disk: its path as displayed, and its text or
/// the reason it could not be read.
#[derive(Debug)]
pub struct PromptFile {
    pub path: String,
    pub content: Result<String, String>,
}

/// What `read_prompt` gives for a prompt file and an inline prompt text.
pub open spec fn prompt_outcome(file: Option<PromptFile>, text: Option<Seq<char>>) -> Result<
    Seq<char>,
    (i32, Seq<char>),
> {
    match (file, text) {
        (Some(_), Some(_)) => Err((2, "use either --prompt or --prompt-text, not both"@)),
        (Some(f), None) => match f.content {
            Err(e) => Err((3, f.path@ + ": "@ + e@)),
            Ok(c) => if all_white(c@) {
                Err((2, "prompt file is empty: "@ + f.path@))
            } else {
                Ok(c@)
            },
        },
        (None, Some(t)) => if all_white(t) {
            Err((2, "prompt is empty"@))
        } else {
            Ok(t)
        },
        (None, None) => Err((2, "prompt is required"@)),
    }
}

pub open spec fn text_view(t: Option<&str>) -> Option<Seq<char>> {
    match t {
        Some(s) => Some(s@),
        None => None,
    }
}

pub open spec fn string_outcome(r: Result<String, CliError>) -> Result<Seq<char>, (i32, Seq<char>)> {
    match r {
        Ok(s) => Ok(s@),
        Err(e) => Err((e.code, e.message@)),
    }
}

/// The prompt from exactly one of a file and an inline text. A prompt that
/// is empty or only white space is refused; any other is kept verbatim.
pub fn read_prompt(file: Option<PromptFile>, text: Option<&str>) -> (r: Result<String, CliError>)
    ensures
        string_outcome(r) == prompt_outcome(file, text_view(text)),
{
    match (file, text) {
        (Some(_), Some(_)) => Err(CliError::with_text(2, "use either --prompt or --prompt-text, not both")),
        (Some(f), None) => match f.content {
            Err(e) => {
                let mut m = f.path;
                m.append(": ");
                m.append(e.as_str());
                Err(CliError::new(3, m))
            },
            Ok(c) => {
                if is_blank(c.as_str()) {
                    let mut m = String::from_str("prompt file is empty: ");
                    m.append(f.path.as_str());
                    Err(CliError::new(2, m))
                } else {
                    Ok(c)
                }
            },
        },
        (None, Some(t)) => {
            if is_blank(t) {
                Err(CliError::with_text(2, "prompt is empty"))
            } else {
                Ok(String::from_str(t))
            }
        },
        (None, None) => Err(CliError::with_text(2, "prompt is required")),
    }
}

/// Outputs are fail-closed: an existing output is refused (exit code 4)
/// unless `--overwrite` is given.
pub fn check_output_available(path: &str, exists: bool, overwrite: bool) -> (r: Result<(), CliError>)
    ensures
        (exists && !overwrite) ==> outcome(r) == Err::<(), _>((4i32, "output exists: "@ + path@)),
        !(exists && !overwrite) ==> r is Ok,
{
    if exists && !overwrite {
        let mut m = String::from_str("output exists: ");
        m.append(path);
        return Err(CliError::new(4, m));
    }
    Ok(())
}

/// The same policy for an output directory.
pub fn check_output_dir_available(path: &str, exists: bool, overwrite: bool) -> (r: Result<(), CliError>)
    ensures
        (exists && !overwrite) ==> outcome(r) == Err::<(), _>((4i32, "output directory exists: "@ + path@)),
        !(exists && !overwrite) ==> r is Ok,
{
    if exists && !overwrite {
        let mut m = String::from_str("output directory exists: ");
        m.append(path);
        return Err(CliError::new(4, m));
    }
    Ok(())
}

} // verus!
