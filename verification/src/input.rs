//! The input read from a file or standard input, and the format to read it in.
use vstd::prelude::*;

use crate::format::{format_for_mime, path_mime, Format};

verus! {

/// Where the serialized data came from, with its full contents.
#[derive(Debug)]
pub enum Input {
    /// Data read from standard input.
    Stdin(String),
    /// Data read from a file: the file's path and its contents.
    File(String, String),
}

/// The format guessed for an input: from a file's extension; none for stdin.
pub open spec fn guessed_format(input: Input) -> Option<Format> {
    match input {
        Input::Stdin(_) => None,
        Input::File(path, _) => format_for_mime(path_mime(path@)),
    }
}

/// The format used for an input: the one asked for, else the guessed one,
/// else JSON.
pub open spec fn chosen_format(input: Input, explicit: Option<Format>) -> Format {
    match explicit {
        Some(f) => f,
        None => match guessed_format(input) {
            Some(g) => g,
            None => Format::Json,
        },
    }
}

impl Input {
    /// The contents of the input.
    pub open spec fn spec_contents(&self) -> Seq<char> {
        match self {
            Input::Stdin(contents) => contents@,
            Input::File(_path, contents) => contents@,
        }
    }

    /// The format that the file extension suggests; `None` for stdin.
    pub fn guess_format(&self) -> (r: Option<Format>)
        ensures
            r == guessed_format(*self),
    {
        match self {
            Input::File(path, _file) => Format::guess_from_path(path.as_str()),
            _ => None,
        }
    }

    /// The contents of the input.
    pub fn contents(&self) -> (r: &str)
        ensures
            r@ == self.spec_contents(),
    {
        match self {
            Input::Stdin(contents) => contents.as_str(),
            Input::File(_path, contents) => contents.as_str(),
        }
    }

    /// The format to read this input in: `explicit` if given, else the
    /// guessed one, else JSON.
    pub fn choose_format(&self, explicit: Option<Format>) -> (r: Format)
        ensures
            r == chosen_format(*self, explicit),
    {
        match explicit {
            Some(f) => f,
            None => match self.guess_format() {
                Some(g) => g,
                None => Format::Json,
            },
        }
    }
}

/// A format given explicitly is always the one used.
pub proof fn law_explicit_format_wins(input: Input, format: Format)
    ensures
        chosen_format(input, Some(format)) == format,
{
}

/// Data from standard input, with no format given, is read as JSON.
pub proof fn law_stdin_defaults_to_json(contents: String)
    ensures
        chosen_format(Input::Stdin(contents), None) == Format::Json,
{
}

/// With no format given, the format guessed from the input is used
/// whenever there is one, and JSON only when there is none.
pub proof fn law_guessed_format_is_used(input: Input)
    ensures
        guessed_format(input) matches Some(g) ==> chosen_format(input, None) == g,
        guessed_format(input) is None ==> chosen_format(input, None) == Format::Json,
{
}

} // verus!
