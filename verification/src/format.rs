//! The formats of serialized data, and guessing one from a file name.
use vstd::prelude::*;

verus! {

/// Format of serialized data.
#[derive(Debug, Clone, Copy, PartialEq, Eq)]
pub enum Format {
    Csv,
    Json,
    Toml,
    Yaml,
}

/// The first MIME type that `mime_guess` associates with the extension of
/// `path` (case-insensitively), if any. A name for its static table.
pub uninterp spec fn path_mime(path: Seq<char>) -> Option<Seq<char>>;

/// Calls `mime_guess::from_path(path).first_raw()`: no disk access, only the
/// extension of `path` is looked up in a static table. The result is taken
/// to be `path_mime(path@)`; the table itself is not restated.
#[verifier::external_body]
fn mime_for_path(path: &str) -> (r: Option<String>)
    ensures
        match r {
            Some(m) => path_mime(path@) == Some(m@),
            None => path_mime(path@) is None,
        },
{
    mime_guess::from_path(path).first_raw().map(String::from)
}

/// The view of an optional text.
pub open spec fn opt_text(t: Option<&str>) -> Option<Seq<char>> {
    match t {
        Some(s) => Some(s@),
        None => None,
    }
}

/// The format that a MIME type stands for.
pub open spec fn format_for_mime(mime: Option<Seq<char>>) -> Option<Format> {
    match mime {
        Some(m) => if m == "application/json"@ {
            Some(Format::Json)
        } else if m == "text/csv"@ {
            Some(Format::Csv)
        } else if m == "text/x-toml"@ {
            Some(Format::Toml)
        } else if m == "text/x-yaml"@ {
            Some(Format::Yaml)
        } else {
            None
        },
        None => None,
    }
}

/// Each of the four formats is recognised by its own MIME type, and no
/// other MIME type (nor a path without one) gives a format.
pub proof fn law_format_for_each_mime(m: Seq<char>)
    ensures
        format_for_mime(Some(m)) == Some(Format::Json) <==> m == "application/json"@,
        format_for_mime(Some(m)) == Some(Format::Csv) <==> m == "text/csv"@,
        format_for_mime(Some(m)) == Some(Format::Toml) <==> m == "text/x-toml"@,
        format_for_mime(Some(m)) == Some(Format::Yaml) <==> m == "text/x-yaml"@,
        format_for_mime(None) is None,
{
    reveal_strlit("application/json");
    reveal_strlit("text/csv");
    reveal_strlit("text/x-toml");
    reveal_strlit("text/x-yaml");
    assert("application/json"@[0] != "text/csv"@[0]);
    assert("application/json"@[0] != "text/x-toml"@[0]);
    assert("application/json"@[0] != "text/x-yaml"@[0]);
    assert("text/csv"@.len() != "text/x-toml"@.len());
    assert("text/csv"@.len() != "text/x-yaml"@.len());
    assert("text/x-toml"@[7] != "text/x-yaml"@[7]);
}

impl Format {
    /// The format that the MIME type `mime` stands for, if any.
    pub fn from_mime(mime: Option<&str>) -> (r: Option<Self>)
        ensures
            r == format_for_mime(opt_text(mime)),
    {
        match mime {
            Some(m) => {
                let m = String::from_str(m);
                if m == String::from_str("application/json") {
                    Some(Self::Json)
                } else if m == String::from_str("text/csv") {
                    Some(Self::Csv)
                } else if m == String::from_str("text/x-toml") {
                    Some(Self::Toml)
                } else if m == String::from_str("text/x-yaml") {
                    Some(Self::Yaml)
                } else {
                    None
                }
            },
            None => None,
        }
    }

    /// The format that the extension of `path` suggests, if any.
    pub fn guess_from_path(path: &str) -> (r: Option<Self>)
        ensures
            r == format_for_mime(path_mime(path@)),
    {
        let mime = mime_for_path(path);
        match &mime {
            Some(m) => Self::from_mime(Some(m.as_str())),
            None => Self::from_mime(None),
        }
    }
}

} // verus!
