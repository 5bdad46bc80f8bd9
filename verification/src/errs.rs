//! The loader's error taxonomy.  Hook failures are not here: a hook that
//! exits non-zero is reported through the session's phase, not as an error.

use vstd::prelude::*;
use vstd::string::StringExecFns;

verus! {

/// Why a profile's configuration document was rejected.
#[derive(Debug)]
pub enum ParseError {
    /// The text is not well-formed TOML; holds the parser's description.
    Syntax(String),
    /// The named field is neither `before` nor `after`.
    UnknownField(String),
    /// The named required field is absent.
    MissingField(String),
    /// The named field's value is not an array of strings.
    NotStringArray(String),
}

/// Why a profile could not be loaded.  Any of these aborts the whole run
/// before any hook executes.
#[derive(Debug)]
pub enum LoadError {
    /// The platform provides no user configuration directory.
    NoConfigDir,
    /// The profile's file could not be read; holds a description.
    Io(String),
    /// The document was rejected.
    Parse(ParseError),
}

impl ParseError {
    /// A human-readable description of the rejection.
    pub fn message(&self) -> (r: String)
        ensures
            self matches ParseError::Syntax(d) ==> r@ == "invalid TOML: "@ + d@,
            self matches ParseError::UnknownField(f) ==> r@ == "unrecognized field `"@ + f@
                + "`"@,
            self matches ParseError::MissingField(f) ==> r@ == "missing field `"@ + f@ + "`"@,
            self matches ParseError::NotStringArray(f) ==> r@ == "field `"@ + f@
                + "` is not an array of strings"@,
    {
        match self {
            ParseError::Syntax(d) => "invalid TOML: ".to_owned().concat(d.as_str()),
            ParseError::UnknownField(f) => "unrecognized field `".to_owned().concat(
                f.as_str(),
            ).concat("`"),
            ParseError::MissingField(f) => "missing field `".to_owned().concat(f.as_str()).concat(
                "`",
            ),
            ParseError::NotStringArray(f) => "field `".to_owned().concat(f.as_str()).concat(
                "` is not an array of strings",
            ),
        }
    }
}

impl LoadError {
    /// A human-readable description of the failure.
    pub fn message(&self) -> (r: String)
        ensures
            self is NoConfigDir ==> r@ == "no user configuration directory is available"@,
            self matches LoadError::Io(d) ==> r@ == "cannot read the profile's file: "@ + d@,
            self matches LoadError::Parse(e) ==> (e matches ParseError::Syntax(d) ==> r@
                == "invalid TOML: "@ + d@),
    {
        match self {
            LoadError::NoConfigDir => "no user configuration directory is available".to_owned(),
            LoadError::Io(d) => "cannot read the profile's file: ".to_owned().concat(d.as_str()),
            LoadError::Parse(e) => e.message(),
        }
    }
}

} // verus!
