//! The profile loader: resolving a profile's configuration file path and
//! turning a configuration document into a profile.
//!
//! The TOML parse itself is the `toml` crate's work, behind trusted
//! declarations that only name what the parse yields.  The schema — exactly
//! the two fields `before` and `after`, each an array of strings, nothing
//! else — is validated here, verified against that model.

use vstd::prelude::*;
use vstd::string::StringExecFns;

use crate::config::RunConfig;
use crate::config::RunConfigSer;
use crate::errs::LoadError;
use crate::errs::ParseError;
use crate::strutil::str_eq;
use crate::strutil::toml_file_name;
use crate::strutil::with_toml_ext;

verus! {

#[verifier::external_type_specification]
#[verifier::external_body]
#[verifier::reject_recursive_types(K)]
#[verifier::reject_recursive_types(V)]
pub struct ExTomlMap<K, V>(toml::map::Map<K, V>);

#[verifier::external_type_specification]
#[verifier::external_body]
pub struct ExTomlValue(toml::Value);

/// What a parsed TOML document holds, as far as this library reads it:
/// each top-level key, mapped to the string array under it when its value
/// is an array of strings, and to `None` when it is any other value.
pub uninterp spec fn table_model(t: toml::Table) -> Map<Seq<char>, Option<Seq<Seq<char>>>>;

/// What a single TOML value holds, as far as this library reads it: its
/// string array, or `None` when it is not an array of strings.
pub uninterp spec fn value_model(v: toml::Value) -> Option<Seq<Seq<char>>>;

/// What parsing a text as a TOML document yields: `None` when the text is
/// not well-formed, otherwise the document's model.
pub uninterp spec fn toml_doc_of(text: Seq<char>) -> Option<
    Map<Seq<char>, Option<Seq<Seq<char>>>>,
>;

/// Relies on `str::parse::<toml::Table>` (the `toml` crate's document
/// parser): the result is a function of the text alone, and a failure's
/// message describes what went wrong.
#[verifier::external_body]
fn parse_toml_table(text: &str) -> (r: Result<toml::Table, String>)
    ensures
        r matches Ok(t) ==> toml_doc_of(text@) == Some(table_model(t)),
        r is Err ==> toml_doc_of(text@) is None,
{
    text.parse::<toml::Table>().map_err(|e| e.message().to_owned())
}

/// Relies on `toml::map::Map::iter`: every key/value pair of the table,
/// each of its keys exactly once.
#[verifier::external_body]
fn table_entries(t: &toml::Table) -> (r: Vec<(String, toml::Value)>)
    ensures
        forall|i: int|
            #![trigger r@[i]]
            0 <= i < r@.len() ==> table_model(*t).contains_key(r@[i].0@) && table_model(*t)[r@[i].0@]
                == value_model(r@[i].1),
        forall|k: Seq<char>|
            table_model(*t).contains_key(k) ==> exists|i: int|
                0 <= i < r@.len() && (#[trigger] r@[i]).0@ == k,
{
    t.iter().map(|(k, v)| (k.clone(), v.clone())).collect()
}

/// Relies on `toml::Value`'s variants: the string array a value holds, or
/// `None` when it is not an array whose every element is a string.
#[verifier::external_body]
fn value_string_array(v: &toml::Value) -> (r: Option<Vec<String>>)
    ensures
        r matches Some(ss) ==> value_model(*v) == Some(ss.deep_view()),
        r is None ==> value_model(*v) is None,
{
    match v {
        toml::Value::Array(items) => items.iter().map(
            |item: &toml::Value|
                match item {
                    toml::Value::String(s) => Some(s.clone()),
                    _ => None,
                },
        ).collect::<Option<Vec<String>>>(),
        _ => None,
    }
}

/// Relies on `dirs::config_dir`: the platform's user configuration
/// directory.  It depends on the environment, so nothing is promised of
/// the returned path.
#[verifier::external_body]
fn config_dir_path() -> Option<String> {
    dirs::config_dir().map(|p| p.to_string_lossy().into_owned())
}

/// The configuration file path for a profile name: some directory, the
/// fixed `unlocker` subdirectory, and the profile's file name.
pub open spec fn profile_path(dir: Seq<char>, name: Seq<char>) -> Seq<char> {
    dir + "/unlocker/"@ + with_toml_ext(name)
}

/// Resolve the path of a profile's configuration file under the platform's
/// user configuration directory.  Fails only when the platform provides no
/// such directory.
pub fn config_file_path(name: &str) -> (r: Result<String, LoadError>)
    ensures
        r matches Ok(p) ==> exists|d: Seq<char>| p@ == profile_path(d, name@),
        r matches Err(e) ==> e is NoConfigDir,
{
    match config_dir_path() {
        None => Err(LoadError::NoConfigDir),
        Some(dir) => {
            let ghost d = dir@;
            let file = toml_file_name(name);
            let path = dir.concat("/unlocker/").concat(file.as_str());
            proof {
                assert(path@ == profile_path(d, name@));
            }
            Ok(path)
        },
    }
}

/// The fixed schema of a configuration document: exactly the fields
/// `before` and `after`, each an array of strings.
pub open spec fn doc_is_valid(m: Map<Seq<char>, Option<Seq<Seq<char>>>>) -> bool {
    &&& m.contains_key("before"@) && m["before"@] is Some
    &&& m.contains_key("after"@) && m["after"@] is Some
    &&& forall|k: Seq<char>| m.contains_key(k) ==> k == "before"@ || k == "after"@
}

/// Which documents the rejection `e` accurately describes.
pub open spec fn rejection_fits(e: ParseError, text: Seq<char>) -> bool {
    match e {
        ParseError::Syntax(_) => toml_doc_of(text) is None,
        ParseError::UnknownField(f) => toml_doc_of(text) matches Some(m) && m.contains_key(f@)
            && f@ != "before"@ && f@ != "after"@,
        ParseError::MissingField(f) => toml_doc_of(text) matches Some(m) && !m.contains_key(f@)
            && (f@ == "before"@ || f@ == "after"@),
        ParseError::NotStringArray(f) => toml_doc_of(text) matches Some(m) && m.contains_key(f@)
            && m[f@] is None && (f@ == "before"@ || f@ == "after"@),
    }
}

/// Law: a document holding any field other than `before` and `after` never
/// meets the schema, whatever else it holds — so, by `parse_profile`'s
/// contract, such a document is always rejected.
pub proof fn lemma_unknown_field_rejected(m: Map<Seq<char>, Option<Seq<Seq<char>>>>, k: Seq<char>)
    requires
        m.contains_key(k),
        k != "before"@,
        k != "after"@,
    ensures
        !doc_is_valid(m),
{
}

/// Parse a profile's configuration document and stamp it with the
/// caller-supplied name.  Succeeds exactly on documents that meet the
/// schema; never defaults a missing field and never ignores an unknown
/// one.
pub fn parse_profile(name: String, text: &str) -> (r: Result<RunConfig, ParseError>)
    ensures
        (r is Ok) <==> (toml_doc_of(text@) matches Some(m) && doc_is_valid(m)),
        r matches Ok(cfg) ==> (toml_doc_of(text@) matches Some(m) && cfg@.name == name@
            && m["before"@] == Some(cfg@.before) && m["after"@] == Some(cfg@.after)),
        r matches Err(e) ==> rejection_fits(e, text@),
{
    let table = match parse_toml_table(text) {
        Ok(t) => t,
        Err(msg) => {
            return Err(ParseError::Syntax(msg));
        },
    };
    let ghost m = table_model(table);
    let entries = table_entries(&table);
    proof {
        reveal_strlit("before");
        reveal_strlit("after");
        assert("before"@.len() == 6);
        assert("after"@.len() == 5);
        assert("before"@ != "after"@);
    }
    let mut before_list: Option<Vec<String>> = None;
    let mut after_list: Option<Vec<String>> = None;
    let mut idx: usize = 0;
    while idx < entries.len()
        invariant
            0 <= idx <= entries@.len(),
            toml_doc_of(text@) == Some(m),
            "before"@ != "after"@,
            forall|i: int|
                #![trigger entries@[i]]
                0 <= i < entries@.len() ==> m.contains_key(entries@[i].0@) && m[entries@[i].0@]
                    == value_model(entries@[i].1),
            forall|k: Seq<char>|
                m.contains_key(k) ==> exists|i: int|
                    0 <= i < entries@.len() && (#[trigger] entries@[i]).0@ == k,
            forall|i: int|
                0 <= i < idx ==> ((#[trigger] entries@[i]).0@ == "before"@ || entries@[i].0@
                    == "after"@),
            match before_list {
                Some(ss) => m.contains_key("before"@) && m["before"@] == Some(ss.deep_view()),
                None => forall|i: int| 0 <= i < idx ==> (#[trigger] entries@[i]).0@ != "before"@,
            },
            match after_list {
                Some(ss) => m.contains_key("after"@) && m["after"@] == Some(ss.deep_view()),
                None => forall|i: int| 0 <= i < idx ==> (#[trigger] entries@[i]).0@ != "after"@,
            },
        decreases entries@.len() - idx,
    {
        let key_is_before = str_eq(entries[idx].0.as_str(), "before");
        let key_is_after = str_eq(entries[idx].0.as_str(), "after");
        if key_is_before {
            match value_string_array(&entries[idx].1) {
                Some(ss) => {
                    before_list = Some(ss);
                },
                None => {
                    return Err(ParseError::NotStringArray(entries[idx].0.clone()));
                },
            }
        } else if key_is_after {
            match value_string_array(&entries[idx].1) {
                Some(ss) => {
                    after_list = Some(ss);
                },
                None => {
                    return Err(ParseError::NotStringArray(entries[idx].0.clone()));
                },
            }
        } else {
            return Err(ParseError::UnknownField(entries[idx].0.clone()));
        }
        idx += 1;
    }
    let before_v = match before_list {
        Some(v) => v,
        None => {
            proof {
                assert(!m.contains_key("before"@)) by {
                    if m.contains_key("before"@) {
                        let i: int = choose|i: int|
                            0 <= i < entries@.len() && (#[trigger] entries@[i]).0@ == "before"@;
                        assert(entries@[i].0@ != "before"@);
                    }
                }
            }
            return Err(ParseError::MissingField("before".to_owned()));
        },
    };
    let after_v = match after_list {
        Some(v) => v,
        None => {
            proof {
                assert(!m.contains_key("after"@)) by {
                    if m.contains_key("after"@) {
                        let i: int = choose|i: int|
                            0 <= i < entries@.len() && (#[trigger] entries@[i]).0@ == "after"@;
                        assert(entries@[i].0@ != "after"@);
                    }
                }
            }
            return Err(ParseError::MissingField("after".to_owned()));
        },
    };
    let ser = RunConfigSer { before: before_v, after: after_v };
    let cfg = ser.fill(name);
    proof {
        assert forall|k: Seq<char>| m.contains_key(k) implies k == "before"@ || k == "after"@ by {
            let i: int = choose|i: int| 0 <= i < entries@.len() && (#[trigger] entries@[i]).0@ == k;
        }
        assert(doc_is_valid(m));
    }
    Ok(cfg)
}

} // verus!
