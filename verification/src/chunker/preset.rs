//! Which preset a file gets.

use crate::paths;
use crate::text;
use vstd::prelude::*;

verus! {

/// The lower-case form of a text, by Unicode's rules.
pub uninterp spec fn lowercase_of(s: Seq<char>) -> Seq<char>;

/// Wraps `str::to_lowercase`: the lower-case form depends on the text alone.
#[verifier::external_body]
fn to_lowercase(s: &str) -> (r: String)
    ensures
        r@ == lowercase_of(s@),
{
    s.to_lowercase()
}

/// Extensions of source code and data files.
pub open spec fn is_code_extension(e: Seq<char>) -> bool {
    ||| e == "rs"@
    ||| e == "py"@
    ||| e == "js"@
    ||| e == "mjs"@
    ||| e == "ts"@
    ||| e == "tsx"@
    ||| e == "json"@
    ||| e == "yaml"@
    ||| e == "yml"@
    ||| e == "toml"@
    ||| e == "lock"@
    ||| e == "c"@
    ||| e == "h"@
    ||| e == "cpp"@
    ||| e == "hpp"@
    ||| e == "go"@
    ||| e == "java"@
    ||| e == "rb"@
    ||| e == "php"@
    ||| e == "sh"@
    ||| e == "css"@
    ||| e == "scss"@
    ||| e == "sql"@
    ||| e == "csv"@
    ||| e == "xml"@
    ||| e == "ini"@
    ||| e == "cfg"@
    ||| e == "xlsx"@
    ||| e == "xls"@
}

/// Names of lockfiles.
pub open spec fn is_lockfile(name: Seq<char>) -> bool {
    ||| name == "Cargo.lock"@
    ||| name == "package-lock.json"@
    ||| name == "yarn.lock"@
    ||| name == "poetry.lock"@
    ||| name == "Gemfile.lock"@
}

/// The preset that a MIME type decides, if it does.
pub open spec fn preset_by_mime(mime: Option<Seq<char>>) -> Option<Seq<char>> {
    match mime {
        Some(m) => if m == "application/json"@ || text::starts_with(m, "text/x-"@) {
            Some("code"@)
        } else if m == "text/plain"@ {
            Some("prose"@)
        } else {
            None
        },
        None => None,
    }
}

/// The preset of a file by its MIME type, its name and its lower-case extension, in that
/// order; prose where nothing decides.
pub open spec fn preset_of_parts(
    name: Option<Seq<char>>,
    extension: Option<Seq<char>>,
    mime: Option<Seq<char>>,
) -> Seq<char> {
    match preset_by_mime(mime) {
        Some(p) => p,
        None => if (name matches Some(n) && is_lockfile(n)) || (extension matches Some(e)
            && is_code_extension(e)) {
            "code"@
        } else {
            "prose"@
        },
    }
}

/// The preset of a file.
pub open spec fn preset_of(filename: Option<Seq<char>>, mime: Option<Seq<char>>) -> Seq<char> {
    match filename {
        Some(f) => preset_of_parts(
            match paths::file_name(f) {
                Some(n) => Some(n),
                None => Some(f),
            },
            match paths::extension(f) {
                Some(e) => Some(lowercase_of(e)),
                None => None,
            },
            mime,
        ),
        None => preset_of_parts(None, None, mime),
    }
}

fn code_extension(e: &str) -> (r: bool)
    ensures
        r == is_code_extension(e@),
{
    text::str_eq(e, "rs") || text::str_eq(e, "py") || text::str_eq(e, "js") || text::str_eq(e, "mjs") || text::str_eq(e, "ts") || text::str_eq(e, "tsx") || text::str_eq(e, "json") || text::str_eq(e, "yaml") || text::str_eq(e, "yml") || text::str_eq(e, "toml") || text::str_eq(e, "lock") || text::str_eq(e, "c") || text::str_eq(e, "h") || text::str_eq(e, "cpp") || text::str_eq(e, "hpp") || text::str_eq(e, "go") || text::str_eq(e, "java") || text::str_eq(e, "rb") || text::str_eq(e, "php") || text::str_eq(e, "sh") || text::str_eq(e, "css") || text::str_eq(e, "scss") || text::str_eq(e, "sql") || text::str_eq(e, "csv") || text::str_eq(e, "xml") || text::str_eq(e, "ini") || text::str_eq(e, "cfg") || text::str_eq(e, "xlsx") || text::str_eq(e, "xls")
}

fn lockfile(name: &str) -> (r: bool)
    ensures
        r == is_lockfile(name@),
{
    text::str_eq(name, "Cargo.lock") || text::str_eq(name, "package-lock.json") || text::str_eq(name, "yarn.lock") || text::str_eq(name, "poetry.lock") || text::str_eq(name, "Gemfile.lock")
}

/// The preset of a file by its MIME type, its name and its lower-case extension.
pub fn preset_for_parts(name: Option<&str>, extension: Option<&str>, mime: Option<&str>) -> (r:
    &'static str)
    ensures
        r@ == preset_of_parts(
            text::opt_str_view(name),
            text::opt_str_view(extension),
            text::opt_str_view(mime),
        ),
{
    if let Some(m) = mime {
        if text::str_eq(m, "application/json") || text::str_has_prefix(m, "text/x-") {
            return "code";
        }
        if text::str_eq(m, "text/plain") {
            return "prose";
        }
    }
    if let Some(n) = name {
        if lockfile(n) {
            return "code";
        }
    }
    if let Some(e) = extension {
        if code_extension(e) {
            return "code";
        }
    }
    "prose"
}

/// Classifies a file as `code` or `prose` by its MIME type, then by the names of lockfiles,
/// then by its extension; prose where nothing matches.
pub fn preset_for(filename: Option<&str>, mime: Option<&str>) -> (r: &'static str)
    ensures
        r@ == preset_of(text::opt_str_view(filename), text::opt_str_view(mime)),
{
    match filename {
        Some(f) => {
            let name = match paths::file_name_of(f) {
                Some(n) => n,
                None => f.to_owned(),
            };
            match paths::extension_of(f) {
                Some(e) => {
                    let lowered = to_lowercase(e.as_str());
                    preset_for_parts(Some(name.as_str()), Some(lowered.as_str()), mime)
                },
                None => preset_for_parts(Some(name.as_str()), None, mime),
            }
        },
        None => preset_for_parts(None, None, mime),
    }
}

} // verus!
