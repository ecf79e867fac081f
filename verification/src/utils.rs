//! Loading a descriptor: which format its file is in, and the expansion of
//! its variables.
//!
//! Reading the file and turning text into values is left to the caller. This
//! module decides the format from the file's extension, merges the variables
//! that the caller provides with those that the file declares, and expands
//! the descriptor with the result.

use crate::vars::{may_recurse, strict_rendering, ExpandError, Vars};
use vstd::prelude::*;

verus! {

/// The formats a descriptor can be written in.
#[derive(Clone, Copy, Debug, PartialEq, Eq, Structural)]
pub enum Format {
    Json,
    Yaml,
}

/// Why a descriptor could not be loaded.
#[derive(Debug)]
pub enum LoadError {
    /// The file's extension, which is none of `json`, `yml` and `yaml`.
    UnsupportedExtension(String),
    /// The file has no extension.
    MissingExtension,
    /// The descriptor could not be expanded.
    Expansion(ExpandError),
}

/// The format that an extension stands for.
pub open spec fn format_of(extension: Seq<char>) -> Option<Format> {
    if extension == "json"@ {
        Some(Format::Json)
    } else if extension == "yml"@ || extension == "yaml"@ {
        Some(Format::Yaml)
    } else {
        None
    }
}

fn same_text(a: &str, b: &str) -> (r: bool)
    ensures
        r == (a@ == b@),
{
    a.to_owned() == b.to_owned()
}

/// Chooses the format of a descriptor from the extension of its file:
/// `json` is JSON, `yml` and `yaml` are YAML. Any other extension is
/// reported together with its text, and so is the lack of one.
pub fn deserializer(extension: Option<&str>) -> (r: Result<Format, LoadError>)
    ensures
        match extension {
            Some(e) => match format_of(e@) {
                Some(format) => r == Ok::<Format, LoadError>(format),
                None => r matches Err(LoadError::UnsupportedExtension(text)) && text@ == e@,
            },
            None => r == Err::<Format, LoadError>(LoadError::MissingExtension),
        },
{
    match extension {
        Some(e) => {
            if same_text(e, "json") {
                Ok(Format::Json)
            } else if same_text(e, "yml") || same_text(e, "yaml") {
                Ok(Format::Yaml)
            } else {
                Err(LoadError::UnsupportedExtension(e.to_owned()))
            }
        },
        None => Err(LoadError::MissingExtension),
    }
}

/// Expands the descriptor read from a file. `extension` is that of the
/// file, `content` its text and `declared` the variables that the text
/// itself declares. The variables in `vars` are added to those and replace
/// them where both bind a name.
///
/// On success the result holds the format in which the expanded text is to
/// be parsed, that text, and the merged variables. The extension is looked
/// at first: where it is missing or unsupported, nothing is expanded. A
/// descriptor that includes a partial and can define one is refused, and
/// only such a one; any other is rendered, and a failure of the renderer is
/// handed on.
pub fn try_load_from_file(
    extension: Option<&str>,
    content: &str,
    declared: Vars,
    vars: Vars,
) -> (r: Result<(Format, String, Vars), LoadError>)
    ensures
        match extension {
            None => r == Err::<(Format, String, Vars), LoadError>(LoadError::MissingExtension),
            Some(e) => match format_of(e@) {
                None => r matches Err(LoadError::UnsupportedExtension(text)) && text@ == e@,
                Some(format) => {
                    let merged = declared@.union_prefer_right(vars@);
                    match r {
                        Ok((chosen, text, all)) => {
                            &&& chosen == format
                            &&& all@ == merged
                            &&& !may_recurse(content@)
                            &&& text@ == strict_rendering(content@, merged)
                        },
                        Err(LoadError::Expansion(ExpandError::PartialInclusion)) => may_recurse(
                            content@,
                        ),
                        Err(LoadError::Expansion(ExpandError::Render(_))) => !may_recurse(content@),
                        Err(_) => false,
                    }
                },
            },
        },
{
    let format = match deserializer(extension) {
        Ok(format) => format,
        Err(e) => {
            return Err(e);
        },
    };
    let merged = vars.merge_overwrite(declared);
    match merged.expand(content) {
        Ok(text) => Ok((format, text, merged)),
        Err(e) => Err(LoadError::Expansion(e)),
    }
}

} // verus!
