//! Syntax facts: source languages and the entities, comments and imports of a file.

use vstd::prelude::*;
use crate::text::{chars_of, text_is};

verus! {

/// A 1-based inclusive line range.
#[derive(Debug, Clone, Copy, PartialEq, Eq, Structural)]
pub struct Range {
    pub start_line: usize,
    pub end_line: usize,
}

/// A test entity found in a source file.
#[derive(Debug, Clone)]
pub struct Entity {
    pub name: String,
    pub symbol: String,
    pub range: Range,
    pub byte_start: usize,
    pub byte_end: usize,
    /// Annotation or decorator name and its full text, sorted by name, names unique.
    pub annotations: Vec<(String, String)>,
    pub body_digest: String,
    pub shape_digest: String,
}

/// A source comment.
#[derive(Debug, Clone)]
pub struct Comment {
    pub text: String,
    pub range: Range,
}

/// A source import.
#[derive(Debug, Clone)]
pub struct Import {
    pub text: String,
    pub range: Range,
}

/// The syntax facts of one file.
#[derive(Debug, Clone)]
pub struct Structure {
    pub language: String,
    pub tests: Vec<Entity>,
    pub comments: Vec<Comment>,
    pub imports: Vec<Import>,
}

/// What `std::path::Path::extension` gives for `path`, as text.
pub uninterp spec fn spec_path_extension(path: Seq<char>) -> Option<Seq<char>>;

/// `Path::new(path).extension()` converted to text: the part of the final file
/// name after its last `.`, or `None`. The result is named, not restated.
#[verifier::external_body]
fn path_extension(path: &str) -> (res: Option<String>)
    ensures
        res matches Some(e) ==> spec_path_extension(path@) == Some(e@),
        res is None ==> spec_path_extension(path@) is None,
{
    std::path::Path::new(path).extension().and_then(|e| e.to_str()).map(String::from)
}

/// The analyzed language that a file extension denotes.
pub open spec fn extension_language(ext: Seq<char>) -> Option<Seq<char>> {
    if ext == "java"@ {
        Some("java"@)
    } else if ext == "py"@ {
        Some("python"@)
    } else if ext == "ts"@ || ext == "tsx"@ || ext == "js"@ || ext == "jsx"@ || ext == "mjs"@
        || ext == "cjs"@ {
        Some("typescript"@)
    } else if ext == "go"@ {
        Some("go"@)
    } else if ext == "rs"@ {
        Some("rust"@)
    } else if ext == "sh"@ || ext == "bash"@ {
        Some("shell"@)
    } else {
        None
    }
}

/// The language of a file extension.
pub fn language_of_extension(ext: &str) -> (res: Option<&'static str>)
    ensures
        res matches Some(l) ==> extension_language(ext@) == Some(l@),
        res is None ==> extension_language(ext@) is None,
{
    let e = chars_of(ext);
    if text_is(&e, "java") {
        Some("java")
    } else if text_is(&e, "py") {
        Some("python")
    } else if text_is(&e, "ts") || text_is(&e, "tsx") || text_is(&e, "js") || text_is(&e, "jsx")
        || text_is(&e, "mjs") || text_is(&e, "cjs") {
        Some("typescript")
    } else if text_is(&e, "go") {
        Some("go")
    } else if text_is(&e, "rs") {
        Some("rust")
    } else if text_is(&e, "sh") || text_is(&e, "bash") {
        Some("shell")
    } else {
        None
    }
}

/// The language of a source path, from its extension.
pub open spec fn spec_language(path: Seq<char>) -> Option<Seq<char>> {
    match spec_path_extension(path) {
        Some(ext) => extension_language(ext),
        None => None,
    }
}

/// The analyzed language of `path`, or `None` for an unsupported file.
pub fn language(path: &str) -> (res: Option<&'static str>)
    ensures
        res matches Some(l) ==> spec_language(path@) == Some(l@),
        res is None ==> spec_language(path@) is None,
{
    match path_extension(path) {
        None => None,
        Some(ext) => language_of_extension(ext.as_str()),
    }
}

} // verus!
