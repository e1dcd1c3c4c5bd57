use vstd::prelude::*;

use crate::scanner::{spec_str_eq_ci, str_eq_ci};
use crate::text::{chars_to_bytes, contains_cs, spec_char_codes, spec_contains_cs};
use vstd::utf8::encode_utf8;

verus! {

/// The markup holds the ASCII token `p`, byte for byte.
pub open spec fn spec_has_mark(c: Seq<u8>, p: Seq<char>) -> bool {
    spec_contains_cs(c, spec_char_codes(p))
}

/// Whether the markup holds the ASCII token `pat`, byte for byte.
fn has_mark(content: &Vec<u8>, pat: &str) -> (r: bool)
    ensures
        r == spec_has_mark(content@, pat@),
{
    contains_cs(content.as_slice(), chars_to_bytes(pat).as_slice())
}

/// A document declares the enhanced namespace or the enhanced marker.
pub open spec fn spec_is_sview_enhanced(c: Seq<u8>) -> bool {
    spec_has_mark(c, "xmlns:sview="@) || spec_has_mark(c, "sview:enhanced="@)
}

/// Whether a document declares itself enhanced.
pub fn is_sview_enhanced(content: &Vec<u8>) -> (r: bool)
    ensures
        r == spec_is_sview_enhanced(content@),
{
    has_mark(content, "xmlns:sview=") || has_mark(content, "sview:enhanced=")
}

/// What an enhanced document declares of itself.
pub struct SviewMetadata {
    pub version: String,
    pub memory_enabled: bool,
    pub pwa_capable: bool,
    pub interactive: bool,
}

/// Reads the declarations out of enhanced markup: the marker tokens
/// decide each capability; the version is the one this grammar knows.
pub fn extract_sview_metadata(content: &Vec<u8>) -> (r: SviewMetadata)
    ensures
        r.version@ == "1.0"@,
        r.memory_enabled == spec_has_mark(content@, "memory:system"@),
        r.pwa_capable == (spec_has_mark(content@, "manifest"@) || spec_has_mark(
            content@,
            "service-worker"@,
        )),
        r.interactive == (spec_has_mark(content@, "interactive="@) || spec_has_mark(
            content@,
            "onclick"@,
        )),
{
    SviewMetadata {
        version: "1.0".to_owned(),
        memory_enabled: has_mark(content, "memory:system"),
        pwa_capable: has_mark(content, "manifest") || has_mark(content, "service-worker"),
        interactive: has_mark(content, "interactive=") || has_mark(content, "onclick"),
    }
}

/// The one-glyph thumbnail of a document, from its markup tokens in a
/// fixed priority order.
pub open spec fn spec_thumbnail_icon(c: Seq<u8>) -> Seq<char> {
    if spec_has_mark(c, "<circle"@) {
        "\u{1f535}"@
    } else if spec_has_mark(c, "<rect"@) {
        "\u{1f7ea}"@
    } else if spec_has_mark(c, "<path"@) {
        "\u{1f3a8}"@
    } else if spec_has_mark(c, "interactive"@) || spec_has_mark(c, "script"@) {
        "\u{26a1}"@
    } else if spec_has_mark(c, "sview:"@) {
        "\u{1f9e0}"@
    } else if spec_has_mark(c, "text"@) {
        "\u{1f4c4}"@
    } else if spec_has_mark(c, "image"@) {
        "\u{1f5bc}\u{fe0f}"@
    } else {
        "\u{1f4ca}"@
    }
}

/// The one-glyph thumbnail of a document.
pub fn generate_utf_thumbnail(content: &Vec<u8>) -> (r: &'static str)
    ensures
        r@ == spec_thumbnail_icon(content@),
{
    if has_mark(content, "<circle") {
        "\u{1f535}"
    } else if has_mark(content, "<rect") {
        "\u{1f7ea}"
    } else if has_mark(content, "<path") {
        "\u{1f3a8}"
    } else if has_mark(content, "interactive") || has_mark(content, "script") {
        "\u{26a1}"
    } else if has_mark(content, "sview:") {
        "\u{1f9e0}"
    } else if has_mark(content, "text") {
        "\u{1f4c4}"
    } else if has_mark(content, "image") {
        "\u{1f5bc}\u{fe0f}"
    } else {
        "\u{1f4ca}"
    }
}

/// How a snippet in a given language is run: through which
/// interpreter, or by building it first, or not at all.
#[derive(Clone, Copy, Debug, PartialEq, Eq, Structural)]
pub enum ExecPlan {
    Node,
    Python,
    RustBuild,
    Unsupported,
}

/// A language name names a plan, in any ASCII case.
pub open spec fn spec_exec_plan(lang: Seq<u8>) -> ExecPlan {
    if spec_str_eq_ci(lang, encode_utf8("javascript"@)) || spec_str_eq_ci(
        lang,
        encode_utf8("js"@),
    ) {
        ExecPlan::Node
    } else if spec_str_eq_ci(lang, encode_utf8("python"@)) || spec_str_eq_ci(
        lang,
        encode_utf8("py"@),
    ) {
        ExecPlan::Python
    } else if spec_str_eq_ci(lang, encode_utf8("rust"@)) || spec_str_eq_ci(
        lang,
        encode_utf8("rs"@),
    ) {
        ExecPlan::RustBuild
    } else {
        ExecPlan::Unsupported
    }
}

/// The plan a language name stands for.
pub fn exec_plan(language: &str) -> (r: ExecPlan)
    ensures
        r == spec_exec_plan(vstd::utf8::encode_utf8(language@)),
{
    if str_eq_ci(language, "javascript") || str_eq_ci(language, "js") {
        ExecPlan::Node
    } else if str_eq_ci(language, "python") || str_eq_ci(language, "py") {
        ExecPlan::Python
    } else if str_eq_ci(language, "rust") || str_eq_ci(language, "rs") {
        ExecPlan::RustBuild
    } else {
        ExecPlan::Unsupported
    }
}

} // verus!
