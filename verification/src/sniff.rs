use vstd::prelude::*;

use crate::text::{chars_to_bytes, contains_ci, spec_char_codes, spec_contains_ci};
use vstd::string::StringSliceAdditionalSpecFns;

verus! {

/// The haystack holds the ASCII token `p`, compared without regard to case.
pub open spec fn spec_has_token(h: Seq<u8>, p: Seq<char>) -> bool {
    spec_contains_ci(h, spec_char_codes(p))
}

/// The glyph chosen for a file name, from keyword heuristics alone;
/// `None` when no keyword occurs in the name.
pub open spec fn spec_name_icon(n: Seq<u8>) -> Option<Seq<char>> {
    if spec_has_token(n, "logo"@) || spec_has_token(n, "brand"@) {
        Some("\u{1f192}"@)
    } else if spec_has_token(n, "icon"@) {
        Some("\u{1f6e0}\u{fe0f}"@)
    } else if spec_has_token(n, "diagram"@) || spec_has_token(n, "chart"@) {
        Some("\u{1f4ca}"@)
    } else if spec_has_token(n, "graph"@) {
        Some("\u{1f4c8}"@)
    } else if spec_has_token(n, "user"@) || spec_has_token(n, "profile"@) {
        Some("\u{1f464}"@)
    } else if spec_has_token(n, "home"@) {
        Some("\u{1f3e0}"@)
    } else if spec_has_token(n, "folder"@) || spec_has_token(n, "directory"@) {
        Some("\u{1f4c1}"@)
    } else if spec_has_token(n, "document"@) || spec_has_token(n, "file"@) {
        Some("\u{1f4c4}"@)
    } else if spec_has_token(n, "image"@) || spec_has_token(n, "picture"@) || spec_has_token(
        n,
        "photo"@,
    ) {
        Some("\u{1f5bc}\u{fe0f}"@)
    } else if spec_has_token(n, "download"@) || spec_has_token(n, "upload"@) {
        Some("\u{1f4e5}"@)
    } else if spec_has_token(n, "settings"@) || spec_has_token(n, "preferences"@) {
        Some("\u{2699}\u{fe0f}"@)
    } else if spec_has_token(n, "search"@) || spec_has_token(n, "find"@) {
        Some("\u{1f50d}"@)
    } else {
        None
    }
}

/// The glyph chosen for raw markup: one generic glyph when no `<svg` root
/// occurs at all, a shape glyph for the first recognised element class in
/// a fixed priority order, and a different generic glyph when a root
/// exists but no recognised element does.
pub open spec fn spec_content_icon(c: Seq<u8>) -> Seq<char> {
    if !spec_has_token(c, "<svg"@) {
        "\u{2753}"@
    } else if spec_has_token(c, "<circle"@) || spec_has_token(c, "<ellipse"@) {
        "\u{2b55}"@
    } else if spec_has_token(c, "<rect"@) || spec_has_token(c, "<polygon"@) {
        "\u{2b1c}"@
    } else if spec_has_token(c, "<path"@) {
        "\u{1f537}"@
    } else if spec_has_token(c, "<text"@) || spec_has_token(c, "<tspan"@) {
        "\u{1f524}"@
    } else if spec_has_token(c, "<image"@) {
        "\u{1f5bc}\u{fe0f} "@
    } else {
        "\u{1f5b1}\u{fe0f} "@
    }
}

/// The glyph the sniffer settles on: the file-name heuristic first, as a
/// best-effort shortcut, then the markup classification.
pub open spec fn spec_sniff_icon(n: Seq<u8>, c: Seq<u8>) -> Seq<char> {
    match spec_name_icon(n) {
        Some(s) => s,
        None => spec_content_icon(c),
    }
}

/// Whether the ASCII token `pat` occurs in `hay`, without regard to case.
fn has_token(hay: &Vec<u8>, pat: &str) -> (r: bool)
    ensures
        r == spec_has_token(hay@, pat@),
{
    contains_ci(hay.as_slice(), chars_to_bytes(pat).as_slice())
}

/// Classifies a file name (its stem, as handed by the caller) by the
/// keywords it holds, without touching the file's contents.
pub fn name_icon(name: &str) -> (r: Option<&'static str>)
    ensures
        match r {
            Some(s) => spec_name_icon(name.spec_bytes()) == Some(s@),
            None => spec_name_icon(name.spec_bytes()) is None,
        },
{
    let nb = name.as_bytes_vec();
    if has_token(&nb, "logo") || has_token(&nb, "brand") {
        Some("\u{1f192}")
    } else if has_token(&nb, "icon") {
        Some("\u{1f6e0}\u{fe0f}")
    } else if has_token(&nb, "diagram") || has_token(&nb, "chart") {
        Some("\u{1f4ca}")
    } else if has_token(&nb, "graph") {
        Some("\u{1f4c8}")
    } else if has_token(&nb, "user") || has_token(&nb, "profile") {
        Some("\u{1f464}")
    } else if has_token(&nb, "home") {
        Some("\u{1f3e0}")
    } else if has_token(&nb, "folder") || has_token(&nb, "directory") {
        Some("\u{1f4c1}")
    } else if has_token(&nb, "document") || has_token(&nb, "file") {
        Some("\u{1f4c4}")
    } else if has_token(&nb, "image") || has_token(&nb, "picture") || has_token(&nb, "photo") {
        Some("\u{1f5bc}\u{fe0f}")
    } else if has_token(&nb, "download") || has_token(&nb, "upload") {
        Some("\u{1f4e5}")
    } else if has_token(&nb, "settings") || has_token(&nb, "preferences") {
        Some("\u{2699}\u{fe0f}")
    } else if has_token(&nb, "search") || has_token(&nb, "find") {
        Some("\u{1f50d}")
    } else {
        None
    }
}

/// Classifies raw markup bytes by the element tokens they hold.
pub fn content_icon(content: &Vec<u8>) -> (r: &'static str)
    ensures
        r@ == spec_content_icon(content@),
{
    if !has_token(content, "<svg") {
        "\u{2753}"
    } else if has_token(content, "<circle") || has_token(content, "<ellipse") {
        "\u{2b55}"
    } else if has_token(content, "<rect") || has_token(content, "<polygon") {
        "\u{2b1c}"
    } else if has_token(content, "<path") {
        "\u{1f537}"
    } else if has_token(content, "<text") || has_token(content, "<tspan") {
        "\u{1f524}"
    } else if has_token(content, "<image") {
        "\u{1f5bc}\u{fe0f} "
    } else {
        "\u{1f5b1}\u{fe0f} "
    }
}

/// The sniffer: file-name keywords first, then the markup classification.
pub fn sniff_icon(name: &str, content: &Vec<u8>) -> (r: &'static str)
    ensures
        r@ == spec_sniff_icon(name.spec_bytes(), content@),
{
    match name_icon(name) {
        Some(s) => s,
        None => content_icon(content),
    }
}

} // verus!
