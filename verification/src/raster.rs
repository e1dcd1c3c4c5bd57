use usvg::{ImageHrefResolver, Options};
use vstd::prelude::*;

verus! {

/// The intrinsic size, in whole pixels, that parsing an SVG document
/// yields: `None` when the bytes do not parse. The parse options carry
/// no fonts, no resource directory, and a reference resolver that
/// leaves `href` strings unresolved, so the result is a function of
/// the document bytes alone.
pub uninterp spec fn svg_size_of(data: Seq<u8>) -> Option<(u32, u32)>;

/// The RGBA sample buffer (premultiplied alpha, row major) that the
/// rasterizer produces for a document stretched to exactly `w` by `h`
/// pixels. With `href` strings left unresolved nothing is read from
/// disk, so the buffer is a function of the document bytes and the two
/// edges alone.
pub uninterp spec fn raster_of(data: Seq<u8>, w: u32, h: u32) -> Seq<u8>;

/// Relies on usvg::Tree::from_data, called with default options except
/// that the string branch of the image-reference resolver returns
/// nothing (embedded data references still resolve from the document
/// itself; an unresolved reference skips the element, it never fails
/// the parse); and on tiny-skia's Size::to_int_size, whose result is
/// `max(1, round(edge))` per edge, so both edges of a parsed document
/// are at least 1.
#[verifier::external_body]
pub fn svg_intrinsic_size(data: &Vec<u8>) -> (r: Option<(u32, u32)>)
    ensures
        r == svg_size_of(data@),
        match r {
            Some(s) => 1 <= s.0 && 1 <= s.1,
            None => true,
        },
{
    let opt = Options {
        image_href_resolver: ImageHrefResolver {
            resolve_string: Box::new(|_, _| None),
            ..Default::default()
        },
        ..Default::default()
    };
    match usvg::Tree::from_data(data.as_slice(), &opt) {
        Ok(t) => {
            let s = t.size().to_int_size();
            Some((s.width(), s.height()))
        },
        Err(_) => None,
    }
}

/// Relies on usvg::Tree::from_data (called with the same options as in
/// `svg_intrinsic_size`, so success coincides with it and nothing is
/// read from disk), on tiny_skia::Pixmap::new (always some pixmap for
/// edges in `1..=4096`, holding `4 * w * h` zeroed RGBA bytes), and on
/// resvg::render, which fills those bytes deterministically from the
/// document and the root transform; the transform here stretches the
/// document to the full pixmap, each scale factor a pixmap edge over
/// the matching document edge.
#[verifier::external_body]
pub fn render_rgba(data: &Vec<u8>, w: u32, h: u32) -> (r: Option<Vec<u8>>)
    requires
        1 <= w <= 4096,
        1 <= h <= 4096,
    ensures
        r is Some <==> svg_size_of(data@) is Some,
        match r {
            Some(px) => px@.len() == 4 * ((w as int) * (h as int)) && px@ == raster_of(
                data@,
                w,
                h,
            ),
            None => true,
        },
{
    let opt = Options {
        image_href_resolver: ImageHrefResolver {
            resolve_string: Box::new(|_, _| None),
            ..Default::default()
        },
        ..Default::default()
    };
    let tree = usvg::Tree::from_data(data.as_slice(), &opt).ok()?;
    let mut pm = tiny_skia::Pixmap::new(w, h)?;
    let dw = tree.size().width();
    let dh = tree.size().height();
    let mut sx = dw; sx = From::from(w as u16);
    let mut sy = dh; sy = From::from(h as u16);
    resvg::render(&tree, tiny_skia::Transform::from_scale(sx / dw, sy / dh), &mut pm.as_mut());
    Some(pm.take())
}

} // verus!
