use sview::fit::{fit_box, fit_icon};
use sview::glyphs::{density_glyph, icon_ramp_glyph, ramp_index};
use sview::grid::{block_average, cells_ssd, cells_sum, embed, ink_of_sample, quantize};
use sview::render::{contrast_band, icon_glyph, grid_to_ascii, ContrastBand};
use sview::sniff::{content_icon, name_icon, sniff_icon};
use sview::text::{chars_to_bytes, contains_ci, contains_cs, eq_ignore_case, first_char_or, str_eq};

#[test]
fn test_density_ramp_ends() {
    assert_eq!(ramp_index(0, 12), 0);
    assert_eq!(density_glyph(0), ' ');
    assert_eq!(ramp_index(255, 12), 11);
    assert_eq!(density_glyph(11), '@');
    // round(128 * 11 / 255) = round(5.52) = 6
    assert_eq!(ramp_index(128, 12), 6);
    assert_eq!(density_glyph(6), '*');
    assert_eq!(icon_ramp_glyph(4), '\u{2588}');
}

#[test]
fn test_ink_of_sample_values() {
    // Opaque black carries full ink, opaque white none, transparency
    // none, and half-covered black half.
    assert_eq!(ink_of_sample(0, 0, 0, 255), 255);
    assert_eq!(ink_of_sample(255, 255, 255, 255), 0);
    assert_eq!(ink_of_sample(0, 0, 0, 0), 0);
    assert_eq!(ink_of_sample(0, 0, 0, 128), 128);
}

#[test]
fn test_fit_box_values() {
    // 100 by 50 into 80 by 20: the height limits, width rounds to 40.
    assert_eq!(fit_box(100, 50, 80, 20), (40, 20));
    // 50 by 100 into 80 by 20: height limits again, width rounds to 10.
    assert_eq!(fit_box(50, 100, 80, 20), (10, 20));
    // Upscaling is allowed in box fitting.
    assert_eq!(fit_box(10, 10, 40, 20), (20, 20));
}

#[test]
fn test_fit_icon_never_upscales() {
    assert_eq!(fit_icon(10, 20, 62), (10, 20));
    assert_eq!(fit_icon(100, 100, 62), (62, 62));
    assert_eq!(fit_icon(200, 100, 62), (62, 31));
}

#[test]
fn test_quantize_and_average() {
    // A 2 by 2 buffer: two full-ink and two empty samples average to
    // half ink in one cell.
    let rgba: Vec<u8> = vec![
        0, 0, 0, 255, // full ink
        0, 0, 0, 255, // full ink
        0, 0, 0, 0, // none
        0, 0, 0, 0, // none
    ];
    let g = quantize(&rgba, 2, 2);
    assert_eq!(g.cells, vec![255, 255, 0, 0]);
    let avg = block_average(&g, 2, 1, 1);
    assert_eq!(avg.cells, vec![127]);
}

#[test]
fn test_embed_centres_and_pads() {
    let rgba: Vec<u8> = vec![0, 0, 0, 255];
    let g = quantize(&rgba, 1, 1);
    let sq = embed(&g, 3, 1, 1);
    assert_eq!(sq.cells, vec![0, 0, 0, 0, 255, 0, 0, 0, 0]);
}

#[test]
fn test_cells_stats() {
    let cells: Vec<u8> = vec![0, 0, 255, 255];
    assert_eq!(cells_sum(&cells), 510);
    // Each term is (4 * c - 510)^2: twice 510^2 and twice 510^2.
    assert_eq!(cells_ssd(&cells), 4 * 510 * 510);
    assert_eq!(contrast_band(&cells), ContrastBand::High);
    let flat: Vec<u8> = vec![128, 128, 128, 128];
    assert_eq!(contrast_band(&flat), ContrastBand::Low);
}

#[test]
fn test_icon_glyph_extremes() {
    let dark: Vec<u8> = vec![250; 64];
    assert_eq!(icon_glyph(&dark), '\u{2588}');
    let bright: Vec<u8> = vec![2; 64];
    assert_eq!(icon_glyph(&bright), ' ');
    let mid: Vec<u8> = vec![128; 64];
    // round(128 * 4 / 255) = 2: the middle shade block.
    assert_eq!(icon_glyph(&mid), '\u{2592}');
}

#[test]
fn test_grid_to_ascii_shape() {
    let rgba: Vec<u8> = vec![
        0, 0, 0, 255, 0, 0, 0, 0, //
        0, 0, 0, 0, 0, 0, 0, 255,
    ];
    let g = quantize(&rgba, 2, 2);
    let s = grid_to_ascii(&g);
    assert_eq!(s, "@ \n @");
}

#[test]
fn test_contains_folding() {
    assert!(contains_ci(b"Hello <SVG> there", b"<svg"));
    assert!(!contains_cs(b"Hello <SVG> there", b"<svg"));
    assert!(contains_cs(b"a<rect/>", b"<rect"));
    assert!(contains_ci(b"abc", b""));
    assert!(!contains_ci(b"ab", b"abc"));
}

#[test]
fn test_text_helpers() {
    assert!(eq_ignore_case(b"SvG", b"svg"));
    assert!(!eq_ignore_case(b"svg", b"sv"));
    assert!(str_eq("abc", "abc"));
    assert!(!str_eq("abc", "abd"));
    assert_eq!(first_char_or("", 'x'), 'x');
    assert_eq!(first_char_or("yz", 'x'), 'y');
    assert_eq!(chars_to_bytes("<svg"), vec![60u8, 115, 118, 103]);
}

#[test]
fn test_name_icon_keywords() {
    assert_eq!(name_icon("site-logo"), Some("\u{1f192}"));
    assert_eq!(name_icon("UserAvatar"), Some("\u{1f464}"));
    assert_eq!(name_icon("settings-panel"), Some("\u{2699}\u{fe0f}"));
    assert_eq!(name_icon("plainname"), None);
}

#[test]
fn test_content_icon_priority() {
    // A circle outranks a rectangle in the fixed order.
    let both = b"<svg><rect/><circle/></svg>".to_vec();
    assert_eq!(content_icon(&both), "\u{2b55}");
    let path = b"<svg><path d=\"M0 0\"/></svg>".to_vec();
    assert_eq!(content_icon(&path), "\u{1f537}");
    let text = b"<svg><text>hi</text></svg>".to_vec();
    assert_eq!(content_icon(&text), "\u{1f524}");
    let none = b"nothing here".to_vec();
    assert_eq!(content_icon(&none), "\u{2753}");
}

#[test]
fn test_sniff_icon_name_first() {
    let content = b"<svg><circle/></svg>".to_vec();
    assert_eq!(sniff_icon("big-chart", &content), "\u{1f4ca}");
    assert_eq!(sniff_icon("plainname", &content), "\u{2b55}");
}
