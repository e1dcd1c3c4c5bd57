use sview::render::{
    get_simple_icon, render_svg_to_ascii, render_with, svg_to_mini_icon, ExternalAttempt,
    RenderConfig, RenderError, RenderMode, RenderOutput, StrategyKind,
};

fn svg_bytes(body: &str) -> Option<Vec<u8>> {
    Some(body.as_bytes().to_vec())
}

fn sniff_only() -> RenderConfig {
    RenderConfig {
        use_external: false,
        use_internal: false,
        use_sniff: true,
        max_width: 40,
        max_height: 20,
    }
}

#[test]
fn test_icon_dark_square_is_heavy() {
    let svg = "<svg xmlns=\"http://www.w3.org/2000/svg\" width=\"100\" height=\"100\">\
               <rect width=\"100\" height=\"100\" fill=\"#000000\"/></svg>";
    let r = svg_to_mini_icon("drawing", &svg_bytes(svg)).unwrap();
    assert_eq!(r, '\u{2588}');
}

#[test]
fn test_icon_near_white_square_is_blank() {
    let svg = "<svg xmlns=\"http://www.w3.org/2000/svg\" width=\"100\" height=\"100\">\
               <rect width=\"100\" height=\"100\" fill=\"#fefefe\"/></svg>";
    let r = svg_to_mini_icon("drawing", &svg_bytes(svg)).unwrap();
    assert_eq!(r, ' ');
}

#[test]
fn test_ascii_canvas_is_rectangular() {
    let svg = "<svg xmlns=\"http://www.w3.org/2000/svg\" width=\"100\" height=\"50\">\
               <circle cx=\"50\" cy=\"25\" r=\"20\" fill=\"#000\"/></svg>";
    let data = svg.as_bytes().to_vec();
    let canvas = render_svg_to_ascii(&data, 40, 20).unwrap();
    let rows: Vec<&str> = canvas.split('\n').collect();
    assert!(rows.len() <= 20);
    assert!(rows.len() >= 1);
    let w = rows[0].chars().count();
    for row in &rows {
        assert_eq!(row.chars().count(), w);
    }
    assert!(w <= 80);
    assert!(!canvas.ends_with('\n'));
}

#[test]
fn test_ascii_canvas_fits_known_size() {
    // A 100 by 50 document into a 40-column, 20-row configuration: the
    // box is 80 by 20, the height is limiting, so the grid is 40 by 20.
    let svg = "<svg xmlns=\"http://www.w3.org/2000/svg\" width=\"100\" height=\"50\">\
               <rect width=\"100\" height=\"50\" fill=\"#000\"/></svg>";
    let data = svg.as_bytes().to_vec();
    let canvas = render_svg_to_ascii(&data, 40, 20).unwrap();
    let rows: Vec<&str> = canvas.split('\n').collect();
    assert_eq!(rows.len(), 20);
    for row in &rows {
        assert_eq!(row.chars().count(), 40);
    }
}

#[test]
fn test_ascii_canvas_wide_document_keeps_aspect() {
    // A 4:1 document at the default 40 by 20: the uniform scale is
    // 40 / 200, so the grid is 40 columns by 10 rows, not the full box.
    let svg = "<svg xmlns=\"http://www.w3.org/2000/svg\" width=\"200\" height=\"50\">\
               <rect width=\"200\" height=\"50\" fill=\"#000\"/></svg>";
    let data = svg.as_bytes().to_vec();
    let canvas = render_svg_to_ascii(&data, 40, 20).unwrap();
    let rows: Vec<&str> = canvas.split('\n').collect();
    assert_eq!(rows.len(), 10);
    for row in &rows {
        assert_eq!(row.chars().count(), 40);
    }
}

#[test]
fn test_unresolved_image_reference_still_renders() {
    // A reference to a file on disk stays unresolved: the element is
    // skipped, the render succeeds, and two runs agree byte for byte.
    let svg = "<svg xmlns=\"http://www.w3.org/2000/svg\" width=\"64\" height=\"64\">\
               <image href=\"missing.png\" width=\"64\" height=\"64\"/></svg>";
    let data = svg.as_bytes().to_vec();
    let a = render_svg_to_ascii(&data, 40, 20).unwrap();
    let b = render_svg_to_ascii(&data, 40, 20).unwrap();
    assert_eq!(a.as_bytes(), b.as_bytes());
}

#[test]
fn test_render_same_bytes_twice_identical() {
    let svg = "<svg xmlns=\"http://www.w3.org/2000/svg\" width=\"64\" height=\"64\">\
               <circle cx=\"32\" cy=\"32\" r=\"30\" fill=\"#123456\"/></svg>";
    let data = svg.as_bytes().to_vec();
    let a = render_svg_to_ascii(&data, 40, 20).unwrap();
    let b = render_svg_to_ascii(&data, 40, 20).unwrap();
    assert_eq!(a.as_bytes(), b.as_bytes());
    let ia = svg_to_mini_icon("drawing", &svg_bytes(svg)).unwrap();
    let ib = svg_to_mini_icon("drawing", &svg_bytes(svg)).unwrap();
    assert_eq!(ia, ib);
}

#[test]
fn test_parse_error_on_malformed_bytes() {
    let data = "this is no markup at all".as_bytes().to_vec();
    let r = render_svg_to_ascii(&data, 40, 20);
    assert_eq!(r.unwrap_err(), RenderError::ParseError);
}

#[test]
fn test_sniff_rect_resolves_to_rectangle_glyph() {
    let r = render_with(
        &sniff_only(),
        ExternalAttempt::Unavailable,
        RenderMode::Icon,
        "shape",
        &svg_bytes("<svg><rect width=\"5\" height=\"5\"/></svg>"),
    )
    .unwrap();
    assert_eq!(r.strategy, StrategyKind::Sniff);
    match r.output {
        RenderOutput::Glyph(s) => assert_eq!(s, "\u{2b1c}"),
        RenderOutput::Canvas(_) => panic!("expected a glyph"),
    }
}

#[test]
fn test_sniff_circle_resolves_to_circle_glyph() {
    let r = render_with(
        &sniff_only(),
        ExternalAttempt::Unavailable,
        RenderMode::Icon,
        "shape",
        &svg_bytes("<svg><circle r=\"5\"/></svg>"),
    )
    .unwrap();
    match r.output {
        RenderOutput::Glyph(s) => assert_eq!(s, "\u{2b55}"),
        RenderOutput::Canvas(_) => panic!("expected a glyph"),
    }
}

#[test]
fn test_sniff_plain_root_resolves_to_generic_glyph() {
    let r = render_with(
        &sniff_only(),
        ExternalAttempt::Unavailable,
        RenderMode::Icon,
        "shape",
        &svg_bytes("<svg></svg>"),
    )
    .unwrap();
    match r.output {
        RenderOutput::Glyph(s) => assert_eq!(s, "\u{1f5b1}\u{fe0f} "),
        RenderOutput::Canvas(_) => panic!("expected a glyph"),
    }
}

#[test]
fn test_missing_path_is_io_error_whatever_is_enabled() {
    let configs = [
        (true, true, true),
        (true, false, false),
        (false, true, false),
        (false, false, true),
        (false, true, true),
    ];
    for (e, i, s) in configs {
        let cfg = RenderConfig {
            use_external: e,
            use_internal: i,
            use_sniff: s,
            max_width: 40,
            max_height: 20,
        };
        let r = render_with(
            &cfg,
            ExternalAttempt::Unavailable,
            RenderMode::Icon,
            "missing",
            &None,
        );
        assert_eq!(r.unwrap_err(), RenderError::IoError);
    }
}

#[test]
fn test_external_tool_error_when_only_external_fails() {
    let cfg = RenderConfig {
        use_external: true,
        use_internal: false,
        use_sniff: false,
        max_width: 40,
        max_height: 20,
    };
    let r = render_with(
        &cfg,
        ExternalAttempt::Failed,
        RenderMode::Canvas,
        "shape",
        &svg_bytes("<svg></svg>"),
    );
    assert_eq!(r.unwrap_err(), RenderError::ExternalToolError);
}

#[test]
fn test_external_success_short_circuits() {
    let r = render_with(
        &RenderConfig::default(),
        ExternalAttempt::Succeeded("already drawn".to_string()),
        RenderMode::Canvas,
        "shape",
        &None,
    )
    .unwrap();
    assert_eq!(r.strategy, StrategyKind::External);
    match r.output {
        RenderOutput::Canvas(s) => assert_eq!(s, "already drawn"),
        RenderOutput::Glyph(_) => panic!("expected a canvas"),
    }
}

#[test]
fn test_degenerate_size_falls_through_to_sniff() {
    let svg = "<svg xmlns=\"http://www.w3.org/2000/svg\" width=\"0\" height=\"0\">\
               </svg>";
    let r = svg_to_mini_icon("drawing", &svg_bytes(svg)).unwrap();
    assert_eq!(r, '\u{1f5b1}');
}

#[test]
fn test_get_simple_icon() {
    let missing = get_simple_icon("file", &None);
    assert!(missing.is_err());

    let r = get_simple_icon("drawing", &svg_bytes("<svg><rect/></svg>")).unwrap();
    assert_eq!(r, "\u{2b1c}");
}

#[test]
fn test_name_keyword_beats_content() {
    let r = get_simple_icon("company-logo", &svg_bytes("<svg><circle/></svg>")).unwrap();
    assert_eq!(r, "\u{1f192}");
}

#[test]
fn test_no_root_gives_question_glyph() {
    let r = get_simple_icon("drawing", &svg_bytes("plain text")).unwrap();
    assert_eq!(r, "\u{2753}");
}
