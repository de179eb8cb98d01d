use ratex_canvas::bake::{bake_frame, BakeItem};
use ratex_canvas::draw::{emit_svg_path, line_cmd, rect_cmd, CmdType, DrawCmd, LineItem};
use ratex_canvas::encoding::{Param, PathCommand, Seg};
use ratex_canvas::outline::{choose_glyph, glyph_cmd, ContourCurve, OutlineCurve, Point};
use ratex_canvas::Paint;

use Param::{Coord as C, Seg as S};

fn solid(c: &str) -> Option<Paint> {
    Some(Paint::Solid(c.to_string()))
}

fn pt(x: f64, y: f64) -> Point<f64> {
    Point { x, y }
}

fn line(dashed: bool) -> LineItem<f64> {
    LineItem {
        dashed,
        x: 10.0,
        y: 20.0,
        width: 30.0,
        thickness: 2.0,
        x_end: 40.0,
        top: 19.0,
        stroke_width: 2.0,
        dash: 8.0,
    }
}

#[test]
fn cmd_type_names_are_canvas_vocabulary() {
    assert_eq!(CmdType::Rect.as_str(), "rect");
    assert_eq!(CmdType::Path.as_str(), "path");
}

#[test]
fn rect_cmd_is_filled_with_four_coordinates() {
    let cmd: DrawCmd<f64> = rect_cmd(1.0, 2.0, 3.0, 4.0, "#123456");
    assert_eq!(cmd.cmd_type, CmdType::Rect);
    assert_eq!(cmd.params, vec![C(1.0), C(2.0), C(3.0), C(4.0)]);
    assert_eq!(cmd.fill, solid("#123456"));
    assert_eq!(cmd.stroke, None);
    assert_eq!(cmd.stroke_width, None);
    assert_eq!(cmd.dash, None);
}

#[test]
fn solid_rule_becomes_filled_bar() {
    let cmd = line_cmd(&line(false), "#000000");
    assert_eq!(cmd.cmd_type, CmdType::Rect);
    assert_eq!(cmd.params, vec![C(10.0), C(19.0), C(30.0), C(2.0)]);
    assert_eq!(cmd.fill, solid("#000000"));
    assert_eq!(cmd.stroke, None);
}

#[test]
fn dashed_rule_becomes_stroked_dashed_path() {
    let cmd = line_cmd(&line(true), "#000000");
    assert_eq!(cmd.cmd_type, CmdType::Path);
    assert_eq!(
        cmd.params,
        vec![S(Seg::MoveTo), C(10.0), C(20.0), S(Seg::LineTo), C(40.0), C(20.0), S(Seg::Close)]
    );
    assert_eq!(cmd.fill, None);
    assert_eq!(cmd.stroke, solid("#000000"));
    assert_eq!(cmd.stroke_width, Some(2.0));
    assert_eq!(cmd.dash, Some(vec![8.0, 8.0]));
}

fn two_subpaths() -> Vec<PathCommand<f64>> {
    vec![
        PathCommand::MoveTo { x: 0.0, y: 0.0 },
        PathCommand::LineTo { x: 1.0, y: 0.0 },
        PathCommand::Close,
        PathCommand::MoveTo { x: 5.0, y: 5.0 },
        PathCommand::LineTo { x: 6.0, y: 5.0 },
    ]
}

#[test]
fn filled_svg_path_gets_one_command_per_subpath() {
    let mut out = vec![rect_cmd(0.0, 0.0, 1.0, 1.0, "red")];
    emit_svg_path(&mut out, &two_subpaths(), true, 0.75, "red");
    assert_eq!(out.len(), 3);
    assert_eq!(out[1].params, vec![S(Seg::MoveTo), C(0.0), C(0.0), S(Seg::LineTo), C(1.0), C(0.0), S(Seg::Close)]);
    assert_eq!(out[2].params, vec![S(Seg::MoveTo), C(5.0), C(5.0), S(Seg::LineTo), C(6.0), C(5.0)]);
    for cmd in &out[1..] {
        assert_eq!(cmd.cmd_type, CmdType::Path);
        assert_eq!(cmd.fill, solid("red"));
        assert_eq!(cmd.stroke, None);
    }
}

#[test]
fn stroked_svg_path_is_a_single_command() {
    let mut out = Vec::new();
    emit_svg_path(&mut out, &two_subpaths(), false, 0.8, "red");
    assert_eq!(out.len(), 1);
    assert_eq!(out[0].params.len(), 13);
    assert_eq!(out[0].fill, None);
    assert_eq!(out[0].stroke, solid("red"));
    assert_eq!(out[0].stroke_width, Some(0.8));
}

#[test]
fn glyph_without_outline_draws_nothing() {
    assert_eq!(glyph_cmd::<f64>(&[], "#000000"), None);
}

#[test]
fn glyph_contours_are_closed_and_reopened() {
    let curves = vec![
        ContourCurve { curve: OutlineCurve::Line(pt(0.0, 0.0), pt(1.0, 0.0)), continues: false },
        ContourCurve { curve: OutlineCurve::Quad(pt(1.0, 0.0), pt(1.5, 0.5), pt(1.0, 1.0)), continues: true },
        ContourCurve {
            curve: OutlineCurve::Cubic(pt(3.0, 3.0), pt(4.0, 3.0), pt(4.0, 4.0), pt(3.0, 4.0)),
            continues: false,
        },
    ];
    let cmd = glyph_cmd(&curves, "#abcdef").unwrap();
    assert_eq!(cmd.cmd_type, CmdType::Path);
    assert_eq!(cmd.fill, solid("#abcdef"));
    assert_eq!(
        cmd.params,
        vec![
            S(Seg::MoveTo), C(0.0), C(0.0),
            S(Seg::LineTo), C(1.0), C(0.0),
            S(Seg::QuadTo), C(1.5), C(0.5), C(1.0), C(1.0),
            S(Seg::Close),
            S(Seg::MoveTo), C(3.0), C(3.0),
            S(Seg::CubicTo), C(4.0), C(3.0), C(4.0), C(4.0), C(3.0), C(4.0),
            S(Seg::Close),
        ]
    );
}

#[test]
fn first_curve_always_moves_even_if_marked_continuing() {
    let curves = vec![ContourCurve { curve: OutlineCurve::Line(pt(2.0, 2.0), pt(3.0, 2.0)), continues: true }];
    let cmd = glyph_cmd(&curves, "k").unwrap();
    assert_eq!(
        cmd.params,
        vec![S(Seg::MoveTo), C(2.0), C(2.0), S(Seg::LineTo), C(3.0), C(2.0), S(Seg::Close)]
    );
}

#[test]
fn frame_is_one_dirty_math_layer_at_depth_zero() {
    let items = vec![
        BakeItem::Rect { x: 1.0, y: 1.0, width: 2.0, height: 2.0 },
        BakeItem::Glyph(Vec::new()),
        BakeItem::Line(line(false)),
        BakeItem::Path { commands: two_subpaths(), fill: true, stroke_width: 0.75 },
    ];
    let frame = bake_frame(&items, "#ff8800", 120.0, 48.0);
    assert_eq!(frame.width, 120.0);
    assert_eq!(frame.height, 48.0);
    assert_eq!(frame.layers.len(), 1);
    let layer = &frame.layers[0];
    assert_eq!(layer.kind, "math");
    assert!(layer.dirty);
    assert_eq!(layer.z_index, 0);
    // rect, (no glyph), rule bar, two sub-paths
    assert_eq!(layer.commands.len(), 4);
    for cmd in &layer.commands {
        assert!(cmd.fill.is_none() || cmd.fill == solid("#ff8800"));
        assert!(cmd.stroke.is_none() || cmd.stroke == solid("#ff8800"));
    }
}

#[test]
fn glyph_from_requested_font_when_present() {
    assert_eq!(choose_glyph(Some(("Math-Italic", 42)), Some(("Main-Regular", 7))), Some(("Math-Italic", 42)));
}

#[test]
fn glyph_falls_back_when_requested_font_lacks_it() {
    assert_eq!(choose_glyph(Some(("Math-Italic", 0)), Some(("Main-Regular", 7))), Some(("Main-Regular", 7)));
}

#[test]
fn glyph_missing_everywhere_is_skipped() {
    assert_eq!(choose_glyph(Some(("Math-Italic", 0)), Some(("Main-Regular", 0))), None);
    assert_eq!(choose_glyph(Some(("Math-Italic", 0)), None), None);
}

#[test]
fn glyph_without_requested_face_is_skipped() {
    assert_eq!(choose_glyph::<&str>(None, Some(("Main-Regular", 7))), None);
}
