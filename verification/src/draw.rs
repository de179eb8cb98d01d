//! Canvas drawing commands, layers and frames.

use vstd::prelude::*;
use crate::Paint;
use crate::encoding::{Param, PathCommand, Seg, encode_commands, encode_subpath, split_subpaths, subpaths};

verus! {

/// The two command kinds math output uses.
#[derive(Debug, Clone, Copy, PartialEq, Eq)]
pub enum CmdType {
    /// A filled rectangle; its parameters are `x, y, width, height`.
    Rect,
    /// A path; its parameters are a segment-prefix stream.
    Path,
}

impl CmdType {
    /// The command's name in the canvas vocabulary.
    pub fn as_str(&self) -> (s: &'static str)
        ensures
            *self == CmdType::Rect ==> s@ == "rect"@,
            *self == CmdType::Path ==> s@ == "path"@,
    {
        match self {
            CmdType::Rect => "rect",
            CmdType::Path => "path",
        }
    }
}

/// One canvas drawing command.
#[derive(Debug, Clone, PartialEq)]
pub struct DrawCmd<S> {
    pub cmd_type: CmdType,
    pub params: Vec<Param<S>>,
    pub fill: Option<Paint>,
    pub stroke: Option<Paint>,
    pub stroke_width: Option<S>,
    /// Dash rhythm (dash and gap lengths alternating); dashed rules only.
    pub dash: Option<Vec<S>>,
}

/// The colour a paint carries.
pub open spec fn paint_color(p: Option<Paint>) -> Option<Seq<char>> {
    match p {
        Some(Paint::Solid(c)) => Some(c@),
        None => None,
    }
}

/// A drawing command as plain values.
pub struct DrawCmdView<S> {
    pub cmd_type: CmdType,
    pub params: Seq<Param<S>>,
    /// Colour of the solid fill, if the command is filled.
    pub fill: Option<Seq<char>>,
    /// Colour of the solid stroke, if the command is stroked.
    pub stroke: Option<Seq<char>>,
    pub stroke_width: Option<S>,
    pub dash: Option<Seq<S>>,
}

impl<S> View for DrawCmd<S> {
    type V = DrawCmdView<S>;

    open spec fn view(&self) -> DrawCmdView<S> {
        DrawCmdView {
            cmd_type: self.cmd_type,
            params: self.params@,
            fill: paint_color(self.fill),
            stroke: paint_color(self.stroke),
            stroke_width: self.stroke_width,
            dash: match self.dash {
                Some(d) => Some(d@),
                None => None,
            },
        }
    }
}

/// An output layer of the canvas.
#[derive(Debug, Clone, PartialEq)]
pub struct Layer<S> {
    pub kind: String,
    pub dirty: bool,
    pub z_index: u32,
    pub commands: Vec<DrawCmd<S>>,
}

/// A rendered frame: its layers and its size on the canvas.
#[derive(Debug, Clone, PartialEq)]
pub struct Frame<S> {
    pub layers: Vec<Layer<S>>,
    pub width: S,
    pub height: S,
}

/// The views of a list of commands.
pub open spec fn cmd_views<S>(cmds: Seq<DrawCmd<S>>) -> Seq<DrawCmdView<S>> {
    cmds.map_values(|c: DrawCmd<S>| c@)
}

/// A solid-filled path command with the given stream.
pub open spec fn filled_path<S>(params: Seq<Param<S>>, fg: Seq<char>) -> DrawCmdView<S> {
    DrawCmdView {
        cmd_type: CmdType::Path,
        params,
        fill: Some(fg),
        stroke: None,
        stroke_width: None,
        dash: None,
    }
}

/// A stroked path command with the given stream and stroke width.
pub open spec fn stroked_path<S>(params: Seq<Param<S>>, fg: Seq<char>, width: S) -> DrawCmdView<S> {
    DrawCmdView {
        cmd_type: CmdType::Path,
        params,
        fill: None,
        stroke: Some(fg),
        stroke_width: Some(width),
        dash: None,
    }
}

/// A solid-filled rectangle command.
pub open spec fn filled_rect<S>(x: S, y: S, w: S, h: S, fg: Seq<char>) -> DrawCmdView<S> {
    DrawCmdView {
        cmd_type: CmdType::Rect,
        params: seq![Param::Coord(x), Param::Coord(y), Param::Coord(w), Param::Coord(h)],
        fill: Some(fg),
        stroke: None,
        stroke_width: None,
        dash: None,
    }
}

/// Builds a solid-filled path command.
pub fn fill_path_cmd<S>(params: Vec<Param<S>>, foreground: &str) -> (cmd: DrawCmd<S>)
    ensures
        cmd@ == filled_path(params@, foreground@),
{
    DrawCmd {
        cmd_type: CmdType::Path,
        params,
        fill: Some(Paint::Solid(foreground.to_owned())),
        stroke: None,
        stroke_width: None,
        dash: None,
    }
}

/// Builds a stroked path command.
pub fn stroke_path_cmd<S>(params: Vec<Param<S>>, foreground: &str, width: S) -> (cmd: DrawCmd<S>)
    ensures
        cmd@ == stroked_path(params@, foreground@, width),
{
    DrawCmd {
        cmd_type: CmdType::Path,
        params,
        fill: None,
        stroke: Some(Paint::Solid(foreground.to_owned())),
        stroke_width: Some(width),
        dash: None,
    }
}

/// Builds a solid-filled rectangle command.
pub fn rect_cmd<S>(x: S, y: S, width: S, height: S, foreground: &str) -> (cmd: DrawCmd<S>)
    ensures
        cmd@ == filled_rect(x, y, width, height, foreground@),
{
    let params = vec![Param::Coord(x), Param::Coord(y), Param::Coord(width), Param::Coord(height)];
    DrawCmd {
        cmd_type: CmdType::Rect,
        params,
        fill: Some(Paint::Solid(foreground.to_owned())),
        stroke: None,
        stroke_width: None,
        dash: None,
    }
}

/// A horizontal rule (fraction bar, overline, `\hdashline`), placed on the
/// canvas. Besides its geometry it carries the quantities each rendering
/// needs, measured by the host.
#[derive(Debug, Clone, Copy, PartialEq)]
pub struct LineItem<S> {
    pub dashed: bool,
    /// Left end, on the rule's centre line.
    pub x: S,
    /// Height of the rule's centre line.
    pub y: S,
    pub width: S,
    pub thickness: S,
    /// Right end, `x + width`.
    pub x_end: S,
    /// Top edge of the solid bar, `y - thickness / 2`.
    pub top: S,
    /// Stroke width of the dashed rendering: the thickness, at least half a pixel.
    pub stroke_width: S,
    /// Dash and gap length of the dashed rendering: four stroke widths, at least two pixels.
    pub dash: S,
}

/// The command a rule becomes: a stroked, dashed centre line when dashed,
/// else a filled bar.
pub open spec fn line_view<S>(l: LineItem<S>, fg: Seq<char>) -> DrawCmdView<S> {
    if l.dashed {
        DrawCmdView {
            cmd_type: CmdType::Path,
            params: seq![
                Param::Seg(Seg::MoveTo),
                Param::Coord(l.x),
                Param::Coord(l.y),
                Param::Seg(Seg::LineTo),
                Param::Coord(l.x_end),
                Param::Coord(l.y),
                Param::Seg(Seg::Close),
            ],
            fill: None,
            stroke: Some(fg),
            stroke_width: Some(l.stroke_width),
            dash: Some(seq![l.dash, l.dash]),
        }
    } else {
        filled_rect(l.x, l.top, l.width, l.thickness, fg)
    }
}

/// Builds the command of a rule.
pub fn line_cmd<S: Copy>(line: &LineItem<S>, foreground: &str) -> (cmd: DrawCmd<S>)
    ensures
        cmd@ == line_view(*line, foreground@),
{
    if line.dashed {
        let params = vec![
            Param::Seg(Seg::MoveTo),
            Param::Coord(line.x),
            Param::Coord(line.y),
            Param::Seg(Seg::LineTo),
            Param::Coord(line.x_end),
            Param::Coord(line.y),
            Param::Seg(Seg::Close),
        ];
        DrawCmd {
            cmd_type: CmdType::Path,
            params,
            fill: None,
            stroke: Some(Paint::Solid(foreground.to_owned())),
            stroke_width: Some(line.stroke_width),
            dash: Some(vec![line.dash, line.dash]),
        }
    } else {
        rect_cmd(line.x, line.top, line.width, line.thickness, foreground)
    }
}

/// The commands an SVG path (radical, large delimiter) becomes: when filled,
/// one filled command per sub-path, so that sub-paths of opposite winding
/// do not cancel out; when not filled, a single stroked command.
pub open spec fn svg_path_views<S>(
    cmds: Seq<PathCommand<S>>,
    fill: bool,
    stroke_width: S,
    fg: Seq<char>,
) -> Seq<DrawCmdView<S>> {
    if fill {
        subpaths(cmds).map_values(|sp: Seq<PathCommand<S>>| filled_path(encode_commands(sp), fg))
    } else {
        seq![stroked_path(encode_commands(cmds), fg, stroke_width)]
    }
}

/// Appends the commands of an SVG path to `out`.
pub fn emit_svg_path<S: Copy>(
    out: &mut Vec<DrawCmd<S>>,
    commands: &[PathCommand<S>],
    fill: bool,
    stroke_width: S,
    foreground: &str,
)
    ensures
        cmd_views(final(out)@) == cmd_views(old(out)@) + svg_path_views(
            commands@,
            fill,
            stroke_width,
            foreground@,
        ),
{
    let ghost views = svg_path_views(commands@, fill, stroke_width, foreground@);
    if fill {
        let segments = split_subpaths(commands);
        let mut j: usize = 0;
        while j < segments.len()
            invariant
                0 <= j <= segments@.len(),
                segments@.len() == subpaths(commands@).len(),
                forall|t: int| 0 <= t < segments@.len() ==> (#[trigger] segments@[t])@ == subpaths(commands@)[t],
                fill,
                views == svg_path_views(commands@, fill, stroke_width, foreground@),
                cmd_views(out@) =~= cmd_views(old(out)@) + views.take(j as int),
            decreases segments@.len() - j,
        {
            let params = encode_subpath(segments[j]);
            let cmd = fill_path_cmd(params, foreground);
            let ghost before = out@;
            out.push(cmd);
            proof {
                assert(views[j as int] == cmd@);
                assert(cmd_views(out@) =~= cmd_views(before).push(cmd@));
                assert(views.take(j + 1) =~= views.take(j as int).push(cmd@));
            }
            j = j + 1;
        }
        proof {
            assert(views.take(j as int) =~= views);
        }
    } else {
        let params = encode_subpath(commands);
        let cmd = stroke_path_cmd(params, foreground, stroke_width);
        out.push(cmd);
        proof {
            assert(cmd_views(out@) =~= cmd_views(old(out)@) + views);
        }
    }
}

} // verus!
