//! Baking a placed display list into one frame of canvas commands.
//!
//! The host places every display item on the canvas (scaling from em units
//! to pixels, fitting to the width constraint, looking up glyph outlines);
//! this module decides which commands each item becomes and assembles the
//! frame.

use vstd::prelude::*;
use crate::draw::{
    CmdType, DrawCmd, DrawCmdView, Frame, Layer, LineItem, cmd_views, emit_svg_path, filled_rect,
    filled_path, line_cmd, line_view, rect_cmd, stroked_path, svg_path_views,
};
use crate::encoding::{
    Param, PathCommand, Seg, coords_only, encode_commands, lemma_encoding_starts_with_move,
    lemma_encoding_well_formed, lemma_single_segment, lemma_subpaths_open_with_their_move,
    lemma_well_encoded_concat, starts_with_move, subpaths, well_encoded,
};
use crate::outline::{
    ContourCurve, glyph_cmd, glyph_view, lemma_outline_params_well_formed, outline_params,
};

verus! {

/// A display item, placed on the canvas.
#[derive(Debug, Clone, PartialEq)]
pub enum BakeItem<S> {
    /// A glyph, as its outline; empty when the glyph has no outline or no
    /// font has it.
    Glyph(Vec<ContourCurve<S>>),
    /// A rule.
    Line(LineItem<S>),
    /// A filled rectangle (`\colorbox` background).
    Rect { x: S, y: S, width: S, height: S },
    /// An SVG-style path; its stroke width is used when it is not filled.
    Path { commands: Vec<PathCommand<S>>, fill: bool, stroke_width: S },
}

/// The commands one item becomes.
pub open spec fn item_views<S>(item: BakeItem<S>, fg: Seq<char>) -> Seq<DrawCmdView<S>> {
    match item {
        BakeItem::Glyph(curves) => match glyph_view(curves@, fg) {
            Some(v) => seq![v],
            None => seq![],
        },
        BakeItem::Line(l) => seq![line_view(l, fg)],
        BakeItem::Rect { x, y, width, height } => seq![filled_rect(x, y, width, height, fg)],
        BakeItem::Path { commands, fill, stroke_width } => svg_path_views(
            commands@,
            fill,
            stroke_width,
            fg,
        ),
    }
}

/// The commands of a list of items: each item's commands, in item order.
pub open spec fn bake_views<S>(items: Seq<BakeItem<S>>, fg: Seq<char>) -> Seq<DrawCmdView<S>>
    decreases items.len(),
{
    if items.len() == 0 {
        seq![]
    } else {
        bake_views(items.drop_last(), fg) + item_views(items.last(), fg)
    }
}

/// The name of the single output layer.
pub open spec fn math_layer_kind() -> Seq<char> {
    "math"@
}

/// A command paints only with the foreground: any fill or stroke it has is
/// a solid paint of that colour.
pub open spec fn paints_with<S>(c: DrawCmdView<S>, fg: Seq<char>) -> bool {
    &&& (c.fill is None || c.fill == Some(fg))
    &&& (c.stroke is None || c.stroke == Some(fg))
}

/// A command is a well-formed member of the canvas vocabulary: a rectangle
/// with exactly four coordinates, or a path with a well-encoded stream.
pub open spec fn well_formed_cmd<S>(c: DrawCmdView<S>) -> bool {
    match c.cmd_type {
        CmdType::Rect => c.params.len() == 4 && coords_only(c.params),
        CmdType::Path => well_encoded(c.params),
    }
}

/// Every SVG path item that is stroked rather than filled opens with a move.
pub open spec fn stroked_paths_open_with_move<S>(items: Seq<BakeItem<S>>) -> bool {
    forall|i: int|
        0 <= i < items.len() ==> match #[trigger] items[i] {
            BakeItem::Path { commands, fill, stroke_width: _ } => !fill ==> (commands@.len() > 0
                && commands@[0] is MoveTo),
            _ => true,
        }
}

proof fn lemma_item_views<S>(item: BakeItem<S>, fg: Seq<char>)
    ensures
        forall|t: int|
            0 <= t < item_views(item, fg).len() ==> {
                let c = #[trigger] item_views(item, fg)[t];
                &&& paints_with(c, fg)
                &&& well_formed_cmd(c)
            },
        (match item {
            BakeItem::Path { commands, fill, stroke_width: _ } => !fill ==> (commands@.len() > 0
                && commands@[0] is MoveTo),
            _ => true,
        }) ==> forall|t: int|
            0 <= t < item_views(item, fg).len() ==> {
                let c = #[trigger] item_views(item, fg)[t];
                c.cmd_type == CmdType::Path ==> starts_with_move(c.params)
            },
{
    match item {
        BakeItem::Glyph(curves) => {
            if curves@.len() > 0 {
                lemma_outline_params_well_formed(curves@);
            }
        },
        BakeItem::Line(l) => {
            let v = line_view(l, fg);
            if l.dashed {
                let mv: Seq<Param<S>> = seq![Param::Seg(Seg::MoveTo), Param::Coord(l.x), Param::Coord(l.y)];
                let ln: Seq<Param<S>> = seq![Param::Seg(Seg::LineTo), Param::Coord(l.x_end), Param::Coord(l.y)];
                let cl: Seq<Param<S>> = seq![Param::Seg(Seg::Close)];
                assert(coords_only(mv.subrange(1, 3)));
                assert(coords_only(ln.subrange(1, 3)));
                assert(coords_only(cl.subrange(1, 1)));
                lemma_single_segment(mv, Seg::MoveTo);
                lemma_single_segment(ln, Seg::LineTo);
                lemma_single_segment(cl, Seg::Close);
                lemma_well_encoded_concat(ln, cl);
                lemma_well_encoded_concat(mv, ln + cl);
                assert(v.params =~= mv + (ln + cl));
            } else {
                assert(coords_only(v.params));
            }
            assert(item_views(item, fg)[0] == v);
        },
        BakeItem::Rect { x, y, width, height } => {
            assert(coords_only(filled_rect(x, y, width, height, fg).params));
            assert(item_views(item, fg)[0] == filled_rect(x, y, width, height, fg));
        },
        BakeItem::Path { commands, fill, stroke_width } => {
            let cmds = commands@;
            if fill {
                lemma_subpaths_open_with_their_move(cmds);
                assert forall|t: int| 0 <= t < item_views(item, fg).len() implies {
                    let c = #[trigger] item_views(item, fg)[t];
                    &&& paints_with(c, fg)
                    &&& well_formed_cmd(c)
                    &&& (c.cmd_type == CmdType::Path ==> starts_with_move(c.params))
                } by {
                    let sp = subpaths(cmds)[t];
                    lemma_encoding_well_formed(sp);
                    lemma_encoding_starts_with_move(sp);
                }
            } else {
                lemma_encoding_well_formed(cmds);
                if cmds.len() > 0 && cmds[0] is MoveTo {
                    lemma_encoding_starts_with_move(cmds);
                }
                assert(item_views(item, fg)[0] == stroked_path(encode_commands(cmds), fg, stroke_width));
            }
        },
    }
}

/// Law: whatever the items, every baked command paints only with the
/// foreground, and is a rectangle with four coordinates or a path whose
/// stream is well encoded.
pub proof fn lemma_bake_well_formed<S>(items: Seq<BakeItem<S>>, fg: Seq<char>)
    ensures
        forall|t: int|
            0 <= t < bake_views(items, fg).len() ==> {
                let c = #[trigger] bake_views(items, fg)[t];
                &&& paints_with(c, fg)
                &&& well_formed_cmd(c)
            },
    decreases items.len(),
{
    if items.len() > 0 {
        let d = items.drop_last();
        lemma_bake_well_formed(d, fg);
        lemma_item_views(items.last(), fg);
        let a = bake_views(d, fg);
        let b = item_views(items.last(), fg);
        assert forall|t: int| 0 <= t < bake_views(items, fg).len() implies {
            let c = #[trigger] bake_views(items, fg)[t];
            &&& paints_with(c, fg)
            &&& well_formed_cmd(c)
        } by {
            if t < a.len() {
                assert(bake_views(items, fg)[t] == a[t]);
            } else {
                assert(bake_views(items, fg)[t] == b[t - a.len()]);
            }
        }
    }
}

/// Law: when every stroked SVG path opens with a move, every baked path
/// command's stream opens with a move (and so is not empty).
pub proof fn lemma_bake_paths_open_with_move<S>(items: Seq<BakeItem<S>>, fg: Seq<char>)
    requires
        stroked_paths_open_with_move(items),
    ensures
        forall|t: int|
            0 <= t < bake_views(items, fg).len() ==> {
                let c = #[trigger] bake_views(items, fg)[t];
                c.cmd_type == CmdType::Path ==> starts_with_move(c.params)
            },
    decreases items.len(),
{
    if items.len() > 0 {
        let d = items.drop_last();
        assert forall|i: int| 0 <= i < d.len() implies match #[trigger] d[i] {
            BakeItem::Path { commands, fill, stroke_width: _ } => !fill ==> (commands@.len() > 0
                && commands@[0] is MoveTo),
            _ => true,
        } by {
            assert(d[i] == items[i]);
        }
        lemma_bake_paths_open_with_move(d, fg);
        let last = items.last();
        assert(last == items[items.len() - 1]);
        lemma_item_views(last, fg);
        let a = bake_views(d, fg);
        let b = item_views(last, fg);
        assert forall|t: int| 0 <= t < bake_views(items, fg).len() implies {
            let c = #[trigger] bake_views(items, fg)[t];
            c.cmd_type == CmdType::Path ==> starts_with_move(c.params)
        } by {
            if t < a.len() {
                assert(bake_views(items, fg)[t] == a[t]);
            } else {
                assert(bake_views(items, fg)[t] == b[t - a.len()]);
            }
        }
    }
}

/// The commands of the first items are the front of the commands of all
/// items.
proof fn lemma_bake_views_prefix<S>(items: Seq<BakeItem<S>>, fg: Seq<char>, n: int)
    requires
        0 <= n <= items.len(),
    ensures
        bake_views(items.take(n), fg).len() <= bake_views(items, fg).len(),
        bake_views(items, fg).subrange(0, bake_views(items.take(n), fg).len() as int) =~= bake_views(
            items.take(n),
            fg,
        ),
    decreases items.len() - n,
{
    if n < items.len() {
        lemma_bake_views_prefix(items, fg, n + 1);
        let t = items.take(n + 1);
        assert(t.drop_last() =~= items.take(n));
        assert(t.last() == items[n]);
        let a = bake_views(items.take(n), fg);
        let b = bake_views(t, fg);
        let whole = bake_views(items, fg);
        assert(whole.subrange(0, a.len() as int) =~= whole.subrange(0, b.len() as int).subrange(
            0,
            a.len() as int,
        ));
        assert(b.subrange(0, a.len() as int) =~= a);
    } else {
        assert(items.take(n) =~= items);
    }
}

/// The commands of an item stand at its place in item order: right after
/// the commands of the items before it.
proof fn lemma_item_at_its_place<S>(items: Seq<BakeItem<S>>, fg: Seq<char>, i: int)
    requires
        0 <= i < items.len(),
    ensures
        ({
            let at = bake_views(items.take(i), fg).len() as int;
            let n = item_views(items[i], fg).len() as int;
            &&& bake_views(items.take(i + 1), fg).len() == at + n
            &&& at + n <= bake_views(items, fg).len()
            &&& forall|j: int|
                0 <= j < n ==> bake_views(items, fg)[at + j] == #[trigger] item_views(items[i], fg)[j]
        }),
{
    lemma_bake_views_prefix(items, fg, i + 1);
    let t = items.take(i + 1);
    assert(t.drop_last() =~= items.take(i));
    assert(t.last() == items[i]);
    let a = bake_views(items.take(i), fg);
    let b = bake_views(t, fg);
    assert(b == a + item_views(items[i], fg));
    let whole = bake_views(items, fg);
    assert forall|j: int| 0 <= j < item_views(items[i], fg).len() implies whole[a.len() + j]
        == #[trigger] item_views(items[i], fg)[j] by {
        assert(whole[a.len() + j] == whole.subrange(0, b.len() as int)[a.len() + j]);
    }
}

/// Law: every glyph with an outline is drawn. At its place in item order
/// (after the commands of the items before it) the baked commands hold
/// exactly one command for it: a path filled with the foreground, neither
/// stroked nor dashed, whose stream is the encoding of the glyph's outline.
pub proof fn lemma_glyph_item_is_drawn<S>(items: Seq<BakeItem<S>>, fg: Seq<char>, i: int)
    requires
        0 <= i < items.len(),
        items[i] matches BakeItem::Glyph(curves) && curves@.len() > 0,
    ensures
        ({
            let at = bake_views(items.take(i), fg).len() as int;
            let c = bake_views(items, fg)[at];
            &&& bake_views(items.take(i + 1), fg).len() == at + 1
            &&& at < bake_views(items, fg).len()
            &&& c.cmd_type == CmdType::Path
            &&& c.fill == Some(fg)
            &&& c.stroke is None
            &&& c.stroke_width is None
            &&& c.dash is None
            &&& c.params == outline_params(items[i]->Glyph_0@)
        }),
{
    lemma_item_at_its_place(items, fg, i);
    match items[i] {
        BakeItem::Glyph(curves) => {
            assert(item_views(items[i], fg)[0] == filled_path(outline_params(curves@), fg));
        },
        _ => {},
    }
}

/// Law: a glyph without outline (a space, or a glyph no font has) draws
/// nothing.
pub proof fn lemma_empty_glyph_draws_nothing<S>(items: Seq<BakeItem<S>>, fg: Seq<char>, i: int)
    requires
        0 <= i < items.len(),
        items[i] matches BakeItem::Glyph(curves) && curves@.len() == 0,
    ensures
        bake_views(items.take(i + 1), fg).len() == bake_views(items.take(i), fg).len(),
{
    lemma_item_at_its_place(items, fg, i);
}

/// Law: a rectangle is drawn at its place as exactly one rectangle command
/// with its corner and size, filled with the foreground.
pub proof fn lemma_rect_item_is_drawn<S>(items: Seq<BakeItem<S>>, fg: Seq<char>, i: int)
    requires
        0 <= i < items.len(),
        items[i] is Rect,
    ensures
        ({
            let at = bake_views(items.take(i), fg).len() as int;
            let c = bake_views(items, fg)[at];
            &&& bake_views(items.take(i + 1), fg).len() == at + 1
            &&& at < bake_views(items, fg).len()
            &&& c.cmd_type == CmdType::Rect
            &&& c.params == seq![
                Param::Coord(items[i]->Rect_x),
                Param::Coord(items[i]->Rect_y),
                Param::Coord(items[i]->Rect_width),
                Param::Coord(items[i]->Rect_height),
            ]
            &&& c.fill == Some(fg)
            &&& c.stroke is None
            &&& c.stroke_width is None
            &&& c.dash is None
        }),
{
    lemma_item_at_its_place(items, fg, i);
    match items[i] {
        BakeItem::Rect { x, y, width, height } => {
            assert(item_views(items[i], fg)[0] == filled_rect(x, y, width, height, fg));
        },
        _ => {},
    }
}

/// Law: a rule is drawn at its place as exactly one command: when dashed, a
/// path along its centre line from `x` to `x_end`, stroked with the
/// foreground at the stroke width and dashed with equal dashes and gaps;
/// otherwise a bar from its top edge, of its width and thickness, filled
/// with the foreground.
pub proof fn lemma_line_item_is_drawn<S>(items: Seq<BakeItem<S>>, fg: Seq<char>, i: int)
    requires
        0 <= i < items.len(),
        items[i] is Line,
    ensures
        ({
            let at = bake_views(items.take(i), fg).len() as int;
            let c = bake_views(items, fg)[at];
            let l = items[i]->Line_0;
            &&& bake_views(items.take(i + 1), fg).len() == at + 1
            &&& at < bake_views(items, fg).len()
            &&& l.dashed ==> {
                &&& c.cmd_type == CmdType::Path
                &&& c.params == seq![
                    Param::Seg(Seg::MoveTo),
                    Param::Coord(l.x),
                    Param::Coord(l.y),
                    Param::Seg(Seg::LineTo),
                    Param::Coord(l.x_end),
                    Param::Coord(l.y),
                    Param::Seg(Seg::Close),
                ]
                &&& c.fill is None
                &&& c.stroke == Some(fg)
                &&& c.stroke_width == Some(l.stroke_width)
                &&& c.dash == Some(seq![l.dash, l.dash])
            }
            &&& !l.dashed ==> {
                &&& c.cmd_type == CmdType::Rect
                &&& c.params == seq![
                    Param::Coord(l.x),
                    Param::Coord(l.top),
                    Param::Coord(l.width),
                    Param::Coord(l.thickness),
                ]
                &&& c.fill == Some(fg)
                &&& c.stroke is None
                &&& c.stroke_width is None
                &&& c.dash is None
            }
        }),
{
    lemma_item_at_its_place(items, fg, i);
    match items[i] {
        BakeItem::Line(l) => {
            assert(item_views(items[i], fg)[0] == line_view(l, fg));
        },
        _ => {},
    }
}

/// Law: an SVG path is drawn at its place. When filled, as one command per
/// sub-path, in order, each filled with the foreground and holding the
/// encoding of its sub-path; when not filled, as exactly one command
/// holding the encoding of the whole path, stroked with the foreground at
/// the item's stroke width.
pub proof fn lemma_path_item_is_drawn<S>(items: Seq<BakeItem<S>>, fg: Seq<char>, i: int)
    requires
        0 <= i < items.len(),
        items[i] is Path,
    ensures
        ({
            let at = bake_views(items.take(i), fg).len() as int;
            let cmds = items[i]->Path_commands@;
            let n = if items[i]->Path_fill { subpaths(cmds).len() as int } else { 1int };
            &&& bake_views(items.take(i + 1), fg).len() == at + n
            &&& at + n <= bake_views(items, fg).len()
            &&& forall|j: int|
                0 <= j < n ==> {
                    let c = #[trigger] bake_views(items, fg)[at + j];
                    &&& c.cmd_type == CmdType::Path
                    &&& c.dash is None
                    &&& items[i]->Path_fill ==> {
                        &&& c.params == encode_commands(subpaths(cmds)[j])
                        &&& c.fill == Some(fg)
                        &&& c.stroke is None
                        &&& c.stroke_width is None
                    }
                    &&& !items[i]->Path_fill ==> {
                        &&& c.params == encode_commands(cmds)
                        &&& c.fill is None
                        &&& c.stroke == Some(fg)
                        &&& c.stroke_width == Some(items[i]->Path_stroke_width)
                    }
                }
        }),
{
    lemma_item_at_its_place(items, fg, i);
    let at = bake_views(items.take(i), fg).len() as int;
    let n = item_views(items[i], fg).len() as int;
    match items[i] {
        BakeItem::Path { commands, fill, stroke_width } => {
            let cmds = commands@;
            assert forall|j: int| 0 <= j < n implies {
                let c = #[trigger] bake_views(items, fg)[at + j];
                &&& c.cmd_type == CmdType::Path
                &&& c.dash is None
                &&& fill ==> {
                    &&& c.params == encode_commands(subpaths(cmds)[j])
                    &&& c.fill == Some(fg)
                    &&& c.stroke is None
                    &&& c.stroke_width is None
                }
                &&& !fill ==> {
                    &&& c.params == encode_commands(cmds)
                    &&& c.fill is None
                    &&& c.stroke == Some(fg)
                    &&& c.stroke_width == Some(stroke_width)
                }
            } by {
                assert(bake_views(items, fg)[at + j] == item_views(items[i], fg)[j]);
                if fill {
                    assert(item_views(items[i], fg)[j] == filled_path(encode_commands(subpaths(cmds)[j]), fg));
                } else {
                    assert(item_views(items[i], fg)[j] == stroked_path(encode_commands(cmds), fg, stroke_width));
                }
            }
        },
        _ => {},
    }
}

/// Turns placed items into canvas commands, all painted in `foreground`.
pub fn bake_commands<S: Copy>(items: &[BakeItem<S>], foreground: &str) -> (cmds: Vec<DrawCmd<S>>)
    ensures
        cmd_views(cmds@) == bake_views(items@, foreground@),
{
    let mut cmds: Vec<DrawCmd<S>> = Vec::new();
    let mut i: usize = 0;
    while i < items.len()
        invariant
            0 <= i <= items@.len(),
            cmd_views(cmds@) == bake_views(items@.take(i as int), foreground@),
        decreases items@.len() - i,
    {
        let ghost before = cmds@;
        match &items[i] {
            BakeItem::Glyph(curves) => {
                if let Some(cmd) = glyph_cmd(curves.as_slice(), foreground) {
                    cmds.push(cmd);
                    proof {
                        assert(cmd_views(cmds@) =~= cmd_views(before) + item_views(items@[i as int], foreground@));
                    }
                } else {
                    proof {
                        assert(cmd_views(cmds@) =~= cmd_views(before) + item_views(items@[i as int], foreground@));
                    }
                }
            },
            BakeItem::Line(line) => {
                let cmd = line_cmd(line, foreground);
                cmds.push(cmd);
                proof {
                    assert(cmd_views(cmds@) =~= cmd_views(before) + item_views(items@[i as int], foreground@));
                }
            },
            BakeItem::Rect { x, y, width, height } => {
                let cmd = rect_cmd(*x, *y, *width, *height, foreground);
                cmds.push(cmd);
                proof {
                    assert(cmd_views(cmds@) =~= cmd_views(before) + item_views(items@[i as int], foreground@));
                }
            },
            BakeItem::Path { commands, fill, stroke_width } => {
                emit_svg_path(&mut cmds, commands.as_slice(), *fill, *stroke_width, foreground);
            },
        }
        proof {
            assert(items@.take(i + 1).drop_last() =~= items@.take(i as int));
            assert(items@.take(i + 1).last() == items@[i as int]);
        }
        i = i + 1;
    }
    proof {
        assert(items@.take(i as int) =~= items@);
    }
    cmds
}

/// Bakes a whole frame: a single dirty layer of kind "math" at depth 0
/// holding the items' commands, with the given size.
pub fn bake_frame<S: Copy>(items: &[BakeItem<S>], foreground: &str, width: S, height: S) -> (frame: Frame<S>)
    ensures
        frame.width == width,
        frame.height == height,
        frame.layers@.len() == 1,
        frame.layers@[0].kind@ == math_layer_kind(),
        frame.layers@[0].kind@ == "math"@,
        frame.layers@[0].dirty,
        frame.layers@[0].z_index == 0,
        cmd_views(frame.layers@[0].commands@) == bake_views(items@, foreground@),
{
    let commands = bake_commands(items, foreground);
    let layer = Layer { kind: "math".to_owned(), dirty: true, z_index: 0, commands };
    Frame { layers: vec![layer], width, height }
}

} // verus!
