//! Glyph outlines as filled path commands.
//!
//! A glyph is drawn as the vector outline of its font glyph, not as text, so
//! the host's text shaping cannot disturb the math layout. The outline is a
//! list of curves; a curve that does not start where the previous one ended
//! opens a new contour, and the previous contour is closed first.

use vstd::prelude::*;
use crate::draw::{CmdType, DrawCmd, DrawCmdView, fill_path_cmd, filled_path};
use crate::encoding::{
    Param, Seg, coords_only, lemma_single_segment, lemma_well_encoded_concat, starts_with_move,
    well_encoded,
};

verus! {

/// A point of an outline, placed on the canvas.
#[derive(Debug, Clone, Copy, PartialEq)]
pub struct Point<S> {
    pub x: S,
    pub y: S,
}

/// One curve of a glyph outline, with its points placed on the canvas.
#[derive(Debug, Clone, Copy, PartialEq)]
pub enum OutlineCurve<S> {
    Line(Point<S>, Point<S>),
    Quad(Point<S>, Point<S>, Point<S>),
    Cubic(Point<S>, Point<S>, Point<S>, Point<S>),
}

/// A curve of an outline, and whether it starts where the previous curve
/// ended (within the host's tolerance).
#[derive(Debug, Clone, Copy, PartialEq)]
pub struct ContourCurve<S> {
    pub curve: OutlineCurve<S>,
    pub continues: bool,
}

/// Where a curve starts.
pub open spec fn curve_start<S>(c: OutlineCurve<S>) -> Point<S> {
    match c {
        OutlineCurve::Line(p0, _) => p0,
        OutlineCurve::Quad(p0, _, _) => p0,
        OutlineCurve::Cubic(p0, _, _, _) => p0,
    }
}

/// The segment a curve draws from where the pen is.
pub open spec fn curve_segment<S>(c: OutlineCurve<S>) -> Seq<Param<S>> {
    match c {
        OutlineCurve::Line(_, p1) => seq![Param::Seg(Seg::LineTo), Param::Coord(p1.x), Param::Coord(p1.y)],
        OutlineCurve::Quad(_, p1, p2) => seq![
            Param::Seg(Seg::QuadTo),
            Param::Coord(p1.x),
            Param::Coord(p1.y),
            Param::Coord(p2.x),
            Param::Coord(p2.y),
        ],
        OutlineCurve::Cubic(_, p1, p2, p3) => seq![
            Param::Seg(Seg::CubicTo),
            Param::Coord(p1.x),
            Param::Coord(p1.y),
            Param::Coord(p2.x),
            Param::Coord(p2.y),
            Param::Coord(p3.x),
            Param::Coord(p3.y),
        ],
    }
}

/// What one curve contributes: the first curve moves to its start; a later
/// curve that does not continue the contour closes it and moves to its
/// start; then the curve's own segment.
pub open spec fn curve_params<S>(c: ContourCurve<S>, first: bool) -> Seq<Param<S>> {
    let s = curve_start(c.curve);
    let lead = if first {
        seq![Param::Seg(Seg::MoveTo), Param::Coord(s.x), Param::Coord(s.y)]
    } else if !c.continues {
        seq![Param::Seg(Seg::Close), Param::Seg(Seg::MoveTo), Param::Coord(s.x), Param::Coord(s.y)]
    } else {
        seq![]
    };
    lead + curve_segment(c.curve)
}

/// The stream of an outline's curves, before the final close.
pub open spec fn outline_body<S>(curves: Seq<ContourCurve<S>>) -> Seq<Param<S>>
    decreases curves.len(),
{
    if curves.len() == 0 {
        seq![]
    } else {
        outline_body(curves.drop_last()) + curve_params(curves.last(), curves.len() == 1)
    }
}

/// The full stream of a non-empty outline: its curves, then a close.
pub open spec fn outline_params<S>(curves: Seq<ContourCurve<S>>) -> Seq<Param<S>> {
    outline_body(curves) + seq![Param::Seg(Seg::Close)]
}

/// The command a glyph becomes: nothing for a glyph without outline (a
/// space), else one filled path.
pub open spec fn glyph_view<S>(curves: Seq<ContourCurve<S>>, fg: Seq<char>) -> Option<DrawCmdView<S>> {
    if curves.len() == 0 {
        None
    } else {
        Some(filled_path(outline_params(curves), fg))
    }
}

/// The segment of a curve is well encoded.
proof fn lemma_curve_segment_well_encoded<S>(c: OutlineCurve<S>)
    ensures
        well_encoded(curve_segment(c)),
{
    let p = curve_segment(c);
    match c {
        OutlineCurve::Line(_, _) => {
            assert(coords_only(p.subrange(1, p.len() as int)));
            lemma_single_segment(p, Seg::LineTo);
        },
        OutlineCurve::Quad(_, _, _) => {
            assert(coords_only(p.subrange(1, p.len() as int)));
            lemma_single_segment(p, Seg::QuadTo);
        },
        OutlineCurve::Cubic(_, _, _, _) => {
            assert(coords_only(p.subrange(1, p.len() as int)));
            lemma_single_segment(p, Seg::CubicTo);
        },
    }
}

/// What one curve contributes is well encoded, and the first curve's
/// contribution opens with a move.
proof fn lemma_curve_params_well_encoded<S>(c: ContourCurve<S>, first: bool)
    ensures
        well_encoded(curve_params(c, first)),
        first ==> starts_with_move(curve_params(c, first)),
{
    let st = curve_start(c.curve);
    let mv: Seq<Param<S>> = seq![Param::Seg(Seg::MoveTo), Param::Coord(st.x), Param::Coord(st.y)];
    assert(coords_only(mv.subrange(1, mv.len() as int)));
    lemma_single_segment(mv, Seg::MoveTo);
    let cl: Seq<Param<S>> = seq![Param::Seg(Seg::Close)];
    assert(coords_only(cl.subrange(1, cl.len() as int)));
    lemma_single_segment(cl, Seg::Close);
    lemma_well_encoded_concat(cl, mv);
    assert(cl + mv =~= seq![Param::Seg(Seg::Close), Param::Seg(Seg::MoveTo), Param::Coord(st.x), Param::Coord(st.y)]);
    assert(well_encoded(Seq::<Param<S>>::empty())) by {}
    lemma_curve_segment_well_encoded(c.curve);
    let lead = if first {
        mv
    } else if !c.continues {
        cl + mv
    } else {
        Seq::<Param<S>>::empty()
    };
    lemma_well_encoded_concat(lead, curve_segment(c.curve));
    assert(curve_params(c, first) =~= lead + curve_segment(c.curve));
}

/// The body of a non-empty outline opens with a move and is well encoded.
proof fn lemma_outline_body<S>(curves: Seq<ContourCurve<S>>)
    ensures
        well_encoded(outline_body(curves)),
        curves.len() > 0 ==> starts_with_move(outline_body(curves)),
    decreases curves.len(),
{
    if curves.len() > 0 {
        let d = curves.drop_last();
        lemma_outline_body(d);
        lemma_curve_params_well_encoded(curves.last(), curves.len() == 1);
        lemma_well_encoded_concat(outline_body(d), curve_params(curves.last(), curves.len() == 1));
        if curves.len() == 1 {
            assert(outline_body(d) =~= Seq::<Param<S>>::empty());
            assert(outline_body(curves) =~= curve_params(curves.last(), true));
        } else {
            assert(outline_body(curves)[0] == outline_body(d)[0]);
        }
    }
}

/// Law: the stream of a non-empty glyph outline is well encoded, opens with
/// a move and ends with a close, so every contour it draws is closed.
pub proof fn lemma_outline_params_well_formed<S>(curves: Seq<ContourCurve<S>>)
    requires
        curves.len() > 0,
    ensures
        well_encoded(outline_params(curves)),
        starts_with_move(outline_params(curves)),
        outline_params(curves).last() == Param::<S>::Seg(Seg::Close),
{
    lemma_outline_body(curves);
    let cl: Seq<Param<S>> = seq![Param::Seg(Seg::Close)];
    assert(coords_only(cl.subrange(1, cl.len() as int)));
    lemma_single_segment(cl, Seg::Close);
    lemma_well_encoded_concat(outline_body(curves), cl);
    assert(outline_params(curves)[0] == outline_body(curves)[0]);
}

/// Encodes a glyph outline as a filled path command.
pub fn glyph_cmd<S: Copy>(curves: &[ContourCurve<S>], foreground: &str) -> (cmd: Option<DrawCmd<S>>)
    ensures
        match cmd {
            Some(c) => glyph_view(curves@, foreground@) == Some(c@),
            None => glyph_view(curves@, foreground@) is None,
        },
{
    if curves.len() == 0 {
        return None;
    }
    let mut params: Vec<Param<S>> = Vec::new();
    let mut i: usize = 0;
    while i < curves.len()
        invariant
            0 <= i <= curves@.len(),
            params@ == outline_body(curves@.take(i as int)),
        decreases curves@.len() - i,
    {
        let cc = curves[i];
        let start = match cc.curve {
            OutlineCurve::Line(p0, _) => p0,
            OutlineCurve::Quad(p0, _, _) => p0,
            OutlineCurve::Cubic(p0, _, _, _) => p0,
        };
        let need_move = i == 0 || !cc.continues;
        if need_move {
            if i > 0 {
                params.push(Param::Seg(Seg::Close));
            }
            params.push(Param::Seg(Seg::MoveTo));
            params.push(Param::Coord(start.x));
            params.push(Param::Coord(start.y));
        }
        match cc.curve {
            OutlineCurve::Line(_, p1) => {
                params.push(Param::Seg(Seg::LineTo));
                params.push(Param::Coord(p1.x));
                params.push(Param::Coord(p1.y));
            },
            OutlineCurve::Quad(_, p1, p2) => {
                params.push(Param::Seg(Seg::QuadTo));
                params.push(Param::Coord(p1.x));
                params.push(Param::Coord(p1.y));
                params.push(Param::Coord(p2.x));
                params.push(Param::Coord(p2.y));
            },
            OutlineCurve::Cubic(_, p1, p2, p3) => {
                params.push(Param::Seg(Seg::CubicTo));
                params.push(Param::Coord(p1.x));
                params.push(Param::Coord(p1.y));
                params.push(Param::Coord(p2.x));
                params.push(Param::Coord(p2.y));
                params.push(Param::Coord(p3.x));
                params.push(Param::Coord(p3.y));
            },
        }
        proof {
            assert(curves@.take(i + 1).drop_last() =~= curves@.take(i as int));
            assert(curves@.take(i + 1).last() == cc);
            assert(params@ =~= outline_body(curves@.take(i as int)) + curve_params(cc, i == 0));
        }
        i = i + 1;
    }
    proof {
        assert(curves@.take(i as int) =~= curves@);
        assert(curve_segment(curves@.last().curve).len() > 0);
        assert(params@.len() > 0);
    }
    if params.len() == 0 {
        return None;
    }
    params.push(Param::Seg(Seg::Close));
    proof {
        assert(params@ =~= outline_params(curves@));
    }
    Some(fill_path_cmd(params, foreground))
}

/// The glyph a display glyph is drawn with, given the face and glyph index
/// found in the requested font and in the fallback font (index 0 is the
/// font's "missing glyph"): the requested glyph when that font has it; the
/// fallback's when only the fallback has it; none when neither does, or when
/// no face could be opened for the requested font at all.
pub open spec fn chosen_glyph<F>(requested: Option<(F, u16)>, fallback: Option<(F, u16)>) -> Option<(F, u16)> {
    match requested {
        None => None,
        Some((face, gid)) => if gid != 0 {
            Some((face, gid))
        } else {
            match fallback {
                Some((fface, fgid)) => if fgid != 0 {
                    Some((fface, fgid))
                } else {
                    None
                },
                None => None,
            }
        },
    }
}

/// The stream of the first curves of an outline is the front of the stream
/// of the whole outline.
proof fn lemma_outline_body_prefix<S>(curves: Seq<ContourCurve<S>>, n: int)
    requires
        0 <= n <= curves.len(),
    ensures
        outline_body(curves.take(n)).len() <= outline_body(curves).len(),
        outline_body(curves).subrange(0, outline_body(curves.take(n)).len() as int) =~= outline_body(
            curves.take(n),
        ),
    decreases curves.len() - n,
{
    if n < curves.len() {
        lemma_outline_body_prefix(curves, n + 1);
        let t = curves.take(n + 1);
        assert(t.drop_last() =~= curves.take(n));
        assert(t.last() == curves[n]);
        let a = outline_body(curves.take(n));
        let b = outline_body(t);
        assert(b == a + curve_params(curves[n], n + 1 == 1));
        let whole = outline_body(curves);
        assert(whole.subrange(0, a.len() as int) =~= whole.subrange(0, b.len() as int).subrange(
            0,
            a.len() as int,
        ));
        assert(b.subrange(0, a.len() as int) =~= a);
    } else {
        assert(curves.take(n) =~= curves);
    }
}

/// Law: every curve of a glyph is drawn, and every contour starts at the
/// first point of the curve that opens it. For each curve the stream holds
/// the curve's segment through its remaining points; when the curve opens a
/// contour (the first curve, or one that does not continue the previous
/// one) the segment is preceded by a move to the curve's first point `p0`,
/// and, unless it is the first contour, by a close of the contour before.
/// The first contour opens the stream.
pub proof fn lemma_contours_start_at_first_point<S>(curves: Seq<ContourCurve<S>>, i: int)
    requires
        0 <= i < curves.len(),
    ensures
        exists|k: int|
            #![trigger outline_params(curves)[k]]
            {
                let p = outline_params(curves);
                let opens = i == 0 || !curves[i].continues;
                let seg_at = if opens { k + 3 } else { k };
                &&& 0 <= k
                &&& i == 0 ==> k == 0
                &&& opens ==> {
                    &&& p[k] == Param::<S>::Seg(Seg::MoveTo)
                    &&& k + 3 <= p.len()
                    &&& match curves[i].curve {
                        OutlineCurve::Line(p0, _) => p.subrange(k + 1, k + 3) == seq![
                            Param::Coord(p0.x),
                            Param::Coord(p0.y),
                        ],
                        OutlineCurve::Quad(p0, _, _) => p.subrange(k + 1, k + 3) == seq![
                            Param::Coord(p0.x),
                            Param::Coord(p0.y),
                        ],
                        OutlineCurve::Cubic(p0, _, _, _) => p.subrange(k + 1, k + 3) == seq![
                            Param::Coord(p0.x),
                            Param::Coord(p0.y),
                        ],
                    }
                }
                &&& (opens && i > 0) ==> (k >= 1 && p[k - 1] == Param::<S>::Seg(Seg::Close))
                &&& match curves[i].curve {
                    OutlineCurve::Line(_, p1) => {
                        &&& seg_at + 3 <= p.len()
                        &&& p.subrange(seg_at, seg_at + 3) == seq![
                            Param::Seg(Seg::LineTo),
                            Param::Coord(p1.x),
                            Param::Coord(p1.y),
                        ]
                    },
                    OutlineCurve::Quad(_, p1, p2) => {
                        &&& seg_at + 5 <= p.len()
                        &&& p.subrange(seg_at, seg_at + 5) == seq![
                            Param::Seg(Seg::QuadTo),
                            Param::Coord(p1.x),
                            Param::Coord(p1.y),
                            Param::Coord(p2.x),
                            Param::Coord(p2.y),
                        ]
                    },
                    OutlineCurve::Cubic(_, p1, p2, p3) => {
                        &&& seg_at + 7 <= p.len()
                        &&& p.subrange(seg_at, seg_at + 7) == seq![
                            Param::Seg(Seg::CubicTo),
                            Param::Coord(p1.x),
                            Param::Coord(p1.y),
                            Param::Coord(p2.x),
                            Param::Coord(p2.y),
                            Param::Coord(p3.x),
                            Param::Coord(p3.y),
                        ]
                    },
                }
            },
{
    lemma_curve_params_in_stream(curves, i);
    let a = outline_body(curves.take(i)).len() as int;
    let cp = curve_params(curves[i], i == 0);
    let p = outline_params(curves);
    let opens = i == 0 || !curves[i].continues;
    let off = if i == 0 || curves[i].continues { 0int } else { 1int };
    let k = a + off;
    let seg_at = if opens { k + 3 } else { k };
    if i == 0 {
        assert(curves.take(0) =~= Seq::<ContourCurve<S>>::empty());
    }
    assert(p[k] == cp[off]);
    if opens && i > 0 {
        assert(p[k - 1] == cp[0]);
    }
    let st = curve_start(curves[i].curve);
    if opens {
        assert(p[k + 1] == cp[off + 1]);
        assert(p[k + 2] == cp[off + 2]);
        assert(p.subrange(k + 1, k + 3) =~= seq![Param::Coord(st.x), Param::Coord(st.y)]);
    }
    let sl = curve_segment(curves[i].curve).len() as int;
    let so = seg_at - a;
    assert(cp.subrange(so, so + sl) =~= curve_segment(curves[i].curve));
    assert(p.subrange(seg_at, seg_at + sl) =~= cp.subrange(so, so + sl));
}

/// Law: a glyph's stream opens with a move to the first point `p0` of its
/// first curve, whatever kind of curve that is.
pub proof fn lemma_outline_opens_at_first_point<S>(curves: Seq<ContourCurve<S>>)
    requires
        curves.len() > 0,
    ensures
        outline_params(curves).len() >= 3,
        outline_params(curves)[0] == Param::<S>::Seg(Seg::MoveTo),
        match curves[0].curve {
            OutlineCurve::Line(p0, _) => outline_params(curves)[1] == Param::Coord(p0.x)
                && outline_params(curves)[2] == Param::Coord(p0.y),
            OutlineCurve::Quad(p0, _, _) => outline_params(curves)[1] == Param::Coord(p0.x)
                && outline_params(curves)[2] == Param::Coord(p0.y),
            OutlineCurve::Cubic(p0, _, _, _) => outline_params(curves)[1] == Param::Coord(p0.x)
                && outline_params(curves)[2] == Param::Coord(p0.y),
        },
{
    lemma_curve_params_in_stream(curves, 0);
    assert(curves.take(0) =~= Seq::<ContourCurve<S>>::empty());
    let cp = curve_params(curves[0], true);
    assert(outline_params(curves)[0] == cp[0]);
    assert(outline_params(curves)[1] == cp[1]);
    assert(outline_params(curves)[2] == cp[2]);
}

/// The stream of one curve stands in the outline's stream right after the
/// stream of the curves before it.
proof fn lemma_curve_params_in_stream<S>(curves: Seq<ContourCurve<S>>, i: int)
    requires
        0 <= i < curves.len(),
    ensures
        ({
            let a = outline_body(curves.take(i)).len() as int;
            let cp = curve_params(curves[i], i == 0);
            &&& a + cp.len() <= outline_params(curves).len()
            &&& forall|j: int| 0 <= j < cp.len() ==> outline_params(curves)[a + j] == #[trigger] cp[j]
        }),
{
    lemma_outline_body_prefix(curves, i + 1);
    let t = curves.take(i + 1);
    assert(t.drop_last() =~= curves.take(i));
    assert(t.last() == curves[i]);
    let a = outline_body(curves.take(i));
    let cp = curve_params(curves[i], i == 0);
    let b = outline_body(t);
    assert(b == a + cp);
    let p = outline_params(curves);
    let whole = outline_body(curves);
    assert forall|j: int| 0 <= j < cp.len() implies p[a.len() + j] == #[trigger] cp[j] by {
        assert(whole.subrange(0, b.len() as int)[a.len() + j] == b[a.len() + j]);
    }
}

/// How many entries of a stream are the given prefix.
pub open spec fn count_prefix<S>(p: Seq<Param<S>>, seg: Seg) -> nat
    decreases p.len(),
{
    if p.len() == 0 {
        0
    } else {
        count_prefix(p.drop_last(), seg) + if p.last() == Param::<S>::Seg(seg) {
            1nat
        } else {
            0nat
        }
    }
}

/// How many curves of an outline open a contour: the first one, and every
/// one that does not continue the previous curve.
pub open spec fn contour_count<S>(curves: Seq<ContourCurve<S>>) -> nat
    decreases curves.len(),
{
    if curves.len() == 0 {
        0
    } else {
        contour_count(curves.drop_last()) + if curves.len() == 1 || !curves.last().continues {
            1nat
        } else {
            0nat
        }
    }
}

proof fn lemma_count_prefix_concat<S>(a: Seq<Param<S>>, b: Seq<Param<S>>, seg: Seg)
    ensures
        count_prefix(a + b, seg) == count_prefix(a, seg) + count_prefix(b, seg),
    decreases b.len(),
{
    if b.len() == 0 {
        assert(a + b =~= a);
    } else {
        lemma_count_prefix_concat(a, b.drop_last(), seg);
        assert((a + b).drop_last() =~= a + b.drop_last());
    }
}

proof fn lemma_count_small<S>(p: Seq<Param<S>>, seg: Seg)
    requires
        p.len() <= 4,
    ensures
        count_prefix(p, seg) == (if p.len() > 0 && p[0] == Param::<S>::Seg(seg) { 1nat } else { 0nat })
            + (if p.len() > 1 && p[1] == Param::<S>::Seg(seg) { 1nat } else { 0nat })
            + (if p.len() > 2 && p[2] == Param::<S>::Seg(seg) { 1nat } else { 0nat })
            + (if p.len() > 3 && p[3] == Param::<S>::Seg(seg) { 1nat } else { 0nat }),
    decreases p.len(),
{
    if p.len() > 0 {
        lemma_count_small(p.drop_last(), seg);
    }
}

proof fn lemma_count_segment<S>(c: OutlineCurve<S>, seg: Seg)
    requires
        seg == Seg::MoveTo || seg == Seg::Close,
    ensures
        count_prefix(curve_segment(c), seg) == 0,
{
    let q = curve_segment(c);
    lemma_count_prefix_concat(q.subrange(0, 1), q.subrange(1, q.len() as int), seg);
    assert(q =~= q.subrange(0, 1) + q.subrange(1, q.len() as int));
    lemma_count_small(q.subrange(0, 1), seg);
    let r = q.subrange(1, q.len() as int);
    if r.len() > 4 {
        lemma_count_prefix_concat(r.subrange(0, 4), r.subrange(4, r.len() as int), seg);
        assert(r =~= r.subrange(0, 4) + r.subrange(4, r.len() as int));
        lemma_count_small(r.subrange(0, 4), seg);
        lemma_count_small(r.subrange(4, r.len() as int), seg);
    } else {
        lemma_count_small(r, seg);
    }
}

proof fn lemma_count_outline_body<S>(curves: Seq<ContourCurve<S>>)
    ensures
        count_prefix(outline_body(curves), Seg::MoveTo) == contour_count(curves),
        count_prefix(outline_body(curves), Seg::Close) + (if curves.len() > 0 { 1int } else { 0int })
            == contour_count(curves),
    decreases curves.len(),
{
    if curves.len() > 0 {
        let d = curves.drop_last();
        lemma_count_outline_body(d);
        let c = curves.last();
        let first = curves.len() == 1;
        let st = curve_start(c.curve);
        let lead: Seq<Param<S>> = if first {
            seq![Param::Seg(Seg::MoveTo), Param::Coord(st.x), Param::Coord(st.y)]
        } else if !c.continues {
            seq![Param::Seg(Seg::Close), Param::Seg(Seg::MoveTo), Param::Coord(st.x), Param::Coord(st.y)]
        } else {
            seq![]
        };
        assert(curve_params(c, first) =~= lead + curve_segment(c.curve));
        lemma_count_prefix_concat(outline_body(d), curve_params(c, first), Seg::MoveTo);
        lemma_count_prefix_concat(outline_body(d), curve_params(c, first), Seg::Close);
        lemma_count_prefix_concat(lead, curve_segment(c.curve), Seg::MoveTo);
        lemma_count_prefix_concat(lead, curve_segment(c.curve), Seg::Close);
        lemma_count_small(lead, Seg::MoveTo);
        lemma_count_small(lead, Seg::Close);
        lemma_count_segment(c.curve, Seg::MoveTo);
        lemma_count_segment(c.curve, Seg::Close);
        if first {
            assert(d =~= Seq::<ContourCurve<S>>::empty());
        }
    }
}

/// Law: a glyph's stream moves once per contour and closes once per
/// contour: it holds exactly as many moves, and as many closes, as the
/// outline has curves that open a contour.
pub proof fn lemma_one_move_and_close_per_contour<S>(curves: Seq<ContourCurve<S>>)
    requires
        curves.len() > 0,
    ensures
        count_prefix(outline_params(curves), Seg::MoveTo) == contour_count(curves),
        count_prefix(outline_params(curves), Seg::Close) == contour_count(curves),
{
    lemma_count_outline_body(curves);
    let cl: Seq<Param<S>> = seq![Param::Seg(Seg::Close)];
    lemma_count_prefix_concat(outline_body(curves), cl, Seg::MoveTo);
    lemma_count_prefix_concat(outline_body(curves), cl, Seg::Close);
    lemma_count_small(cl, Seg::MoveTo);
    lemma_count_small(cl, Seg::Close);
}

/// Law: a glyph with an outline becomes exactly one path, filled with the
/// foreground and neither stroked nor dashed, holding the outline's stream;
/// a glyph without outline becomes nothing.
pub proof fn lemma_glyph_view<S>(curves: Seq<ContourCurve<S>>, fg: Seq<char>)
    ensures
        curves.len() == 0 ==> glyph_view(curves, fg) is None,
        curves.len() > 0 ==> (glyph_view(curves, fg) matches Some(c) && c.cmd_type == CmdType::Path
            && c.params == outline_params(curves) && c.fill == Some(fg) && c.stroke is None
            && c.stroke_width is None && c.dash is None),
{
}

/// Law: a glyph the requested font has is drawn from that font, whatever
/// the fallback lookup gave (nothing at all included).
pub proof fn lemma_requested_glyph_wins<F>(face: F, gid: u16, fallback: Option<(F, u16)>)
    requires
        gid != 0,
    ensures
        chosen_glyph(Some((face, gid)), fallback) == Some((face, gid)),
{
}

/// Law: a glyph the requested font lacks is drawn from the fallback font
/// when that has it, and skipped when it does not; with no face for the
/// requested font the glyph is skipped.
pub proof fn lemma_fallback_glyph<F>(face: F, fallback: Option<(F, u16)>)
    ensures
        chosen_glyph(Some((face, 0u16)), fallback) == match fallback {
            Some((f, g)) => if g != 0 {
                Some((f, g))
            } else {
                None
            },
            None => None,
        },
        chosen_glyph(None, fallback) is None,
{
}

/// Chooses the glyph to draw, as [`chosen_glyph`] describes.
pub fn choose_glyph<F>(requested: Option<(F, u16)>, fallback: Option<(F, u16)>) -> (r: Option<(F, u16)>)
    ensures
        r == chosen_glyph(requested, fallback),
{
    match requested {
        None => None,
        Some((face, gid)) => {
            if gid != 0 {
                Some((face, gid))
            } else {
                match fallback {
                    Some((fface, fgid)) => {
                        if fgid != 0 {
                            Some((fface, fgid))
                        } else {
                            None
                        }
                    },
                    None => None,
                }
            }
        },
    }
}

} // verus!
