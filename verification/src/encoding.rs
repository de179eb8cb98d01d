//! Segment-prefix encoding of canvas paths.
//!
//! A path is sent to the canvas as one flat parameter stream: each segment
//! is a prefix (`0` move, `1` line, `2` cubic, `3` quad, `5` close) followed
//! by exactly the coordinates that segment needs. Here the stream is kept as
//! a sequence of [`Param`]s, so a prefix can never be mistaken for a
//! coordinate; the host turns each prefix into its number when it sends it.

use vstd::prelude::*;

verus! {

/// A segment prefix of the path encoding.
#[derive(Debug, Clone, Copy, PartialEq, Eq)]
pub enum Seg {
    MoveTo,
    LineTo,
    CubicTo,
    QuadTo,
    Close,
}

impl Seg {
    /// The number the canvas protocol uses for this prefix.
    pub open spec fn prefix_code(self) -> u8 {
        match self {
            Seg::MoveTo => 0,
            Seg::LineTo => 1,
            Seg::CubicTo => 2,
            Seg::QuadTo => 3,
            Seg::Close => 5,
        }
    }

    /// How many coordinates follow this prefix in the stream.
    pub open spec fn arity(self) -> nat {
        match self {
            Seg::MoveTo => 2,
            Seg::LineTo => 2,
            Seg::CubicTo => 6,
            Seg::QuadTo => 4,
            Seg::Close => 0,
        }
    }

    /// The number the canvas protocol uses for this prefix.
    pub fn code(self) -> (c: u8)
        ensures
            c == self.prefix_code(),
    {
        match self {
            Seg::MoveTo => 0,
            Seg::LineTo => 1,
            Seg::CubicTo => 2,
            Seg::QuadTo => 3,
            Seg::Close => 5,
        }
    }
}

/// One entry of a parameter stream: a segment prefix or a coordinate.
#[derive(Debug, Clone, Copy, PartialEq)]
pub enum Param<S> {
    Seg(Seg),
    Coord(S),
}

/// An SVG-style path command, in the coordinates it is to be drawn at.
#[derive(Debug, Clone, Copy, PartialEq)]
pub enum PathCommand<S> {
    MoveTo { x: S, y: S },
    LineTo { x: S, y: S },
    CubicTo { x1: S, y1: S, x2: S, y2: S, x: S, y: S },
    QuadTo { x1: S, y1: S, x: S, y: S },
    Close,
}

/// The parameters one command contributes to the stream.
pub open spec fn command_params<S>(c: PathCommand<S>) -> Seq<Param<S>> {
    match c {
        PathCommand::MoveTo { x, y } => seq![Param::Seg(Seg::MoveTo), Param::Coord(x), Param::Coord(y)],
        PathCommand::LineTo { x, y } => seq![Param::Seg(Seg::LineTo), Param::Coord(x), Param::Coord(y)],
        PathCommand::CubicTo { x1, y1, x2, y2, x, y } => seq![
            Param::Seg(Seg::CubicTo),
            Param::Coord(x1),
            Param::Coord(y1),
            Param::Coord(x2),
            Param::Coord(y2),
            Param::Coord(x),
            Param::Coord(y),
        ],
        PathCommand::QuadTo { x1, y1, x, y } => seq![
            Param::Seg(Seg::QuadTo),
            Param::Coord(x1),
            Param::Coord(y1),
            Param::Coord(x),
            Param::Coord(y),
        ],
        PathCommand::Close => seq![Param::Seg(Seg::Close)],
    }
}

/// The stream of a whole command list: each command's parameters, in order.
pub open spec fn encode_commands<S>(cmds: Seq<PathCommand<S>>) -> Seq<Param<S>>
    decreases cmds.len(),
{
    if cmds.len() == 0 {
        seq![]
    } else {
        encode_commands(cmds.drop_last()) + command_params(cmds.last())
    }
}

/// Every entry is a coordinate.
pub open spec fn coords_only<S>(p: Seq<Param<S>>) -> bool {
    forall|i: int| 0 <= i < p.len() ==> (#[trigger] p[i]) is Coord
}

/// The stream reads as a sequence of segments: a prefix, then exactly as
/// many coordinates as that prefix takes, until the stream ends.
pub open spec fn well_encoded<S>(p: Seq<Param<S>>) -> bool
    decreases p.len(),
{
    if p.len() == 0 {
        true
    } else {
        match p[0] {
            Param::Seg(s) => {
                &&& 1 + s.arity() <= p.len()
                &&& coords_only(p.subrange(1, 1 + s.arity() as int))
                &&& well_encoded(p.skip(1 + s.arity() as int))
            },
            Param::Coord(_) => false,
        }
    }
}

/// The stream opens with a move.
pub open spec fn starts_with_move<S>(p: Seq<Param<S>>) -> bool {
    p.len() > 0 && p[0] == Param::<S>::Seg(Seg::MoveTo)
}

/// Indices of the move commands, in increasing order.
pub open spec fn move_positions<S>(cmds: Seq<PathCommand<S>>) -> Seq<int>
    decreases cmds.len(),
{
    if cmds.len() == 0 {
        seq![]
    } else {
        move_positions(cmds.drop_last()) + if cmds.last() is MoveTo {
            seq![cmds.len() - 1]
        } else {
            seq![]
        }
    }
}

/// Where the `j`-th sub-path ends: at the next move, or at the end.
pub open spec fn subpath_end(starts: Seq<int>, j: int, len: int) -> int {
    if j + 1 < starts.len() {
        starts[j + 1]
    } else {
        len
    }
}

/// The sub-paths of a command list: one per move, running up to the next
/// move or the end. Commands before the first move belong to none.
pub open spec fn subpaths<S>(cmds: Seq<PathCommand<S>>) -> Seq<Seq<PathCommand<S>>> {
    let starts = move_positions(cmds);
    Seq::new(
        starts.len(),
        |j: int| cmds.subrange(starts[j], subpath_end(starts, j, cmds.len() as int)),
    )
}

/// Law: the prefixes are the canvas protocol's numbers (move 0, line 1,
/// cubic 2, quad 3, close 5), all distinct, and each prefix takes the
/// coordinates of the points it draws to (two per point).
pub proof fn lemma_prefix_codes()
    ensures
        Seg::MoveTo.prefix_code() == 0 && Seg::MoveTo.arity() == 2,
        Seg::LineTo.prefix_code() == 1 && Seg::LineTo.arity() == 2,
        Seg::CubicTo.prefix_code() == 2 && Seg::CubicTo.arity() == 6,
        Seg::QuadTo.prefix_code() == 3 && Seg::QuadTo.arity() == 4,
        Seg::Close.prefix_code() == 5 && Seg::Close.arity() == 0,
{
}

/// Two well-encoded streams, one after the other, are well encoded.
pub proof fn lemma_well_encoded_concat<S>(a: Seq<Param<S>>, b: Seq<Param<S>>)
    requires
        well_encoded(a),
        well_encoded(b),
    ensures
        well_encoded(a + b),
    decreases a.len(),
{
    if a.len() == 0 {
        assert(a + b =~= b);
    } else {
        match a[0] {
            Param::Seg(s) => {
                let k = 1 + s.arity() as int;
                assert((a + b)[0] == a[0]);
                assert((a + b).subrange(1, k) =~= a.subrange(1, k));
                assert((a + b).skip(k) =~= a.skip(k) + b);
                lemma_well_encoded_concat(a.skip(k), b);
            },
            Param::Coord(_) => {},
        }
    }
}

/// A stream of one prefix and exactly its coordinates is well encoded.
pub proof fn lemma_single_segment<S>(p: Seq<Param<S>>, s: Seg)
    requires
        p.len() == 1 + s.arity(),
        p[0] == Param::<S>::Seg(s),
        coords_only(p.subrange(1, p.len() as int)),
    ensures
        well_encoded(p),
{
    assert(p.skip(p.len() as int) =~= Seq::<Param<S>>::empty());
    assert(well_encoded(p.skip(p.len() as int)));
}

/// What one command contributes is a single well-formed segment.
pub proof fn lemma_command_params_well_encoded<S>(c: PathCommand<S>)
    ensures
        well_encoded(command_params(c)),
{
    let p = command_params(c);
    match p[0] {
        Param::Seg(s) => {
            let k = 1 + s.arity() as int;
            assert(p.len() == k);
            assert(p.skip(k) =~= Seq::<Param<S>>::empty());
            assert(well_encoded(p.skip(k)));
            assert(coords_only(p.subrange(1, k)));
        },
        Param::Coord(_) => {},
    }
}

/// Law: encoding any command list yields a well-encoded stream, so a reader
/// that consumes each prefix's coordinates never runs short or meets an
/// unknown prefix.
pub proof fn lemma_encoding_well_formed<S>(cmds: Seq<PathCommand<S>>)
    ensures
        well_encoded(encode_commands(cmds)),
    decreases cmds.len(),
{
    if cmds.len() > 0 {
        lemma_encoding_well_formed(cmds.drop_last());
        lemma_command_params_well_encoded(cmds.last());
        lemma_well_encoded_concat(encode_commands(cmds.drop_last()), command_params(cmds.last()));
    }
}

/// The encoding of a list keeps the encoding of each prefix of it in front.
pub proof fn lemma_encoding_prefix<S>(cmds: Seq<PathCommand<S>>, n: int)
    requires
        0 <= n <= cmds.len(),
    ensures
        encode_commands(cmds.take(n)).len() <= encode_commands(cmds).len(),
        encode_commands(cmds) =~= encode_commands(cmds.take(n)) + encode_commands(cmds).skip(
            encode_commands(cmds.take(n)).len() as int,
        ),
    decreases cmds.len() - n,
{
    if n < cmds.len() {
        lemma_encoding_prefix(cmds, n + 1);
        assert(cmds.take(n + 1).drop_last() =~= cmds.take(n));
    } else {
        assert(cmds.take(n) =~= cmds);
    }
}

/// Law: a command list that opens with a move encodes to a stream that
/// opens with the move prefix.
pub proof fn lemma_encoding_starts_with_move<S>(cmds: Seq<PathCommand<S>>)
    requires
        cmds.len() > 0,
        cmds[0] is MoveTo,
    ensures
        starts_with_move(encode_commands(cmds)),
{
    lemma_encoding_prefix(cmds, 1);
    assert(cmds.take(1).drop_last() =~= Seq::<PathCommand<S>>::empty());
    assert(encode_commands(cmds.take(1).drop_last()) =~= Seq::<Param<S>>::empty());
    assert(cmds.take(1).last() == cmds[0]);
    assert(encode_commands(cmds.take(1)) =~= command_params(cmds[0]));
}

/// The move positions lie in the list, point at moves, increase strictly,
/// and include every move of the list.
pub proof fn lemma_move_positions<S>(cmds: Seq<PathCommand<S>>)
    ensures
        forall|j: int|
            0 <= j < move_positions(cmds).len() ==> 0 <= #[trigger] move_positions(cmds)[j] < cmds.len()
                && cmds[move_positions(cmds)[j]] is MoveTo,
        forall|j: int, k: int|
            0 <= j < k < move_positions(cmds).len() ==> #[trigger] move_positions(cmds)[j]
                < #[trigger] move_positions(cmds)[k],
        forall|i: int|
            0 <= i < cmds.len() && (#[trigger] cmds[i]) is MoveTo ==> move_positions(cmds).contains(i),
    decreases cmds.len(),
{
    if cmds.len() > 0 {
        let d = cmds.drop_last();
        lemma_move_positions(d);
        let md = move_positions(d);
        let m = move_positions(cmds);
        assert forall|j: int| 0 <= j < md.len() implies m[j] == md[j] by {}
        assert forall|i: int| 0 <= i < cmds.len() && (#[trigger] cmds[i]) is MoveTo implies m.contains(
            i,
        ) by {
            if i < cmds.len() - 1 {
                assert(d[i] == cmds[i]);
                let j = choose|j: int| 0 <= j < md.len() && md[j] == i;
                assert(m[j] == i);
            } else {
                assert(m[m.len() - 1] == i);
            }
        }
    }
}

/// Law: each sub-path opens with its move and holds no other move.
pub proof fn lemma_subpaths_open_with_their_move<S>(cmds: Seq<PathCommand<S>>)
    ensures
        forall|j: int|
            0 <= j < subpaths(cmds).len() ==> {
                let sp = #[trigger] subpaths(cmds)[j];
                &&& sp.len() > 0
                &&& sp[0] is MoveTo
                &&& forall|t: int| 1 <= t < sp.len() ==> !(sp[t] is MoveTo)
            },
{
    lemma_move_positions(cmds);
    let m = move_positions(cmds);
    let len = cmds.len() as int;
    assert forall|j: int| 0 <= j < subpaths(cmds).len() implies {
        let sp = #[trigger] subpaths(cmds)[j];
        &&& sp.len() > 0
        &&& sp[0] is MoveTo
        &&& forall|t: int| 1 <= t < sp.len() ==> !(sp[t] is MoveTo)
    } by {
        let e = subpath_end(m, j, len);
        if j + 1 < m.len() {
            assert(m[j] < m[j + 1]);
        }
        let sp = subpaths(cmds)[j];
        assert(sp == cmds.subrange(m[j], e));
        assert forall|t: int| 1 <= t < sp.len() implies !(sp[t] is MoveTo) by {
            let i = m[j] + t;
            assert(sp[t] == cmds[i]);
            if cmds[i] is MoveTo {
                assert(m.contains(i));
                let k = choose|k: int| 0 <= k < m.len() && m[k] == i;
                if k <= j {
                    if k < j {
                        assert(m[k] < m[j]);
                    }
                } else if j + 1 < m.len() {
                    if k > j + 1 {
                        assert(m[j + 1] < m[k]);
                    }
                }
            }
        }
    }
}

/// Consecutive runs between increasing cut points concatenate to the
/// stretch from the first cut to the end.
proof fn lemma_runs_flatten<T>(items: Seq<T>, starts: Seq<int>)
    requires
        starts.len() > 0,
        forall|j: int| 0 <= j < starts.len() ==> 0 <= #[trigger] starts[j] <= items.len(),
        forall|j: int, k: int| 0 <= j < k < starts.len() ==> #[trigger] starts[j] < #[trigger] starts[k],
    ensures
        Seq::new(
            starts.len(),
            |j: int| items.subrange(starts[j], subpath_end(starts, j, items.len() as int)),
        ).flatten() =~= items.subrange(starts[0], items.len() as int),
    decreases starts.len(),
{
    let len = items.len() as int;
    let runs = Seq::new(starts.len(), |j: int| items.subrange(starts[j], subpath_end(starts, j, len)));
    if starts.len() == 1 {
        assert(runs.drop_first() =~= Seq::<Seq<T>>::empty());
        assert(runs.drop_first().flatten() =~= Seq::<T>::empty());
        assert(runs.flatten() =~= runs[0]);
    } else {
        let rest = starts.drop_first();
        assert(starts[0] < starts[1]);
        lemma_runs_flatten(items, rest);
        let rest_runs = Seq::new(rest.len(), |j: int| items.subrange(rest[j], subpath_end(rest, j, len)));
        assert(runs.drop_first() =~= rest_runs);
        assert(runs[0] =~= items.subrange(starts[0], starts[1]));
        assert(runs.flatten() =~= runs[0] + rest_runs.flatten());
    }
}

/// Law: the sub-paths, one after the other, give back the command list from
/// its first move on; only commands before the first move are left out.
pub proof fn lemma_subpaths_cover<S>(cmds: Seq<PathCommand<S>>)
    ensures
        move_positions(cmds).len() > 0 ==> subpaths(cmds).flatten() =~= cmds.skip(
            move_positions(cmds)[0],
        ),
        move_positions(cmds).len() == 0 ==> subpaths(cmds).len() == 0,
{
    lemma_move_positions(cmds);
    let m = move_positions(cmds);
    if m.len() > 0 {
        lemma_runs_flatten(cmds, m);
    }
}

/// The coordinate an entry carries (meaningful for coordinates only).
pub open spec fn coord_of<S>(p: Param<S>) -> S {
    match p {
        Param::Coord(c) => c,
        Param::Seg(_) => arbitrary(),
    }
}

/// The command a prefix and its coordinates stand for.
pub open spec fn command_of<S>(s: Seg, c: Seq<Param<S>>) -> PathCommand<S> {
    match s {
        Seg::MoveTo => PathCommand::MoveTo { x: coord_of(c[0]), y: coord_of(c[1]) },
        Seg::LineTo => PathCommand::LineTo { x: coord_of(c[0]), y: coord_of(c[1]) },
        Seg::CubicTo => PathCommand::CubicTo {
            x1: coord_of(c[0]),
            y1: coord_of(c[1]),
            x2: coord_of(c[2]),
            y2: coord_of(c[3]),
            x: coord_of(c[4]),
            y: coord_of(c[5]),
        },
        Seg::QuadTo => PathCommand::QuadTo {
            x1: coord_of(c[0]),
            y1: coord_of(c[1]),
            x: coord_of(c[2]),
            y: coord_of(c[3]),
        },
        Seg::Close => PathCommand::Close,
    }
}

/// How a reader of the canvas protocol takes a stream apart: segment by
/// segment, each prefix consuming its coordinates; `None` when the stream
/// is not well encoded.
pub open spec fn decode<S>(p: Seq<Param<S>>) -> Option<Seq<PathCommand<S>>>
    decreases p.len(),
{
    if p.len() == 0 {
        Some(seq![])
    } else {
        match p[0] {
            Param::Seg(s) => {
                let k = 1 + s.arity() as int;
                if k <= p.len() && coords_only(p.subrange(1, k)) {
                    match decode(p.skip(k)) {
                        Some(rest) => Some(seq![command_of(s, p.subrange(1, k))] + rest),
                        None => None,
                    }
                } else {
                    None
                }
            },
            Param::Coord(_) => None,
        }
    }
}

/// Reading a stream that is one command's parameters, then more, gives that
/// command, then what the rest reads as.
proof fn lemma_decode_command_then<S>(c: PathCommand<S>, rest: Seq<Param<S>>)
    ensures
        decode(command_params(c) + rest) == match decode(rest) {
            Some(r) => Some(seq![c] + r),
            None => None::<Seq<PathCommand<S>>>,
        },
{
    let p = command_params(c) + rest;
    let q = command_params(c);
    match q[0] {
        Param::Seg(s) => {
            let k = 1 + s.arity() as int;
            assert(q.len() == k);
            assert(p[0] == q[0]);
            assert(p.subrange(1, k) =~= q.subrange(1, k));
            assert(p.skip(k) =~= rest);
            assert(coords_only(q.subrange(1, k)));
            assert(command_of(s, q.subrange(1, k)) == c);
        },
        Param::Coord(_) => {},
    }
}

/// Reading the encoding of a list, then more, gives the list, then what
/// the rest reads as.
proof fn lemma_decode_encoding_then<S>(cmds: Seq<PathCommand<S>>, rest: Seq<Param<S>>)
    requires
        decode(rest) is Some,
    ensures
        decode(encode_commands(cmds) + rest) == Some(cmds + decode(rest)->Some_0),
    decreases cmds.len(),
{
    if cmds.len() == 0 {
        assert(encode_commands(cmds) + rest =~= rest);
        assert(cmds + decode(rest)->Some_0 =~= decode(rest)->Some_0);
    } else {
        let d = cmds.drop_last();
        let c = cmds.last();
        lemma_decode_command_then(c, rest);
        let tail = command_params(c) + rest;
        assert(decode(tail) == Some(seq![c] + decode(rest)->Some_0));
        lemma_decode_encoding_then(d, tail);
        assert(encode_commands(cmds) + rest =~= encode_commands(d) + tail);
        assert(d + (seq![c] + decode(rest)->Some_0) =~= cmds + decode(rest)->Some_0);
    }
}

/// Law: the encoding loses nothing. A reader of the stream gets back
/// exactly the commands that were encoded.
pub proof fn lemma_decode_encoding<S>(cmds: Seq<PathCommand<S>>)
    ensures
        decode(encode_commands(cmds)) == Some(cmds),
{
    let empty = Seq::<Param<S>>::empty();
    assert(decode(empty) == Some(Seq::<PathCommand<S>>::empty()));
    lemma_decode_encoding_then(cmds, empty);
    assert(encode_commands(cmds) + empty =~= encode_commands(cmds));
    assert(cmds + Seq::<PathCommand<S>>::empty() =~= cmds);
}

/// Encodes a command list as a parameter stream.
pub fn encode_subpath<S: Copy>(commands: &[PathCommand<S>]) -> (params: Vec<Param<S>>)
    ensures
        params@ == encode_commands(commands@),
{
    let mut params: Vec<Param<S>> = Vec::new();
    let mut i: usize = 0;
    while i < commands.len()
        invariant
            0 <= i <= commands@.len(),
            params@ == encode_commands(commands@.take(i as int)),
        decreases commands@.len() - i,
    {
        let cmd = commands[i];
        match cmd {
            PathCommand::MoveTo { x, y } => {
                params.push(Param::Seg(Seg::MoveTo));
                params.push(Param::Coord(x));
                params.push(Param::Coord(y));
            },
            PathCommand::LineTo { x, y } => {
                params.push(Param::Seg(Seg::LineTo));
                params.push(Param::Coord(x));
                params.push(Param::Coord(y));
            },
            PathCommand::CubicTo { x1, y1, x2, y2, x, y } => {
                params.push(Param::Seg(Seg::CubicTo));
                params.push(Param::Coord(x1));
                params.push(Param::Coord(y1));
                params.push(Param::Coord(x2));
                params.push(Param::Coord(y2));
                params.push(Param::Coord(x));
                params.push(Param::Coord(y));
            },
            PathCommand::QuadTo { x1, y1, x, y } => {
                params.push(Param::Seg(Seg::QuadTo));
                params.push(Param::Coord(x1));
                params.push(Param::Coord(y1));
                params.push(Param::Coord(x));
                params.push(Param::Coord(y));
            },
            PathCommand::Close => {
                params.push(Param::Seg(Seg::Close));
            },
        }
        proof {
            assert(commands@.take(i + 1).drop_last() =~= commands@.take(i as int));
            assert(commands@.take(i + 1).last() == cmd);
        }
        i = i + 1;
    }
    proof {
        assert(commands@.take(i as int) =~= commands@);
    }
    params
}

/// Splits a command list at its moves: one slice per sub-path, each
/// starting with its move. Commands before the first move are dropped.
pub fn split_subpaths<'a, S>(commands: &'a [PathCommand<S>]) -> (segments: Vec<&'a [PathCommand<S>]>)
    ensures
        segments@.len() == subpaths(commands@).len(),
        forall|j: int| 0 <= j < segments@.len() ==> (#[trigger] segments@[j])@ == subpaths(commands@)[j],
{
    let mut segments: Vec<&'a [PathCommand<S>]> = Vec::new();
    let mut start: Option<usize> = None;
    let mut i: usize = 0;
    while i < commands.len()
        invariant
            0 <= i <= commands@.len(),
            ({
                let m = move_positions(commands@.take(i as int));
                &&& (start is None <==> m.len() == 0)
                &&& (start matches Some(s) ==> s == m.last() && s < i)
                &&& segments@.len() + (if start is Some { 1int } else { 0int }) == m.len()
                &&& forall|j: int|
                    0 <= j < segments@.len() ==> (#[trigger] segments@[j])@ == commands@.subrange(
                        m[j],
                        m[j + 1],
                    )
            }),
        decreases commands@.len() - i,
    {
        let ghost m_old = move_positions(commands@.take(i as int));
        proof {
            assert(commands@.take(i + 1).drop_last() =~= commands@.take(i as int));
            assert(commands@.take(i + 1).last() == commands@[i as int]);
        }
        if let PathCommand::MoveTo { .. } = commands[i] {
            if let Some(s) = start {
                segments.push(&commands[s..i]);
            }
            start = Some(i);
            proof {
                let m_new = move_positions(commands@.take(i + 1));
                assert(m_new == m_old.push(i as int));
                assert forall|j: int| 0 <= j < segments@.len() implies (#[trigger] segments@[j])@
                    == commands@.subrange(m_new[j], m_new[j + 1]) by {
                    assert(m_new[j] == m_old[j]);
                }
            }
        } else {
            proof {
                let m_new = move_positions(commands@.take(i + 1));
                assert(m_new =~= m_old);
            }
        }
        i = i + 1;
    }
    proof {
        assert(commands@.take(i as int) =~= commands@);
    }
    if let Some(s) = start {
        segments.push(&commands[s..commands.len()]);
    }
    segments
}

} // verus!
