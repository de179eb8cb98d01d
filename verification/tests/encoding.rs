use ratex_canvas::encoding::{encode_subpath, split_subpaths, Param, PathCommand, Seg};

use Param::{Coord as C, Seg as S};

fn p(x: f64, y: f64) -> PathCommand<f64> {
    PathCommand::MoveTo { x, y }
}

#[test]
fn segment_prefix_codes_match_canvas_protocol() {
    assert_eq!(Seg::MoveTo.code(), 0);
    assert_eq!(Seg::LineTo.code(), 1);
    assert_eq!(Seg::CubicTo.code(), 2);
    assert_eq!(Seg::QuadTo.code(), 3);
    assert_eq!(Seg::Close.code(), 5);
}

#[test]
fn encode_subpath_emits_prefix_then_coordinates() {
    let cmds = vec![
        p(1.0, 2.0),
        PathCommand::LineTo { x: 3.0, y: 4.0 },
        PathCommand::CubicTo { x1: 5.0, y1: 6.0, x2: 7.0, y2: 8.0, x: 9.0, y: 10.0 },
        PathCommand::QuadTo { x1: 11.0, y1: 12.0, x: 13.0, y: 14.0 },
        PathCommand::Close,
    ];
    let params = encode_subpath(&cmds);
    assert_eq!(
        params,
        vec![
            S(Seg::MoveTo), C(1.0), C(2.0),
            S(Seg::LineTo), C(3.0), C(4.0),
            S(Seg::CubicTo), C(5.0), C(6.0), C(7.0), C(8.0), C(9.0), C(10.0),
            S(Seg::QuadTo), C(11.0), C(12.0), C(13.0), C(14.0),
            S(Seg::Close),
        ]
    );
}

#[test]
fn encode_subpath_of_nothing_is_empty() {
    let cmds: Vec<PathCommand<f64>> = Vec::new();
    assert!(encode_subpath(&cmds).is_empty());
}

#[test]
fn split_subpaths_cuts_at_moves_and_drops_leading_orphans() {
    let cmds = vec![
        PathCommand::LineTo { x: 0.0, y: 0.0 },
        p(1.0, 1.0),
        PathCommand::LineTo { x: 2.0, y: 2.0 },
        PathCommand::Close,
        p(3.0, 3.0),
        PathCommand::QuadTo { x1: 4.0, y1: 4.0, x: 5.0, y: 5.0 },
    ];
    let parts = split_subpaths(&cmds);
    assert_eq!(parts.len(), 2);
    assert_eq!(parts[0], &cmds[1..4]);
    assert_eq!(parts[1], &cmds[4..6]);
}

#[test]
fn split_subpaths_without_moves_is_empty() {
    let cmds = vec![PathCommand::LineTo { x: 0.0, y: 0.0 }, PathCommand::Close];
    assert!(split_subpaths(&cmds).is_empty());
}

#[test]
fn split_subpaths_of_consecutive_moves_gives_one_per_move() {
    let cmds = vec![p(0.0, 0.0), p(1.0, 1.0), p(2.0, 2.0)];
    let parts = split_subpaths(&cmds);
    assert_eq!(parts.len(), 3);
    for (i, part) in parts.iter().enumerate() {
        assert_eq!(*part, &cmds[i..i + 1]);
    }
}
