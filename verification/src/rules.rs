//! Per-action legality: pure computation of the legal destination sets and
//! multi-tile paths for each of the seven action kinds.
//!
//! Every path-producing kind is specified "via" a direction `d` and a step
//! count `k`: a path is legal exactly when it is the straight line of `k`
//! tiles from its origin in direction `d` and every tile along it meets the
//! kind's conditions.  The generators enumerate all directions and step
//! counts, so their results are exactly the legal sets.

use vstd::prelude::*;
use crate::board::{BallState, Board};
use crate::geometry::{
    cheb, chebyshev, lemma_path_list_push, line_in_bounds, line_col, line_path, line_position,
    line_row, line_vec, path_list_contains, step_dir, Position, PositionPath,
};
use crate::types::{ActionType, PieceRole, Team};

verus! {

broadcast use vstd::seq_lib::lemma_seq_contains_after_push;

/// How far a role may move in one action; carrying the ball costs one tile
/// of range, but never below one.
pub open spec fn move_range(role: PieceRole, carrying: bool) -> int {
    let base: int = match role {
        PieceRole::Goalkeeper => 1,
        PieceRole::Defender => 2,
        PieceRole::Midfielder => 2,
        PieceRole::Attacker => 3,
    };
    if carrying && base > 1 {
        base - 1
    } else {
        base
    }
}

/// The longest pass, in tiles.
pub open spec fn pass_range() -> int {
    4
}

/// The longest shot, in tiles.
pub open spec fn shoot_range() -> int {
    3
}

/// The longest kick of a loose ball, in tiles.
pub open spec fn kick_range() -> int {
    3
}

/// Tile `p` lies in the goal that team `t` attacks: the middle two columns
/// of the opponent's back row.
pub open spec fn opp_goal_tile(t: Team, p: Position) -> bool {
    &&& match t {
        Team::White => p.row == 7,
        Team::Black => p.row == 0,
    }
    &&& (p.col == 3 || p.col == 4)
}

/// The `j`-th tile out from `from` in direction `d` is on the board and
/// unoccupied.
pub open spec fn step_clear(b: Board, from: Position, d: int, j: int) -> bool {
    line_in_bounds(from, d, j) && !b.occ_at(line_position(from, d, j))
}

/// Piece `i` may move `k` tiles in direction `d`: every tile along the line
/// is on the board and unoccupied, and `k` is within the piece's range.
pub open spec fn move_via(b: Board, i: int, d: int, k: int) -> bool {
    let from = b.pieces[i].pos;
    &&& 0 <= d < 8
    &&& 1 <= k <= move_range(b.pieces[i].role, b.holds_ball(i))
    &&& forall|j: int| 1 <= j <= k ==> #[trigger] step_clear(b, from, d, j)
}

/// `dest` is a legal move destination for piece `i`.
pub open spec fn move_dest_legal(b: Board, i: int, dest: Position) -> bool {
    exists|d: int, k: int| #[trigger]
        move_via(b, i, d, k) && dest == line_position(b.pieces[i].pos, d, k)
}

/// Whether piece `i` currently possesses the ball.
pub fn is_holder(b: &Board, i: usize) -> (r: bool)
    ensures
        r == b.holds_ball(i as int),
{
    match b.ball {
        BallState::Held { holder } => holder == i,
        BallState::Loose { .. } => false,
    }
}

/// The only piece on tile `p` is `i`: no piece of any team, other than `i`,
/// stands there.
pub proof fn lemma_unique_occupant(b: Board, p: Position, i: int)
    requires
        b.wf(),
        0 <= i < 14,
        b.pieces[i].pos == p,
    ensures
        forall|j: int| 0 <= j < 14 && (#[trigger] b.pieces[j]).pos == p ==> j == i,
        forall|t: Team| b.occ_team_at(t, p) ==> t == b.pieces[i].team,
{
    assert forall|t: Team| b.occ_team_at(t, p) implies t == b.pieces[i].team by {
        let j = choose|j: int|
            0 <= j < b.pieces.len() && b.pieces[j].pos == p && b.pieces[j].team == t;
        assert(j == i);
    }
}

/// All legal move destinations of piece `i`: the tiles reachable along an
/// unobstructed straight line within the piece's role range.
pub fn legal_move_dests(b: &Board, i: usize) -> (r: Vec<Position>)
    requires
        b.wf(),
        i < 14,
    ensures
        forall|p: Position| r@.contains(p) <==> move_dest_legal(*b, i as int, p),
{
    let from = b.pieces[i].pos;
    let carrying = is_holder(b, i);
    let base: u8 = match b.pieces[i].role {
        PieceRole::Goalkeeper => 1,
        PieceRole::Defender => 2,
        PieceRole::Midfielder => 2,
        PieceRole::Attacker => 3,
    };
    let range: u8 = if carrying && base > 1 {
        base - 1
    } else {
        base
    };
    assert(range == move_range(b.pieces[i as int].role, b.holds_ball(i as int)));
    let mut r: Vec<Position> = Vec::new();
    let mut d: u8 = 0;
    while d < 8
        invariant
            b.wf(),
            i < 14,
            d <= 8,
            from == b.pieces[i as int].pos,
            range == move_range(b.pieces[i as int].role, b.holds_ball(i as int)),
            forall|p: Position| #![all_triggers]
                r@.contains(p) <==> exists|dd: int, kk: int|
                    dd < d && #[trigger] move_via(*b, i as int, dd, kk) && p == line_position(
                        from,
                        dd,
                        kk,
                    ),
        decreases 8 - d,
    {
        let ghost r_entry = r@;
        let mut cur = from;
        let mut k: u8 = 1;
        let mut blocked = false;
        while k <= range && !blocked
            invariant
                b.wf(),
                i < 14,
                d < 8,
                from == b.pieces[i as int].pos,
                range == move_range(b.pieces[i as int].role, b.holds_ball(i as int)),
                1 <= k <= range + 1,
                !blocked ==> {
                    &&& cur.row == line_row(from, d as int, k - 1)
                    &&& cur.col == line_col(from, d as int, k - 1)
                    &&& cur.in_bounds()
                },
                forall|j: int| 1 <= j < k ==> #[trigger] step_clear(*b, from, d as int, j),
                blocked ==> !step_clear(*b, from, d as int, k as int),
                blocked ==> k <= range,
                forall|p: Position| #![all_triggers]
                    r_entry.contains(p) <==> exists|dd: int, kk: int|
                        dd < d && #[trigger] move_via(*b, i as int, dd, kk) && p == line_position(
                            from,
                            dd,
                            kk,
                        ),
                forall|p: Position| #![all_triggers]
                    r@.contains(p) <==> (r_entry.contains(p) || exists|kk: int|
                        1 <= kk < k && #[trigger] move_via(*b, i as int, d as int, kk) && p
                            == line_position(from, d as int, kk)),
            decreases 2 * (range - k) + 2 - (if blocked {
                1int
            } else {
                0int
            }),
        {
            match step_dir(cur, d) {
                None => {
                    blocked = true;
                    assert(!line_in_bounds(from, d as int, k as int));
                    assert(!step_clear(*b, from, d as int, k as int));
                },
                Some(next) => {
                    match b.occupant(next) {
                        Some(_) => {
                            assert(b.occ_at(next));
                            assert(next == line_position(from, d as int, k as int));
                            assert(!step_clear(*b, from, d as int, k as int));
                            blocked = true;
                        },
                        None => {
                            proof {
                                assert(line_in_bounds(from, d as int, k as int));
                                assert(next == line_position(from, d as int, k as int));
                                assert(step_clear(*b, from, d as int, k as int));
                                assert forall|j: int|
                                    1 <= j <= k implies #[trigger] step_clear(
                                    *b,
                                    from,
                                    d as int,
                                    j,
                                ) by {}
                                assert(move_via(*b, i as int, d as int, k as int));
                            }
                            r.push(next);
                            proof {
                                assert forall|p: Position| r@.contains(p) implies (
                                r_entry.contains(p) || exists|kk: int|
                                    1 <= kk < k + 1 && #[trigger] move_via(
                                        *b,
                                        i as int,
                                        d as int,
                                        kk,
                                    ) && p == line_position(from, d as int, kk)) by {
                                    if p == next {
                                        assert(move_via(*b, i as int, d as int, k as int) && p
                                            == line_position(from, d as int, k as int));
                                    }
                                }
                            }
                            cur = next;
                            k = k + 1;
                        },
                    }
                },
            }
        }
        proof {
            // Whatever stopped the walk rules out every step count the walk
            // did not reach in this direction.
            assert forall|kk: int| #[trigger]
                move_via(*b, i as int, d as int, kk) implies 1 <= kk < k by {
                if kk >= k {
                    assert(1 <= k <= kk);
                    assert(step_clear(*b, from, d as int, k as int));
                }
            }
            assert forall|p: Position| r@.contains(p) implies exists|dd: int, kk: int|
                dd < d + 1 && #[trigger] move_via(*b, i as int, dd, kk) && p == line_position(
                    from,
                    dd,
                    kk,
                ) by {
                if r_entry.contains(p) {
                    let (dd, kk) = choose|dd: int, kk: int|
                        dd < d && #[trigger] move_via(*b, i as int, dd, kk) && p == line_position(
                            from,
                            dd,
                            kk,
                        );
                    assert(move_via(*b, i as int, dd, kk));
                } else {
                    let kk = choose|kk: int|
                        1 <= kk < k && #[trigger] move_via(*b, i as int, d as int, kk) && p
                            == line_position(from, d as int, kk);
                    assert(move_via(*b, i as int, d as int, kk));
                }
            }
            assert forall|dd: int, kk: int|
                dd < d + 1 && #[trigger] move_via(*b, i as int, dd, kk) implies r@.contains(
                line_position(from, dd, kk),
            ) by {
                if dd < d {
                    assert(r_entry.contains(line_position(from, dd, kk)));
                } else {
                    assert(dd == d && 1 <= kk < k);
                }
            }
        }
        d = d + 1;
    }
    r
}

/// The `j`-th tile out from `from` in direction `d` is on the board and
/// free of opponents of team `t`.
pub open spec fn step_no_opp(b: Board, t: Team, from: Position, d: int, j: int) -> bool {
    line_in_bounds(from, d, j) && !b.occ_team_at(t.spec_opponent(), line_position(from, d, j))
}

/// Piece `i` may pass `k` tiles in direction `d`: no opponent stands on or
/// before the target tile, and a teammate occupies the target tile.
/// Teammates along the way do not obstruct a pass.
pub open spec fn pass_via(b: Board, i: int, d: int, k: int) -> bool {
    let from = b.pieces[i].pos;
    let t = b.pieces[i].team;
    &&& 0 <= d < 8
    &&& 1 <= k <= pass_range()
    &&& forall|j: int| 1 <= j <= k ==> #[trigger] step_no_opp(b, t, from, d, j)
    &&& b.occ_team_at(t, line_position(from, d, k))
}

/// `p` is a legal pass path for piece `i`; only the ball holder may pass.
pub open spec fn pass_path_legal(b: Board, i: int, p: Seq<Position>) -> bool {
    &&& b.holds_ball(i)
    &&& exists|d: int, k: int| #[trigger]
        pass_via(b, i, d, k) && p == line_path(b.pieces[i].pos, d, k)
}

/// All legal pass paths of piece `i`.
pub fn legal_pass_paths(b: &Board, i: usize) -> (r: Vec<PositionPath>)
    requires
        b.wf(),
        i < 14,
    ensures
        forall|p: Seq<Position>|
            path_list_contains(r@, p) <==> pass_path_legal(*b, i as int, p),
{
    let mut r: Vec<PositionPath> = Vec::new();
    if !is_holder(b, i) {
        return r;
    }
    let from = b.pieces[i].pos;
    let team = b.pieces[i].team;
    let mut d: u8 = 0;
    while d < 8
        invariant
            b.wf(),
            i < 14,
            d <= 8,
            b.holds_ball(i as int),
            from == b.pieces[i as int].pos,
            team == b.pieces[i as int].team,
            forall|p: Seq<Position>| #![all_triggers]
                path_list_contains(r@, p) <==> exists|dd: int, kk: int|
                    dd < d && #[trigger] pass_via(*b, i as int, dd, kk) && p == line_path(
                        from,
                        dd,
                        kk,
                    ),
        decreases 8 - d,
    {
        let ghost r_entry = r@;
        let mut cur = from;
        let mut k: u8 = 1;
        let mut blocked = false;
        while k <= 4 && !blocked
            invariant
                b.wf(),
                i < 14,
                d < 8,
                b.holds_ball(i as int),
                from == b.pieces[i as int].pos,
                team == b.pieces[i as int].team,
                1 <= k <= 5,
                !blocked ==> {
                    &&& cur.row == line_row(from, d as int, k - 1)
                    &&& cur.col == line_col(from, d as int, k - 1)
                    &&& cur.in_bounds()
                },
                forall|j: int| 1 <= j < k ==> #[trigger] step_no_opp(*b, team, from, d as int, j),
                blocked ==> !step_no_opp(*b, team, from, d as int, k as int),
                blocked ==> k <= 4,
                forall|kk: int|
                    1 <= kk < k ==> !(#[trigger] pass_via(*b, i as int, d as int, kk))
                        || path_list_contains(r@, line_path(from, d as int, kk)),
                forall|p: Seq<Position>| #![all_triggers]
                    path_list_contains(r_entry, p) <==> exists|dd: int, kk: int|
                        dd < d && #[trigger] pass_via(*b, i as int, dd, kk) && p == line_path(
                            from,
                            dd,
                            kk,
                        ),
                forall|p: Seq<Position>| #![all_triggers]
                    path_list_contains(r@, p) <==> (path_list_contains(r_entry, p) || exists|
                        kk: int,
                    |
                        1 <= kk < k && #[trigger] pass_via(*b, i as int, d as int, kk) && p
                            == line_path(from, d as int, kk)),
            decreases 2 * (4 - k) + 2 - (if blocked {
                1int
            } else {
                0int
            }),
        {
            match step_dir(cur, d) {
                None => {
                    blocked = true;
                    assert(!line_in_bounds(from, d as int, k as int));
                    assert(!step_no_opp(*b, team, from, d as int, k as int));
                },
                Some(next) => {
                    proof {
                        assert(line_in_bounds(from, d as int, k as int));
                        assert(next == line_position(from, d as int, k as int));
                    }
                    let mut teammate_here = false;
                    match b.occupant(next) {
                        Some(idx) => {
                            if b.pieces[idx].team != team {
                                proof {
                                    assert(b.pieces[idx as int].team == team.spec_opponent());
                                    assert(b.occ_team_at(team.spec_opponent(), next));
                                    assert(!step_no_opp(*b, team, from, d as int, k as int));
                                }
                                blocked = true;
                            } else {
                                teammate_here = true;
                                proof {
                                    assert(b.occ_team_at(team, next));
                                    lemma_unique_occupant(*b, next, idx as int);
                                    assert(!b.occ_team_at(team.spec_opponent(), next));
                                }
                            }
                        },
                        None => {
                            proof {
                                assert(!b.occ_team_at(team.spec_opponent(), next));
                                assert(!b.occ_team_at(team, next));
                            }
                        },
                    }
                    if !blocked {
                        proof {
                            assert(step_no_opp(*b, team, from, d as int, k as int));
                            assert forall|j: int|
                                1 <= j <= k implies #[trigger] step_no_opp(
                                *b,
                                team,
                                from,
                                d as int,
                                j,
                            ) by {}
                        }
                        if teammate_here {
                            proof {
                                assert(b.occ_team_at(team, line_position(from, d as int, k as int)));
                                assert(pass_via(*b, i as int, d as int, k as int));
                                assert forall|j: int|
                                    1 <= j <= k implies line_in_bounds(from, d as int, j) by {
                                    assert(step_no_opp(*b, team, from, d as int, j));
                                }
                            }
                            let path = line_vec(from, d, k);
                            let ghost r_before = r@;
                            let elem = PositionPath { positions: path };
                            let ghost elem_view = elem@;
                            r.push(elem);
                            proof {
                                assert(elem_view == line_path(from, d as int, k as int));
                                assert forall|p: Seq<Position>| #![all_triggers]
                                    path_list_contains(r@, p) <==> (path_list_contains(
                                    r_before,
                                    p,
                                ) || elem_view == p) by {
                                    lemma_path_list_push(r_before, elem, p);
                                }
                            }
                        } else {
                            proof {
                                assert(!b.occ_team_at(team, line_position(from, d as int, k as int)));
                                assert(!pass_via(*b, i as int, d as int, k as int));
                            }
                        }
                        cur = next;
                        k = k + 1;
                    }
                },
            }
        }
        proof {
            assert forall|kk: int| #[trigger]
                pass_via(*b, i as int, d as int, kk) implies 1 <= kk < k by {
                if kk >= k {
                    assert(1 <= k <= kk);
                    assert(step_no_opp(*b, team, from, d as int, k as int));
                }
            }
            assert forall|p: Seq<Position>| path_list_contains(r@, p) implies exists|
                dd: int,
                kk: int,
            |
                dd < d + 1 && #[trigger] pass_via(*b, i as int, dd, kk) && p == line_path(
                    from,
                    dd,
                    kk,
                ) by {
                if path_list_contains(r_entry, p) {
                    let (dd, kk) = choose|dd: int, kk: int|
                        dd < d && #[trigger] pass_via(*b, i as int, dd, kk) && p == line_path(
                            from,
                            dd,
                            kk,
                        );
                    assert(pass_via(*b, i as int, dd, kk));
                } else {
                    let kk = choose|kk: int|
                        1 <= kk < k && #[trigger] pass_via(*b, i as int, d as int, kk) && p
                            == line_path(from, d as int, kk);
                    assert(pass_via(*b, i as int, d as int, kk));
                }
            }
            assert forall|dd: int, kk: int|
                dd < d + 1 && #[trigger] pass_via(*b, i as int, dd, kk) implies path_list_contains(
                r@,
                line_path(from, dd, kk),
            ) by {
                if dd < d {
                    assert(path_list_contains(r_entry, line_path(from, dd, kk)));
                } else {
                    assert(dd == d && 1 <= kk < k);
                }
            }
        }
        d = d + 1;
    }
    r
}

/// Piece `i` may shoot `k` tiles in direction `d`: every tile along the
/// line is unoccupied and the terminal tile lies in the goal the piece's
/// team attacks.
pub open spec fn shoot_via(b: Board, i: int, d: int, k: int) -> bool {
    let from = b.pieces[i].pos;
    &&& 0 <= d < 8
    &&& 1 <= k <= shoot_range()
    &&& forall|j: int| 1 <= j <= k ==> #[trigger] step_clear(b, from, d, j)
    &&& opp_goal_tile(b.pieces[i].team, line_position(from, d, k))
}

/// `p` is a legal shoot path for piece `i`; only the ball holder may shoot.
pub open spec fn shoot_path_legal(b: Board, i: int, p: Seq<Position>) -> bool {
    &&& b.holds_ball(i)
    &&& exists|d: int, k: int| #[trigger]
        shoot_via(b, i, d, k) && p == line_path(b.pieces[i].pos, d, k)
}

/// Tile `p` lies in the goal team `t` attacks.
pub fn is_opp_goal(t: Team, p: Position) -> (r: bool)
    ensures
        r == opp_goal_tile(t, p),
{
    let goal_row: u8 = match t {
        Team::White => 7,
        Team::Black => 0,
    };
    p.row == goal_row && (p.col == 3 || p.col == 4)
}

/// All legal shoot paths of piece `i`.
pub fn legal_shoot_paths(b: &Board, i: usize) -> (r: Vec<PositionPath>)
    requires
        b.wf(),
        i < 14,
    ensures
        forall|p: Seq<Position>|
            path_list_contains(r@, p) <==> shoot_path_legal(*b, i as int, p),
{
    let mut r: Vec<PositionPath> = Vec::new();
    if !is_holder(b, i) {
        return r;
    }
    let from = b.pieces[i].pos;
    let team = b.pieces[i].team;
    let mut d: u8 = 0;
    while d < 8
        invariant
            b.wf(),
            i < 14,
            d <= 8,
            b.holds_ball(i as int),
            from == b.pieces[i as int].pos,
            team == b.pieces[i as int].team,
            forall|p: Seq<Position>| #![all_triggers]
                path_list_contains(r@, p) <==> exists|dd: int, kk: int|
                    dd < d && #[trigger] shoot_via(*b, i as int, dd, kk) && p == line_path(
                        from,
                        dd,
                        kk,
                    ),
        decreases 8 - d,
    {
        let ghost r_entry = r@;
        let mut cur = from;
        let mut k: u8 = 1;
        let mut blocked = false;
        while k <= 3 && !blocked
            invariant
                b.wf(),
                i < 14,
                d < 8,
                b.holds_ball(i as int),
                from == b.pieces[i as int].pos,
                team == b.pieces[i as int].team,
                1 <= k <= 4,
                !blocked ==> {
                    &&& cur.row == line_row(from, d as int, k - 1)
                    &&& cur.col == line_col(from, d as int, k - 1)
                    &&& cur.in_bounds()
                },
                forall|j: int| 1 <= j < k ==> #[trigger] step_clear(*b, from, d as int, j),
                blocked ==> !step_clear(*b, from, d as int, k as int),
                blocked ==> k <= 3,
                forall|p: Seq<Position>| #![all_triggers]
                    path_list_contains(r_entry, p) <==> exists|dd: int, kk: int|
                        dd < d && #[trigger] shoot_via(*b, i as int, dd, kk) && p == line_path(
                            from,
                            dd,
                            kk,
                        ),
                forall|p: Seq<Position>| #![all_triggers]
                    path_list_contains(r@, p) <==> (path_list_contains(r_entry, p) || exists|
                        kk: int,
                    |
                        1 <= kk < k && #[trigger] shoot_via(*b, i as int, d as int, kk) && p
                            == line_path(from, d as int, kk)),
            decreases 2 * (3 - k) + 2 - (if blocked {
                1int
            } else {
                0int
            }),
        {
            match step_dir(cur, d) {
                None => {
                    blocked = true;
                    assert(!line_in_bounds(from, d as int, k as int));
                    assert(!step_clear(*b, from, d as int, k as int));
                },
                Some(next) => {
                    proof {
                        assert(line_in_bounds(from, d as int, k as int));
                        assert(next == line_position(from, d as int, k as int));
                    }
                    match b.occupant(next) {
                        Some(_) => {
                            assert(b.occ_at(next));
                            assert(!step_clear(*b, from, d as int, k as int));
                            blocked = true;
                        },
                        None => {
                            proof {
                                assert(step_clear(*b, from, d as int, k as int));
                                assert forall|j: int|
                                    1 <= j <= k implies #[trigger] step_clear(
                                    *b,
                                    from,
                                    d as int,
                                    j,
                                ) by {}
                            }
                            if is_opp_goal(team, next) {
                                proof {
                                    assert(shoot_via(*b, i as int, d as int, k as int));
                                    assert forall|j: int|
                                        1 <= j <= k implies line_in_bounds(from, d as int, j) by {
                                        assert(step_clear(*b, from, d as int, j));
                                    }
                                }
                                let path = line_vec(from, d, k);
                                let ghost r_before = r@;
                                let elem = PositionPath { positions: path };
                                let ghost elem_view = elem@;
                                r.push(elem);
                                proof {
                                    assert(elem_view == line_path(from, d as int, k as int));
                                    assert forall|p: Seq<Position>| #![all_triggers]
                                        path_list_contains(r@, p) <==> (path_list_contains(
                                        r_before,
                                        p,
                                    ) || elem_view == p) by {
                                        lemma_path_list_push(r_before, elem, p);
                                    }
                                }
                            } else {
                                proof {
                                    assert(!opp_goal_tile(
                                        team,
                                        line_position(from, d as int, k as int),
                                    ));
                                    assert(!shoot_via(*b, i as int, d as int, k as int));
                                }
                            }
                            cur = next;
                            k = k + 1;
                        },
                    }
                },
            }
        }
        proof {
            assert forall|kk: int| #[trigger]
                shoot_via(*b, i as int, d as int, kk) implies 1 <= kk < k by {
                if kk >= k {
                    assert(1 <= k <= kk);
                    assert(step_clear(*b, from, d as int, k as int));
                }
            }
            assert forall|p: Seq<Position>| path_list_contains(r@, p) implies exists|
                dd: int,
                kk: int,
            |
                dd < d + 1 && #[trigger] shoot_via(*b, i as int, dd, kk) && p == line_path(
                    from,
                    dd,
                    kk,
                ) by {
                if path_list_contains(r_entry, p) {
                    let (dd, kk) = choose|dd: int, kk: int|
                        dd < d && #[trigger] shoot_via(*b, i as int, dd, kk) && p == line_path(
                            from,
                            dd,
                            kk,
                        );
                    assert(shoot_via(*b, i as int, dd, kk));
                } else {
                    let kk = choose|kk: int|
                        1 <= kk < k && #[trigger] shoot_via(*b, i as int, d as int, kk) && p
                            == line_path(from, d as int, kk);
                    assert(shoot_via(*b, i as int, d as int, kk));
                }
            }
            assert forall|dd: int, kk: int|
                dd < d + 1 && #[trigger] shoot_via(*b, i as int, dd, kk) implies path_list_contains(
                r@,
                line_path(from, dd, kk),
            ) by {
                if dd < d {
                    assert(path_list_contains(r_entry, line_path(from, dd, kk)));
                } else {
                    assert(dd == d && 1 <= kk < k);
                }
            }
        }
        d = d + 1;
    }
    r
}

/// The loose ball at `bp` may be kicked `k` tiles in direction `d`: every
/// tile along the line is on the board and unoccupied.
pub open spec fn kick_via(b: Board, bp: Position, d: int, k: int) -> bool {
    &&& 0 <= d < 8
    &&& 1 <= k <= kick_range()
    &&& forall|j: int| 1 <= j <= k ==> #[trigger] step_clear(b, bp, d, j)
}

/// `p` is a legal kick path for piece `i`: the ball must be loose on a tile
/// adjacent to the piece, and the path clears the ball along an unobstructed
/// line from the ball's tile.
pub open spec fn kick_path_legal(b: Board, i: int, p: Seq<Position>) -> bool {
    match b.ball {
        BallState::Loose { pos } => {
            &&& cheb(b.pieces[i].pos, pos) == 1
            &&& exists|d: int, k: int| #[trigger] kick_via(b, pos, d, k) && p == line_path(pos, d, k)
        },
        BallState::Held { .. } => false,
    }
}

/// All legal kick paths of piece `i`.
pub fn legal_kick_paths(b: &Board, i: usize) -> (r: Vec<PositionPath>)
    requires
        b.wf(),
        i < 14,
    ensures
        forall|p: Seq<Position>|
            path_list_contains(r@, p) <==> kick_path_legal(*b, i as int, p),
{
    let mut r: Vec<PositionPath> = Vec::new();
    let bp = match b.ball {
        BallState::Loose { pos } => pos,
        BallState::Held { .. } => {
            return r;
        },
    };
    if chebyshev(b.pieces[i].pos, bp) != 1 {
        return r;
    }
    let mut d: u8 = 0;
    while d < 8
        invariant
            b.wf(),
            i < 14,
            d <= 8,
            b.ball == (BallState::Loose { pos: bp }),
            cheb(b.pieces[i as int].pos, bp) == 1,
            bp.in_bounds(),
            forall|p: Seq<Position>| #![all_triggers]
                path_list_contains(r@, p) <==> exists|dd: int, kk: int|
                    dd < d && #[trigger] kick_via(*b, bp, dd, kk) && p == line_path(bp, dd, kk),
        decreases 8 - d,
    {
        let ghost r_entry = r@;
        let mut cur = bp;
        let mut k: u8 = 1;
        let mut blocked = false;
        while k <= 3 && !blocked
            invariant
                b.wf(),
                i < 14,
                d < 8,
                bp.in_bounds(),
                1 <= k <= 4,
                !blocked ==> {
                    &&& cur.row == line_row(bp, d as int, k - 1)
                    &&& cur.col == line_col(bp, d as int, k - 1)
                    &&& cur.in_bounds()
                },
                forall|j: int| 1 <= j < k ==> #[trigger] step_clear(*b, bp, d as int, j),
                blocked ==> !step_clear(*b, bp, d as int, k as int),
                blocked ==> k <= 3,
                forall|p: Seq<Position>| #![all_triggers]
                    path_list_contains(r_entry, p) <==> exists|dd: int, kk: int|
                        dd < d && #[trigger] kick_via(*b, bp, dd, kk) && p == line_path(
                            bp,
                            dd,
                            kk,
                        ),
                forall|p: Seq<Position>| #![all_triggers]
                    path_list_contains(r@, p) <==> (path_list_contains(r_entry, p) || exists|
                        kk: int,
                    |
                        1 <= kk < k && #[trigger] kick_via(*b, bp, d as int, kk) && p == line_path(
                            bp,
                            d as int,
                            kk,
                        )),
            decreases 2 * (3 - k) + 2 - (if blocked {
                1int
            } else {
                0int
            }),
        {
            match step_dir(cur, d) {
                None => {
                    blocked = true;
                    assert(!line_in_bounds(bp, d as int, k as int));
                    assert(!step_clear(*b, bp, d as int, k as int));
                },
                Some(next) => {
                    proof {
                        assert(line_in_bounds(bp, d as int, k as int));
                        assert(next == line_position(bp, d as int, k as int));
                    }
                    match b.occupant(next) {
                        Some(_) => {
                            assert(b.occ_at(next));
                            assert(!step_clear(*b, bp, d as int, k as int));
                            blocked = true;
                        },
                        None => {
                            proof {
                                assert(step_clear(*b, bp, d as int, k as int));
                                assert forall|j: int|
                                    1 <= j <= k implies #[trigger] step_clear(
                                    *b,
                                    bp,
                                    d as int,
                                    j,
                                ) by {}
                                assert(kick_via(*b, bp, d as int, k as int));
                                assert forall|j: int|
                                    1 <= j <= k implies line_in_bounds(bp, d as int, j) by {
                                    assert(step_clear(*b, bp, d as int, j));
                                }
                            }
                            let path = line_vec(bp, d, k);
                            let ghost r_before = r@;
                            let elem = PositionPath { positions: path };
                            let ghost elem_view = elem@;
                            r.push(elem);
                            proof {
                                assert(elem_view == line_path(bp, d as int, k as int));
                                assert forall|p: Seq<Position>| #![all_triggers]
                                    path_list_contains(r@, p) <==> (path_list_contains(
                                    r_before,
                                    p,
                                ) || elem_view == p) by {
                                    lemma_path_list_push(r_before, elem, p);
                                }
                            }
                            cur = next;
                            k = k + 1;
                        },
                    }
                },
            }
        }
        proof {
            assert forall|kk: int| #[trigger]
                kick_via(*b, bp, d as int, kk) implies 1 <= kk < k by {
                if kk >= k {
                    assert(1 <= k <= kk);
                    assert(step_clear(*b, bp, d as int, k as int));
                }
            }
            assert forall|p: Seq<Position>| path_list_contains(r@, p) implies exists|
                dd: int,
                kk: int,
            |
                dd < d + 1 && #[trigger] kick_via(*b, bp, dd, kk) && p == line_path(
                    bp,
                    dd,
                    kk,
                ) by {
                if path_list_contains(r_entry, p) {
                    let (dd, kk) = choose|dd: int, kk: int|
                        dd < d && #[trigger] kick_via(*b, bp, dd, kk) && p == line_path(
                            bp,
                            dd,
                            kk,
                        );
                    assert(kick_via(*b, bp, dd, kk));
                } else {
                    let kk = choose|kk: int|
                        1 <= kk < k && #[trigger] kick_via(*b, bp, d as int, kk) && p == line_path(
                            bp,
                            d as int,
                            kk,
                        );
                    assert(kick_via(*b, bp, d as int, kk));
                }
            }
            assert forall|dd: int, kk: int|
                dd < d + 1 && #[trigger] kick_via(*b, bp, dd, kk) implies path_list_contains(
                r@,
                line_path(bp, dd, kk),
            ) by {
                if dd < d {
                    assert(path_list_contains(r_entry, line_path(bp, dd, kk)));
                } else {
                    assert(dd == d && 1 <= kk < k);
                }
            }
        }
        d = d + 1;
    }
    r
}

/// `p` is a legal intercept path for piece `i`: an opponent holds the ball
/// on an adjacent tile, and the path names that tile.  Intercepts are
/// granted only to the team on turn, never off turn.
pub open spec fn intercept_path_legal(b: Board, i: int, p: Seq<Position>) -> bool {
    match b.ball {
        BallState::Held { holder } => {
            &&& b.pieces[holder as int].team != b.pieces[i].team
            &&& cheb(b.pieces[i].pos, b.pieces[holder as int].pos) == 1
            &&& p == seq![b.pieces[holder as int].pos]
        },
        BallState::Loose { .. } => false,
    }
}

/// All legal intercept paths of piece `i`.
pub fn legal_intercept_paths(b: &Board, i: usize) -> (r: Vec<PositionPath>)
    requires
        b.wf(),
        i < 14,
    ensures
        forall|p: Seq<Position>|
            path_list_contains(r@, p) <==> intercept_path_legal(*b, i as int, p),
{
    let empty: Vec<PositionPath> = Vec::new();
    match b.ball {
        BallState::Held { holder } => {
            let hpos = b.pieces[holder].pos;
            if b.pieces[holder].team != b.pieces[i].team && chebyshev(b.pieces[i].pos, hpos)
                == 1 {
                let mut v: Vec<Position> = Vec::new();
                v.push(hpos);
                let elem = PositionPath { positions: v };
                let ghost elem_view = elem@;
                let mut r: Vec<PositionPath> = Vec::new();
                r.push(elem);
                proof {
                    assert(elem_view =~= seq![hpos]);
                    assert forall|p: Seq<Position>|
                        path_list_contains(r@, p) <==> intercept_path_legal(
                        *b,
                        i as int,
                        p,
                    ) by {
                        assert(r@[0]@ == elem_view);
                        if path_list_contains(r@, p) {
                            let j = choose|j: int| 0 <= j < r@.len() && r@[j]@ == p;
                            assert(j == 0);
                        }
                        if intercept_path_legal(*b, i as int, p) {
                            assert(r@[0]@ == p);
                        }
                    }
                }
                r
            } else {
                empty
            }
        },
        BallState::Loose { .. } => empty,
    }
}

/// Piece `i` may defend toward direction `d`: the adjacent tile is on the
/// board, unoccupied, and strictly closer to the ball's tile.
pub open spec fn defend_via(b: Board, i: int, d: int) -> bool {
    let from = b.pieces[i].pos;
    let dest = line_position(from, d, 1);
    &&& 0 <= d < 8
    &&& line_in_bounds(from, d, 1)
    &&& !b.occ_at(dest)
    &&& cheb(dest, b.ball_tile()) < cheb(from, b.ball_tile())
}

/// `p` is a legal defend path for piece `i`: a one-tile repositioning
/// toward the ball, open only to pieces not holding the ball.  Defending
/// never moves the ball.
pub open spec fn defend_path_legal(b: Board, i: int, p: Seq<Position>) -> bool {
    &&& !b.holds_ball(i)
    &&& exists|d: int| #[trigger] defend_via(b, i, d) && p == seq![
        line_position(b.pieces[i].pos, d, 1),
    ]
}

/// The tile the ball is on: its holder's tile, or its own when loose.
pub fn ball_tile_of(b: &Board) -> (r: Position)
    requires
        b.wf(),
    ensures
        r == b.ball_tile(),
{
    match b.ball {
        BallState::Held { holder } => b.pieces[holder].pos,
        BallState::Loose { pos } => pos,
    }
}

/// All legal defend paths of piece `i`.
pub fn legal_defend_paths(b: &Board, i: usize) -> (r: Vec<PositionPath>)
    requires
        b.wf(),
        i < 14,
    ensures
        forall|p: Seq<Position>|
            path_list_contains(r@, p) <==> defend_path_legal(*b, i as int, p),
{
    let mut r: Vec<PositionPath> = Vec::new();
    if is_holder(b, i) {
        return r;
    }
    let from = b.pieces[i].pos;
    let bt = ball_tile_of(b);
    let here = chebyshev(from, bt);
    let mut d: u8 = 0;
    while d < 8
        invariant
            b.wf(),
            i < 14,
            d <= 8,
            !b.holds_ball(i as int),
            from == b.pieces[i as int].pos,
            bt == b.ball_tile(),
            here == cheb(from, bt),
            forall|p: Seq<Position>| #![all_triggers]
                path_list_contains(r@, p) <==> exists|dd: int|
                    dd < d && #[trigger] defend_via(*b, i as int, dd) && p == seq![
                        line_position(from, dd, 1),
                    ],
        decreases 8 - d,
    {
        proof {
            assert(line_row(from, d as int, 0) == from.row);
            assert(line_col(from, d as int, 0) == from.col);
        }
        match step_dir(from, d) {
            None => {
                assert(!line_in_bounds(from, d as int, 1));
                assert(!defend_via(*b, i as int, d as int));
            },
            Some(next) => {
                proof {
                    assert(line_in_bounds(from, d as int, 1));
                    assert(next == line_position(from, d as int, 1));
                }
                match b.occupant(next) {
                    Some(_) => {
                        assert(b.occ_at(next));
                        assert(!defend_via(*b, i as int, d as int));
                    },
                    None => {
                        if chebyshev(next, bt) < here {
                            assert(defend_via(*b, i as int, d as int));
                            let mut v: Vec<Position> = Vec::new();
                            v.push(next);
                            let elem = PositionPath { positions: v };
                            let ghost elem_view = elem@;
                            let ghost r_before = r@;
                            r.push(elem);
                            proof {
                                assert(elem_view =~= seq![line_position(from, d as int, 1)]);
                                assert forall|p: Seq<Position>| #![all_triggers]
                                    path_list_contains(r@, p) <==> (path_list_contains(
                                    r_before,
                                    p,
                                ) || elem_view == p) by {
                                    lemma_path_list_push(r_before, elem, p);
                                }
                            }
                        } else {
                            assert(!defend_via(*b, i as int, d as int));
                        }
                    },
                }
            },
        }
        d = d + 1;
    }
    r
}

/// The two-tile path of a push: the adjacent opponent's tile, then the
/// displacement tile one step further in direction `e`.
pub open spec fn push_path_of(b: Board, i: int, d: int, e: int) -> Seq<Position> {
    let target = line_position(b.pieces[i].pos, d, 1);
    seq![target, line_position(target, e, 1)]
}

/// Piece `i` may push the adjacent opponent in direction `d` to the tile in
/// direction `e` from it: the displacement tile is on the board, unoccupied,
/// and away from the pusher (Chebyshev distance two).
pub open spec fn push_via(b: Board, i: int, d: int, e: int) -> bool {
    let from = b.pieces[i].pos;
    let target = line_position(from, d, 1);
    let dest = line_position(target, e, 1);
    &&& 0 <= d < 8
    &&& 0 <= e < 8
    &&& line_in_bounds(from, d, 1)
    &&& b.occ_team_at(b.pieces[i].team.spec_opponent(), target)
    &&& line_in_bounds(target, e, 1)
    &&& !b.occ_at(dest)
    &&& cheb(from, dest) == 2
}

/// `p` is a legal push path for piece `i`.
pub open spec fn push_action_legal(b: Board, i: int, p: Seq<Position>) -> bool {
    exists|d: int, e: int| #[trigger] push_via(b, i, d, e) && p == push_path_of(b, i, d, e)
}

/// All legal push paths of piece `i`.
pub fn legal_push_paths(b: &Board, i: usize) -> (r: Vec<PositionPath>)
    requires
        b.wf(),
        i < 14,
    ensures
        forall|p: Seq<Position>|
            path_list_contains(r@, p) <==> push_action_legal(*b, i as int, p),
{
    let mut r: Vec<PositionPath> = Vec::new();
    let from = b.pieces[i].pos;
    let team = b.pieces[i].team;
    let mut d: u8 = 0;
    while d < 8
        invariant
            b.wf(),
            i < 14,
            d <= 8,
            from == b.pieces[i as int].pos,
            team == b.pieces[i as int].team,
            forall|p: Seq<Position>| #![all_triggers]
                path_list_contains(r@, p) <==> exists|dd: int, ee: int|
                    dd < d && #[trigger] push_via(*b, i as int, dd, ee) && p == push_path_of(
                        *b,
                        i as int,
                        dd,
                        ee,
                    ),
        decreases 8 - d,
    {
        let ghost r_entry = r@;
        let mut opp_target = false;
        proof {
            assert(line_row(from, d as int, 0) == from.row);
            assert(line_col(from, d as int, 0) == from.col);
        }
        let target = match step_dir(from, d) {
            None => {
                assert(!line_in_bounds(from, d as int, 1));
                from
            },
            Some(t) => {
                proof {
                    assert(line_in_bounds(from, d as int, 1));
                    assert(t == line_position(from, d as int, 1));
                }
                match b.occupant(t) {
                    Some(idx) => {
                        if b.pieces[idx].team != team {
                            opp_target = true;
                            proof {
                                assert(b.pieces[idx as int].team == team.spec_opponent());
                                assert(b.occ_team_at(team.spec_opponent(), t));
                            }
                        } else {
                            proof {
                                lemma_unique_occupant(*b, t, idx as int);
                                assert(!b.occ_team_at(team.spec_opponent(), t));
                            }
                        }
                    },
                    None => {
                        proof {
                            assert(!b.occ_team_at(team.spec_opponent(), t));
                        }
                    },
                }
                t
            },
        };
        if opp_target {
            let mut e: u8 = 0;
            while e < 8
                invariant
                    b.wf(),
                    i < 14,
                    d < 8,
                    e <= 8,
                    from == b.pieces[i as int].pos,
                    team == b.pieces[i as int].team,
                    opp_target,
                    line_in_bounds(from, d as int, 1),
                    target == line_position(from, d as int, 1),
                    target.in_bounds(),
                    b.occ_team_at(team.spec_opponent(), target),
                    forall|p: Seq<Position>| #![all_triggers]
                        path_list_contains(r_entry, p) <==> exists|dd: int, ee: int|
                            dd < d && #[trigger] push_via(*b, i as int, dd, ee) && p
                                == push_path_of(*b, i as int, dd, ee),
                    forall|p: Seq<Position>| #![all_triggers]
                        path_list_contains(r@, p) <==> (path_list_contains(r_entry, p) || exists|
                            ee: int,
                        |
                            ee < e && #[trigger] push_via(*b, i as int, d as int, ee) && p
                                == push_path_of(*b, i as int, d as int, ee)),
                decreases 8 - e,
            {
                proof {
                    assert(line_row(target, e as int, 0) == target.row);
                    assert(line_col(target, e as int, 0) == target.col);
                }
                match step_dir(target, e) {
                    None => {
                        assert(!line_in_bounds(target, e as int, 1));
                        assert(!push_via(*b, i as int, d as int, e as int));
                    },
                    Some(dest) => {
                        proof {
                            assert(line_in_bounds(target, e as int, 1));
                            assert(dest == line_position(target, e as int, 1));
                        }
                        match b.occupant(dest) {
                            Some(_) => {
                                assert(b.occ_at(dest));
                                assert(!push_via(*b, i as int, d as int, e as int));
                            },
                            None => {
                                if chebyshev(from, dest) == 2 {
                                    assert(push_via(*b, i as int, d as int, e as int));
                                    let mut v: Vec<Position> = Vec::new();
                                    v.push(target);
                                    v.push(dest);
                                    let elem = PositionPath { positions: v };
                                    let ghost elem_view = elem@;
                                    let ghost r_before = r@;
                                    r.push(elem);
                                    proof {
                                        assert(elem_view =~= push_path_of(
                                            *b,
                                            i as int,
                                            d as int,
                                            e as int,
                                        ));
                                        assert forall|p: Seq<Position>| #![all_triggers]
                                            path_list_contains(r@, p) <==> (path_list_contains(
                                            r_before,
                                            p,
                                        ) || elem_view == p) by {
                                            lemma_path_list_push(r_before, elem, p);
                                        }
                                    }
                                } else {
                                    assert(!push_via(*b, i as int, d as int, e as int));
                                }
                            },
                        }
                    },
                }
                e = e + 1;
            }
        } else {
            proof {
                assert forall|ee: int| !(#[trigger] push_via(*b, i as int, d as int, ee)) by {}
            }
        }
        proof {
            assert forall|p: Seq<Position>| path_list_contains(r@, p) implies exists|
                dd: int,
                ee: int,
            |
                dd < d + 1 && #[trigger] push_via(*b, i as int, dd, ee) && p == push_path_of(
                    *b,
                    i as int,
                    dd,
                    ee,
                ) by {
                if path_list_contains(r_entry, p) {
                    let (dd, ee) = choose|dd: int, ee: int|
                        dd < d && #[trigger] push_via(*b, i as int, dd, ee) && p == push_path_of(
                            *b,
                            i as int,
                            dd,
                            ee,
                        );
                    assert(push_via(*b, i as int, dd, ee));
                } else {
                    assert(opp_target);
                    let ee = choose|ee: int|
                        ee < 8 && #[trigger] push_via(*b, i as int, d as int, ee) && p
                            == push_path_of(*b, i as int, d as int, ee);
                    assert(push_via(*b, i as int, d as int, ee));
                }
            }
            assert forall|dd: int, ee: int|
                dd < d + 1 && #[trigger] push_via(*b, i as int, dd, ee) implies path_list_contains(
                r@,
                push_path_of(*b, i as int, dd, ee),
            ) by {
                if dd < d {
                    assert(path_list_contains(r_entry, push_path_of(*b, i as int, dd, ee)));
                } else {
                    assert(dd == d);
                }
            }
        }
        d = d + 1;
    }
    r
}

/// `p` is a legal path for piece `i` and action kind `kind` on board `b`.
/// A move is a one-tile path holding the destination.
pub open spec fn kind_path_legal(b: Board, i: int, kind: ActionType, p: Seq<Position>) -> bool {
    match kind {
        ActionType::Move => p.len() == 1 && move_dest_legal(b, i, p[0]),
        ActionType::Pass => pass_path_legal(b, i, p),
        ActionType::Shoot => shoot_path_legal(b, i, p),
        ActionType::Intercept => intercept_path_legal(b, i, p),
        ActionType::Kick => kick_path_legal(b, i, p),
        ActionType::Defend => defend_path_legal(b, i, p),
        ActionType::Push => push_action_legal(b, i, p),
    }
}

/// All legal paths of piece `i` for action kind `kind`: exactly the paths
/// `kind_path_legal` accepts.
pub fn legal_kind_paths(b: &Board, i: usize, kind: ActionType) -> (r: Vec<PositionPath>)
    requires
        b.wf(),
        i < 14,
    ensures
        forall|p: Seq<Position>|
            path_list_contains(r@, p) <==> kind_path_legal(*b, i as int, kind, p),
{
    match kind {
        ActionType::Move => {
            let dests = legal_move_dests(b, i);
            let n = dests.len();
            let mut r: Vec<PositionPath> = Vec::new();
            let mut t: usize = 0;
            while t < n
                invariant
                    b.wf(),
                    i < 14,
                    n == dests.len(),
                    t <= n,
                    forall|p: Position|
                        dests@.contains(p) <==> move_dest_legal(*b, i as int, p),
                    forall|p: Seq<Position>| #![all_triggers]
                        path_list_contains(r@, p) <==> (p.len() == 1 && exists|j: int|
                            0 <= j < t && dests@[j] == p[0]),
                decreases n - t,
            {
                let mut v: Vec<Position> = Vec::new();
                v.push(dests[t]);
                let elem = PositionPath { positions: v };
                let ghost elem_view = elem@;
                let ghost r_before = r@;
                r.push(elem);
                proof {
                    assert(elem_view =~= seq![dests@[t as int]]);
                    assert forall|p: Seq<Position>| #![all_triggers]
                        path_list_contains(r@, p) <==> (path_list_contains(r_before, p)
                            || elem_view == p) by {
                        lemma_path_list_push(r_before, elem, p);
                    }
                    assert forall|p: Seq<Position>|
                        (p.len() == 1 && p[0] == dests@[t as int]) implies elem_view == p by {
                        assert(p =~= elem_view);
                    }
                }
                t = t + 1;
            }
            proof {
                assert forall|p: Seq<Position>|
                    path_list_contains(r@, p) <==> kind_path_legal(
                    *b,
                    i as int,
                    ActionType::Move,
                    p,
                ) by {
                    if p.len() == 1 && move_dest_legal(*b, i as int, p[0]) {
                        assert(dests@.contains(p[0]));
                        let j = choose|j: int| 0 <= j < dests@.len() && dests@[j] == p[0];
                        assert(0 <= j < n && dests@[j] == p[0]);
                    }
                }
            }
            r
        },
        ActionType::Pass => legal_pass_paths(b, i),
        ActionType::Shoot => legal_shoot_paths(b, i),
        ActionType::Intercept => legal_intercept_paths(b, i),
        ActionType::Kick => legal_kick_paths(b, i),
        ActionType::Defend => legal_defend_paths(b, i),
        ActionType::Push => legal_push_paths(b, i),
    }
}

} // verus!
