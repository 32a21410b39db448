use vstd::prelude::*;

use crate::engine::board::{Board, PieceMoves};
use crate::engine::capture::{capture_pred, safe_pred};
use crate::engine::piece::{ChessPiece, PieceColor, PieceType, Squares};
use crate::engine::quiet::{
    lemma_filter_on_board, lemma_filter_subset, legal_quiet_pred, quiet_pred,
};
use crate::engine::simulate::{is_en_passant, simulation_defined};

verus! {

broadcast use {vstd::array::group_array_axioms, vstd::std_specs::hash::group_hash_axioms};

/// Towards the opponent (`Up`) or towards one's own side (`Down`), seen from the
/// side that owns the piece.
pub enum VerticalDirection {
    Up,
    Down,
}

/// Towards file a (`Left`) or file h (`Right`).
pub enum HorizontalDirection {
    Left,
    Right,
}

/// Why a move was refused.
#[derive(Debug, Clone, Copy, PartialEq, Eq, Structural)]
pub enum MoveError {
    IllegalMove,
    NoAviailableMoves,
}

/// A square coordinate lies on the board.
pub open spec fn on_board(pos: (u8, u8)) -> bool {
    pos.0 < 8 && pos.1 < 8
}

/// Every piece on the grid records a position that lies on the board.
pub open spec fn positions_on_board(b: Squares) -> bool {
    forall|r: int, c: int|
        0 <= r < 8 && 0 <= c < 8 && (#[trigger] b[r][c]) is Some ==> on_board(b[r][c]->0.position)
}

/// Every piece on the grid sits on the square its position names.
pub open spec fn positions_consistent(b: Squares) -> bool {
    forall|r: int, c: int|
        0 <= r < 8 && 0 <= c < 8 && (#[trigger] b[r][c]) is Some ==> b[r][c]->0.position == (
        r as u8,
        c as u8,
    )
}

/// The row step of "forward" for a colour: White moves towards row 0.
pub open spec fn forward(color: PieceColor) -> int {
    match color {
        PieceColor::White => -1,
        PieceColor::Black => 1,
    }
}

/// The row step of a vertical direction for a colour.
pub open spec fn vertical_step(color: PieceColor, v: VerticalDirection) -> int {
    match v {
        VerticalDirection::Up => forward(color),
        VerticalDirection::Down => -forward(color),
    }
}

/// The column step of a horizontal direction.
pub open spec fn horizontal_step(h: HorizontalDirection) -> int {
    match h {
        HorizontalDirection::Left => -1,
        HorizontalDirection::Right => 1,
    }
}

/// The squares reached by sliding from `(r, c)` by `(dr, dc)` at most `steps`
/// times: empty squares are passed, the first enemy square is included and ends
/// the ray, a friendly piece ends it without being included, except that a king
/// sliding along a rank with `king_meets_rook` includes a friendly rook.
pub open spec fn ray(
    b: Squares,
    kind: PieceType,
    color: PieceColor,
    r: int,
    c: int,
    dr: int,
    dc: int,
    steps: nat,
    king_meets_rook: bool,
) -> Seq<(u8, u8)>
    decreases steps,
{
    if steps == 0 {
        seq![]
    } else {
        let nr = r + dr;
        let nc = c + dc;
        if !(0 <= nr < 8 && 0 <= nc < 8) {
            seq![]
        } else {
            match b[nr][nc] {
                None => seq![(nr as u8, nc as u8)] + ray(
                    b,
                    kind,
                    color,
                    nr,
                    nc,
                    dr,
                    dc,
                    (steps - 1) as nat,
                    king_meets_rook,
                ),
                Some(p) => if p.color == color {
                    if king_meets_rook && kind == PieceType::King && p.kind == PieceType::Rook {
                        seq![(nr as u8, nc as u8)]
                    } else {
                        seq![]
                    }
                } else {
                    seq![(nr as u8, nc as u8)]
                },
            }
        }
    }
}

/// The ray of `piece` from its own position.
pub open spec fn piece_ray(
    b: Squares,
    piece: ChessPiece,
    dr: int,
    dc: int,
    depth: nat,
    king_meets_rook: bool,
) -> Seq<(u8, u8)> {
    ray(
        b,
        piece.kind,
        piece.color,
        piece.position.0 as int,
        piece.position.1 as int,
        dr,
        dc,
        depth,
        king_meets_rook,
    )
}

/// Every square of a ray lies on the board.
pub proof fn lemma_ray_on_board(
    b: Squares,
    kind: PieceType,
    color: PieceColor,
    r: int,
    c: int,
    dr: int,
    dc: int,
    steps: nat,
    flag: bool,
)
    ensures
        forall|i: int|
            0 <= i < ray(b, kind, color, r, c, dr, dc, steps, flag).len() ==> on_board(
                #[trigger] ray(b, kind, color, r, c, dr, dc, steps, flag)[i],
            ),
    decreases steps,
{
    if steps > 0 {
        lemma_ray_on_board(b, kind, color, r + dr, c + dc, dr, dc, (steps - 1) as nat, flag);
        let s = ray(b, kind, color, r, c, dr, dc, steps, flag);
        let rest = ray(b, kind, color, r + dr, c + dc, dr, dc, (steps - 1) as nat, flag);
        assert forall|i: int| 0 <= i < s.len() implies on_board(#[trigger] s[i]) by {
            if 0 <= r + dr < 8 && 0 <= c + dc < 8 && b[r + dr][c + dc] is None && i > 0 {
                assert(s[i] == rest[i - 1]);
            }
        }
    }
}

/// Slides `piece` by `(dr, dc)` at most `depth` times.
fn slide(
    squares: &Squares,
    piece: &ChessPiece,
    depth: u8,
    dr: i8,
    dc: i8,
    king_meets_rook: bool,
) -> (moves: Vec<(u8, u8)>)
    requires
        on_board(piece.position),
        -1 <= dr <= 1,
        -1 <= dc <= 1,
    ensures
        moves@ == piece_ray(*squares, *piece, dr as int, dc as int, depth as nat, king_meets_rook),
{
    let ghost total = piece_ray(*squares, *piece, dr as int, dc as int, depth as nat, king_meets_rook);
    let mut moves: Vec<(u8, u8)> = Vec::new();
    let mut r: i8 = piece.position.0 as i8;
    let mut c: i8 = piece.position.1 as i8;
    let mut k: u8 = 0;
    let mut done = false;
    while k < depth && !done
        invariant
            0 <= r < 8,
            0 <= c < 8,
            k <= depth,
            -1 <= dr <= 1,
            -1 <= dc <= 1,
            total == piece_ray(*squares, *piece, dr as int, dc as int, depth as nat, king_meets_rook),
            done ==> moves@ == total,
            !done ==> moves@ + ray(
                *squares,
                piece.kind,
                piece.color,
                r as int,
                c as int,
                dr as int,
                dc as int,
                (depth - k) as nat,
                king_meets_rook,
            ) == total,
        decreases depth - k + (if done { 0int } else { 1int }),
    {
        let nr = r + dr;
        let nc = c + dc;
        if nr < 0 || nr >= 8 || nc < 0 || nc >= 8 {
            assert(moves@ + seq![] == moves@);
            done = true;
        } else {
            match squares[nr as usize][nc as usize] {
                Some(p) => {
                    if p.color == piece.color {
                        if king_meets_rook && piece.kind == PieceType::King && p.kind
                            == PieceType::Rook {
                            moves.push((nr as u8, nc as u8));
                        } else {
                            assert(moves@ + seq![] == moves@);
                        }
                    } else {
                        moves.push((nr as u8, nc as u8));
                    }
                    done = true;
                },
                None => {
                    let ghost old_moves = moves@;
                    moves.push((nr as u8, nc as u8));
                    assert(old_moves + (seq![(nr as u8, nc as u8)] + ray(
                        *squares,
                        piece.kind,
                        piece.color,
                        nr as int,
                        nc as int,
                        dr as int,
                        dc as int,
                        (depth - k - 1) as nat,
                        king_meets_rook,
                    )) == moves@ + ray(
                        *squares,
                        piece.kind,
                        piece.color,
                        nr as int,
                        nc as int,
                        dr as int,
                        dc as int,
                        (depth - k - 1) as nat,
                        king_meets_rook,
                    ));
                    r = nr;
                    c = nc;
                },
            }
            k = k + 1;
        }
    }
    moves
}

} // verus!

verus! {

/// The squares a slide along a diagonal reaches.
pub open spec fn diagonal_moves(
    b: Squares,
    p: ChessPiece,
    v: VerticalDirection,
    h: HorizontalDirection,
    depth: nat,
) -> Seq<(u8, u8)> {
    piece_ray(b, p, vertical_step(p.color, v), horizontal_step(h), depth, false)
}

/// The squares a slide along the piece's file reaches.
pub open spec fn file_moves(b: Squares, p: ChessPiece, v: VerticalDirection, depth: nat) -> Seq<
    (u8, u8),
> {
    piece_ray(b, p, vertical_step(p.color, v), 0, depth, false)
}

/// The squares a slide along the piece's rank reaches; a king stops on, and
/// includes, a friendly rook.
pub open spec fn rank_moves(b: Squares, p: ChessPiece, h: HorizontalDirection, depth: nat) -> Seq<
    (u8, u8),
> {
    piece_ray(b, p, 0, horizontal_step(h), depth, true)
}

/// A single knight jump when it lands on the board.
pub open spec fn jump(p: ChessPiece, dr: int, dc: int) -> Seq<(u8, u8)> {
    let r = p.position.0 + dr;
    let c = p.position.1 + dc;
    if 0 <= r < 8 && 0 <= c < 8 {
        seq![(r as u8, c as u8)]
    } else {
        seq![]
    }
}

/// The knight jumps in the order the original lists them; occupancy is not
/// looked at.
pub open spec fn knight_moves(p: ChessPiece) -> Seq<(u8, u8)> {
    jump(p, 2, 1) + jump(p, 2, -1) + jump(p, 1, 2) + jump(p, -1, 2) + jump(p, -2, 1) + jump(
        p,
        -2,
        -1,
    ) + jump(p, 1, -2) + jump(p, -1, -2)
}

/// The four diagonal slides in the order Up-Left, Up-Right, Down-Left, Down-Right.
pub open spec fn all_diagonals(b: Squares, p: ChessPiece, depth: nat) -> Seq<(u8, u8)> {
    diagonal_moves(b, p, VerticalDirection::Up, HorizontalDirection::Left, depth)
        + diagonal_moves(b, p, VerticalDirection::Up, HorizontalDirection::Right, depth)
        + diagonal_moves(b, p, VerticalDirection::Down, HorizontalDirection::Left, depth)
        + diagonal_moves(b, p, VerticalDirection::Down, HorizontalDirection::Right, depth)
}

/// The four straight slides in the order Down, Up, Left, Right.
pub open spec fn all_straights(b: Squares, p: ChessPiece, depth: nat) -> Seq<(u8, u8)> {
    file_moves(b, p, VerticalDirection::Down, depth) + file_moves(
        b,
        p,
        VerticalDirection::Up,
        depth,
    ) + rank_moves(b, p, HorizontalDirection::Left, depth) + rank_moves(
        b,
        p,
        HorizontalDirection::Right,
        depth,
    )
}

/// The pseudo-moves of a piece: every square its movement pattern reaches
/// before it is known whether the square is free or taken.
pub open spec fn all_moves(b: Squares, p: ChessPiece) -> Seq<(u8, u8)> {
    match p.kind {
        PieceType::Bishop => all_diagonals(b, p, 8),
        PieceType::King => all_diagonals(b, p, 1) + all_straights(b, p, 1),
        PieceType::Knight => knight_moves(p),
        PieceType::Queen => all_diagonals(b, p, 8) + all_straights(b, p, 8),
        PieceType::Rook => all_straights(b, p, 8),
        PieceType::Pawn => file_moves(
            b,
            p,
            VerticalDirection::Up,
            if !p.has_moved {
                2
            } else {
                1
            },
        ) + diagonal_moves(b, p, VerticalDirection::Up, HorizontalDirection::Left, 1)
            + diagonal_moves(b, p, VerticalDirection::Up, HorizontalDirection::Right, 1),
    }
}

/// A slide does not depend on the kind of a piece that is not a king.
pub proof fn lemma_ray_kind(
    b: Squares,
    k1: PieceType,
    k2: PieceType,
    color: PieceColor,
    r: int,
    c: int,
    dr: int,
    dc: int,
    steps: nat,
    king_meets_rook: bool,
)
    requires
        k1 != PieceType::King,
        k2 != PieceType::King,
    ensures
        ray(b, k1, color, r, c, dr, dc, steps, king_meets_rook) == ray(b, k2, color, r, c, dr, dc, steps, king_meets_rook),
    decreases steps,
{
    if steps > 0 {
        lemma_ray_kind(b, k1, k2, color, r + dr, c + dc, dr, dc, (steps - 1) as nat, king_meets_rook);
    }
}

/// A queen moves as a bishop and then as a rook from the same square: its
/// pseudo-moves are the bishop's diagonals followed by the rook's straight
/// slides.
pub proof fn lemma_queen_moves(b: Squares, q: ChessPiece)
    requires
        q.kind == PieceType::Queen,
    ensures
        all_moves(b, q) == all_moves(b, ChessPiece { kind: PieceType::Bishop, ..q }) + all_moves(
            b,
            ChessPiece { kind: PieceType::Rook, ..q },
        ),
{
    let bi = ChessPiece { kind: PieceType::Bishop, ..q };
    let ro = ChessPiece { kind: PieceType::Rook, ..q };
    let (r, c) = (q.position.0 as int, q.position.1 as int);
    assert forall|dr: int, dc: int, kmr: bool|
        ray(b, PieceType::Queen, q.color, r, c, dr, dc, 8, kmr) == ray(b, PieceType::Bishop, q.color, r, c, dr, dc, 8, kmr)
            && #[trigger] ray(b, PieceType::Queen, q.color, r, c, dr, dc, 8, kmr) == ray(b, PieceType::Rook, q.color, r, c, dr, dc, 8, kmr) by {
        lemma_ray_kind(b, PieceType::Queen, PieceType::Bishop, q.color, r, c, dr, dc, 8, kmr);
        lemma_ray_kind(b, PieceType::Queen, PieceType::Rook, q.color, r, c, dr, dc, 8, kmr);
    }
    assert(all_diagonals(b, q, 8) == all_diagonals(b, bi, 8));
    assert(all_straights(b, q, 8) == all_straights(b, ro, 8));
}

/// A square is in a concatenation when it is in either part.
proof fn lemma_concat_contains(a: Seq<(u8, u8)>, b: Seq<(u8, u8)>, t: (u8, u8))
    ensures
        (a + b).contains(t) <==> a.contains(t) || b.contains(t),
{
    if (a + b).contains(t) {
        let i = choose|i: int| 0 <= i < (a + b).len() && (a + b)[i] == t;
        if i >= a.len() {
            assert(b[i - a.len()] == t);
        }
    }
    if a.contains(t) {
        let i = choose|i: int| 0 <= i < a.len() && a[i] == t;
        assert((a + b)[i] == t);
    }
    if b.contains(t) {
        let i = choose|i: int| 0 <= i < b.len() && b[i] == t;
        assert((a + b)[a.len() + i] == t);
    }
}

/// A knight moves to exactly the squares of the board two rows and one
/// file, or one row and two files, away from it, whatever stands there.
pub proof fn lemma_knight_moves(b: Squares, p: ChessPiece, t: (u8, u8))
    requires
        p.kind == PieceType::Knight,
    ensures
        all_moves(b, p).contains(t) <==> {
            let dr = t.0 - p.position.0;
            let dc = t.1 - p.position.1;
            &&& t.0 < 8 && t.1 < 8
            &&& ((dr == 1 || dr == -1) && (dc == 2 || dc == -2)) || ((dr == 2 || dr == -2) && (dc == 1 || dc
                == -1))
        },
{
    let j1 = jump(p, 2, 1);
    let j2 = jump(p, 2, -1);
    let j3 = jump(p, 1, 2);
    let j4 = jump(p, -1, 2);
    let j5 = jump(p, -2, 1);
    let j6 = jump(p, -2, -1);
    let j7 = jump(p, 1, -2);
    let j8 = jump(p, -1, -2);
    lemma_concat_contains(j1, j2, t);
    lemma_concat_contains(j1 + j2, j3, t);
    lemma_concat_contains(j1 + j2 + j3, j4, t);
    lemma_concat_contains(j1 + j2 + j3 + j4, j5, t);
    lemma_concat_contains(j1 + j2 + j3 + j4 + j5, j6, t);
    lemma_concat_contains(j1 + j2 + j3 + j4 + j5 + j6, j7, t);
    lemma_concat_contains(j1 + j2 + j3 + j4 + j5 + j6 + j7, j8, t);
    let r = p.position.0 as int;
    let c = p.position.1 as int;
    assert forall|dr: int, dc: int| #[trigger] jump(p, dr, dc).contains(t) <==> (0 <= r + dr < 8 && 0 <= c + dc < 8
        && t == ((r + dr) as u8, (c + dc) as u8)) by {
        if 0 <= r + dr < 8 && 0 <= c + dc < 8 && t == ((r + dr) as u8, (c + dc) as u8) {
            assert(jump(p, dr, dc)[0] == t);
        }
    }
    assert(jump(p, 2, 1).contains(t) == (0 <= r + 2 < 8 && 0 <= c + 1 < 8 && t == ((r + 2) as u8, (c + 1) as u8)));
}

/// The row step of a pawn: towards row 0 for White, row 7 for Black.
pub open spec fn pawn_step(color: PieceColor) -> int {
    if color == PieceColor::White {
        -1
    } else {
        1
    }
}

/// A pawn that has not moved steps one square forward onto an empty square
/// and two squares when both are empty (forward is towards row 0 for White,
/// row 7 for Black); a pawn that has moved steps only one.
pub proof fn lemma_pawn_pushes(b: Squares, p: ChessPiece)
    requires
        p.kind == PieceType::Pawn,
        p.position.0 < 8,
        p.position.1 < 8,
    ensures
        0 <= p.position.0 + pawn_step(p.color) < 8 && b[p.position.0 + pawn_step(p.color)][p.position.1 as int] is None
            ==> all_moves(b, p).contains(((p.position.0 + pawn_step(p.color)) as u8, p.position.1)),
        !p.has_moved && 0 <= p.position.0 + 2 * pawn_step(p.color) < 8 && b[p.position.0 + pawn_step(
            p.color,
        )][p.position.1 as int] is None && b[p.position.0 + 2 * pawn_step(p.color)][p.position.1 as int] is None
            ==> all_moves(b, p).contains(((p.position.0 + 2 * pawn_step(p.color)) as u8, p.position.1)),
        p.has_moved && 0 <= p.position.0 + 2 * pawn_step(p.color) < 8 ==> !all_moves(b, p).contains(
            ((p.position.0 + 2 * pawn_step(p.color)) as u8, p.position.1),
        ),
{
    let r = p.position.0 as int;
    let c = p.position.1 as int;
    let f = forward(p.color);
    let depth: nat = if !p.has_moved { 2 } else { 1 };
    let push = file_moves(b, p, VerticalDirection::Up, depth);
    let dl = diagonal_moves(b, p, VerticalDirection::Up, HorizontalDirection::Left, 1);
    let dr = diagonal_moves(b, p, VerticalDirection::Up, HorizontalDirection::Right, 1);
    lemma_concat_contains(push, dl, ((r + f) as u8, c as u8));
    lemma_concat_contains(push + dl, dr, ((r + f) as u8, c as u8));
    lemma_concat_contains(push, dl, ((r + 2 * f) as u8, c as u8));
    lemma_concat_contains(push + dl, dr, ((r + 2 * f) as u8, c as u8));
    if 0 <= r + f < 8 && b[r + f][c] is None {
        assert(push[0] == ((r + f) as u8, c as u8));
        if !p.has_moved && 0 <= r + 2 * f < 8 && b[r + 2 * f][c] is None {
            assert(push.len() > 1 && push[1] == ((r + 2 * f) as u8, c as u8)) by {
                reveal_with_fuel(ray, 3);
            }
            assert(push.contains(((r + 2 * f) as u8, c as u8)));
            assert(all_moves(b, p) == push + dl + dr);
        }
    }
    if p.has_moved && 0 <= r + 2 * f < 8 {
        let t = ((r + 2 * f) as u8, c as u8);
        assert(depth == 1);
        assert(push == piece_ray(b, p, vertical_step(p.color, VerticalDirection::Up), 0, 1, false));
        lemma_ray_one_step_squares(b, p, vertical_step(p.color, VerticalDirection::Up), 0);
        assert(!push.contains(t)) by {
            if push.contains(t) {
                let i = choose|i: int| 0 <= i < push.len() && push[i] == t;
                assert(push[i] == ((r + f) as u8, c as u8));
            }
        }
        lemma_ray_one_step_squares(b, p, vertical_step(p.color, VerticalDirection::Up), -1);
        lemma_ray_one_step_squares(b, p, vertical_step(p.color, VerticalDirection::Up), 1);
        assert(!dl.contains(t)) by {
            if dl.contains(t) {
                let i = choose|i: int| 0 <= i < dl.len() && dl[i] == t;
                assert(dl[i] == ((r + f) as u8, (c - 1) as u8));
            }
        }
        assert(!dr.contains(t)) by {
            if dr.contains(t) {
                let i = choose|i: int| 0 <= i < dr.len() && dr[i] == t;
                assert(dr[i] == ((r + f) as u8, (c + 1) as u8));
            }
        }
        assert(all_moves(b, p) == push + dl + dr);
        assert(!(push + dl).contains(t));
        assert(!(push + dl + dr).contains(t));
    }
}

/// A one-step slide reaches at most the neighbouring square.
proof fn lemma_ray_one_step_squares(b: Squares, p: ChessPiece, dr: int, dc: int)
    ensures
        forall|i: int| 0 <= i < piece_ray(b, p, dr, dc, 1, false).len() ==> (#[trigger] piece_ray(
            b,
            p,
            dr,
            dc,
            1,
            false,
        )[i]) == ((p.position.0 + dr) as u8, (p.position.1 + dc) as u8),
        piece_ray(b, p, dr, dc, 1, false).len() <= 1,
        piece_ray(b, p, dr, dc, 1, false).len() > 0 ==> 0 <= p.position.0 + dr < 8 && 0 <= p.position.1 + dc < 8,
{
    reveal_with_fuel(ray, 2);
}

/// The squares a piece attacks: a pawn attacks the two squares diagonally in
/// front of it, every other piece the squares of its pseudo-moves.
pub open spec fn attack_squares(b: Squares, p: ChessPiece) -> Seq<(u8, u8)> {
    match p.kind {
        PieceType::Pawn => {
            let ar = p.position.0 + forward(p.color);
            if 0 <= ar < 8 {
                jump(p, forward(p.color), -1) + jump(p, forward(p.color), 1)
            } else {
                seq![]
            }
        },
        _ => all_moves(b, p),
    }
}

/// Every element of the sequence lies on the board.
pub open spec fn all_on_board(s: Seq<(u8, u8)>) -> bool {
    forall|i: int| 0 <= i < s.len() ==> on_board(#[trigger] s[i])
}

proof fn lemma_concat_on_board(a: Seq<(u8, u8)>, b: Seq<(u8, u8)>)
    requires
        all_on_board(a),
        all_on_board(b),
    ensures
        all_on_board(a + b),
{
    assert forall|i: int| 0 <= i < (a + b).len() implies on_board(#[trigger] (a + b)[i]) by {
        if i >= a.len() {
            assert((a + b)[i] == b[i - a.len()]);
        }
    }
}

/// Every pseudo-move and every attacked square lies on the board.
pub proof fn lemma_all_moves_on_board(b: Squares, p: ChessPiece)
    ensures
        all_on_board(all_moves(b, p)),
        all_on_board(attack_squares(b, p)),
{
    let ps = p.position;
    let (r, c) = (ps.0 as int, ps.1 as int);
    let f = forward(p.color);
    lemma_ray_on_board(b, p.kind, p.color, r, c, f, -1, 8, false);
    lemma_ray_on_board(b, p.kind, p.color, r, c, f, 1, 8, false);
    lemma_ray_on_board(b, p.kind, p.color, r, c, -f, -1, 8, false);
    lemma_ray_on_board(b, p.kind, p.color, r, c, -f, 1, 8, false);
    lemma_ray_on_board(b, p.kind, p.color, r, c, f, -1, 1, false);
    lemma_ray_on_board(b, p.kind, p.color, r, c, f, 1, 1, false);
    lemma_ray_on_board(b, p.kind, p.color, r, c, -f, -1, 1, false);
    lemma_ray_on_board(b, p.kind, p.color, r, c, -f, 1, 1, false);
    lemma_ray_on_board(b, p.kind, p.color, r, c, -f, 0, 8, false);
    lemma_ray_on_board(b, p.kind, p.color, r, c, f, 0, 8, false);
    lemma_ray_on_board(b, p.kind, p.color, r, c, -f, 0, 1, false);
    lemma_ray_on_board(b, p.kind, p.color, r, c, f, 0, 1, false);
    lemma_ray_on_board(b, p.kind, p.color, r, c, f, 0, 2, false);
    lemma_ray_on_board(b, p.kind, p.color, r, c, 0, -1, 8, true);
    lemma_ray_on_board(b, p.kind, p.color, r, c, 0, 1, 8, true);
    lemma_ray_on_board(b, p.kind, p.color, r, c, 0, -1, 1, true);
    lemma_ray_on_board(b, p.kind, p.color, r, c, 0, 1, 1, true);
    let d8 = all_diagonals(b, p, 8);
    let d1 = all_diagonals(b, p, 1);
    let s8 = all_straights(b, p, 8);
    let s1 = all_straights(b, p, 1);
    lemma_concat_on_board(
        diagonal_moves(b, p, VerticalDirection::Up, HorizontalDirection::Left, 8),
        diagonal_moves(b, p, VerticalDirection::Up, HorizontalDirection::Right, 8),
    );
    lemma_concat_on_board(
        diagonal_moves(b, p, VerticalDirection::Up, HorizontalDirection::Left, 8)
            + diagonal_moves(b, p, VerticalDirection::Up, HorizontalDirection::Right, 8),
        diagonal_moves(b, p, VerticalDirection::Down, HorizontalDirection::Left, 8),
    );
    lemma_concat_on_board(
        diagonal_moves(b, p, VerticalDirection::Up, HorizontalDirection::Left, 8)
            + diagonal_moves(b, p, VerticalDirection::Up, HorizontalDirection::Right, 8)
            + diagonal_moves(b, p, VerticalDirection::Down, HorizontalDirection::Left, 8),
        diagonal_moves(b, p, VerticalDirection::Down, HorizontalDirection::Right, 8),
    );
    lemma_concat_on_board(
        diagonal_moves(b, p, VerticalDirection::Up, HorizontalDirection::Left, 1),
        diagonal_moves(b, p, VerticalDirection::Up, HorizontalDirection::Right, 1),
    );
    lemma_concat_on_board(
        diagonal_moves(b, p, VerticalDirection::Up, HorizontalDirection::Left, 1)
            + diagonal_moves(b, p, VerticalDirection::Up, HorizontalDirection::Right, 1),
        diagonal_moves(b, p, VerticalDirection::Down, HorizontalDirection::Left, 1),
    );
    lemma_concat_on_board(
        diagonal_moves(b, p, VerticalDirection::Up, HorizontalDirection::Left, 1)
            + diagonal_moves(b, p, VerticalDirection::Up, HorizontalDirection::Right, 1)
            + diagonal_moves(b, p, VerticalDirection::Down, HorizontalDirection::Left, 1),
        diagonal_moves(b, p, VerticalDirection::Down, HorizontalDirection::Right, 1),
    );
    lemma_concat_on_board(
        file_moves(b, p, VerticalDirection::Down, 8),
        file_moves(b, p, VerticalDirection::Up, 8),
    );
    lemma_concat_on_board(
        file_moves(b, p, VerticalDirection::Down, 8) + file_moves(b, p, VerticalDirection::Up, 8),
        rank_moves(b, p, HorizontalDirection::Left, 8),
    );
    lemma_concat_on_board(
        file_moves(b, p, VerticalDirection::Down, 8) + file_moves(b, p, VerticalDirection::Up, 8)
            + rank_moves(b, p, HorizontalDirection::Left, 8),
        rank_moves(b, p, HorizontalDirection::Right, 8),
    );
    lemma_concat_on_board(
        file_moves(b, p, VerticalDirection::Down, 1),
        file_moves(b, p, VerticalDirection::Up, 1),
    );
    lemma_concat_on_board(
        file_moves(b, p, VerticalDirection::Down, 1) + file_moves(b, p, VerticalDirection::Up, 1),
        rank_moves(b, p, HorizontalDirection::Left, 1),
    );
    lemma_concat_on_board(
        file_moves(b, p, VerticalDirection::Down, 1) + file_moves(b, p, VerticalDirection::Up, 1)
            + rank_moves(b, p, HorizontalDirection::Left, 1),
        rank_moves(b, p, HorizontalDirection::Right, 1),
    );
    lemma_concat_on_board(d8, s8);
    lemma_concat_on_board(d1, s1);
    lemma_concat_on_board(jump(p, 2, 1), jump(p, 2, -1));
    lemma_concat_on_board(jump(p, 2, 1) + jump(p, 2, -1), jump(p, 1, 2));
    lemma_concat_on_board(jump(p, 2, 1) + jump(p, 2, -1) + jump(p, 1, 2), jump(p, -1, 2));
    lemma_concat_on_board(
        jump(p, 2, 1) + jump(p, 2, -1) + jump(p, 1, 2) + jump(p, -1, 2),
        jump(p, -2, 1),
    );
    lemma_concat_on_board(
        jump(p, 2, 1) + jump(p, 2, -1) + jump(p, 1, 2) + jump(p, -1, 2) + jump(p, -2, 1),
        jump(p, -2, -1),
    );
    lemma_concat_on_board(
        jump(p, 2, 1) + jump(p, 2, -1) + jump(p, 1, 2) + jump(p, -1, 2) + jump(p, -2, 1) + jump(
            p,
            -2,
            -1,
        ),
        jump(p, 1, -2),
    );
    lemma_concat_on_board(
        jump(p, 2, 1) + jump(p, 2, -1) + jump(p, 1, 2) + jump(p, -1, 2) + jump(p, -2, 1) + jump(
            p,
            -2,
            -1,
        ) + jump(p, 1, -2),
        jump(p, -1, -2),
    );
    let dep: nat = if !p.has_moved {
        2
    } else {
        1
    };
    lemma_ray_on_board(b, p.kind, p.color, r, c, f, 0, dep, false);
    lemma_concat_on_board(
        file_moves(b, p, VerticalDirection::Up, dep),
        diagonal_moves(b, p, VerticalDirection::Up, HorizontalDirection::Left, 1),
    );
    lemma_concat_on_board(
        file_moves(b, p, VerticalDirection::Up, dep) + diagonal_moves(
            b,
            p,
            VerticalDirection::Up,
            HorizontalDirection::Left,
            1,
        ),
        diagonal_moves(b, p, VerticalDirection::Up, HorizontalDirection::Right, 1),
    );
    lemma_concat_on_board(jump(p, f, -1), jump(p, f, 1));
}

/// The row step of a vertical direction for a colour.
fn vertical_step_exec(color: PieceColor, v: &VerticalDirection) -> (d: i8)
    ensures
        d as int == vertical_step(color, *v),
{
    match v {
        VerticalDirection::Up => if color == PieceColor::White {
            -1
        } else {
            1
        },
        VerticalDirection::Down => if color == PieceColor::White {
            1
        } else {
            -1
        },
    }
}

/// One knight jump, pushed when it lands on the board.
fn push_jump(moves: &mut Vec<(u8, u8)>, piece: &ChessPiece, dr: i8, dc: i8)
    requires
        on_board(piece.position),
        -2 <= dr <= 2,
        -2 <= dc <= 2,
    ensures
        final(moves)@ == old(moves)@ + jump(*piece, dr as int, dc as int),
{
    let kr = piece.position.0 as i8;
    let kf = piece.position.1 as i8;
    if kr + dr < 8 && kr + dr >= 0 && kf + dc < 8 && kf + dc >= 0 {
        moves.push(((kr + dr) as u8, (kf + dc) as u8));
    } else {
        assert(old(moves)@ + seq![] == old(moves)@);
    }
}

/// The knight jumps of `piece`, whatever occupies the target squares.
fn knight_on(piece: &ChessPiece) -> (moves: Vec<(u8, u8)>)
    requires
        on_board(piece.position),
    ensures
        moves@ == knight_moves(*piece),
{
    let mut moves: Vec<(u8, u8)> = Vec::new();
    push_jump(&mut moves, piece, 2, 1);
    push_jump(&mut moves, piece, 2, -1);
    push_jump(&mut moves, piece, 1, 2);
    push_jump(&mut moves, piece, -1, 2);
    push_jump(&mut moves, piece, -2, 1);
    push_jump(&mut moves, piece, -2, -1);
    push_jump(&mut moves, piece, 1, -2);
    push_jump(&mut moves, piece, -1, -2);
    assert(moves@ == knight_moves(*piece));
    moves
}

/// Appends the four diagonal slides.
fn push_diagonals(moves: &mut Vec<(u8, u8)>, squares: &Squares, piece: &ChessPiece, depth: u8)
    requires
        on_board(piece.position),
    ensures
        final(moves)@ == old(moves)@ + all_diagonals(*squares, *piece, depth as nat),
{
    let up = vertical_step_exec(piece.color, &VerticalDirection::Up);
    let down = vertical_step_exec(piece.color, &VerticalDirection::Down);
    let mut a = slide(squares, piece, depth, up, -1, false);
    let mut b = slide(squares, piece, depth, up, 1, false);
    let mut c = slide(squares, piece, depth, down, -1, false);
    let mut d = slide(squares, piece, depth, down, 1, false);
    moves.append(&mut a);
    moves.append(&mut b);
    moves.append(&mut c);
    moves.append(&mut d);
    assert(final(moves)@ == old(moves)@ + all_diagonals(*squares, *piece, depth as nat));
}

/// Appends the two file slides and then the two rank slides.
fn push_straights(moves: &mut Vec<(u8, u8)>, squares: &Squares, piece: &ChessPiece, depth: u8)
    requires
        on_board(piece.position),
    ensures
        final(moves)@ == old(moves)@ + all_straights(*squares, *piece, depth as nat),
{
    let up = vertical_step_exec(piece.color, &VerticalDirection::Up);
    let down = vertical_step_exec(piece.color, &VerticalDirection::Down);
    let mut a = slide(squares, piece, depth, down, 0, false);
    let mut b = slide(squares, piece, depth, up, 0, false);
    let mut c = slide(squares, piece, depth, 0, -1, true);
    let mut d = slide(squares, piece, depth, 0, 1, true);
    moves.append(&mut a);
    moves.append(&mut b);
    moves.append(&mut c);
    moves.append(&mut d);
    assert(final(moves)@ == old(moves)@ + all_straights(*squares, *piece, depth as nat));
}

/// The pseudo-moves of `piece` on the grid `squares`.
pub fn all_moves_on(squares: &Squares, piece: &ChessPiece) -> (moves: Vec<(u8, u8)>)
    requires
        on_board(piece.position),
    ensures
        moves@ == all_moves(*squares, *piece),
{
    let mut all: Vec<(u8, u8)> = Vec::new();
    match piece.kind {
        PieceType::Bishop => {
            push_diagonals(&mut all, squares, piece, 8);
        },
        PieceType::King => {
            push_diagonals(&mut all, squares, piece, 1);
            push_straights(&mut all, squares, piece, 1);
        },
        PieceType::Knight => {
            all = knight_on(piece);
        },
        PieceType::Queen => {
            push_diagonals(&mut all, squares, piece, 8);
            push_straights(&mut all, squares, piece, 8);
        },
        PieceType::Rook => {
            push_straights(&mut all, squares, piece, 8);
        },
        PieceType::Pawn => {
            let dep: u8 = if !piece.has_moved {
                2
            } else {
                1
            };
            let up = vertical_step_exec(piece.color, &VerticalDirection::Up);
            let mut a = slide(squares, piece, dep, up, 0, false);
            let mut b = slide(squares, piece, 1, up, -1, false);
            let mut c = slide(squares, piece, 1, up, 1, false);
            all.append(&mut a);
            all.append(&mut b);
            all.append(&mut c);
        },
    }
    all
}

/// The squares `piece` attacks on the grid `squares`.
pub fn attack_squares_on(squares: &Squares, piece: &ChessPiece) -> (attacks: Vec<(u8, u8)>)
    requires
        on_board(piece.position),
    ensures
        attacks@ == attack_squares(*squares, *piece),
{
    match piece.kind {
        PieceType::Pawn => {
            let mut attacks: Vec<(u8, u8)> = Vec::new();
            let direction: i8 = if piece.color == PieceColor::White {
                -1
            } else {
                1
            };
            let attack_rank = piece.position.0 as i8 + direction;
            if 0 <= attack_rank && attack_rank < 8 {
                push_jump(&mut attacks, piece, direction, -1);
                push_jump(&mut attacks, piece, direction, 1);
            }
            attacks
        },
        _ => all_moves_on(squares, piece),
    }
}

} // verus!

verus! {

/// A ray along a file keeps the column.
pub proof fn lemma_ray_same_column(
    b: Squares,
    kind: PieceType,
    color: PieceColor,
    r: int,
    c: int,
    dr: int,
    steps: nat,
    flag: bool,
)
    ensures
        forall|i: int|
            0 <= i < ray(b, kind, color, r, c, dr, 0, steps, flag).len() ==> (#[trigger] ray(
                b,
                kind,
                color,
                r,
                c,
                dr,
                0,
                steps,
                flag,
            )[i]).1 == c,
    decreases steps,
{
    if steps > 0 {
        lemma_ray_same_column(b, kind, color, r + dr, c, dr, (steps - 1) as nat, flag);
        let s = ray(b, kind, color, r, c, dr, 0, steps, flag);
        let rest = ray(b, kind, color, r + dr, c, dr, 0, (steps - 1) as nat, flag);
        assert forall|i: int| 0 <= i < s.len() implies (#[trigger] s[i]).1 == c by {
            if 0 <= r + dr < 8 && 0 <= c < 8 && b[r + dr][c] is None && i > 0 {
                assert(s[i] == rest[i - 1]);
            }
        }
    }
}

/// A ray of one step holds at most the neighbouring square.
pub proof fn lemma_ray_one_step(
    b: Squares,
    kind: PieceType,
    color: PieceColor,
    r: int,
    c: int,
    dr: int,
    dc: int,
    flag: bool,
)
    ensures
        forall|i: int|
            0 <= i < ray(b, kind, color, r, c, dr, dc, 1, flag).len() ==> #[trigger] ray(
                b,
                kind,
                color,
                r,
                c,
                dr,
                dc,
                1,
                flag,
            )[i] == ((r + dr) as u8, (c + dc) as u8),
{
    assert(ray(b, kind, color, r + dr, c + dc, dr, dc, 0, flag) == Seq::<(u8, u8)>::empty());
}

/// A pseudo-move of a pawn to another file goes one row forward.
pub proof fn lemma_pawn_side_moves(b: Squares, p: ChessPiece)
    requires
        p.kind == PieceType::Pawn,
        on_board(p.position),
    ensures
        forall|i: int|
            0 <= i < all_moves(b, p).len() && (#[trigger] all_moves(b, p)[i]).1 != p.position.1
                ==> all_moves(b, p)[i].0 == p.position.0 + forward(p.color),
{
    let f = forward(p.color);
    let (r, c) = (p.position.0 as int, p.position.1 as int);
    let dep: nat = if !p.has_moved {
        2
    } else {
        1
    };
    let a = file_moves(b, p, VerticalDirection::Up, dep);
    let l = diagonal_moves(b, p, VerticalDirection::Up, HorizontalDirection::Left, 1);
    let rt = diagonal_moves(b, p, VerticalDirection::Up, HorizontalDirection::Right, 1);
    lemma_ray_same_column(b, p.kind, p.color, r, c, f, dep, false);
    lemma_ray_one_step(b, p.kind, p.color, r, c, f, -1, false);
    lemma_ray_one_step(b, p.kind, p.color, r, c, f, 1, false);
    lemma_ray_on_board(b, p.kind, p.color, r, c, f, -1, 1, false);
    lemma_ray_on_board(b, p.kind, p.color, r, c, f, 1, 1, false);
    let s = all_moves(b, p);
    assert(s == a + l + rt);
    assert forall|i: int| 0 <= i < s.len() && (#[trigger] s[i]).1 != p.position.1 implies s[i].0
        == p.position.0 + f by {
        if i < a.len() {
            assert(s[i] == a[i]);
        } else if i < a.len() + l.len() {
            assert(s[i] == l[i - a.len()]);
            assert(on_board(l[i - a.len()]));
        } else {
            assert(s[i] == rt[i - a.len() - l.len()]);
            assert(on_board(rt[i - a.len() - l.len()]));
        }
    }
}

} // verus!

verus! {

/// The quiet moves of `p` that the board allows: pseudo-moves onto empty
/// squares (a pawn on its own file) that leave the king unattacked, a king
/// stepping one row or column.
pub open spec fn legal_quiet(b: Squares, ep: Option<(u8, u8)>, p: ChessPiece) -> Seq<(u8, u8)> {
    all_moves(b, p).filter(quiet_pred(b, p)).filter(legal_quiet_pred(b, ep, p))
}

/// The captures of `p` that the board allows: pseudo-moves onto an enemy
/// piece (a pawn to another file) or, for a pawn, onto the en-passant target,
/// that leave the king unattacked.
pub open spec fn legal_captures(b: Squares, ep: Option<(u8, u8)>, p: ChessPiece) -> Seq<(u8, u8)> {
    all_moves(b, p).filter(capture_pred(b, ep, p)).filter(safe_pred(b, ep, p))
}

/// The piece on flat index `i` (row `i / 8`, column `i % 8`).
pub open spec fn flat_piece(b: Squares, i: int) -> Option<ChessPiece> {
    b[i / 8][i % 8]
}

/// The largest flat index below `n` whose piece has id `id`, or -1.
pub open spec fn last_with_id_below(b: Squares, id: u32, n: int) -> int
    decreases n,
{
    if n <= 0 {
        -1
    } else if flat_piece(b, n - 1) is Some && flat_piece(b, n - 1)->0.id == id {
        n - 1
    } else {
        last_with_id_below(b, id, n - 1)
    }
}

/// A cache entry holds the legal quiet moves, legal captures and attacked
/// squares of `p`.
pub open spec fn moves_match(pm: PieceMoves, b: Squares, ep: Option<(u8, u8)>, p: ChessPiece) -> bool {
    &&& pm.quiet_moves@ == legal_quiet(b, ep, p)
    &&& pm.capture_moves@ == legal_captures(b, ep, p)
    &&& pm.attacks@ == attack_squares(b, p)
}

/// `new` is `old` after storing, for each piece among the first `n` flat
/// squares in order, its moves under its id: an id ends up with the moves of
/// the last piece that carries it, other ids keep their entries.
pub open spec fn cache_refreshed(
    old: Map<u32, PieceMoves>,
    new: Map<u32, PieceMoves>,
    b: Squares,
    ep: Option<(u8, u8)>,
    n: int,
) -> bool {
    forall|id: u32|
        #![trigger last_with_id_below(b, id, n), new.contains_key(id)]
        #![trigger last_with_id_below(b, id, n), new[id]]
        if last_with_id_below(b, id, n) >= 0 {
            &&& new.contains_key(id)
            &&& moves_match(new[id], b, ep, flat_piece(b, last_with_id_below(b, id, n))->0)
        } else {
            &&& new.contains_key(id) == old.contains_key(id)
            &&& old.contains_key(id) ==> new[id] == old[id]
        }
}

impl Board {
    /// The pseudo-moves of `piece`: every square its movement pattern reaches.
    pub fn get_all_moves(&self, piece: &ChessPiece) -> (moves: Vec<(u8, u8)>)
        requires
            on_board(piece.position),
        ensures
            moves@ == all_moves(self.squares, *piece),
    {
        all_moves_on(&self.squares, piece)
    }

    /// The legal quiet moves and the legal captures of `piece`.
    pub fn get_legal_moves(&self, piece: &ChessPiece) -> (moves: (Vec<(u8, u8)>, Vec<(u8, u8)>))
        requires
            on_board(piece.position),
            positions_on_board(self.squares),
        ensures
            moves.0@ == legal_quiet(self.squares, self.en_passant_target, *piece),
            moves.1@ == legal_captures(self.squares, self.en_passant_target, *piece),
    {
        let moves = self.get_all_moves(piece);
        proof {
            lemma_all_moves_on_board(self.squares, *piece);
        }
        let quiet = self.filter_quiet_moves(piece, &moves);
        proof {
            let s = all_moves(self.squares, *piece);
            let qp = quiet_pred(self.squares, *piece);
            lemma_filter_on_board(s, qp);
            lemma_filter_subset(s, qp);
            assert forall|i: int| 0 <= i < quiet@.len() implies simulation_defined(
                self.squares,
                self.en_passant_target,
                *piece,
                #[trigger] quiet@[i],
            ) by {
                assert(qp(quiet@[i]));
            }
        }
        let quiet = self.legalize_quiet_moves(piece, quiet);
        let captures = self.filter_capture_moves(piece, &moves);
        proof {
            let s = all_moves(self.squares, *piece);
            let cp = capture_pred(self.squares, self.en_passant_target, *piece);
            lemma_filter_on_board(s, cp);
            lemma_filter_subset(s, cp);
            assert forall|i: int| 0 <= i < captures@.len() implies simulation_defined(
                self.squares,
                self.en_passant_target,
                *piece,
                #[trigger] captures@[i],
            ) by {
                let x = captures@[i];
                assert(cp(x));
                if is_en_passant(self.squares, self.en_passant_target, *piece, x) {
                    lemma_pawn_side_moves(self.squares, *piece);
                    assert(s.contains(x));
                    let j = choose|j: int| 0 <= j < s.len() && s[j] == x;
                    assert(s[j].1 != piece.position.1);
                }
            }
        }
        let captures = self.legalize_capture_moves(piece, captures);
        (quiet, captures)
    }

    /// The legal captures of `piece`.
    pub fn lega_capture_moves(&self, piece: &ChessPiece) -> (captures: Vec<(u8, u8)>)
        requires
            on_board(piece.position),
            positions_on_board(self.squares),
        ensures
            captures@ == legal_captures(self.squares, self.en_passant_target, *piece),
    {
        let (_quiet, captures) = self.get_legal_moves(piece);
        captures
    }

    /// The squares `piece` reaches sliding diagonally in direction `dir`, at most
    /// `depth` steps.
    pub fn get_diagonal_moves(
        &self,
        piece: &ChessPiece,
        depth: u8,
        dir: (VerticalDirection, HorizontalDirection),
    ) -> (moves: Vec<(u8, u8)>)
        requires
            on_board(piece.position),
        ensures
            moves@ == diagonal_moves(self.squares, *piece, dir.0, dir.1, depth as nat),
    {
        let dr = vertical_step_exec(piece.color, &dir.0);
        let dc: i8 = match dir.1 {
            HorizontalDirection::Left => -1,
            HorizontalDirection::Right => 1,
        };
        slide(&self.squares, piece, depth, dr, dc, false)
    }

    /// The squares `piece` reaches sliding along its rank towards `h`, at most
    /// `depth` steps; a king stops on, and includes, a friendly rook.
    pub fn get_rank_moves(&self, piece: &ChessPiece, depth: u8, h: HorizontalDirection) -> (moves:
        Vec<(u8, u8)>)
        requires
            on_board(piece.position),
        ensures
            moves@ == rank_moves(self.squares, *piece, h, depth as nat),
    {
        let dc: i8 = match h {
            HorizontalDirection::Left => -1,
            HorizontalDirection::Right => 1,
        };
        slide(&self.squares, piece, depth, 0, dc, true)
    }

    /// The squares `piece` reaches sliding along its file towards `h`, at most
    /// `depth` steps.
    pub fn get_file_moves(&self, piece: &ChessPiece, depth: u8, h: VerticalDirection) -> (moves:
        Vec<(u8, u8)>)
        requires
            on_board(piece.position),
        ensures
            moves@ == file_moves(self.squares, *piece, h, depth as nat),
    {
        let dr = vertical_step_exec(piece.color, &h);
        slide(&self.squares, piece, depth, dr, 0, false)
    }

    /// The knight jumps from the square of `piece` that stay on the board.
    pub fn get_knight_moves(&self, piece: &ChessPiece) -> (moves: Vec<(u8, u8)>)
        requires
            on_board(piece.position),
        ensures
            moves@ == knight_moves(*piece),
    {
        knight_on(piece)
    }

    /// The squares `piece` attacks.
    pub fn get_attack_squares(&self, piece: &ChessPiece) -> (attacks: Vec<(u8, u8)>)
        requires
            on_board(piece.position),
        ensures
            attacks@ == attack_squares(self.squares, *piece),
    {
        attack_squares_on(&self.squares, piece)
    }

    /// Stores, for every piece on the board in row-major order, its legal quiet
    /// moves, legal captures and attacked squares under its id.
    pub fn rerender_move_cache(&mut self)
        requires
            positions_on_board(old(self).squares),
        ensures
            cache_refreshed(
                old(self).move_cache@,
                final(self).move_cache@,
                old(self).squares,
                old(self).en_passant_target,
                64,
            ),
            final(self).squares == old(self).squares,
            final(self).turn == old(self).turn,
            final(self).white_big_castle == old(self).white_big_castle,
            final(self).black_big_castle == old(self).black_big_castle,
            final(self).white_small_castle == old(self).white_small_castle,
            final(self).black_small_castle == old(self).black_small_castle,
            final(self).halfmove_clock == old(self).halfmove_clock,
            final(self).fullmove_number == old(self).fullmove_number,
            final(self).en_passant_target == old(self).en_passant_target,
            final(self).meta_data == old(self).meta_data,
            final(self).next_id == old(self).next_id,
            final(self).game_phase == old(self).game_phase,
            final(self).ply_count == old(self).ply_count,
    {
        let ghost old_cache = self.move_cache@;
        let mut k: usize = 0;
        while k < 64
            invariant
                k <= 64,
                positions_on_board(self.squares),
                self.squares == old(self).squares,
                self.turn == old(self).turn,
                self.white_big_castle == old(self).white_big_castle,
                self.black_big_castle == old(self).black_big_castle,
                self.white_small_castle == old(self).white_small_castle,
                self.black_small_castle == old(self).black_small_castle,
                self.halfmove_clock == old(self).halfmove_clock,
                self.fullmove_number == old(self).fullmove_number,
                self.en_passant_target == old(self).en_passant_target,
                self.meta_data == old(self).meta_data,
                self.next_id == old(self).next_id,
                self.game_phase == old(self).game_phase,
                self.ply_count == old(self).ply_count,
                old_cache == old(self).move_cache@,
                cache_refreshed(
                    old_cache,
                    self.move_cache@,
                    self.squares,
                    self.en_passant_target,
                    k as int,
                ),
            decreases 64 - k,
        {
            let r = k / 8;
            let c = k % 8;
            let ghost before = self.move_cache@;
            match self.squares[r][c] {
                Some(piece) => {
                    assert(on_board(piece.position));
                    let (quiet_moves, capture_moves) = self.get_legal_moves(&piece);
                    let attacks = self.get_attack_squares(&piece);
                    let pm = PieceMoves { quiet_moves, capture_moves, attacks };
                    self.move_cache.insert(piece.id, pm);
                    proof {
                        assert(flat_piece(self.squares, k as int) == Some(piece));
                        assert forall|id: u32|
                            #![trigger last_with_id_below(self.squares, id, k + 1)]
                            true implies (if last_with_id_below(self.squares, id, k + 1) >= 0 {
                            &&& self.move_cache@.contains_key(id)
                            &&& moves_match(
                                self.move_cache@[id],
                                self.squares,
                                self.en_passant_target,
                                flat_piece(
                                    self.squares,
                                    last_with_id_below(self.squares, id, k + 1),
                                )->0,
                            )
                        } else {
                            &&& self.move_cache@.contains_key(id) == old_cache.contains_key(id)
                            &&& old_cache.contains_key(id) ==> self.move_cache@[id] == old_cache[id]
                        }) by {
                            let j = last_with_id_below(self.squares, id, k as int);
                            if id != piece.id {
                                assert(before.contains_key(id) == self.move_cache@.contains_key(id));
                            }
                        }
                    }
                },
                None => {
                    proof {
                        assert(flat_piece(self.squares, k as int) is None);
                        assert forall|id: u32|
                            #![trigger last_with_id_below(self.squares, id, k + 1)]
                            true implies last_with_id_below(self.squares, id, k + 1)
                            == last_with_id_below(self.squares, id, k as int) by {}
                    }
                },
            }
            k += 1;
        }
    }
}

} // verus!
