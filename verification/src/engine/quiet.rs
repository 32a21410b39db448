use vstd::prelude::*;

use crate::engine::board::Board;
use crate::engine::move_gen::{all_on_board, on_board, positions_on_board};
use crate::engine::piece::{ChessPiece, PieceType, Squares};
use crate::engine::simulate::{safe_move, simulation_defined};

verus! {

broadcast use vstd::array::group_array_axioms;

/// `pos` is a quiet destination for `p`: the square is empty, and a pawn stays
/// on its file.
pub open spec fn quiet_target(b: Squares, p: ChessPiece, pos: (u8, u8)) -> bool {
    &&& b[pos.0 as int][pos.1 as int] is None
    &&& (p.kind != PieceType::Pawn || p.position.1 == pos.1)
}

/// `quiet_target` as a predicate on squares.
pub open spec fn quiet_pred(b: Squares, p: ChessPiece) -> spec_fn((u8, u8)) -> bool {
    |pos: (u8, u8)| quiet_target(b, p, pos)
}

/// A king moves one row or one column away (so it never castles through here).
pub open spec fn king_step_ok(p: ChessPiece, pos: (u8, u8)) -> bool {
    p.kind != PieceType::King || (p.position.1 == pos.1 + 1 || pos.1 == p.position.1 + 1) || (
    p.position.0 == pos.0 + 1 || pos.0 == p.position.0 + 1)
}

/// A quiet destination is kept when the move is safe and, for a king, a
/// one-square step.
pub open spec fn legal_quiet_pred(b: Squares, ep: Option<(u8, u8)>, p: ChessPiece) -> spec_fn(
    (u8, u8),
) -> bool {
    |pos: (u8, u8)| safe_move(b, ep, p, pos) && king_step_ok(p, pos)
}

/// Taking the first `i + 1` elements and filtering adds at most the `i`-th one.
pub proof fn lemma_filter_step<A>(s: Seq<A>, i: int, pred: spec_fn(A) -> bool)
    requires
        0 <= i < s.len(),
    ensures
        s.take(i + 1).filter(pred) == if pred(s[i]) {
            s.take(i).filter(pred).push(s[i])
        } else {
            s.take(i).filter(pred)
        },
{
    reveal_with_fuel(Seq::filter, 1);
    assert(s.take(i + 1).drop_last() =~= s.take(i));
}

/// What a filter keeps comes from the filtered sequence.
pub proof fn lemma_filter_subset<A>(s: Seq<A>, pred: spec_fn(A) -> bool)
    ensures
        forall|i: int|
            0 <= i < s.filter(pred).len() ==> s.contains(#[trigger] s.filter(pred)[i]) && pred(
                s.filter(pred)[i],
            ),
{
    broadcast use vstd::seq_lib::group_filter_ensures;

    assert forall|i: int| 0 <= i < s.filter(pred).len() implies s.contains(
        #[trigger] s.filter(pred)[i],
    ) && pred(s.filter(pred)[i]) by {
        s.lemma_filter_contains_rev(pred, s.filter(pred)[i]);
        assert(s.filter(pred).contains(s.filter(pred)[i]));
    }
}

/// A filter of squares on the board holds squares on the board.
pub proof fn lemma_filter_on_board(s: Seq<(u8, u8)>, pred: spec_fn((u8, u8)) -> bool)
    requires
        all_on_board(s),
    ensures
        all_on_board(s.filter(pred)),
{
    lemma_filter_subset(s, pred);
    assert forall|i: int| 0 <= i < s.filter(pred).len() implies on_board(
        #[trigger] s.filter(pred)[i],
    ) by {
        let x = s.filter(pred)[i];
        assert(s.contains(x));
        let j = choose|j: int| 0 <= j < s.len() && s[j] == x;
        assert(on_board(s[j]));
    }
}

impl Board {
    /// Keeps the squares of `moves` that are quiet destinations for `piece`.
    pub fn filter_quiet_moves(&self, piece: &ChessPiece, moves: &Vec<(u8, u8)>) -> (quiet: Vec<
        (u8, u8),
    >)
        requires
            all_on_board(moves@),
        ensures
            quiet@ == moves@.filter(quiet_pred(self.squares, *piece)),
    {
        let ghost pred = quiet_pred(self.squares, *piece);
        let mut res: Vec<(u8, u8)> = Vec::new();
        let mut i: usize = 0;
        while i < moves.len()
            invariant
                i <= moves.len(),
                all_on_board(moves@),
                pred == quiet_pred(self.squares, *piece),
                res@ == moves@.take(i as int).filter(pred),
            decreases moves.len() - i,
        {
            let pos = moves[i];
            proof {
                lemma_filter_step(moves@, i as int, pred);
                assert(on_board(moves@[i as int]));
            }
            let keep = match self.squares[pos.0 as usize][pos.1 as usize] {
                None => {
                    if piece.kind == PieceType::Pawn {
                        piece.position.1 == pos.1
                    } else {
                        true
                    }
                },
                _ => false,
            };
            if keep {
                res.push(pos);
            }
            i += 1;
        }
        assert(moves@.take(moves@.len() as int) =~= moves@);
        res
    }

    /// Keeps the quiet moves of `piece` that leave its king unattacked; a king
    /// keeps only steps to an adjacent row or column.
    pub fn legalize_quiet_moves(&self, piece: &ChessPiece, quiet_moves: Vec<(u8, u8)>) -> (legal: Vec<
        (u8, u8),
    >)
        requires
            on_board(piece.position),
            positions_on_board(self.squares),
            all_on_board(quiet_moves@),
            forall|i: int|
                0 <= i < quiet_moves@.len() ==> simulation_defined(
                    self.squares,
                    self.en_passant_target,
                    *piece,
                    #[trigger] quiet_moves@[i],
                ),
        ensures
            legal@ == quiet_moves@.filter(
                legal_quiet_pred(self.squares, self.en_passant_target, *piece),
            ),
    {
        let ghost pred = legal_quiet_pred(self.squares, self.en_passant_target, *piece);
        let mut valid_quiet_moves: Vec<(u8, u8)> = Vec::new();
        let mut i: usize = 0;
        while i < quiet_moves.len()
            invariant
                i <= quiet_moves.len(),
                on_board(piece.position),
                positions_on_board(self.squares),
                all_on_board(quiet_moves@),
                forall|i: int|
                    0 <= i < quiet_moves@.len() ==> simulation_defined(
                        self.squares,
                        self.en_passant_target,
                        *piece,
                        #[trigger] quiet_moves@[i],
                    ),
                pred == legal_quiet_pred(self.squares, self.en_passant_target, *piece),
                valid_quiet_moves@ == quiet_moves@.take(i as int).filter(pred),
            decreases quiet_moves.len() - i,
        {
            let mv = quiet_moves[i];
            proof {
                lemma_filter_step(quiet_moves@, i as int, pred);
                assert(on_board(quiet_moves@[i as int]));
            }
            if self.simulate_move(piece, &mv) {
                if piece.kind == PieceType::King {
                    let col_step = if piece.position.1 >= mv.1 {
                        piece.position.1 - mv.1
                    } else {
                        mv.1 - piece.position.1
                    };
                    let row_step = if piece.position.0 >= mv.0 {
                        piece.position.0 - mv.0
                    } else {
                        mv.0 - piece.position.0
                    };
                    if col_step == 1 || row_step == 1 {
                        valid_quiet_moves.push(mv);
                    }
                } else {
                    valid_quiet_moves.push(mv);
                }
            }
            i += 1;
        }
        assert(quiet_moves@.take(quiet_moves@.len() as int) =~= quiet_moves@);
        valid_quiet_moves
    }
}

} // verus!
