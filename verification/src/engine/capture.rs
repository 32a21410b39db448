use vstd::prelude::*;

use crate::engine::board::Board;
use crate::engine::move_gen::{all_on_board, on_board, positions_on_board};
use crate::engine::piece::{ChessPiece, PieceType, Squares};
use crate::engine::quiet::lemma_filter_step;
use crate::engine::simulate::{safe_move, simulation_defined};

verus! {

broadcast use vstd::array::group_array_axioms;

/// `pos` is a capture destination for `p`: an enemy piece stands there (a pawn
/// must move to another file to take it), or `p` is a pawn moving to another
/// file onto the empty en-passant target.
pub open spec fn capture_target(b: Squares, ep: Option<(u8, u8)>, p: ChessPiece, pos: (u8, u8)) -> bool {
    match b[pos.0 as int][pos.1 as int] {
        Some(q) => q.color != p.color && (p.kind != PieceType::Pawn || p.position.1 != pos.1),
        None => p.kind == PieceType::Pawn && p.position.1 != pos.1 && ep == Some(pos),
    }
}

/// `capture_target` as a predicate on squares.
pub open spec fn capture_pred(b: Squares, ep: Option<(u8, u8)>, p: ChessPiece) -> spec_fn(
    (u8, u8),
) -> bool {
    |pos: (u8, u8)| capture_target(b, ep, p, pos)
}

/// A capture is kept when it leaves the capturing side's king unattacked.
pub open spec fn safe_pred(b: Squares, ep: Option<(u8, u8)>, p: ChessPiece) -> spec_fn(
    (u8, u8),
) -> bool {
    |pos: (u8, u8)| safe_move(b, ep, p, pos)
}

impl Board {
    /// Keeps the squares of `moves` that are capture destinations for `piece`.
    pub fn filter_capture_moves(&self, piece: &ChessPiece, moves: &Vec<(u8, u8)>) -> (captures: Vec<
        (u8, u8),
    >)
        requires
            all_on_board(moves@),
        ensures
            captures@ == moves@.filter(capture_pred(self.squares, self.en_passant_target, *piece)),
    {
        let ghost pred = capture_pred(self.squares, self.en_passant_target, *piece);
        let mut res: Vec<(u8, u8)> = Vec::new();
        let mut i: usize = 0;
        while i < moves.len()
            invariant
                i <= moves.len(),
                all_on_board(moves@),
                pred == capture_pred(self.squares, self.en_passant_target, *piece),
                res@ == moves@.take(i as int).filter(pred),
            decreases moves.len() - i,
        {
            let pos = moves[i];
            proof {
                lemma_filter_step(moves@, i as int, pred);
                assert(on_board(moves@[i as int]));
            }
            let keep = match self.squares[pos.0 as usize][pos.1 as usize] {
                Some(q) => q.color != piece.color && (piece.kind != PieceType::Pawn
                    || piece.position.1 != pos.1),
                None => piece.kind == PieceType::Pawn && piece.position.1 != pos.1
                    && match self.en_passant_target {
                    Some(t) => t.0 == pos.0 && t.1 == pos.1,
                    None => false,
                },
            };
            if keep {
                res.push(pos);
            }
            i += 1;
        }
        assert(moves@.take(moves@.len() as int) =~= moves@);
        res
    }

    /// Keeps the captures of `piece` that leave its king unattacked.
    pub fn legalize_capture_moves(&self, piece: &ChessPiece, capture_moves: Vec<(u8, u8)>) -> (legal: Vec<
        (u8, u8),
    >)
        requires
            on_board(piece.position),
            positions_on_board(self.squares),
            all_on_board(capture_moves@),
            forall|i: int|
                0 <= i < capture_moves@.len() ==> simulation_defined(
                    self.squares,
                    self.en_passant_target,
                    *piece,
                    #[trigger] capture_moves@[i],
                ),
        ensures
            legal@ == capture_moves@.filter(safe_pred(self.squares, self.en_passant_target, *piece)),
    {
        let ghost pred = safe_pred(self.squares, self.en_passant_target, *piece);
        let mut valid: Vec<(u8, u8)> = Vec::new();
        let mut i: usize = 0;
        while i < capture_moves.len()
            invariant
                i <= capture_moves.len(),
                on_board(piece.position),
                positions_on_board(self.squares),
                all_on_board(capture_moves@),
                forall|i: int|
                    0 <= i < capture_moves@.len() ==> simulation_defined(
                        self.squares,
                        self.en_passant_target,
                        *piece,
                        #[trigger] capture_moves@[i],
                    ),
                pred == safe_pred(self.squares, self.en_passant_target, *piece),
                valid@ == capture_moves@.take(i as int).filter(pred),
            decreases capture_moves.len() - i,
        {
            let mv = capture_moves[i];
            proof {
                lemma_filter_step(capture_moves@, i as int, pred);
                assert(on_board(capture_moves@[i as int]));
            }
            if self.simulate_move(piece, &mv) {
                valid.push(mv);
            }
            i += 1;
        }
        assert(capture_moves@.take(capture_moves@.len() as int) =~= capture_moves@);
        valid
    }
}

} // verus!
