use vstd::prelude::*;

use crate::analyzer::analyzer::{BoardState, MoveKind, UndoInfo};
use crate::engine::fen::{fen_of, lemma_rows_fen_same, same_pieces};
use crate::engine::board::{
    captured_by, is_legal_move, lemma_legal_move_facts, lemma_move_keeps_wf, material_fits,
    move_applied, promotion_applied, same_but_cache, squares_after, taken_row, takes_en_passant,
    Board,
};
use crate::engine::move_gen::{
    cache_refreshed, legal_captures, legal_quiet, on_board, positions_on_board, MoveError,
};
use crate::engine::piece::{ChessPiece, PieceColor, PieceType, Squares};
use crate::engine::simulate::{contains_square, lemma_put, lemma_squares_ext, put};

verus! {

/// What the analyzer shows beside the board.
#[derive(Clone, Copy, Debug, PartialEq, Eq, Structural)]
pub enum AnalyzerWindowOprion {
    Emtpy,
    HeatMap,
}

/// The side to move, castling rights, en-passant target and clocks of a board.
pub open spec fn state_of(b: Board) -> BoardState {
    BoardState {
        turn: b.turn,
        white_big_castle: b.white_big_castle,
        white_small_castle: b.white_small_castle,
        black_big_castle: b.black_big_castle,
        black_small_castle: b.black_small_castle,
        en_passant_target: b.en_passant_target,
        halfmove_clock: b.halfmove_clock,
        fullmove_number: b.fullmove_number,
    }
}

/// The record of a legal move of `p` from `from` to `to` on `b`: the squares,
/// the taken piece, the state before the move, and for an en-passant capture
/// the square of the taken pawn (else the promotion asked for).
pub open spec fn undo_record(
    b: Board,
    p: ChessPiece,
    from: (u8, u8),
    to: (u8, u8),
    promotion: Option<PieceType>,
    is_capture: bool,
) -> UndoInfo {
    UndoInfo {
        from,
        to,
        captured: captured_by(b.squares, p, to, is_capture),
        prev_state: state_of(b),
        kind: if takes_en_passant(b.squares, p, to, is_capture) {
            MoveKind::EnPassant { captured_at: (taken_row(p, to) as u8, to.1) }
        } else {
            MoveKind::Normal { promotion }
        },
    }
}

/// The piece on `to` lifted off and set back on `from`, marked as not moved and,
/// when `to_pawn`, turned back into a pawn; the grid is unchanged when `to` is
/// empty.
pub open spec fn take_back(b: Squares, from: (u8, u8), to: (u8, u8), to_pawn: bool) -> Squares {
    match b[to.0 as int][to.1 as int] {
        Some(m) => put(
            put(b, to.0 as int, to.1 as int, None),
            from.0 as int,
            from.1 as int,
            Some(
                ChessPiece {
                    kind: if to_pawn {
                        PieceType::Pawn
                    } else {
                        m.kind
                    },
                    position: from,
                    has_moved: false,
                    ..m
                },
            ),
        ),
        None => b,
    }
}

/// An undo record can be applied to `b`: the moved piece stands on its
/// destination and, for a castle, the rook on its square once the king is back.
pub open spec fn undo_succeeds(b: Squares, u: UndoInfo) -> bool {
    &&& b[u.to.0 as int][u.to.1 as int] is Some
    &&& match u.kind {
        MoveKind::Castling { rook_from, rook_to } => take_back(b, u.from, u.to, false)[rook_to.0 as int][rook_to.1 as int] is Some,
        _ => true,
    }
}

/// The grid after an undo record is applied: the mover goes back (a promoted
/// pawn becomes a pawn again), a castle's rook goes back, and the taken piece
/// returns to the square it was taken on.
pub open spec fn undone_squares(b: Squares, u: UndoInfo) -> Squares {
    match u.kind {
        MoveKind::Castling { rook_from, rook_to } => take_back(
            take_back(b, u.from, u.to, false),
            rook_from,
            rook_to,
            false,
        ),
        MoveKind::EnPassant { captured_at } => {
            let b1 = take_back(b, u.from, u.to, false);
            match u.captured {
                Some(c) => put(b1, captured_at.0 as int, captured_at.1 as int, Some(c)),
                None => b1,
            }
        },
        MoveKind::Normal { promotion } => {
            let b1 = take_back(b, u.from, u.to, promotion is Some);
            match u.captured {
                Some(c) => put(b1, u.to.0 as int, u.to.1 as int, Some(c)),
                None => b1,
            }
        },
    }
}

/// The squares an undo record names lie on the board, and so does the
/// position of the piece it restores.
pub open spec fn undo_on_board(u: UndoInfo) -> bool {
    &&& on_board(u.from)
    &&& on_board(u.to)
    &&& match u.kind {
        MoveKind::Castling { rook_from, rook_to } => on_board(rook_from) && on_board(rook_to),
        MoveKind::EnPassant { captured_at } => u.captured is Some ==> on_board(captured_at),
        MoveKind::Normal { .. } => true,
    }
    &&& u.captured matches Some(c) ==> on_board(c.position)
}

/// Taking a piece back to a square of the board keeps every position on the
/// board.
pub proof fn lemma_take_back_on_board(b: Squares, from: (u8, u8), to: (u8, u8), to_pawn: bool)
    requires
        positions_on_board(b),
        on_board(from),
        on_board(to),
    ensures
        positions_on_board(take_back(b, from, to, to_pawn)),
{
    if b[to.0 as int][to.1 as int] is Some {
        let b1 = put(b, to.0 as int, to.1 as int, None);
        lemma_put(b, to.0 as int, to.1 as int, None);
        lemma_put(b1, from.0 as int, from.1 as int, take_back(b, from, to, to_pawn)[from.0 as int][from.1 as int]);
    }
}

/// Setting down a piece whose position lies on the board keeps every position
/// on the board.
pub proof fn lemma_set_on_board(b: Squares, pos: (u8, u8), c: ChessPiece)
    requires
        positions_on_board(b),
        on_board(pos),
        on_board(c.position),
    ensures
        positions_on_board(put(b, pos.0 as int, pos.1 as int, Some(c))),
{
    lemma_put(b, pos.0 as int, pos.1 as int, Some(c));
}

/// Taking back a legal move restores the position it was played from: the
/// undo record of the move applies to the board after it, and gives back the
/// grid with the mover on its square again (only its moved mark cleared) and
/// the taken piece where it stood, with the side to move, castling rights,
/// en-passant target and clocks of before. This holds when the promotion asked
/// for is given only for a pawn, a pawn reaching its last rank has one, and the
/// move is not an en-passant capture that promotes.
pub proof fn lemma_undo_restores(b: Board, from: (u8, u8), to: (u8, u8), promotion: Option<PieceType>)
    requires
        b.wf(),
        on_board(from),
        is_legal_move(b, from, to),
        promotion is Some ==> b.squares[from.0 as int][from.1 as int]->0.kind == PieceType::Pawn,
        promotion is None ==> promotion_applied(b.squares[from.0 as int][from.1 as int]->0, to, promotion) is None,
        ({
            let p = b.squares[from.0 as int][from.1 as int]->0;
            let is_capture = legal_captures(b.squares, b.en_passant_target, p).contains(to);
            !(takes_en_passant(b.squares, p, to, is_capture) && promotion_applied(p, to, promotion) is Some)
        }),
    ensures
        ({
            let p = b.squares[from.0 as int][from.1 as int]->0;
            let is_capture = legal_captures(b.squares, b.en_passant_target, p).contains(to);
            let after = squares_after(b.squares, p, from, to, promotion, is_capture);
            let u = undo_record(b, p, from, to, promotion, is_capture);
            &&& undo_succeeds(after, u)
            &&& undone_squares(after, u) == put(
                b.squares,
                from.0 as int,
                from.1 as int,
                Some(ChessPiece { has_moved: false, ..p }),
            )
            &&& !p.has_moved ==> undone_squares(after, u) == b.squares
            &&& u.prev_state == state_of(b)
        }),
{
    let p = b.squares[from.0 as int][from.1 as int]->0;
    let ep = b.en_passant_target;
    let is_capture = legal_captures(b.squares, ep, p).contains(to);
    let is_quiet = legal_quiet(b.squares, ep, p).contains(to);
    lemma_legal_move_facts(b, from, to);
    let after = squares_after(b.squares, p, from, to, promotion, is_capture);
    let u = undo_record(b, p, from, to, promotion, is_capture);
    let is_ep = takes_en_passant(b.squares, p, to, is_capture);
    let b1 = if !is_capture {
        b.squares
    } else if is_ep {
        put(b.squares, taken_row(p, to), to.1 as int, None)
    } else {
        put(b.squares, to.0 as int, to.1 as int, None)
    };
    if is_capture {
        if is_ep {
            lemma_put(b.squares, taken_row(p, to), to.1 as int, None);
        } else {
            lemma_put(b.squares, to.0 as int, to.1 as int, None);
        }
    }
    let b2 = put(b1, from.0 as int, from.1 as int, None);
    lemma_put(b1, from.0 as int, from.1 as int, None);
    lemma_put(b2, to.0 as int, to.1 as int, after[to.0 as int][to.1 as int]);
    assert(from != to);
    let back = take_back(after, from, to, !is_ep && promotion is Some);
    let a1 = put(after, to.0 as int, to.1 as int, None);
    lemma_put(after, to.0 as int, to.1 as int, None);
    lemma_put(a1, from.0 as int, from.1 as int, back[from.0 as int][from.1 as int]);
    let target = put(b.squares, from.0 as int, from.1 as int, Some(ChessPiece { has_moved: false, ..p }));
    lemma_put(b.squares, from.0 as int, from.1 as int, Some(ChessPiece { has_moved: false, ..p }));
    let res = undone_squares(after, u);
    if is_ep {
        let at = (taken_row(p, to) as u8, to.1);
        if u.captured is Some {
            lemma_put(back, at.0 as int, at.1 as int, u.captured);
        }
    } else if u.captured is Some {
        lemma_put(back, to.0 as int, to.1 as int, u.captured);
    }
    assert(p.position == from);
    assert(after[to.0 as int][to.1 as int] is Some);
    assert(back[from.0 as int][from.1 as int] == Some(ChessPiece { has_moved: false, ..p }));
    assert(is_ep ==> (taken_row(p, to) as u8, to.1) != from && (taken_row(p, to) as u8, to.1) != to);
    assert(is_quiet && !is_capture ==> b.squares[to.0 as int][to.1 as int] is None);
    assert forall|r: int, c: int| 0 <= r < 8 && 0 <= c < 8 implies #[trigger] res[r][c] == target[r][c] by {
        if r == from.0 && c == from.1 {
        } else if r == to.0 && c == to.1 {
        } else if is_ep && r == taken_row(p, to) && c == to.1 {
        } else {
            assert(res[r][c] == back[r][c]);
            assert(back[r][c] == after[r][c]);
            assert(after[r][c] == b.squares[r][c]);
        }
    }
    lemma_squares_ext(res, target);
    if !p.has_moved {
        assert forall|r: int, c: int| 0 <= r < 8 && 0 <= c < 8 implies #[trigger] target[r][c] == b.squares[r][c] by {
        }
        lemma_squares_ext(target, b.squares);
    }
}

/// Taking back a move with its undo record gives back the FEN of the
/// position before it: when the board `b2` has the squares and the state
/// that `apply_undo` gives from the board after the move and its record, it
/// writes the FEN of `b` (only the moved mark of the mover, which the FEN
/// does not show, differs). The conditions are those of
/// `lemma_undo_restores`.
pub proof fn lemma_undo_same_fen(b: Board, from: (u8, u8), to: (u8, u8), promotion: Option<PieceType>, b2: Board)
    requires
        b.wf(),
        on_board(from),
        is_legal_move(b, from, to),
        promotion is Some ==> b.squares[from.0 as int][from.1 as int]->0.kind == PieceType::Pawn,
        promotion is None ==> promotion_applied(b.squares[from.0 as int][from.1 as int]->0, to, promotion) is None,
        ({
            let p = b.squares[from.0 as int][from.1 as int]->0;
            let is_capture = legal_captures(b.squares, b.en_passant_target, p).contains(to);
            !(takes_en_passant(b.squares, p, to, is_capture) && promotion_applied(p, to, promotion) is Some)
        }),
        ({
            let p = b.squares[from.0 as int][from.1 as int]->0;
            let is_capture = legal_captures(b.squares, b.en_passant_target, p).contains(to);
            let after = squares_after(b.squares, p, from, to, promotion, is_capture);
            let u = undo_record(b, p, from, to, promotion, is_capture);
            &&& b2.squares == undone_squares(after, u)
            &&& state_of(b2) == u.prev_state
        }),
    ensures
        fen_of(b2) == fen_of(b),
{
    let p = b.squares[from.0 as int][from.1 as int]->0;
    lemma_undo_restores(b, from, to, promotion);
    let target = put(b.squares, from.0 as int, from.1 as int, Some(ChessPiece { has_moved: false, ..p }));
    lemma_put(b.squares, from.0 as int, from.1 as int, Some(ChessPiece { has_moved: false, ..p }));
    assert(b2.squares == target);
    assert(same_pieces(b2.squares, b.squares)) by {
        assert forall|r: int, c: int| 0 <= r < 8 && 0 <= c < 8 implies match (#[trigger] b2.squares[r][c], b.squares[r][c]) {
            (None, None) => true,
            (Some(x), Some(y)) => x.kind == y.kind && x.color == y.color,
            _ => false,
        } by {
            assert(target[r][c] == if r == from.0 && c == from.1 {
                Some(ChessPiece { has_moved: false, ..p })
            } else {
                b.squares[r][c]
            });
        }
    }
    lemma_rows_fen_same(b2.squares, b.squares, 8);
}

impl Board {
    /// Lifts the piece off `to` and sets it back on `from` as not moved (a pawn
    /// again when `to_pawn`); returns whether there was a piece to lift.
    fn take_back_piece(&mut self, from: (u8, u8), to: (u8, u8), to_pawn: bool) -> (found: bool)
        requires
            on_board(from),
            on_board(to),
        ensures
            found == old(self).squares[to.0 as int][to.1 as int] is Some,
            *final(self) == (Board { squares: take_back(old(self).squares, from, to, to_pawn), ..*old(self) }),
    {
        let ghost b0 = self.squares;
        match self.squares[to.0 as usize][to.1 as usize] {
            Some(piece) => {
                self.squares[to.0 as usize][to.1 as usize] = None;
                let ghost b1 = self.squares;
                let mut mover = piece;
                if to_pawn {
                    mover.kind = PieceType::Pawn;
                }
                mover.position = from;
                mover.has_moved = false;
                self.squares[from.0 as usize][from.1 as usize] = Some(mover);
                proof {
                    lemma_put(b0, to.0 as int, to.1 as int, None);
                    lemma_squares_ext(b1, put(b0, to.0 as int, to.1 as int, None));
                    lemma_put(b1, from.0 as int, from.1 as int, Some(mover));
                    lemma_squares_ext(self.squares, take_back(b0, from, to, to_pawn));
                }
                true
            },
            None => false,
        }
    }

    /// Sets `piece` on `pos`.
    fn set_square(&mut self, pos: (u8, u8), piece: ChessPiece)
        requires
            on_board(pos),
        ensures
            *final(self) == (Board { squares: put(old(self).squares, pos.0 as int, pos.1 as int, Some(piece)), ..*old(self) }),
    {
        let ghost b0 = self.squares;
        self.squares[pos.0 as usize][pos.1 as usize] = Some(piece);
        proof {
            lemma_put(b0, pos.0 as int, pos.1 as int, Some(piece));
            lemma_squares_ext(self.squares, put(b0, pos.0 as int, pos.1 as int, Some(piece)));
        }
    }

    /// Moves the pieces of an undo record back; see `apply_undo`.
    fn restore_squares(&mut self, undo: UndoInfo) -> (res: Result<(), MoveError>)
        requires
            undo_on_board(undo),
            positions_on_board(old(self).squares),
        ensures
            if old(self).squares[undo.to.0 as int][undo.to.1 as int] is None {
                res == Err::<(), MoveError>(MoveError::NoAviailableMoves) && *final(self) == *old(self)
            } else if !undo_succeeds(old(self).squares, undo) {
                res == Err::<(), MoveError>(MoveError::NoAviailableMoves) && *final(self) == (Board {
                    squares: take_back(old(self).squares, undo.from, undo.to, false),
                    ..*old(self)
                })
            } else {
                &&& res == Ok::<(), MoveError>(())
                &&& *final(self) == (Board { squares: undone_squares(old(self).squares, undo), ..*old(self) })
                &&& positions_on_board(final(self).squares)
            },
    {
        match undo.kind {
            MoveKind::Castling { rook_from, rook_to } => {
                if !self.take_back_piece(undo.from, undo.to, false) {
                    return Err(MoveError::NoAviailableMoves);
                }
                proof {
                    lemma_take_back_on_board(old(self).squares, undo.from, undo.to, false);
                }
                let ghost b1 = self.squares;
                if !self.take_back_piece(rook_from, rook_to, false) {
                    return Err(MoveError::NoAviailableMoves);
                }
                proof {
                    lemma_take_back_on_board(b1, rook_from, rook_to, false);
                }
            },
            MoveKind::EnPassant { captured_at } => {
                if !self.take_back_piece(undo.from, undo.to, false) {
                    return Err(MoveError::NoAviailableMoves);
                }
                proof {
                    lemma_take_back_on_board(old(self).squares, undo.from, undo.to, false);
                }
                if let Some(captured_piece) = undo.captured {
                    proof {
                        lemma_set_on_board(self.squares, captured_at, captured_piece);
                    }
                    self.set_square(captured_at, captured_piece);
                }
            },
            MoveKind::Normal { promotion } => {
                if !self.take_back_piece(undo.from, undo.to, promotion.is_some()) {
                    return Err(MoveError::NoAviailableMoves);
                }
                proof {
                    lemma_take_back_on_board(old(self).squares, undo.from, undo.to, promotion is Some);
                }
                if let Some(captured_piece) = undo.captured {
                    proof {
                        lemma_set_on_board(self.squares, undo.to, captured_piece);
                    }
                    self.set_square(undo.to, captured_piece);
                }
            },
        }
        Ok(())
    }

    /// Takes a move back from its undo record: the mover returns to its square
    /// as not moved (a promoted pawn as a pawn), a castle's rook returns, the
    /// taken piece is put back, and the side to move, castling rights,
    /// en-passant target and clocks are restored; the move cache is refreshed.
    /// Fails when a piece to move back is missing (an empty destination square
    /// leaves the board as it was); the king of a castle may then already
    /// stand on its square again.
    pub fn apply_undo(&mut self, undo: UndoInfo) -> (res: Result<(), MoveError>)
        requires
            on_board(undo.to),
            old(self).squares[undo.to.0 as int][undo.to.1 as int] is Some ==> undo_on_board(undo)
                && positions_on_board(old(self).squares),
        ensures
            if old(self).squares[undo.to.0 as int][undo.to.1 as int] is None {
                res == Err::<(), MoveError>(MoveError::NoAviailableMoves) && *final(self) == *old(self)
            } else if !undo_succeeds(old(self).squares, undo) {
                res == Err::<(), MoveError>(MoveError::NoAviailableMoves) && *final(self) == (Board {
                    squares: take_back(old(self).squares, undo.from, undo.to, false),
                    ..*old(self)
                })
            } else {
                &&& res == Ok::<(), MoveError>(())
                &&& final(self).squares == undone_squares(old(self).squares, undo)
                &&& state_of(*final(self)) == undo.prev_state
                &&& cache_refreshed(
                    old(self).move_cache@,
                    final(self).move_cache@,
                    final(self).squares,
                    final(self).en_passant_target,
                    64,
                )
                &&& final(self).meta_data == old(self).meta_data
                &&& final(self).next_id == old(self).next_id
                &&& final(self).game_phase == old(self).game_phase
                &&& final(self).ply_count == old(self).ply_count
            },
    {
        if self.squares[undo.to.0 as usize][undo.to.1 as usize].is_none() {
            return Err(MoveError::NoAviailableMoves);
        }
        match self.restore_squares(undo) {
            Ok(()) => {},
            Err(e) => {
                return Err(e);
            },
        }
        self.white_big_castle = undo.prev_state.white_big_castle;
        self.white_small_castle = undo.prev_state.white_small_castle;
        self.black_big_castle = undo.prev_state.black_big_castle;
        self.black_small_castle = undo.prev_state.black_small_castle;
        self.en_passant_target = undo.prev_state.en_passant_target;
        self.halfmove_clock = undo.prev_state.halfmove_clock;
        self.fullmove_number = undo.prev_state.fullmove_number;
        self.turn = undo.prev_state.turn;
        self.rerender_move_cache();
        Ok(())
    }

    /// Plays a move as `move_piece` does and returns what is needed to take it
    /// back: the squares, the taken piece, the state before the move and the
    /// kind of move.
    #[verifier::rlimit(50)]
    pub fn move_piece_with_undo(
        &mut self,
        old_pos: (u8, u8),
        new_pos: (u8, u8),
        promotion: Option<PieceType>,
    ) -> (res: Result<UndoInfo, MoveError>)
        requires
            on_board(old_pos),
            old(self).wf(),
            material_fits(*old(self), old_pos, new_pos, promotion),
        ensures
            final(self).wf(),
            match old(self).squares[old_pos.0 as int][old_pos.1 as int] {
                None => res == Err::<UndoInfo, MoveError>(MoveError::NoAviailableMoves) && *final(self) == *old(self),
                Some(p) => if p.color != old(self).turn {
                    res == Err::<UndoInfo, MoveError>(MoveError::IllegalMove) && *final(self) == *old(self)
                } else {
                    let ep = old(self).en_passant_target;
                    let is_capture = legal_captures(old(self).squares, ep, p).contains(new_pos);
                    let is_quiet = legal_quiet(old(self).squares, ep, p).contains(new_pos);
                    &&& cache_refreshed(
                        old(self).move_cache@,
                        final(self).move_cache@,
                        old(self).squares,
                        ep,
                        64,
                    )
                    &&& if !is_capture && !is_quiet {
                        res == Err::<UndoInfo, MoveError>(MoveError::IllegalMove)
                            && same_but_cache(*final(self), *old(self))
                    } else {
                        &&& move_applied(*old(self), *final(self), p, old_pos, new_pos, promotion, is_capture)
                        &&& res == Ok::<UndoInfo, MoveError>(
                            undo_record(*old(self), p, old_pos, new_pos, promotion, is_capture),
                        )
                    }
                },
            },
    {
        let moving_piece = match self.squares[old_pos.0 as usize][old_pos.1 as usize] {
            Some(piece) => piece,
            None => {
                return Err(MoveError::NoAviailableMoves);
            },
        };
        if moving_piece.color != self.turn {
            return Err(MoveError::IllegalMove);
        }
        let ghost old_board = *self;
        let ghost ep0 = self.en_passant_target;
        let ghost b0 = self.squares;
        proof {
            lemma_legal_move_facts(old_board, old_pos, new_pos);
        }
        let prev_state_snapshot = BoardState {
            turn: self.turn,
            white_big_castle: self.white_big_castle,
            white_small_castle: self.white_small_castle,
            black_big_castle: self.black_big_castle,
            black_small_castle: self.black_small_castle,
            en_passant_target: self.en_passant_target,
            halfmove_clock: self.halfmove_clock,
            fullmove_number: self.fullmove_number,
        };
        proof {
            crate::engine::board::lemma_last_with_id_unique(b0, old_pos.0 as int, old_pos.1 as int, 64);
            assert(crate::engine::move_gen::flat_piece(b0, old_pos.0 * 8 + old_pos.1) == b0[old_pos.0 as int][old_pos.1 as int]);
        }
        self.rerender_move_cache();
        let (is_capture, is_quiet) = match self.move_cache.get(&moving_piece.id) {
            Some(legal) => (contains_square(&legal.capture_moves, new_pos), contains_square(
                &legal.quiet_moves,
                new_pos,
            )),
            None => (false, false),
        };
        assert(is_capture == legal_captures(b0, ep0, moving_piece).contains(new_pos));
        assert(is_quiet == legal_quiet(b0, ep0, moving_piece).contains(new_pos));
        if !is_capture && !is_quiet {
            return Err(MoveError::IllegalMove);
        }
        if is_quiet && moving_piece.kind == PieceType::King && self.is_player_castle(
            old_pos,
            new_pos,
        ) {
            // unreachable on a consistent board: a king's legal quiet moves are single steps
            assert(false);
            self.en_passant_target = None;
            self.halfmove_clock = self.halfmove_clock.saturating_add(1);
            self.execute_player_castle(old_pos, new_pos);
            let was_black = self.turn == PieceColor::Black;
            self.change_turn();
            if was_black {
                self.fullmove_number = self.fullmove_number.saturating_add(1);
            }
            let rank: u8 = match moving_piece.color {
                PieceColor::White => 7,
                PieceColor::Black => 0,
            };
            let kind = if new_pos.1 < old_pos.1 {
                MoveKind::Castling { rook_from: (rank, 0), rook_to: (rank, 3) }
            } else {
                MoveKind::Castling { rook_from: (rank, 7), rook_to: (rank, 5) }
            };
            return Ok(
                UndoInfo {
                    from: old_pos,
                    to: new_pos,
                    captured: None,
                    prev_state: prev_state_snapshot,
                    kind,
                },
            );
        }
        let mut kind = MoveKind::Normal { promotion };
        if is_capture && moving_piece.kind == PieceType::Pawn
            && self.squares[new_pos.0 as usize][new_pos.1 as usize].is_none() {
            // an en-passant capture needs the target still to be the en-passant square
            match self.en_passant_target {
                Some(t) => {
                    if t.0 != new_pos.0 || t.1 != new_pos.1 {
                        return Err(MoveError::IllegalMove);
                    }
                },
                None => {
                    return Err(MoveError::IllegalMove);
                },
            }
            kind = MoveKind::EnPassant { captured_at: (old_pos.0, new_pos.1) };
        }
        proof {
            lemma_move_keeps_wf(b0, moving_piece, old_pos, new_pos, promotion, is_capture);
        }
        let (captured_piece, _promotion_kind) = self.lift_and_place(
            moving_piece,
            old_pos,
            new_pos,
            promotion,
            is_capture,
        );
        self.en_passant_target = None;
        if moving_piece.kind == PieceType::Pawn && !is_capture {
            let diff = if new_pos.0 >= old_pos.0 {
                new_pos.0 - old_pos.0
            } else {
                old_pos.0 - new_pos.0
            };
            if diff == 2 {
                let mid_r = (old_pos.0 + new_pos.0) / 2;
                self.en_passant_target = Some((mid_r, old_pos.1));
            }
        }
        self.update_castling_rights(&moving_piece, old_pos, &captured_piece);
        let is_pawn_move = moving_piece.kind == PieceType::Pawn;
        if is_capture || is_pawn_move {
            self.halfmove_clock = 0;
        } else {
            self.halfmove_clock = self.halfmove_clock.saturating_add(1);
        }
        let was_black = self.turn == PieceColor::Black;
        self.change_turn();
        if was_black {
            self.fullmove_number = self.fullmove_number.saturating_add(1);
        }
        self.update_gamephase();
        Ok(
            UndoInfo {
                from: old_pos,
                to: new_pos,
                captured: captured_piece,
                prev_state: prev_state_snapshot,
                kind,
            },
        )
    }
}

} // verus!
