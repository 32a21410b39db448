use vstd::prelude::*;
use vstd::string::StringSliceAdditionalSpecFns;

use crate::engine::board::{Board, BoardMetaData};
use crate::engine::piece::{ChessPiece, PieceColor, PieceType};
use crate::engine::quiet::lemma_filter_step;
use crate::engine::simulate::{lemma_put, lemma_squares_ext, put};
use crate::engine::uci::decode_uci;
use crate::etc::{PLAYER_NAME, STOCKFISH_ELO};
use crate::text::chars_of;

verus! {

broadcast use vstd::array::group_array_axioms;

/// Why a direct edit of the board failed.
#[derive(Clone, Copy, Debug, PartialEq, Eq, Structural)]
pub enum EditError {
    BadUci,
    NoPiece,
}

/// The piece an exact lower-case promotion letter names.
pub open spec fn edit_promotion_of(c: char) -> Option<PieceType> {
    if c == 'q' {
        Some(PieceType::Queen)
    } else if c == 'b' {
        Some(PieceType::Bishop)
    } else if c == 'n' {
        Some(PieceType::Knight)
    } else if c == 'r' {
        Some(PieceType::Rook)
    } else {
        None
    }
}

/// The promotion a direct edit reads from a move text: the fifth character
/// of a text of five bytes, when it is one of `q`, `b`, `n`, `r`.
pub open spec fn edit_promotion(uci: &str) -> Option<PieceType> {
    if uci.spec_bytes().len() as usize == 5 && uci@.len() > 4 {
        edit_promotion_of(uci@[4])
    } else {
        None
    }
}

/// Decoded squares lie on the board.
proof fn lemma_decoded_squares(b: crate::engine::piece::Squares, s: Seq<char>)
    ensures
        decode_uci(b, s) matches Some((f, t, _)) ==> f.0 < 8 && f.1 < 8 && t.0 < 8 && t.1 < 8,
{
    if s.len() >= 4 {
        let l0 = crate::engine::uci::ascii_lower(s[0]);
        let l2 = crate::engine::uci::ascii_lower(s[2]);
        if 'a' <= l0 <= 'h' {
            assert((l0 as u32) - ('a' as u32) < 8);
        }
        if 'a' <= l2 <= 'h' {
            assert((l2 as u32) - ('a' as u32) < 8);
        }
    }
}

impl Board {
    /// Plays a move given in UCI by editing the squares only: the piece on the
    /// origin (its kind changed to the promotion the text names, if any) is
    /// set on the destination and the origin is emptied. Its recorded
    /// position and the rest of the board are left as they are. Fails on a
    /// text that does not decode, or an empty origin.
    pub fn do_move(&mut self, uci: &str) -> (res: Result<(), EditError>)
        ensures
            match decode_uci(old(self).squares, uci@) {
                None => res == Err::<(), EditError>(EditError::BadUci) && *final(self) == *old(self),
                Some((from, to, _)) => match old(self).squares[from.0 as int][from.1 as int] {
                    None => res == Err::<(), EditError>(EditError::NoPiece) && *final(self) == *old(self),
                    Some(p) => res == Ok::<(), EditError>(()) && *final(self) == (Board {
                        squares: put(
                            put(old(self).squares, from.0 as int, from.1 as int, None),
                            to.0 as int,
                            to.1 as int,
                            Some(
                                match edit_promotion(uci) {
                                    Some(k) => ChessPiece { kind: k, ..p },
                                    None => p,
                                },
                            ),
                        ),
                        ..*old(self)
                    }),
                },
            },
    {
        let promotion: Option<PieceType> = if uci.len() == 5 {
            let cs = chars_of(uci);
            if cs.len() > 4 {
                let c = cs[4];
                if c == 'q' {
                    Some(PieceType::Queen)
                } else if c == 'b' {
                    Some(PieceType::Bishop)
                } else if c == 'n' {
                    Some(PieceType::Knight)
                } else if c == 'r' {
                    Some(PieceType::Rook)
                } else {
                    None
                }
            } else {
                None
            }
        } else {
            None
        };
        proof {
            lemma_decoded_squares(self.squares, uci@);
        }
        let (from, to) = match self.decode_uci_move(uci) {
            Some((f, t, _)) => (f, t),
            None => {
                return Err(EditError::BadUci);
            },
        };
        let mut piece = match self.squares[from.0 as usize][from.1 as usize] {
            Some(p) => p,
            None => {
                return Err(EditError::NoPiece);
            },
        };
        if let Some(k) = promotion {
            piece.kind = k;
        }
        let ghost b0 = self.squares;
        self.squares[from.0 as usize][from.1 as usize] = None;
        let ghost b1 = self.squares;
        self.squares[to.0 as usize][to.1 as usize] = Some(piece);
        proof {
            lemma_put(b0, from.0 as int, from.1 as int, None);
            lemma_squares_ext(b1, put(b0, from.0 as int, from.1 as int, None));
            lemma_put(b1, to.0 as int, to.1 as int, Some(piece));
            lemma_squares_ext(self.squares, put(b1, to.0 as int, to.1 as int, Some(piece)));
            assert(promotion == edit_promotion(uci));
            assert(decode_uci(old(self).squares, uci@) matches Some((f, t, _)) && f == from && t == to);
        }
        Ok(())
    }

    /// Takes back a move given in UCI by editing the squares only: the piece
    /// on the destination (a pawn again when the text has five bytes) is set
    /// on the origin and the destination is emptied. Its recorded position
    /// and the rest of the board are left as they are. Fails on a text that
    /// does not decode, or an empty destination.
    pub fn undo_move(&mut self, uci: &str) -> (res: Result<(), EditError>)
        ensures
            match decode_uci(old(self).squares, uci@) {
                None => res == Err::<(), EditError>(EditError::BadUci) && *final(self) == *old(self),
                Some((from, to, _)) => match old(self).squares[to.0 as int][to.1 as int] {
                    None => res == Err::<(), EditError>(EditError::NoPiece) && *final(self) == *old(self),
                    Some(p) => res == Ok::<(), EditError>(()) && *final(self) == (Board {
                        squares: put(
                            put(
                                old(self).squares,
                                from.0 as int,
                                from.1 as int,
                                Some(
                                    if uci.spec_bytes().len() as usize == 5 {
                                        ChessPiece { kind: PieceType::Pawn, ..p }
                                    } else {
                                        p
                                    },
                                ),
                            ),
                            to.0 as int,
                            to.1 as int,
                            None,
                        ),
                        ..*old(self)
                    }),
                },
            },
    {
        proof {
            lemma_decoded_squares(self.squares, uci@);
        }
        let (from, to) = match self.decode_uci_move(uci) {
            Some((f, t, _)) => (f, t),
            None => {
                return Err(EditError::BadUci);
            },
        };
        let mut piece = match self.squares[to.0 as usize][to.1 as usize] {
            Some(p) => p,
            None => {
                return Err(EditError::NoPiece);
            },
        };
        if uci.len() == 5 {
            piece.kind = PieceType::Pawn;
        }
        let ghost b0 = self.squares;
        self.squares[from.0 as usize][from.1 as usize] = Some(piece);
        let ghost b1 = self.squares;
        self.squares[to.0 as usize][to.1 as usize] = None;
        proof {
            lemma_put(b0, from.0 as int, from.1 as int, Some(piece));
            lemma_squares_ext(b1, put(b0, from.0 as int, from.1 as int, Some(piece)));
            lemma_put(b1, to.0 as int, to.1 as int, None);
            lemma_squares_ext(self.squares, put(b1, to.0 as int, to.1 as int, None));
        }
        Ok(())
    }
}

/// The taken pieces of one kind, in their order.
pub open spec fn of_kind(kind: PieceType) -> spec_fn((PieceType, PieceColor)) -> bool {
    |t: (PieceType, PieceColor)| t.0 == kind
}

/// Taken pieces ordered by rank, keeping the order of equal kinds: pawns,
/// knights, bishops, rooks, queens, then kings.
pub open spec fn by_rank(v: Seq<(PieceType, PieceColor)>) -> Seq<(PieceType, PieceColor)> {
    v.filter(of_kind(PieceType::Pawn)) + v.filter(of_kind(PieceType::Knight)) + v.filter(
        of_kind(PieceType::Bishop),
    ) + v.filter(of_kind(PieceType::Rook)) + v.filter(of_kind(PieceType::Queen)) + v.filter(
        of_kind(PieceType::King),
    )
}

/// Appends the pieces of `kind` from `v`, in their order.
fn append_kind(out: &mut Vec<(PieceType, PieceColor)>, v: &Vec<(PieceType, PieceColor)>, kind: PieceType)
    ensures
        final(out)@ == old(out)@ + v@.filter(of_kind(kind)),
{
    let ghost start = out@;
    let mut i: usize = 0;
    while i < v.len()
        invariant
            i <= v.len(),
            out@ == start + v@.take(i as int).filter(of_kind(kind)),
        decreases v.len() - i,
    {
        proof {
            lemma_filter_step(v@, i as int, of_kind(kind));
        }
        if v[i].0 == kind {
            out.push(v[i]);
        }
        i += 1;
    }
    assert(v@.take(v.len() as int) == v@);
}

/// Orders the taken pieces by rank (pawn, knight, bishop, rook, queen,
/// king), keeping the order of pieces of the same kind.
pub fn sort_taken(taken: &mut Vec<(PieceType, PieceColor)>)
    ensures
        final(taken)@ == by_rank(old(taken)@),
{
    let mut out: Vec<(PieceType, PieceColor)> = Vec::new();
    append_kind(&mut out, taken, PieceType::Pawn);
    append_kind(&mut out, taken, PieceType::Knight);
    append_kind(&mut out, taken, PieceType::Bishop);
    append_kind(&mut out, taken, PieceType::Rook);
    append_kind(&mut out, taken, PieceType::Queen);
    append_kind(&mut out, taken, PieceType::King);
    *taken = out;
}

/// The record of a game against the engine once the player's colour is
/// drawn: the player's side gets the player's name and a rating of 800, the
/// other side the engine's name and rating.
pub open spec fn pve_names(m: BoardMetaData, m2: BoardMetaData, player: PieceColor) -> bool {
    let (white_name, white_elo, black_name, black_elo) = if player == PieceColor::White {
        (PLAYER_NAME@, 800u32, "Stockfish"@, STOCKFISH_ELO)
    } else {
        ("Stockfish"@, STOCKFISH_ELO, PLAYER_NAME@, 800u32)
    };
    &&& m2 == (BoardMetaData {
        white_player_name: m2.white_player_name,
        black_player_name: m2.black_player_name,
        white_player_elo: white_elo,
        black_player_elo: black_elo,
        ..m
    })
    &&& m2.white_player_name@ == white_name
    &&& m2.black_player_name@ == black_name
}

/// Sets up a game against the engine for a player of colour `player`: the
/// names and ratings of both sides (`pve_names`), and the board turned to
/// the player's side. Returns the engine's colour.
pub fn pve_setup(meta: &mut BoardMetaData, pov: &mut PieceColor, player: PieceColor) -> (enemy: PieceColor)
    ensures
        pve_names(*old(meta), *final(meta), player),
        *final(pov) == player,
        enemy != player,
{
    match player {
        PieceColor::White => {
            meta.white_player_elo = 800;
            meta.white_player_name = String::from_str(PLAYER_NAME);
            meta.black_player_elo = STOCKFISH_ELO;
            meta.black_player_name = String::from_str("Stockfish");
        },
        PieceColor::Black => {
            meta.white_player_elo = STOCKFISH_ELO;
            meta.white_player_name = String::from_str("Stockfish");
            meta.black_player_elo = 800;
            meta.black_player_name = String::from_str(PLAYER_NAME);
        },
    }
    if *pov != player {
        *pov = match *pov {
            PieceColor::White => PieceColor::Black,
            PieceColor::Black => PieceColor::White,
        };
    }
    match player {
        PieceColor::White => PieceColor::Black,
        PieceColor::Black => PieceColor::White,
    }
}

} // verus!
