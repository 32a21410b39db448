use vstd::prelude::*;

use crate::engine::board::Board;
use crate::engine::move_gen::on_board;
use crate::engine::piece::{PieceColor, PieceType, Squares};
use crate::text::chars_of;

verus! {

broadcast use vstd::array::group_array_axioms;

/// ASCII lower case of a character; other characters are unchanged.
pub open spec fn ascii_lower(c: char) -> char {
    if 'A' <= c <= 'Z' {
        ((c as u32) + 32) as char
    } else {
        c
    }
}

/// The column of a file letter `a`-`h`, upper case accepted.
pub open spec fn file_of(c: char) -> Option<u8> {
    let l = ascii_lower(c);
    if 'a' <= l <= 'h' {
        Some(((l as u32) - ('a' as u32)) as u8)
    } else {
        None
    }
}

/// The rank number of a digit `1`-`8`.
pub open spec fn rank_of(c: char) -> Option<u8> {
    if '1' <= c <= '8' {
        Some(((c as u32) - ('0' as u32)) as u8)
    } else {
        None
    }
}

/// The piece a promotion letter names, upper case accepted.
pub open spec fn promotion_of(c: char) -> Option<PieceType> {
    let l = ascii_lower(c);
    if l == 'q' {
        Some(PieceType::Queen)
    } else if l == 'r' {
        Some(PieceType::Rook)
    } else if l == 'b' {
        Some(PieceType::Bishop)
    } else if l == 'n' {
        Some(PieceType::Knight)
    } else {
        None
    }
}

/// A pawn on `from` that reaches its last rank on `to` promotes to a queen when
/// nothing else is asked for.
pub open spec fn implicit_promotion(b: Squares, from: (u8, u8), to: (u8, u8)) -> Option<PieceType> {
    match b[from.0 as int][from.1 as int] {
        Some(p) => if p.kind == PieceType::Pawn && ((p.color == PieceColor::White && to.0 == 0) || (
        p.color == PieceColor::Black && to.0 == 7)) {
            Some(PieceType::Queen)
        } else {
            None
        },
        None => None,
    }
}

/// The move that a UCI string such as `e2e4`, `e7e8q` or `e7e8=Q` names on the
/// grid `b`: two squares, then an optional promotion letter, optionally after
/// `=`. Without a fifth character a pawn reaching its last rank promotes to a
/// queen.
pub open spec fn decode_uci(b: Squares, s: Seq<char>) -> Option<((u8, u8), (u8, u8), Option<PieceType>)> {
    if s.len() < 4 {
        None
    } else {
        match (file_of(s[0]), rank_of(s[1]), file_of(s[2]), rank_of(s[3])) {
            (Some(ff), Some(fr), Some(tf), Some(tr)) => {
                let from = ((8 - fr) as u8, ff);
                let to = ((8 - tr) as u8, tf);
                let promotion = if s.len() > 4 {
                    let idx = if s[4] == '=' {
                        5int
                    } else {
                        4int
                    };
                    if idx < s.len() {
                        promotion_of(s[idx])
                    } else {
                        None
                    }
                } else {
                    implicit_promotion(b, from, to)
                };
                Some((from, to, promotion))
            },
            _ => None,
        }
    }
}

/// The letter of a column.
pub open spec fn file_char(col: u8) -> char {
    (('a' as u8) + col) as char
}

/// The digit of the rank of a row.
pub open spec fn rank_char(row: u8) -> char {
    (('0' as u8) + (8 - row)) as char
}

/// The letter of a promotion piece; a king or pawn is written as a queen.
pub open spec fn promotion_char(p: PieceType) -> char {
    match p {
        PieceType::Queen => 'q',
        PieceType::Rook => 'r',
        PieceType::Bishop => 'b',
        PieceType::Knight => 'n',
        _ => 'q',
    }
}

/// The UCI string of a move on the grid `b`: both squares, then the promotion
/// letter, or `q` for a pawn that reaches its last rank without one.
pub open spec fn encode_uci(b: Squares, from: (u8, u8), to: (u8, u8), promotion: Option<PieceType>) -> Seq<char> {
    let base = seq![file_char(from.1), rank_char(from.0), file_char(to.1), rank_char(to.0)];
    match promotion {
        Some(p) => base.push(promotion_char(p)),
        None => if implicit_promotion(b, from, to) is Some {
            base.push('q')
        } else {
            base
        },
    }
}

fn lower_exec(c: char) -> (l: char)
    ensures
        l == ascii_lower(c),
{
    if 'A' <= c && c <= 'Z' {
        ((c as u8) + 32) as char
    } else {
        c
    }
}

fn file_of_exec(c: char) -> (f: Option<u8>)
    ensures
        f == file_of(c),
{
    let l = lower_exec(c);
    if 'a' <= l && l <= 'h' {
        Some((l as u8) - ('a' as u8))
    } else {
        None
    }
}

fn rank_of_exec(c: char) -> (r: Option<u8>)
    ensures
        r == rank_of(c),
{
    if '1' <= c && c <= '8' {
        Some((c as u8) - ('0' as u8))
    } else {
        None
    }
}

pub(crate) fn promotion_of_exec(c: char) -> (p: Option<PieceType>)
    ensures
        p == promotion_of(c),
{
    let l = lower_exec(c);
    if l == 'q' {
        Some(PieceType::Queen)
    } else if l == 'r' {
        Some(PieceType::Rook)
    } else if l == 'b' {
        Some(PieceType::Bishop)
    } else if l == 'n' {
        Some(PieceType::Knight)
    } else {
        None
    }
}

impl Board {
    /// A pawn on `from` reaching its last rank on `to`: queen, else nothing.
    fn implicit_promotion_exec(&self, from: (u8, u8), to: (u8, u8)) -> (p: Option<PieceType>)
        requires
            on_board(from),
        ensures
            p == implicit_promotion(self.squares, from, to),
    {
        if let Some(piece) = &self.squares[from.0 as usize][from.1 as usize] {
            if piece.kind == PieceType::Pawn {
                let is_promotion = (piece.color == PieceColor::White && to.0 == 0) || (piece.color
                    == PieceColor::Black && to.0 == 7);
                if is_promotion {
                    return Some(PieceType::Queen);
                }
            }
        }
        None
    }

    /// Reads a UCI move string into board coordinates and a promotion; the board
    /// is not changed.
    pub fn decode_uci_move(&self, uci_move: &str) -> (mv: Option<((u8, u8), (u8, u8), Option<PieceType>)>)
        ensures
            mv == decode_uci(self.squares, uci_move@),
    {
        let chars = chars_of(uci_move);
        if chars.len() < 4 {
            return None;
        }
        let from_file = match file_of_exec(chars[0]) {
            Some(f) => f,
            None => return None,
        };
        let from_rank_digit = match rank_of_exec(chars[1]) {
            Some(r) => r,
            None => return None,
        };
        let from_rank = 8u8 - from_rank_digit;
        let to_file = match file_of_exec(chars[2]) {
            Some(f) => f,
            None => return None,
        };
        let to_rank_digit = match rank_of_exec(chars[3]) {
            Some(r) => r,
            None => return None,
        };
        let to_rank = 8u8 - to_rank_digit;
        let from = (from_rank, from_file);
        let to = (to_rank, to_file);
        let mut promotion: Option<PieceType> = None;
        if chars.len() > 4 {
            let mut idx: usize = 4;
            if chars[idx] == '=' {
                idx += 1;
            }
            if idx < chars.len() {
                promotion = promotion_of_exec(chars[idx]);
            }
        } else {
            promotion = self.implicit_promotion_exec(from, to);
        }
        Some((from, to, promotion))
    }

    /// Writes a move as a UCI string such as `e2e4` or `a7a8q`.
    pub fn encode_uci_move(&self, from: (u8, u8), to: (u8, u8), promotion: Option<PieceType>) -> (uci:
        String)
        requires
            on_board(from),
            on_board(to),
        ensures
            uci@ == encode_uci(self.squares, from, to, promotion),
    {
        let mut uci = String::new();
        uci.push((('a' as u8) + from.1) as char);
        uci.push((('0' as u8) + (8 - from.0)) as char);
        uci.push((('a' as u8) + to.1) as char);
        uci.push((('0' as u8) + (8 - to.0)) as char);
        match promotion {
            Some(piece_type) => {
                let pc = match piece_type {
                    PieceType::Queen => 'q',
                    PieceType::Rook => 'r',
                    PieceType::Bishop => 'b',
                    PieceType::Knight => 'n',
                    _ => 'q',
                };
                uci.push(pc);
            },
            None => {
                if self.implicit_promotion_exec(from, to).is_some() {
                    uci.push('q');
                }
            },
        }
        uci
    }
}

/// Reading back the UCI string of a move gives the move: the same squares,
/// and the promotion that was written (a king or pawn written as a queen, and
/// a pawn reaching its last rank without one promoting to a queen).
pub proof fn lemma_uci_roundtrip(b: Squares, from: (u8, u8), to: (u8, u8), promotion: Option<PieceType>)
    requires
        on_board(from),
        on_board(to),
    ensures
        decode_uci(b, encode_uci(b, from, to, promotion)) == Some(
            (
                from,
                to,
                match promotion {
                    Some(p) => Some(
                        match p {
                            PieceType::King | PieceType::Pawn => PieceType::Queen,
                            _ => p,
                        },
                    ),
                    None => implicit_promotion(b, from, to),
                },
            ),
        ),
{
    let s = encode_uci(b, from, to, promotion);
    assert(file_of(file_char(from.1)) == Some(from.1));
    assert(file_of(file_char(to.1)) == Some(to.1));
    assert(rank_of(rank_char(from.0)) == Some((8 - from.0) as u8));
    assert(rank_of(rank_char(to.0)) == Some((8 - to.0) as u8));
    assert(s[0] == file_char(from.1));
    assert(s[1] == rank_char(from.0));
    assert(s[2] == file_char(to.1));
    assert(s[3] == rank_char(to.0));
}

} // verus!
