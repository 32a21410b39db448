use vstd::prelude::*;

use std::collections::HashMap;

use crate::engine::board::{is_default_meta, is_new_record, Board, BoardMetaData, GamePhase};
use crate::engine::piece::{ChessPiece, PieceColor, PieceType, Squares};
use crate::engine::simulate::{lemma_put, put};
use crate::engine::move_gen::on_board;
use crate::engine::uci::{file_char, rank_char};
use crate::text::{
    chars_of, decimal, digit_char, digit_to_char, digit_value, is_digit, is_white_space,
    join_with, lemma_decimal_digits, lemma_join_chars, lemma_parse_decimal, lemma_split_join,
    lemma_ws_fields_join,
    parse_u32, parse_u32_spec, push_decimal, split_chars, split_on, split_whitespace, views,
    ws_fields,
};

verus! {

broadcast use vstd::array::group_array_axioms;

/// Why a FEN was refused.
#[derive(Clone, Copy, Debug, PartialEq, Eq, Structural)]
pub enum FenError {
    InvalidChar(char),
}

/// The FEN letter of a piece: upper case for White, lower case for Black.
pub open spec fn fen_letter(kind: PieceType, color: PieceColor) -> char {
    let c = match kind {
        PieceType::King => 'K',
        PieceType::Queen => 'Q',
        PieceType::Rook => 'R',
        PieceType::Knight => 'N',
        PieceType::Bishop => 'B',
        PieceType::Pawn => 'P',
    };
    match color {
        PieceColor::White => c,
        PieceColor::Black => match kind {
            PieceType::King => 'k',
            PieceType::Queen => 'q',
            PieceType::Rook => 'r',
            PieceType::Knight => 'n',
            PieceType::Bishop => 'b',
            PieceType::Pawn => 'p',
        },
    }
}

/// The piece a FEN letter stands for.
pub open spec fn piece_of_letter(c: char) -> Option<(PieceType, PieceColor)> {
    if c == 'r' {
        Some((PieceType::Rook, PieceColor::Black))
    } else if c == 'n' {
        Some((PieceType::Knight, PieceColor::Black))
    } else if c == 'b' {
        Some((PieceType::Bishop, PieceColor::Black))
    } else if c == 'k' {
        Some((PieceType::King, PieceColor::Black))
    } else if c == 'q' {
        Some((PieceType::Queen, PieceColor::Black))
    } else if c == 'p' {
        Some((PieceType::Pawn, PieceColor::Black))
    } else if c == 'R' {
        Some((PieceType::Rook, PieceColor::White))
    } else if c == 'N' {
        Some((PieceType::Knight, PieceColor::White))
    } else if c == 'B' {
        Some((PieceType::Bishop, PieceColor::White))
    } else if c == 'K' {
        Some((PieceType::King, PieceColor::White))
    } else if c == 'Q' {
        Some((PieceType::Queen, PieceColor::White))
    } else if c == 'P' {
        Some((PieceType::Pawn, PieceColor::White))
    } else {
        None
    }
}

/// The FEN of columns `c..8` of row `r`, when `run` empty squares before
/// column `c` are not written yet.
pub open spec fn row_fen_from(b: Squares, r: int, c: int, run: nat) -> Seq<char>
    decreases 8 - c,
{
    let pending = if run > 0 {
        seq![digit_char(run)]
    } else {
        Seq::<char>::empty()
    };
    if c >= 8 {
        pending
    } else {
        match b[r][c] {
            Some(p) => pending + seq![fen_letter(p.kind, p.color)] + row_fen_from(b, r, c + 1, 0),
            None => row_fen_from(b, r, c + 1, run + 1),
        }
    }
}

/// The FEN of row `r`: piece letters, with each run of empty squares as its
/// length.
pub open spec fn row_fen(b: Squares, r: int) -> Seq<char> {
    row_fen_from(b, r, 0, 0)
}

/// The FEN rows `0..n` joined by `/`.
pub open spec fn rows_fen(b: Squares, n: int) -> Seq<char>
    decreases n,
{
    if n <= 1 {
        row_fen(b, 0)
    } else {
        rows_fen(b, n - 1) + seq!['/'] + row_fen(b, n - 1)
    }
}

/// The castling field: `K`, `Q`, `k`, `q` for the rights held, or `-`.
pub open spec fn castling_fen(wk: bool, wq: bool, bk: bool, bq: bool) -> Seq<char> {
    let s = (if wk {
        seq!['K']
    } else {
        Seq::empty()
    }) + (if wq {
        seq!['Q']
    } else {
        Seq::empty()
    }) + (if bk {
        seq!['k']
    } else {
        Seq::empty()
    }) + (if bq {
        seq!['q']
    } else {
        Seq::empty()
    });
    if s.len() == 0 {
        seq!['-']
    } else {
        s
    }
}

/// The en-passant square that a FEN names: the target when there is one on
/// the board.
pub open spec fn written_ep(t: Option<(u8, u8)>) -> Option<(u8, u8)> {
    match t {
        Some(sq) => if on_board(sq) {
            Some(sq)
        } else {
            None
        },
        None => None,
    }
}

/// The en-passant field of a FEN: the target square, such as `e3`, or `-`
/// when there is none.
pub open spec fn ep_fen(t: Option<(u8, u8)>) -> Seq<char> {
    match written_ep(t) {
        Some(sq) => seq![file_char(sq.1), rank_char(sq.0)],
        None => seq!['-'],
    }
}

/// The FEN of a board: placement, side to move, castling rights, the
/// en-passant square, and the two clocks.
pub open spec fn fen_of(b: Board) -> Seq<char> {
    rows_fen(b.squares, 8) + seq![' '] + (if b.turn == PieceColor::White {
        seq!['w']
    } else {
        seq!['b']
    }) + seq![' '] + castling_fen(
        b.white_small_castle,
        b.white_big_castle,
        b.black_small_castle,
        b.black_big_castle,
    ) + seq![' '] + ep_fen(b.en_passant_target) + seq![' '] + decimal(b.halfmove_clock as nat) + seq![' '] + decimal(
        b.fullmove_number as nat,
    )
}

/// Two grids with the same kind and colour of piece on every square (and
/// the same empty squares).
pub open spec fn same_pieces(g1: Squares, g2: Squares) -> bool {
    forall|r: int, c: int|
        0 <= r < 8 && 0 <= c < 8 ==> match (#[trigger] g1[r][c], g2[r][c]) {
            (None, None) => true,
            (Some(p), Some(q)) => p.kind == q.kind && p.color == q.color,
            _ => false,
        }
}

/// Such grids write the same row from any column on.
pub proof fn lemma_row_fen_same(g1: Squares, g2: Squares, r: int, c: int, run: nat)
    requires
        same_pieces(g1, g2),
        0 <= r < 8,
        0 <= c,
    ensures
        row_fen_from(g1, r, c, run) == row_fen_from(g2, r, c, run),
    decreases 8 - c,
{
    if c < 8 {
        assert(match (g1[r][c], g2[r][c]) {
            (None, None) => true,
            (Some(p), Some(q)) => p.kind == q.kind && p.color == q.color,
            _ => false,
        });
        lemma_row_fen_same(g1, g2, r, c + 1, 0);
        lemma_row_fen_same(g1, g2, r, c + 1, run + 1);
    }
}

/// Such grids write the same placement.
pub proof fn lemma_rows_fen_same(g1: Squares, g2: Squares, n: int)
    requires
        same_pieces(g1, g2),
        n <= 8,
    ensures
        rows_fen(g1, n) == rows_fen(g2, n),
    decreases n,
{
    if n <= 1 {
        lemma_row_fen_same(g1, g2, 0, 0, 0);
    } else {
        lemma_rows_fen_same(g1, g2, n - 1);
        lemma_row_fen_same(g1, g2, n - 1, 0, 0);
    }
}

/// The FEN letter of a piece.
pub fn letter_of(kind: PieceType, color: PieceColor) -> (c: char)
    ensures
        c == fen_letter(kind, color),
{
    match (kind, color) {
        (PieceType::King, PieceColor::White) => 'K',
        (PieceType::Queen, PieceColor::White) => 'Q',
        (PieceType::Rook, PieceColor::White) => 'R',
        (PieceType::Knight, PieceColor::White) => 'N',
        (PieceType::Bishop, PieceColor::White) => 'B',
        (PieceType::Pawn, PieceColor::White) => 'P',
        (PieceType::King, PieceColor::Black) => 'k',
        (PieceType::Queen, PieceColor::Black) => 'q',
        (PieceType::Rook, PieceColor::Black) => 'r',
        (PieceType::Knight, PieceColor::Black) => 'n',
        (PieceType::Bishop, PieceColor::Black) => 'b',
        (PieceType::Pawn, PieceColor::Black) => 'p',
    }
}

/// The piece a FEN letter stands for, if it is one.
pub fn piece_from_letter(c: char) -> (r: Option<(PieceType, PieceColor)>)
    ensures
        r == piece_of_letter(c),
{
    match c {
        'r' => Some((PieceType::Rook, PieceColor::Black)),
        'n' => Some((PieceType::Knight, PieceColor::Black)),
        'b' => Some((PieceType::Bishop, PieceColor::Black)),
        'k' => Some((PieceType::King, PieceColor::Black)),
        'q' => Some((PieceType::Queen, PieceColor::Black)),
        'p' => Some((PieceType::Pawn, PieceColor::Black)),
        'R' => Some((PieceType::Rook, PieceColor::White)),
        'N' => Some((PieceType::Knight, PieceColor::White)),
        'B' => Some((PieceType::Bishop, PieceColor::White)),
        'K' => Some((PieceType::King, PieceColor::White)),
        'Q' => Some((PieceType::Queen, PieceColor::White)),
        'P' => Some((PieceType::Pawn, PieceColor::White)),
        _ => None,
    }
}

impl Board {
    /// Appends the FEN of row `r` to `out`.
    fn push_row_fen(&self, out: &mut String, r: usize)
        requires
            r < 8,
        ensures
            final(out)@ == old(out)@ + row_fen(self.squares, r as int),
    {
        let ghost base = out@;
        let mut empty_squares: u32 = 0;
        let mut j: usize = 0;
        while j < 8
            invariant
                j <= 8,
                r < 8,
                empty_squares <= j,
                out@ + row_fen_from(self.squares, r as int, j as int, empty_squares as nat) == base
                    + row_fen(self.squares, r as int),
            decreases 8 - j,
        {
            let ghost before = out@;
            let ghost run0 = empty_squares as nat;
            match &self.squares[r][j] {
                Some(p) => {
                    if empty_squares != 0 {
                        out.push(digit_to_char(empty_squares));
                    }
                    out.push(letter_of(p.kind, p.color));
                    empty_squares = 0;
                    proof {
                        let pending = if run0 > 0 {
                            seq![digit_char(run0)]
                        } else {
                            Seq::<char>::empty()
                        };
                        let rest = row_fen_from(self.squares, r as int, j + 1, 0);
                        assert(out@ == before + pending + seq![fen_letter(p.kind, p.color)]);
                        assert(row_fen_from(self.squares, r as int, j as int, run0) == pending + seq![
                            fen_letter(p.kind, p.color),
                        ] + rest);
                        assert(out@ + rest == before + row_fen_from(self.squares, r as int, j as int, run0));
                    }
                },
                None => {
                    empty_squares += 1;
                },
            }
            j += 1;
        }
        let ghost before = out@;
        if empty_squares != 0 {
            out.push(digit_to_char(empty_squares));
        }
        assert(out@ == before + row_fen_from(self.squares, r as int, 8, empty_squares as nat));
    }

    /// The placement field: the rows from the top joined by `/`.
    fn placement_string(&self) -> (out: String)
        ensures
            out@ == rows_fen(self.squares, 8),
    {
        let mut out = String::new();
        let mut i: usize = 0;
        while i < 8
            invariant
                i <= 8,
                i == 0 ==> out@.len() == 0,
                i > 0 ==> out@ == rows_fen(self.squares, i as int),
            decreases 8 - i,
        {
            if i > 0 {
                out.push('/');
            }
            self.push_row_fen(&mut out, i);
            proof {
                if i == 0 {
                    assert(out@ == rows_fen(self.squares, 1));
                }
            }
            i += 1;
        }
        out
    }

    /// Appends the castling field to `out`.
    fn push_castling(&self, out: &mut String)
        ensures
            final(out)@ == old(out)@ + castling_fen(
                self.white_small_castle,
                self.white_big_castle,
                self.black_small_castle,
                self.black_big_castle,
            ),
    {
        let mut any_right = false;
        if self.white_small_castle {
            out.push('K');
            any_right = true;
        }
        if self.white_big_castle {
            out.push('Q');
            any_right = true;
        }
        if self.black_small_castle {
            out.push('k');
            any_right = true;
        }
        if self.black_big_castle {
            out.push('q');
            any_right = true;
        }
        if !any_right {
            out.push('-');
        }
    }

    /// The FEN of the board; the en-passant field names the target square,
    /// or is `-` when there is none.
    pub fn to_string(&self) -> (s: String)
        ensures
            s@ == fen_of(*self),
    {
        let mut out = self.placement_string();
        out.push(' ');
        let to_move = match self.turn {
            PieceColor::White => 'w',
            PieceColor::Black => 'b',
        };
        out.push(to_move);
        out.push(' ');
        self.push_castling(&mut out);
        out.push(' ');
        match self.en_passant_target {
            Some(sq) => {
                if sq.0 < 8 && sq.1 < 8 {
                    out.push((('a' as u8) + sq.1) as char);
                    out.push((('0' as u8) + (8 - sq.0)) as char);
                } else {
                    out.push('-');
                }
            },
            None => out.push('-'),
        }
        out.push(' ');
        push_decimal(&mut out, self.halfmove_clock as u64);
        out.push(' ');
        push_decimal(&mut out, self.fullmove_number as u64);
        out
    }
}

/// The piece a FEN read sets down on row `i`, column `j`, numbered `id`.
pub open spec fn new_piece(id: int, kind: PieceType, color: PieceColor, i: int, j: int) -> ChessPiece {
    ChessPiece { id: id as u32, kind, color, position: (i as u8, j as u8), has_moved: false }
}

/// One character of row `i` in a checked read, from the column reached and
/// the pieces set down so far: a digit skips that many squares, a piece letter
/// sets down a piece; more than 8 columns, or any other character, refuse the
/// row.
pub open spec fn strict_step(st: Option<(int, Seq<ChessPiece>)>, c: char, i: int) -> Option<
    (int, Seq<ChessPiece>),
> {
    match st {
        None => None,
        Some((j, ps)) => if is_digit(c) {
            if j + digit_value(c) > 8 {
                None
            } else {
                Some((j + digit_value(c), ps))
            }
        } else {
            match piece_of_letter(c) {
                None => None,
                Some((kind, color)) => if j >= 8 {
                    None
                } else {
                    Some((j + 1, ps.push(new_piece(ps.len() as int, kind, color, i, j))))
                },
            }
        },
    }
}

/// A checked read of the characters `row` of row `i`, from state `st`.
pub open spec fn strict_scan(st: Option<(int, Seq<ChessPiece>)>, row: Seq<char>, i: int) -> Option<
    (int, Seq<ChessPiece>),
>
    decreases row.len(),
{
    if row.len() == 0 {
        st
    } else {
        strict_step(strict_scan(st, row.drop_last(), i), row.last(), i)
    }
}

/// The pieces of a checked read of the placement rows, in reading order, or
/// none when a row is refused or does not fill exactly 8 columns.
pub open spec fn strict_rows(rows: Seq<Seq<char>>) -> Option<Seq<ChessPiece>>
    decreases rows.len(),
{
    if rows.len() == 0 {
        Some(Seq::empty())
    } else {
        match strict_rows(rows.drop_last()) {
            None => None,
            Some(ps) => match strict_scan(Some((0, ps)), rows.last(), rows.len() - 1) {
                Some((j, ps2)) => if j == 8 {
                    Some(ps2)
                } else {
                    None
                },
                None => None,
            },
        }
    }
}

/// The piece a list of set-down pieces leaves on `(r, c)`: the last one with
/// that position.
pub open spec fn piece_at(ps: Seq<ChessPiece>, r: int, c: int) -> Option<ChessPiece>
    decreases ps.len(),
{
    if ps.len() == 0 {
        None
    } else if ps.last().position == (r as u8, c as u8) {
        Some(ps.last())
    } else {
        piece_at(ps.drop_last(), r, c)
    }
}

/// The grid holds exactly the pieces of the list, each on its position.
pub open spec fn grid_holds(g: Squares, ps: Seq<ChessPiece>) -> bool {
    forall|r: int, c: int| 0 <= r < 8 && 0 <= c < 8 ==> #[trigger] g[r][c] == piece_at(ps, r, c)
}

/// The en-passant field of a checked read: a file `a`-`h` and a rank
/// `1`-`8` name a square, anything else none.
pub open spec fn strict_ep(f: Seq<char>) -> Option<(u8, u8)> {
    if f.len() == 2 && 'a' <= f[0] <= 'h' && '1' <= f[1] <= '8' {
        Some(((8 - (f[1] as u32 - '0' as u32)) as u8, (f[0] as u32 - 'a' as u32) as u8))
    } else {
        None
    }
}

/// A refused read stays refused.
pub proof fn lemma_strict_scan_refused(row: Seq<char>, i: int)
    ensures
        strict_scan(None, row, i) is None,
    decreases row.len(),
{
    if row.len() > 0 {
        lemma_strict_scan_refused(row.drop_last(), i);
    }
}

/// A read refused on a prefix of a row refuses the row.
pub proof fn lemma_strict_prefix_refused(st: Option<(int, Seq<ChessPiece>)>, row: Seq<char>, i: int, k: int)
    requires
        0 <= k <= row.len(),
        strict_scan(st, row.take(k), i) is None,
    ensures
        strict_scan(st, row, i) is None,
    decreases row.len() - k,
{
    if k < row.len() {
        assert(row.take(k + 1).drop_last() == row.take(k));
        lemma_strict_prefix_refused(st, row, i, k + 1);
    } else {
        assert(row.take(k) == row);
    }
}

/// A placement refused on its first rows is refused.
pub proof fn lemma_strict_rows_prefix_refused(rows: Seq<Seq<char>>, k: int)
    requires
        0 <= k <= rows.len(),
        strict_rows(rows.take(k)) is None,
    ensures
        strict_rows(rows) is None,
    decreases rows.len() - k,
{
    if k < rows.len() {
        assert(rows.take(k + 1).drop_last() == rows.take(k));
        lemma_strict_rows_prefix_refused(rows, k + 1);
    } else {
        assert(rows.take(k) == rows);
    }
}

/// Setting down one more piece changes only its own square.
pub proof fn lemma_piece_at_push(ps: Seq<ChessPiece>, p: ChessPiece, r: int, c: int)
    ensures
        piece_at(ps.push(p), r, c) == if p.position == (r as u8, c as u8) {
            Some(p)
        } else {
            piece_at(ps, r, c)
        },
{
    assert(ps.push(p).drop_last() == ps);
}

/// Whether a field is the single character `c`.
fn is_single(f: &Vec<char>, c: char) -> (b: bool)
    ensures
        b == (f@ == seq![c]),
{
    if f.len() == 1 && f[0] == c {
        assert(f@ =~= seq![c]);
        true
    } else {
        false
    }
}

/// Whether `f` holds `c`.
pub(crate) fn holds_char(f: &Vec<char>, c: char) -> (b: bool)
    ensures
        b == f@.contains(c),
{
    let mut i: usize = 0;
    while i < f.len()
        invariant
            i <= f.len(),
            forall|k: int| 0 <= k < i ==> f@[k] != c,
        decreases f.len() - i,
    {
        if f[i] == c {
            return true;
        }
        i += 1;
    }
    false
}

impl Board {
    /// Reads row `i` of a placement in a checked read, setting its pieces on
    /// `board`; `None` when the row is refused or does not fill 8 columns.
    fn read_row_checked(
        row: &Vec<char>,
        i: u8,
        board: &mut Squares,
        next_id: u32,
        Ghost(ps): Ghost<Seq<ChessPiece>>,
    ) -> (res: Option<u32>)
        requires
            i < 8,
            next_id == ps.len(),
            ps.len() <= 8 * i,
            grid_holds(*old(board), ps),
        ensures
            match strict_scan(Some((0, ps)), row@, i as int) {
                Some((j, ps2)) => if j == 8 {
                    &&& res == Some(ps2.len() as u32)
                    &&& ps2.len() <= 8 * (i + 1)
                    &&& grid_holds(*final(board), ps2)
                } else {
                    res is None
                },
                None => res is None,
            },
    {
        let mut j: u8 = 0;
        let mut id = next_id;
        let mut k: usize = 0;
        let ghost mut cur = ps;
        while k < row.len()
            invariant
                i < 8,
                k <= row.len(),
                strict_scan(Some((0, ps)), row@.take(k as int), i as int) == Some((j as int, cur)),
                j <= 8,
                id == cur.len(),
                cur.len() <= 8 * i + j,
                grid_holds(*board, cur),
            decreases row.len() - k,
        {
            let ch = row[k];
            assert(row@.take(k + 1).drop_last() == row@.take(k as int));
            assert(row@.take(k + 1).last() == ch);
            if '0' <= ch && ch <= '9' {
                let d = (ch as u32 - '0' as u32) as u8;
                j = j.saturating_add(d);
                if j > 8 {
                    proof {
                        lemma_strict_prefix_refused(Some((0, ps)), row@, i as int, k + 1);
                    }
                    return None;
                }
            } else {
                match piece_from_letter(ch) {
                    Some((kind, color)) => {
                        if j >= 8 {
                            proof {
                                lemma_strict_prefix_refused(Some((0, ps)), row@, i as int, k + 1);
                            }
                            return None;
                        }
                        let piece = ChessPiece {
                            id,
                            kind,
                            color,
                            position: (i, j),
                            has_moved: false,
                        };
                        let ghost g0 = *board;
                        board[i as usize][j as usize] = Some(piece);
                        proof {
                            lemma_put(g0, i as int, j as int, Some(piece));
                            assert(*board == put(g0, i as int, j as int, Some(piece)));
                            assert forall|r: int, c: int| 0 <= r < 8 && 0 <= c < 8 implies #[trigger] board[r][c]
                                == piece_at(cur.push(piece), r, c) by {
                                lemma_piece_at_push(cur, piece, r, c);
                            }
                            cur = cur.push(piece);
                        }
                        id = id.saturating_add(1);
                        j = j.saturating_add(1);
                    },
                    None => {
                        proof {
                            lemma_strict_prefix_refused(Some((0, ps)), row@, i as int, k + 1);
                        }
                        return None;
                    },
                }
            }
            k += 1;
        }
        assert(row@.take(row@.len() as int) == row@);
        if j != 8 {
            return None;
        }
        Some(id)
    }

    /// Reads the placement rows in a checked read onto an empty grid: the
    /// grid and the number of pieces, or `None` when a row is refused.
    fn read_rows_checked(rows: &Vec<Vec<char>>) -> (res: Option<(Squares, u32)>)
        requires
            rows@.len() == 8,
        ensures
            match strict_rows(views(rows@)) {
                Some(ps) => res matches Some((g, n)) && grid_holds(g, ps) && n == ps.len(),
                None => res is None,
            },
    {
        let ghost all = views(rows@);
        let mut board: Squares = [[None; 8]; 8];
        let mut next_id: u32 = 0;
        let ghost mut ps: Seq<ChessPiece> = Seq::empty();
        let mut i: usize = 0;
        assert forall|r: int, c: int| 0 <= r < 8 && 0 <= c < 8 implies #[trigger] board[r][c] == piece_at(ps, r, c) by {}
        assert(all.take(0) =~= Seq::<Seq<char>>::empty());
        while i < 8
            invariant
                i <= 8,
                rows@.len() == 8,
                all == views(rows@),
                strict_rows(all.take(i as int)) == Some(ps),
                next_id == ps.len(),
                ps.len() <= 8 * i,
                grid_holds(board, ps),
            decreases 8 - i,
        {
            assert(all.take(i + 1).drop_last() == all.take(i as int));
            assert(all.take(i + 1).last() == rows@[i as int]@);
            match Board::read_row_checked(&rows[i], i as u8, &mut board, next_id, Ghost(ps)) {
                Some(n) => {
                    next_id = n;
                    proof {
                        ps = strict_scan(Some((0, ps)), rows@[i as int]@, i as int).unwrap().1;
                    }
                },
                None => {
                    proof {
                        lemma_strict_rows_prefix_refused(all, i + 1);
                    }
                    return None;
                },
            }
            i += 1;
        }
        assert(all.take(8) == all);
        Some((board, next_id))
    }

    /// Sets the position from a FEN: placement, side to move (`w` for White,
    /// anything else Black), castling rights (by the letters `KQkq` present),
    /// en-passant square, and the clocks (a halfmove clock that does not read
    /// as a number counts 0, a move number 1). Ids are given in reading order,
    /// the move cache is emptied, the ply count reset and a new game record
    /// started from this FEN. A FEN without exactly six fields, without eight
    /// rows, or with a row that does not read as eight squares leaves the board
    /// as it was.
    pub fn set_fen(&mut self, fen: String)
        ensures
            ({
                let f = ws_fields(fen@);
                let rows = split_on(f[0], '/');
                if f.len() != 6 || rows.len() != 8 || strict_rows(rows) is None {
                    *final(self) == *old(self)
                } else {
                    let ps = strict_rows(rows)->0;
                    &&& grid_holds(final(self).squares, ps)
                    &&& final(self).turn == if f[1] == seq!['w'] {
                        PieceColor::White
                    } else {
                        PieceColor::Black
                    }
                    &&& final(self).white_small_castle == f[2].contains('K')
                    &&& final(self).white_big_castle == f[2].contains('Q')
                    &&& final(self).black_small_castle == f[2].contains('k')
                    &&& final(self).black_big_castle == f[2].contains('q')
                    &&& final(self).en_passant_target == strict_ep(f[3])
                    &&& final(self).halfmove_clock == match parse_u32_spec(f[4]) {
                        Some(v) => v,
                        None => 0,
                    }
                    &&& final(self).fullmove_number == match parse_u32_spec(f[5]) {
                        Some(v) => v,
                        None => 1,
                    }
                    &&& final(self).next_id == ps.len()
                    &&& final(self).move_cache@ == Map::<u32, crate::engine::board::PieceMoves>::empty()
                    &&& final(self).ply_count == 0
                    &&& final(self).game_phase == old(self).game_phase
                    &&& is_new_record(final(self).meta_data, fen@)
                }
            }),
    {
        let chars = chars_of(fen.as_str());
        let parts = split_whitespace(&chars);
        if parts.len() != 6 {
            return;
        }
        let ghost f = views(parts@);
        assert(f[0] == parts@[0]@);
        let halfmove_clock: u32 = match parse_u32(&parts[4]) {
            Some(v) => v,
            None => 0,
        };
        let fullmove_number: u32 = match parse_u32(&parts[5]) {
            Some(v) => v,
            None => 1,
        };
        let fen_files = split_chars(&parts[0], '/');
        if fen_files.len() != 8 {
            return;
        }
        let (board, next_id) = match Board::read_rows_checked(&fen_files) {
            Some(read) => read,
            None => {
                return;
            },
        };
        let ep_field = &parts[3];
        let en_passant_target = if ep_field.len() == 2 && 'a' <= ep_field[0] && ep_field[0] <= 'h'
            && '1' <= ep_field[1] && ep_field[1] <= '8' {
            Some(((8 - (ep_field[1] as u32 - '0' as u32)) as u8, (ep_field[0] as u32 - 'a' as u32) as u8))
        } else {
            None
        };
        self.squares = board;
        self.turn = if is_single(&parts[1], 'w') {
            PieceColor::White
        } else {
            PieceColor::Black
        };
        self.white_small_castle = holds_char(&parts[2], 'K');
        self.white_big_castle = holds_char(&parts[2], 'Q');
        self.black_small_castle = holds_char(&parts[2], 'k');
        self.black_big_castle = holds_char(&parts[2], 'q');
        self.halfmove_clock = halfmove_clock;
        self.fullmove_number = fullmove_number;
        self.en_passant_target = en_passant_target;
        self.next_id = next_id;
        self.move_cache.clear();
        self.ply_count = 0;
        let mut meta = BoardMetaData::default();
        meta.starting_position = fen;
        self.meta_data = meta;
    }
}

/// A square read from a FEN agrees with a square of a board: both empty, or
/// both holding a piece of the same kind and colour, the read one with this
/// square as its position.
pub open spec fn same_square(x: Option<ChessPiece>, y: Option<ChessPiece>, r: int, c: int) -> bool {
    match (x, y) {
        (None, None) => true,
        (Some(p), Some(q)) => p.kind == q.kind && p.color == q.color && p.position == (r as u8, c as u8),
        _ => false,
    }
}

/// The pieces read agree with the board on the squares before row `i`,
/// column `j` in reading order, and leave the later squares empty.
pub open spec fn placed_upto(ps: Seq<ChessPiece>, b: Squares, i: int, j: int) -> bool {
    forall|r: int, c: int|
        0 <= r < 8 && 0 <= c < 8 ==> if r < i || (r == i && c < j) {
            same_square(#[trigger] piece_at(ps, r, c), b[r][c], r, c)
        } else {
            piece_at(ps, r, c) is None
        }
}

/// A character a FEN placement is written with: a count of empty squares or
/// a piece letter.
pub open spec fn placement_char(ch: char) -> bool {
    ('1' <= ch <= '8') || piece_of_letter(ch) is Some
}

/// A checked read over two pieces in turn.
pub proof fn lemma_strict_scan_concat(st: Option<(int, Seq<ChessPiece>)>, a: Seq<char>, b: Seq<char>, i: int)
    ensures
        strict_scan(st, a + b, i) == strict_scan(strict_scan(st, a, i), b, i),
    decreases b.len(),
{
    if b.len() == 0 {
        assert(a + b == a);
    } else {
        assert((a + b).drop_last() == a + b.drop_last());
        lemma_strict_scan_concat(st, a, b.drop_last(), i);
    }
}

/// A FEN letter reads back as its piece, and is no digit.
pub proof fn lemma_letter_reads_back(kind: PieceType, color: PieceColor)
    ensures
        piece_of_letter(fen_letter(kind, color)) == Some((kind, color)),
        !is_digit(fen_letter(kind, color)),
        placement_char(fen_letter(kind, color)),
{
}

/// The count written for a run of empty squares reads back as a digit of
/// that value.
pub proof fn lemma_run_digit(run: nat)
    requires
        1 <= run <= 8,
    ensures
        is_digit(digit_char(run)),
        digit_value(digit_char(run)) == run,
        placement_char(digit_char(run)),
{
    assert(digit_char(run) as u32 == 48 + run);
}

/// A row's FEN, from column `c` with `run` empty squares pending, is written
/// with placement characters only, and is not empty unless nothing is left.
pub proof fn lemma_row_fen_chars(b: Squares, r: int, c: int, run: nat)
    requires
        0 <= c <= 8,
        run <= c,
    ensures
        forall|k: int| 0 <= k < row_fen_from(b, r, c, run).len() ==> placement_char(
            #[trigger] row_fen_from(b, r, c, run)[k],
        ),
        (c < 8 || run > 0) ==> row_fen_from(b, r, c, run).len() > 0,
    decreases 8 - c,
{
    let pending = if run > 0 {
        seq![digit_char(run)]
    } else {
        Seq::<char>::empty()
    };
    if run > 0 {
        lemma_run_digit(run);
    }
    if c < 8 {
        match b[r][c] {
            Some(p) => {
                lemma_row_fen_chars(b, r, c + 1, 0);
                lemma_letter_reads_back(p.kind, p.color);
                let rest = row_fen_from(b, r, c + 1, 0);
                let whole = pending + seq![fen_letter(p.kind, p.color)] + rest;
                assert forall|k: int| 0 <= k < whole.len() implies placement_char(#[trigger] whole[k]) by {
                    if k < pending.len() {
                    } else if k == pending.len() {
                    } else {
                        assert(whole[k] == rest[k - pending.len() - 1]);
                    }
                }
            },
            None => {
                lemma_row_fen_chars(b, r, c + 1, run + 1);
            },
        }
    }
}

/// Reading a row's FEN, from column `c` with `run` empty squares pending,
/// fills the row to column 8 and sets down exactly the row's pieces.
pub proof fn lemma_row_reads_back(b: Squares, i: int, c: int, run: nat, ps: Seq<ChessPiece>)
    requires
        0 <= i < 8,
        0 <= c <= 8,
        run <= c,
        forall|k: int| c - run <= k < c ==> (#[trigger] b[i][k]) is None,
        placed_upto(ps, b, i, c - run),
    ensures
        strict_scan(Some((c - run, ps)), row_fen_from(b, i, c, run), i) matches Some((j, ps2)) && j == 8
            && placed_upto(ps2, b, i, 8),
    decreases 8 - c,
{
    let pending = if run > 0 {
        seq![digit_char(run)]
    } else {
        Seq::<char>::empty()
    };
    let st = Some((c - run, ps));
    let after_pending = Some((c as int, ps));
    if run > 0 {
        lemma_run_digit(run);
        assert(pending.drop_last() =~= Seq::<char>::empty());
        assert(strict_scan(st, pending.drop_last(), i) == st);
        assert(strict_scan(st, pending, i) == after_pending);
        assert forall|r: int, k: int| 0 <= r < 8 && 0 <= k < 8 implies if r < i || (r == i && k < c) {
            same_square(#[trigger] piece_at(ps, r, k), b[r][k], r, k)
        } else {
            piece_at(ps, r, k) is None
        } by {
            if r == i && c - run <= k < c {
                assert(b[i][k] is None);
            }
        }
    } else {
        assert(strict_scan(st, pending, i) == after_pending);
    }
    if c == 8 {
        assert(row_fen_from(b, i, c, run) == pending);
    } else {
        match b[i][c] {
            None => {
                lemma_row_reads_back(b, i, c + 1, run + 1, ps);
            },
            Some(p) => {
                let letter = seq![fen_letter(p.kind, p.color)];
                let rest = row_fen_from(b, i, c + 1, 0);
                lemma_letter_reads_back(p.kind, p.color);
                lemma_strict_scan_concat(st, pending + letter, rest, i);
                lemma_strict_scan_concat(st, pending, letter, i);
                assert(letter.drop_last() =~= Seq::<char>::empty());
                assert(strict_scan(after_pending, letter.drop_last(), i) == after_pending);
                let np = new_piece(ps.len() as int, p.kind, p.color, i, c);
                let ps1 = ps.push(np);
                assert(strict_scan(after_pending, letter, i) == Some((c + 1, ps1)));
                assert forall|r: int, k: int| 0 <= r < 8 && 0 <= k < 8 implies if r < i || (r == i && k < c + 1) {
                    same_square(#[trigger] piece_at(ps1, r, k), b[r][k], r, k)
                } else {
                    piece_at(ps1, r, k) is None
                } by {
                    lemma_piece_at_push(ps, np, r, k);
                    assert(piece_at(ps, r, k) == piece_at(ps, r, k));
                }
                lemma_row_reads_back(b, i, c + 1, 0, ps1);
            },
        }
    }
}

/// The FEN rows `0..n` of a board.
pub open spec fn row_fens(b: Squares, n: int) -> Seq<Seq<char>> {
    Seq::new(n as nat, |i: int| row_fen(b, i))
}

/// The placement field is the rows joined by `/`.
pub proof fn lemma_rows_fen_join(b: Squares, n: int)
    requires
        1 <= n <= 8,
    ensures
        rows_fen(b, n) == join_with(row_fens(b, n), '/'),
    decreases n,
{
    if n > 1 {
        lemma_rows_fen_join(b, n - 1);
        assert(row_fens(b, n).drop_last() =~= row_fens(b, n - 1));
    } else {
        assert(row_fens(b, 1)[0] == row_fen(b, 0));
    }
}

/// Reading the FEN rows `0..n` of a board sets down exactly the pieces of
/// those rows.
pub proof fn lemma_rows_read_back(b: Squares, n: int)
    requires
        0 <= n <= 8,
    ensures
        strict_rows(row_fens(b, n)) matches Some(ps) && placed_upto(ps, b, n, 0),
    decreases n,
{
    if n == 0 {
        assert(row_fens(b, 0) =~= Seq::<Seq<char>>::empty());
        assert forall|r: int, c: int| 0 <= r < 8 && 0 <= c < 8 implies if r < 0 || (r == 0 && c < 0) {
            same_square(#[trigger] piece_at(Seq::<ChessPiece>::empty(), r, c), b[r][c], r, c)
        } else {
            piece_at(Seq::<ChessPiece>::empty(), r, c) is None
        } by {}
    } else {
        lemma_rows_read_back(b, n - 1);
        assert(row_fens(b, n).drop_last() =~= row_fens(b, n - 1));
        let ps = strict_rows(row_fens(b, n - 1)).unwrap();
        assert forall|r: int, c: int| 0 <= r < 8 && 0 <= c < 8 implies if r < n - 1 || (r == n - 1 && c < 0) {
            same_square(#[trigger] piece_at(ps, r, c), b[r][c], r, c)
        } else {
            piece_at(ps, r, c) is None
        } by {}
        lemma_row_reads_back(b, n - 1, 0, 0, ps);
        let ps2 = strict_scan(Some((0, ps)), row_fen(b, n - 1), n - 1).unwrap().1;
        assert forall|r: int, c: int| 0 <= r < 8 && 0 <= c < 8 implies if r < n || (r == n && c < 0) {
            same_square(#[trigger] piece_at(ps2, r, c), b[r][c], r, c)
        } else {
            piece_at(ps2, r, c) is None
        } by {}
    }
}

/// The castling field holds each letter exactly when its right is held.
pub proof fn lemma_castling_letters(wk: bool, wq: bool, bk: bool, bq: bool)
    ensures
        castling_fen(wk, wq, bk, bq).len() > 0,
        castling_fen(wk, wq, bk, bq).contains('K') == wk,
        castling_fen(wk, wq, bk, bq).contains('Q') == wq,
        castling_fen(wk, wq, bk, bq).contains('k') == bk,
        castling_fen(wk, wq, bk, bq).contains('q') == bq,
        forall|i: int| 0 <= i < castling_fen(wk, wq, bk, bq).len() ==> !is_white_space(
            #[trigger] castling_fen(wk, wq, bk, bq)[i],
        ),
{
    let s = castling_fen(wk, wq, bk, bq);
    assert(forall|i: int| 0 <= i < s.len() ==> s[i] == 'K' || s[i] == 'Q' || s[i] == 'k' || s[i] == 'q' || s[i] == '-');
    if wk {
        assert(s[0] == 'K');
    }
    if wq {
        assert(s[if wk { 1int } else { 0int }] == 'Q');
    }
    if bk {
        assert(s[(if wk { 1int } else { 0int }) + (if wq { 1int } else { 0int })] == 'k');
    }
    if bq {
        assert(s[(if wk { 1int } else { 0int }) + (if wq { 1int } else { 0int }) + (if bk { 1int } else { 0int })] == 'q');
    }
}

/// The en-passant field is one or two characters, none of them white space,
/// and both readers give back the square it names.
pub proof fn lemma_ep_field(t: Option<(u8, u8)>)
    ensures
        ep_fen(t).len() > 0,
        forall|i: int| 0 <= i < ep_fen(t).len() ==> !is_white_space(#[trigger] ep_fen(t)[i]),
        strict_ep(ep_fen(t)) == written_ep(t),
        loose_ep_readable(ep_fen(t)),
        loose_ep(ep_fen(t)) == written_ep(t),
{
    if let Some(sq) = written_ep(t) {
        let f = ep_fen(t);
        let r = sq.0;
        let c = sq.1;
        assert(f[0] as u32 == 97 + c);
        assert(f[1] as u32 == 48 + (8 - r));
        assert(f != seq!['-']) by {
            assert(f.len() != seq!['-'].len());
        }
        assert((((f[0] as u32 + 159) % 256) as u8) == c);
        assert((8 - (f[1] as u32 - '0' as u32)) as u8 == r);
        assert((f[0] as u32 - 'a' as u32) as u8 == c);
    }
}

/// Reading back the FEN a board writes gives its position: six fields, eight
/// rows, the same kind and colour of piece on every square, the same side to
/// move, castling rights, en-passant square (where it lies on the board) and
/// clocks.
pub proof fn lemma_fen_reads_back(b: Board)
    ensures
        ({
            let f = ws_fields(fen_of(b));
            let rows = split_on(f[0], '/');
            &&& f.len() == 6
            &&& rows.len() == 8
            &&& strict_rows(rows) matches Some(ps) && forall|r: int, c: int|
                0 <= r < 8 && 0 <= c < 8 ==> same_square(
                    #[trigger] piece_at(ps, r, c),
                    b.squares[r][c],
                    r,
                    c,
                )
            &&& (f[1] == seq!['w']) == (b.turn == PieceColor::White)
            &&& f[2].contains('K') == b.white_small_castle
            &&& f[2].contains('Q') == b.white_big_castle
            &&& f[2].contains('k') == b.black_small_castle
            &&& f[2].contains('q') == b.black_big_castle
            &&& f[3] == ep_fen(b.en_passant_target)
            &&& strict_ep(f[3]) == written_ep(b.en_passant_target)
            &&& parse_u32_spec(f[4]) == Some(b.halfmove_clock)
            &&& parse_u32_spec(f[5]) == Some(b.fullmove_number)
        }),
{
    let g = b.squares;
    let rows = row_fens(g, 8);
    let placement = rows_fen(g, 8);
    let turn = if b.turn == PieceColor::White {
        seq!['w']
    } else {
        seq!['b']
    };
    let castling = castling_fen(b.white_small_castle, b.white_big_castle, b.black_small_castle, b.black_big_castle);
    let hm = decimal(b.halfmove_clock as nat);
    let fm = decimal(b.fullmove_number as nat);
    let ep = ep_fen(b.en_passant_target);
    lemma_ep_field(b.en_passant_target);
    let fields = seq![placement, turn, castling, ep, hm, fm];
    // the placement: rows of placement characters joined by '/'
    lemma_rows_fen_join(g, 8);
    assert forall|k: int, i: int| 0 <= k < rows.len() && 0 <= i < rows[k].len() implies placement_char(#[trigger] rows[k][i]) by {
        lemma_row_fen_chars(g, k, 0, 0);
    }
    let not_ws = |ch: char| !is_white_space(ch);
    assert forall|k: int, i: int| 0 <= k < rows.len() && 0 <= i < rows[k].len() implies not_ws(#[trigger] rows[k][i]) by {
        assert(placement_char(rows[k][i]));
    }
    lemma_join_chars(rows, '/', not_ws);
    assert forall|k: int, i: int| 0 <= k < rows.len() && 0 <= i < rows[k].len() implies #[trigger] rows[k][i] != '/' by {
        assert(placement_char(rows[k][i]));
    }
    lemma_split_join(rows, '/');
    lemma_row_fen_chars(g, 0, 0, 0);
    assert(rows[0] == row_fen(g, 0));
    assert(placement.len() > 0) by {
        assert(rows.drop_last().len() > 0);
        reveal_with_fuel(join_with, 2);
    }
    // the other fields
    lemma_castling_letters(b.white_small_castle, b.white_big_castle, b.black_small_castle, b.black_big_castle);
    lemma_decimal_digits(b.halfmove_clock as nat);
    lemma_decimal_digits(b.fullmove_number as nat);
    lemma_parse_decimal(b.halfmove_clock);
    lemma_parse_decimal(b.fullmove_number);
    assert forall|k: int| 0 <= k < fields.len() implies (#[trigger] fields[k]).len() > 0 by {}
    assert forall|k: int, i: int| 0 <= k < fields.len() && 0 <= i < fields[k].len() implies !is_white_space(#[trigger] fields[k][i]) by {
        if k == 0 {
            assert(not_ws(placement[i]));
        } else if k == 3 {
            assert(!is_white_space(ep[i]));
        } else if k == 4 {
            assert(crate::text::is_digit(hm[i]));
        } else if k == 5 {
            assert(crate::text::is_digit(fm[i]));
        }
    }
    lemma_ws_fields_join(fields);
    assert(fen_of(b) =~= join_with(fields, ' ')) by {
        reveal_with_fuel(join_with, 6);
        assert(fields.drop_last().drop_last().drop_last().drop_last().drop_last() =~= seq![placement]);
        assert(fields.drop_last().drop_last().drop_last().drop_last() =~= seq![placement, turn]);
        assert(fields.drop_last().drop_last().drop_last() =~= seq![placement, turn, castling]);
        assert(fields.drop_last().drop_last() =~= seq![placement, turn, castling, ep]);
        assert(fields.drop_last() =~= seq![placement, turn, castling, ep, hm]);
    }
    lemma_rows_read_back(g, 8);
    let ps = strict_rows(rows).unwrap();
    assert forall|r: int, c: int| 0 <= r < 8 && 0 <= c < 8 implies same_square(
        #[trigger] piece_at(ps, r, c),
        g[r][c],
        r,
        c,
    ) by {}
    let f = ws_fields(fen_of(b));
    assert(f == fields);
    assert(f[0] == placement);
    assert(split_on(f[0], '/') == rows);
    assert(f[1] == turn);
    if b.turn != PieceColor::White {
        assert(turn[0] != seq!['w'][0]);
    }
    assert(f[2] == castling);
    assert(f[3] == ep);
    assert(f[4] == hm);
    assert(parse_u32_spec(f[4]) == Some(b.halfmove_clock));
}

/// One character of row `i` in an unchecked read, from the column reached
/// and the pieces set down so far: a digit skips that many columns, a piece
/// letter sets down a piece, any other character is refused. `None` when the
/// column (a byte) or the piece count (a `u32`) would overflow.
pub open spec fn loose_step(st: Option<Result<(int, Seq<ChessPiece>), char>>, c: char, i: int) -> Option<
    Result<(int, Seq<ChessPiece>), char>,
> {
    match st {
        Some(Ok((j, ps))) => if is_digit(c) {
            if j + digit_value(c) > 255 {
                None
            } else {
                Some(Ok((j + digit_value(c), ps)))
            }
        } else {
            match piece_of_letter(c) {
                None => Some(Err(c)),
                Some((kind, color)) => if j + 1 > 255 || ps.len() + 1 > u32::MAX {
                    None
                } else {
                    Some(Ok((j + 1, ps.push(new_piece(ps.len() as int, kind, color, i, j)))))
                },
            }
        },
        other => other,
    }
}

/// An unchecked read of the characters `row` of row `i`, from state `st`.
pub open spec fn loose_scan(st: Option<Result<(int, Seq<ChessPiece>), char>>, row: Seq<char>, i: int) -> Option<
    Result<(int, Seq<ChessPiece>), char>,
>
    decreases row.len(),
{
    if row.len() == 0 {
        st
    } else {
        loose_step(loose_scan(st, row.drop_last(), i), row.last(), i)
    }
}

/// The pieces of an unchecked read of the placement rows, in reading order;
/// the first character that is neither a digit nor a piece letter refuses the
/// read. `None` when a count overflows or the row number (a byte) would.
pub open spec fn loose_rows(rows: Seq<Seq<char>>) -> Option<Result<Seq<ChessPiece>, char>>
    decreases rows.len(),
{
    if rows.len() == 0 {
        Some(Ok(Seq::empty()))
    } else {
        match loose_rows(rows.drop_last()) {
            Some(Ok(ps)) => match loose_scan(Some(Ok((0, ps))), rows.last(), rows.len() - 1) {
                Some(Ok((_, ps2))) => if rows.len() > 255 {
                    None
                } else {
                    Some(Ok(ps2))
                },
                Some(Err(c)) => Some(Err(c)),
                None => None,
            },
            other => other,
        }
    }
}

/// The en-passant field of an unchecked read can be read: `-`, or a first
/// character in ASCII followed by a digit up to 8.
pub open spec fn loose_ep_readable(e: Seq<char>) -> bool {
    e == seq!['-'] || (e.len() >= 2 && (e[0] as u32) < 128 && '0' <= e[1] <= '8')
}

/// The en-passant field of an unchecked read: none for `-`, else the square
/// with row `8 - rank` and the file letter's distance from `a`, as a byte
/// (so wrapping below `a`).
pub open spec fn loose_ep(e: Seq<char>) -> Option<(u8, u8)> {
    if e == seq!['-'] {
        None
    } else {
        Some(((8 - (e[1] as u32 - '0' as u32)) as u8, ((e[0] as u32 + 159) % 256) as u8))
    }
}

/// The FEN can be read without a failure: at least six fields, both clocks
/// numbers, and, unless a character is refused, counts that fit, every piece
/// on the board and a readable en-passant field.
pub open spec fn fen_parser_defined(fen: Seq<char>) -> bool {
    let f = ws_fields(fen);
    &&& f.len() >= 6
    &&& parse_u32_spec(f[4]) is Some
    &&& parse_u32_spec(f[5]) is Some
    &&& match loose_rows(split_on(f[0], '/')) {
        None => false,
        Some(Err(_)) => true,
        Some(Ok(ps)) => (forall|k: int| 0 <= k < ps.len() ==> (#[trigger] ps[k]).position.0 < 8
            && ps[k].position.1 < 8) && loose_ep_readable(f[3]),
    }
}

/// `b` is the board an unchecked read of `fen` gives with the pieces `ps`: the
/// pieces on their squares, side to move (`w` for White, else Black),
/// castling rights by the letters present, en-passant square and clocks, ids
/// in reading order, no cached moves, no plies, the opening phase and a new
/// game record.
pub open spec fn is_read_board(b: Board, fen: Seq<char>, ps: Seq<ChessPiece>) -> bool {
    let f = ws_fields(fen);
    &&& grid_holds(b.squares, ps)
    &&& b.turn == if f[1] == seq!['w'] {
        PieceColor::White
    } else {
        PieceColor::Black
    }
    &&& b.white_small_castle == f[2].contains('K')
    &&& b.white_big_castle == f[2].contains('Q')
    &&& b.black_small_castle == f[2].contains('k')
    &&& b.black_big_castle == f[2].contains('q')
    &&& b.en_passant_target == loose_ep(f[3])
    &&& Some(b.halfmove_clock) == parse_u32_spec(f[4])
    &&& Some(b.fullmove_number) == parse_u32_spec(f[5])
    &&& b.next_id == ps.len()
    &&& b.move_cache@ == Map::<u32, crate::engine::board::PieceMoves>::empty()
    &&& b.ply_count == 0
    &&& b.game_phase == GamePhase::Opening
    &&& is_default_meta(b.meta_data)
}

/// What an unchecked read of `fen` gives: the refused character, or a board.
pub open spec fn fen_parser_result(res: Result<Board, FenError>, fen: Seq<char>) -> bool {
    match loose_rows(split_on(ws_fields(fen)[0], '/')) {
        Some(Err(c)) => res == Err::<Board, FenError>(FenError::InvalidChar(c)),
        Some(Ok(ps)) => res matches Ok(b) && is_read_board(b, fen, ps),
        None => false,
    }
}

/// An unchecked read that overflowed stays so, and a refused one stays
/// refused.
pub proof fn lemma_loose_scan_stuck(st: Option<Result<(int, Seq<ChessPiece>), char>>, row: Seq<char>, i: int)
    requires
        !(st matches Some(Ok(_))),
    ensures
        loose_scan(st, row, i) == st,
    decreases row.len(),
{
    if row.len() > 0 {
        lemma_loose_scan_stuck(st, row.drop_last(), i);
    }
}

/// An unchecked read that stops on a prefix of a row stops there.
pub proof fn lemma_loose_prefix_stuck(
    st: Option<Result<(int, Seq<ChessPiece>), char>>,
    row: Seq<char>,
    i: int,
    k: int,
)
    requires
        0 <= k <= row.len(),
        !(loose_scan(st, row.take(k), i) matches Some(Ok(_))),
    ensures
        loose_scan(st, row, i) == loose_scan(st, row.take(k), i),
    decreases row.len() - k,
{
    if k < row.len() {
        assert(row.take(k + 1).drop_last() == row.take(k));
        lemma_loose_prefix_stuck(st, row, i, k + 1);
    } else {
        assert(row.take(k) == row);
    }
}

/// An unchecked read of the placement that stops on its first rows stops
/// there.
pub proof fn lemma_loose_rows_prefix_stuck(rows: Seq<Seq<char>>, k: int)
    requires
        0 <= k <= rows.len(),
        !(loose_rows(rows.take(k)) matches Some(Ok(_))),
    ensures
        loose_rows(rows) == loose_rows(rows.take(k)),
    decreases rows.len() - k,
{
    if k < rows.len() {
        assert(rows.take(k + 1).drop_last() == rows.take(k));
        lemma_loose_rows_prefix_stuck(rows, k + 1);
    } else {
        assert(rows.take(k) == rows);
    }
}

impl Board {
    /// Reads row `i` of a placement in an unchecked read, appending its pieces
    /// to `pieces`: the column reached, the refused character, or `None` on
    /// an overflow.
    fn read_row_unchecked(row: &Vec<char>, i: u8, pieces: &mut Vec<ChessPiece>) -> (res: Option<Result<u8, char>>)
        requires
            old(pieces)@.len() <= u32::MAX,
        ensures
            final(pieces)@.len() <= u32::MAX,
            match loose_scan(Some(Ok((0, old(pieces)@))), row@, i as int) {
                Some(Ok((j, ps))) => res == Some(Ok::<u8, char>(j as u8)) && final(pieces)@ == ps,
                Some(Err(c)) => res == Some(Err::<u8, char>(c)),
                None => res is None,
            },
    {
        let ghost ps0 = pieces@;
        let mut j: u8 = 0;
        let mut k: usize = 0;
        while k < row.len()
            invariant
                k <= row.len(),
                ps0 == old(pieces)@,
                pieces@.len() <= u32::MAX,
                loose_scan(Some(Ok((0, ps0))), row@.take(k as int), i as int) == Some(
                    Ok::<(int, Seq<ChessPiece>), char>((j as int, pieces@)),
                ),
            decreases row.len() - k,
        {
            let ch = row[k];
            assert(row@.take(k + 1).drop_last() == row@.take(k as int));
            assert(row@.take(k + 1).last() == ch);
            if '0' <= ch && ch <= '9' {
                let d = ch as u32 - '0' as u32;
                if j as u32 + d > 255 {
                    proof {
                        lemma_loose_prefix_stuck(Some(Ok((0, ps0))), row@, i as int, k + 1);
                    }
                    return None;
                }
                j = (j as u32 + d) as u8;
            } else {
                match piece_from_letter(ch) {
                    Some((kind, color)) => {
                        if j == 255 || pieces.len() >= 0xFFFF_FFFF {
                            proof {
                                lemma_loose_prefix_stuck(Some(Ok((0, ps0))), row@, i as int, k + 1);
                            }
                            return None;
                        }
                        pieces.push(
                            ChessPiece {
                                id: pieces.len() as u32,
                                kind,
                                color,
                                position: (i, j),
                                has_moved: false,
                            },
                        );
                        j = j + 1;
                    },
                    None => {
                        proof {
                            lemma_loose_prefix_stuck(Some(Ok((0, ps0))), row@, i as int, k + 1);
                        }
                        return Some(Err(ch));
                    },
                }
            }
            k += 1;
        }
        assert(row@.take(row@.len() as int) == row@);
        Some(Ok(j))
    }

    /// Reads the placement rows in an unchecked read: the pieces in reading
    /// order, the refused character, or `None` on an overflow.
    fn read_rows_unchecked(rows: &Vec<Vec<char>>) -> (res: Option<Result<Vec<ChessPiece>, char>>)
        ensures
            match loose_rows(views(rows@)) {
                Some(Ok(ps)) => res matches Some(Ok(v)) && v@ == ps && ps.len() <= u32::MAX,
                Some(Err(c)) => res == Some(Err::<Vec<ChessPiece>, char>(c)),
                None => res is None,
            },
    {
        let ghost all = views(rows@);
        let mut pieces: Vec<ChessPiece> = Vec::new();
        let mut i: usize = 0;
        assert(all.take(0) =~= Seq::<Seq<char>>::empty());
        while i < rows.len()
            invariant
                i <= rows.len(),
                all == views(rows@),
                i <= 255,
                pieces@.len() <= u32::MAX,
                loose_rows(all.take(i as int)) == Some(Ok::<Seq<ChessPiece>, char>(pieces@)),
            decreases rows.len() - i,
        {
            assert(all.take(i + 1).drop_last() == all.take(i as int));
            assert(all.take(i + 1).last() == rows@[i as int]@);
            match Board::read_row_unchecked(&rows[i], i as u8, &mut pieces) {
                Some(Ok(_)) => {},
                Some(Err(c)) => {
                    proof {
                        lemma_loose_rows_prefix_stuck(all, i + 1);
                    }
                    return Some(Err(c));
                },
                None => {
                    proof {
                        lemma_loose_rows_prefix_stuck(all, i + 1);
                    }
                    return None;
                },
            }
            if i + 1 > 255 {
                proof {
                    lemma_loose_rows_prefix_stuck(all, i + 1);
                }
                return None;
            }
            i += 1;
        }
        assert(all.take(rows@.len() as int) == all);
        Some(Ok(pieces))
    }

    /// The en-passant square of an unchecked read of a readable field.
    fn read_ep_unchecked(e: &Vec<char>) -> (t: Option<(u8, u8)>)
        requires
            loose_ep_readable(e@),
        ensures
            t == loose_ep(e@),
    {
        if is_single(e, '-') {
            None
        } else {
            let file: u8 = ((e[0] as u32 + 159) % 256) as u8;
            let rank = e[1] as u32 - '0' as u32;
            Some(((8 - rank) as u8, file))
        }
    }

    /// Sets the pieces on an empty grid, each on its position.
    fn place_pieces(pieces: &Vec<ChessPiece>) -> (board: Squares)
        requires
            forall|k: int| 0 <= k < pieces@.len() ==> (#[trigger] pieces@[k]).position.0 < 8
                && pieces@[k].position.1 < 8,
        ensures
            grid_holds(board, pieces@),
    {
        let mut board: Squares = [[None; 8]; 8];
        let mut k: usize = 0;
        assert(pieces@.take(0) =~= Seq::<ChessPiece>::empty());
        while k < pieces.len()
            invariant
                k <= pieces.len(),
                forall|m: int| 0 <= m < pieces@.len() ==> (#[trigger] pieces@[m]).position.0 < 8
                    && pieces@[m].position.1 < 8,
                grid_holds(board, pieces@.take(k as int)),
            decreases pieces.len() - k,
        {
            let piece = pieces[k];
            let ghost g0 = board;
            board[piece.position.0 as usize][piece.position.1 as usize] = Some(piece);
            proof {
                assert(pieces@.take(k + 1) == pieces@.take(k as int).push(piece));
                lemma_put(g0, piece.position.0 as int, piece.position.1 as int, Some(piece));
                assert(board == put(g0, piece.position.0 as int, piece.position.1 as int, Some(piece)));
                assert forall|r: int, c: int| 0 <= r < 8 && 0 <= c < 8 implies #[trigger] board[r][c]
                    == piece_at(pieces@.take(k + 1), r, c) by {
                    lemma_piece_at_push(pieces@.take(k as int), piece, r, c);
                }
            }
            k += 1;
        }
        assert(pieces@.take(pieces@.len() as int) == pieces@);
        board
    }
}

/// Reads a FEN without checking that its rows fill the board: the first
/// character of the placement that is neither a digit nor a piece letter is
/// refused; otherwise the board has the pieces on their squares, the side to
/// move (`w` for White, else Black), the castling rights whose letters
/// `KQkq` appear, the en-passant square and the clocks, ids in reading order,
/// and a new game record. The FEN must be readable (`fen_parser_defined`).
pub fn fen_parser(fen: &String) -> (res: Result<Board, FenError>)
    requires
        fen_parser_defined(fen@),
    ensures
        fen_parser_result(res, fen@),
{
    let chars = chars_of(fen.as_str());
    let parts = split_whitespace(&chars);
    let ghost f = views(parts@);
    assert(f[0] == parts@[0]@ && f[3] == parts@[3]@ && f[4] == parts@[4]@ && f[5] == parts@[5]@);
    let halfmove_clock: u32 = parse_u32(&parts[4]).unwrap();
    let fullmove_number: u32 = parse_u32(&parts[5]).unwrap();
    let fen_files = split_chars(&parts[0], '/');
    let pieces = match Board::read_rows_unchecked(&fen_files).unwrap() {
        Ok(pieces) => pieces,
        Err(c) => {
            return Err(FenError::InvalidChar(c));
        },
    };
    let squares = Board::place_pieces(&pieces);
    let en_passant_target = Board::read_ep_unchecked(&parts[3]);
    let board = Board {
            squares,
            turn: if is_single(&parts[1], 'w') {
                PieceColor::White
            } else {
                PieceColor::Black
            },
            white_big_castle: holds_char(&parts[2], 'Q'),
            black_big_castle: holds_char(&parts[2], 'q'),
            white_small_castle: holds_char(&parts[2], 'K'),
            black_small_castle: holds_char(&parts[2], 'k'),
            halfmove_clock,
            fullmove_number,
            en_passant_target,
            meta_data: BoardMetaData::default(),
            move_cache: HashMap::new(),
            next_id: pieces.len() as u32,
            game_phase: GamePhase::Opening,
            ply_count: 0,
        };
    assert(grid_holds(board.squares, pieces@));
    assert(board.en_passant_target == loose_ep(f[3]));
    assert(Some(board.halfmove_clock) == parse_u32_spec(f[4]));
    assert(board.next_id == pieces@.len());
    assert(board.move_cache@ == Map::<u32, crate::engine::board::PieceMoves>::empty());
    assert(is_default_meta(board.meta_data));
    assert(f == ws_fields(fen@));
    assert(is_read_board(board, fen@, pieces@));
    Ok(board)
}

/// Whether every piece's position lies on the board.
fn pieces_on_board(pieces: &Vec<ChessPiece>) -> (ok: bool)
    ensures
        ok == forall|k: int| 0 <= k < pieces@.len() ==> (#[trigger] pieces@[k]).position.0 < 8
            && pieces@[k].position.1 < 8,
{
    let mut k: usize = 0;
    while k < pieces.len()
        invariant
            k <= pieces.len(),
            forall|m: int| 0 <= m < k ==> (#[trigger] pieces@[m]).position.0 < 8 && pieces@[m].position.1 < 8,
        decreases pieces.len() - k,
    {
        if pieces[k].position.0 >= 8 || pieces[k].position.1 >= 8 {
            assert(!(pieces@[k as int].position.0 < 8 && pieces@[k as int].position.1 < 8));
            return false;
        }
        k += 1;
    }
    true
}

/// Whether `fen_parser` can read the FEN (`fen_parser_defined`).
pub fn fen_parser_accepts(fen: &String) -> (ok: bool)
    ensures
        ok == fen_parser_defined(fen@),
{
    let chars = chars_of(fen.as_str());
    let parts = split_whitespace(&chars);
    if parts.len() < 6 {
        return false;
    }
    let ghost f = views(parts@);
    assert(f[0] == parts@[0]@ && f[3] == parts@[3]@ && f[4] == parts@[4]@ && f[5] == parts@[5]@);
    if parse_u32(&parts[4]).is_none() || parse_u32(&parts[5]).is_none() {
        return false;
    }
    let fen_files = split_chars(&parts[0], '/');
    match Board::read_rows_unchecked(&fen_files) {
        None => false,
        Some(Err(_)) => true,
        Some(Ok(pieces)) => {
            if !pieces_on_board(&pieces) {
                return false;
            }
            let e = &parts[3];
            is_single(e, '-') || (e.len() >= 2 && (e[0] as u32) < 128 && '0' <= e[1] && e[1] <= '8')
        },
    }
}

/// Where a checked read of a row succeeds, an unchecked read gives the same
/// pieces; each piece it adds stands on the row, on the board, and there are
/// no more of them than columns advanced.
pub proof fn lemma_strict_loose_agree(j0: int, ps0: Seq<ChessPiece>, s: Seq<char>, i: int)
    requires
        0 <= j0 <= 8,
        0 <= i < 8,
        strict_scan(Some((j0, ps0)), s, i) is Some,
        ps0.len() + 8 <= u32::MAX,
    ensures
        ({
            let (j, ps) = strict_scan(Some((j0, ps0)), s, i).unwrap();
            &&& loose_scan(Some(Ok((j0, ps0))), s, i) == Some(Ok::<(int, Seq<ChessPiece>), char>((j, ps)))
            &&& j0 <= j <= 8
            &&& ps0.len() <= ps.len()
            &&& ps.len() - ps0.len() <= j - j0
            &&& ps.subrange(0, ps0.len() as int) == ps0
            &&& forall|k: int| ps0.len() <= k < ps.len() ==> (#[trigger] ps[k]).position.0 == i as u8
                && ps[k].position.1 < 8
        }),
    decreases s.len(),
{
    if s.len() == 0 {
        assert(ps0.subrange(0, ps0.len() as int) == ps0);
    } else {
        let pre = strict_scan(Some((j0, ps0)), s.drop_last(), i);
        if pre is None {
            lemma_strict_scan_refused(seq![s.last()], i);
            assert(false);
        }
        let (j1, ps1) = pre.unwrap();
        lemma_strict_loose_agree(j0, ps0, s.drop_last(), i);
        let (j, ps) = strict_scan(Some((j0, ps0)), s, i).unwrap();
        assert forall|k: int| ps0.len() <= k < ps.len() implies (#[trigger] ps[k]).position.0 == i as u8
            && ps[k].position.1 < 8 by {
            if k < ps1.len() {
                assert(ps[k] == ps1[k]);
            }
        }
        assert(ps.subrange(0, ps0.len() as int) =~= ps1.subrange(0, ps0.len() as int));
    }
}

/// Where a checked read of the placement rows succeeds, an unchecked read
/// gives the same pieces, all on the board, at most 8 for each row.
pub proof fn lemma_strict_loose_rows(rows: Seq<Seq<char>>)
    requires
        rows.len() <= 8,
        strict_rows(rows) is Some,
    ensures
        loose_rows(rows) == Some(Ok::<Seq<ChessPiece>, char>(strict_rows(rows).unwrap())),
        strict_rows(rows).unwrap().len() <= 8 * rows.len(),
        forall|k: int| 0 <= k < strict_rows(rows).unwrap().len() ==> (#[trigger] strict_rows(rows).unwrap()[k]).position.0 < 8
            && strict_rows(rows).unwrap()[k].position.1 < 8,
    decreases rows.len(),
{
    if rows.len() > 0 {
        let t = rows.drop_last();
        if strict_rows(t) is None {
            assert(false);
        }
        lemma_strict_loose_rows(t);
        let ps = strict_rows(t).unwrap();
        let i = rows.len() - 1;
        lemma_strict_loose_agree(0, ps, rows.last(), i);
        let ps2 = strict_rows(rows).unwrap();
        assert forall|k: int| 0 <= k < ps2.len() implies (#[trigger] ps2[k]).position.0 < 8 && ps2[k].position.1 < 8 by {
            if k < ps.len() {
                assert(ps2.subrange(0, ps.len() as int)[k] == ps2[k]);
            }
        }
    }
}

/// Reading back with `fen_parser` the FEN a board writes gives its position:
/// the FEN can be read, and the board read has the same kind and colour of
/// piece on every square, the same side to move, castling rights and clocks,
/// and the en-passant square where it lies on the board.
pub proof fn lemma_fen_parser_reads_back(b: Board)
    ensures
        fen_parser_defined(fen_of(b)),
        ({
            let f = ws_fields(fen_of(b));
            &&& loose_rows(split_on(f[0], '/')) matches Some(Ok(ps)) && forall|r: int, c: int|
                0 <= r < 8 && 0 <= c < 8 ==> same_square(
                    #[trigger] piece_at(ps, r, c),
                    b.squares[r][c],
                    r,
                    c,
                )
            &&& (f[1] == seq!['w']) == (b.turn == PieceColor::White)
            &&& f[2].contains('K') == b.white_small_castle
            &&& f[2].contains('Q') == b.white_big_castle
            &&& f[2].contains('k') == b.black_small_castle
            &&& f[2].contains('q') == b.black_big_castle
            &&& loose_ep(f[3]) == written_ep(b.en_passant_target)
            &&& parse_u32_spec(f[4]) == Some(b.halfmove_clock)
            &&& parse_u32_spec(f[5]) == Some(b.fullmove_number)
        }),
{
    lemma_fen_reads_back(b);
    lemma_ep_field(b.en_passant_target);
    let f = ws_fields(fen_of(b));
    let rows = split_on(f[0], '/');
    lemma_strict_loose_rows(rows);
}

/// The pieces `fen_parser` sets down from `fen`, when it reads it without a
/// failure and refuses no character.
pub open spec fn fen_parser_reads(fen: Seq<char>) -> Option<Seq<ChessPiece>> {
    if fen_parser_defined(fen) {
        match loose_rows(split_on(ws_fields(fen)[0], '/')) {
            Some(Ok(ps)) => Some(ps),
            _ => None,
        }
    } else {
        None
    }
}

/// An empty board with White to move, all castling rights, clocks 0 and 1, no
/// en-passant square, nothing cached, the opening phase and a new record.
pub open spec fn is_fallback_board(b: Board) -> bool {
    &&& forall|r: int, c: int| 0 <= r < 8 && 0 <= c < 8 ==> (#[trigger] b.squares[r][c]) is None
    &&& b.turn == PieceColor::White
    &&& b.white_big_castle && b.white_small_castle && b.black_big_castle && b.black_small_castle
    &&& b.halfmove_clock == 0
    &&& b.fullmove_number == 1
    &&& b.en_passant_target is None
    &&& is_default_meta(b.meta_data)
    &&& b.move_cache@ == Map::<u32, crate::engine::board::PieceMoves>::empty()
    &&& b.game_phase == GamePhase::Opening
    &&& b.next_id == 0
    &&& b.ply_count == 0
}

/// The default board: the one read from the standard starting FEN, or the
/// fallback board should that FEN not be read.
pub open spec fn is_default_board(b: Board) -> bool {
    match fen_parser_reads(crate::etc::DEFAULT_FEN@) {
        Some(ps) => is_read_board(b, crate::etc::DEFAULT_FEN@, ps),
        None => is_fallback_board(b),
    }
}

impl Board {
    /// The standard starting position, read from `DEFAULT_FEN` by
    /// `fen_parser`; should it not be read, the fallback board.
    pub fn default() -> (b: Board)
        ensures
            is_default_board(b),
    {
        let fen = String::from_str(crate::etc::DEFAULT_FEN);
        if fen_parser_accepts(&fen) {
            match fen_parser(&fen) {
                Ok(board) => {
                    return board;
                },
                Err(_) => {},
            }
        }
        let squares: Squares = [[None; 8]; 8];
        Board {
            squares,
            turn: PieceColor::White,
            white_big_castle: true,
            white_small_castle: true,
            black_big_castle: true,
            black_small_castle: true,
            halfmove_clock: 0,
            fullmove_number: 1,
            en_passant_target: None,
            meta_data: BoardMetaData::default(),
            move_cache: HashMap::new(),
            game_phase: GamePhase::Opening,
            next_id: 0,
            ply_count: 0,
        }
    }

    /// The board `fen_parser` reads from `fen`, or the default board when it
    /// refuses a character.
    pub fn from(fen: &String) -> (b: Board)
        requires
            fen_parser_defined(fen@),
        ensures
            match fen_parser_reads(fen@) {
                Some(ps) => is_read_board(b, fen@, ps),
                None => is_default_board(b),
            },
    {
        match fen_parser(fen) {
            Ok(board) => board,
            Err(_) => Board::default(),
        }
    }
}

/// A piece a list leaves on a square stands on that square.
pub proof fn lemma_piece_at_position(ps: Seq<ChessPiece>, r: int, c: int)
    ensures
        piece_at(ps, r, c) matches Some(p) ==> p.position == (r as u8, c as u8),
    decreases ps.len(),
{
    if ps.len() > 0 {
        lemma_piece_at_position(ps.drop_last(), r, c);
    }
}

/// Every piece of a default board has its position on the board.
pub proof fn lemma_default_board_on_board(b: Board)
    requires
        is_default_board(b),
    ensures
        crate::engine::move_gen::positions_on_board(b.squares),
{
    assert forall|r: int, c: int| 0 <= r < 8 && 0 <= c < 8 && (#[trigger] b.squares[r][c]) is Some implies crate::engine::move_gen::on_board(
        b.squares[r][c]->0.position,
    ) by {
        if let Some(ps) = fen_parser_reads(crate::etc::DEFAULT_FEN@) {
            lemma_piece_at_position(ps, r, c);
        }
    }
}

} // verus!
