use std::collections::HashMap;
use vstd::prelude::*;

use crate::engine::board::{Board, PieceMoves};
use crate::engine::move_gen::{on_board, MoveError};
use crate::engine::piece::{ChessPiece, PieceType, Squares};
use crate::engine::simulate::contains_square;
use crate::engine::uci::file_char;
use crate::text::{decimal, push_decimal, push_str};

verus! {

broadcast use {vstd::array::group_array_axioms, vstd::std_specs::hash::group_hash_axioms};

/// The algebraic name of a square, e.g. `e4`.
pub open spec fn square_name(pos: (u8, u8)) -> Seq<char> {
    seq![file_char(pos.1)] + decimal((8 - pos.0) as nat)
}

/// The SAN letter of a piece kind; a pawn has none.
pub open spec fn piece_letter_of(kind: PieceType) -> Seq<char> {
    match kind {
        PieceType::King => "K"@,
        PieceType::Queen => "Q"@,
        PieceType::Rook => "R"@,
        PieceType::Bishop => "B"@,
        PieceType::Knight => "N"@,
        PieceType::Pawn => ""@,
    }
}

/// The SAN letter of a promotion piece; a king or pawn is written as a queen.
pub open spec fn promotion_letter(p: PieceType) -> Seq<char> {
    match p {
        PieceType::Queen => "Q"@,
        PieceType::Rook => "R"@,
        PieceType::Bishop => "B"@,
        PieceType::Knight => "N"@,
        _ => "Q"@,
    }
}

/// The cache entry for `id` lists `to` among its quiet moves or captures.
pub open spec fn cached_reach(cache: Map<u32, PieceMoves>, id: u32, to: (u8, u8)) -> bool {
    cache.contains_key(id) && (cache[id].quiet_moves@.contains(to)
        || cache[id].capture_moves@.contains(to))
}

/// The square `(r, c)` other than `from` holds a piece of the same kind and
/// colour as `moving` whose cache entry reaches `to`.
pub open spec fn rival_at(
    b: Squares,
    cache: Map<u32, PieceMoves>,
    moving: ChessPiece,
    from: (u8, u8),
    to: (u8, u8),
    r: int,
    c: int,
) -> bool {
    &&& !(r == from.0 && c == from.1)
    &&& b[r][c] is Some
    &&& b[r][c]->0.kind == moving.kind
    &&& b[r][c]->0.color == moving.color
    &&& cached_reach(cache, b[r][c]->0.id, to)
}

/// The number of rivals among the first `k` flat squares.
pub open spec fn rival_count(
    b: Squares,
    cache: Map<u32, PieceMoves>,
    moving: ChessPiece,
    from: (u8, u8),
    to: (u8, u8),
    k: int,
) -> nat
    decreases k,
{
    if k <= 0 {
        0
    } else {
        rival_count(b, cache, moving, from, to, k - 1) + if rival_at(
            b,
            cache,
            moving,
            from,
            to,
            (k - 1) / 8,
            (k - 1) % 8,
        ) {
            1nat
        } else {
            0nat
        }
    }
}

/// Some rival stands on the file of `from` among the first `k` flat squares.
pub open spec fn rival_on_file(
    b: Squares,
    cache: Map<u32, PieceMoves>,
    moving: ChessPiece,
    from: (u8, u8),
    to: (u8, u8),
    k: int,
) -> bool
    decreases k,
{
    if k <= 0 {
        false
    } else {
        rival_on_file(b, cache, moving, from, to, k - 1) || (rival_at(
            b,
            cache,
            moving,
            from,
            to,
            (k - 1) / 8,
            (k - 1) % 8,
        ) && (k - 1) % 8 == from.1)
    }
}

/// What tells the moving piece apart from its rivals: nothing without rivals;
/// with one rival its rank if the rival shares its file, else its file; with
/// more, file and rank.
pub open spec fn disambiguation(
    b: Squares,
    cache: Map<u32, PieceMoves>,
    moving: ChessPiece,
    from: (u8, u8),
    to: (u8, u8),
) -> Seq<char> {
    let n = rival_count(b, cache, moving, from, to, 64);
    if n == 0 {
        seq![]
    } else if n > 1 {
        square_name(from)
    } else if rival_on_file(b, cache, moving, from, to, 64) {
        decimal((8 - from.0) as nat)
    } else {
        seq![file_char(from.1)]
    }
}

/// A rival on a flat square below `k` of the mover's file makes the file
/// search succeed, and a success names such a rival.
proof fn lemma_rival_on_file_witness(
    b: Squares,
    cache: Map<u32, PieceMoves>,
    moving: ChessPiece,
    from: (u8, u8),
    to: (u8, u8),
    k: int,
)
    requires
        0 <= k <= 64,
    ensures
        rival_on_file(b, cache, moving, from, to, k) <==> exists|j: int|
            0 <= j < k && #[trigger] rival_at(b, cache, moving, from, to, j / 8, j % 8) && j % 8 == from.1,
    decreases k,
{
    if k > 0 {
        lemma_rival_on_file_witness(b, cache, moving, from, to, k - 1);
        if rival_on_file(b, cache, moving, from, to, k) {
            if !rival_on_file(b, cache, moving, from, to, k - 1) {
                assert(rival_at(b, cache, moving, from, to, (k - 1) / 8, (k - 1) % 8));
            }
        }
    }
}

/// Each rival below `k` adds one to the count: two rivals at different flat
/// squares make at least two.
proof fn lemma_rival_count_two(
    b: Squares,
    cache: Map<u32, PieceMoves>,
    moving: ChessPiece,
    from: (u8, u8),
    to: (u8, u8),
    j1: int,
    j2: int,
    k: int,
)
    requires
        0 <= j1 < j2 < k <= 64,
        rival_at(b, cache, moving, from, to, j1 / 8, j1 % 8),
        rival_at(b, cache, moving, from, to, j2 / 8, j2 % 8),
    ensures
        rival_count(b, cache, moving, from, to, k) >= 2,
    decreases k,
{
    if k - 1 > j2 {
        lemma_rival_count_two(b, cache, moving, from, to, j1, j2, k - 1);
    } else {
        lemma_rival_count_one(b, cache, moving, from, to, j1, j2);
    }
}

/// A rival below `k` makes the count positive.
proof fn lemma_rival_count_one(
    b: Squares,
    cache: Map<u32, PieceMoves>,
    moving: ChessPiece,
    from: (u8, u8),
    to: (u8, u8),
    j: int,
    k: int,
)
    requires
        0 <= j < k <= 64,
        rival_at(b, cache, moving, from, to, j / 8, j % 8),
    ensures
        rival_count(b, cache, moving, from, to, k) >= 1,
    decreases k,
{
    if k - 1 > j {
        lemma_rival_count_one(b, cache, moving, from, to, j, k - 1);
    }
}

/// With exactly one rival that also reaches the target, the moving piece is
/// told apart by its file letter when the rival stands on another file, and
/// by its rank digit when the rival stands on the same file.
pub proof fn lemma_one_rival_disambiguation(
    b: Squares,
    cache: Map<u32, PieceMoves>,
    moving: ChessPiece,
    from: (u8, u8),
    to: (u8, u8),
    rr: int,
    rc: int,
)
    requires
        0 <= rr < 8,
        0 <= rc < 8,
        rival_at(b, cache, moving, from, to, rr, rc),
        rival_count(b, cache, moving, from, to, 64) == 1,
    ensures
        rc != from.1 ==> disambiguation(b, cache, moving, from, to) == seq![file_char(from.1)],
        rc == from.1 ==> disambiguation(b, cache, moving, from, to) == decimal((8 - from.0) as nat),
{
    let jr = rr * 8 + rc;
    assert(jr / 8 == rr && jr % 8 == rc);
    lemma_rival_on_file_witness(b, cache, moving, from, to, 64);
    if rc == from.1 {
        assert(rival_at(b, cache, moving, from, to, jr / 8, jr % 8));
    } else if rival_on_file(b, cache, moving, from, to, 64) {
        let j = choose|j: int|
            0 <= j < 64 && #[trigger] rival_at(b, cache, moving, from, to, j / 8, j % 8) && j % 8 == from.1;
        assert(j != jr);
        if j < jr {
            lemma_rival_count_two(b, cache, moving, from, to, j, jr, 64);
        } else {
            lemma_rival_count_two(b, cache, moving, from, to, jr, j, 64);
        }
    }
}

/// The SAN the original computes for a move from `from` to `to`, using the
/// move cache to find rivals: castling for a king moving two files right, or
/// from file e to file c; pawn moves as `e4`, `exd5`, `e8=Q`; other pieces as
/// letter, disambiguation, `x` when capturing, target and promotion suffix.
pub open spec fn san_of(
    b: Squares,
    cache: Map<u32, PieceMoves>,
    from: (u8, u8),
    to: (u8, u8),
    promotion: Option<PieceType>,
    is_capture: bool,
) -> Result<Seq<char>, MoveError> {
    match b[from.0 as int][from.1 as int] {
        None => Err(MoveError::IllegalMove),
        Some(moving) => {
            let suffix = match promotion {
                Some(p) => "="@ + promotion_letter(p),
                None => seq![],
            };
            if moving.kind == PieceType::King && from.1 + 2 == to.1 {
                Ok("O-O"@)
            } else if moving.kind == PieceType::King && from.1 == 4 && to.1 == 2 {
                Ok("O-O-O"@)
            } else if moving.kind == PieceType::Pawn {
                if is_capture {
                    Ok(seq![file_char(from.1), 'x'] + square_name(to) + suffix)
                } else {
                    Ok(square_name(to) + suffix)
                }
            } else {
                Ok(piece_letter_of(moving.kind) + disambiguation(b, cache, moving, from, to) + (
                if is_capture {
                    "x"@
                } else {
                    ""@
                }) + square_name(to) + suffix)
            }
        },
    }
}

impl Board {
    /// Reserved for writing a move in SAN from its squares; it does nothing yet.
    pub fn encode_san_move(&self, from: (u8, u8), to: (u8, u8), promotion: Option<PieceType>) {
    }

    /// The algebraic name of a square, e.g. `e4`.
    pub fn coord_to_sq(pos: (u8, u8)) -> (s: String)
        requires
            on_board(pos),
        ensures
            s@ == square_name(pos),
    {
        let mut s = String::new();
        s.push((('a' as u8) + pos.1) as char);
        push_decimal(&mut s, (8 - pos.0) as u64);
        s
    }

    /// The SAN letter of a piece kind; a pawn has none.
    pub fn piece_letter(kind: &PieceType) -> (s: &'static str)
        ensures
            s@ == piece_letter_of(*kind),
    {
        proof {
            reveal_strlit("K");
            reveal_strlit("Q");
            reveal_strlit("R");
            reveal_strlit("B");
            reveal_strlit("N");
            reveal_strlit("");
        }
        match kind {
            PieceType::King => "K",
            PieceType::Queen => "Q",
            PieceType::Rook => "R",
            PieceType::Bishop => "B",
            PieceType::Knight => "N",
            PieceType::Pawn => "",
        }
    }

    /// Whether the cache entry for `id` reaches `to`.
    pub(crate) fn cache_reaches(cache: &HashMap<u32, PieceMoves>, id: u32, to: (u8, u8)) -> (reach: bool)
        ensures
            reach == cached_reach(cache@, id, to),
    {
        match cache.get(&id) {
            Some(pms) => contains_square(&pms.quiet_moves, to) || contains_square(
                &pms.capture_moves,
                to,
            ),
            None => false,
        }
    }

    /// The SAN of a move from `from` to `to` on this (pre-move) board.
    pub fn compute_san_for_move(
        &self,
        from: (u8, u8),
        to: (u8, u8),
        promotion: Option<PieceType>,
        is_capture: bool,
    ) -> (san: Result<String, MoveError>)
        requires
            on_board(from),
            on_board(to),
        ensures
            match (san, san_of(self.squares, self.move_cache@, from, to, promotion, is_capture)) {
                (Ok(s), Ok(t)) => s@ == t,
                (Err(e), Err(f)) => e == f,
                _ => false,
            },
    {
        proof {
            reveal_strlit("O-O");
            reveal_strlit("O-O-O");
            reveal_strlit("=");
            reveal_strlit("x");
            reveal_strlit("");
        }
        let moving = match &self.squares[from.0 as usize][from.1 as usize] {
            Some(p) => *p,
            None => return Err(MoveError::IllegalMove),
        };
        if moving.kind == PieceType::King {
            if from.1 + 2 == to.1 {
                return Ok(String::from_str("O-O"));
            }
            if from.1 == 4 && to.1 == 2 {
                return Ok(String::from_str("O-O-O"));
            }
        }
        let mut san = String::new();
        if moving.kind == PieceType::Pawn {
            if is_capture {
                san.push((('a' as u8) + from.1) as char);
                san.push('x');
            }
        } else {
            push_str(&mut san, Board::piece_letter(&moving.kind));
            let ghost prefix = san@;
            // rivals: other pieces of the same kind and colour that reach `to`
            let mut count: usize = 0;
            let mut same_file_exists = false;
            let mut k: usize = 0;
            while k < 64
                invariant
                    k <= 64,
                    count <= k,
                    count == rival_count(self.squares, self.move_cache@, moving, from, to, k as int),
                    same_file_exists == rival_on_file(
                        self.squares,
                        self.move_cache@,
                        moving,
                        from,
                        to,
                        k as int,
                    ),
                decreases 64 - k,
            {
                let r = k / 8;
                let c = k % 8;
                let mut rival = false;
                if !(r == from.0 as usize && c == from.1 as usize) {
                    if let Some(piece) = &self.squares[r][c] {
                        if piece.kind == moving.kind && piece.color == moving.color {
                            rival = Board::cache_reaches(&self.move_cache, piece.id, to);
                        }
                    }
                }
                assert(rival == rival_at(
                    self.squares,
                    self.move_cache@,
                    moving,
                    from,
                    to,
                    r as int,
                    c as int,
                ));
                if rival {
                    count += 1;
                    if c == from.1 as usize {
                        same_file_exists = true;
                    }
                }
                k += 1;
            }
            if count > 1 {
                san.push((('a' as u8) + from.1) as char);
                push_decimal(&mut san, (8 - from.0) as u64);
            } else if count == 1 {
                if same_file_exists {
                    push_decimal(&mut san, (8 - from.0) as u64);
                } else {
                    san.push((('a' as u8) + from.1) as char);
                }
            }
            assert(san@ == prefix + disambiguation(self.squares, self.move_cache@, moving, from, to));
            if is_capture {
                san.push('x');
            }
        }
        let dest = Board::coord_to_sq(to);
        push_str(&mut san, dest.as_str());
        match promotion {
            Some(prom) => {
                san.push('=');
                let letter = match prom {
                    PieceType::Queen => 'Q',
                    PieceType::Rook => 'R',
                    PieceType::Bishop => 'B',
                    PieceType::Knight => 'N',
                    _ => 'Q',
                };
                san.push(letter);
                proof {
                    reveal_strlit("Q");
                    reveal_strlit("R");
                    reveal_strlit("B");
                    reveal_strlit("N");
                }
            },
            None => {},
        }
        Ok(san)
    }
}

} // verus!
