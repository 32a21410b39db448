use std::collections::HashMap;
use vstd::prelude::*;

use crate::engine::board::{Board, PieceMoves};
use crate::engine::move_gen::{cache_refreshed, positions_on_board, MoveError};
use crate::engine::piece::{PieceColor, PieceType, Squares};
use crate::engine::san::cached_reach;
use crate::engine::uci::{decode_uci, encode_uci};
use crate::text::{
    byte_len, chars_of, digit_value, is_digit, lemma_byte_len_bounds, str_eq, trim, trim_chars,
    utf8_len, utf8_len_of,
};

verus! {

broadcast use {vstd::array::group_array_axioms, vstd::std_specs::hash::group_hash_axioms};

/// A mark a SAN token may end with: check, mate, `!` or `?`.
pub open spec fn is_annotation(c: char) -> bool {
    c == '+' || c == '#' || c == '!' || c == '?'
}

/// `s` without its trailing annotation marks.
pub open spec fn strip_annotations(s: Seq<char>) -> Seq<char>
    decreases s.len(),
{
    if s.len() > 0 && is_annotation(s.last()) {
        strip_annotations(s.drop_last())
    } else {
        s
    }
}

/// A SAN token trimmed of white space, then of its trailing annotation marks.
pub open spec fn normalized_san(s: Seq<char>) -> Seq<char> {
    strip_annotations(trim(s))
}

/// The piece a promotion letter names, in either case.
pub open spec fn promotion_of_letter(c: char) -> Option<PieceType> {
    if c == 'Q' || c == 'q' {
        Some(PieceType::Queen)
    } else if c == 'R' || c == 'r' {
        Some(PieceType::Rook)
    } else if c == 'B' || c == 'b' {
        Some(PieceType::Bishop)
    } else if c == 'N' || c == 'n' {
        Some(PieceType::Knight)
    } else {
        None
    }
}

/// A token split at a promotion suffix `=X`: the token without it and the
/// piece, or the token unchanged when it has none; an error for `=` followed
/// by a letter that names no promotion piece. The suffix is looked for in the
/// last two bytes of the token: `None` when they do not start on a character
/// boundary (such a token cannot be split there).
pub open spec fn promotion_split(s: Seq<char>) -> Option<Result<(Seq<char>, Option<PieceType>), MoveError>> {
    let n = s.len();
    if byte_len(s) < 2 {
        Some(Ok((s, None)))
    } else if utf8_len(s.last()) >= 3 || (utf8_len(s.last()) == 1 && utf8_len(s[n - 2]) >= 2) {
        None
    } else if utf8_len(s.last()) == 1 && s[n - 2] == '=' {
        match promotion_of_letter(s.last()) {
            Some(k) => Some(Ok((s.take(n - 2), Some(k)))),
            None => Some(Err(MoveError::IllegalMove)),
        }
    } else {
        Some(Ok((s, None)))
    }
}

/// The square a coordinate such as `e4` names once trimmed of white space, or
/// an error for a file outside `a`-`h` or a rank outside `1`-`8`. `None` when
/// fewer than two bytes remain (no coordinate can be read).
pub open spec fn square_of(s: Seq<char>) -> Option<Result<(u8, u8), MoveError>> {
    let t = trim(s);
    if byte_len(t) < 2 {
        None
    } else if 'a' <= t[0] <= 'h' && '1' <= t[1] <= '8' {
        Some(Ok(((8 - digit_value(t[1])) as u8, (t[0] as u32 - 'a' as u32) as u8)))
    } else {
        Some(Err(MoveError::IllegalMove))
    }
}

/// The piece kind a SAN piece letter names.
pub open spec fn san_kind(c: char) -> Option<PieceType> {
    if c == 'Q' {
        Some(PieceType::Queen)
    } else if c == 'R' {
        Some(PieceType::Rook)
    } else if c == 'B' {
        Some(PieceType::Bishop)
    } else if c == 'N' {
        Some(PieceType::Knight)
    } else if c == 'K' {
        Some(PieceType::King)
    } else {
        None
    }
}

/// The first square in reading order, from flat index `n` on, that meets
/// `pred`.
pub open spec fn first_square_from(pred: spec_fn(int, int) -> bool, n: int) -> Option<(u8, u8)>
    decreases 64 - n,
{
    if n >= 64 {
        None
    } else if pred(n / 8, n % 8) {
        Some(((n / 8) as u8, (n % 8) as u8))
    } else {
        first_square_from(pred, n + 1)
    }
}

/// The first square in reading order that meets `pred`.
pub open spec fn first_square(pred: spec_fn(int, int) -> bool) -> Option<(u8, u8)> {
    first_square_from(pred, 0)
}

/// The cache entry for `id` lists `dest` among its captures when `capture`,
/// else among its quiet moves.
pub open spec fn cached_target(cache: Map<u32, PieceMoves>, id: u32, dest: (u8, u8), capture: bool) -> bool {
    cache.contains_key(id) && if capture {
        cache[id].capture_moves@.contains(dest)
    } else {
        cache[id].quiet_moves@.contains(dest)
    }
}

/// A pawn of the side to move whose cache entry reaches `dest`.
pub open spec fn pawn_reaching(b: Squares, turn: PieceColor, cache: Map<u32, PieceMoves>, dest: (u8, u8)) -> spec_fn(
    int,
    int,
) -> bool {
    |i: int, j: int|
        b[i][j] matches Some(p) && p.kind == PieceType::Pawn && p.color == turn && cached_reach(
            cache,
            p.id,
            dest,
        )
}

/// A pawn of the side to move on file `file` whose cache entry reaches `dest`
/// (as a capture when `capture`, else as a quiet move).
pub open spec fn pawn_from_file(
    b: Squares,
    turn: PieceColor,
    cache: Map<u32, PieceMoves>,
    file: int,
    dest: (u8, u8),
    capture: bool,
) -> spec_fn(int, int) -> bool {
    |i: int, j: int|
        b[i][j] matches Some(p) && p.kind == PieceType::Pawn && p.color == turn && j == file
            && cached_target(cache, p.id, dest, capture)
}

/// A piece of kind `kind` of the side to move whose cache entry reaches
/// `dest` (as a capture when `capture`, else as a quiet move).
pub open spec fn piece_reaching(
    b: Squares,
    turn: PieceColor,
    cache: Map<u32, PieceMoves>,
    kind: PieceType,
    dest: (u8, u8),
    capture: bool,
) -> spec_fn(int, int) -> bool {
    |i: int, j: int|
        b[i][j] matches Some(p) && p.kind == kind && p.color == turn && cached_target(
            cache,
            p.id,
            dest,
            capture,
        )
}

/// The square `(i, j)` fits the disambiguation of a four- or five-character
/// token: for four, its second character as a rank (a digit) or a file
/// (`a`-`h`); for five, the second as a file (by its low byte) and the third
/// as a rank digit.
pub open spec fn disambiguates(cs: Seq<char>, i: int, j: int) -> bool {
    if cs.len() == 4 {
        let c = cs[1];
        if is_digit(c) {
            8 - digit_value(c) == i
        } else if 'a' <= c <= 'h' {
            c as u32 - 'a' as u32 == j
        } else {
            false
        }
    } else if cs.len() == 5 {
        (cs[1] as u32) % 256 - 97 == j && is_digit(cs[2]) && 8 - digit_value(cs[2]) == i
    } else {
        false
    }
}

/// A piece of kind `kind`, of either colour, on a square the token singles
/// out, whose cache entry reaches `dest`.
pub open spec fn piece_disambiguated(
    b: Squares,
    cache: Map<u32, PieceMoves>,
    cs: Seq<char>,
    kind: PieceType,
    dest: (u8, u8),
    capture: bool,
) -> spec_fn(int, int) -> bool {
    |i: int, j: int|
        b[i][j] matches Some(p) && disambiguates(cs, i, j) && p.kind == kind && cached_target(
            cache,
            p.id,
            dest,
            capture,
        )
}

/// Some square holds a piece.
pub open spec fn board_occupied(b: Squares) -> bool {
    exists|r: int, c: int| 0 <= r < 8 && 0 <= c < 8 && (#[trigger] b[r][c]) is Some
}

/// The move a token with disambiguation names: a piece letter, then file or
/// rank (or both), then the destination; the first matching piece in reading
/// order moves.
pub open spec fn san_disambiguated(
    b: Squares,
    cache: Map<u32, PieceMoves>,
    cs: Seq<char>,
    capture: bool,
    promo: Option<PieceType>,
) -> Result<Seq<char>, MoveError> {
    match square_of(cs.subrange(cs.len() - 2, cs.len() as int)) {
        Some(Ok(dest)) => match san_kind(cs[0]) {
            Some(kind) => match first_square(piece_disambiguated(b, cache, cs, kind, dest, capture)) {
                Some(from) => Ok(encode_uci(b, from, dest, promo)),
                None => Err(MoveError::IllegalMove),
            },
            None => Err(MoveError::IllegalMove),
        },
        _ => Err(MoveError::IllegalMove),
    }
}

/// The move a token without `x` and promotion names: two characters for a
/// pawn move to that square, three for a pawn move from a file or a piece
/// move, more with disambiguation; a token of two or three characters that
/// names no such move is read again as one with disambiguation.
pub open spec fn san_search(
    b: Squares,
    turn: PieceColor,
    cache: Map<u32, PieceMoves>,
    cs: Seq<char>,
    capture: bool,
    promo: Option<PieceType>,
) -> Result<Seq<char>, MoveError> {
    if cs.len() == 2 {
        match square_of(cs) {
            Some(Ok(dest)) => match first_square(pawn_reaching(b, turn, cache, dest)) {
                Some(from) => Ok(encode_uci(b, from, dest, promo)),
                None => san_disambiguated(b, cache, cs, capture, promo),
            },
            _ => Err(MoveError::IllegalMove),
        }
    } else if cs.len() == 3 {
        match square_of(cs.subrange(1, 3)) {
            Some(Ok(dest)) => if 'a' <= cs[0] <= 'h' {
                match first_square(
                    pawn_from_file(b, turn, cache, cs[0] as u32 - 'a' as u32, dest, capture),
                ) {
                    Some(from) => Ok(encode_uci(b, from, dest, promo)),
                    None => san_disambiguated(b, cache, cs, capture, promo),
                }
            } else {
                match san_kind(cs[0]) {
                    Some(kind) => match first_square(piece_reaching(b, turn, cache, kind, dest, capture)) {
                        Some(from) => Ok(encode_uci(b, from, dest, promo)),
                        None => san_disambiguated(b, cache, cs, capture, promo),
                    },
                    None => if board_occupied(b) {
                        Err(MoveError::IllegalMove)
                    } else {
                        san_disambiguated(b, cache, cs, capture, promo)
                    },
                }
            },
            _ => Err(MoveError::IllegalMove),
        }
    } else {
        san_disambiguated(b, cache, cs, capture, promo)
    }
}

/// The token without its `x` marks.
pub open spec fn without_x(s: Seq<char>) -> Seq<char> {
    s.filter(|c: char| c != 'x')
}

/// The UCI of the move a SAN token names on a board with this move cache:
/// castling by `O-O` and `O-O-O` for the side to move; an error for a game
/// result; otherwise the token is normalized, split at its promotion, and a
/// capture is told by an `x`.
pub open spec fn san_to_uci_result(b: Squares, turn: PieceColor, cache: Map<u32, PieceMoves>, san: Seq<char>) -> Result<
    Seq<char>,
    MoveError,
> {
    if san == "O-O"@ {
        Ok(
            if turn == PieceColor::Black {
                "e8g8"@
            } else {
                "e1g1"@
            },
        )
    } else if san == "O-O-O"@ {
        Ok(
            if turn == PieceColor::Black {
                "e8c8"@
            } else {
                "e1c1"@
            },
        )
    } else if san == "*"@ || san == "1-0"@ || san == "0-1"@ || san == "1/2-1/2"@ {
        Err(MoveError::IllegalMove)
    } else {
        match promotion_split(normalized_san(san)) {
            Some(Ok((n, promo))) => san_search(b, turn, cache, without_x(n), n.contains('x'), promo),
            _ => Err(MoveError::IllegalMove),
        }
    }
}

/// A SAN token can be read on a board: a castle or a result, or a token whose
/// promotion can be split off and, unless that is refused, that keeps at
/// least two characters without its `x` marks ending in a readable
/// coordinate; a five-character token naming a piece on an occupied board
/// must give a file byte from `a` on and no rank digit 9.
pub open spec fn san_to_uci_defined(b: Squares, san: Seq<char>) -> bool {
    if san == "O-O"@ || san == "O-O-O"@ || san == "*"@ || san == "1-0"@ || san == "0-1"@ || san
        == "1/2-1/2"@ {
        true
    } else {
        match promotion_split(normalized_san(san)) {
            None => false,
            Some(Err(_)) => true,
            Some(Ok((n, _))) => {
                let cs = without_x(n);
                &&& cs.len() >= 2
                &&& square_of(cs.subrange(cs.len() - 2, cs.len() as int)) is Some
                &&& !(cs.len() == 5 && (square_of(cs.subrange(3, 5)) matches Some(Ok(_))) && san_kind(cs[0])
                    is Some && board_occupied(b) && ((cs[1] as u32) % 256 < 97 || cs[2] == '9'))
            },
        }
    }
}

/// The squares a search for the moving piece looks for.
#[derive(Clone, Copy)]
enum SquareQuery {
    PawnReaching,
    PawnFromFile(u8),
    PieceReaching(PieceType),
    PieceDisambiguated(PieceType),
}

/// The condition a search puts on a square.
spec fn query_pred(
    b: Squares,
    turn: PieceColor,
    cache: Map<u32, PieceMoves>,
    cs: Seq<char>,
    q: SquareQuery,
    dest: (u8, u8),
    capture: bool,
) -> spec_fn(int, int) -> bool {
    match q {
        SquareQuery::PawnReaching => pawn_reaching(b, turn, cache, dest),
        SquareQuery::PawnFromFile(f) => pawn_from_file(b, turn, cache, f as int, dest, capture),
        SquareQuery::PieceReaching(k) => piece_reaching(b, turn, cache, k, dest, capture),
        SquareQuery::PieceDisambiguated(k) => piece_disambiguated(b, cache, cs, k, dest, capture),
    }
}

/// A token trimmed of white space and of its trailing annotation marks.
fn normalize_san_token(s: &str) -> (t: Vec<char>)
    ensures
        t@ == normalized_san(s@),
{
    let mut t = trim_chars(&chars_of(s));
    while t.len() > 0 && (t[t.len() - 1] == '+' || t[t.len() - 1] == '#' || t[t.len() - 1] == '!'
        || t[t.len() - 1] == '?')
        invariant
            strip_annotations(t@) == normalized_san(s@),
        decreases t.len(),
    {
        t.pop();
    }
    t
}

/// On at most one character, the number of bytes is below two exactly when
/// the token is empty or a single one-byte character.
proof fn lemma_short_bytes(s: Seq<char>)
    ensures
        (byte_len(s) < 2) == (s.len() == 0 || (s.len() == 1 && utf8_len(s[0]) == 1)),
{
    lemma_byte_len_bounds(s);
    if s.len() == 1 {
        assert(s.drop_last() =~= Seq::<char>::empty());
        assert(byte_len(s.drop_last()) == 0);
    }
}

/// Splits a promotion suffix `=X` off a token.
fn consume_promotion(san: Vec<char>) -> (r: Result<(Vec<char>, Option<PieceType>), MoveError>)
    requires
        promotion_split(san@) is Some,
    ensures
        match promotion_split(san@) {
            Some(Ok((n, p))) => r matches Ok((v, q)) && v@ == n && q == p,
            Some(Err(e)) => r == Err::<(Vec<char>, Option<PieceType>), MoveError>(e),
            None => false,
        },
{
    proof {
        lemma_short_bytes(san@);
    }
    let n = san.len();
    if n == 0 || (n == 1 && utf8_len_of(san[0]) == 1) {
        return Ok((san, None));
    }
    if n == 1 {
        assert(san@.last() == san@[0]);
        return Ok((san, None));
    }
    let last = san[n - 1];
    if utf8_len_of(last) == 1 && san[n - 2] == '=' {
        let piece_type = match last {
            'Q' | 'q' => PieceType::Queen,
            'R' | 'r' => PieceType::Rook,
            'B' | 'b' => PieceType::Bishop,
            'N' | 'n' => PieceType::Knight,
            _ => {
                return Err(MoveError::IllegalMove);
            },
        };
        let mut normalized = san;
        normalized.pop();
        normalized.pop();
        assert(normalized@ == san@.take(n - 2));
        return Ok((normalized, Some(piece_type)));
    }
    Ok((san, None))
}

/// The square a coordinate such as `e4` names.
fn sq_to_coord(sq: &Vec<char>) -> (r: Result<(u8, u8), MoveError>)
    requires
        square_of(sq@) is Some,
    ensures
        r == square_of(sq@).unwrap(),
{
    let t = trim_chars(sq);
    proof {
        lemma_short_bytes(t@);
    }
    let file = t[0];
    if !('a' <= file && file <= 'h') {
        return Err(MoveError::IllegalMove);
    }
    let rank = t[1];
    if !('1' <= rank && rank <= '8') {
        return Err(MoveError::IllegalMove);
    }
    Ok(((8 - (rank as u32 - '0' as u32)) as u8, (file as u32 - 'a' as u32) as u8))
}

/// The piece kind a SAN piece letter names.
fn san_kind_of(c: char) -> (k: Option<PieceType>)
    ensures
        k == san_kind(c),
{
    match c {
        'Q' => Some(PieceType::Queen),
        'R' => Some(PieceType::Rook),
        'B' => Some(PieceType::Bishop),
        'N' => Some(PieceType::Knight),
        'K' => Some(PieceType::King),
        _ => None,
    }
}

/// Whether square `(i, j)` fits the disambiguation of the token.
fn disambiguates_square(cs: &Vec<char>, i: u8, j: u8) -> (fits: bool)
    ensures
        fits == disambiguates(cs@, i as int, j as int),
{
    if cs.len() == 4 {
        let c = cs[1];
        if '0' <= c && c <= '9' {
            let d = c as u32 - '0' as u32;
            d <= 8 && 8 - d == i as u32
        } else if 'a' <= c && c <= 'h' {
            c as u32 - 'a' as u32 == j as u32
        } else {
            false
        }
    } else if cs.len() == 5 {
        let v = (cs[1] as u32) % 256;
        let c = cs[2];
        v >= 97 && v - 97 == j as u32 && '0' <= c && c <= '9' && (c as u32 - '0' as u32) <= 8 && 8 - (
        c as u32 - '0' as u32) == i as u32
    } else {
        false
    }
}

/// The token without its `x` marks.
fn remove_x(s: &Vec<char>) -> (t: Vec<char>)
    ensures
        t@ == without_x(s@),
{
    let mut t: Vec<char> = Vec::new();
    let mut k: usize = 0;
    while k < s.len()
        invariant
            k <= s.len(),
            t@ == s@.take(k as int).filter(|c: char| c != 'x'),
        decreases s.len() - k,
    {
        proof {
            assert(s@.take(k + 1).drop_last() == s@.take(k as int));
            reveal(Seq::filter);
        }
        if s[k] != 'x' {
            t.push(s[k]);
        }
        k += 1;
    }
    assert(s@.take(s@.len() as int) == s@);
    t
}

/// Whether `s` holds an `x`.
fn has_x(s: &Vec<char>) -> (found: bool)
    ensures
        found == s@.contains('x'),
{
    let mut k: usize = 0;
    while k < s.len()
        invariant
            k <= s.len(),
            forall|m: int| 0 <= m < k ==> s@[m] != 'x',
        decreases s.len() - k,
    {
        if s[k] == 'x' {
            return true;
        }
        k += 1;
    }
    false
}

impl Board {
    /// Whether the cache entry for `id` lists `dest` among its captures
    /// (when `capture`) or quiet moves.
    fn cache_targets(cache: &HashMap<u32, PieceMoves>, id: u32, dest: (u8, u8), capture: bool) -> (t: bool)
        ensures
            t == cached_target(cache@, id, dest, capture),
    {
        match cache.get(&id) {
            Some(pms) => if capture {
                crate::engine::simulate::contains_square(&pms.capture_moves, dest)
            } else {
                crate::engine::simulate::contains_square(&pms.quiet_moves, dest)
            },
            None => false,
        }
    }

    /// Whether square `(i, j)` meets the condition of a search.
    fn square_matches(&self, cs: &Vec<char>, q: SquareQuery, dest: (u8, u8), capture: bool, i: u8, j: u8) -> (m: bool)
        requires
            i < 8,
            j < 8,
        ensures
            m == query_pred(self.squares, self.turn, self.move_cache@, cs@, q, dest, capture)(i as int, j as int),
    {
        match &self.squares[i as usize][j as usize] {
            None => false,
            Some(p) => match q {
                SquareQuery::PawnReaching => p.kind == PieceType::Pawn && p.color == self.turn
                    && Board::cache_reaches(&self.move_cache, p.id, dest),
                SquareQuery::PawnFromFile(f) => p.kind == PieceType::Pawn && p.color == self.turn && j
                    == f && Board::cache_targets(&self.move_cache, p.id, dest, capture),
                SquareQuery::PieceReaching(k) => p.kind == k && p.color == self.turn
                    && Board::cache_targets(&self.move_cache, p.id, dest, capture),
                SquareQuery::PieceDisambiguated(k) => disambiguates_square(cs, i, j) && p.kind == k
                    && Board::cache_targets(&self.move_cache, p.id, dest, capture),
            },
        }
    }

    /// The first square in reading order that meets the condition of a
    /// search.
    fn find_first(&self, cs: &Vec<char>, q: SquareQuery, dest: (u8, u8), capture: bool) -> (found: Option<(u8, u8)>)
        ensures
            found == first_square(query_pred(self.squares, self.turn, self.move_cache@, cs@, q, dest, capture)),
            found matches Some(f) ==> f.0 < 8 && f.1 < 8,
    {
        let ghost pred = query_pred(self.squares, self.turn, self.move_cache@, cs@, q, dest, capture);
        let mut n: usize = 0;
        while n < 64
            invariant
                n <= 64,
                pred == query_pred(self.squares, self.turn, self.move_cache@, cs@, q, dest, capture),
                first_square(pred) == first_square_from(pred, n as int),
            decreases 64 - n,
        {
            let i = (n / 8) as u8;
            let j = (n % 8) as u8;
            if self.square_matches(cs, q, dest, capture, i, j) {
                return Some((i, j));
            }
            n += 1;
        }
        None
    }

    /// Whether some square holds a piece.
    fn board_occupied(&self) -> (o: bool)
        ensures
            o == board_occupied(self.squares),
    {
        let mut n: usize = 0;
        while n < 64
            invariant
                n <= 64,
                forall|m: int| 0 <= m < n ==> (#[trigger] self.squares[m / 8][m % 8]) is None,
            decreases 64 - n,
        {
            if self.squares[n / 8][n % 8].is_some() {
                return true;
            }
            n += 1;
        }
        assert forall|r: int, c: int| 0 <= r < 8 && 0 <= c < 8 implies (#[trigger] self.squares[r][c]) is None by {
            assert(self.squares[(r * 8 + c) / 8][(r * 8 + c) % 8] is None);
        }
        false
    }

    /// The UCI of the move a SAN token names, after refreshing the move cache:
    /// `O-O` and `O-O-O` castle for the side to move; a game result is
    /// refused; otherwise the token is normalized, its promotion split off, a
    /// capture told by an `x`, and the moving piece searched for in reading
    /// order as `san_to_uci_result` says.
    pub fn san_to_uci(&mut self, san: &str) -> (res: Result<String, MoveError>)
        requires
            positions_on_board(old(self).squares),
            san_to_uci_defined(old(self).squares, san@),
        ensures
            cache_refreshed(
                old(self).move_cache@,
                final(self).move_cache@,
                old(self).squares,
                old(self).en_passant_target,
                64,
            ),
            *final(self) == (Board { move_cache: final(self).move_cache, ..*old(self) }),
            match san_to_uci_result(final(self).squares, final(self).turn, final(self).move_cache@, san@) {
                Ok(u) => res matches Ok(s) && s@ == u,
                Err(e) => res == Err::<String, MoveError>(e),
            },
    {
        self.rerender_move_cache();
        if str_eq(san, "O-O") {
            return Ok(
                match self.turn {
                    PieceColor::Black => String::from_str("e8g8"),
                    PieceColor::White => String::from_str("e1g1"),
                },
            );
        }
        if str_eq(san, "O-O-O") {
            return Ok(
                match self.turn {
                    PieceColor::Black => String::from_str("e8c8"),
                    PieceColor::White => String::from_str("e1c1"),
                },
            );
        }
        if str_eq(san, "*") || str_eq(san, "1-0") || str_eq(san, "0-1") || str_eq(san, "1/2-1/2") {
            return Err(MoveError::IllegalMove);
        }
        let normalized_san = normalize_san_token(san);
        let (normalized_san, promotion) = match consume_promotion(normalized_san) {
            Ok(res) => res,
            Err(_) => {
                return Err(MoveError::IllegalMove);
            },
        };
        let is_capture = has_x(&normalized_san);
        let san_chars = remove_x(&normalized_san);
        let ghost cs = san_chars@;
        if san_chars.len() == 2 {
            assert(cs.subrange(cs.len() - 2, cs.len() as int) == cs);
            let dest = match sq_to_coord(&san_chars) {
                Ok(d) => d,
                Err(_) => {
                    return Err(MoveError::IllegalMove);
                },
            };
            if let Some(from) = self.find_first(&san_chars, SquareQuery::PawnReaching, dest, is_capture) {
                return Ok(self.encode_uci_move(from, dest, promotion));
            }
        }
        if san_chars.len() == 3 {
            let dest_chars = vec![san_chars[1], san_chars[2]];
            assert(dest_chars@ == cs.subrange(1, 3));
            let dest = match sq_to_coord(&dest_chars) {
                Ok(d) => d,
                Err(_) => {
                    return Err(MoveError::IllegalMove);
                },
            };
            let first = san_chars[0];
            if 'a' <= first && first <= 'h' {
                let file = (first as u32 - 'a' as u32) as u8;
                if let Some(from) = self.find_first(
                    &san_chars,
                    SquareQuery::PawnFromFile(file),
                    dest,
                    is_capture,
                ) {
                    return Ok(self.encode_uci_move(from, dest, promotion));
                }
            } else {
                match san_kind_of(first) {
                    Some(kind) => {
                        if let Some(from) = self.find_first(
                            &san_chars,
                            SquareQuery::PieceReaching(kind),
                            dest,
                            is_capture,
                        ) {
                            return Ok(self.encode_uci_move(from, dest, promotion));
                        }
                    },
                    None => {
                        if self.board_occupied() {
                            return Err(MoveError::IllegalMove);
                        }
                    },
                }
            }
        }
        let san_len = san_chars.len();
        let dest_chars = vec![san_chars[san_len - 2], san_chars[san_len - 1]];
        assert(dest_chars@ == cs.subrange(cs.len() - 2, cs.len() as int));
        let dest = match sq_to_coord(&dest_chars) {
            Ok(d) => d,
            Err(_) => {
                return Err(MoveError::IllegalMove);
            },
        };
        let kind = match san_kind_of(san_chars[0]) {
            Some(k) => k,
            None => {
                return Err(MoveError::IllegalMove);
            },
        };
        match self.find_first(&san_chars, SquareQuery::PieceDisambiguated(kind), dest, is_capture) {
            Some(from) => Ok(self.encode_uci_move(from, dest, promotion)),
            None => Err(MoveError::IllegalMove),
        }
    }

    /// Whether `san_to_uci` can read the token on this board
    /// (`san_to_uci_defined`).
    pub fn san_readable(&self, san: &str) -> (ok: bool)
        ensures
            ok == san_to_uci_defined(self.squares, san@),
    {
        if str_eq(san, "O-O") || str_eq(san, "O-O-O") || str_eq(san, "*") || str_eq(san, "1-0")
            || str_eq(san, "0-1") || str_eq(san, "1/2-1/2") {
            return true;
        }
        let normalized_san = normalize_san_token(san);
        if !promotion_splittable(&normalized_san) {
            return false;
        }
        let (normalized_san, _) = match consume_promotion(normalized_san) {
            Ok(res) => res,
            Err(_) => {
                return true;
            },
        };
        let san_chars = remove_x(&normalized_san);
        let ghost cs = san_chars@;
        let san_len = san_chars.len();
        if san_len < 2 {
            return false;
        }
        let dest_chars = vec![san_chars[san_len - 2], san_chars[san_len - 1]];
        assert(dest_chars@ == cs.subrange(cs.len() - 2, cs.len() as int));
        if !coordinate_readable(&dest_chars) {
            return false;
        }
        if san_len == 5 {
            assert(cs.subrange(3, 5) == dest_chars@);
            let dest_ok = sq_to_coord(&dest_chars).is_ok();
            let low = (san_chars[1] as u32) % 256;
            if dest_ok && san_kind_of(san_chars[0]).is_some() && self.board_occupied() && (low < 97
                || san_chars[2] == '9') {
                return false;
            }
        }
        true
    }
}

/// Whether a promotion suffix can be looked for in the token
/// (`promotion_split` gives a result).
fn promotion_splittable(s: &Vec<char>) -> (ok: bool)
    ensures
        ok == promotion_split(s@) is Some,
{
    proof {
        lemma_short_bytes(s@);
    }
    let n = s.len();
    if n == 0 || (n == 1 && utf8_len_of(s[0]) == 1) {
        return true;
    }
    if n == 1 {
        assert(s@.last() == s@[0]);
        return utf8_len_of(s[0]) < 3;
    }
    let last = utf8_len_of(s[n - 1]);
    !(last >= 3 || (last == 1 && utf8_len_of(s[n - 2]) >= 2))
}

/// Whether a coordinate can be read (`square_of` gives a result).
fn coordinate_readable(sq: &Vec<char>) -> (ok: bool)
    ensures
        ok == square_of(sq@) is Some,
{
    let t = trim_chars(sq);
    proof {
        lemma_short_bytes(t@);
    }
    !(t.len() == 0 || (t.len() == 1 && utf8_len_of(t[0]) == 1))
}

/// A square found by a search meets its condition.
pub proof fn lemma_first_square_from(pred: spec_fn(int, int) -> bool, n: int)
    requires
        0 <= n,
    ensures
        first_square_from(pred, n) matches Some(sq) ==> sq.0 < 8 && sq.1 < 8 && pred(
            sq.0 as int,
            sq.1 as int,
        ),
    decreases 64 - n,
{
    if n < 64 && !pred(n / 8, n % 8) {
        lemma_first_square_from(pred, n + 1);
    }
}

/// The piece a SAN token's first character names once its promotion and `x`
/// marks are taken off, if it names one.
pub open spec fn san_letter_kind(san: Seq<char>) -> Option<PieceType> {
    match promotion_split(normalized_san(san)) {
        Some(Ok((n, _))) => {
            let cs = without_x(n);
            if cs.len() > 0 {
                san_kind(cs[0])
            } else {
                None
            }
        },
        _ => None,
    }
}

/// A move found for a token: `from` holds a piece whose cache entry reaches
/// `dest`, a pawn of the side to move or a piece of the kind the token's
/// letter names.
pub open spec fn names_cached_move(
    b: Squares,
    turn: PieceColor,
    cache: Map<u32, PieceMoves>,
    san: Seq<char>,
    from: (u8, u8),
    dest: (u8, u8),
) -> bool {
    &&& from.0 < 8 && from.1 < 8 && dest.0 < 8 && dest.1 < 8
    &&& b[from.0 as int][from.1 as int] matches Some(p) && cached_reach(cache, p.id, dest) && ((p.kind
        == PieceType::Pawn && p.color == turn) || san_letter_kind(san) == Some(p.kind))
}

/// The disambiguated search finds such a move.
proof fn lemma_disambiguated_names(
    b: Squares,
    turn: PieceColor,
    cache: Map<u32, PieceMoves>,
    san: Seq<char>,
    cs: Seq<char>,
    capture: bool,
    promo: Option<PieceType>,
)
    requires
        promotion_split(normalized_san(san)) matches Some(Ok((n, _))) && cs == without_x(n),
        san_disambiguated(b, cache, cs, capture, promo) is Ok,
    ensures
        exists|from: (u8, u8), dest: (u8, u8)|
            #[trigger] names_cached_move(b, turn, cache, san, from, dest) && san_disambiguated(
                b,
                cache,
                cs,
                capture,
                promo,
            ) == Ok::<Seq<char>, MoveError>(encode_uci(b, from, dest, promo)),
{
    let dest = square_of(cs.subrange(cs.len() - 2, cs.len() as int))->0->Ok_0;
    let kind = san_kind(cs[0])->0;
    let pred = piece_disambiguated(b, cache, cs, kind, dest, capture);
    lemma_first_square_from(pred, 0);
    let from = first_square(pred)->0;
    lemma_square_of_on_board(cs.subrange(cs.len() - 2, cs.len() as int));
    assert(names_cached_move(b, turn, cache, san, from, dest));
}

/// A square read from a token lies on the board.
proof fn lemma_square_of_on_board(s: Seq<char>)
    ensures
        square_of(s) matches Some(Ok(d)) ==> d.0 < 8 && d.1 < 8,
{
    let t = trim(s);
    if byte_len(t) >= 2 && 'a' <= t[0] <= 'h' && '1' <= t[1] <= '8' {
        assert(digit_value(t[1]) >= 1);
    }
}

/// What `san_to_uci` returns for a token other than a castle names a move of
/// a piece on the board whose cache entry reaches the destination: a pawn of
/// the side to move, or a piece of the kind the token's letter names (of
/// either side when the token disambiguates it by file or rank); and the
/// move read back from the UCI is that move.
pub proof fn lemma_san_names_cached_move(b: Squares, turn: PieceColor, cache: Map<u32, PieceMoves>, san: Seq<char>)
    requires
        san != "O-O"@,
        san != "O-O-O"@,
        san_to_uci_result(b, turn, cache, san) is Ok,
    ensures
        exists|from: (u8, u8), dest: (u8, u8), promo: Option<PieceType>|
            #![trigger names_cached_move(b, turn, cache, san, from, dest), encode_uci(b, from, dest, promo)]
            names_cached_move(b, turn, cache, san, from, dest) && san_to_uci_result(b, turn, cache, san)
                == Ok::<Seq<char>, MoveError>(encode_uci(b, from, dest, promo)) && (decode_uci(
                b,
                encode_uci(b, from, dest, promo),
            ) matches Some((f, t, _)) && f == from && t == dest),
{
    let (n, promo) = promotion_split(normalized_san(san))->0->Ok_0;
    let cs = without_x(n);
    let capture = n.contains('x');
    let r = san_search(b, turn, cache, cs, capture, promo);
    assert(r == san_to_uci_result(b, turn, cache, san));
    let (from, dest) = if cs.len() == 2 {
        lemma_square_of_on_board(cs);
        let dest = square_of(cs)->0->Ok_0;
        let pred = pawn_reaching(b, turn, cache, dest);
        lemma_first_square_from(pred, 0);
        if first_square(pred) is Some {
            (first_square(pred)->0, dest)
        } else {
            lemma_disambiguated_names(b, turn, cache, san, cs, capture, promo);
            choose|from: (u8, u8), dest: (u8, u8)|
                #[trigger] names_cached_move(b, turn, cache, san, from, dest) && san_disambiguated(b, cache, cs, capture, promo)
                    == Ok::<Seq<char>, MoveError>(encode_uci(b, from, dest, promo))
        }
    } else if cs.len() == 3 {
        lemma_square_of_on_board(cs.subrange(1, 3));
        let dest = square_of(cs.subrange(1, 3))->0->Ok_0;
        if 'a' <= cs[0] <= 'h' {
            let pred = pawn_from_file(b, turn, cache, cs[0] as u32 - 'a' as u32, dest, capture);
            lemma_first_square_from(pred, 0);
            if first_square(pred) is Some {
                (first_square(pred)->0, dest)
            } else {
                lemma_disambiguated_names(b, turn, cache, san, cs, capture, promo);
                choose|from: (u8, u8), dest: (u8, u8)|
                    #[trigger] names_cached_move(b, turn, cache, san, from, dest) && san_disambiguated(b, cache, cs, capture, promo)
                        == Ok::<Seq<char>, MoveError>(encode_uci(b, from, dest, promo))
            }
        } else {
            let kind = san_kind(cs[0]);
            if kind is Some && first_square(piece_reaching(b, turn, cache, kind->0, dest, capture)) is Some {
                let pred = piece_reaching(b, turn, cache, kind->0, dest, capture);
                lemma_first_square_from(pred, 0);
                (first_square(pred)->0, dest)
            } else {
                lemma_disambiguated_names(b, turn, cache, san, cs, capture, promo);
                choose|from: (u8, u8), dest: (u8, u8)|
                    #[trigger] names_cached_move(b, turn, cache, san, from, dest) && san_disambiguated(b, cache, cs, capture, promo)
                        == Ok::<Seq<char>, MoveError>(encode_uci(b, from, dest, promo))
            }
        }
    } else {
        lemma_disambiguated_names(b, turn, cache, san, cs, capture, promo);
        choose|from: (u8, u8), dest: (u8, u8)|
            #[trigger] names_cached_move(b, turn, cache, san, from, dest) && san_disambiguated(b, cache, cs, capture, promo)
                == Ok::<Seq<char>, MoveError>(encode_uci(b, from, dest, promo))
    };
    assert(names_cached_move(b, turn, cache, san, from, dest));
    assert(r == Ok::<Seq<char>, MoveError>(encode_uci(b, from, dest, promo)));
    crate::engine::uci::lemma_uci_roundtrip(b, from, dest, promo);
}

/// A search whose condition holds on no square finds none.
proof fn lemma_first_square_none(pred: spec_fn(int, int) -> bool, n: int)
    requires
        0 <= n,
        forall|i: int, j: int| #[trigger] pred(i, j) ==> false,
    ensures
        first_square_from(pred, n) is None,
    decreases 64 - n,
{
    if n < 64 {
        assert(!pred(n / 8, n % 8));
        lemma_first_square_none(pred, n + 1);
    }
}

/// A pawn token naming the file it comes from (such as `exd5`, three
/// characters once its `x` is taken off) is read as a move of a pawn of the
/// side to move standing on that file, to the square the token names.
pub proof fn lemma_pawn_token_file(b: Squares, turn: PieceColor, cache: Map<u32, PieceMoves>, san: Seq<char>)
    requires
        san != "O-O"@,
        san != "O-O-O"@,
        promotion_split(normalized_san(san)) matches Some(Ok((n, _))) && without_x(n).len() == 3 && 'a'
            <= without_x(n)[0] <= 'h',
        san_to_uci_result(b, turn, cache, san) is Ok,
    ensures
        ({
            let (n, promo) = promotion_split(normalized_san(san))->0->Ok_0;
            let cs = without_x(n);
            exists|from: (u8, u8), dest: (u8, u8)|
                #![trigger b[from.0 as int][from.1 as int], encode_uci(b, from, dest, promo)]
                {
                    &&& from.0 < 8
                    &&& from.1 == cs[0] as u32 - 'a' as u32
                    &&& b[from.0 as int][from.1 as int] matches Some(p) && p.kind == PieceType::Pawn && p.color
                        == turn
                    &&& square_of(cs.subrange(1, 3)) == Some(Ok::<(u8, u8), MoveError>(dest))
                    &&& san_to_uci_result(b, turn, cache, san) == Ok::<Seq<char>, MoveError>(
                        encode_uci(b, from, dest, promo),
                    )
                    &&& decode_uci(b, encode_uci(b, from, dest, promo)) matches Some((f, t, _)) && f == from && t
                        == dest
                }
        }),
{
    let (n, promo) = promotion_split(normalized_san(san))->0->Ok_0;
    let cs = without_x(n);
    let capture = n.contains('x');
    assert(san_search(b, turn, cache, cs, capture, promo) == san_to_uci_result(b, turn, cache, san));
    lemma_square_of_on_board(cs.subrange(1, 3));
    let dest = square_of(cs.subrange(1, 3))->0->Ok_0;
    let pred = pawn_from_file(b, turn, cache, cs[0] as u32 - 'a' as u32, dest, capture);
    lemma_first_square_from(pred, 0);
    if first_square(pred) is None {
        assert(cs.subrange(cs.len() - 2, cs.len() as int) == cs.subrange(1, 3));
        let kind = san_kind(cs[0]);
        if kind is Some {
            let dpred = piece_disambiguated(b, cache, cs, kind->0, dest, capture);
            assert forall|i: int, j: int| #[trigger] dpred(i, j) implies false by {
                assert(!disambiguates(cs, i, j));
            }
            lemma_first_square_none(dpred, 0);
        }
        assert(false);
    }
    let from = first_square(pred)->0;
    crate::engine::uci::lemma_uci_roundtrip(b, from, dest, promo);
    assert(b[from.0 as int][from.1 as int] matches Some(p) && p.kind == PieceType::Pawn && p.color == turn);
}

} // verus!
