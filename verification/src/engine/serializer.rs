use std::collections::HashMap;
use vstd::prelude::*;

use crate::engine::board::{Board, GameResult, PieceMoves};
use crate::engine::fen::fen_of;
use crate::engine::piece::Squares;
use crate::game::controller::TerminationReason;
use crate::text::{decimal, join_with, push_decimal, push_str};

verus! {

broadcast use {vstd::array::group_array_axioms, vstd::std_specs::hash::group_hash_axioms};

/// The game record as sent to the interface, with the moves as UCI strings
/// separated by spaces.
#[derive(Debug)]
pub struct SerializedBoardMetaData {
    pub starting_position: String,
    pub date: String,
    pub move_list: String,
    pub termination: TerminationReason,
    pub result: GameResult,
    pub white_player_elo: u32,
    pub black_player_elo: u32,
    pub white_player_name: String,
    pub black_player_name: String,
    pub opening: Option<String>,
}

/// A board as sent to the interface: its FEN, its move cache and where each
/// piece id stands, as text, and its record.
#[derive(Debug)]
pub struct SerializedBoard {
    pub fen: String,
    pub piece_moves: String,
    pub piece_index_mapper: String,
    pub meta_data: SerializedBoardMetaData,
}

/// Squares written as their row and column numbers, one after another.
pub open spec fn coords_text(v: Seq<(u8, u8)>) -> Seq<char>
    decreases v.len(),
{
    if v.len() == 0 {
        Seq::empty()
    } else {
        coords_text(v.drop_last()) + decimal(v.last().0 as nat) + decimal(v.last().1 as nat)
    }
}

/// A cache entry as text: the id, then `Q` and the quiet moves, `C` and the
/// captures, `A` and the attacked squares.
pub open spec fn entry_text(id: u32, m: PieceMoves) -> Seq<char> {
    decimal(id as nat) + seq![':', 'Q'] + coords_text(m.quiet_moves@) + seq!['C'] + coords_text(
        m.capture_moves@,
    ) + seq!['A'] + coords_text(m.attacks@)
}

/// The texts of cache entries, in the given order.
pub open spec fn entry_texts(es: Seq<(&u32, &PieceMoves)>) -> Seq<Seq<char>> {
    es.map_values(|e: (&u32, &PieceMoves)| entry_text(*e.0, *e.1))
}

/// The text of a piece on a square: row and column, `:` and its id.
pub open spec fn placed_text(r: int, c: int, id: u32) -> Seq<char> {
    decimal(r as nat) + decimal(c as nat) + seq![':'] + decimal(id as nat)
}

/// The texts of the pieces on the first `n` squares in reading order.
pub open spec fn placed_texts(b: Squares, n: int) -> Seq<Seq<char>>
    decreases n,
{
    if n <= 0 {
        Seq::empty()
    } else {
        let rest = placed_texts(b, n - 1);
        match b[(n - 1) / 8][(n - 1) % 8] {
            Some(p) => rest.push(placed_text((n - 1) / 8, (n - 1) % 8, p.id)),
            None => rest,
        }
    }
}

/// The UCI strings of a list of moves.
pub open spec fn uci_texts(moves: Seq<crate::engine::board::MoveStruct>) -> Seq<Seq<char>> {
    moves.map_values(|m: crate::engine::board::MoveStruct| m.uci@)
}

/// Appends squares as their row and column numbers.
fn push_coords(out: &mut String, v: &Vec<(u8, u8)>)
    ensures
        final(out)@ == old(out)@ + coords_text(v@),
{
    let mut i: usize = 0;
    while i < v.len()
        invariant
            i <= v.len(),
            out@ == old(out)@ + coords_text(v@.take(i as int)),
        decreases v.len() - i,
    {
        push_decimal(out, v[i].0 as u64);
        push_decimal(out, v[i].1 as u64);
        assert(v@.take(i + 1).drop_last() == v@.take(i as int));
        i += 1;
    }
    assert(v@.take(v@.len() as int) == v@);
}

/// Appends `part` to a joined text of `parts`, with `sep` before it unless it
/// is the first.
pub fn push_part(out: &mut String, part: &String, sep: char, first: bool, Ghost(parts): Ghost<Seq<Seq<char>>>)
    requires
        old(out)@ == join_with(parts, sep),
        first == (parts.len() == 0),
    ensures
        final(out)@ == join_with(parts.push(part@), sep),
{
    if !first {
        out.push(sep);
        assert(parts.push(part@).drop_last() == parts);
    } else {
        assert(old(out)@.len() == 0);
    }
    push_str(out, part.as_str());
}

/// The cache as text: its entries, in the order the map is walked, joined by
/// `|`.
fn cache_text(cache: &HashMap<u32, PieceMoves>) -> (s: String)
    ensures
        exists|es: Seq<(&u32, &PieceMoves)>|
            es.len() == cache@.dom().len() && es.no_duplicates() && (forall|i: int|
                0 <= i < es.len() ==> cache@.contains_key(*(#[trigger] es[i]).0) && cache@[*es[i].0] == *es[i].1)
                && s@ == join_with(entry_texts(es), '|'),
{
    let mut out = String::new();
    let ghost mut parts: Seq<Seq<char>> = Seq::empty();
    let mut first = true;
    for (id, moves) in it: cache.iter()
        invariant
            out@ == join_with(parts, '|'),
            parts == entry_texts(it.seq().take(it.index() as int)),
            first == (parts.len() == 0),
    {
        let mut entry = String::new();
        push_decimal(&mut entry, *id as u64);
        entry.push(':');
        entry.push('Q');
        push_coords(&mut entry, &moves.quiet_moves);
        entry.push('C');
        push_coords(&mut entry, &moves.capture_moves);
        entry.push('A');
        push_coords(&mut entry, &moves.attacks);
        push_part(&mut out, &entry, '|', first, Ghost(parts));
        first = false;
        proof {
            let k = it.index() as int;
            assert(entry@ == entry_text(*id, *moves));
            assert(it.seq()[k] == (id, moves));
            assert(entry_texts(it.seq().take(k + 1)) =~= entry_texts(it.seq().take(k)).push(entry@));
            parts = parts.push(entry@);
        }
    }
    out
}

/// Where each piece stands: `row column:id` for the occupied squares in
/// reading order, joined by `|`.
fn index_mapper_text(b: &Squares) -> (s: String)
    ensures
        s@ == join_with(placed_texts(*b, 64), '|'),
{
    let mut out = String::new();
    let mut first = true;
    let mut n: usize = 0;
    while n < 64
        invariant
            n <= 64,
            out@ == join_with(placed_texts(*b, n as int), '|'),
            first == (placed_texts(*b, n as int).len() == 0),
        decreases 64 - n,
    {
        assert(placed_texts(*b, n + 1) == match b[n as int / 8][n as int % 8] {
            Some(p) => placed_texts(*b, n as int).push(placed_text(n as int / 8, n as int % 8, p.id)),
            None => placed_texts(*b, n as int),
        });
        if let Some(p) = &b[n / 8][n % 8] {
            let mut entry = String::new();
            push_decimal(&mut entry, (n / 8) as u64);
            push_decimal(&mut entry, (n % 8) as u64);
            entry.push(':');
            push_decimal(&mut entry, p.id as u64);
            assert(entry@ == placed_text(n as int / 8, n as int % 8, p.id));
            push_part(&mut out, &entry, '|', first, Ghost(placed_texts(*b, n as int)));
            first = false;
        }
        n += 1;
    }
    out
}

/// The UCI strings of the moves, joined by spaces.
fn move_list_text(moves: &Vec<crate::engine::board::MoveStruct>) -> (s: String)
    ensures
        s@ == join_with(uci_texts(moves@), ' '),
{
    let mut out = String::new();
    let mut i: usize = 0;
    while i < moves.len()
        invariant
            i <= moves.len(),
            out@ == join_with(uci_texts(moves@.take(i as int)), ' '),
        decreases moves.len() - i,
    {
        assert(uci_texts(moves@.take(i + 1)) =~= uci_texts(moves@.take(i as int)).push(moves@[i as int].uci@));
        push_part(&mut out, &moves[i].uci, ' ', i == 0, Ghost(uci_texts(moves@.take(i as int))));
        i += 1;
    }
    assert(moves@.take(moves@.len() as int) == moves@);
    out
}

/// A copy of an optional text.
pub fn copy_opt(o: &Option<String>) -> (c: Option<String>)
    ensures
        match (c, *o) {
            (Some(a), Some(b)) => a@ == b@,
            (None, None) => true,
            _ => false,
        },
{
    match o {
        Some(s) => Some(s.clone()),
        None => None,
    }
}

/// `s` is the board as sent to the interface: its FEN, the cache entries in
/// the order the map is walked, the pieces by square, and the record with the
/// moves as UCI strings joined by spaces.
pub open spec fn is_serialized(s: SerializedBoard, b: Board) -> bool {
    &&& s.fen@ == fen_of(b)
    &&& exists|es: Seq<(&u32, &PieceMoves)>|
        es.len() == b.move_cache@.dom().len() && es.no_duplicates() && (forall|i: int|
            0 <= i < es.len() ==> b.move_cache@.contains_key(*(#[trigger] es[i]).0) && b.move_cache@[*es[i].0]
                == *es[i].1) && s.piece_moves@ == join_with(entry_texts(es), '|')
    &&& s.piece_index_mapper@ == join_with(placed_texts(b.squares, 64), '|')
    &&& s.meta_data.starting_position@ == b.meta_data.starting_position@
    &&& s.meta_data.date@ == b.meta_data.date@
    &&& s.meta_data.move_list@ == join_with(uci_texts(b.meta_data.move_list@), ' ')
    &&& s.meta_data.termination == b.meta_data.termination
    &&& s.meta_data.result == b.meta_data.result
    &&& s.meta_data.white_player_elo == b.meta_data.white_player_elo
    &&& s.meta_data.black_player_elo == b.meta_data.black_player_elo
    &&& s.meta_data.white_player_name@ == b.meta_data.white_player_name@
    &&& s.meta_data.black_player_name@ == b.meta_data.black_player_name@
    &&& match (s.meta_data.opening, b.meta_data.opening) {
        (Some(x), Some(y)) => x@ == y@,
        (None, None) => true,
        _ => false,
    }
}

/// The board as sent to the interface (`is_serialized`).
pub fn serialize_board(board: &Board) -> (s: SerializedBoard)
    ensures
        is_serialized(s, *board),
{
    let fen = board.to_string();
    let piece_index_mapper = index_mapper_text(&board.squares);
    let piece_moves = cache_text(&board.move_cache);
    let move_list = move_list_text(&board.meta_data.move_list);
    let meta_data = SerializedBoardMetaData {
        starting_position: board.meta_data.starting_position.clone(),
        date: board.meta_data.date.clone(),
        move_list,
        termination: board.meta_data.termination,
        result: board.meta_data.result,
        white_player_elo: board.meta_data.white_player_elo,
        black_player_elo: board.meta_data.black_player_elo,
        white_player_name: board.meta_data.white_player_name.clone(),
        black_player_name: board.meta_data.black_player_name.clone(),
        opening: copy_opt(&board.meta_data.opening),
    };
    SerializedBoard { fen, piece_moves, piece_index_mapper, meta_data }
}

} // verus!
