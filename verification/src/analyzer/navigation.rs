use vstd::prelude::*;

use crate::analyzer::analyzer::{
    serialize_analyzer_controller, AnalyzerController, MoveKind, SerializedAnalyzerController,
    UndoInfo,
};
use crate::analyzer::board_interactions::{
    lemma_set_on_board, lemma_take_back_on_board, state_of, take_back, undo_on_board, undo_record,
    undo_succeeds, undone_squares,
};
use crate::engine::board::{
    material_fits, move_applied, Board, BoardMetaData, GameResult, MoveStruct, is_new_record,
};
use crate::game::controller::TerminationReason;
use crate::database::pgn_reader::lemma_decoded_on_board;
use crate::engine::serializer::serialize_board;
use std::collections::HashMap;
use crate::engine::fen::{fen_parser_defined, fen_parser_reads, is_default_board, is_read_board};
use crate::engine::piece::{PieceType, Squares};
use crate::engine::move_gen::{
    cache_refreshed, legal_captures, legal_quiet, on_board, positions_on_board, };
use crate::engine::serializer::is_serialized;
use crate::engine::uci::decode_uci;

verus! {

/// The move from `from` to `to` on `b` is refused by `move_piece_with_undo`:
/// no piece there, a piece of the side not to move, or a target that is
/// neither a legal capture nor a legal quiet move.
pub open spec fn undo_move_refused(b: Board, from: (u8, u8), to: (u8, u8)) -> bool {
    match b.squares[from.0 as int][from.1 as int] {
        None => true,
        Some(p) => p.color != b.turn || (!legal_captures(b.squares, b.en_passant_target, p).contains(to)
            && !legal_quiet(b.squares, b.en_passant_target, p).contains(to)),
    }
}

/// `b2` is `b` after `move_piece_with_undo` played the legal move from
/// `from` to `to` and gave the record `u`.
pub open spec fn undo_move_played(
    b: Board,
    b2: Board,
    from: (u8, u8),
    to: (u8, u8),
    promotion: Option<PieceType>,
    u: UndoInfo,
) -> bool {
    &&& !undo_move_refused(b, from, to)
    &&& b.squares[from.0 as int][from.1 as int] matches Some(p) && {
        let ep = b.en_passant_target;
        let is_capture = legal_captures(b.squares, ep, p).contains(to);
        &&& move_applied(b, b2, p, from, to, promotion, is_capture)
        &&& u == undo_record(b, p, from, to, promotion, is_capture)
    }
    &&& b2.wf()
}

/// One step forward: the UCI of `mv` reads on `b`, the material after it
/// fits, and the move is played giving `u`.
#[verifier::opaque]
pub open spec fn forward_step(b: Board, b2: Board, mv: MoveStruct, u: UndoInfo) -> bool {
    match decode_uci(b.squares, mv.uci@) {
        None => false,
        Some((f, t, p)) => material_fits(b, f, t, p) && undo_move_played(b, b2, f, t, p, u),
    }
}

/// The step forward with `mv` on `b` fails: the UCI does not read, the
/// material after it would not fit in 255 points, or the move is refused.
#[verifier::opaque]
pub open spec fn forward_fails(b: Board, mv: MoveStruct) -> bool {
    match decode_uci(b.squares, mv.uci@) {
        None => true,
        Some((f, t, p)) => !material_fits(b, f, t, p) || undo_move_refused(b, f, t),
    }
}

/// The boards `bs` go forward from `bs[0]` with the moves `ms[first..]`, one
/// step each, giving the records `us`.
pub open spec fn forward_chain(bs: Seq<Board>, ms: Seq<MoveStruct>, first: int, us: Seq<UndoInfo>) -> bool {
    &&& bs.len() == us.len() + 1
    &&& forall|k: int| 0 <= k < us.len() ==> forward_step(#[trigger] bs[k], bs[k + 1], ms[first + k], us[k])
}

/// `b2` is `b` after `apply_undo` took back the record `u`.
#[verifier::opaque]
pub open spec fn undo_taken_back(b: Board, b2: Board, u: UndoInfo) -> bool {
    &&& b2.squares == undone_squares(b.squares, u)
    &&& state_of(b2) == u.prev_state
    &&& b2.meta_data == b.meta_data
    &&& b2.next_id == b.next_id
    &&& b2.game_phase == b.game_phase
    &&& b2.ply_count == b.ply_count
}

/// The boards `bs` go back from `bs[0]` taking back the records `us` from
/// the last on, one each.
pub open spec fn backward_chain(bs: Seq<Board>, us: Seq<UndoInfo>, count: int) -> bool {
    &&& bs.len() == count + 1
    &&& count <= us.len()
    &&& forall|k: int|
        0 <= k < count ==> undo_on_board(us[us.len() - 1 - k]) && undo_succeeds(
            (#[trigger] bs[k]).squares,
            us[us.len() - 1 - k],
        ) && undo_taken_back(bs[k], bs[k + 1], us[us.len() - 1 - k])
}

/// The first ply played forward from `current_ply`: the next one, or none
/// (past every move) when `current_ply` is below -1.
pub open spec fn first_forward(current_ply: i32, len: int) -> int {
    if current_ply + 1 >= 0 {
        current_ply + 1
    } else {
        len + 1
    }
}

/// `c2` is `c` showing `board` at ply `ply` with the undo records `undos`:
/// the board keeps `c`'s game record and has its move cache refreshed.
pub open spec fn shows_ply(c: AnalyzerController, c2: AnalyzerController, board: Board, ply: int, undos: Seq<UndoInfo>) -> bool {
    &&& c2.board == Board { meta_data: c.board.meta_data, move_cache: c2.board.move_cache, ..board }
    &&& cache_refreshed(board.move_cache@, c2.board.move_cache@, board.squares, board.en_passant_target, 64)
    &&& c2.current_ply == ply
    &&& c2.board_undo@ == undos
    &&& c2.game_id == c.game_id
    &&& c2.last_threat == c.last_threat
    &&& c2.last_pv == c.last_pv
    &&& c2.chat_history == c.chat_history
}

/// `b0` is the board `Board::from` reads from the FEN `start`.
pub open spec fn read_from(b0: Board, start: Seq<char>) -> bool {
    match fen_parser_reads(start) {
        Some(ps) => is_read_board(b0, start, ps),
        None => is_default_board(b0),
    }
}

/// The serialized analysis board is that of a controller.
pub open spec fn serializes(s: SerializedAnalyzerController, game_id: usize, board: Board, ply: i32) -> bool {
    s.game_id == game_id && is_serialized(s.serialized_board, board) && s.current_ply == ply
}

/// Positions stay on the board when a record on the board is taken back.
pub proof fn lemma_undone_on_board(b: Squares, u: UndoInfo)
    requires
        positions_on_board(b),
        undo_on_board(u),
    ensures
        positions_on_board(undone_squares(b, u)),
{
    match u.kind {
        MoveKind::Castling { rook_from, rook_to } => {
            lemma_take_back_on_board(b, u.from, u.to, false);
            lemma_take_back_on_board(take_back(b, u.from, u.to, false), rook_from, rook_to, false);
        },
        MoveKind::EnPassant { captured_at } => {
            lemma_take_back_on_board(b, u.from, u.to, false);
            if let Some(c) = u.captured {
                lemma_set_on_board(take_back(b, u.from, u.to, false), captured_at, c);
            }
        },
        MoveKind::Normal { promotion } => {
            lemma_take_back_on_board(b, u.from, u.to, promotion is Some);
            if let Some(c) = u.captured {
                lemma_set_on_board(take_back(b, u.from, u.to, promotion is Some), u.to, c);
            }
        },
    }
}

/// Whether a square is on the board.
fn square_on_board(p: (u8, u8)) -> (r: bool)
    ensures
        r == on_board(p),
{
    p.0 < 8 && p.1 < 8
}

/// Whether an undo record lies on the board (`undo_on_board`).
fn undo_is_on_board(u: &UndoInfo) -> (ok: bool)
    ensures
        ok == undo_on_board(*u),
{
    let kind_ok = match u.kind {
        MoveKind::Castling { rook_from, rook_to } => square_on_board(rook_from) && square_on_board(rook_to),
        MoveKind::EnPassant { captured_at } => u.captured.is_none() || square_on_board(captured_at),
        MoveKind::Normal { .. } => true,
    };
    let captured_ok = match u.captured {
        Some(c) => square_on_board(c.position),
        None => true,
    };
    square_on_board(u.from) && square_on_board(u.to) && kind_ok && captured_ok
}


/// A consistent board has its pieces on the board.
pub proof fn lemma_wf_on_board(b: Board)
    requires
        b.wf(),
    ensures
        positions_on_board(b.squares),
{
    assert forall|r: int, c: int| 0 <= r < 8 && 0 <= c < 8 && (#[trigger] b.squares[r][c]) is Some implies on_board(
        b.squares[r][c]->0.position,
    ) by {
        assert(b.squares[r][c]->0.position == (r as u8, c as u8));
    }
}

/// An empty game record, to hold a place: no starting position, no date,
/// no moves, nothing filled in.
fn blank_meta() -> (m: BoardMetaData)
    ensures
        is_new_record(m, Seq::empty()),
        m.date@.len() == 0,
{
    BoardMetaData {
        starting_position: String::new(),
        date: String::new(),
        move_list: Vec::new(),
        termination: TerminationReason::Draw,
        result: GameResult::Unfinished,
        white_player_elo: 0,
        black_player_elo: 0,
        white_player_name: String::new(),
        black_player_name: String::new(),
        opening: None,
        event: None,
        site: None,
        round: None,
        time_control: None,
        end_time: None,
        link: None,
        eco: None,
    }
}

/// A board with the position of `b`, an empty record and an empty move cache.
fn position_copy(b: &Board) -> (w: Board)
    ensures
        w == (Board { meta_data: w.meta_data, move_cache: w.move_cache, ..*b }),
        w.move_cache@.len() == 0,
{
    Board {
        squares: b.squares,
        turn: b.turn,
        white_big_castle: b.white_big_castle,
        black_big_castle: b.black_big_castle,
        white_small_castle: b.white_small_castle,
        black_small_castle: b.black_small_castle,
        halfmove_clock: b.halfmove_clock,
        fullmove_number: b.fullmove_number,
        en_passant_target: b.en_passant_target,
        meta_data: blank_meta(),
        move_cache: HashMap::new(),
        next_id: b.next_id,
        game_phase: b.game_phase,
        ply_count: b.ply_count,
    }
}

/// A copy of the undo records.
fn copy_undos(v: &Vec<UndoInfo>) -> (w: Vec<UndoInfo>)
    ensures
        w@ == v@,
{
    let mut w: Vec<UndoInfo> = Vec::new();
    let mut i: usize = 0;
    while i < v.len()
        invariant
            i <= v.len(),
            w@ == v@.take(i as int),
        decreases v.len() - i,
    {
        w.push(v[i]);
        assert(w@ =~= v@.take(i + 1));
        i += 1;
    }
    assert(v@.take(v@.len() as int) == v@);
    w
}

/// Plays one move of the game on `work` (`forward_step`), giving its undo
/// record; `None` where the step fails (`forward_fails`).
fn forward_one(work: &mut Board, mv: &MoveStruct) -> (r: Option<UndoInfo>)
    requires
        old(work).wf(),
    ensures
        match r {
            Some(u) => forward_step(*old(work), *final(work), *mv, u) && final(work).wf(),
            None => forward_fails(*old(work), *mv),
        },
{
    proof {
        lemma_decoded_on_board(work.squares, mv.uci@);
        reveal(forward_step);
        reveal(forward_fails);
    }
    match work.decode_uci_move(mv.uci.as_str()) {
        Some((from, to, promotion)) => {
            if !work.move_material_fits(from, to, promotion) {
                return None;
            }
            match work.move_piece_with_undo(from, to, promotion) {
                Ok(u) => Some(u),
                Err(_) => None,
            }
        },
        None => None,
    }
}

/// One more step keeps a forward chain.
pub proof fn lemma_forward_push(bs: Seq<Board>, ms: Seq<MoveStruct>, first: int, us: Seq<UndoInfo>, b: Board, u: UndoInfo)
    requires
        forward_chain(bs, ms, first, us),
        forward_step(bs.last(), b, ms[first + us.len()], u),
    ensures
        forward_chain(bs.push(b), ms, first, us.push(u)),
{
    let bs2 = bs.push(b);
    let us2 = us.push(u);
    assert forall|k: int| 0 <= k < us2.len() implies forward_step(
        #[trigger] bs2[k],
        bs2[k + 1],
        ms[first + k],
        us2[k],
    ) by {
        if k < us.len() {
            assert(bs2[k] == bs[k] && bs2[k + 1] == bs[k + 1] && us2[k] == us[k]);
        }
    }
}

/// Plays the moves `first..=last` of the game on `work`, recording their
/// undo records after those of `undos`; `None` at the first move whose UCI
/// does not read, whose material would not fit, or that is refused.
fn play_forward(
    work: &mut Board,
    undos: &mut Vec<UndoInfo>,
    moves: &Vec<MoveStruct>,
    first: usize,
    last: usize,
) -> (ok: bool)
    requires
        old(work).wf(),
        last < moves.len(),
    ensures
        ({
            let count = if first <= last { last - first + 1 } else { 0int };
            if ok {
                exists|bs: Seq<Board>, us: Seq<UndoInfo>|
                    #[trigger] forward_chain(bs, moves@, first as int, us) && us.len() == count && bs[0]
                        == *old(work) && bs.last() == *final(work) && final(undos)@ == old(undos)@ + us
                        && final(work).wf()
            } else {
                exists|bs: Seq<Board>, us: Seq<UndoInfo>|
                    #[trigger] forward_chain(bs, moves@, first as int, us) && us.len() < count && bs[0]
                        == *old(work) && forward_fails(bs.last(), moves@[first + us.len()])
            }
        }),
{
    let ghost b0 = *work;
    assert(b0 == *old(work));
    let ghost u0 = undos@;
    let ghost mut bs: Seq<Board> = seq![*work];
    let ghost mut us: Seq<UndoInfo> = Seq::empty();
    if first > last {
        assert(forward_chain(bs, moves@, first as int, us));
        return true;
    }
    let mut i: usize = first;
    while i <= last
        invariant
            first <= i <= last + 1,
            last < moves.len(),
            work.wf(),
            forward_chain(bs, moves@, first as int, us),
            us.len() == i - first,
            bs[0] == b0,
            b0 == *old(work),
            bs.last() == *work,
            undos@ == u0 + us,
        decreases last + 1 - i,
    {
        match forward_one(work, &moves[i]) {
            Some(u) => {
                undos.push(u);
                proof {
                    lemma_forward_push(bs, moves@, first as int, us, *work, u);
                    assert(undos@ =~= u0 + us.push(u));
                    bs = bs.push(*work);
                    us = us.push(u);
                }
            },
            None => {
                return false;
            },
        }
        i += 1;
    }
    true
}

/// Takes back `count` undo records from the end of `undos` on `work`;
/// `None` when the records run out, one lies off the board, or one does not
/// apply.
fn play_backward(work: &mut Board, undos: &mut Vec<UndoInfo>, count: usize) -> (ok: bool)
    requires
        positions_on_board(old(work).squares),
    ensures
        ({
            let us = old(undos)@;
            if ok {
                exists|bs: Seq<Board>|
                    #[trigger] backward_chain(bs, us, count as int) && bs[0] == *old(work) && bs.last()
                        == *final(work) && final(undos)@ == us.take(us.len() - count) && positions_on_board(
                        final(work).squares,
                    )
            } else {
                exists|bs: Seq<Board>, j: int|
                    #[trigger] backward_chain(bs, us, j) && 0 <= j < count && bs[0] == *old(work) && (j
                        >= us.len() || !undo_on_board(us[us.len() - 1 - j]) || !undo_succeeds(
                        bs.last().squares,
                        us[us.len() - 1 - j],
                    ))
            }
        }),
{
    let ghost b0 = *work;
    let ghost us = undos@;
    let ghost mut bs: Seq<Board> = seq![*work];
    let mut k: usize = 0;
    while k < count
        invariant
            k <= count,
            k <= us.len(),
            backward_chain(bs, us, k as int),
            bs[0] == b0,
            b0 == *old(work),
            us == old(undos)@,
            bs.last() == *work,
            undos@ == us.take(us.len() - k),
            positions_on_board(work.squares),
        decreases count - k,
    {
        let ghost b = *work;
        let current = undos.pop();
        match current {
            Some(u) => {
                assert(u == us[us.len() - 1 - k]);
                if !undo_is_on_board(&u) {
                    assert(!undo_on_board(us[us.len() - 1 - k]));
                    assert(backward_chain(bs, us, k as int));
                    return false;
                }
                match work.apply_undo(u) {
                    Ok(()) => {
                        proof {
                            lemma_undone_on_board(b.squares, u);
                            reveal(undo_taken_back);
                            assert(undo_taken_back(b, *work, u));
                            let bs2 = bs.push(*work);
                            assert forall|q: int| 0 <= q < k + 1 implies undo_on_board(us[us.len() - 1 - q])
                                && undo_succeeds((#[trigger] bs2[q]).squares, us[us.len() - 1 - q])
                                && undo_taken_back(bs2[q], bs2[q + 1], us[us.len() - 1 - q]) by {
                                if q < k {
                                    assert(bs2[q] == bs[q] && bs2[q + 1] == bs[q + 1]);
                                }
                            }
                            assert(undos@ =~= us.take(us.len() - (k + 1)));
                            bs = bs2;
                        }
                    },
                    Err(_) => {
                        return false;
                    },
                }
            },
            None => {
                assert(undos@.len() == 0);
                assert(k >= us.len());
                assert(backward_chain(bs, us, k as int));
                return false;
            },
        }
        k += 1;
    }
    true
}

/// The forward chain to a later ply has the analysis board's position at
/// its start.
pub open spec fn from_position(b: Board, c: AnalyzerController) -> bool {
    b == (Board { meta_data: b.meta_data, move_cache: b.move_cache, ..c.board })
}

/// Makes `work`, with the moves' undo records `undos`, the controller's
/// board at ply `target`: the game record stays and the move cache is
/// refreshed.
fn install(controller: &mut AnalyzerController, work: Board, undos: Vec<UndoInfo>, target: i32) -> (s: SerializedAnalyzerController)
    requires
        positions_on_board(work.squares),
    ensures
        shows_ply(*old(controller), *final(controller), work, target as int, undos@),
        serializes(s, old(controller).game_id, final(controller).board, target),
{
    let mut work = work;
    work.rerender_move_cache();
    std::mem::swap(&mut work.meta_data, &mut controller.board.meta_data);
    controller.board = work;
    controller.board_undo = undos;
    controller.current_ply = target;
    serialize_analyzer_controller(controller)
}

/// Goes forward to the later ply `move_index` (the forward clause of
/// `get_board_at_index`).
fn go_forward(controller: &mut AnalyzerController, move_index: isize) -> (r: Option<SerializedAnalyzerController>)
    requires
        old(controller).board.wf(),
        old(controller).board.meta_data.move_list@.len() <= i32::MAX,
        0 <= move_index < old(controller).board.meta_data.move_list@.len(),
        move_index > old(controller).current_ply,
    ensures
        ({
            let c = *old(controller);
            let ms = c.board.meta_data.move_list@;
            let first = first_forward(c.current_ply, ms.len() as int);
            let count = if first <= move_index {
                move_index - first + 1
            } else {
                0int
            };
            match r {
                None => *final(controller) == c && exists|bs: Seq<Board>, us: Seq<UndoInfo>|
                    #[trigger] forward_chain(bs, ms, first, us) && us.len() < count && from_position(bs[0], c)
                        && forward_fails(bs.last(), ms[first + us.len()]),
                Some(s) => exists|bs: Seq<Board>, us: Seq<UndoInfo>|
                    #[trigger] forward_chain(bs, ms, first, us) && us.len() == count && from_position(bs[0], c)
                        && shows_ply(c, *final(controller), bs.last(), move_index as int, c.board_undo@ + us)
                        && serializes(s, c.game_id, final(controller).board, move_index as i32),
            }
        }),
{
    let ghost c = *controller;
    let len = controller.board.meta_data.move_list.len();
    let mut work = position_copy(&controller.board);
    let mut undos = copy_undos(&controller.board_undo);
    let ghost ms = c.board.meta_data.move_list@;
    let first: usize = if controller.current_ply + 1 >= 0 {
        (controller.current_ply + 1) as usize
    } else {
        len + 1
    };
    assert(first as int == first_forward(c.current_ply, ms.len() as int));
    let ok = play_forward(&mut work, &mut undos, &controller.board.meta_data.move_list, first, move_index as usize);
    if !ok {
        return None;
    }
    proof {
        lemma_wf_on_board(work);
    }
    let s = install(controller, work, undos, move_index as i32);
    Some(s)
}

/// Goes back to the earlier ply `move_index` (the backward clause of
/// `get_board_at_index`).
fn go_backward(controller: &mut AnalyzerController, move_index: isize) -> (r: Option<SerializedAnalyzerController>)
    requires
        old(controller).board.wf(),
        0 <= move_index < old(controller).current_ply,
    ensures
        ({
            let c = *old(controller);
            let count = c.current_ply - move_index;
            let us = c.board_undo@;
            match r {
                None => *final(controller) == c && exists|bs: Seq<Board>, j: int|
                    #[trigger] backward_chain(bs, us, j) && 0 <= j < count && from_position(bs[0], c) && (j
                        >= us.len() || !undo_on_board(us[us.len() - 1 - j]) || !undo_succeeds(
                        bs.last().squares,
                        us[us.len() - 1 - j],
                    )),
                Some(s) => exists|bs: Seq<Board>|
                    #[trigger] backward_chain(bs, us, count) && from_position(bs[0], c) && shows_ply(
                        c,
                        *final(controller),
                        bs.last(),
                        move_index as int,
                        us.take(us.len() - count),
                    ) && serializes(s, c.game_id, final(controller).board, move_index as i32),
            }
        }),
{
    let mut work = position_copy(&controller.board);
    let mut undos = copy_undos(&controller.board_undo);
    proof {
        lemma_wf_on_board(work);
    }
    let count = (controller.current_ply as isize - move_index) as usize;
    let ok = play_backward(&mut work, &mut undos, count);
    if !ok {
        return None;
    }
    let s = install(controller, work, undos, move_index as i32);
    Some(s)
}

/// Shows the analysis board at ply `move_index` of its game (-1 for the
/// start) and returns it serialized. At -1 the board of the start position
/// is returned and the controller is not changed. An index past the moves,
/// or below -1, gives `None`. The ply shown is returned as it is. A later
/// ply is reached by playing the moves after the one shown, keeping their
/// undo records; an earlier one by taking back undo records from the last
/// on. The board reached keeps the game record and has its move cache
/// refreshed, and becomes the controller's. When a move does not read, does
/// not fit or is refused, or an undo record is missing, does not lie on the
/// board or does not apply, `None` is returned and the controller is not
/// changed.
pub fn get_board_at_index(controller: &mut AnalyzerController, move_index: isize) -> (r: Option<
    SerializedAnalyzerController,
>)
    requires
        old(controller).board.wf(),
        old(controller).board.meta_data.move_list@.len() <= i32::MAX,
        move_index == -1 ==> fen_parser_defined(old(controller).board.meta_data.starting_position@),
    ensures
        ({
            let c = *old(controller);
            let ms = c.board.meta_data.move_list@;
            if move_index == -1 {
                &&& *final(controller) == c
                &&& r matches Some(s) && exists|b0: Board|
                    #[trigger] read_from(b0, c.board.meta_data.starting_position@) && serializes(
                        s,
                        c.game_id,
                        Board { meta_data: c.board.meta_data, ..b0 },
                        -1i32,
                    )
            } else if move_index < -1 || move_index >= ms.len() {
                r is None && *final(controller) == c
            } else if move_index == c.current_ply {
                r matches Some(s) && serializes(s, c.game_id, c.board, c.current_ply) && *final(controller) == c
            } else if move_index > c.current_ply {
                let first = first_forward(c.current_ply, ms.len() as int);
                let count = if first <= move_index {
                    move_index - first + 1
                } else {
                    0int
                };
                match r {
                    None => *final(controller) == c && exists|bs: Seq<Board>, us: Seq<UndoInfo>|
                        #[trigger] forward_chain(bs, ms, first, us) && us.len() < count && from_position(bs[0], c) && forward_fails(bs.last(), ms[first + us.len()]),
                    Some(s) => exists|bs: Seq<Board>, us: Seq<UndoInfo>|
                        #[trigger] forward_chain(bs, ms, first, us) && us.len() == count && from_position(bs[0], c) && shows_ply(c, *final(controller), bs.last(), move_index as int, c.board_undo@ + us)
                            && serializes(s, c.game_id, final(controller).board, move_index as i32),
                }
            } else {
                let count = c.current_ply - move_index;
                let us = c.board_undo@;
                match r {
                    None => *final(controller) == c && exists|bs: Seq<Board>, j: int|
                        #[trigger] backward_chain(bs, us, j) && 0 <= j < count && from_position(bs[0], c) && (j >= us.len() || !undo_on_board(us[us.len() - 1 - j]) || !undo_succeeds(
                            bs.last().squares,
                            us[us.len() - 1 - j],
                        )),
                    Some(s) => exists|bs: Seq<Board>|
                        #[trigger] backward_chain(bs, us, count) && from_position(bs[0], c) && shows_ply(c, *final(controller), bs.last(), move_index as int, us.take(us.len() - count))
                            && serializes(s, c.game_id, final(controller).board, move_index as i32),
                }
            }
        }),
{
    let ghost c = *controller;
    if move_index == -1 {
        let mut start = Board::from(&controller.board.meta_data.starting_position);
        let ghost b0 = start;
        std::mem::swap(&mut start.meta_data, &mut controller.board.meta_data);
        let serialized = SerializedAnalyzerController {
            game_id: controller.game_id,
            serialized_board: serialize_board(&start),
            current_ply: -1,
        };
        std::mem::swap(&mut start.meta_data, &mut controller.board.meta_data);
        assert(read_from(b0, c.board.meta_data.starting_position@));
        return Some(serialized);
    }
    let len = controller.board.meta_data.move_list.len();
    if move_index < -1 || move_index as usize >= len {
        return None;
    }
    let target = move_index as i32;
    if target == controller.current_ply {
        return Some(serialize_analyzer_controller(controller));
    }
    if target > controller.current_ply {
        go_forward(controller, move_index)
    } else {
        go_backward(controller, move_index)
    }
}

} // verus!
