use std::time::{Duration, Instant};
use vstd::prelude::*;

use crate::engine::board::{move_outcome, rights_of, Board, BoardMetaData, GameResult, MoveStruct, material_fits};
use crate::engine::move_gen::MoveError;
use crate::engine::piece::opposite;
use crate::text::{digit_char, digit_to_char, holds_text};
use crate::engine::move_gen::{on_board, cache_refreshed};
use crate::engine::piece::{PieceColor, PieceType};
use crate::engine::serializer::{serialize_board, is_serialized, SerializedBoard};
use crate::engine::simulate::{checkmate, stalemate};
use crate::text::{decimal, push_decimal, push_str};

verus! {

/// A point in time (`std::time::Instant`), carried as it is.
#[verifier::external_type_specification]
#[verifier::external_body]
pub struct ExInstant(Instant);

/// `Instant::now`: the current instant. It depends on the clock, so nothing
/// is stated of it.
#[verifier::external_body]
fn instant_now() -> Instant {
    Instant::now()
}

/// `Instant::duration_since`: the time from `earlier` to `later`, zero when
/// `earlier` is later (the method saturates). The instants' values are not
/// visible here, so nothing is stated of it.
#[verifier::external_body]
fn duration_since(later: &Instant, earlier: &Instant) -> Duration {
    later.duration_since(*earlier)
}

/// `Duration::as_nanos`: the duration in whole nanoseconds. The duration's
/// value is not visible here, so nothing is stated of it.
#[verifier::external_body]
fn nanos_of(d: &Duration) -> u128 {
    d.as_nanos()
}

/// `rand::random::<bool>()`: a coin toss. It depends on chance, so nothing
/// is stated of it.
#[verifier::external_body]
fn coin_toss() -> bool {
    rand::random::<bool>()
}

/// Where a game against the engine stands.
#[derive(Clone, Copy, Debug, PartialEq, Eq, Structural)]
pub enum GameControllerState {
    AwaitingStart,
    Ongoing,
    Ended,
}

/// How a game ended.
#[derive(Clone, Copy, Debug, PartialEq, Eq, Structural)]
pub enum TerminationReason {
    Checkmate,
    StaleMate,
    Draw,
    Timeout,
    Resignation,
}

/// The time control of a game.
#[derive(Clone, Copy, Debug, PartialEq, Eq, Structural)]
pub enum GameControllerMode {
    Bullet,
    Blitz,
    Rapid,
    Classical,
}

/// A game clock: the time left to each side, in nanoseconds, when the
/// running turn started, whether it runs, and whose time runs.
#[derive(Clone, Copy, Debug)]
pub struct ChessClock {
    pub white_time_remaining: u128,
    pub black_time_remaining: u128,
    pub last_turn_start: Instant,
    pub is_active: bool,
    pub active_color: PieceColor,
}

/// The time each side has in a mode, in nanoseconds: bullet 1, blitz 3,
/// rapid 10 and classical 30 minutes.
pub open spec fn mode_time(mode: GameControllerMode) -> u128 {
    match mode {
        GameControllerMode::Bullet => 60_000_000_000,
        GameControllerMode::Blitz => 180_000_000_000,
        GameControllerMode::Rapid => 600_000_000_000,
        GameControllerMode::Classical => 1_800_000_000_000,
    }
}

/// A duration in whole milliseconds, wrapped to 32 bits.
pub open spec fn millis_of(nanos: u128) -> u32 {
    ((nanos / 1_000_000) % 0x1_0000_0000) as u32
}

/// A duration given in nanoseconds, in whole milliseconds wrapped to 32 bits.
pub fn format_duration(duration: u128) -> (ms: u32)
    ensures
        ms == millis_of(duration),
{
    let total_millis = duration / 1_000_000;
    (total_millis % 0x1_0000_0000) as u32
}

impl ChessClock {
    /// A stopped clock for a mode: both sides have the mode's time, White's
    /// runs first.
    pub fn from(mode: GameControllerMode) -> (c: ChessClock)
        ensures
            c.white_time_remaining == mode_time(mode),
            c.black_time_remaining == mode_time(mode),
            !c.is_active,
            c.active_color == PieceColor::White,
    {
        let duration: u128 = match mode {
            GameControllerMode::Bullet => 60_000_000_000,
            GameControllerMode::Blitz => 180_000_000_000,
            GameControllerMode::Rapid => 600_000_000_000,
            GameControllerMode::Classical => 1_800_000_000_000,
        };
        ChessClock {
            white_time_remaining: duration,
            black_time_remaining: duration,
            last_turn_start: instant_now(),
            active_color: PieceColor::White,
            is_active: false,
        }
    }

    /// The time left to White and to Black, in milliseconds.
    pub fn format(&self) -> (t: (u32, u32))
        ensures
            t == (millis_of(self.white_time_remaining), millis_of(self.black_time_remaining)),
    {
        (format_duration(self.white_time_remaining), format_duration(self.black_time_remaining))
    }
}

/// A game against the engine: its mode, the player's colour, the players'
/// names and ratings, the board, the clock, where it stands, how and with
/// what result it ended, the player's rating change, and whether it can still
/// be abandoned.
#[derive(Clone)]
pub struct GameController {
    pub mode: GameControllerMode,
    pub player: PieceColor,
    pub white_name: String,
    pub black_name: String,
    pub white_elo: usize,
    pub black_elo: usize,
    pub board: Board,
    pub clock: ChessClock,
    pub state: GameControllerState,
    pub termination_reason: Option<TerminationReason>,
    pub result: Option<GameResult>,
    pub elo_gain: Option<i32>,
    pub can_be_abandoned: bool,
}

/// A game as sent to the interface: the player's and the engine's name cards
/// `name (rating)` and clocks in milliseconds, and the board serialized.
#[derive(Debug)]
pub struct SerializedGameController {
    pub player: PieceColor,
    pub mode: GameControllerMode,
    pub player_card: String,
    pub engine_card: String,
    pub board: SerializedBoard,
    pub player_clock: u32,
    pub engine_clock: u32,
    pub state: GameControllerState,
    pub termination_reason: Option<TerminationReason>,
    pub result: Option<GameResult>,
    pub elo_gain: Option<i32>,
    pub can_be_abandoned: bool,
}

/// What the interface asks the game to play: the engine's move or the
/// player's.
#[derive(Clone, Copy, Debug)]
pub enum UpdateType {
    EngineMove,
    Playermove { from: (u8, u8), to: (u8, u8), promotion: Option<PieceType> },
}

/// A name card: the name and the rating in brackets.
pub open spec fn name_card(name: Seq<char>, elo: usize) -> Seq<char> {
    name + seq![' ', '('] + decimal(elo as nat) + seq![')']
}

/// `s` is the game `g` as sent to the interface: the player's card and clock
/// first, the engine's second.
pub open spec fn is_serialized_game(s: SerializedGameController, g: GameController) -> bool {
    let (w, b) = (millis_of(g.clock.white_time_remaining), millis_of(g.clock.black_time_remaining));
    let white_card = name_card(g.white_name@, g.white_elo);
    let black_card = name_card(g.black_name@, g.black_elo);
    &&& s.player == g.player
    &&& s.mode == g.mode
    &&& s.player_card@ == if g.player == PieceColor::White {
        white_card
    } else {
        black_card
    }
    &&& s.engine_card@ == if g.player == PieceColor::White {
        black_card
    } else {
        white_card
    }
    &&& s.player_clock == if g.player == PieceColor::White {
        w
    } else {
        b
    }
    &&& s.engine_clock == if g.player == PieceColor::White {
        b
    } else {
        w
    }
    &&& is_serialized(s.board, g.board)
    &&& s.state == g.state
    &&& s.termination_reason == g.termination_reason
    &&& s.result == g.result
    &&& s.elo_gain == g.elo_gain
    &&& s.can_be_abandoned == g.can_be_abandoned
}

/// The result of a game ended by `reason` with `loser` losing: a win for the
/// other side after mate, timeout or resignation, else a draw.
pub open spec fn result_of_end(reason: TerminationReason, loser: PieceColor) -> GameResult {
    match reason {
        TerminationReason::Checkmate | TerminationReason::Timeout | TerminationReason::Resignation => match loser {
            PieceColor::White => GameResult::BlackWin,
            PieceColor::Black => GameResult::WhiteWin,
        },
        _ => GameResult::Draw,
    }
}

/// The player's rating change when a game ends by `reason` with `loser`
/// losing: +10 for a win, -10 for a loss, 0 for a draw.
pub open spec fn gain_of_end(reason: TerminationReason, loser: PieceColor, player: PieceColor) -> i32 {
    match reason {
        TerminationReason::Checkmate | TerminationReason::Timeout | TerminationReason::Resignation => if player
            != loser {
            10
        } else {
            -10i32
        },
        _ => 0,
    }
}

/// A game ended by checkmate, time or resignation is won by the side other
/// than the loser, and the player gains 10 for a win and loses 10 for a
/// loss; a stalemate or a draw is a draw with no rating change. The loser
/// never wins.
pub proof fn lemma_end_result(reason: TerminationReason, loser: PieceColor, player: PieceColor)
    ensures
        reason == TerminationReason::Checkmate || reason == TerminationReason::Timeout || reason
            == TerminationReason::Resignation ==> result_of_end(reason, loser) == if loser == PieceColor::White {
            GameResult::BlackWin
        } else {
            GameResult::WhiteWin
        } && gain_of_end(reason, loser, player) == if player == loser {
            -10i32
        } else {
            10i32
        },
        reason == TerminationReason::StaleMate || reason == TerminationReason::Draw ==> result_of_end(reason, loser)
            == GameResult::Draw && gain_of_end(reason, loser, player) == 0,
        result_of_end(reason, loser) != if loser == PieceColor::White {
            GameResult::WhiteWin
        } else {
            GameResult::BlackWin
        },
{
}

/// The time control text of a mode: its seconds.
pub open spec fn mode_seconds(mode: GameControllerMode) -> Seq<char> {
    match mode {
        GameControllerMode::Bullet => "60"@,
        GameControllerMode::Blitz => "180"@,
        GameControllerMode::Rapid => "600"@,
        GameControllerMode::Classical => "1800"@,
    }
}

/// A new game in a mode: the player is White against the engine, both rated
/// 500, on the default board, with a stopped clock, not started.
pub open spec fn is_new_game(g: GameController, mode: GameControllerMode) -> bool {
    &&& g.mode == mode
    &&& g.player == PieceColor::White
    &&& g.white_name@ == "Petru"@
    &&& g.black_name@ == "Stockfish"@
    &&& g.white_elo == 500
    &&& g.black_elo == 500
    &&& crate::engine::fen::is_default_board(g.board)
    &&& g.clock.white_time_remaining == mode_time(mode)
    &&& g.clock.black_time_remaining == mode_time(mode)
    &&& !g.clock.is_active
    &&& g.clock.active_color == PieceColor::White
    &&& g.state == GameControllerState::AwaitingStart
    &&& g.termination_reason is None
    &&& g.result is None
    &&& g.elo_gain is None
    &&& g.can_be_abandoned
}

/// Appends a name card.
fn push_card(out: &mut String, name: &String, elo: usize)
    ensures
        final(out)@ == old(out)@ + name_card(name@, elo),
{
    push_str(out, name.as_str());
    out.push(' ');
    out.push('(');
    push_decimal(out, elo as u64);
    out.push(')');
}

impl GameController {
    /// A new game in a mode (`is_new_game`).
    pub fn from(mode: GameControllerMode) -> (g: GameController)
        ensures
            is_new_game(g, mode),
    {
        GameController {
            mode,
            player: PieceColor::White,
            white_name: String::from_str("Petru"),
            black_name: String::from_str("Stockfish"),
            white_elo: 500,
            black_elo: 500,
            board: Board::default(),
            clock: ChessClock::from(mode),
            state: GameControllerState::AwaitingStart,
            termination_reason: None,
            result: None,
            elo_gain: None,
            can_be_abandoned: true,
        }
    }

    /// A new rapid game.
    pub fn default() -> (g: GameController)
        ensures
            is_new_game(g, GameControllerMode::Rapid),
    {
        GameController::from(GameControllerMode::Rapid)
    }

    /// A new rapid game.
    pub fn new() -> (g: GameController)
        ensures
            is_new_game(g, GameControllerMode::Rapid),
    {
        GameController::default()
    }

    /// The game as sent to the interface (`is_serialized_game`).
    pub fn serialize(&self) -> (s: SerializedGameController)
        ensures
            is_serialized_game(s, *self),
    {
        let (white_clock, black_clock) = self.clock.format();
        let mut white_card = String::new();
        push_card(&mut white_card, &self.white_name, self.white_elo);
        let mut black_card = String::new();
        push_card(&mut black_card, &self.black_name, self.black_elo);
        let (player_card, engine_card, player_clock, engine_clock) = match self.player {
            PieceColor::White => (white_card, black_card, white_clock, black_clock),
            PieceColor::Black => (black_card, white_card, black_clock, white_clock),
        };
        SerializedGameController {
            player: self.player,
            mode: self.mode,
            player_card,
            engine_card,
            board: serialize_board(&self.board),
            player_clock,
            engine_clock,
            state: self.state,
            termination_reason: self.termination_reason,
            result: self.result,
            elo_gain: self.elo_gain,
            can_be_abandoned: self.can_be_abandoned,
        }
    }

    /// Ends the game by `reason`, `loser` losing: sets the reason and the
    /// result, and, once both sides have moved, the player's rating change.
    pub fn end_game(&mut self, reason: TerminationReason, loser: PieceColor) -> (s: SerializedGameController)
        ensures
            *final(self) == (GameController {
                termination_reason: Some(reason),
                state: GameControllerState::Ended,
                result: Some(result_of_end(reason, loser)),
                elo_gain: if old(self).board.meta_data.move_list@.len() < 2 {
                    old(self).elo_gain
                } else {
                    Some(gain_of_end(reason, loser, old(self).player))
                },
                ..*old(self)
            }),
            is_serialized_game(s, *final(self)),
    {
        self.termination_reason = Some(reason);
        self.state = GameControllerState::Ended;
        self.result = match reason {
            TerminationReason::Checkmate | TerminationReason::Timeout | TerminationReason::Resignation => match loser {
                PieceColor::White => Some(GameResult::BlackWin),
                PieceColor::Black => Some(GameResult::WhiteWin),
            },
            TerminationReason::StaleMate | TerminationReason::Draw => Some(GameResult::Draw),
        };
        if !(self.board.meta_data.move_list.len() < 2) {
            self.elo_gain = match reason {
                TerminationReason::Checkmate | TerminationReason::Timeout | TerminationReason::Resignation => {
                    if self.player != loser {
                        Some(10)
                    } else {
                        Some(-10)
                    }
                },
                TerminationReason::StaleMate | TerminationReason::Draw => Some(0),
            };
        }
        self.serialize()
    }

    /// Switches to another mode, with that mode's clock.
    pub fn change_mode(&mut self, new_mode: GameControllerMode)
        ensures
            final(self).mode == new_mode,
            final(self).clock.white_time_remaining == mode_time(new_mode),
            final(self).clock.black_time_remaining == mode_time(new_mode),
            !final(self).clock.is_active,
            final(self).clock.active_color == PieceColor::White,
            *final(self) == (GameController { mode: new_mode, clock: final(self).clock, ..*old(self) }),
    {
        let clock = ChessClock::from(new_mode);
        self.mode = new_mode;
        self.clock = clock;
    }

    /// Exporting a game does nothing yet.
    pub fn export() {
    }

    /// Saving a game from here does nothing yet.
    pub fn save() {
    }
}

/// `b` is the board a game starts on: the default board `b0` with its move
/// cache refreshed and its record naming the site `Koch`, the mode's time
/// control and the players (the black rating field set to the white
/// rating).
pub open spec fn is_start_board(b: Board, b0: Board, g: GameController) -> bool {
    &&& crate::engine::fen::is_default_board(b0)
    &&& b.squares == b0.squares
    &&& b.turn == b0.turn
    &&& rights_of(b) == rights_of(b0)
    &&& b.halfmove_clock == b0.halfmove_clock
    &&& b.fullmove_number == b0.fullmove_number
    &&& b.en_passant_target == b0.en_passant_target
    &&& b.next_id == b0.next_id
    &&& b.game_phase == b0.game_phase
    &&& b.ply_count == b0.ply_count
    &&& cache_refreshed(b0.move_cache@, b.move_cache@, b0.squares, b0.en_passant_target, 64)
    &&& b.meta_data == BoardMetaData {
        site: b.meta_data.site,
        time_control: b.meta_data.time_control,
        black_player_elo: g.white_elo as u32,
        black_player_name: b.meta_data.black_player_name,
        white_player_name: b.meta_data.white_player_name,
        ..b0.meta_data
    }
    &&& holds_text(b.meta_data.site, "Koch"@)
    &&& holds_text(b.meta_data.time_control, mode_seconds(g.mode))
    &&& b.meta_data.black_player_name@ == g.black_name@
    &&& b.meta_data.white_player_name@ == g.white_name@
}

/// Two decimal digits of a number below 100.
pub open spec fn two_digits(n: nat) -> Seq<char> {
    seq![digit_char(n / 10), digit_char(n % 10)]
}

/// A clock reading `mm:ss:cc` of a time in milliseconds: minutes (below an
/// hour), seconds and hundredths.
pub open spec fn clock_text(ms: u32) -> Seq<char> {
    two_digits(((ms / 60000) % 60) as nat) + seq![':'] + two_digits(((ms / 1000) % 60) as nat) + seq![':']
        + two_digits(((ms % 1000) / 10) as nat)
}

/// How a lost position ended: mate, stalemate, else a draw by the move
/// count.
pub open spec fn termination_of_board(b: Board) -> TerminationReason {
    if checkmate(b.squares, b.en_passant_target, b.turn) {
        TerminationReason::Checkmate
    } else if stalemate(b.squares, b.en_passant_target, b.turn) {
        TerminationReason::StaleMate
    } else {
        TerminationReason::Draw
    }
}

/// The result of an ending with the side `turn` to move: that side loses by
/// mate, timeout or resignation; stalemate and draw are draws.
pub open spec fn result_for(reason: TerminationReason, turn: PieceColor) -> GameResult {
    match reason {
        TerminationReason::StaleMate | TerminationReason::Draw => GameResult::Draw,
        _ => if turn == PieceColor::White {
            GameResult::BlackWin
        } else {
            GameResult::WhiteWin
        },
    }
}

/// The rating difference of the players as 32-bit numbers, which must not
/// overflow.
pub open spec fn elo_difference(white_elo: usize, black_elo: usize) -> int {
    (white_elo as i32) as int - (black_elo as i32) as int
}

/// The player's rating change for a result: +10 for a win, -10 for a loss;
/// for a draw, 0 when the ratings differ by at most 10, else -1 for the
/// higher rated player and +1 for the lower.
pub open spec fn gain_for(result: GameResult, player: PieceColor, white_elo: usize, black_elo: usize) -> i32 {
    match result {
        GameResult::WhiteWin => if player == PieceColor::White {
            10
        } else {
            -10i32
        },
        GameResult::BlackWin => if player == PieceColor::Black {
            10
        } else {
            -10i32
        },
        GameResult::Draw => {
            let d = elo_difference(white_elo, black_elo);
            let delta = if d < 0 {
                -d
            } else {
                d
            };
            if delta > 10 {
                if (player == PieceColor::White && white_elo > black_elo) || (player == PieceColor::Black
                    && black_elo > white_elo) {
                    -1i32
                } else {
                    1
                }
            } else {
                0
            }
        },
        GameResult::Unfinished => 0,
    }
}

/// Two decimal digits of a number below 100.
fn push_two_digits(out: &mut String, n: u32)
    requires
        n < 100,
    ensures
        final(out)@ == old(out)@ + two_digits(n as nat),
{
    out.push(digit_to_char(n / 10));
    out.push(digit_to_char(n % 10));
}

/// The clock reading of a time in milliseconds (`clock_text`).
fn clock_reading(ms: u32) -> (s: String)
    ensures
        s@ == clock_text(ms),
{
    let minutes = (ms / 60000) % 60;
    let seconds = (ms / 1000) % 60;
    let millis = (ms % 1000) / 10;
    let mut out = String::new();
    push_two_digits(&mut out, minutes);
    out.push(':');
    push_two_digits(&mut out, seconds);
    out.push(':');
    push_two_digits(&mut out, millis);
    out
}

impl GameController {
    /// Starts the game: the player's colour by a coin toss, the mode's clock
    /// running, a fresh board with its record filled in (`is_start_board`),
    /// and the game ongoing and still abandonable.
    pub fn start(&mut self) -> (s: SerializedGameController)
        ensures
            is_serialized_game(s, *final(self)),
            exists|b0: Board| is_start_board(final(self).board, b0, *old(self)),
            final(self).clock.white_time_remaining == mode_time(old(self).mode),
            final(self).clock.black_time_remaining == mode_time(old(self).mode),
            final(self).clock.is_active,
            final(self).clock.active_color == PieceColor::White,
            final(self).state == GameControllerState::Ongoing,
            final(self).can_be_abandoned,
            final(self).mode == old(self).mode,
            final(self).white_name == old(self).white_name,
            final(self).black_name == old(self).black_name,
            final(self).white_elo == old(self).white_elo,
            final(self).black_elo == old(self).black_elo,
            final(self).termination_reason == old(self).termination_reason,
            final(self).result == old(self).result,
            final(self).elo_gain == old(self).elo_gain,
    {
        let player_color = if coin_toss() {
            PieceColor::White
        } else {
            PieceColor::Black
        };
        self.player = player_color;
        self.clock = ChessClock::from(self.mode);
        self.clock.is_active = true;
        self.state = GameControllerState::Ongoing;
        let mut board = Board::default();
        let ghost b0 = board;
        proof {
            crate::engine::fen::lemma_default_board_on_board(b0);
        }
        board.meta_data.site = Some(String::from_str("Koch"));
        board.meta_data.time_control = Some(
            match self.mode {
                GameControllerMode::Bullet => String::from_str("60"),
                GameControllerMode::Blitz => String::from_str("180"),
                GameControllerMode::Rapid => String::from_str("600"),
                GameControllerMode::Classical => String::from_str("1800"),
            },
        );
        board.meta_data.black_player_elo = self.black_elo as u32;
        board.meta_data.black_player_elo = self.white_elo as u32;
        board.meta_data.black_player_name = self.black_name.clone();
        board.meta_data.white_player_name = self.white_name.clone();
        board.rerender_move_cache();
        self.board = board;
        self.can_be_abandoned = true;
        assert(is_start_board(self.board, b0, *old(self)));
        self.serialize()
    }
}

/// A time left less an elapsed time, not below zero.
pub open spec fn time_left(left: u128, elapsed: u128) -> u128 {
    if left > elapsed {
        (left - elapsed) as u128
    } else {
        0
    }
}

/// `g2` is `g` after a move in a running game, `elapsed` nanoseconds after
/// the turn started: the mover's time is reduced and the other side's clock
/// runs; the board is `b1` after `move_piece` (with result `res`), and a move
/// played is recorded with the mover's clock reading; when the position is
/// then lost (mate, stalemate, or 50 on the halfmove clock) the game ends
/// with its reason, result and the player's rating change.
pub open spec fn is_update_step(
    g: GameController,
    g2: GameController,
    from: (u8, u8),
    to: (u8, u8),
    promotion: Option<PieceType>,
    elapsed: u128,
    b1: Board,
    res: Result<MoveStruct, MoveError>,
) -> bool {
    let active = g.clock.active_color;
    let white_left = if active == PieceColor::White {
        time_left(g.clock.white_time_remaining, elapsed)
    } else {
        g.clock.white_time_remaining
    };
    let black_left = if active == PieceColor::Black {
        time_left(g.clock.black_time_remaining, elapsed)
    } else {
        g.clock.black_time_remaining
    };
    let ms = if active == PieceColor::White {
        millis_of(white_left)
    } else {
        millis_of(black_left)
    };
    let lost = checkmate(b1.squares, b1.en_passant_target, b1.turn) || stalemate(
        b1.squares,
        b1.en_passant_target,
        b1.turn,
    ) || b1.halfmove_clock == 50;
    let reason = termination_of_board(b1);
    let result = result_for(reason, b1.turn);
    let list = g2.board.meta_data.move_list@;
    &&& g2.clock.white_time_remaining == white_left
    &&& g2.clock.black_time_remaining == black_left
    &&& g2.clock.is_active
    &&& g2.clock.active_color == opposite(active)
    &&& move_outcome(g.board, b1, from, to, promotion, res)
    &&& b1.wf()
    &&& g2.board.squares == b1.squares
    &&& g2.board.turn == b1.turn
    &&& rights_of(g2.board) == rights_of(b1)
    &&& g2.board.halfmove_clock == b1.halfmove_clock
    &&& g2.board.fullmove_number == b1.fullmove_number
    &&& g2.board.en_passant_target == b1.en_passant_target
    &&& g2.board.next_id == b1.next_id
    &&& g2.board.game_phase == b1.game_phase
    &&& g2.board.ply_count == b1.ply_count
    &&& g2.board.meta_data == BoardMetaData { move_list: g2.board.meta_data.move_list, ..b1.meta_data }
    &&& match res {
        Ok(mv) => list.len() == b1.meta_data.move_list@.len() + 1 && list.drop_last()
            == b1.meta_data.move_list@ && list.last() == MoveStruct { clock: list.last().clock, ..mv }
            && holds_text(list.last().clock, clock_text(ms)),
        Err(_) => list == b1.meta_data.move_list@,
    }
    &&& if lost {
        &&& g2.termination_reason == Some(reason)
        &&& g2.state == GameControllerState::Ended
        &&& g2.result == Some(result)
        &&& g2.elo_gain == Some(gain_for(result, g.player, g.white_elo, g.black_elo))
    } else {
        &&& g2.termination_reason == g.termination_reason
        &&& g2.state == g.state
        &&& g2.result == g.result
        &&& g2.elo_gain == g.elo_gain
    }
    &&& g2.mode == g.mode
    &&& g2.player == g.player
    &&& g2.white_name == g.white_name
    &&& g2.black_name == g.black_name
    &&& g2.white_elo == g.white_elo
    &&& g2.black_elo == g.black_elo
}

impl GameController {
    /// Takes `elapsed` nanoseconds off the running side's time (not below
    /// zero) and returns that side's time left in milliseconds.
    fn tick_clock(&mut self, elapsed: u128) -> (ms: u32)
        ensures
            final(self).clock.white_time_remaining == if old(self).clock.active_color == PieceColor::White {
                time_left(old(self).clock.white_time_remaining, elapsed)
            } else {
                old(self).clock.white_time_remaining
            },
            final(self).clock.black_time_remaining == if old(self).clock.active_color == PieceColor::Black {
                time_left(old(self).clock.black_time_remaining, elapsed)
            } else {
                old(self).clock.black_time_remaining
            },
            ms == if old(self).clock.active_color == PieceColor::White {
                millis_of(final(self).clock.white_time_remaining)
            } else {
                millis_of(final(self).clock.black_time_remaining)
            },
            *final(self) == (GameController { clock: final(self).clock, ..*old(self) }),
            final(self).clock == (ChessClock {
                white_time_remaining: final(self).clock.white_time_remaining,
                black_time_remaining: final(self).clock.black_time_remaining,
                ..old(self).clock
            }),
    {
        match self.clock.active_color {
            PieceColor::White => {
                if self.clock.white_time_remaining > elapsed {
                    self.clock.white_time_remaining = self.clock.white_time_remaining - elapsed;
                } else {
                    self.clock.white_time_remaining = 0;
                }
            },
            PieceColor::Black => {
                if self.clock.black_time_remaining > elapsed {
                    self.clock.black_time_remaining = self.clock.black_time_remaining - elapsed;
                } else {
                    self.clock.black_time_remaining = 0;
                }
            },
        }
        match self.clock.active_color {
            PieceColor::White => self.clock.format().0,
            PieceColor::Black => self.clock.format().1,
        }
    }

    /// Ends the game when the position is lost: mate, stalemate, or 50 on the
    /// halfmove clock (`is_update_step`).
    fn conclude_if_lost(&mut self)
        requires
            crate::engine::move_gen::positions_on_board(old(self).board.squares),
            i32::MIN < elo_difference(old(self).white_elo, old(self).black_elo) <= i32::MAX,
        ensures
            final(self).board == old(self).board,
            ({
                let b1 = old(self).board;
                let lost = checkmate(b1.squares, b1.en_passant_target, b1.turn) || stalemate(
                    b1.squares,
                    b1.en_passant_target,
                    b1.turn,
                ) || b1.halfmove_clock == 50;
                let reason = termination_of_board(b1);
                let result = result_for(reason, b1.turn);
                if lost {
                    *final(self) == (GameController {
                        termination_reason: Some(reason),
                        state: GameControllerState::Ended,
                        result: Some(result),
                        elo_gain: Some(gain_for(result, old(self).player, old(self).white_elo, old(self).black_elo)),
                        ..*old(self)
                    })
                } else {
                    *final(self) == *old(self)
                }
            }),
    {
        if self.board.has_lost() {
            let reason = if self.board.is_checkmate() {
                TerminationReason::Checkmate
            } else if self.board.is_stalemate() {
                TerminationReason::StaleMate
            } else {
                TerminationReason::Draw
            };
            self.termination_reason = Some(reason);
            self.state = GameControllerState::Ended;
            let result = match reason {
                TerminationReason::StaleMate | TerminationReason::Draw => GameResult::Draw,
                _ => if self.board.turn == PieceColor::White {
                    GameResult::BlackWin
                } else {
                    GameResult::WhiteWin
                },
            };
            self.result = Some(result);
            self.elo_gain = Some(
                match result {
                    GameResult::WhiteWin => if self.player == PieceColor::White {
                        10
                    } else {
                        -10
                    },
                    GameResult::BlackWin => if self.player == PieceColor::Black {
                        10
                    } else {
                        -10
                    },
                    GameResult::Draw => {
                        let d = (self.white_elo as i32) as i64 - (self.black_elo as i32) as i64;
                        let delta = if d < 0 {
                            -d
                        } else {
                            d
                        };
                        if delta > 10 {
                            if (self.player == PieceColor::White && self.white_elo > self.black_elo) || (
                            self.player == PieceColor::Black && self.black_elo > self.white_elo) {
                                -1
                            } else {
                                1
                            }
                        } else {
                            0
                        }
                    },
                    GameResult::Unfinished => 0,
                },
            );
        }
    }

    /// Plays the move on the board and records it with the clock reading.
    fn play_and_record(&mut self, from: (u8, u8), to: (u8, u8), promotion: Option<PieceType>, reading: String) -> (out: Ghost<(Board, Result<MoveStruct, MoveError>)>)
        requires
            old(self).board.wf(),
            on_board(from),
            material_fits(old(self).board, from, to, promotion),
        ensures
            ({
                let (b1, res) = out@;
                let g2 = *final(self);
                let list = g2.board.meta_data.move_list@;
                &&& move_outcome(old(self).board, b1, from, to, promotion, res)
                &&& b1.wf()
                &&& g2.board == Board { meta_data: g2.board.meta_data, ..b1 }
                &&& g2.board.meta_data == BoardMetaData { move_list: g2.board.meta_data.move_list, ..b1.meta_data }
                &&& match res {
                    Ok(mv) => list.len() == b1.meta_data.move_list@.len() + 1 && list.drop_last()
                        == b1.meta_data.move_list@ && list.last() == MoveStruct { clock: list.last().clock, ..mv }
                        && holds_text(list.last().clock, reading@),
                    Err(_) => list == b1.meta_data.move_list@,
                }
                &&& g2 == GameController { board: g2.board, ..*old(self) }
            }),
    {
        let ghost b0 = self.board;
        let move_result = self.board.move_piece(from, to, promotion);
        let ghost b1 = self.board;
        assert(move_outcome(b0, b1, from, to, promotion, move_result));
        match move_result {
            Ok(mut mv_struct) => {
                let ghost before = self.board.meta_data.move_list@;
                mv_struct.clock = Some(reading);
                self.board.meta_data.move_list.push(mv_struct);
                assert(self.board.meta_data.move_list@.drop_last() == before);
            },
            Err(_) => {},
        }
        Ghost((b1, move_result))
    }

    /// Plays the move `from`-`to` (with `promotion`) in a running game,
    /// `elapsed` nanoseconds after the turn started, as `is_update_step` says;
    /// the turn now starts at `now`, the move cache is refreshed and the game
    /// can no longer be abandoned.
    pub fn update_with_elapsed(
        &mut self,
        from: (u8, u8),
        to: (u8, u8),
        promotion: Option<PieceType>,
        elapsed: u128,
        now: Instant,
    ) -> (s: SerializedGameController)
        requires
            old(self).clock.is_active,
            old(self).board.wf(),
            on_board(from),
            material_fits(old(self).board, from, to, promotion),
            i32::MIN < elo_difference(old(self).white_elo, old(self).black_elo) <= i32::MAX,
        ensures
            is_serialized_game(s, *final(self)),
            final(self).board.wf(),
            !final(self).can_be_abandoned,
            final(self).clock.last_turn_start == now,
            exists|c: Map<u32, crate::engine::board::PieceMoves>|
                cache_refreshed(
                    c,
                    final(self).board.move_cache@,
                    final(self).board.squares,
                    final(self).board.en_passant_target,
                    64,
                ),
            exists|b1: Board, res: Result<MoveStruct, MoveError>|
                #[trigger] is_update_step(*old(self), *final(self), from, to, promotion, elapsed, b1, res),
    {
        let ghost g0 = *self;
        let ms = self.tick_clock(elapsed);
        let reading = clock_reading(ms);
        self.clock.last_turn_start = now;
        self.clock.active_color = match self.clock.active_color {
            PieceColor::White => PieceColor::Black,
            PieceColor::Black => PieceColor::White,
        };
        let played = self.play_and_record(from, to, promotion, reading);
        let ghost b1 = played@.0;
        let ghost res = played@.1;
        self.conclude_if_lost();
        self.board.rerender_move_cache();
        self.can_be_abandoned = false;
        assert(is_update_step(g0, *self, from, to, promotion, elapsed, b1, res));
        self.serialize()
    }

    /// Plays the move `from`-`to` (with `promotion`) when the clock runs, as
    /// `update_with_elapsed` does with the time passed since the turn
    /// started; the move cache is refreshed and the game can no longer be
    /// abandoned. With the clock stopped only that happens.
    pub fn update(&mut self, from: (u8, u8), to: (u8, u8), promotion: Option<PieceType>) -> (s: SerializedGameController)
        requires
            old(self).board.wf(),
            on_board(from),
            material_fits(old(self).board, from, to, promotion),
            i32::MIN < elo_difference(old(self).white_elo, old(self).black_elo) <= i32::MAX,
        ensures
            is_serialized_game(s, *final(self)),
            final(self).board.wf(),
            !final(self).can_be_abandoned,
            exists|c: Map<u32, crate::engine::board::PieceMoves>|
                cache_refreshed(
                    c,
                    final(self).board.move_cache@,
                    final(self).board.squares,
                    final(self).board.en_passant_target,
                    64,
                ),
            !old(self).clock.is_active ==> *final(self) == (GameController {
                board: Board { move_cache: final(self).board.move_cache, ..old(self).board },
                can_be_abandoned: false,
                ..*old(self)
            }),
            old(self).clock.is_active ==> exists|elapsed: u128, b1: Board, res: Result<MoveStruct, MoveError>|
                #[trigger] is_update_step(*old(self), *final(self), from, to, promotion, elapsed, b1, res),
    {
        let now = instant_now();
        let elapsed = nanos_of(&duration_since(&now, &self.clock.last_turn_start));
        if self.clock.is_active {
            let s = self.update_with_elapsed(from, to, promotion, elapsed, now);
            return s;
        }
        self.board.rerender_move_cache();
        self.can_be_abandoned = false;
        self.serialize()
    }
}

} // verus!
