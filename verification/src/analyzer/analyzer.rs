use vstd::prelude::*;

use crate::engine::board::{Board, MoveStruct};
use crate::engine::fen::{fen_of, is_default_board};
use crate::engine::piece::{ChessPiece, PieceColor, PieceType};
use crate::engine::serializer::{
    is_serialized, push_part, serialize_board, SerializedBoard, };
use crate::server::server::PvObject;
use crate::text::{
    chars_of, decimal, join_with, push_decimal, push_str, split_on,
    split_chars, split_whitespace, signed_decimal, str_eq, views, ws_fields,
};

verus! {

/// Commands the analysis thread accepts.
#[derive(Clone, Debug)]
pub enum EngineCommand {
    SetFen(String),
    GoInfinite,
    Stop,
    Quit,
    SetAndGo(String, i32),
    SetMultiPv(usize),
    SetHashSize(usize),
    SetThreads(usize),
    GetThreat(String, i32),
}

/// The engine options the user can set.
#[derive(Clone, Copy, Debug, PartialEq, Eq, Structural)]
pub enum EngineOption {
    MultiPv,
    Threads,
    Hash,
}

/// The part of a position that a move cannot be undone from by moving pieces
/// back: side to move, castling rights, en-passant target and clocks.
#[derive(Clone, Copy, Debug)]
pub struct BoardState {
    pub turn: PieceColor,
    pub white_big_castle: bool,
    pub white_small_castle: bool,
    pub black_big_castle: bool,
    pub black_small_castle: bool,
    pub en_passant_target: Option<(u8, u8)>,
    pub halfmove_clock: u32,
    pub fullmove_number: u32,
}

/// What kind of move an undo record undoes.
#[derive(Clone, Copy, Debug)]
pub enum MoveKind {
    Normal { promotion: Option<PieceType> },
    EnPassant { captured_at: (u8, u8) },
    Castling { rook_from: (u8, u8), rook_to: (u8, u8) },
}

/// Everything needed to take a move back.
#[derive(Clone, Copy, Debug)]
pub struct UndoInfo {
    pub from: (u8, u8),
    pub to: (u8, u8),
    pub captured: Option<ChessPiece>,
    pub prev_state: BoardState,
    pub kind: MoveKind,
}

/// The author of a message in a chat with the assistant.
#[derive(Clone, Copy, Debug, PartialEq, Eq, Structural)]
pub enum AiChatMessageRole {
    System,
    User,
    Assistant,
    Function,
    Tool,
}

/// The role a name stands for; an unknown name is the user.
pub open spec fn ai_role_of(s: Seq<char>) -> AiChatMessageRole {
    if s == "System"@ {
        AiChatMessageRole::System
    } else if s == "User"@ {
        AiChatMessageRole::User
    } else if s == "Assistant"@ {
        AiChatMessageRole::Assistant
    } else if s == "Function"@ {
        AiChatMessageRole::Function
    } else if s == "Tool"@ {
        AiChatMessageRole::Tool
    } else {
        AiChatMessageRole::User
    }
}

/// The name of a role.
pub open spec fn ai_role_name(r: AiChatMessageRole) -> Seq<char> {
    match r {
        AiChatMessageRole::System => "System"@,
        AiChatMessageRole::User => "User"@,
        AiChatMessageRole::Assistant => "Assistant"@,
        AiChatMessageRole::Function => "Function"@,
        AiChatMessageRole::Tool => "Tool"@,
    }
}

/// A role written by its name reads back as the same role.
pub proof fn lemma_ai_role_roundtrip(r: AiChatMessageRole)
    ensures
        ai_role_of(ai_role_name(r)) == r,
{
    reveal_strlit("System");
    reveal_strlit("User");
    reveal_strlit("Assistant");
    reveal_strlit("Function");
    reveal_strlit("Tool");
    assert("System"@[0] != "User"@[0]);
    assert("System"@[0] != "Assistant"@[0]);
    assert("System"@[0] != "Function"@[0]);
    assert("System"@[0] != "Tool"@[0]);
    assert("User"@[0] != "Assistant"@[0]);
    assert("User"@[0] != "Function"@[0]);
    assert("User"@[0] != "Tool"@[0]);
    assert("Assistant"@[0] != "Function"@[0]);
    assert("Assistant"@[0] != "Tool"@[0]);
    assert("Function"@[0] != "Tool"@[0]);
}

impl AiChatMessageRole {
    /// The role a name stands for; an unknown name is the user.
    pub fn from(value: &str) -> (r: AiChatMessageRole)
        ensures
            r == ai_role_of(value@),
    {
        if str_eq(value, "System") {
            AiChatMessageRole::System
        } else if str_eq(value, "User") {
            AiChatMessageRole::User
        } else if str_eq(value, "Assistant") {
            AiChatMessageRole::Assistant
        } else if str_eq(value, "Function") {
            AiChatMessageRole::Function
        } else if str_eq(value, "Tool") {
            AiChatMessageRole::Tool
        } else {
            AiChatMessageRole::User
        }
    }

    /// The name of the role.
    pub fn to_string(&self) -> (s: String)
        ensures
            s@ == ai_role_name(*self),
    {
        match self {
            AiChatMessageRole::System => String::from_str("System"),
            AiChatMessageRole::User => String::from_str("User"),
            AiChatMessageRole::Assistant => String::from_str("Assistant"),
            AiChatMessageRole::Function => String::from_str("Function"),
            AiChatMessageRole::Tool => String::from_str("Tool"),
        }
    }
}

/// A message of a chat with the assistant, with the move it refers to.
#[derive(Clone, Debug)]
pub struct AiChatMessage {
    pub role: AiChatMessageRole,
    pub text: String,
    pub sent_at: String,
    pub move_index: i32,
}

/// The author of a stored chat message.
#[derive(Clone, Copy, Debug, PartialEq, Eq, Structural)]
pub enum LocalMessageRole {
    User,
    Assistent,
}

/// The role a stored name stands for; an unknown name is the user.
pub open spec fn local_role_of(s: Seq<char>) -> LocalMessageRole {
    if s == "Assistent"@ {
        LocalMessageRole::Assistent
    } else {
        LocalMessageRole::User
    }
}

/// The stored name of a role.
pub open spec fn local_role_name(r: LocalMessageRole) -> Seq<char> {
    match r {
        LocalMessageRole::User => "User"@,
        LocalMessageRole::Assistent => "Assistent"@,
    }
}

/// A role stored by its name reads back as the same role.
pub proof fn lemma_local_role_roundtrip(r: LocalMessageRole)
    ensures
        local_role_of(local_role_name(r)) == r,
{
    reveal_strlit("User");
    reveal_strlit("Assistent");
    assert("User"@[0] != "Assistent"@[0]);
}

impl LocalMessageRole {
    /// The role a stored name stands for; an unknown name is the user.
    pub fn from(value: &str) -> (r: LocalMessageRole)
        ensures
            r == local_role_of(value@),
    {
        if str_eq(value, "Assistent") {
            LocalMessageRole::Assistent
        } else {
            LocalMessageRole::User
        }
    }

    /// The stored name of the role.
    pub fn to_string(&self) -> (s: String)
        ensures
            s@ == local_role_name(*self),
    {
        match self {
            LocalMessageRole::User => String::from_str("User"),
            LocalMessageRole::Assistent => String::from_str("Assistent"),
        }
    }
}

/// A stored conversation about a game.
#[derive(Clone, Debug)]
pub struct LocalChat {
    pub chat_id: i32,
    pub chat_messages: Vec<LocalMessage>,
}

impl LocalChat {
    /// A chat not stored yet: id -1 and no messages.
    pub fn default() -> (c: LocalChat)
        ensures
            c.chat_id == -1,
            c.chat_messages@.len() == 0,
    {
        LocalChat { chat_id: -1, chat_messages: Vec::new() }
    }
}

/// A stored chat message; `move_index` is the ply it refers to, -1 for none.
#[derive(Clone, Debug)]
pub struct LocalMessage {
    pub role: LocalMessageRole,
    pub content: String,
    pub move_index: isize,
    pub sent_at: String,
}

impl LocalMessage {
    /// An empty user message that refers to no move.
    pub fn default() -> (m: LocalMessage)
        ensures
            m.role == LocalMessageRole::User,
            m.content@.len() == 0,
            m.move_index == -1,
            m.sent_at@.len() == 0,
    {
        LocalMessage {
            role: LocalMessageRole::User,
            content: String::new(),
            move_index: -1,
            sent_at: String::new(),
        }
    }
}

/// The analysis board: the game it shows, the position at the ply shown
/// (-1 for the start) with the records to take the moves back, the last
/// threat and variations found, and the chat about the game.
#[derive(Clone)]
pub struct AnalyzerController {
    pub game_id: usize,
    pub board: Board,
    pub current_ply: i32,
    pub board_undo: Vec<UndoInfo>,
    pub last_threat: Option<String>,
    pub last_pv: Option<PvObject>,
    pub chat_history: LocalChat,
}

/// An analysis board as sent to the interface.
#[derive(Debug)]
pub struct SerializedAnalyzerController {
    pub game_id: usize,
    pub serialized_board: SerializedBoard,
    pub current_ply: i32,
}

impl AnalyzerController {
    /// An analysis board on the default board at the start, with nothing
    /// found and an empty chat.
    pub fn default() -> (a: AnalyzerController)
        ensures
            a.game_id == 0,
            is_default_board(a.board),
            a.current_ply == -1,
            a.board_undo@.len() == 0,
            a.last_threat is None,
            a.last_pv is None,
            a.chat_history.chat_id == -1,
            a.chat_history.chat_messages@.len() == 0,
    {
        AnalyzerController {
            game_id: 0,
            board: Board::default(),
            current_ply: -1,
            board_undo: Vec::new(),
            last_threat: None,
            last_pv: None,
            chat_history: LocalChat::default(),
        }
    }

    /// The FEN of the position shown.
    pub fn get_fen(&self) -> (fen: String)
        ensures
            fen@ == fen_of(self.board),
    {
        self.board.to_string()
    }
}

/// The analysis board as sent to the interface.
pub fn serialize_analyzer_controller(controller: &AnalyzerController) -> (s: SerializedAnalyzerController)
    ensures
        s.game_id == controller.game_id,
        is_serialized(s.serialized_board, controller.board),
        s.current_ply == controller.current_ply,
{
    SerializedAnalyzerController {
        game_id: controller.game_id,
        serialized_board: serialize_board(&controller.board),
        current_ply: controller.current_ply,
    }
}

/// The fields of a FEN with the side to move switched: a second field `w`
/// becomes `b`, any other becomes `w`.
pub open spec fn flipped_fields(f: Seq<Seq<char>>) -> Seq<Seq<char>> {
    if f.len() > 1 {
        f.update(1, if f[1] == seq!['w'] { seq!['b'] } else { seq!['w'] })
    } else {
        f
    }
}

/// A FEN with the other side to move: its white-space separated fields
/// joined by single spaces, the second switched (`flipped_fields`).
pub fn flip_fen_turn(fen: &str) -> (flipped: String)
    ensures
        flipped@ == join_with(flipped_fields(ws_fields(fen@)), ' '),
{
    let mut parts = split_whitespace(&chars_of(fen));
    let ghost f = views(parts@);
    if parts.len() > 1 {
        let second = if parts[1].len() == 1 && parts[1][0] == 'w' {
            vec!['b']
        } else {
            vec!['w']
        };
        proof {
            assert(f[1] == parts@[1]@);
            if parts[1].len() == 1 && parts[1]@[0] == 'w' {
                assert(parts[1]@ =~= seq!['w']);
                assert(second@ =~= seq!['b']);
            } else {
                assert(parts[1]@ != seq!['w']);
                assert(second@ =~= seq!['w']);
            }
        }
        let ghost second_view = second@;
        parts.set(1, second);
        assert(views(parts@) =~= f.update(1, second_view));
    }
    let mut out = String::new();
    let mut i: usize = 0;
    while i < parts.len()
        invariant
            i <= parts.len(),
            out@ == join_with(views(parts@).take(i as int), ' '),
        decreases parts.len() - i,
    {
        let part = crate::text::string_from_chars(&parts[i]);
        assert(views(parts@).take(i + 1) == views(parts@).take(i as int).push(parts@[i as int]@));
        push_part(&mut out, &part, ' ', i == 0, Ghost(views(parts@).take(i as int)));
        i += 1;
    }
    assert(views(parts@).take(parts@.len() as int) == views(parts@));
    out
}

/// `n` empty-square marks `.`.
pub fn make_empty_cols(count: usize) -> (cols: Vec<String>)
    ensures
        cols@.len() == count,
        forall|i: int| 0 <= i < count ==> (#[trigger] cols@[i])@ == seq!['.'],
{
    let mut cols: Vec<String> = Vec::new();
    let mut i: usize = 0;
    while i < count
        invariant
            i <= count,
            cols@.len() == i,
            forall|k: int| 0 <= k < i ==> (#[trigger] cols@[k])@ == seq!['.'],
        decreases count - i,
    {
        proof {
            reveal_strlit(".");
        }
        cols.push(String::from_str("."));
        i += 1;
    }
    cols
}

/// The squares of a FEN row for a reader, after its rank label: a `.` for
/// each empty square counted by a digit, the character itself otherwise.
pub open spec fn model_cells(row: Seq<char>) -> Seq<Seq<char>>
    decreases row.len(),
{
    if row.len() == 0 {
        Seq::empty()
    } else {
        let c = row.last();
        let before = model_cells(row.drop_last());
        if '0' <= c <= '9' {
            before + Seq::new((c as u32 - '0' as u32) as nat, |i: int| seq!['.'])
        } else {
            before.push(seq![c])
        }
    }
}

/// The line of the `i`-th row (counting from 1) of a placement: the rank
/// label `9 - i` and the cells, separated by spaces.
pub open spec fn model_line(row: Seq<char>, i: int) -> Seq<char> {
    join_with(seq![signed_decimal(9 - i)] + model_cells(row), ' ')
}

/// The lines of the first `n` rows.
pub open spec fn model_lines(rows: Seq<Seq<char>>, n: int) -> Seq<Seq<char>>
    decreases n,
{
    if n <= 0 {
        Seq::empty()
    } else {
        model_lines(rows, n - 1).push(model_line(rows[n - 1], n))
    }
}

/// A FEN's placement drawn for a reader: each row on a line, from rank 8
/// down, then the files.
pub open spec fn model_board(fen: Seq<char>) -> Seq<char> {
    let rows = split_on(split_on(fen, ' ')[0], '/');
    join_with(model_lines(rows, rows.len() as int).push("  a b c d e f g h "@), '\n')
}

/// Appends the reader's cells of a FEN row, after those of `parts`.
fn push_model_cells(line: &mut String, row: &Vec<char>, Ghost(parts): Ghost<Seq<Seq<char>>>) -> (out: Ghost<Seq<Seq<char>>>)
    requires
        old(line)@ == join_with(parts, ' '),
        parts.len() > 0,
    ensures
        out@ == parts + model_cells(row@),
        final(line)@ == join_with(out@, ' '),
{
    let ghost mut done = parts;
    let mut k: usize = 0;
    while k < row.len()
        invariant
            k <= row.len(),
            done == parts + model_cells(row@.take(k as int)),
            done.len() > 0,
            line@ == join_with(done, ' '),
        decreases row.len() - k,
    {
        let ch = row[k];
        assert(row@.take(k + 1).drop_last() == row@.take(k as int));
        assert(row@.take(k + 1).last() == ch);
        if '0' <= ch && ch <= '9' {
            let count = ch as u32 - '0' as u32;
            let ghost start = done;
            let mut m: u32 = 0;
            while m < count
                invariant
                    m <= count,
                    done == start + Seq::new(m as nat, |i: int| seq!['.']),
                    done.len() > 0,
                    line@ == join_with(done, ' '),
                decreases count - m,
            {
                let mut dot = String::new();
                dot.push('.');
                push_part(line, &dot, ' ', false, Ghost(done));
                proof {
                    assert(start + Seq::new((m + 1) as nat, |i: int| seq!['.']) =~= (start + Seq::new(
                        m as nat,
                        |i: int| seq!['.'],
                    )).push(dot@));
                    done = done.push(dot@);
                }
                m += 1;
            }
            proof {
                assert(parts + model_cells(row@.take(k + 1)) =~= done);
            }
        } else {
            let mut cell = String::new();
            cell.push(ch);
            push_part(line, &cell, ' ', false, Ghost(done));
            proof {
                assert(parts + model_cells(row@.take(k + 1)) =~= done.push(cell@));
                done = done.push(cell@);
            }
        }
        k += 1;
    }
    assert(row@.take(row@.len() as int) == row@);
    Ghost(done)
}

/// A FEN's placement drawn for a reader (`model_board`): each row on a line
/// with its rank label, then the files.
pub fn translate_fen_for_model(fen: &str) -> (drawing: String)
    ensures
        drawing@ == model_board(fen@),
{
    let fen_parts = split_chars(&chars_of(fen), ' ');
    let board_rows = split_chars(&fen_parts[0], '/');
    let ghost rows = views(board_rows@);
    let mut out = String::new();
    let mut i: usize = 0;
    while i < board_rows.len()
        invariant
            i <= board_rows.len(),
            rows == views(board_rows@),
            out@ == join_with(model_lines(rows, i as int), '\n'),
            model_lines(rows, i as int).len() == i,
        decreases board_rows.len() - i,
    {
        let mut line = String::new();
        if i <= 8 {
            push_decimal(&mut line, (8 - i) as u64);
        } else {
            line.push('-');
            push_decimal(&mut line, (i - 8) as u64);
            assert(seq!['-'] + decimal((i - 8) as nat) == signed_decimal(8 - i));
        }
        let ghost label = seq![signed_decimal(9 - (i + 1))];
        proof {
            assert(join_with(label, ' ') == signed_decimal(9 - (i + 1)));
        }
        let cells = push_model_cells(&mut line, &board_rows[i], Ghost(label));
        assert(line@ == model_line(rows[i as int], i + 1));
        push_part(&mut out, &line, '\n', i == 0, Ghost(model_lines(rows, i as int)));
        i += 1;
    }
    let files = String::from_str("  a b c d e f g h ");
    push_part(&mut out, &files, '\n', i == 0, Ghost(model_lines(rows, i as int)));
    out
}

/// How many of the moves the command sends for the ply `current_move`: up to
/// and including it, as far as there are moves; none before the first.
pub open spec fn played_count(len: int, current_move: int) -> int {
    if current_move < 0 {
        0
    } else if current_move + 1 <= len {
        current_move + 1
    } else {
        len
    }
}

/// The UCI strings of the first `k` moves, each followed by a space.
pub open spec fn moves_spaced(ms: Seq<MoveStruct>, k: int) -> Seq<char>
    decreases k,
{
    if k <= 0 {
        Seq::empty()
    } else {
        moves_spaced(ms, k - 1) + ms[k - 1].uci@ + seq![' ']
    }
}

/// The engine command that sets up the position at ply `current_move`:
/// `position fen`, the start FEN and a space, then ` moves ` and the moves
/// played when there are any.
pub open spec fn analyzer_command(start: Seq<char>, ms: Seq<MoveStruct>, current_move: int) -> Seq<char> {
    let base = "position fen "@ + start + seq![' '];
    let k = played_count(ms.len() as int, current_move);
    if k > 0 {
        base + " moves "@ + moves_spaced(ms, k)
    } else {
        base
    }
}

/// The sign that turns the engine's evaluation into White's view: +1 when
/// White is to move at that ply (the start FEN's second field `w`, or no
/// second field), else -1.
pub open spec fn analyzer_multiplier(start: Seq<char>, ms: Seq<MoveStruct>, current_move: int) -> i32 {
    let f = ws_fields(start);
    let white_first = if f.len() >= 2 {
        f[1] == seq!['w']
    } else {
        true
    };
    let k = played_count(ms.len() as int, current_move);
    let white = if k % 2 == 0 {
        white_first
    } else {
        !white_first
    };
    if white {
        1i32
    } else {
        -1i32
    }
}

/// The engine command for the position at ply `current_move` of a game from
/// `start_fen`, and the sign of the evaluation for White.
pub fn analyzer_fen_command(start_fen: &str, moves: &Vec<MoveStruct>, current_move: isize) -> (r: (String, i32))
    ensures
        r.0@ == analyzer_command(start_fen@, moves@, current_move as int),
        r.1 == analyzer_multiplier(start_fen@, moves@, current_move as int),
{
    let mut command = String::new();
    push_str(&mut command, "position fen ");
    push_str(&mut command, start_fen);
    command.push(' ');
    let fen_parts = split_whitespace(&chars_of(start_fen));
    let mut white_to_move = if fen_parts.len() >= 2 {
        fen_parts[1].len() == 1 && fen_parts[1][0] == 'w'
    } else {
        true
    };
    proof {
        if fen_parts.len() >= 2 {
            assert(views(fen_parts@)[1] == fen_parts@[1]@);
            if fen_parts@[1]@.len() == 1 && fen_parts@[1]@[0] == 'w' {
                assert(fen_parts@[1]@ =~= seq!['w']);
            }
        }
    }
    let ghost white_first = white_to_move;
    let mut moves_text = String::new();
    let count: usize = if current_move < 0 {
        0
    } else if (current_move as usize) < moves.len() {
        current_move as usize + 1
    } else {
        moves.len()
    };
    let mut i: usize = 0;
    while i < count
        invariant
            i <= count,
            count <= moves.len(),
            moves_text@ == moves_spaced(moves@, i as int),
            white_to_move == if i % 2 == 0 {
                white_first
            } else {
                !white_first
            },
        decreases count - i,
    {
        push_str(&mut moves_text, moves[i].uci.as_str());
        moves_text.push(' ');
        white_to_move = !white_to_move;
        i += 1;
    }
    if count > 0 {
        push_str(&mut command, " moves ");
        push_str(&mut command, moves_text.as_str());
    }
    let multiplier: i32 = if white_to_move {
        1
    } else {
        -1
    };
    (command, multiplier)
}

} // verus!
