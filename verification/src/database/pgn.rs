use vstd::prelude::*;

use crate::engine::board::{result_of, result_token, BoardMetaData, GameResult, MoveStruct};
use crate::game::controller::TerminationReason;
use crate::text::{
    chars_of, contains_seq, decimal, holds_text, parse_u32, parse_u32_spec, push_chars, push_decimal,
    push_signed_decimal, push_str, signed_decimal, str_contains, str_eq, string_from_chars,
    trim_char, trim_end, trim_end_chars, trim_matches_char,
};

verus! {

/// What `str::to_lowercase` gives for `s`: each character lowered by
/// Unicode's case tables (one character may become several).
pub uninterp spec fn lowercase(s: Seq<char>) -> Seq<char>;

/// `str::to_lowercase`, whose result is `lowercase` of its argument.
#[verifier::external_body]
fn to_lowercase(s: &str) -> (t: String)
    ensures
        t@ == lowercase(s@),
{
    s.to_lowercase()
}

/// The result a PGN result token stands for.
pub fn parse_game_result(s: &str) -> (r: GameResult)
    ensures
        r == result_of(s@),
{
    GameResult::from(s)
}

/// How a PGN termination text reads, by the words its lower case holds, in
/// this order: `checkmate` or `mate`, `stalemate` or `stale`, `resign`,
/// `timeout`, `draw`; anything else counts as a resignation.
pub open spec fn termination_of(s: Seq<char>) -> TerminationReason {
    let l = lowercase(s);
    if contains_seq(l, "checkmate"@) || contains_seq(l, "mate"@) {
        TerminationReason::Checkmate
    } else if contains_seq(l, "stalemate"@) || contains_seq(l, "stale"@) {
        TerminationReason::StaleMate
    } else if contains_seq(l, "resign"@) || contains_seq(l, "resignation"@) {
        TerminationReason::Resignation
    } else if contains_seq(l, "timeout"@) {
        TerminationReason::Timeout
    } else if contains_seq(l, "draw"@) {
        TerminationReason::Draw
    } else {
        TerminationReason::Resignation
    }
}

/// How a PGN termination text reads (`termination_of`).
pub fn parse_termination(s: &str) -> (t: TerminationReason)
    ensures
        t == termination_of(s@),
{
    let lowered = to_lowercase(s);
    let l = lowered.as_str();
    if str_contains(l, "checkmate") || str_contains(l, "mate") {
        TerminationReason::Checkmate
    } else if str_contains(l, "stalemate") || str_contains(l, "stale") {
        TerminationReason::StaleMate
    } else if str_contains(l, "resign") || str_contains(l, "resignation") {
        TerminationReason::Resignation
    } else if str_contains(l, "timeout") {
        TerminationReason::Timeout
    } else if str_contains(l, "draw") {
        TerminationReason::Draw
    } else {
        TerminationReason::Resignation
    }
}

/// The PGN word for how a game ended.
pub open spec fn termination_word(t: TerminationReason) -> Seq<char> {
    match t {
        TerminationReason::Checkmate => "checkmate"@,
        TerminationReason::StaleMate => "stalemate"@,
        TerminationReason::Resignation => "resignation"@,
        TerminationReason::Timeout => "timeout"@,
        TerminationReason::Draw => "draw"@,
    }
}

/// The PGN word for how a game ended; every reason has one.
pub fn termination_to_string(t: &TerminationReason) -> (s: Option<&'static str>)
    ensures
        s matches Some(w) && w@ == termination_word(*t),
{
    match t {
        TerminationReason::Checkmate => Some("checkmate"),
        TerminationReason::StaleMate => Some("stalemate"),
        TerminationReason::Resignation => Some("resignation"),
        TerminationReason::Timeout => Some("timeout"),
        TerminationReason::Draw => Some("draw"),
    }
}

/// `m2` is `m` with the PGN tag `tag` set to `value` (quotes around it
/// removed): the tags Event, Site, Date, Round, White, Black, Result,
/// WhiteElo, BlackElo (1 when not a number), TimeControl, Termination, ECO,
/// Opening, EndTime and Link set their field; other tags change nothing.
pub open spec fn tag_set(m: BoardMetaData, m2: BoardMetaData, tag: Seq<char>, value: Seq<char>) -> bool {
    let v = trim_char(value, '"');
    let elo = match parse_u32_spec(v) {
        Some(n) => n,
        None => 1u32,
    };
    if tag == "Event"@ {
        m2 == BoardMetaData { event: m2.event, ..m } && holds_text(m2.event, v)
    } else if tag == "Site"@ {
        m2 == BoardMetaData { site: m2.site, ..m } && holds_text(m2.site, v)
    } else if tag == "Date"@ {
        m2 == BoardMetaData { date: m2.date, ..m } && m2.date@ == v
    } else if tag == "Round"@ {
        m2 == BoardMetaData { round: m2.round, ..m } && holds_text(m2.round, v)
    } else if tag == "White"@ {
        m2 == BoardMetaData { white_player_name: m2.white_player_name, ..m } && m2.white_player_name@ == v
    } else if tag == "Black"@ {
        m2 == BoardMetaData { black_player_name: m2.black_player_name, ..m } && m2.black_player_name@ == v
    } else if tag == "Result"@ {
        m2 == BoardMetaData { result: result_of(v), ..m }
    } else if tag == "WhiteElo"@ {
        m2 == BoardMetaData { white_player_elo: elo, ..m }
    } else if tag == "BlackElo"@ {
        m2 == BoardMetaData { black_player_elo: elo, ..m }
    } else if tag == "TimeControl"@ {
        m2 == BoardMetaData { time_control: m2.time_control, ..m } && holds_text(m2.time_control, v)
    } else if tag == "Termination"@ {
        m2 == BoardMetaData { termination: termination_of(v), ..m }
    } else if tag == "ECO"@ {
        m2 == BoardMetaData { eco: m2.eco, ..m } && holds_text(m2.eco, v)
    } else if tag == "Opening"@ {
        m2 == BoardMetaData { opening: m2.opening, ..m } && holds_text(m2.opening, v)
    } else if tag == "EndTime"@ {
        m2 == BoardMetaData { end_time: m2.end_time, ..m } && holds_text(m2.end_time, v)
    } else if tag == "Link"@ {
        m2 == BoardMetaData { link: m2.link, ..m } && holds_text(m2.link, v)
    } else {
        m2 == m
    }
}

/// Sets the PGN tag `tag` of a game record to `value`, quotes around it
/// removed (`tag_set`).
pub fn set_tag(metadata: &mut BoardMetaData, tag: String, value: String)
    ensures
        tag_set(*old(metadata), *final(metadata), tag@, value@),
{
    let v = string_from_chars(&trim_matches_char(&chars_of(value.as_str()), '"'));
    let t = tag.as_str();
    if str_eq(t, "Event") {
        metadata.event = Some(v);
    } else if str_eq(t, "Site") {
        metadata.site = Some(v);
    } else if str_eq(t, "Date") {
        metadata.date = v;
    } else if str_eq(t, "Round") {
        metadata.round = Some(v);
    } else if str_eq(t, "White") {
        metadata.white_player_name = v;
    } else if str_eq(t, "Black") {
        metadata.black_player_name = v;
    } else if str_eq(t, "Result") {
        metadata.result = GameResult::from(v.as_str());
    } else if str_eq(t, "WhiteElo") {
        metadata.white_player_elo = match parse_u32(&chars_of(v.as_str())) {
            Some(n) => n,
            None => 1,
        };
    } else if str_eq(t, "BlackElo") {
        metadata.black_player_elo = match parse_u32(&chars_of(v.as_str())) {
            Some(n) => n,
            None => 1,
        };
    } else if str_eq(t, "TimeControl") {
        metadata.time_control = Some(v);
    } else if str_eq(t, "Termination") {
        metadata.termination = parse_termination(v.as_str());
    } else if str_eq(t, "ECO") {
        metadata.eco = Some(v);
    } else if str_eq(t, "Opening") {
        metadata.opening = Some(v);
    } else if str_eq(t, "EndTime") {
        metadata.end_time = Some(v);
    } else if str_eq(t, "Link") {
        metadata.link = Some(v);
    }
}

/// A PGN tag line: `[Name "value"]` and a line break.
pub open spec fn tag_line(name: Seq<char>, value: Seq<char>) -> Seq<char> {
    seq!['['] + name + seq![' ', '"'] + value + seq!['"', ']', '\n']
}

/// The text of an optional tag, `?` when absent.
pub open spec fn or_unknown(o: Option<String>) -> Seq<char> {
    match o {
        Some(t) => t@,
        None => seq!['?'],
    }
}

/// The tag line of an optional tag, nothing when absent.
pub open spec fn optional_tag(name: Seq<char>, o: Option<String>) -> Seq<char> {
    match o {
        Some(t) => tag_line(name, t@),
        None => Seq::empty(),
    }
}

/// The tag section of a game record: Event, Site, Date, Round (`?` when
/// unknown), the players and ratings, the result, the optional tags present,
/// and the termination.
pub open spec fn pgn_tags(m: BoardMetaData) -> Seq<char> {
    tag_line("Event"@, or_unknown(m.event)) + tag_line("Site"@, or_unknown(m.site)) + tag_line(
        "Date"@,
        m.date@,
    ) + tag_line("Round"@, or_unknown(m.round)) + tag_line("White"@, m.white_player_name@)
        + tag_line("Black"@, m.black_player_name@) + tag_line(
        "WhiteElo"@,
        decimal(m.white_player_elo as nat),
    ) + tag_line("BlackElo"@, decimal(m.black_player_elo as nat)) + tag_line(
        "Result"@,
        result_token(m.result),
    ) + optional_tag("TimeControl"@, m.time_control) + optional_tag("ECO"@, m.eco) + optional_tag(
        "Opening"@,
        m.opening,
    ) + optional_tag("EndTime"@, m.end_time) + optional_tag("Link"@, m.link) + tag_line(
        "Termination"@,
        termination_word(m.termination),
    )
}

/// The comment of a move: its clock and timestamp commands, then its
/// annotation after a space.
pub open spec fn move_comment(mv: MoveStruct) -> Seq<char> {
    let commands = match (mv.clock, mv.time_stamp) {
        (Some(c), Some(t)) => "[%clk "@ + c@ + "][%timestamp "@ + decimal(t as nat) + "]"@,
        (Some(c), None) => "[%clk "@ + c@ + "]"@,
        (None, Some(t)) => "[%timestamp "@ + decimal(t as nat) + "]"@,
        (None, None) => Seq::empty(),
    };
    match mv.annotation {
        Some(a) => if commands.len() > 0 {
            commands + seq![' '] + a@
        } else {
            a@
        },
        None => commands,
    }
}

/// The movetext of the `i`-th move: the move number before White's moves,
/// the SAN, the comment in braces if any, the NAG, and a space.
pub open spec fn move_text(mv: MoveStruct, i: int) -> Seq<char> {
    let number = if i % 2 == 0 {
        decimal((i / 2 + 1) as nat) + seq!['.', ' ']
    } else {
        Seq::empty()
    };
    let comment = move_comment(mv);
    let braces = if comment.len() > 0 {
        seq![' ', '{'] + comment + seq!['}']
    } else {
        Seq::empty()
    };
    let nag = match mv.nag {
        Some(n) => seq![' ', '$'] + signed_decimal(n as int),
        None => Seq::empty(),
    };
    number + mv.san@ + braces + nag + seq![' ']
}

/// The movetext of the first `n` moves.
pub open spec fn moves_text(moves: Seq<MoveStruct>, n: int) -> Seq<char>
    decreases n,
{
    if n <= 0 {
        Seq::empty()
    } else {
        moves_text(moves, n - 1) + move_text(moves[n - 1], n - 1)
    }
}

/// The PGN of a game record: its tags, a blank line, and the movetext ending
/// in the result token.
pub open spec fn pgn_of(m: BoardMetaData) -> Seq<char> {
    pgn_tags(m) + seq!['\n'] + trim_end(
        moves_text(m.move_list@, m.move_list@.len() as int) + result_token(m.result),
    ) + seq!['\n']
}

/// Appends a tag line.
fn push_tag(pgn: &mut String, name: &str, value: &str)
    ensures
        final(pgn)@ == old(pgn)@ + tag_line(name@, value@),
{
    pgn.push('[');
    push_str(pgn, name);
    pgn.push(' ');
    pgn.push('"');
    push_str(pgn, value);
    pgn.push('"');
    pgn.push(']');
    pgn.push('\n');
}

/// Appends the tag line of a tag that is `?` when unknown.
fn push_tag_or_unknown(pgn: &mut String, name: &str, value: &Option<String>)
    ensures
        final(pgn)@ == old(pgn)@ + tag_line(name@, or_unknown(*value)),
{
    match value {
        Some(v) => push_tag(pgn, name, v.as_str()),
        None => push_tag(pgn, name, "?"),
    }
    proof {
        reveal_strlit("?");
    }
}

/// Appends the tag line of an optional tag, if present.
fn push_optional_tag(pgn: &mut String, name: &str, value: &Option<String>)
    ensures
        final(pgn)@ == old(pgn)@ + optional_tag(name@, *value),
{
    match value {
        Some(v) => push_tag(pgn, name, v.as_str()),
        None => {},
    }
}

/// Appends the tag line of a number.
fn push_number_tag(pgn: &mut String, name: &str, value: u32)
    ensures
        final(pgn)@ == old(pgn)@ + tag_line(name@, decimal(value as nat)),
{
    let mut digits = String::new();
    push_decimal(&mut digits, value as u64);
    push_tag(pgn, name, digits.as_str());
}

/// The comment of a move.
fn comment_of(mv: &MoveStruct) -> (c: String)
    ensures
        c@ == move_comment(*mv),
{
    let mut comment_parts = String::new();
    match (&mv.clock, mv.time_stamp) {
        (Some(clk), Some(ts)) => {
            push_str(&mut comment_parts, "[%clk ");
            push_str(&mut comment_parts, clk.as_str());
            push_str(&mut comment_parts, "][%timestamp ");
            push_decimal(&mut comment_parts, ts as u64);
            push_str(&mut comment_parts, "]");
        },
        (Some(clk), None) => {
            push_str(&mut comment_parts, "[%clk ");
            push_str(&mut comment_parts, clk.as_str());
            push_str(&mut comment_parts, "]");
        },
        (None, Some(ts)) => {
            push_str(&mut comment_parts, "[%timestamp ");
            push_decimal(&mut comment_parts, ts as u64);
            push_str(&mut comment_parts, "]");
        },
        (None, None) => {},
    }
    if let Some(comment) = &mv.annotation {
        if comment_parts.as_str().unicode_len() != 0 {
            comment_parts.push(' ');
        }
        push_str(&mut comment_parts, comment.as_str());
    }
    comment_parts
}

/// The comment of a move in braces after a space, nothing for no comment.
fn braced_comment(mv: &MoveStruct) -> (b: String)
    ensures
        b@ == (if move_comment(*mv).len() > 0 {
            seq![' ', '{'] + move_comment(*mv) + seq!['}']
        } else {
            Seq::empty()
        }),
{
    let comment = comment_of(mv);
    let mut out = String::new();
    if comment.as_str().unicode_len() != 0 {
        out.push(' ');
        out.push('{');
        push_str(&mut out, comment.as_str());
        out.push('}');
    }
    out
}

/// Appends the movetext of the `i`-th move.
fn push_move_text(line: &mut String, mv: &MoveStruct, i: usize)
    ensures
        final(line)@ == old(line)@ + move_text(*mv, i as int),
{
    if i % 2 == 0 {
        push_decimal(line, (i / 2 + 1) as u64);
        line.push('.');
        line.push(' ');
    }
    push_str(line, mv.san.as_str());
    let braces = braced_comment(mv);
    push_str(line, braces.as_str());
    let ghost commented = line@;
    if let Some(nag) = mv.nag {
        line.push(' ');
        line.push('$');
        push_signed_decimal(line, nag as i64);
    }
    line.push(' ');
    assert(line@ == commented + (match mv.nag {
        Some(n) => seq![' ', '$'] + signed_decimal(n as int),
        None => Seq::empty(),
    }) + seq![' ']);
}

/// The PGN of a game record (`pgn_of`).
pub fn metadata_to_pgn(metadata: &BoardMetaData) -> (pgn: String)
    ensures
        pgn@ == pgn_of(*metadata),
{
    let mut pgn = String::new();
    push_tag_or_unknown(&mut pgn, "Event", &metadata.event);
    push_tag_or_unknown(&mut pgn, "Site", &metadata.site);
    push_tag(&mut pgn, "Date", metadata.date.as_str());
    push_tag_or_unknown(&mut pgn, "Round", &metadata.round);
    push_tag(&mut pgn, "White", metadata.white_player_name.as_str());
    push_tag(&mut pgn, "Black", metadata.black_player_name.as_str());
    push_number_tag(&mut pgn, "WhiteElo", metadata.white_player_elo);
    push_number_tag(&mut pgn, "BlackElo", metadata.black_player_elo);
    let result = metadata.result.to_string();
    push_tag(&mut pgn, "Result", result.as_str());
    push_optional_tag(&mut pgn, "TimeControl", &metadata.time_control);
    push_optional_tag(&mut pgn, "ECO", &metadata.eco);
    push_optional_tag(&mut pgn, "Opening", &metadata.opening);
    push_optional_tag(&mut pgn, "EndTime", &metadata.end_time);
    push_optional_tag(&mut pgn, "Link", &metadata.link);
    match termination_to_string(&metadata.termination) {
        Some(term_str) => push_tag(&mut pgn, "Termination", term_str),
        None => {},
    }
    assert(pgn@ == pgn_tags(*metadata));
    let mut move_line = String::new();
    let mut i: usize = 0;
    while i < metadata.move_list.len()
        invariant
            i <= metadata.move_list@.len(),
            move_line@ == moves_text(metadata.move_list@, i as int),
        decreases metadata.move_list.len() - i,
    {
        push_move_text(&mut move_line, &metadata.move_list[i], i);
        i += 1;
    }
    push_str(&mut move_line, result.as_str());
    pgn.push('\n');
    let trimmed = trim_end_chars(move_line.as_str());
    push_chars(&mut pgn, &trimmed);
    pgn.push('\n');
    pgn
}

} // verus!
