use vstd::prelude::*;

use crate::analyzer::session::join_rest;
use crate::database::pgn::{set_tag, tag_set};
use crate::engine::board::{is_default_meta, material_fits, move_outcome, Board, BoardMetaData, MoveStruct};
use crate::engine::fen::{holds_char, is_default_board};
use crate::engine::move_gen::{cache_refreshed, on_board, positions_on_board};
use crate::engine::piece::PieceType;
use crate::engine::san_reader::{san_to_uci_defined, san_to_uci_result};
use crate::engine::uci::decode_uci;
use crate::text::{
    byte_len, chars_of, holds_text, join_with, parse_i32, parse_i32_spec, parse_u32, parse_u32_spec,
    split_chars, split_on, split_whitespace, string_from_chars, trim, trim_char, trim_chars,
    trim_matches_char, utf8_len_of, views, ws_fields,
};

verus! {

/// What `Regex::new(pattern)` and then `replace_all(text, rep)` give: `None`
/// where the pattern does not compile.
pub uninterp spec fn regex_replaced(pattern: Seq<char>, text: Seq<char>, rep: Seq<char>) -> Option<
    Seq<char>,
>;

/// What `Regex::new(pattern)` and then `captures_iter(text)` give, each
/// match taken by its first group (`None` where that group took no part):
/// `None` where the pattern does not compile.
pub uninterp spec fn regex_first_groups(pattern: Seq<char>, text: Seq<char>) -> Option<
    Seq<Option<Seq<char>>>,
>;

/// What `Regex::new(pattern)` and then `split(text)` give: `None` where the
/// pattern does not compile.
pub uninterp spec fn regex_pieces(pattern: Seq<char>, text: Seq<char>) -> Option<Seq<Seq<char>>>;

/// `regex::Regex::new` and `Regex::replace_all`: the text with every match of
/// the pattern replaced by `rep`, as `regex_replaced` names it.
#[verifier::external_body]
fn regex_replace_all(pattern: &str, text: &str, rep: &str) -> (r: Option<String>)
    ensures
        match regex_replaced(pattern@, text@, rep@) {
            Some(t) => r matches Some(s) && s@ == t,
            None => r is None,
        },
{
    match regex::Regex::new(pattern) {
        Ok(re) => Some(re.replace_all(text, rep).to_string()),
        Err(_) => None,
    }
}

/// `regex::Regex::new` and `Regex::captures_iter`: the first group of each
/// match, as `regex_first_groups` names it.
#[verifier::external_body]
fn regex_captures(pattern: &str, text: &str) -> (r: Option<Vec<Option<String>>>)
    ensures
        match regex_first_groups(pattern@, text@) {
            Some(g) => r matches Some(v) && v@.len() == g.len() && forall|i: int|
                0 <= i < g.len() ==> match g[i] {
                    Some(t) => (#[trigger] v@[i]) matches Some(s) && s@ == t,
                    None => v@[i] is None,
                },
            None => r is None,
        },
{
    match regex::Regex::new(pattern) {
        Ok(re) => Some(re.captures_iter(text).map(|c| c.get(1).map(|m| m.as_str().to_string())).collect()),
        Err(_) => None,
    }
}

/// `regex::Regex::new` and `Regex::split`: the text between the matches, as
/// `regex_pieces` names it.
#[verifier::external_body]
fn regex_split(pattern: &str, text: &str) -> (r: Option<Vec<String>>)
    ensures
        match regex_pieces(pattern@, text@) {
            Some(p) => r matches Some(v) && v@.len() == p.len() && forall|i: int|
                0 <= i < p.len() ==> (#[trigger] v@[i])@ == p[i],
            None => r is None,
        },
{
    match regex::Regex::new(pattern) {
        Ok(re) => Some(re.split(text).map(|s| s.to_string()).collect()),
        Err(_) => None,
    }
}

/// The pattern of a black move number such as `12...`.
pub open spec fn ellipsis_pattern() -> Seq<char> {
    "(\\d+\\.\\.\\.)"@
}

/// A PGN text without the black move numbers (`12...`): every match of
/// `ellipsis_pattern` removed.
pub open spec fn normalized_pgn(s: Seq<char>) -> Seq<char> {
    match regex_replaced(ellipsis_pattern(), s, ""@) {
        Some(t) => t,
        None => s,
    }
}

/// Removes the black move numbers (`12...`) from a PGN text.
pub fn normalize_pgn(pgn_data: String) -> (r: String)
    ensures
        r@ == normalized_pgn(pgn_data@),
{
    match regex_replace_all("(\\d+\\.\\.\\.)", pgn_data.as_str(), "") {
        Some(t) => t,
        None => pgn_data,
    }
}

/// `[` or `]`.
pub open spec fn is_bracket(c: char) -> bool {
    c == '[' || c == ']'
}

/// `s` without its leading and trailing brackets.
pub open spec fn trim_brackets(s: Seq<char>) -> Seq<char>
    decreases s.len(),
{
    if s.len() > 0 && is_bracket(s[0]) {
        trim_brackets(s.drop_first())
    } else if s.len() > 0 && is_bracket(s.last()) {
        trim_brackets(s.drop_last())
    } else {
        s
    }
}

/// The index of the first `c` in `s` at or after `i`.
pub open spec fn index_from(s: Seq<char>, c: char, i: int) -> Option<int>
    decreases s.len() - i,
{
    if i < 0 || i >= s.len() {
        None
    } else if s[i] == c {
        Some(i)
    } else {
        index_from(s, c, i + 1)
    }
}

/// The index found is that of a `c`, at or after `i`.
pub proof fn lemma_index_from(s: Seq<char>, c: char, i: int)
    ensures
        index_from(s, c, i) matches Some(k) ==> i <= k < s.len() && s[k] == c,
    decreases s.len() - i,
{
    if 0 <= i < s.len() && s[i] != c {
        lemma_index_from(s, c, i + 1);
    }
}

/// A line of tag form: it begins with `[` and ends with `]`.
pub open spec fn is_tag_line(t: Seq<char>) -> bool {
    t.len() > 0 && t[0] == '[' && t.last() == ']'
}

/// The name and value of a tag line: its text without the brackets, split
/// at the first space; none where there is no space.
pub open spec fn tag_of_line(t: Seq<char>) -> Option<(Seq<char>, Seq<char>)> {
    let inner = trim_brackets(t);
    match index_from(inner, ' ', 0) {
        Some(k) => Some((inner.take(k), inner.skip(k + 1))),
        None => None,
    }
}

/// The tags of the lines (trimmed), in order, and the text of the other
/// lines that are not empty, each after a space.
pub open spec fn header_scan(lines: Seq<Seq<char>>) -> (Seq<(Seq<char>, Seq<char>)>, Seq<char>)
    decreases lines.len(),
{
    if lines.len() == 0 {
        (Seq::empty(), Seq::empty())
    } else {
        let (tags, text) = header_scan(lines.drop_last());
        let t = trim(lines.last());
        if is_tag_line(t) {
            match tag_of_line(t) {
                Some(p) => (tags.push(p), text),
                None => (tags, text),
            }
        } else if t.len() == 0 {
            (tags, text)
        } else {
            (tags, text + seq![' '] + trim(t))
        }
    }
}

/// The tags and the move text of a PGN: `header_scan` of its lines.
pub open spec fn pgn_header(s: Seq<char>) -> (Seq<(Seq<char>, Seq<char>)>, Seq<char>) {
    header_scan(split_on(s, '\n'))
}

/// `m` is `m0` with the tags set in order, each value with its quotes
/// removed (`tag_set`).
pub open spec fn tags_applied(m0: BoardMetaData, m: BoardMetaData, tags: Seq<(Seq<char>, Seq<char>)>) -> bool {
    exists|ms: Seq<BoardMetaData>| #[trigger] tag_chain(ms, m0, m, tags)
}

/// The records a tag at a time.
pub open spec fn tag_chain(
    ms: Seq<BoardMetaData>,
    m0: BoardMetaData,
    m: BoardMetaData,
    tags: Seq<(Seq<char>, Seq<char>)>,
) -> bool {
    &&& ms.len() == tags.len() + 1
    &&& ms[0] == m0
    &&& ms.last() == m
    &&& forall|i: int|
        0 <= i < tags.len() ==> tag_set(
            #[trigger] ms[i],
            ms[i + 1],
            tags[i].0,
            trim_char(tags[i].1, '"'),
        )
}

/// The text of `s` without leading and trailing brackets.
fn trim_brackets_chars(s: &Vec<char>) -> (t: Vec<char>)
    ensures
        t@ == trim_brackets(s@),
{
    let mut start: usize = 0;
    let mut end: usize = s.len();
    assert(s@.subrange(0, s@.len() as int) == s@);
    while start < end && (s[start] == '[' || s[start] == ']' || s[end - 1] == '[' || s[end - 1] == ']')
        invariant
            start <= end <= s.len(),
            trim_brackets(s@.subrange(start as int, end as int)) == trim_brackets(s@),
        decreases end - start,
    {
        let ghost cur = s@.subrange(start as int, end as int);
        if s[start] == '[' || s[start] == ']' {
            assert(cur.drop_first() == s@.subrange(start + 1, end as int));
            start += 1;
        } else {
            assert(cur.drop_last() == s@.subrange(start as int, end - 1));
            end -= 1;
        }
    }
    let mut t: Vec<char> = Vec::new();
    let mut k: usize = start;
    while k < end
        invariant
            start <= k <= end <= s.len(),
            t@ == s@.subrange(start as int, k as int),
        decreases end - k,
    {
        t.push(s[k]);
        k += 1;
    }
    t
}

/// The first index of `c` in `s`.
fn index_of_char(s: &Vec<char>, c: char) -> (r: Option<usize>)
    ensures
        match index_from(s@, c, 0) {
            Some(k) => r == Some(k as usize),
            None => r is None,
        },
{
    let mut i: usize = 0;
    while i < s.len()
        invariant
            i <= s.len(),
            index_from(s@, c, 0) == index_from(s@, c, i as int),
        decreases s.len() - i,
    {
        if s[i] == c {
            return Some(i);
        }
        i += 1;
    }
    None
}

/// Characters `from..to` of `s`.
fn sub_chars(s: &Vec<char>, from: usize, to: usize) -> (t: Vec<char>)
    requires
        from <= to <= s.len(),
    ensures
        t@ == s@.subrange(from as int, to as int),
{
    let mut t: Vec<char> = Vec::new();
    let mut k: usize = from;
    while k < to
        invariant
            from <= k <= to <= s.len(),
            t@ == s@.subrange(from as int, k as int),
        decreases to - k,
    {
        t.push(s[k]);
        k += 1;
    }
    t
}

/// Sets the tags of a PGN text's tag lines on `metadata`, in order, and
/// returns the text of its other lines (`pgn_header`).
pub fn read_header(s: &str, metadata: &mut BoardMetaData) -> (text: String)
    ensures
        tags_applied(*old(metadata), *final(metadata), pgn_header(s@).0),
        text@ == pgn_header(s@).1,
{
    let lines = split_chars(&chars_of(s), '\n');
    let ghost ls = views(lines@);
    let mut text: Vec<char> = Vec::new();
    let ghost mut ms: Seq<BoardMetaData> = seq![*metadata];
    let ghost m0 = *metadata;
    let mut i: usize = 0;
    while i < lines.len()
        invariant
            i <= lines.len(),
            ls == views(lines@),
            ls == split_on(s@, '\n'),
            (header_scan(ls.take(i as int)).1) == text@,
            tag_chain(ms, m0, *metadata, header_scan(ls.take(i as int)).0),
        decreases lines.len() - i,
    {
        assert(ls.take(i + 1).drop_last() == ls.take(i as int));
        assert(ls.take(i + 1).last() == lines@[i as int]@);
        let ghost tags_before = header_scan(ls.take(i as int)).0;
        let line = trim_chars(&lines[i]);
        if line.len() > 0 && line[0] == '[' && line[line.len() - 1] == ']' {
            let inner = trim_brackets_chars(&line);
            proof {
                lemma_index_from(inner@, ' ', 0);
            }
            match index_of_char(&inner, ' ') {
                Some(k) => {
                    assert(k < inner.len());
                    let tag = string_from_chars(&sub_chars(&inner, 0, k));
                    let value = string_from_chars(&sub_chars(&inner, k + 1, inner.len()));
                    assert(inner@.take(k as int) == inner@.subrange(0, k as int));
                    assert(inner@.skip(k + 1) == inner@.subrange(k + 1, inner@.len() as int));
                    let trimmed = string_from_chars(&trim_matches_char(&chars_of(value.as_str()), '"'));
                    let ghost before = *metadata;
                    let ghost pair = (tag@, value@);
                    set_tag(metadata, tag, trimmed);
                    proof {
                        let ms2 = ms.push(*metadata);
                        let tags2 = tags_before.push(pair);
                        assert(ms2[ms.len() - 1] == before);
                        assert forall|j: int| 0 <= j < tags2.len() implies tag_set(
                            #[trigger] ms2[j],
                            ms2[j + 1],
                            tags2[j].0,
                            trim_char(tags2[j].1, '"'),
                        ) by {
                            if j < tags_before.len() {
                                assert(ms2[j] == ms[j] && ms2[j + 1] == ms[j + 1] && tags2[j] == tags_before[j]);
                            }
                        }
                        ms = ms2;
                    }
                },
                None => {},
            }
        } else if line.len() > 0 {
            let again = trim_chars(&line);
            text.push(' ');
            let mut k: usize = 0;
            let ghost start = text@;
            while k < again.len()
                invariant
                    k <= again.len(),
                    text@ == start + again@.take(k as int),
                decreases again.len() - k,
            {
                text.push(again[k]);
                assert(again@.take(k + 1) == again@.take(k as int).push(again@[k as int]));
                k += 1;
            }
            assert(again@.take(again@.len() as int) == again@);
        }
        i += 1;
    }
    assert(ls.take(ls.len() as int) == ls);
    proof {
        assert(tag_chain(ms, m0, *metadata, pgn_header(s@).0));
    }
    string_from_chars(&text)
}


/// The pattern of a clock comment `[%clk 0:05:00]`.
pub open spec fn clk_pattern() -> Seq<char> {
    "\\[%clk\\s+([\\d:.]+)\\]"@
}

/// The pattern of a time stamp comment `[%timestamp 12]`.
pub open spec fn ts_pattern() -> Seq<char> {
    "\\[%timestamp\\s+([\\d:.]+)\\]"@
}

/// The pattern that move numbers are split at.
pub open spec fn number_pattern() -> Seq<char> {
    "(\\d:\\d{1,2})?(\\d{1,3}\\.)"@
}

/// The pattern of a `{...}` comment.
pub open spec fn comment_pattern() -> Seq<char> {
    "\\{([^{}]*)\\}"@
}

/// The pattern of a numeric annotation glyph `$n`.
pub open spec fn nag_pattern() -> Seq<char> {
    "\\$(\\d+)"@
}

/// The text of a group, empty where it took no part.
pub open spec fn group_text(o: Option<Seq<char>>) -> Seq<char> {
    match o {
        Some(t) => t,
        None => Seq::empty(),
    }
}

/// The groups found, none where the pattern does not compile.
pub open spec fn groups_of(g: Option<Seq<Option<Seq<char>>>>) -> Seq<Option<Seq<char>>> {
    match g {
        Some(v) => v,
        None => Seq::empty(),
    }
}

/// The groups' texts, trimmed.
pub open spec fn trimmed_groups(gs: Seq<Option<Seq<char>>>) -> Seq<Seq<char>> {
    gs.map_values(|o: Option<Seq<char>>| trim(group_text(o)))
}

/// The first groups of the matches of `pattern` in `text`, trimmed.
pub open spec fn found_texts(pattern: Seq<char>, text: Seq<char>) -> Seq<Seq<char>> {
    trimmed_groups(groups_of(regex_first_groups(pattern, text)))
}

/// A time stamp's value: its number, 0 where it does not read as one.
pub open spec fn timestamp_of(t: Seq<char>) -> u32 {
    match parse_u32_spec(t) {
        Some(n) => n,
        None => 0,
    }
}

/// The groups that read as `i32` numbers, in order.
pub open spec fn nag_values(gs: Seq<Option<Seq<char>>>) -> Seq<i32>
    decreases gs.len(),
{
    if gs.len() == 0 {
        Seq::empty()
    } else {
        let before = nag_values(gs.drop_last());
        match parse_i32_spec(group_text(gs.last())) {
            Some(n) => before.push(n),
            None => before,
        }
    }
}

/// `text` with the matches of `pattern` replaced by `rep`; `text` itself
/// where the pattern does not compile.
pub open spec fn replaced_or(pattern: Seq<char>, text: Seq<char>, rep: Seq<char>) -> Seq<char> {
    match regex_replaced(pattern, text, rep) {
        Some(r) => r,
        None => text,
    }
}

/// The pieces, trimmed, without the empty ones.
pub open spec fn kept_pairs(ps: Seq<Seq<char>>) -> Seq<Seq<char>>
    decreases ps.len(),
{
    if ps.len() == 0 {
        Seq::empty()
    } else {
        let before = kept_pairs(ps.drop_last());
        if trim(ps.last()).len() > 0 {
            before.push(trim(ps.last()))
        } else {
            before
        }
    }
}

/// The move text without clock and time stamp comments, split at the move
/// numbers into the moves of each number.
pub open spec fn move_pairs(text: Seq<char>) -> Seq<Seq<char>> {
    let t = replaced_or(ts_pattern(), replaced_or(clk_pattern(), text, ""@), ""@);
    match regex_pieces(number_pattern(), t) {
        Some(ps) => kept_pairs(ps),
        None => Seq::empty(),
    }
}

/// The tokens of a move number's text: comments removed, the rest trimmed,
/// glyphs replaced by a space, then the white-space separated words joined
/// by single spaces and split at the spaces.
pub open spec fn pair_tokens(p: Seq<char>) -> Seq<Seq<char>> {
    let p1 = trim(replaced_or(comment_pattern(), p, ""@));
    let p2 = replaced_or(nag_pattern(), p1, " "@);
    split_on(join_with(ws_fields(p2), ' '), ' ')
}

/// Element `i` of `s`, if there is one.
pub open spec fn seq_get<A>(s: Seq<A>, i: int) -> Option<A> {
    if 0 <= i < s.len() {
        Some(s[i])
    } else {
        None
    }
}

/// The non-empty tokens among the first `n`, each with the comment and the
/// glyph of its position among the tokens.
pub open spec fn token_records(
    toks: Seq<Seq<char>>,
    comments: Seq<Seq<char>>,
    nags: Seq<i32>,
    n: int,
) -> Seq<(Seq<char>, Option<Seq<char>>, Option<i32>)>
    decreases n,
{
    if n <= 0 {
        Seq::empty()
    } else {
        let before = token_records(toks, comments, nags, n - 1);
        if toks[n - 1].len() == 0 {
            before
        } else {
            before.push((toks[n - 1], seq_get(comments, n - 1), seq_get(nags, n - 1)))
        }
    }
}

/// The moves of a move number's text, with their comments and glyphs.
pub open spec fn pair_records(p: Seq<char>) -> Seq<(Seq<char>, Option<Seq<char>>, Option<i32>)> {
    let toks = pair_tokens(p);
    token_records(
        toks,
        found_texts(comment_pattern(), p),
        nag_values(groups_of(regex_first_groups(nag_pattern(), p))),
        toks.len() as int,
    )
}

/// The moves of all move numbers, in order.
pub open spec fn records_of(pairs: Seq<Seq<char>>) -> Seq<(Seq<char>, Option<Seq<char>>, Option<i32>)>
    decreases pairs.len(),
{
    if pairs.len() == 0 {
        Seq::empty()
    } else {
        records_of(pairs.drop_last()) + pair_records(pairs.last())
    }
}

/// The promotion a SAN names after its first `=`: the character whose index
/// is one past the byte offset of that `=` (`Q`, `R`, `B` or `N`).
pub open spec fn promotion_in(san: Seq<char>) -> Option<PieceType> {
    match index_from(san, '=', 0) {
        None => None,
        Some(k) => {
            let b = byte_len(san.take(k)) + 1;
            if b < san.len() {
                let c = san[b as int];
                if c == 'Q' {
                    Some(PieceType::Queen)
                } else if c == 'R' {
                    Some(PieceType::Rook)
                } else if c == 'B' {
                    Some(PieceType::Bishop)
                } else if c == 'N' {
                    Some(PieceType::Knight)
                } else {
                    None
                }
            } else {
                None
            }
        },
    }
}

/// The move recorded for the `k`-th move read: its number `k + 1` (modulo
/// 2^32), its SAN, comment, glyph, promotion and capture mark, and the
/// `k`-th clock reading and time stamp.
pub open spec fn move_of_record(
    mv: MoveStruct,
    rec: (Seq<char>, Option<Seq<char>>, Option<i32>),
    k: int,
    clocks: Seq<Seq<char>>,
    stamps: Seq<u32>,
) -> bool {
    &&& mv.move_number as int == (k + 1) % 0x1_0000_0000
    &&& mv.san@ == rec.0
    &&& match rec.1 {
        Some(c) => holds_text(mv.annotation, c),
        None => mv.annotation is None,
    }
    &&& mv.nag == rec.2
    &&& mv.promotion == promotion_in(rec.0)
    &&& mv.is_capture == rec.0.contains('x')
    &&& mv.time_stamp == seq_get(stamps, k)
    &&& match seq_get(clocks, k) {
        Some(c) => holds_text(mv.clock, c),
        None => mv.clock is None,
    }
}

/// `b1` is `b` with its move cache refreshed.
pub open spec fn cache_step(b: Board, b1: Board) -> bool {
    &&& cache_refreshed(b.move_cache@, b1.move_cache@, b.squares, b.en_passant_target, 64)
    &&& b1 == Board { move_cache: b1.move_cache, ..b }
}

/// From the refreshed board `b1`: the SAN read as a UCI move (empty where
/// it is refused or its squares do not read), and `b2` the board after that
/// move is played (unchanged where it is not, or where the material after it
/// would not fit in 255 points).
pub open spec fn translated_from(b1: Board, b2: Board, san: Seq<char>, uci: Seq<char>) -> bool {
    match san_to_uci_result(b1.squares, b1.turn, b1.move_cache@, san) {
        Err(_) => uci.len() == 0 && b2 == b1,
        Ok(u) => if u.len() == 0 {
            uci.len() == 0 && b2 == b1
        } else {
            match decode_uci(b1.squares, u) {
                None => uci.len() == 0 && b2 == b1,
                Some((f, t, p)) => uci == u && if material_fits(b1, f, t, p) {
                    exists|res: Result<MoveStruct, crate::engine::move_gen::MoveError>| #[trigger]
                        move_outcome(b1, b2, f, t, p, res)
                } else {
                    b2 == b1
                },
            }
        },
    }
}

/// One move of the replay on the translation board: on a consistent board
/// and a SAN that reads, the cache is refreshed and the move translated and
/// played (`translated_from`); else the UCI is empty and the board stays.
pub open spec fn translation_step(b: Board, b2: Board, san: Seq<char>, uci: Seq<char>) -> bool {
    if !b.wf() || !san_to_uci_defined(b.squares, san) {
        uci.len() == 0 && b2 == b
    } else {
        exists|b1: Board| #[trigger] cache_step(b, b1) && translated_from(b1, b2, san, uci)
    }
}

/// The squares of a UCI move that reads are on the board.
pub proof fn lemma_decoded_on_board(b: crate::engine::piece::Squares, s: Seq<char>)
    ensures
        decode_uci(b, s) matches Some((f, t, p)) ==> on_board(f) && on_board(t),
{
}

/// Translates a SAN on the board and plays it (`translation_step`).
fn translate_san(board: &mut Board, san: &str) -> (uci: String)
    ensures
        translation_step(*old(board), *final(board), san@, uci@),
        old(board).wf() ==> final(board).wf(),
{
    if !board.is_consistent() || !board.san_readable(san) {
        return String::new();
    }
    let ghost b0 = *board;
    proof {
        assert(positions_on_board(board.squares)) by {
            assert forall|r: int, c: int| 0 <= r < 8 && 0 <= c < 8 && (#[trigger] board.squares[r][c]) is Some implies on_board(
                board.squares[r][c]->0.position,
            ) by {
                assert(board.squares[r][c]->0.position == (r as u8, c as u8));
            }
        }
    }
    let res = board.san_to_uci(san);
    let ghost b1 = *board;
    assert(cache_step(b0, b1));
    let mut uci = match res {
        Ok(u) => u,
        Err(_) => String::new(),
    };
    if uci.unicode_len() > 0 {
        match board.decode_uci_move(uci.as_str()) {
            Some((from, to, promotion)) => {
                proof {
                    lemma_decoded_on_board(b1.squares, uci@);
                }
                if board.move_material_fits(from, to, promotion) {
                    let ghost before = *board;
                    let r = board.move_piece(from, to, promotion);
                    assert(move_outcome(before, *board, from, to, promotion, r));
                }
            },
            None => {
                uci = String::new();
            },
        }
    }
    uci
}


/// A record's texts as plain values.
pub open spec fn record_view(r: (String, Option<String>, Option<i32>)) -> (Seq<char>, Option<Seq<char>>, Option<i32>) {
    (
        r.0@,
        match r.1 {
            Some(c) => Some(c@),
            None => None,
        },
        r.2,
    )
}

/// The texts of a list of groups.
pub open spec fn group_views(g: Seq<Option<String>>) -> Seq<Option<Seq<char>>> {
    g.map_values(|o: Option<String>| match o {
        Some(s) => Some(s@),
        None => None,
    })
}

/// The texts of a list of strings.
pub open spec fn string_views(v: Seq<String>) -> Seq<Seq<char>> {
    v.map_values(|s: String| s@)
}

/// The texts of found groups, trimmed, an absent group as the empty text
/// (`trimmed_groups`).
pub fn trimmed_texts(groups: &Vec<Option<String>>) -> (v: Vec<String>)
    ensures
        string_views(v@) == trimmed_groups(group_views(groups@)),
{
    let ghost gs = group_views(groups@);
    let mut v: Vec<String> = Vec::new();
    let mut i: usize = 0;
    while i < groups.len()
        invariant
            i <= groups.len(),
            gs == group_views(groups@),
            string_views(v@) == trimmed_groups(gs).take(i as int),
        decreases groups.len() - i,
    {
        let t = match &groups[i] {
            Some(s) => string_from_chars(&trim_chars(&chars_of(s.as_str()))),
            None => String::new(),
        };
        let ghost before = v@;
        v.push(t);
        proof {
            assert(gs[i as int] == match groups@[i as int] {
                Some(s) => Some(s@),
                None => None,
            });
            assert(string_views(v@) =~= string_views(before).push(t@));
            assert(trimmed_groups(gs).take(i + 1) =~= trimmed_groups(gs).take(i as int).push(trimmed_groups(gs)[i as int]));
        }
        i += 1;
    }
    assert(trimmed_groups(gs).take(groups.len() as int) =~= trimmed_groups(gs));
    v
}

/// The numbers of the glyph groups that read as `i32` numbers, in order
/// (`nag_values`).
pub fn nag_numbers(groups: &Vec<Option<String>>) -> (v: Vec<i32>)
    ensures
        v@ == nag_values(group_views(groups@)),
{
    let ghost gs = group_views(groups@);
    let mut v: Vec<i32> = Vec::new();
    let mut i: usize = 0;
    while i < groups.len()
        invariant
            i <= groups.len(),
            gs == group_views(groups@),
            v@ == nag_values(gs.take(i as int)),
        decreases groups.len() - i,
    {
        assert(gs.take(i + 1).drop_last() == gs.take(i as int));
        assert(gs.take(i + 1).last() == gs[i as int]);
        let text: Vec<char> = match &groups[i] {
            Some(s) => chars_of(s.as_str()),
            None => Vec::new(),
        };
        assert(text@ == group_text(gs[i as int]));
        match parse_i32(&text) {
            Some(n) => v.push(n),
            None => {},
        }
        i += 1;
    }
    assert(gs.take(gs.len() as int) == gs);
    v
}

/// The pieces of a move text cut at its move numbers, trimmed, without the
/// empty ones (`kept_pairs`).
pub fn kept_pieces(pieces: &Vec<String>) -> (v: Vec<String>)
    ensures
        string_views(v@) == kept_pairs(string_views(pieces@)),
{
    let ghost ps = string_views(pieces@);
    let mut v: Vec<String> = Vec::new();
    let mut i: usize = 0;
    while i < pieces.len()
        invariant
            i <= pieces.len(),
            ps == string_views(pieces@),
            string_views(v@) == kept_pairs(ps.take(i as int)),
        decreases pieces.len() - i,
    {
        assert(ps.take(i + 1).drop_last() == ps.take(i as int));
        assert(ps.take(i + 1).last() == pieces@[i as int]@);
        let piece = trim_chars(&chars_of(pieces[i].as_str()));
        if piece.len() > 0 {
            let ghost before = v@;
            let t = string_from_chars(&piece);
            v.push(t);
            assert(string_views(v@) =~= string_views(before).push(t@));
        }
        i += 1;
    }
    assert(ps.take(ps.len() as int) == ps);
    v
}

/// The moves of a move number's tokens, each with the comment and glyph of
/// its place (`token_records`).
pub fn move_records(toks: &Vec<Vec<char>>, comments: &Vec<String>, nags: &Vec<i32>) -> (recs: Vec<
    (String, Option<String>, Option<i32>),
>)
    ensures
        recs@.map_values(|r: (String, Option<String>, Option<i32>)| record_view(r)) == token_records(
            views(toks@),
            string_views(comments@),
            nags@,
            toks@.len() as int,
        ),
{
    let ghost ts = views(toks@);
    let ghost cs = string_views(comments@);
    let mut recs: Vec<(String, Option<String>, Option<i32>)> = Vec::new();
    let mut i: usize = 0;
    while i < toks.len()
        invariant
            i <= toks.len(),
            ts == views(toks@),
            cs == string_views(comments@),
            recs@.map_values(|r: (String, Option<String>, Option<i32>)| record_view(r)) == token_records(
                ts,
                cs,
                nags@,
                i as int,
            ),
        decreases toks.len() - i,
    {
        assert(ts[i as int] == toks@[i as int]@);
        if toks[i].len() > 0 {
            let comment = if i < comments.len() {
                Some(comments[i].clone())
            } else {
                None
            };
            let nag = if i < nags.len() {
                Some(nags[i])
            } else {
                None
            };
            let ghost before = recs@;
            recs.push((string_from_chars(&toks[i]), comment, nag));
            assert(recs@.map_values(|r: (String, Option<String>, Option<i32>)| record_view(r)) =~= before.map_values(
                |r: (String, Option<String>, Option<i32>)| record_view(r),
            ).push((ts[i as int], seq_get(cs, i as int), seq_get(nags@, i as int))));
        }
        i += 1;
    }
    recs
}

/// The first groups of the matches of `pattern` in `text`, trimmed
/// (`found_texts`).
fn found_strings(pattern: &str, text: &str) -> (v: Vec<String>)
    ensures
        v@.len() == found_texts(pattern@, text@).len(),
        forall|i: int| 0 <= i < v@.len() ==> (#[trigger] v@[i])@ == found_texts(pattern@, text@)[i],
{
    let groups = match regex_captures(pattern, text) {
        Some(g) => g,
        None => {
            return Vec::new();
        },
    };
    proof {
        let gs = groups_of(regex_first_groups(pattern@, text@));
        assert forall|i: int| 0 <= i < gs.len() implies #[trigger] group_views(groups@)[i] == gs[i] by {
            match gs[i] {
                Some(t) => assert(groups@[i] matches Some(x) && x@ == t),
                None => assert(groups@[i] is None),
            }
        }
        assert(group_views(groups@) =~= gs);
    }
    trimmed_texts(&groups)
}

/// `text` with the matches of `pattern` replaced by `rep`, or unchanged
/// where the pattern does not compile (`replaced_or`).
fn replace_or_keep(pattern: &str, text: String, rep: &str) -> (r: String)
    ensures
        r@ == replaced_or(pattern@, text@, rep@),
{
    match regex_replace_all(pattern, text.as_str(), rep) {
        Some(t) => t,
        None => text,
    }
}

/// The glyph numbers of a move number's text (`nag_values`).
fn nag_list(p: &str) -> (v: Vec<i32>)
    ensures
        v@ == nag_values(groups_of(regex_first_groups(nag_pattern(), p@))),
{
    let groups = match regex_captures("\\$(\\d+)", p) {
        Some(g) => g,
        None => {
            return Vec::new();
        },
    };
    proof {
        let gs = groups_of(regex_first_groups(nag_pattern(), p@));
        assert forall|i: int| 0 <= i < gs.len() implies #[trigger] group_views(groups@)[i] == gs[i] by {
            match gs[i] {
                Some(t) => assert(groups@[i] matches Some(x) && x@ == t),
                None => assert(groups@[i] is None),
            }
        }
        assert(group_views(groups@) =~= gs);
    }
    nag_numbers(&groups)
}

/// The move numbers' texts of a move text (`move_pairs`).
fn pairs_of(text: &str) -> (v: Vec<String>)
    ensures
        v@.len() == move_pairs(text@).len(),
        forall|i: int| 0 <= i < v@.len() ==> (#[trigger] v@[i])@ == move_pairs(text@)[i],
{
    let t1 = replace_or_keep("\\[%clk\\s+([\\d:.]+)\\]", text.to_string(), "");
    let t2 = replace_or_keep("\\[%timestamp\\s+([\\d:.]+)\\]", t1, "");
    let pieces = match regex_split("(\\d:\\d{1,2})?(\\d{1,3}\\.)", t2.as_str()) {
        Some(p) => p,
        None => {
            return Vec::new();
        },
    };
    proof {
        let ps = regex_pieces(number_pattern(), t2@)->0;
        assert(string_views(pieces@) =~= ps);
    }
    let v = kept_pieces(&pieces);
    proof {
        assert forall|i: int| 0 <= i < v@.len() implies (#[trigger] v@[i])@ == move_pairs(text@)[i] by {
            assert(string_views(v@)[i] == v@[i]@);
        }
    }
    v
}

/// The words of a text joined by single spaces and split at the spaces.
pub fn tokens_of_text(p2: &str) -> (toks: Vec<Vec<char>>)
    ensures
        views(toks@) == split_on(join_with(ws_fields(p2@), ' '), ' '),
        toks@.len() == split_on(join_with(ws_fields(p2@), ' '), ' ').len(),
{
    let words = split_whitespace(&chars_of(p2));
    let joined = join_rest(&words, 0);
    assert(views(words@).subrange(0, words@.len() as int) == views(words@));
    split_chars(&chars_of(joined.as_str()), ' ')
}

/// The tokens of a move number's text (`pair_tokens`).
fn tokens_of_pair(p: &str) -> (toks: Vec<Vec<char>>)
    ensures
        views(toks@) == pair_tokens(p@),
        toks@.len() == pair_tokens(p@).len(),
{
    let p0 = replace_or_keep("\\{([^{}]*)\\}", p.to_string(), "");
    let p1 = string_from_chars(&trim_chars(&chars_of(p0.as_str())));
    let p2 = replace_or_keep("\\$(\\d+)", p1, " ");
    tokens_of_text(p2.as_str())
}

/// The moves of a move number's text with their comments and glyphs
/// (`pair_records`).
fn records_of_pair(p: &str) -> (recs: Vec<(String, Option<String>, Option<i32>)>)
    ensures
        recs@.map_values(|r: (String, Option<String>, Option<i32>)| record_view(r)) == pair_records(p@),
{
    let toks = tokens_of_pair(p);
    let comments = found_strings("\\{([^{}]*)\\}", p);
    let nags = nag_list(p);
    proof {
        assert(string_views(comments@) =~= found_texts(comment_pattern(), p@));
    }
    move_records(&toks, &comments, &nags)
}

/// The promotion a SAN names after its first `=` (`promotion_in`).
fn promotion_of_san(san: &Vec<char>) -> (p: Option<PieceType>)
    ensures
        p == promotion_in(san@),
{
    proof {
        lemma_index_from(san@, '=', 0);
    }
    let k = match index_of_char(san, '=') {
        Some(k) => k,
        None => {
            return None;
        },
    };
    let mut b: u128 = 0;
    let mut i: usize = 0;
    while i < k
        invariant
            i <= k < san.len(),
            b == byte_len(san@.take(i as int)),
            b <= 4 * i,
        decreases k - i,
    {
        assert(san@.take(i + 1).drop_last() == san@.take(i as int));
        b = b + utf8_len_of(san[i]) as u128;
        i += 1;
    }
    b = b + 1;
    if b < san.len() as u128 {
        let c = san[b as usize];
        if c == 'Q' {
            Some(PieceType::Queen)
        } else if c == 'R' {
            Some(PieceType::Rook)
        } else if c == 'B' {
            Some(PieceType::Bishop)
        } else if c == 'N' {
            Some(PieceType::Knight)
        } else {
            None
        }
    } else {
        None
    }
}


/// The clock readings of a move text, in order.
pub open spec fn clocks_of(text: Seq<char>) -> Seq<Seq<char>> {
    found_texts(clk_pattern(), text)
}

/// The time stamps of a move text, in order.
pub open spec fn stamps_of(text: Seq<char>) -> Seq<u32> {
    found_texts(ts_pattern(), text).map_values(|t: Seq<char>| timestamp_of(t))
}

/// The moves `all` are read from the records `recs` of a move text, one
/// each, and translated on the boards `bs`, from the default board on, one
/// `translation_step` a move.
#[verifier::opaque]
pub open spec fn replayed(
    bs: Seq<Board>,
    recs: Seq<(Seq<char>, Option<Seq<char>>, Option<i32>)>,
    all: Seq<MoveStruct>,
    clocks: Seq<Seq<char>>,
    stamps: Seq<u32>,
) -> bool {
    &&& bs.len() == recs.len() + 1
    &&& all.len() == recs.len()
    &&& is_default_board(bs[0])
    &&& forall|k: int|
        0 <= k < recs.len() ==> translation_step(#[trigger] bs[k], bs[k + 1], recs[k].0, all[k].uci@)
            && move_of_record(all[k], recs[k], k, clocks, stamps)
}

/// The `k`-th move read from a record: translated and played on the board
/// (`translation_step`) and recorded (`move_of_record`).
fn read_move(
    board: &mut Board,
    rec: &(String, Option<String>, Option<i32>),
    k: usize,
    counter: u32,
    clocks: &Vec<String>,
    stamps: &Vec<u32>,
    Ghost(cl): Ghost<Seq<Seq<char>>>,
    Ghost(st): Ghost<Seq<u32>>,
) -> (mv: MoveStruct)
    requires
        counter as int == (k + 1) % 0x1_0000_0000,
        clocks@.len() == cl.len(),
        forall|q: int| 0 <= q < cl.len() ==> (#[trigger] clocks@[q])@ == cl[q],
        stamps@ == st,
    ensures
        translation_step(*old(board), *final(board), rec.0@, mv.uci@),
        move_of_record(mv, record_view(*rec), k as int, cl, st),
{
    let san = rec.0.clone();
    let comment = match &rec.1 {
        Some(c) => Some(c.clone()),
        None => None,
    };
    let uci = translate_san(board, san.as_str());
    let sv = chars_of(san.as_str());
    let promotion = promotion_of_san(&sv);
    let is_capture = holds_char(&sv, 'x');
    let time_stamp = if k < stamps.len() {
        Some(stamps[k])
    } else {
        None
    };
    let clock = if k < clocks.len() {
        Some(clocks[k].clone())
    } else {
        None
    };
    MoveStruct {
        move_number: counter,
        san,
        uci,
        promotion,
        is_capture,
        annotation: comment,
        nag: rec.2,
        time_stamp,
        clock,
    }
}

/// The move counter after the `n`-th move, wrapping at 2^32.
pub proof fn lemma_counter_next(c: u32, n: int)
    requires
        n >= 0,
        c as int == (n + 1) % 0x1_0000_0000,
    ensures
        vstd::wrapping::u32_specs::wrapping_add(c, 1) as int == (n + 2) % 0x1_0000_0000,
{
}

/// A replay starts on the default board with nothing read.
pub proof fn lemma_replay_start(b: Board, clocks: Seq<Seq<char>>, stamps: Seq<u32>)
    requires
        is_default_board(b),
    ensures
        replayed(seq![b], Seq::empty(), Seq::empty(), clocks, stamps),
{
    reveal(replayed);
}

/// A replay has a board more than records, and a move for each record.
pub proof fn lemma_replay_lengths(
    bs: Seq<Board>,
    recs: Seq<(Seq<char>, Option<Seq<char>>, Option<i32>)>,
    all: Seq<MoveStruct>,
    clocks: Seq<Seq<char>>,
    stamps: Seq<u32>,
)
    requires
        replayed(bs, recs, all, clocks, stamps),
    ensures
        bs.len() == recs.len() + 1,
        all.len() == recs.len(),
{
    reveal(replayed);
}

/// One more move read keeps the replay.
pub proof fn lemma_replay_push(
    bs: Seq<Board>,
    recs: Seq<(Seq<char>, Option<Seq<char>>, Option<i32>)>,
    all: Seq<MoveStruct>,
    b: Board,
    rec: (Seq<char>, Option<Seq<char>>, Option<i32>),
    mv: MoveStruct,
    clocks: Seq<Seq<char>>,
    stamps: Seq<u32>,
)
    requires
        replayed(bs, recs, all, clocks, stamps),
        translation_step(bs.last(), b, rec.0, mv.uci@),
        move_of_record(mv, rec, recs.len() as int, clocks, stamps),
    ensures
        replayed(bs.push(b), recs.push(rec), all.push(mv), clocks, stamps),
{
    reveal(replayed);
    let bs2 = bs.push(b);
    let recs2 = recs.push(rec);
    let all2 = all.push(mv);
    assert forall|q: int| 0 <= q < recs2.len() implies translation_step(
        #[trigger] bs2[q],
        bs2[q + 1],
        recs2[q].0,
        all2[q].uci@,
    ) && move_of_record(all2[q], recs2[q], q, clocks, stamps) by {
        if q < recs.len() {
            assert(bs2[q] == bs[q] && bs2[q + 1] == bs[q + 1]);
            assert(recs2[q] == recs[q] && all2[q] == all[q]);
        } else {
            assert(bs2[q] == bs.last());
        }
    }
}

/// The values of time stamp texts: each number, 0 where it does not read
/// as one (`timestamp_of`).
pub fn stamp_values(texts: &Vec<String>) -> (stamps: Vec<u32>)
    ensures
        stamps@ == string_views(texts@).map_values(|t: Seq<char>| timestamp_of(t)),
{
    let ghost st = string_views(texts@).map_values(|t: Seq<char>| timestamp_of(t));
    let mut stamps: Vec<u32> = Vec::new();
    let mut j: usize = 0;
    while j < texts.len()
        invariant
            j <= texts.len(),
            st == string_views(texts@).map_values(|t: Seq<char>| timestamp_of(t)),
            stamps@ == st.take(j as int),
        decreases texts.len() - j,
    {
        let n = match parse_u32(&chars_of(texts[j].as_str())) {
            Some(n) => n,
            None => 0,
        };
        stamps.push(n);
        assert(stamps@ =~= st.take(j + 1));
        j += 1;
    }
    assert(st.take(st.len() as int) == st);
    stamps
}

/// The time stamps of a move text (`stamps_of`).
fn stamps_from(text: &str) -> (stamps: Vec<u32>)
    ensures
        stamps@ == stamps_of(text@),
{
    let stamp_texts = found_strings("\\[%timestamp\\s+([\\d:.]+)\\]", text);
    proof {
        assert(string_views(stamp_texts@) =~= found_texts(ts_pattern(), text@));
    }
    stamp_values(&stamp_texts)
}

/// Reads the moves of one move number's records, after those already read
/// (`done`, on the boards `bs`), keeping the replay.
#[verifier::spinoff_prover]
fn read_pair_moves(
    board: &mut Board,
    moves: &mut Vec<MoveStruct>,
    move_counter: &mut u32,
    recs: &Vec<(String, Option<String>, Option<i32>)>,
    clocks: &Vec<String>,
    stamps: &Vec<u32>,
    Ghost(bs): Ghost<Seq<Board>>,
    Ghost(done): Ghost<Seq<(Seq<char>, Option<Seq<char>>, Option<i32>)>>,
    Ghost(pr): Ghost<Seq<(Seq<char>, Option<Seq<char>>, Option<i32>)>>,
    Ghost(cl): Ghost<Seq<Seq<char>>>,
    Ghost(st): Ghost<Seq<u32>>,
) -> (bs2: Ghost<Seq<Board>>)
    requires
        recs@.len() == pr.len(),
        forall|q: int| 0 <= q < pr.len() ==> record_view(#[trigger] recs@[q]) == pr[q],
        clocks@.len() == cl.len(),
        forall|q: int| 0 <= q < cl.len() ==> (#[trigger] clocks@[q])@ == cl[q],
        stamps@ == st,
        replayed(bs, done, old(moves)@, cl, st),
        bs.last() == *old(board),
        *old(move_counter) as int == (old(moves)@.len() + 1) % 0x1_0000_0000,
    ensures
        replayed(bs2@, done + pr, final(moves)@, cl, st),
        bs2@.last() == *final(board),
        *final(move_counter) as int == (final(moves)@.len() + 1) % 0x1_0000_0000,
{
    let ghost mut bs = bs;
    let mut ri: usize = 0;
    while ri < recs.len()
        invariant
            ri <= recs.len(),
            recs@.len() == pr.len(),
            forall|q: int| 0 <= q < pr.len() ==> record_view(#[trigger] recs@[q]) == pr[q],
            clocks@.len() == cl.len(),
            forall|q: int| 0 <= q < cl.len() ==> (#[trigger] clocks@[q])@ == cl[q],
            stamps@ == st,
            replayed(bs, done + pr.take(ri as int), moves@, cl, st),
            bs.last() == *board,
            *move_counter as int == (moves@.len() + 1) % 0x1_0000_0000,
        decreases recs.len() - ri,
    {
        let ghost all_recs = done + pr.take(ri as int);
        let ghost rec = pr[ri as int];
        proof {
            lemma_replay_lengths(bs, all_recs, moves@, cl, st);
        }
        assert(record_view(recs@[ri as int]) == rec);
        let k = moves.len();
        let mv = read_move(board, &recs[ri], k, *move_counter, clocks, stamps, Ghost(cl), Ghost(st));
        let ghost old_moves = moves@;
        moves.push(mv);
        proof {
            lemma_counter_next(*move_counter, k as int);
        }
        *move_counter = move_counter.wrapping_add(1);
        proof {
            lemma_replay_push(bs, all_recs, old_moves, *board, rec, mv, cl, st);
            assert(done + pr.take(ri + 1) =~= all_recs.push(rec));
            bs = bs.push(*board);
        }
        ri += 1;
    }
    assert(pr.take(pr.len() as int) == pr);
    Ghost(bs)
}

/// The texts of a list of move records.
pub open spec fn record_views(recs: Seq<(String, Option<String>, Option<i32>)>) -> Seq<
    (Seq<char>, Option<Seq<char>>, Option<i32>),
> {
    recs.map_values(|r: (String, Option<String>, Option<i32>)| record_view(r))
}

/// Plays and records the moves of `recs` (each a SAN with the comment and
/// glyph of its place) from the standard position, as `replayed` says, with
/// the clock readings `clocks` and time stamps `stamps` of their places.
pub fn moves_from_records(
    recs: &Vec<(String, Option<String>, Option<i32>)>,
    clocks: &Vec<String>,
    stamps: &Vec<u32>,
) -> (moves: Vec<MoveStruct>)
    ensures
        exists|bs: Seq<Board>|
            #[trigger] replayed(
                bs,
                record_views(recs@),
                moves@,
                string_views(clocks@),
                stamps@,
            ),
{
    let mut board = Board::default();
    let ghost cl = string_views(clocks@);
    let ghost st = stamps@;
    let ghost bs0 = seq![board];
    let ghost pr = recs@.map_values(|r: (String, Option<String>, Option<i32>)| record_view(r));
    let ghost none: Seq<(Seq<char>, Option<Seq<char>>, Option<i32>)> = Seq::empty();
    proof {
        lemma_replay_start(board, cl, st);
    }
    let mut moves: Vec<MoveStruct> = Vec::new();
    let mut counter: u32 = 1;
    let bs = read_pair_moves(
        &mut board,
        &mut moves,
        &mut counter,
        recs,
        clocks,
        stamps,
        Ghost(bs0),
        Ghost(none),
        Ghost(pr),
        Ghost(cl),
        Ghost(st),
    );
    assert(none + pr =~= pr);
    assert(replayed(bs@, pr, moves@, cl, st));
    assert(record_views(recs@) == pr);
    assert(replayed(bs@, record_views(recs@), moves@, string_views(clocks@), stamps@));
    moves
}

/// Reads the moves of the move numbers' texts `pairs` (`records_of`),
/// translating them on a board from the standard position (`replayed`).
#[verifier::spinoff_prover]
fn read_moves(
    pairs: &Vec<String>,
    clocks: &Vec<String>,
    stamps: &Vec<u32>,
    Ghost(ps): Ghost<Seq<Seq<char>>>,
    Ghost(cl): Ghost<Seq<Seq<char>>>,
    Ghost(st): Ghost<Seq<u32>>,
) -> (r: (Vec<MoveStruct>, Ghost<Seq<Board>>))
    requires
        pairs@.len() == ps.len(),
        forall|q: int| 0 <= q < ps.len() ==> (#[trigger] pairs@[q])@ == ps[q],
        clocks@.len() == cl.len(),
        forall|q: int| 0 <= q < cl.len() ==> (#[trigger] clocks@[q])@ == cl[q],
        stamps@ == st,
    ensures
        replayed(r.1@, records_of(ps), r.0@, cl, st),
{
    let mut board = Board::default();
    let ghost mut bs: Seq<Board> = seq![board];
    proof {
        lemma_replay_start(board, cl, st);
        assert(ps.take(0) =~= Seq::<Seq<char>>::empty());
    }
    let mut moves: Vec<MoveStruct> = Vec::new();
    let mut move_counter: u32 = 1;
    let mut pi: usize = 0;
    while pi < pairs.len()
        invariant
            pi <= pairs.len(),
            pairs@.len() == ps.len(),
            forall|q: int| 0 <= q < ps.len() ==> (#[trigger] pairs@[q])@ == ps[q],
            clocks@.len() == cl.len(),
            forall|q: int| 0 <= q < cl.len() ==> (#[trigger] clocks@[q])@ == cl[q],
            stamps@ == st,
            replayed(bs, records_of(ps.take(pi as int)), moves@, cl, st),
            bs.last() == board,
            move_counter as int == (moves@.len() + 1) % 0x1_0000_0000,
        decreases pairs.len() - pi,
    {
        let ghost done = records_of(ps.take(pi as int));
        assert(ps.take(pi + 1).drop_last() == ps.take(pi as int));
        assert(ps.take(pi + 1).last() == pairs@[pi as int]@);
        let recs = records_of_pair(pairs[pi].as_str());
        let ghost pr = pair_records(pairs@[pi as int]@);
        assert(recs@.len() == pr.len());
        assert forall|q: int| 0 <= q < pr.len() implies record_view(#[trigger] recs@[q]) == pr[q] by {
            assert(recs@.map_values(|r: (String, Option<String>, Option<i32>)| record_view(r))[q] == pr[q]);
        }
        let bs_new = read_pair_moves(&mut board, &mut moves, &mut move_counter, &recs, &clocks, &stamps, Ghost(bs), Ghost(done), Ghost(pr), Ghost(cl), Ghost(st));
        proof {
            bs = bs_new@;
        }
        assert(pr.take(pr.len() as int) == pr);
        assert(records_of(ps.take(pi + 1)) == done + pr);
        pi += 1;
    }
    assert(ps.take(ps.len() as int) == ps);
    (moves, Ghost(bs))
}

/// Reads a PGN text into a game record. Black move numbers (`12...`) are
/// removed first. Each tag line (`[Name "value"]`, trimmed) sets its tag
/// (`set_tag`) on a new record; the other lines make the move text, which is
/// cut at the move numbers after clock and time stamp comments are taken
/// out. Each move read gets its number, its SAN, the comment and glyph of
/// its place, its promotion and capture mark, the clock reading and time
/// stamp of its place, and the UCI move found by playing the game on a
/// translation board from the standard position. The last move read is
/// dropped.
pub fn parse_pgn_string(s: String) -> (m: BoardMetaData)
    ensures
        ({
            let (tags, text) = pgn_header(normalized_pgn(s@));
            let recs = records_of(move_pairs(text));
            &&& exists|m0: BoardMetaData, mt: BoardMetaData|
                is_default_meta(m0) && #[trigger] tags_applied(m0, mt, tags) && (BoardMetaData {
                    move_list: m.move_list,
                    ..mt
                }) == m
            &&& exists|bs: Seq<Board>, all: Seq<MoveStruct>|
                #[trigger] replayed(bs, recs, all, clocks_of(text), stamps_of(text)) && m.move_list@ == (
                if all.len() > 0 {
                    all.drop_last()
                } else {
                    all
                })
        }),
{
    let s = normalize_pgn(s);
    let mut metadata = BoardMetaData::default();
    let text = read_header(s.as_str(), &mut metadata);
    let clocks = found_strings("\\[%clk\\s+([\\d:.]+)\\]", text.as_str());
    let ghost cl = clocks_of(text@);
    let ghost st = stamps_of(text@);
    let stamps = stamps_from(text.as_str());
    let pairs = pairs_of(text.as_str());
    let ghost ps = move_pairs(text@);
    let (mut moves, bs) = read_moves(&pairs, &clocks, &stamps, Ghost(ps), Ghost(cl), Ghost(st));
    let ghost all = moves@;
    proof {
        lemma_replay_lengths(bs@, records_of(ps), all, cl, st);
    }
    moves.pop();
    metadata.move_list = moves;
    assert(replayed(bs@, records_of(ps), all, cl, st));
    metadata
}

} // verus!
