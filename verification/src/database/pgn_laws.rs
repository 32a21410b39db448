use vstd::prelude::*;

use crate::database::pgn::{
    tag_set, termination_of,
    move_comment, move_text, moves_text, optional_tag, or_unknown, pgn_of, pgn_tags, tag_line,
    termination_word,
};
use crate::database::pgn_reader::{
    header_scan, index_from, is_bracket, is_tag_line, pgn_header, tag_of_line, trim_brackets,
};
use crate::engine::board::{lemma_result_roundtrip, result_of, result_token, BoardMetaData, MoveStruct};
use crate::database::pgn_reader::{tag_chain, tags_applied};
use crate::text::{
    decimal, digit_char, holds_text, is_digit, lemma_parse_decimal, parse_u32_spec, is_white_space, join_with, lemma_decimal_digits, signed_decimal,
    split_on, trim, trim_char, trim_end, trim_start,
};

verus! {

/// A tag line without its line break: `[name "value"]`.
pub open spec fn tag_text(name: Seq<char>, value: Seq<char>) -> Seq<char> {
    seq!['['] + name + seq![' ', '"'] + value + seq!['"', ']']
}

/// A tag name the reader takes whole: not empty, without spaces or line
/// breaks, not beginning with a bracket or white space.
pub open spec fn plain_name(name: Seq<char>) -> bool {
    &&& name.len() > 0
    &&& !is_bracket(name[0])
    &&& forall|i: int| 0 <= i < name.len() ==> (#[trigger] name[i]) != ' ' && name[i] != '\n'
}

/// A tag value the reader takes whole: without line breaks, not beginning
/// or ending with a quote.
pub open spec fn plain_value(v: Seq<char>) -> bool {
    &&& forall|i: int| 0 <= i < v.len() ==> (#[trigger] v[i]) != '\n'
    &&& v.len() > 0 ==> v[0] != '"' && v.last() != '"'
}

/// A text that begins and ends with characters other than white space is
/// its own trim.
pub proof fn lemma_trim_plain(s: Seq<char>)
    requires
        s.len() > 0,
        !is_white_space(s[0]),
        !is_white_space(s.last()),
    ensures
        trim(s) == s,
{
    assert(trim_start(s) == s);
    assert(trim_end(s) == s);
}

/// A quoted value loses exactly its quotes.
pub proof fn lemma_unquote(v: Seq<char>)
    requires
        plain_value(v),
    ensures
        trim_char(seq!['"'] + v + seq!['"'], '"') == v,
{
    let q = seq!['"'] + v + seq!['"'];
    let w = v + seq!['"'];
    assert(q[0] == '"');
    assert(q.drop_first() =~= w);
    assert(trim_char(q, '"') == trim_char(w, '"'));
    if v.len() == 0 {
        assert(w =~= seq!['"']);
        assert(w.drop_first() =~= Seq::<char>::empty());
        assert(trim_char(w, '"') == trim_char(Seq::<char>::empty(), '"'));
    } else {
        assert(w[0] == v[0]);
        assert(w.last() == '"');
        assert(w.drop_last() =~= v);
        assert(trim_char(w, '"') == trim_char(v, '"'));
        assert(trim_char(v, '"') == v);
    }
}

/// The first `c` in `s + [c] + t`, from `i` on, where `s` holds none from
/// `i` on, is the one after `s`.
pub proof fn lemma_index_after(s: Seq<char>, c: char, t: Seq<char>, i: int)
    requires
        0 <= i <= s.len(),
        forall|k: int| i <= k < s.len() ==> s[k] != c,
    ensures
        index_from(s + seq![c] + t, c, i) == Some(s.len() as int),
    decreases s.len() - i,
{
    let w = s + seq![c] + t;
    if i < s.len() {
        assert(w[i] == s[i]);
        lemma_index_after(s, c, t, i + 1);
    } else {
        assert(w[i] == c);
    }
}

/// A tag line reads back as its name and its quoted value.
pub proof fn lemma_tag_text_reads(name: Seq<char>, v: Seq<char>)
    requires
        plain_name(name),
        plain_value(v),
    ensures
        is_tag_line(trim(tag_text(name, v))),
        tag_of_line(trim(tag_text(name, v))) == Some((name, seq!['"'] + v + seq!['"'])),
{
    let line = tag_text(name, v);
    assert(line[0] == '[');
    assert(line.last() == ']');
    lemma_trim_plain(line);
    let s1 = name + seq![' ', '"'] + v + seq!['"', ']'];
    let s2 = name + seq![' ', '"'] + v + seq!['"'];
    assert(line.drop_first() =~= s1);
    assert(s1[0] == name[0]);
    assert(s1.last() == ']');
    assert(s1.drop_last() =~= s2);
    assert(s2[0] == name[0]);
    assert(s2.last() == '"');
    assert(trim_brackets(s2) == s2);
    assert(trim_brackets(s1) == s2);
    assert(trim_brackets(line) == s2);
    let rest = seq!['"'] + v + seq!['"'];
    assert(s2 =~= name + seq![' '] + rest);
    lemma_index_after(name, ' ', rest, 0);
    assert(s2.take(name.len() as int) =~= name);
    assert(s2.skip(name.len() as int + 1) =~= rest);
}


/// The lines, each followed by a line break.
pub open spec fn lines_text(ls: Seq<Seq<char>>) -> Seq<char>
    decreases ls.len(),
{
    if ls.len() == 0 {
        Seq::empty()
    } else {
        lines_text(ls.drop_last()) + ls.last() + seq!['\n']
    }
}

/// No line break in `s`.
pub open spec fn no_breaks(s: Seq<char>) -> bool {
    forall|i: int| 0 <= i < s.len() ==> (#[trigger] s[i]) != '\n'
}

/// Lines each followed by a break are the lines and an empty one joined by
/// breaks.
pub proof fn lemma_lines_join(ls: Seq<Seq<char>>)
    ensures
        join_with(ls.push(Seq::empty()), '\n') == lines_text(ls),
    decreases ls.len(),
{
    if ls.len() > 0 {
        lemma_lines_join(ls.drop_last());
        assert(ls.push(Seq::empty()).drop_last() == ls);
        if ls.len() == 1 {
            assert(join_with(ls, '\n') == ls[0]);
            assert(lines_text(ls.drop_last()) =~= Seq::<char>::empty());
        } else {
            assert(ls.drop_last().push(ls.last()) == ls);
            assert(ls.drop_last().push(Seq::empty()).drop_last() == ls.drop_last());
            assert(join_with(ls, '\n') == join_with(ls.drop_last(), '\n') + seq!['\n'] + ls.last());
            assert(join_with(ls.drop_last().push(Seq::empty()), '\n') == join_with(ls.drop_last(), '\n')
                + seq!['\n'] + Seq::<char>::empty());
        }
        assert(join_with(ls.push(Seq::empty()), '\n') =~= join_with(ls, '\n') + seq!['\n']);
    }
}

/// Lines without breaks, each followed by a break, split back into the
/// lines and a last empty one.
pub proof fn lemma_split_lines(ls: Seq<Seq<char>>)
    requires
        forall|k: int| 0 <= k < ls.len() ==> no_breaks(#[trigger] ls[k]),
    ensures
        split_on(lines_text(ls), '\n') == ls.push(Seq::empty()),
{
    lemma_lines_join(ls);
    let all = ls.push(Seq::empty());
    assert forall|k: int, i: int| 0 <= k < all.len() && 0 <= i < all[k].len() implies #[trigger] all[k][i] != '\n' by {
        assert(k < ls.len());
        assert(no_breaks(ls[k]));
    }
    crate::text::lemma_split_join(all, '\n');
}

/// The text of two runs of lines is that of each in turn.
pub proof fn lemma_lines_concat(a: Seq<Seq<char>>, b: Seq<Seq<char>>)
    ensures
        lines_text(a + b) == lines_text(a) + lines_text(b),
    decreases b.len(),
{
    if b.len() == 0 {
        assert(a + b == a);
        assert(lines_text(a) + lines_text(b) =~= lines_text(a));
    } else {
        lemma_lines_concat(a, b.drop_last());
        assert((a + b).drop_last() == a + b.drop_last());
        assert((a + b).last() == b.last());
        assert(lines_text(a + b) =~= lines_text(a) + lines_text(b));
    }
}

/// The tags read from two runs of lines are those of each in turn.
pub proof fn lemma_header_tags_concat(a: Seq<Seq<char>>, b: Seq<Seq<char>>)
    ensures
        header_scan(a + b).0 == header_scan(a).0 + header_scan(b).0,
    decreases b.len(),
{
    if b.len() == 0 {
        assert(a + b == a);
        assert(header_scan(a).0 + header_scan(b).0 =~= header_scan(a).0);
    } else {
        lemma_header_tags_concat(a, b.drop_last());
        assert((a + b).drop_last() == a + b.drop_last());
        assert((a + b).last() == b.last());
        assert(header_scan(a + b).0 =~= header_scan(a).0 + header_scan(b).0);
    }
}

/// The tag lines of name and value pairs.
pub open spec fn tag_texts(ps: Seq<(Seq<char>, Seq<char>)>) -> Seq<Seq<char>> {
    ps.map_values(|p: (Seq<char>, Seq<char>)| tag_text(p.0, p.1))
}

/// The pairs with their values quoted.
pub open spec fn quoted(ps: Seq<(Seq<char>, Seq<char>)>) -> Seq<(Seq<char>, Seq<char>)> {
    ps.map_values(|p: (Seq<char>, Seq<char>)| (p.0, seq!['"'] + p.1 + seq!['"']))
}

/// Every name and value of the pairs is plain.
pub open spec fn plain_pairs(ps: Seq<(Seq<char>, Seq<char>)>) -> bool {
    forall|k: int| 0 <= k < ps.len() ==> plain_name((#[trigger] ps[k]).0) && plain_value(ps[k].1)
}

/// Tag lines of plain pairs read back as the pairs, values quoted.
pub proof fn lemma_tag_texts_read(ps: Seq<(Seq<char>, Seq<char>)>)
    requires
        plain_pairs(ps),
    ensures
        header_scan(tag_texts(ps)).0 == quoted(ps),
    decreases ps.len(),
{
    if ps.len() > 0 {
        let init = ps.drop_last();
        lemma_tag_texts_read(init);
        assert(tag_texts(ps).drop_last() =~= tag_texts(init));
        assert(tag_texts(ps).last() == tag_text(ps.last().0, ps.last().1));
        lemma_tag_text_reads(ps.last().0, ps.last().1);
        assert(quoted(ps) =~= quoted(init).push((ps.last().0, seq!['"'] + ps.last().1 + seq!['"'])));
    } else {
        assert(quoted(ps) =~= Seq::<(Seq<char>, Seq<char>)>::empty());
    }
}


/// A tag of an optional field, none when the field is absent.
pub open spec fn opt_pair(name: Seq<char>, o: Option<String>) -> Seq<(Seq<char>, Seq<char>)> {
    match o {
        Some(t) => seq![(name, t@)],
        None => Seq::empty(),
    }
}

/// The tags a game record is written with, in order (`pgn_tags`).
pub open spec fn tag_pairs(m: BoardMetaData) -> Seq<(Seq<char>, Seq<char>)> {
    seq![
        ("Event"@, or_unknown(m.event)),
        ("Site"@, or_unknown(m.site)),
        ("Date"@, m.date@),
        ("Round"@, or_unknown(m.round)),
        ("White"@, m.white_player_name@),
        ("Black"@, m.black_player_name@),
        ("WhiteElo"@, decimal(m.white_player_elo as nat)),
        ("BlackElo"@, decimal(m.black_player_elo as nat)),
        ("Result"@, result_token(m.result)),
    ] + opt_pair("TimeControl"@, m.time_control) + opt_pair("ECO"@, m.eco) + opt_pair("Opening"@, m.opening)
        + opt_pair("EndTime"@, m.end_time) + opt_pair("Link"@, m.link) + seq![
        ("Termination"@, termination_word(m.termination)),
    ]
}

/// The lines of two runs of pairs are those of each in turn.
pub proof fn lemma_pair_lines_concat(a: Seq<(Seq<char>, Seq<char>)>, b: Seq<(Seq<char>, Seq<char>)>)
    ensures
        lines_text(tag_texts(a + b)) == lines_text(tag_texts(a)) + lines_text(tag_texts(b)),
{
    assert(tag_texts(a + b) =~= tag_texts(a) + tag_texts(b));
    lemma_lines_concat(tag_texts(a), tag_texts(b));
}

/// A tag line is the line of its one pair.
pub proof fn lemma_tag_line_pair(name: Seq<char>, v: Seq<char>)
    ensures
        tag_line(name, v) == lines_text(tag_texts(seq![(name, v)])),
{
    let ts = tag_texts(seq![(name, v)]);
    assert(ts =~= seq![tag_text(name, v)]);
    assert(ts.drop_last() =~= Seq::<Seq<char>>::empty());
    assert(lines_text(ts.drop_last()) =~= Seq::<char>::empty());
    assert(ts.last() == tag_text(name, v));
    assert(lines_text(ts) == lines_text(ts.drop_last()) + ts.last() + seq!['\n']);
    assert(lines_text(ts) =~= tag_text(name, v) + seq!['\n']);
    assert(tag_line(name, v) =~= tag_text(name, v) + seq!['\n']);
}

/// An optional tag's line is the line of its pairs.
pub proof fn lemma_optional_tag_pairs(name: Seq<char>, o: Option<String>)
    ensures
        optional_tag(name, o) == lines_text(tag_texts(opt_pair(name, o))),
{
    match o {
        Some(t) => lemma_tag_line_pair(name, t@),
        None => {
            assert(tag_texts(opt_pair(name, o)) =~= Seq::<Seq<char>>::empty());
        },
    }
}

/// The tag section of a record is the lines of its tags.
pub proof fn lemma_pgn_tags_lines(m: BoardMetaData)
    ensures
        pgn_tags(m) == lines_text(tag_texts(tag_pairs(m))),
{
    let p1 = seq![("Event"@, or_unknown(m.event))];
    let p2 = seq![("Site"@, or_unknown(m.site))];
    let p3 = seq![("Date"@, m.date@)];
    let p4 = seq![("Round"@, or_unknown(m.round))];
    let p5 = seq![("White"@, m.white_player_name@)];
    let p6 = seq![("Black"@, m.black_player_name@)];
    let p7 = seq![("WhiteElo"@, decimal(m.white_player_elo as nat))];
    let p8 = seq![("BlackElo"@, decimal(m.black_player_elo as nat))];
    let p9 = seq![("Result"@, result_token(m.result))];
    let o1 = opt_pair("TimeControl"@, m.time_control);
    let o2 = opt_pair("ECO"@, m.eco);
    let o3 = opt_pair("Opening"@, m.opening);
    let o4 = opt_pair("EndTime"@, m.end_time);
    let o5 = opt_pair("Link"@, m.link);
    let p10 = seq![("Termination"@, termination_word(m.termination))];
    lemma_tag_line_pair("Event"@, or_unknown(m.event));
    lemma_tag_line_pair("Site"@, or_unknown(m.site));
    lemma_tag_line_pair("Date"@, m.date@);
    lemma_tag_line_pair("Round"@, or_unknown(m.round));
    lemma_tag_line_pair("White"@, m.white_player_name@);
    lemma_tag_line_pair("Black"@, m.black_player_name@);
    lemma_tag_line_pair("WhiteElo"@, decimal(m.white_player_elo as nat));
    lemma_tag_line_pair("BlackElo"@, decimal(m.black_player_elo as nat));
    lemma_tag_line_pair("Result"@, result_token(m.result));
    lemma_optional_tag_pairs("TimeControl"@, m.time_control);
    lemma_optional_tag_pairs("ECO"@, m.eco);
    lemma_optional_tag_pairs("Opening"@, m.opening);
    lemma_optional_tag_pairs("EndTime"@, m.end_time);
    lemma_optional_tag_pairs("Link"@, m.link);
    lemma_tag_line_pair("Termination"@, termination_word(m.termination));
    let a1 = p1 + p2;
    lemma_pair_lines_concat(p1, p2);
    let a2 = a1 + p3;
    lemma_pair_lines_concat(a1, p3);
    let a3 = a2 + p4;
    lemma_pair_lines_concat(a2, p4);
    let a4 = a3 + p5;
    lemma_pair_lines_concat(a3, p5);
    let a5 = a4 + p6;
    lemma_pair_lines_concat(a4, p6);
    let a6 = a5 + p7;
    lemma_pair_lines_concat(a5, p7);
    let a7 = a6 + p8;
    lemma_pair_lines_concat(a6, p8);
    let a8 = a7 + p9;
    lemma_pair_lines_concat(a7, p9);
    let a9 = a8 + o1;
    lemma_pair_lines_concat(a8, o1);
    let a10 = a9 + o2;
    lemma_pair_lines_concat(a9, o2);
    let a11 = a10 + o3;
    lemma_pair_lines_concat(a10, o3);
    let a12 = a11 + o4;
    lemma_pair_lines_concat(a11, o4);
    let a13 = a12 + o5;
    lemma_pair_lines_concat(a12, o5);
    let a14 = a13 + p10;
    lemma_pair_lines_concat(a13, p10);
    assert(a8 =~= seq![
        ("Event"@, or_unknown(m.event)),
        ("Site"@, or_unknown(m.site)),
        ("Date"@, m.date@),
        ("Round"@, or_unknown(m.round)),
        ("White"@, m.white_player_name@),
        ("Black"@, m.black_player_name@),
        ("WhiteElo"@, decimal(m.white_player_elo as nat)),
        ("BlackElo"@, decimal(m.black_player_elo as nat)),
        ("Result"@, result_token(m.result)),
    ]);
    assert(a14 =~= tag_pairs(m));
}


/// Trimming the end leaves a beginning of the text.
pub proof fn lemma_trim_end_prefix(s: Seq<char>)
    ensures
        trim_end(s).len() <= s.len(),
        trim_end(s) == s.take(trim_end(s).len() as int),
    decreases s.len(),
{
    if s.len() > 0 && is_white_space(s.last()) {
        lemma_trim_end_prefix(s.drop_last());
        assert(s.drop_last().take(trim_end(s).len() as int) =~= s.take(trim_end(s).len() as int));
    } else {
        assert(s.take(s.len() as int) =~= s);
    }
}

/// Trimming the end keeps a first character that is not white space.
pub proof fn lemma_trim_end_first(s: Seq<char>)
    requires
        s.len() > 0,
        !is_white_space(s[0]),
    ensures
        trim_end(s).len() > 0,
        trim_end(s)[0] == s[0],
    decreases s.len(),
{
    if is_white_space(s.last()) {
        assert(s.len() > 1);
        assert(s.drop_last()[0] == s[0]);
        lemma_trim_end_first(s.drop_last());
    }
}

/// Trimming the end twice trims it once.
pub proof fn lemma_trim_end_twice(s: Seq<char>)
    ensures
        trim_end(trim_end(s)) == trim_end(s),
    decreases s.len(),
{
    if s.len() > 0 && is_white_space(s.last()) {
        lemma_trim_end_twice(s.drop_last());
    }
}

/// A move's texts hold no line break.
pub open spec fn plain_move(mv: MoveStruct) -> bool {
    &&& no_breaks(mv.san@)
    &&& mv.annotation matches Some(a) ==> no_breaks(a@)
    &&& mv.clock matches Some(c) ==> no_breaks(c@)
}

/// A decimal notation holds no line break.
pub proof fn lemma_decimal_no_breaks(n: nat)
    ensures
        no_breaks(decimal(n)),
{
    lemma_decimal_digits(n);
    assert forall|i: int| 0 <= i < decimal(n).len() implies (#[trigger] decimal(n)[i]) != '\n' by {
        assert(is_digit(decimal(n)[i]));
    }
}

/// Joined texts without breaks have none.
pub proof fn lemma_no_breaks_concat(a: Seq<char>, b: Seq<char>)
    requires
        no_breaks(a),
        no_breaks(b),
    ensures
        no_breaks(a + b),
{
    assert forall|i: int| 0 <= i < (a + b).len() implies (#[trigger] (a + b)[i]) != '\n' by {
        if i < a.len() {
            assert((a + b)[i] == a[i]);
        } else {
            assert((a + b)[i] == b[i - a.len()]);
        }
    }
}

/// The comment of a plain move holds no line break.
pub proof fn lemma_comment_no_breaks(mv: MoveStruct)
    requires
        plain_move(mv),
    ensures
        no_breaks(move_comment(mv)),
{
    reveal_strlit("[%clk ");
    reveal_strlit("][%timestamp ");
    reveal_strlit("]");
    reveal_strlit("[%timestamp ");
    let commands = match (mv.clock, mv.time_stamp) {
        (Some(c), Some(t)) => "[%clk "@ + c@ + "][%timestamp "@ + decimal(t as nat) + "]"@,
        (Some(c), None) => "[%clk "@ + c@ + "]"@,
        (None, Some(t)) => "[%timestamp "@ + decimal(t as nat) + "]"@,
        (None, None) => Seq::empty(),
    };
    assert(no_breaks("[%clk "@));
    assert(no_breaks("][%timestamp "@));
    assert(no_breaks("]"@));
    assert(no_breaks("[%timestamp "@));
    match (mv.clock, mv.time_stamp) {
        (Some(c), Some(t)) => {
            lemma_decimal_no_breaks(t as nat);
            lemma_no_breaks_concat("[%clk "@, c@);
            lemma_no_breaks_concat("[%clk "@ + c@, "][%timestamp "@);
            lemma_no_breaks_concat("[%clk "@ + c@ + "][%timestamp "@, decimal(t as nat));
            lemma_no_breaks_concat("[%clk "@ + c@ + "][%timestamp "@ + decimal(t as nat), "]"@);
        },
        (Some(c), None) => {
            lemma_no_breaks_concat("[%clk "@, c@);
            lemma_no_breaks_concat("[%clk "@ + c@, "]"@);
        },
        (None, Some(t)) => {
            lemma_decimal_no_breaks(t as nat);
            lemma_no_breaks_concat("[%timestamp "@, decimal(t as nat));
            lemma_no_breaks_concat("[%timestamp "@ + decimal(t as nat), "]"@);
        },
        (None, None) => {},
    }
    assert(no_breaks(commands));
    match mv.annotation {
        Some(a) => {
            lemma_no_breaks_concat(commands, seq![' ']);
            lemma_no_breaks_concat(commands + seq![' '], a@);
        },
        None => {},
    }
}

/// The text of a plain move holds no line break.
pub proof fn lemma_move_text_no_breaks(mv: MoveStruct, i: int)
    requires
        plain_move(mv),
    ensures
        no_breaks(move_text(mv, i)),
{
    let number = if i % 2 == 0 {
        decimal((i / 2 + 1) as nat) + seq!['.', ' ']
    } else {
        Seq::empty()
    };
    lemma_decimal_no_breaks((i / 2 + 1) as nat);
    lemma_no_breaks_concat(decimal((i / 2 + 1) as nat), seq!['.', ' ']);
    let comment = move_comment(mv);
    lemma_comment_no_breaks(mv);
    let braces = if comment.len() > 0 {
        seq![' ', '{'] + comment + seq!['}']
    } else {
        Seq::empty()
    };
    lemma_no_breaks_concat(seq![' ', '{'], comment);
    lemma_no_breaks_concat(seq![' ', '{'] + comment, seq!['}']);
    let nag = match mv.nag {
        Some(n) => seq![' ', '$'] + signed_decimal(n as int),
        None => Seq::empty(),
    };
    match mv.nag {
        Some(n) => {
            lemma_decimal_no_breaks((-(n as int)) as nat);
            lemma_decimal_no_breaks(n as nat);
            lemma_no_breaks_concat(seq!['-'], decimal((-(n as int)) as nat));
            lemma_no_breaks_concat(seq![' ', '$'], signed_decimal(n as int));
        },
        None => {},
    }
    lemma_no_breaks_concat(number, mv.san@);
    lemma_no_breaks_concat(number + mv.san@, braces);
    lemma_no_breaks_concat(number + mv.san@ + braces, nag);
    lemma_no_breaks_concat(number + mv.san@ + braces + nag, seq![' ']);
}

/// The movetext of plain moves holds no line break, and begins with `1`.
pub proof fn lemma_moves_text(ms: Seq<MoveStruct>, n: int)
    requires
        0 <= n <= ms.len(),
        forall|k: int| 0 <= k < ms.len() ==> plain_move(#[trigger] ms[k]),
    ensures
        no_breaks(moves_text(ms, n)),
        n >= 1 ==> moves_text(ms, n).len() > 0 && moves_text(ms, n)[0] == '1',
    decreases n,
{
    if n > 0 {
        lemma_moves_text(ms, n - 1);
        lemma_move_text_no_breaks(ms[n - 1], n - 1);
        lemma_no_breaks_concat(moves_text(ms, n - 1), move_text(ms[n - 1], n - 1));
        if n == 1 {
            assert(decimal(1) == seq![digit_char(1)]);
            assert(digit_char(1) == '1');
            assert(moves_text(ms, 0) =~= Seq::<char>::empty());
            assert(move_text(ms[0], 0)[0] == '1');
        }
    }
}


/// The movetext line of a record's PGN.
pub open spec fn moves_line(m: BoardMetaData) -> Seq<char> {
    trim_end(moves_text(m.move_list@, m.move_list@.len() as int) + result_token(m.result))
}

/// The movetext line holds no line break and is no tag line.
pub proof fn lemma_moves_line(m: BoardMetaData)
    requires
        forall|k: int| 0 <= k < m.move_list@.len() ==> plain_move(#[trigger] m.move_list@[k]),
    ensures
        no_breaks(moves_line(m)),
        header_scan(seq![moves_line(m)]).0.len() == 0,
{
    let ms = m.move_list@;
    let x = moves_text(ms, ms.len() as int) + result_token(m.result);
    lemma_moves_text(ms, ms.len() as int);
    reveal_strlit("1-0");
    reveal_strlit("0-1");
    reveal_strlit("1/2-1/2");
    reveal_strlit("*");
    let t = result_token(m.result);
    assert(no_breaks(t));
    assert(t.len() > 0 && (t[0] == '1' || t[0] == '0' || t[0] == '*'));
    lemma_no_breaks_concat(moves_text(ms, ms.len() as int), t);
    assert(x.len() > 0 && (x[0] == '1' || x[0] == '0' || x[0] == '*'));
    let r = trim_end(x);
    lemma_trim_end_prefix(x);
    assert forall|i: int| 0 <= i < r.len() implies (#[trigger] r[i]) != '\n' by {
        assert(r[i] == x.take(r.len() as int)[i]);
    }
    lemma_trim_end_first(x);
    lemma_trim_end_twice(x);
    assert(trim_start(r) == r);
    assert(trim(r) == r);
    let single = seq![r];
    assert(single.drop_last() =~= Seq::<Seq<char>>::empty());
    assert(single.last() == r);
    assert(!is_tag_line(r));
    assert(header_scan(single.drop_last()).0 =~= Seq::<(Seq<char>, Seq<char>)>::empty());
}

/// The tags read from the PGN of a record are the tags it is written with,
/// values quoted, where names and values are plain and the moves' texts
/// hold no line break.
pub proof fn lemma_pgn_header_tags(m: BoardMetaData)
    requires
        plain_pairs(tag_pairs(m)),
        forall|k: int| 0 <= k < m.move_list@.len() ==> plain_move(#[trigger] m.move_list@[k]),
    ensures
        pgn_header(pgn_of(m)).0 == quoted(tag_pairs(m)),
{
    let ps = tag_pairs(m);
    let ts = tag_texts(ps);
    let r = moves_line(m);
    let e = Seq::<char>::empty();
    lemma_pgn_tags_lines(m);
    lemma_moves_line(m);
    let rest = seq![e, r];
    let all = ts + rest;
    lemma_lines_concat(ts, rest);
    assert(rest.drop_last() =~= seq![e]);
    assert(seq![e].drop_last() =~= Seq::<Seq<char>>::empty());
    assert(seq![e].last() == e);
    assert(lines_text(Seq::<Seq<char>>::empty()) =~= Seq::<char>::empty());
    assert(lines_text(seq![e]) == lines_text(seq![e].drop_last()) + seq![e].last() + seq!['\n']);
    assert(lines_text(seq![e]) =~= seq!['\n']);
    assert(lines_text(rest) =~= seq!['\n'] + r + seq!['\n']);
    assert(pgn_of(m) =~= lines_text(all));
    assert forall|k: int| 0 <= k < all.len() implies no_breaks(#[trigger] all[k]) by {
        if k < ts.len() {
            assert(all[k] == tag_text(ps[k].0, ps[k].1));
            assert(plain_name(ps[k].0) && plain_value(ps[k].1));
            let line = tag_text(ps[k].0, ps[k].1);
            assert forall|i: int| 0 <= i < line.len() implies (#[trigger] line[i]) != '\n' by {
                let n = ps[k].0;
                let v = ps[k].1;
                if i == 0 {
                } else if i < 1 + n.len() {
                    assert(line[i] == n[i - 1]);
                } else if i < 3 + n.len() {
                } else if i < 3 + n.len() + v.len() {
                    assert(line[i] == v[i - 3 - n.len()]);
                }
            }
        } else if k == ts.len() {
            assert(all[k] == e);
        } else {
            assert(all[k] == r);
        }
    }
    lemma_split_lines(all);
    let lines = all.push(e);
    assert(lines =~= ts + (rest + seq![e]));
    lemma_header_tags_concat(ts, rest + seq![e]);
    assert(rest + seq![e] =~= seq![e] + (seq![r] + seq![e]));
    lemma_header_tags_concat(seq![e], seq![r] + seq![e]);
    lemma_header_tags_concat(seq![r], seq![e]);
    assert(trim_start(e) =~= e);
    assert(trim_end(e) =~= e);
    assert(trim(e) =~= e);
    assert(!is_tag_line(trim(e)));
    assert(header_scan(Seq::<Seq<char>>::empty()) == (Seq::<(Seq<char>, Seq<char>)>::empty(), Seq::<char>::empty()));
    assert(header_scan(seq![e]) == header_scan(seq![e].drop_last()));
    assert(header_scan(seq![e]).0 =~= Seq::<(Seq<char>, Seq<char>)>::empty());
    lemma_tag_texts_read(ps);
    assert(header_scan(lines).0 =~= quoted(ps));
}


/// The tag names differ from one another.
pub proof fn lemma_tag_names_distinct()
    ensures
        "Event"@ != "Site"@,
        "Event"@ != "Date"@,
        "Event"@ != "Round"@,
        "Event"@ != "White"@,
        "Event"@ != "Black"@,
        "Event"@ != "WhiteElo"@,
        "Event"@ != "BlackElo"@,
        "Event"@ != "Result"@,
        "Event"@ != "TimeControl"@,
        "Event"@ != "Termination"@,
        "Event"@ != "ECO"@,
        "Event"@ != "Opening"@,
        "Event"@ != "EndTime"@,
        "Event"@ != "Link"@,
        "Site"@ != "Date"@,
        "Site"@ != "Round"@,
        "Site"@ != "White"@,
        "Site"@ != "Black"@,
        "Site"@ != "WhiteElo"@,
        "Site"@ != "BlackElo"@,
        "Site"@ != "Result"@,
        "Site"@ != "TimeControl"@,
        "Site"@ != "Termination"@,
        "Site"@ != "ECO"@,
        "Site"@ != "Opening"@,
        "Site"@ != "EndTime"@,
        "Site"@ != "Link"@,
        "Date"@ != "Round"@,
        "Date"@ != "White"@,
        "Date"@ != "Black"@,
        "Date"@ != "WhiteElo"@,
        "Date"@ != "BlackElo"@,
        "Date"@ != "Result"@,
        "Date"@ != "TimeControl"@,
        "Date"@ != "Termination"@,
        "Date"@ != "ECO"@,
        "Date"@ != "Opening"@,
        "Date"@ != "EndTime"@,
        "Date"@ != "Link"@,
        "Round"@ != "White"@,
        "Round"@ != "Black"@,
        "Round"@ != "WhiteElo"@,
        "Round"@ != "BlackElo"@,
        "Round"@ != "Result"@,
        "Round"@ != "TimeControl"@,
        "Round"@ != "Termination"@,
        "Round"@ != "ECO"@,
        "Round"@ != "Opening"@,
        "Round"@ != "EndTime"@,
        "Round"@ != "Link"@,
        "White"@ != "Black"@,
        "White"@ != "WhiteElo"@,
        "White"@ != "BlackElo"@,
        "White"@ != "Result"@,
        "White"@ != "TimeControl"@,
        "White"@ != "Termination"@,
        "White"@ != "ECO"@,
        "White"@ != "Opening"@,
        "White"@ != "EndTime"@,
        "White"@ != "Link"@,
        "Black"@ != "WhiteElo"@,
        "Black"@ != "BlackElo"@,
        "Black"@ != "Result"@,
        "Black"@ != "TimeControl"@,
        "Black"@ != "Termination"@,
        "Black"@ != "ECO"@,
        "Black"@ != "Opening"@,
        "Black"@ != "EndTime"@,
        "Black"@ != "Link"@,
        "WhiteElo"@ != "BlackElo"@,
        "WhiteElo"@ != "Result"@,
        "WhiteElo"@ != "TimeControl"@,
        "WhiteElo"@ != "Termination"@,
        "WhiteElo"@ != "ECO"@,
        "WhiteElo"@ != "Opening"@,
        "WhiteElo"@ != "EndTime"@,
        "WhiteElo"@ != "Link"@,
        "BlackElo"@ != "Result"@,
        "BlackElo"@ != "TimeControl"@,
        "BlackElo"@ != "Termination"@,
        "BlackElo"@ != "ECO"@,
        "BlackElo"@ != "Opening"@,
        "BlackElo"@ != "EndTime"@,
        "BlackElo"@ != "Link"@,
        "Result"@ != "TimeControl"@,
        "Result"@ != "Termination"@,
        "Result"@ != "ECO"@,
        "Result"@ != "Opening"@,
        "Result"@ != "EndTime"@,
        "Result"@ != "Link"@,
        "TimeControl"@ != "Termination"@,
        "TimeControl"@ != "ECO"@,
        "TimeControl"@ != "Opening"@,
        "TimeControl"@ != "EndTime"@,
        "TimeControl"@ != "Link"@,
        "Termination"@ != "ECO"@,
        "Termination"@ != "Opening"@,
        "Termination"@ != "EndTime"@,
        "Termination"@ != "Link"@,
        "ECO"@ != "Opening"@,
        "ECO"@ != "EndTime"@,
        "ECO"@ != "Link"@,
        "Opening"@ != "EndTime"@,
        "Opening"@ != "Link"@,
        "EndTime"@ != "Link"@,
{
    reveal_strlit("Event");
    reveal_strlit("Site");
    reveal_strlit("Date");
    reveal_strlit("Round");
    reveal_strlit("White");
    reveal_strlit("Black");
    reveal_strlit("WhiteElo");
    reveal_strlit("BlackElo");
    reveal_strlit("Result");
    reveal_strlit("TimeControl");
    reveal_strlit("Termination");
    reveal_strlit("ECO");
    reveal_strlit("Opening");
    reveal_strlit("EndTime");
    reveal_strlit("Link");
    assert("Event"@.len() != "Site"@.len());
    assert("Event"@.len() != "Date"@.len());
    assert("Event"@[0] != "Round"@[0]);
    assert("Event"@[0] != "White"@[0]);
    assert("Event"@[0] != "Black"@[0]);
    assert("Event"@.len() != "WhiteElo"@.len());
    assert("Event"@.len() != "BlackElo"@.len());
    assert("Event"@.len() != "Result"@.len());
    assert("Event"@.len() != "TimeControl"@.len());
    assert("Event"@.len() != "Termination"@.len());
    assert("Event"@.len() != "ECO"@.len());
    assert("Event"@.len() != "Opening"@.len());
    assert("Event"@.len() != "EndTime"@.len());
    assert("Event"@.len() != "Link"@.len());
    assert("Site"@[0] != "Date"@[0]);
    assert("Site"@.len() != "Round"@.len());
    assert("Site"@.len() != "White"@.len());
    assert("Site"@.len() != "Black"@.len());
    assert("Site"@.len() != "WhiteElo"@.len());
    assert("Site"@.len() != "BlackElo"@.len());
    assert("Site"@.len() != "Result"@.len());
    assert("Site"@.len() != "TimeControl"@.len());
    assert("Site"@.len() != "Termination"@.len());
    assert("Site"@.len() != "ECO"@.len());
    assert("Site"@.len() != "Opening"@.len());
    assert("Site"@.len() != "EndTime"@.len());
    assert("Site"@[0] != "Link"@[0]);
    assert("Date"@.len() != "Round"@.len());
    assert("Date"@.len() != "White"@.len());
    assert("Date"@.len() != "Black"@.len());
    assert("Date"@.len() != "WhiteElo"@.len());
    assert("Date"@.len() != "BlackElo"@.len());
    assert("Date"@.len() != "Result"@.len());
    assert("Date"@.len() != "TimeControl"@.len());
    assert("Date"@.len() != "Termination"@.len());
    assert("Date"@.len() != "ECO"@.len());
    assert("Date"@.len() != "Opening"@.len());
    assert("Date"@.len() != "EndTime"@.len());
    assert("Date"@[0] != "Link"@[0]);
    assert("Round"@[0] != "White"@[0]);
    assert("Round"@[0] != "Black"@[0]);
    assert("Round"@.len() != "WhiteElo"@.len());
    assert("Round"@.len() != "BlackElo"@.len());
    assert("Round"@.len() != "Result"@.len());
    assert("Round"@.len() != "TimeControl"@.len());
    assert("Round"@.len() != "Termination"@.len());
    assert("Round"@.len() != "ECO"@.len());
    assert("Round"@.len() != "Opening"@.len());
    assert("Round"@.len() != "EndTime"@.len());
    assert("Round"@.len() != "Link"@.len());
    assert("White"@[0] != "Black"@[0]);
    assert("White"@.len() != "WhiteElo"@.len());
    assert("White"@.len() != "BlackElo"@.len());
    assert("White"@.len() != "Result"@.len());
    assert("White"@.len() != "TimeControl"@.len());
    assert("White"@.len() != "Termination"@.len());
    assert("White"@.len() != "ECO"@.len());
    assert("White"@.len() != "Opening"@.len());
    assert("White"@.len() != "EndTime"@.len());
    assert("White"@.len() != "Link"@.len());
    assert("Black"@.len() != "WhiteElo"@.len());
    assert("Black"@.len() != "BlackElo"@.len());
    assert("Black"@.len() != "Result"@.len());
    assert("Black"@.len() != "TimeControl"@.len());
    assert("Black"@.len() != "Termination"@.len());
    assert("Black"@.len() != "ECO"@.len());
    assert("Black"@.len() != "Opening"@.len());
    assert("Black"@.len() != "EndTime"@.len());
    assert("Black"@.len() != "Link"@.len());
    assert("WhiteElo"@[0] != "BlackElo"@[0]);
    assert("WhiteElo"@.len() != "Result"@.len());
    assert("WhiteElo"@.len() != "TimeControl"@.len());
    assert("WhiteElo"@.len() != "Termination"@.len());
    assert("WhiteElo"@.len() != "ECO"@.len());
    assert("WhiteElo"@.len() != "Opening"@.len());
    assert("WhiteElo"@.len() != "EndTime"@.len());
    assert("WhiteElo"@.len() != "Link"@.len());
    assert("BlackElo"@.len() != "Result"@.len());
    assert("BlackElo"@.len() != "TimeControl"@.len());
    assert("BlackElo"@.len() != "Termination"@.len());
    assert("BlackElo"@.len() != "ECO"@.len());
    assert("BlackElo"@.len() != "Opening"@.len());
    assert("BlackElo"@.len() != "EndTime"@.len());
    assert("BlackElo"@.len() != "Link"@.len());
    assert("Result"@.len() != "TimeControl"@.len());
    assert("Result"@.len() != "Termination"@.len());
    assert("Result"@.len() != "ECO"@.len());
    assert("Result"@.len() != "Opening"@.len());
    assert("Result"@.len() != "EndTime"@.len());
    assert("Result"@.len() != "Link"@.len());
    assert("TimeControl"@[1] != "Termination"@[1]);
    assert("TimeControl"@.len() != "ECO"@.len());
    assert("TimeControl"@.len() != "Opening"@.len());
    assert("TimeControl"@.len() != "EndTime"@.len());
    assert("TimeControl"@.len() != "Link"@.len());
    assert("Termination"@.len() != "ECO"@.len());
    assert("Termination"@.len() != "Opening"@.len());
    assert("Termination"@.len() != "EndTime"@.len());
    assert("Termination"@.len() != "Link"@.len());
    assert("ECO"@.len() != "Opening"@.len());
    assert("ECO"@.len() != "EndTime"@.len());
    assert("ECO"@.len() != "Link"@.len());
    assert("Opening"@[0] != "EndTime"@[0]);
    assert("Opening"@.len() != "Link"@.len());
    assert("EndTime"@.len() != "Link"@.len());
}

/// The value of the last tag named `name`.
pub open spec fn last_tag(ps: Seq<(Seq<char>, Seq<char>)>, name: Seq<char>) -> Option<Seq<char>>
    decreases ps.len(),
{
    if ps.len() == 0 {
        None
    } else if ps.last().0 == name {
        Some(ps.last().1)
    } else {
        last_tag(ps.drop_last(), name)
    }
}

/// A text field after the tags: the last value, unquoted, or as it was.
pub open spec fn text_after(before: Option<String>, after: Option<String>, v: Option<Seq<char>>) -> bool {
    match v {
        Some(t) => holds_text(after, trim_char(t, '"')),
        None => after == before,
    }
}

/// A rating after the tags: the last value's number (1 when it is none), or
/// as it was.
pub open spec fn elo_after(before: u32, after: u32, v: Option<Seq<char>>) -> bool {
    match v {
        Some(t) => after == match parse_u32_spec(trim_char(t, '"')) {
            Some(n) => n,
            None => 1u32,
        },
        None => after == before,
    }
}

/// The record after tags set one by one (`tag_set`) holds, for each field,
/// what the last tag of its name gives.
pub proof fn lemma_tags_fields(ms: Seq<BoardMetaData>, ps: Seq<(Seq<char>, Seq<char>)>)
    requires
        ms.len() == ps.len() + 1,
        forall|i: int| 0 <= i < ps.len() ==> tag_set(#[trigger] ms[i], ms[i + 1], ps[i].0, ps[i].1),
    ensures
        ({
            let m0 = ms[0];
            let m = ms.last();
            &&& text_after(m0.event, m.event, last_tag(ps, "Event"@))
            &&& text_after(m0.site, m.site, last_tag(ps, "Site"@))
            &&& match last_tag(ps, "Date"@) {
                Some(t) => m.date@ == trim_char(t, '"'),
                None => m.date == m0.date,
            }
            &&& text_after(m0.round, m.round, last_tag(ps, "Round"@))
            &&& match last_tag(ps, "White"@) {
                Some(t) => m.white_player_name@ == trim_char(t, '"'),
                None => m.white_player_name == m0.white_player_name,
            }
            &&& match last_tag(ps, "Black"@) {
                Some(t) => m.black_player_name@ == trim_char(t, '"'),
                None => m.black_player_name == m0.black_player_name,
            }
            &&& elo_after(m0.white_player_elo, m.white_player_elo, last_tag(ps, "WhiteElo"@))
            &&& elo_after(m0.black_player_elo, m.black_player_elo, last_tag(ps, "BlackElo"@))
            &&& match last_tag(ps, "Result"@) {
                Some(t) => m.result == result_of(trim_char(t, '"')),
                None => m.result == m0.result,
            }
            &&& text_after(m0.time_control, m.time_control, last_tag(ps, "TimeControl"@))
            &&& match last_tag(ps, "Termination"@) {
                Some(t) => m.termination == termination_of(trim_char(t, '"')),
                None => m.termination == m0.termination,
            }
            &&& text_after(m0.eco, m.eco, last_tag(ps, "ECO"@))
            &&& text_after(m0.opening, m.opening, last_tag(ps, "Opening"@))
            &&& text_after(m0.end_time, m.end_time, last_tag(ps, "EndTime"@))
            &&& text_after(m0.link, m.link, last_tag(ps, "Link"@))
            &&& m.move_list == m0.move_list
            &&& m.starting_position == m0.starting_position
        }),
    decreases ps.len(),
{
    lemma_tag_names_distinct();
    if ps.len() > 0 {
        let ms1 = ms.drop_last();
        let ps1 = ps.drop_last();
        assert forall|i: int| 0 <= i < ps1.len() implies tag_set(#[trigger] ms1[i], ms1[i + 1], ps1[i].0, ps1[i].1) by {
            assert(ms1[i] == ms[i] && ms1[i + 1] == ms[i + 1] && ps1[i] == ps[i]);
        }
        lemma_tags_fields(ms1, ps1);
        let k = ps.len() - 1;
        assert(tag_set(ms[k], ms[k + 1], ps[k].0, ps[k].1));
        assert(ms1.last() == ms[k]);
        assert(ms.last() == ms[k + 1]);
        assert(ms1[0] == ms[0]);
        assert(ps.last() == ps[k]);
    }
}


/// The last tag of a name among two runs of tags: from the second run if it
/// has one, else from the first.
pub proof fn lemma_last_tag_concat(a: Seq<(Seq<char>, Seq<char>)>, b: Seq<(Seq<char>, Seq<char>)>, name: Seq<char>)
    ensures
        last_tag(a + b, name) == match last_tag(b, name) {
            Some(v) => Some(v),
            None => last_tag(a, name),
        },
    decreases b.len(),
{
    if b.len() == 0 {
        assert(a + b == a);
    } else {
        lemma_last_tag_concat(a, b.drop_last(), name);
        assert((a + b).drop_last() == a + b.drop_last());
        assert((a + b).last() == b.last());
    }
}

/// A plain value has no quotes to lose.
pub proof fn lemma_plain_unquoted(v: Seq<char>)
    requires
        plain_value(v),
    ensures
        trim_char(v, '"') == v,
{
}

/// The last tag of a name among optional tags of another name is none.
pub proof fn lemma_last_tag_opt(n: Seq<char>, o: Option<String>, name: Seq<char>)
    requires
        n != name,
    ensures
        last_tag(opt_pair(n, o), name) is None,
{
    match o {
        Some(t) => {
            let ps = opt_pair(n, o);
            assert(ps.len() == 1);
            assert(ps.last().0 == n);
            assert(ps.drop_last() =~= Seq::<(Seq<char>, Seq<char>)>::empty());
            assert(last_tag(ps.drop_last(), name) is None);
        },
        None => {
            assert(opt_pair(n, o).len() == 0);
        },
    }
}

/// The last tag of a name among optional tags of that name is the field's
/// text, if present.
pub proof fn lemma_last_tag_opt_same(n: Seq<char>, o: Option<String>)
    ensures
        last_tag(opt_pair(n, o), n) == match o {
            Some(t) => Some(t@),
            None => None::<Seq<char>>,
        },
{
    match o {
        Some(t) => {
            let ps = opt_pair(n, o);
            assert(ps.len() == 1);
            assert(ps.last() == (n, t@));
        },
        None => {
            assert(opt_pair(n, o).len() == 0);
        },
    }
}


/// The last tag of each name among the tags a record is written with.
pub proof fn lemma_tag_pairs_last(m: BoardMetaData)
    ensures
        last_tag(tag_pairs(m), "Event"@) == Some(or_unknown(m.event)),
        last_tag(tag_pairs(m), "Site"@) == Some(or_unknown(m.site)),
        last_tag(tag_pairs(m), "Date"@) == Some(m.date@),
        last_tag(tag_pairs(m), "Round"@) == Some(or_unknown(m.round)),
        last_tag(tag_pairs(m), "White"@) == Some(m.white_player_name@),
        last_tag(tag_pairs(m), "Black"@) == Some(m.black_player_name@),
        last_tag(tag_pairs(m), "WhiteElo"@) == Some(decimal(m.white_player_elo as nat)),
        last_tag(tag_pairs(m), "BlackElo"@) == Some(decimal(m.black_player_elo as nat)),
        last_tag(tag_pairs(m), "Result"@) == Some(result_token(m.result)),
        last_tag(tag_pairs(m), "TimeControl"@) == match m.time_control {
            Some(t) => Some(t@),
            None => None::<Seq<char>>,
        },
        last_tag(tag_pairs(m), "ECO"@) == match m.eco {
            Some(t) => Some(t@),
            None => None::<Seq<char>>,
        },
        last_tag(tag_pairs(m), "Opening"@) == match m.opening {
            Some(t) => Some(t@),
            None => None::<Seq<char>>,
        },
        last_tag(tag_pairs(m), "EndTime"@) == match m.end_time {
            Some(t) => Some(t@),
            None => None::<Seq<char>>,
        },
        last_tag(tag_pairs(m), "Link"@) == match m.link {
            Some(t) => Some(t@),
            None => None::<Seq<char>>,
        },
        last_tag(tag_pairs(m), "Termination"@) == Some(termination_word(m.termination)),
{
    lemma_tag_names_distinct();
    let f = seq![
        ("Event"@, or_unknown(m.event)),
        ("Site"@, or_unknown(m.site)),
        ("Date"@, m.date@),
        ("Round"@, or_unknown(m.round)),
        ("White"@, m.white_player_name@),
        ("Black"@, m.black_player_name@),
        ("WhiteElo"@, decimal(m.white_player_elo as nat)),
        ("BlackElo"@, decimal(m.black_player_elo as nat)),
        ("Result"@, result_token(m.result)),
    ];
    let o1 = opt_pair("TimeControl"@, m.time_control);
    let o2 = opt_pair("ECO"@, m.eco);
    let o3 = opt_pair("Opening"@, m.opening);
    let o4 = opt_pair("EndTime"@, m.end_time);
    let o5 = opt_pair("Link"@, m.link);
    let t = seq![("Termination"@, termination_word(m.termination))];
    let a1 = f + o1;
    let a2 = a1 + o2;
    let a3 = a2 + o3;
    let a4 = a3 + o4;
    let a5 = a4 + o5;
    let all = a5 + t;
    assert(all =~= tag_pairs(m));
    lemma_last_tag_concat(a5, t, "Event"@);
    lemma_last_tag_concat(a4, o5, "Event"@);
    lemma_last_tag_concat(a3, o4, "Event"@);
    lemma_last_tag_concat(a2, o3, "Event"@);
    lemma_last_tag_concat(a1, o2, "Event"@);
    lemma_last_tag_concat(f, o1, "Event"@);
    lemma_last_tag_opt("TimeControl"@, m.time_control, "Event"@);
    lemma_last_tag_opt("ECO"@, m.eco, "Event"@);
    lemma_last_tag_opt("Opening"@, m.opening, "Event"@);
    lemma_last_tag_opt("EndTime"@, m.end_time, "Event"@);
    lemma_last_tag_opt("Link"@, m.link, "Event"@);
    lemma_last_tag_concat(a5, t, "Site"@);
    lemma_last_tag_concat(a4, o5, "Site"@);
    lemma_last_tag_concat(a3, o4, "Site"@);
    lemma_last_tag_concat(a2, o3, "Site"@);
    lemma_last_tag_concat(a1, o2, "Site"@);
    lemma_last_tag_concat(f, o1, "Site"@);
    lemma_last_tag_opt("TimeControl"@, m.time_control, "Site"@);
    lemma_last_tag_opt("ECO"@, m.eco, "Site"@);
    lemma_last_tag_opt("Opening"@, m.opening, "Site"@);
    lemma_last_tag_opt("EndTime"@, m.end_time, "Site"@);
    lemma_last_tag_opt("Link"@, m.link, "Site"@);
    lemma_last_tag_concat(a5, t, "Date"@);
    lemma_last_tag_concat(a4, o5, "Date"@);
    lemma_last_tag_concat(a3, o4, "Date"@);
    lemma_last_tag_concat(a2, o3, "Date"@);
    lemma_last_tag_concat(a1, o2, "Date"@);
    lemma_last_tag_concat(f, o1, "Date"@);
    lemma_last_tag_opt("TimeControl"@, m.time_control, "Date"@);
    lemma_last_tag_opt("ECO"@, m.eco, "Date"@);
    lemma_last_tag_opt("Opening"@, m.opening, "Date"@);
    lemma_last_tag_opt("EndTime"@, m.end_time, "Date"@);
    lemma_last_tag_opt("Link"@, m.link, "Date"@);
    lemma_last_tag_concat(a5, t, "Round"@);
    lemma_last_tag_concat(a4, o5, "Round"@);
    lemma_last_tag_concat(a3, o4, "Round"@);
    lemma_last_tag_concat(a2, o3, "Round"@);
    lemma_last_tag_concat(a1, o2, "Round"@);
    lemma_last_tag_concat(f, o1, "Round"@);
    lemma_last_tag_opt("TimeControl"@, m.time_control, "Round"@);
    lemma_last_tag_opt("ECO"@, m.eco, "Round"@);
    lemma_last_tag_opt("Opening"@, m.opening, "Round"@);
    lemma_last_tag_opt("EndTime"@, m.end_time, "Round"@);
    lemma_last_tag_opt("Link"@, m.link, "Round"@);
    lemma_last_tag_concat(a5, t, "White"@);
    lemma_last_tag_concat(a4, o5, "White"@);
    lemma_last_tag_concat(a3, o4, "White"@);
    lemma_last_tag_concat(a2, o3, "White"@);
    lemma_last_tag_concat(a1, o2, "White"@);
    lemma_last_tag_concat(f, o1, "White"@);
    lemma_last_tag_opt("TimeControl"@, m.time_control, "White"@);
    lemma_last_tag_opt("ECO"@, m.eco, "White"@);
    lemma_last_tag_opt("Opening"@, m.opening, "White"@);
    lemma_last_tag_opt("EndTime"@, m.end_time, "White"@);
    lemma_last_tag_opt("Link"@, m.link, "White"@);
    lemma_last_tag_concat(a5, t, "Black"@);
    lemma_last_tag_concat(a4, o5, "Black"@);
    lemma_last_tag_concat(a3, o4, "Black"@);
    lemma_last_tag_concat(a2, o3, "Black"@);
    lemma_last_tag_concat(a1, o2, "Black"@);
    lemma_last_tag_concat(f, o1, "Black"@);
    lemma_last_tag_opt("TimeControl"@, m.time_control, "Black"@);
    lemma_last_tag_opt("ECO"@, m.eco, "Black"@);
    lemma_last_tag_opt("Opening"@, m.opening, "Black"@);
    lemma_last_tag_opt("EndTime"@, m.end_time, "Black"@);
    lemma_last_tag_opt("Link"@, m.link, "Black"@);
    lemma_last_tag_concat(a5, t, "WhiteElo"@);
    lemma_last_tag_concat(a4, o5, "WhiteElo"@);
    lemma_last_tag_concat(a3, o4, "WhiteElo"@);
    lemma_last_tag_concat(a2, o3, "WhiteElo"@);
    lemma_last_tag_concat(a1, o2, "WhiteElo"@);
    lemma_last_tag_concat(f, o1, "WhiteElo"@);
    lemma_last_tag_opt("TimeControl"@, m.time_control, "WhiteElo"@);
    lemma_last_tag_opt("ECO"@, m.eco, "WhiteElo"@);
    lemma_last_tag_opt("Opening"@, m.opening, "WhiteElo"@);
    lemma_last_tag_opt("EndTime"@, m.end_time, "WhiteElo"@);
    lemma_last_tag_opt("Link"@, m.link, "WhiteElo"@);
    lemma_last_tag_concat(a5, t, "BlackElo"@);
    lemma_last_tag_concat(a4, o5, "BlackElo"@);
    lemma_last_tag_concat(a3, o4, "BlackElo"@);
    lemma_last_tag_concat(a2, o3, "BlackElo"@);
    lemma_last_tag_concat(a1, o2, "BlackElo"@);
    lemma_last_tag_concat(f, o1, "BlackElo"@);
    lemma_last_tag_opt("TimeControl"@, m.time_control, "BlackElo"@);
    lemma_last_tag_opt("ECO"@, m.eco, "BlackElo"@);
    lemma_last_tag_opt("Opening"@, m.opening, "BlackElo"@);
    lemma_last_tag_opt("EndTime"@, m.end_time, "BlackElo"@);
    lemma_last_tag_opt("Link"@, m.link, "BlackElo"@);
    lemma_last_tag_concat(a5, t, "Result"@);
    lemma_last_tag_concat(a4, o5, "Result"@);
    lemma_last_tag_concat(a3, o4, "Result"@);
    lemma_last_tag_concat(a2, o3, "Result"@);
    lemma_last_tag_concat(a1, o2, "Result"@);
    lemma_last_tag_concat(f, o1, "Result"@);
    lemma_last_tag_opt("TimeControl"@, m.time_control, "Result"@);
    lemma_last_tag_opt("ECO"@, m.eco, "Result"@);
    lemma_last_tag_opt("Opening"@, m.opening, "Result"@);
    lemma_last_tag_opt("EndTime"@, m.end_time, "Result"@);
    lemma_last_tag_opt("Link"@, m.link, "Result"@);
    lemma_last_tag_concat(a5, t, "TimeControl"@);
    lemma_last_tag_concat(a4, o5, "TimeControl"@);
    lemma_last_tag_concat(a3, o4, "TimeControl"@);
    lemma_last_tag_concat(a2, o3, "TimeControl"@);
    lemma_last_tag_concat(a1, o2, "TimeControl"@);
    lemma_last_tag_concat(f, o1, "TimeControl"@);
    lemma_last_tag_opt_same("TimeControl"@, m.time_control);
    lemma_last_tag_opt("ECO"@, m.eco, "TimeControl"@);
    lemma_last_tag_opt("Opening"@, m.opening, "TimeControl"@);
    lemma_last_tag_opt("EndTime"@, m.end_time, "TimeControl"@);
    lemma_last_tag_opt("Link"@, m.link, "TimeControl"@);
    lemma_last_tag_concat(a5, t, "ECO"@);
    lemma_last_tag_concat(a4, o5, "ECO"@);
    lemma_last_tag_concat(a3, o4, "ECO"@);
    lemma_last_tag_concat(a2, o3, "ECO"@);
    lemma_last_tag_concat(a1, o2, "ECO"@);
    lemma_last_tag_concat(f, o1, "ECO"@);
    lemma_last_tag_opt("TimeControl"@, m.time_control, "ECO"@);
    lemma_last_tag_opt_same("ECO"@, m.eco);
    lemma_last_tag_opt("Opening"@, m.opening, "ECO"@);
    lemma_last_tag_opt("EndTime"@, m.end_time, "ECO"@);
    lemma_last_tag_opt("Link"@, m.link, "ECO"@);
    lemma_last_tag_concat(a5, t, "Opening"@);
    lemma_last_tag_concat(a4, o5, "Opening"@);
    lemma_last_tag_concat(a3, o4, "Opening"@);
    lemma_last_tag_concat(a2, o3, "Opening"@);
    lemma_last_tag_concat(a1, o2, "Opening"@);
    lemma_last_tag_concat(f, o1, "Opening"@);
    lemma_last_tag_opt("TimeControl"@, m.time_control, "Opening"@);
    lemma_last_tag_opt("ECO"@, m.eco, "Opening"@);
    lemma_last_tag_opt_same("Opening"@, m.opening);
    lemma_last_tag_opt("EndTime"@, m.end_time, "Opening"@);
    lemma_last_tag_opt("Link"@, m.link, "Opening"@);
    lemma_last_tag_concat(a5, t, "EndTime"@);
    lemma_last_tag_concat(a4, o5, "EndTime"@);
    lemma_last_tag_concat(a3, o4, "EndTime"@);
    lemma_last_tag_concat(a2, o3, "EndTime"@);
    lemma_last_tag_concat(a1, o2, "EndTime"@);
    lemma_last_tag_concat(f, o1, "EndTime"@);
    lemma_last_tag_opt("TimeControl"@, m.time_control, "EndTime"@);
    lemma_last_tag_opt("ECO"@, m.eco, "EndTime"@);
    lemma_last_tag_opt("Opening"@, m.opening, "EndTime"@);
    lemma_last_tag_opt_same("EndTime"@, m.end_time);
    lemma_last_tag_opt("Link"@, m.link, "EndTime"@);
    lemma_last_tag_concat(a5, t, "Link"@);
    lemma_last_tag_concat(a4, o5, "Link"@);
    lemma_last_tag_concat(a3, o4, "Link"@);
    lemma_last_tag_concat(a2, o3, "Link"@);
    lemma_last_tag_concat(a1, o2, "Link"@);
    lemma_last_tag_concat(f, o1, "Link"@);
    lemma_last_tag_opt("TimeControl"@, m.time_control, "Link"@);
    lemma_last_tag_opt("ECO"@, m.eco, "Link"@);
    lemma_last_tag_opt("Opening"@, m.opening, "Link"@);
    lemma_last_tag_opt("EndTime"@, m.end_time, "Link"@);
    lemma_last_tag_opt_same("Link"@, m.link);
    lemma_last_tag_concat(a5, t, "Termination"@);
    lemma_last_tag_concat(a4, o5, "Termination"@);
    lemma_last_tag_concat(a3, o4, "Termination"@);
    lemma_last_tag_concat(a2, o3, "Termination"@);
    lemma_last_tag_concat(a1, o2, "Termination"@);
    lemma_last_tag_concat(f, o1, "Termination"@);
    lemma_last_tag_opt("TimeControl"@, m.time_control, "Termination"@);
    lemma_last_tag_opt("ECO"@, m.eco, "Termination"@);
    lemma_last_tag_opt("Opening"@, m.opening, "Termination"@);
    lemma_last_tag_opt("EndTime"@, m.end_time, "Termination"@);
    lemma_last_tag_opt("Link"@, m.link, "Termination"@);
    assert(t.len() == 1 && t.last().0 == "Termination"@);
    assert(t.drop_last() =~= Seq::<(Seq<char>, Seq<char>)>::empty());
    reveal_with_fuel(last_tag, 10);
    assert(last_tag(t, "Event"@) is None);
    assert(last_tag(t, "Site"@) is None);
    assert(last_tag(t, "Date"@) is None);
    assert(last_tag(t, "Round"@) is None);
    assert(last_tag(t, "White"@) is None);
    assert(last_tag(t, "Black"@) is None);
    assert(last_tag(t, "WhiteElo"@) is None);
    assert(last_tag(t, "BlackElo"@) is None);
    assert(last_tag(t, "Result"@) is None);
    assert(last_tag(t, "TimeControl"@) is None);
    assert(last_tag(t, "ECO"@) is None);
    assert(last_tag(t, "Opening"@) is None);
    assert(last_tag(t, "EndTime"@) is None);
    assert(last_tag(t, "Link"@) is None);
    assert(last_tag(f, "TimeControl"@) is None);
    assert(last_tag(f, "ECO"@) is None);
    assert(last_tag(f, "Opening"@) is None);
    assert(last_tag(f, "EndTime"@) is None);
    assert(last_tag(f, "Link"@) is None);
    assert(last_tag(f, "Termination"@) is None);
}


/// A record's tag texts are plain: its event, site, round, date, player
/// names and optional tags hold no line break and do not begin or end with
/// a quote.
pub open spec fn plain_tags(m: BoardMetaData) -> bool {
    &&& plain_value(or_unknown(m.event))
    &&& plain_value(or_unknown(m.site))
    &&& plain_value(m.date@)
    &&& plain_value(or_unknown(m.round))
    &&& plain_value(m.white_player_name@)
    &&& plain_value(m.black_player_name@)
    &&& m.time_control matches Some(t) ==> plain_value(t@)
    &&& m.eco matches Some(t) ==> plain_value(t@)
    &&& m.opening matches Some(t) ==> plain_value(t@)
    &&& m.end_time matches Some(t) ==> plain_value(t@)
    &&& m.link matches Some(t) ==> plain_value(t@)
}

/// The tags of a record with plain tag texts are plain.
pub proof fn lemma_plain_tag_pairs(m: BoardMetaData)
    requires
        plain_tags(m),
    ensures
        plain_pairs(tag_pairs(m)),
{
    reveal_strlit("Event");
    reveal_strlit("Site");
    reveal_strlit("Date");
    reveal_strlit("Round");
    reveal_strlit("White");
    reveal_strlit("Black");
    reveal_strlit("WhiteElo");
    reveal_strlit("BlackElo");
    reveal_strlit("Result");
    reveal_strlit("TimeControl");
    reveal_strlit("ECO");
    reveal_strlit("Opening");
    reveal_strlit("EndTime");
    reveal_strlit("Link");
    reveal_strlit("Termination");
    assert(plain_name("Event"@));
    assert(plain_name("Site"@));
    assert(plain_name("Date"@));
    assert(plain_name("Round"@));
    assert(plain_name("White"@));
    assert(plain_name("Black"@));
    assert(plain_name("WhiteElo"@));
    assert(plain_name("BlackElo"@));
    assert(plain_name("Result"@));
    assert(plain_name("TimeControl"@));
    assert(plain_name("ECO"@));
    assert(plain_name("Opening"@));
    assert(plain_name("EndTime"@));
    assert(plain_name("Link"@));
    assert(plain_name("Termination"@));
    reveal_strlit("1-0");
    reveal_strlit("0-1");
    reveal_strlit("1/2-1/2");
    reveal_strlit("*");
    reveal_strlit("checkmate");
    reveal_strlit("stalemate");
    reveal_strlit("resignation");
    reveal_strlit("timeout");
    reveal_strlit("draw");
    lemma_decimal_digits(m.white_player_elo as nat);
    lemma_decimal_digits(m.black_player_elo as nat);
    assert(plain_value(decimal(m.white_player_elo as nat))) by {
        let d = decimal(m.white_player_elo as nat);
        assert(is_digit(d[0]) && is_digit(d.last()));
        assert forall|i: int| 0 <= i < d.len() implies (#[trigger] d[i]) != '\n' by {
            assert(is_digit(d[i]));
        }
    }
    assert(plain_value(decimal(m.black_player_elo as nat))) by {
        let d = decimal(m.black_player_elo as nat);
        assert(is_digit(d[0]) && is_digit(d.last()));
        assert forall|i: int| 0 <= i < d.len() implies (#[trigger] d[i]) != '\n' by {
            assert(is_digit(d[i]));
        }
    }
    assert(plain_value(result_token(m.result)));
    assert(plain_value(termination_word(m.termination)));
    let ps = tag_pairs(m);
    let f = seq![
        ("Event"@, or_unknown(m.event)),
        ("Site"@, or_unknown(m.site)),
        ("Date"@, m.date@),
        ("Round"@, or_unknown(m.round)),
        ("White"@, m.white_player_name@),
        ("Black"@, m.black_player_name@),
        ("WhiteElo"@, decimal(m.white_player_elo as nat)),
        ("BlackElo"@, decimal(m.black_player_elo as nat)),
        ("Result"@, result_token(m.result)),
    ];
    assert(plain_pairs(f));
    let o1 = opt_pair("TimeControl"@, m.time_control);
    let o2 = opt_pair("ECO"@, m.eco);
    let o3 = opt_pair("Opening"@, m.opening);
    let o4 = opt_pair("EndTime"@, m.end_time);
    let o5 = opt_pair("Link"@, m.link);
    let t = seq![("Termination"@, termination_word(m.termination))];
    assert(plain_pairs(o1) && plain_pairs(o2) && plain_pairs(o3) && plain_pairs(o4) && plain_pairs(o5));
    assert(plain_pairs(t));
    lemma_plain_pairs_concat(f, o1);
    lemma_plain_pairs_concat(f + o1, o2);
    lemma_plain_pairs_concat(f + o1 + o2, o3);
    lemma_plain_pairs_concat(f + o1 + o2 + o3, o4);
    lemma_plain_pairs_concat(f + o1 + o2 + o3 + o4, o5);
    lemma_plain_pairs_concat(f + o1 + o2 + o3 + o4 + o5, t);
}

/// Two runs of plain tags make a run of plain tags.
pub proof fn lemma_plain_pairs_concat(a: Seq<(Seq<char>, Seq<char>)>, b: Seq<(Seq<char>, Seq<char>)>)
    requires
        plain_pairs(a),
        plain_pairs(b),
    ensures
        plain_pairs(a + b),
{
    assert forall|k: int| 0 <= k < (a + b).len() implies plain_name((#[trigger] (a + b)[k]).0) && plain_value((a + b)[k].1) by {
        if k < a.len() {
            assert((a + b)[k] == a[k]);
        } else {
            assert((a + b)[k] == b[k - a.len()]);
        }
    }
}

/// What a record's PGN writes in its tags reads back: reading the tags of
/// `pgn_of(m)` onto a record `m0` (as the PGN reader does before the moves)
/// gives the event, site and round of `m` (`?` where absent), its date,
/// players, ratings and result, the optional tags it has (the others stay
/// as in `m0`), and the termination its word reads as; the moves and start
/// position stay as in `m0`. This holds where the tag values hold no line
/// break and do not begin or end with a quote, and the moves' texts hold no
/// line break.
pub proof fn lemma_pgn_tags_read_back(m: BoardMetaData, m0: BoardMetaData, mt: BoardMetaData)
    requires
        plain_tags(m),
        forall|k: int| 0 <= k < m.move_list@.len() ==> plain_move(#[trigger] m.move_list@[k]),
        tags_applied(m0, mt, pgn_header(pgn_of(m)).0),
    ensures
        holds_text(mt.event, or_unknown(m.event)),
        holds_text(mt.site, or_unknown(m.site)),
        mt.date@ == m.date@,
        holds_text(mt.round, or_unknown(m.round)),
        mt.white_player_name@ == m.white_player_name@,
        mt.black_player_name@ == m.black_player_name@,
        mt.white_player_elo == m.white_player_elo,
        mt.black_player_elo == m.black_player_elo,
        mt.result == m.result,
        text_after(m0.time_control, mt.time_control, match m.time_control { Some(t) => Some(t@), None => None }),
        text_after(m0.eco, mt.eco, match m.eco { Some(t) => Some(t@), None => None }),
        text_after(m0.opening, mt.opening, match m.opening { Some(t) => Some(t@), None => None }),
        text_after(m0.end_time, mt.end_time, match m.end_time { Some(t) => Some(t@), None => None }),
        text_after(m0.link, mt.link, match m.link { Some(t) => Some(t@), None => None }),
        mt.termination == termination_of(termination_word(m.termination)),
        mt.move_list == m0.move_list,
        mt.starting_position == m0.starting_position,
{
    let ps = tag_pairs(m);
    lemma_plain_tag_pairs(m);
    lemma_pgn_header_tags(m);
    let tags = quoted(ps);
    let ms = choose|ms: Seq<BoardMetaData>| #[trigger] tag_chain(ms, m0, mt, tags);
    assert(tag_chain(ms, m0, mt, tags));
    assert forall|i: int| 0 <= i < ps.len() implies tag_set(#[trigger] ms[i], ms[i + 1], ps[i].0, ps[i].1) by {
        assert(tags[i] == (ps[i].0, seq!['"'] + ps[i].1 + seq!['"']));
        assert(plain_value(ps[i].1));
        lemma_unquote(ps[i].1);
    }
    lemma_tags_fields(ms, ps);
    lemma_tag_pairs_last(m);
    assert forall|k: int| 0 <= k < ps.len() implies trim_char((#[trigger] ps[k]).1, '"') == ps[k].1 by {
        lemma_plain_unquoted(ps[k].1);
    }
    assert(ps[0] == ("Event"@, or_unknown(m.event)));
    lemma_plain_unquoted(or_unknown(m.event));
    assert(ps[1] == ("Site"@, or_unknown(m.site)));
    lemma_plain_unquoted(or_unknown(m.site));
    assert(ps[2] == ("Date"@, m.date@));
    lemma_plain_unquoted(m.date@);
    assert(ps[3] == ("Round"@, or_unknown(m.round)));
    lemma_plain_unquoted(or_unknown(m.round));
    assert(ps[4] == ("White"@, m.white_player_name@));
    lemma_plain_unquoted(m.white_player_name@);
    assert(ps[5] == ("Black"@, m.black_player_name@));
    lemma_plain_unquoted(m.black_player_name@);
    assert(ps[6] == ("WhiteElo"@, decimal(m.white_player_elo as nat)));
    lemma_plain_unquoted(decimal(m.white_player_elo as nat));
    lemma_parse_decimal(m.white_player_elo);
    assert(ps[7] == ("BlackElo"@, decimal(m.black_player_elo as nat)));
    lemma_plain_unquoted(decimal(m.black_player_elo as nat));
    lemma_parse_decimal(m.black_player_elo);
    assert(ps[8] == ("Result"@, result_token(m.result)));
    lemma_plain_unquoted(result_token(m.result));
    lemma_result_roundtrip(m.result);
    assert(ps.last() == ("Termination"@, termination_word(m.termination)));
    lemma_plain_unquoted(termination_word(m.termination));
    match m.time_control {
        Some(t) => {
            lemma_plain_unquoted(t@);
        },
        None => {},
    }
}

} // verus!
