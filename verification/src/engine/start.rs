use vstd::prelude::*;

use crate::engine::board::Board;
use crate::engine::fen::{
    fen_parser_defined, fen_parser_reads, grid_holds, is_default_board, is_read_board, loose_ep,
    loose_ep_readable, loose_rows, loose_scan, new_piece, piece_at, piece_of_letter,
};
use crate::engine::piece::{ChessPiece, PieceColor, PieceType};
use crate::text::{
    is_white_space, join_with, lemma_split_join, lemma_ws_fields_join, parse_u32_spec, split_on,
    ws_fields,
};

verus! {

/// The kind of the piece that starts on column `c` of a back rank.
pub open spec fn back_rank_kind(c: int) -> PieceType {
    if c == 0 || c == 7 {
        PieceType::Rook
    } else if c == 1 || c == 6 {
        PieceType::Knight
    } else if c == 2 || c == 5 {
        PieceType::Bishop
    } else if c == 3 {
        PieceType::Queen
    } else {
        PieceType::King
    }
}

/// The piece on row `r`, column `c` of the starting position, by kind and
/// colour: Black's pieces on row 0 and pawns on row 1, White's pawns on row
/// 6 and pieces on row 7, the rest empty.
pub open spec fn start_piece(r: int, c: int) -> Option<(PieceType, PieceColor)> {
    if r == 0 {
        Some((back_rank_kind(c), PieceColor::Black))
    } else if r == 1 {
        Some((PieceType::Pawn, PieceColor::Black))
    } else if r == 6 {
        Some((PieceType::Pawn, PieceColor::White))
    } else if r == 7 {
        Some((back_rank_kind(c), PieceColor::White))
    } else {
        None
    }
}

/// The kind a piece letter names (a pawn for any other character).
pub open spec fn letter_kind(c: char) -> PieceType {
    match piece_of_letter(c) {
        Some((k, _)) => k,
        None => PieceType::Pawn,
    }
}

/// The colour a piece letter names (White for any other character).
pub open spec fn letter_color(c: char) -> PieceColor {
    match piece_of_letter(c) {
        Some((_, col)) => col,
        None => PieceColor::White,
    }
}

/// The pieces read from a row of piece letters, numbered from `base`.
pub open spec fn row_pieces(row: Seq<char>, base: int, i: int, n: int) -> Seq<ChessPiece> {
    Seq::new(
        n as nat,
        |k: int|
            new_piece(base + k, letter_kind(row[k]), letter_color(row[k]), i, k),
    )
}

/// Reading a row of piece letters sets down one piece a letter, numbered on
/// from the pieces read before.
proof fn lemma_scan_letters(row: Seq<char>, i: int, ps: Seq<ChessPiece>, n: int)
    requires
        0 <= n <= row.len() <= 8,
        0 <= i < 8,
        ps.len() <= 64,
        forall|k: int| 0 <= k < row.len() ==> #[trigger] piece_of_letter(row[k]) is Some && !(
        '0' <= row[k] <= '9'),
    ensures
        loose_scan(Some(Ok((0, ps))), row.take(n), i) == Some(
            Ok::<(int, Seq<ChessPiece>), char>((n, ps + row_pieces(row, ps.len() as int, i, n))),
        ),
    decreases n,
{
    if n == 0 {
        assert(row.take(0) =~= Seq::<char>::empty());
        assert(ps + row_pieces(row, ps.len() as int, i, 0) =~= ps);
    } else {
        lemma_scan_letters(row, i, ps, n - 1);
        assert(row.take(n).drop_last() =~= row.take(n - 1));
        assert(row.take(n).last() == row[n - 1]);
        let before = ps + row_pieces(row, ps.len() as int, i, n - 1);
        let kind = letter_kind(row[n - 1]);
        let color = letter_color(row[n - 1]);
        assert(before.push(new_piece(before.len() as int, kind, color, i, n - 1)) =~= ps + row_pieces(
            row,
            ps.len() as int,
            i,
            n,
        ));
    }
}

/// The last piece listed on a square is the one found there, and a square
/// no piece names holds none.
proof fn lemma_piece_at_unique(ps: Seq<ChessPiece>, r: int, c: int)
    ensures
        (forall|k: int| 0 <= k < ps.len() ==> (#[trigger] ps[k]).position != (r as u8, c as u8)) ==> piece_at(
            ps,
            r,
            c,
        ) is None,
        forall|k: int|
            0 <= k < ps.len() && (#[trigger] ps[k]).position == (r as u8, c as u8) && (forall|j: int|
                k < j < ps.len() ==> (#[trigger] ps[j]).position != (r as u8, c as u8)) ==> piece_at(ps, r, c)
                == Some(ps[k]),
    decreases ps.len(),
{
    if ps.len() > 0 {
        let init = ps.drop_last();
        lemma_piece_at_unique(init, r, c);
        assert forall|k: int| 0 <= k < init.len() implies #[trigger] init[k] == ps[k] by {}
        assert(ps[ps.len() - 1] == ps.last());
        assert forall|k: int|
            0 <= k < ps.len() && (#[trigger] ps[k]).position == (r as u8, c as u8) && (forall|j: int|
                k < j < ps.len() ==> (#[trigger] ps[j]).position != (r as u8, c as u8)) implies piece_at(ps, r, c)
            == Some(ps[k]) by {
            if k < ps.len() - 1 {
                assert(ps[ps.len() - 1].position != (r as u8, c as u8));
                assert(init[k] == ps[k]);
                assert forall|j: int| k < j < init.len() implies (#[trigger] init[j]).position != (
                r as u8,
                c as u8,
            ) by {
                    assert(init[j] == ps[j]);
                }
            }
        }
    }
}

/// The pieces the starting position's placement is read into, in reading
/// order.
pub open spec fn start_pieces() -> Seq<ChessPiece> {
    row_pieces("rnbqkbnr"@, 0, 0, 8) + row_pieces("pppppppp"@, 8, 1, 8) + row_pieces("PPPPPPPP"@, 16, 6, 8)
        + row_pieces("RNBQKBNR"@, 24, 7, 8)
}

/// The pieces of the starting position, in reading order, each on its
/// square with its kind and colour.
proof fn lemma_start_pieces()
    ensures
        start_pieces().len() == 32,
        forall|k: int|
            0 <= k < 32 ==> {
                let p = #[trigger] start_pieces()[k];
                let r: int = if k < 8 {
                    0
                } else if k < 16 {
                    1
                } else if k < 24 {
                    6
                } else {
                    7
                };
                &&& p.position == (r as u8, (k % 8) as u8)
                &&& start_piece(r, k % 8) == Some((p.kind, p.color))
                &&& !p.has_moved
            },
{
    reveal_strlit("rnbqkbnr");
    reveal_strlit("pppppppp");
    reveal_strlit("PPPPPPPP");
    reveal_strlit("RNBQKBNR");
    let s = start_pieces();
    assert forall|k: int| 0 <= k < 32 implies {
        let p = #[trigger] s[k];
        let r: int = if k < 8 {
            0
        } else if k < 16 {
            1
        } else if k < 24 {
            6
        } else {
            7
        };
        &&& p.position == (r as u8, (k % 8) as u8)
        &&& start_piece(r, k % 8) == Some((p.kind, p.color))
        &&& !p.has_moved
    } by {
        let c = k % 8;
        assert(0 <= c < 8);
        if k < 8 {
            assert(s[k] == row_pieces("rnbqkbnr"@, 0, 0, 8)[k]);
        } else if k < 16 {
            assert(s[k] == row_pieces("pppppppp"@, 8, 1, 8)[k - 8]);
        } else if k < 24 {
            assert(s[k] == row_pieces("PPPPPPPP"@, 16, 6, 8)[k - 16]);
        } else {
            assert(s[k] == row_pieces("RNBQKBNR"@, 24, 7, 8)[k - 24]);
        }
    }
}

/// The starting FEN splits into its six fields, and its placement into the
/// eight rows.
proof fn lemma_start_fields()
    ensures
        ws_fields(crate::etc::DEFAULT_FEN@) == seq![
            "rnbqkbnr/pppppppp/8/8/8/8/PPPPPPPP/RNBQKBNR"@,
            "w"@,
            "KQkq"@,
            "-"@,
            "0"@,
            "1"@,
        ],
        split_on("rnbqkbnr/pppppppp/8/8/8/8/PPPPPPPP/RNBQKBNR"@, '/') == seq![
            "rnbqkbnr"@,
            "pppppppp"@,
            "8"@,
            "8"@,
            "8"@,
            "8"@,
            "PPPPPPPP"@,
            "RNBQKBNR"@,
        ],
{
    reveal_strlit("rnbqkbnr/pppppppp/8/8/8/8/PPPPPPPP/RNBQKBNR w KQkq - 0 1");
    reveal_strlit("rnbqkbnr/pppppppp/8/8/8/8/PPPPPPPP/RNBQKBNR");
    reveal_strlit("rnbqkbnr");
    reveal_strlit("pppppppp");
    reveal_strlit("PPPPPPPP");
    reveal_strlit("RNBQKBNR");
    reveal_strlit("8");
    reveal_strlit("w");
    reveal_strlit("KQkq");
    reveal_strlit("-");
    reveal_strlit("0");
    reveal_strlit("1");
    let rows = seq![
        "rnbqkbnr"@,
        "pppppppp"@,
        "8"@,
        "8"@,
        "8"@,
        "8"@,
        "PPPPPPPP"@,
        "RNBQKBNR"@,
    ];
    let placement = "rnbqkbnr/pppppppp/8/8/8/8/PPPPPPPP/RNBQKBNR"@;
    assert(join_with(rows, '/') =~= placement) by {
        reveal_with_fuel(join_with, 8);
    }
    lemma_split_join(rows, '/');
    let fields = seq![placement, "w"@, "KQkq"@, "-"@, "0"@, "1"@];
    assert(join_with(fields, ' ') =~= crate::etc::DEFAULT_FEN@) by {
        reveal_with_fuel(join_with, 6);
    }
    assert forall|k: int, i: int| 0 <= k < fields.len() && 0 <= i < fields[k].len() implies !is_white_space(
        #[trigger] fields[k][i],
    ) by {}
    lemma_ws_fields_join(fields);
}

/// The starting FEN is read without a failure into the starting pieces.
proof fn lemma_start_read()
    ensures
        fen_parser_defined(crate::etc::DEFAULT_FEN@),
        fen_parser_reads(crate::etc::DEFAULT_FEN@) == Some(start_pieces()),
        ws_fields(crate::etc::DEFAULT_FEN@) == seq!["rnbqkbnr/pppppppp/8/8/8/8/PPPPPPPP/RNBQKBNR"@, "w"@, "KQkq"@, "-"@, "0"@, "1"@],
{
    lemma_start_fields();
    reveal_strlit("rnbqkbnr");
    reveal_strlit("pppppppp");
    reveal_strlit("PPPPPPPP");
    reveal_strlit("RNBQKBNR");
    reveal_strlit("8");
    reveal_strlit("w");
    reveal_strlit("KQkq");
    reveal_strlit("-");
    reveal_strlit("0");
    reveal_strlit("1");
    let rows = seq![
        "rnbqkbnr"@,
        "pppppppp"@,
        "8"@,
        "8"@,
        "8"@,
        "8"@,
        "PPPPPPPP"@,
        "RNBQKBNR"@,
    ];
    // the placement read row by row
    let e: Seq<ChessPiece> = Seq::empty();
    let p0 = row_pieces("rnbqkbnr"@, 0, 0, 8);
    let p1 = row_pieces("pppppppp"@, 8, 1, 8);
    let p6 = row_pieces("PPPPPPPP"@, 16, 6, 8);
    let p7 = row_pieces("RNBQKBNR"@, 24, 7, 8);
    lemma_scan_letters("rnbqkbnr"@, 0, e, 8);
    assert("rnbqkbnr"@.take(8) =~= "rnbqkbnr"@);
    assert(e + p0 =~= p0);
    lemma_scan_letters("pppppppp"@, 1, p0, 8);
    assert("pppppppp"@.take(8) =~= "pppppppp"@);
    lemma_scan_letters("PPPPPPPP"@, 6, p0 + p1, 8);
    assert("PPPPPPPP"@.take(8) =~= "PPPPPPPP"@);
    lemma_scan_letters("RNBQKBNR"@, 7, p0 + p1 + p6, 8);
    assert("RNBQKBNR"@.take(8) =~= "RNBQKBNR"@);
    assert(loose_scan(Some(Ok((0, p0 + p1))), "8"@, 2) == Some(Ok::<(int, Seq<ChessPiece>), char>((8, p0 + p1)))) by {
        let st = Some(Ok::<(int, Seq<ChessPiece>), char>((0, p0 + p1)));
        assert("8"@.drop_last() =~= Seq::<char>::empty());
        assert(loose_scan(st, "8"@.drop_last(), 2) == st);
        assert("8"@.last() == '8');
        assert(crate::text::digit_value('8') == 8);
    }
    assert(loose_scan(Some(Ok((0, p0 + p1))), "8"@, 3) == Some(Ok::<(int, Seq<ChessPiece>), char>((8, p0 + p1)))) by {
        let st = Some(Ok::<(int, Seq<ChessPiece>), char>((0, p0 + p1)));
        assert("8"@.drop_last() =~= Seq::<char>::empty());
        assert(loose_scan(st, "8"@.drop_last(), 3) == st);
        assert("8"@.last() == '8');
        assert(crate::text::digit_value('8') == 8);
    }
    assert(loose_scan(Some(Ok((0, p0 + p1))), "8"@, 4) == Some(Ok::<(int, Seq<ChessPiece>), char>((8, p0 + p1)))) by {
        let st = Some(Ok::<(int, Seq<ChessPiece>), char>((0, p0 + p1)));
        assert("8"@.drop_last() =~= Seq::<char>::empty());
        assert(loose_scan(st, "8"@.drop_last(), 4) == st);
        assert("8"@.last() == '8');
        assert(crate::text::digit_value('8') == 8);
    }
    assert(loose_scan(Some(Ok((0, p0 + p1))), "8"@, 5) == Some(Ok::<(int, Seq<ChessPiece>), char>((8, p0 + p1)))) by {
        let st = Some(Ok::<(int, Seq<ChessPiece>), char>((0, p0 + p1)));
        assert("8"@.drop_last() =~= Seq::<char>::empty());
        assert(loose_scan(st, "8"@.drop_last(), 5) == st);
        assert("8"@.last() == '8');
        assert(crate::text::digit_value('8') == 8);
    }
    assert(loose_rows(rows) == Some(Ok::<Seq<ChessPiece>, char>(start_pieces()))) by {
        reveal_with_fuel(loose_rows, 9);
        assert(rows.take(1) =~= seq!["rnbqkbnr"@]);
        assert(rows.drop_last() =~= rows.take(7));
        assert(rows.take(7).drop_last() =~= rows.take(6));
        assert(rows.take(6).drop_last() =~= rows.take(5));
        assert(rows.take(5).drop_last() =~= rows.take(4));
        assert(rows.take(4).drop_last() =~= rows.take(3));
        assert(rows.take(3).drop_last() =~= rows.take(2));
        assert(rows.take(2).drop_last() =~= rows.take(1));
        assert(rows.take(1).drop_last() =~= Seq::<Seq<char>>::empty());
        assert(loose_rows(rows.take(1)) == Some(Ok::<Seq<ChessPiece>, char>(p0)));
        assert(loose_rows(rows.take(2)) == Some(Ok::<Seq<ChessPiece>, char>(p0 + p1)));
        assert(loose_rows(rows.take(3)) == Some(Ok::<Seq<ChessPiece>, char>(p0 + p1)));
        assert(loose_rows(rows.take(4)) == Some(Ok::<Seq<ChessPiece>, char>(p0 + p1)));
        assert(loose_rows(rows.take(5)) == Some(Ok::<Seq<ChessPiece>, char>(p0 + p1)));
        assert(loose_rows(rows.take(6)) == Some(Ok::<Seq<ChessPiece>, char>(p0 + p1)));
        assert(loose_rows(rows.take(7)) == Some(Ok::<Seq<ChessPiece>, char>(p0 + p1 + p6)));
        assert(p0 + p1 + p6 + p7 == start_pieces());
    }
    lemma_start_pieces();
    let ps = start_pieces();
    assert(fen_parser_defined(crate::etc::DEFAULT_FEN@)) by {
        crate::text::lemma_parse_decimal(0u32);
        crate::text::lemma_parse_decimal(1u32);
        assert(crate::text::decimal(0) =~= "0"@);
        assert(crate::text::decimal(1) =~= "1"@);
        assert(parse_u32_spec("0"@) == Some(0u32));
        assert(parse_u32_spec("1"@) == Some(1u32));
        assert("-"@ =~= seq!['-']);
        assert(loose_ep_readable("-"@));
        assert forall|k: int| 0 <= k < ps.len() implies (#[trigger] ps[k]).position.0 < 8 && ps[k].position.1 < 8 by {}
    }
}

/// A grid holding the starting pieces has each of them on its square.
proof fn lemma_start_squares(b: Board)
    requires
        grid_holds(b.squares, start_pieces()),
    ensures
        forall|r: int, c: int|
            0 <= r < 8 && 0 <= c < 8 ==> match start_piece(r, c) {
                Some((kind, color)) => (#[trigger] b.squares[r][c]) matches Some(p) && p.kind == kind
                    && p.color == color && p.position == (r as u8, c as u8) && !p.has_moved,
                None => b.squares[r][c] is None,
            },
{
    lemma_start_pieces();
    let ps = start_pieces();
    assert forall|r: int, c: int| 0 <= r < 8 && 0 <= c < 8 implies match start_piece(r, c) {
        Some((kind, color)) => (#[trigger] b.squares[r][c]) matches Some(p) && p.kind == kind && p.color == color
            && p.position == (r as u8, c as u8) && !p.has_moved,
        None => b.squares[r][c] is None,
    } by {
        lemma_piece_at_unique(ps, r, c);
        assert(b.squares[r][c] == piece_at(ps, r, c));
        if start_piece(r, c) is Some {
            let k = if r == 0 {
                c
            } else if r == 1 {
                8 + c
            } else if r == 6 {
                16 + c
            } else {
                24 + c
            };
            assert(ps[k].position == (r as u8, c as u8));
            assert forall|j: int| k < j < ps.len() implies (#[trigger] ps[j]).position != (r as u8, c as u8) by {}
        } else {
            assert forall|j: int| 0 <= j < ps.len() implies (#[trigger] ps[j]).position != (r as u8, c as u8) by {}
        }
    }
}

/// The board `Board::default` gives is the starting position: each piece of
/// both sides on its square, unmoved, the other squares empty, White to
/// move, all castling rights, no en-passant square, and clocks 0 and 1.
pub proof fn lemma_default_board_start(b: Board)
    requires
        is_default_board(b),
    ensures
        forall|r: int, c: int|
            0 <= r < 8 && 0 <= c < 8 ==> match start_piece(r, c) {
                Some((kind, color)) => (#[trigger] b.squares[r][c]) matches Some(p) && p.kind == kind
                    && p.color == color && p.position == (r as u8, c as u8) && !p.has_moved,
                None => b.squares[r][c] is None,
            },
        b.turn == PieceColor::White,
        b.white_small_castle && b.white_big_castle && b.black_small_castle && b.black_big_castle,
        b.en_passant_target is None,
        b.halfmove_clock == 0,
        b.fullmove_number == 1,
{
    lemma_start_read();
    lemma_start_pieces();
    reveal_strlit("w");
    reveal_strlit("KQkq");
    reveal_strlit("-");
    reveal_strlit("0");
    reveal_strlit("1");
    let ps = start_pieces();
    let f = ws_fields(crate::etc::DEFAULT_FEN@);
    assert(is_read_board(b, crate::etc::DEFAULT_FEN@, ps));
    assert(f[1] == "w"@);
    assert("w"@ =~= seq!['w']);
    assert("-"@ =~= seq!['-']);
    assert(f[2] == "KQkq"@);
    assert(f[2][0] == 'K' && f[2][1] == 'Q' && f[2][2] == 'k' && f[2][3] == 'q');
    assert(f[3] == "-"@);
    crate::text::lemma_parse_decimal(0u32);
    crate::text::lemma_parse_decimal(1u32);
    assert(crate::text::decimal(0) =~= "0"@);
    assert(crate::text::decimal(1) =~= "1"@);
    assert(f[4] == "0"@);
    assert(f[5] == "1"@);
    assert(loose_ep("-"@) is None);
    lemma_start_squares(b);

}

} // verus!
