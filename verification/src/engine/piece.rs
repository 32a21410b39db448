use vstd::prelude::*;

verus! {

/// The kind of a chess piece.
#[derive(Debug, Clone, Copy, PartialEq, Eq, Structural, Hash)]
pub enum PieceType {
    Pawn,
    Rook,
    Queen,
    Bishop,
    Knight,
    King,
}

/// The colour of a chess piece or of the side to move.
#[derive(Debug, Clone, Copy, PartialEq, Eq, Structural, Hash)]
pub enum PieceColor {
    White,
    Black,
}

/// A piece on the board. `position` is `(row, column)`, row 0 being rank 8 and
/// column 0 being file a.
#[derive(Debug, Clone, Copy)]
pub struct ChessPiece {
    pub id: u32,
    pub kind: PieceType,
    pub color: PieceColor,
    pub position: (u8, u8),
    pub has_moved: bool,
}

/// The 8x8 grid of the board, indexed `[row][column]`.
pub type Squares = [[Option<ChessPiece>; 8]; 8];

/// The other colour.
pub open spec fn opposite(c: PieceColor) -> PieceColor {
    match c {
        PieceColor::White => PieceColor::Black,
        PieceColor::Black => PieceColor::White,
    }
}

/// The name the original gives a colour.
pub open spec fn color_name(c: PieceColor) -> Seq<char> {
    match c {
        PieceColor::White => "White"@,
        PieceColor::Black => "Black"@,
    }
}

/// The name the original gives a piece kind.
pub open spec fn kind_name(k: PieceType) -> Seq<char> {
    match k {
        PieceType::King => "King"@,
        PieceType::Queen => "Queen"@,
        PieceType::Bishop => "Bishop"@,
        PieceType::Knight => "Knight"@,
        PieceType::Pawn => "Pawn"@,
        PieceType::Rook => "Rook"@,
    }
}

impl ChessPiece {
    /// A black pawn with id 0 at (0, 0) that has not moved.
    pub fn default() -> (p: ChessPiece)
        ensures
            p.id == 0,
            p.kind == PieceType::Pawn,
            p.color == PieceColor::Black,
            p.position == (0u8, 0u8),
            !p.has_moved,
    {
        ChessPiece {
            id: 0,
            kind: PieceType::Pawn,
            color: PieceColor::Black,
            position: (0, 0),
            has_moved: false,
        }
    }
}

impl PieceColor {
    /// "White" or "Black".
    pub fn to_string(&self) -> (s: String)
        ensures
            s@ == color_name(*self),
    {
        match self {
            PieceColor::White => String::from_str("White"),
            PieceColor::Black => String::from_str("Black"),
        }
    }
}

impl PieceType {
    /// The English name of the kind, capitalised.
    pub fn to_string(&self) -> (s: String)
        ensures
            s@ == kind_name(*self),
    {
        match self {
            PieceType::King => String::from_str("King"),
            PieceType::Queen => String::from_str("Queen"),
            PieceType::Bishop => String::from_str("Bishop"),
            PieceType::Knight => String::from_str("Knight"),
            PieceType::Pawn => String::from_str("Pawn"),
            PieceType::Rook => String::from_str("Rook"),
        }
    }
}

} // verus!
