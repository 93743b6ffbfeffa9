//! Piece kinds and colors as named values, and a piece made of both.
use vstd::prelude::*;

verus! {

/// A kind of piece, or no piece.
#[derive(Clone, Copy, Debug, PartialEq, Eq, Structural)]
pub enum PieceType {
    Pawn,
    Knight,
    Bishop,
    Rook,
    Queen,
    King,
    Empty,
}

/// A side, or no side.
#[derive(Clone, Copy, Debug, PartialEq, Eq, Structural)]
pub enum Color {
    White,
    Black,
    NoColor,
}

/// The number of a piece kind: pawn 1 to king 6, no piece 0.
pub open spec fn piece_type_number(p: PieceType) -> int {
    match p {
        PieceType::Pawn => 1,
        PieceType::Knight => 2,
        PieceType::Bishop => 3,
        PieceType::Rook => 4,
        PieceType::Queen => 5,
        PieceType::King => 6,
        PieceType::Empty => 0,
    }
}

/// The name of a piece kind, as written in its declaration.
pub open spec fn piece_type_name(p: PieceType) -> Seq<char> {
    match p {
        PieceType::Pawn => "Pawn"@,
        PieceType::Knight => "Knight"@,
        PieceType::Bishop => "Bishop"@,
        PieceType::Rook => "Rook"@,
        PieceType::Queen => "Queen"@,
        PieceType::King => "King"@,
        PieceType::Empty => "Empty"@,
    }
}

/// The number of a side: white 1, black -1, none 0.
pub open spec fn color_number(c: Color) -> int {
    match c {
        Color::White => 1,
        Color::Black => -1,
        Color::NoColor => 0,
    }
}

/// The name of a side, as written in its declaration.
pub open spec fn color_name(c: Color) -> Seq<char> {
    match c {
        Color::White => "White"@,
        Color::Black => "Black"@,
        Color::NoColor => "None"@,
    }
}

impl PieceType {
    /// The variant's name.
    pub fn name(&self) -> (r: &'static str)
        ensures
            r@ == piece_type_name(*self),
    {
        match self {
            PieceType::Pawn => "Pawn",
            PieceType::Knight => "Knight",
            PieceType::Bishop => "Bishop",
            PieceType::Rook => "Rook",
            PieceType::Queen => "Queen",
            PieceType::King => "King",
            PieceType::Empty => "Empty",
        }
    }

    /// The variant's number.
    pub fn number(&self) -> (r: i32)
        ensures
            r == piece_type_number(*self),
    {
        match self {
            PieceType::Pawn => 1,
            PieceType::Knight => 2,
            PieceType::Bishop => 3,
            PieceType::Rook => 4,
            PieceType::Queen => 5,
            PieceType::King => 6,
            PieceType::Empty => 0,
        }
    }

    /// The piece kind with number `v`; `Err(())` for any other number.
    pub fn try_from_i32(v: i32) -> (r: Result<PieceType, ()>)
        ensures
            r matches Ok(p) ==> piece_type_number(p) == v,
            r is Err <==> !(0 <= v <= 6),
    {
        if v == 1 {
            Ok(PieceType::Pawn)
        } else if v == 2 {
            Ok(PieceType::Knight)
        } else if v == 3 {
            Ok(PieceType::Bishop)
        } else if v == 4 {
            Ok(PieceType::Rook)
        } else if v == 5 {
            Ok(PieceType::Queen)
        } else if v == 6 {
            Ok(PieceType::King)
        } else if v == 0 {
            Ok(PieceType::Empty)
        } else {
            Err(())
        }
    }
}

impl Color {
    /// The variant's name.
    pub fn name(&self) -> (r: &'static str)
        ensures
            r@ == color_name(*self),
    {
        match self {
            Color::White => "White",
            Color::Black => "Black",
            Color::NoColor => "None",
        }
    }

    /// The variant's number.
    pub fn number(&self) -> (r: i32)
        ensures
            r == color_number(*self),
    {
        match self {
            Color::White => 1,
            Color::Black => -1,
            Color::NoColor => 0,
        }
    }

    /// The side with number `v`; `Err(())` for any other number.
    pub fn try_from_i32(v: i32) -> (r: Result<Color, ()>)
        ensures
            r matches Ok(c) ==> color_number(c) == v,
            r is Err <==> !(-1 <= v <= 1),
    {
        if v == 1 {
            Ok(Color::White)
        } else if v == -1 {
            Ok(Color::Black)
        } else if v == 0 {
            Ok(Color::NoColor)
        } else {
            Err(())
        }
    }
}

/// A number that names a piece kind names it back: reading the number of
/// the kind read from it gives the number.
pub proof fn lemma_piece_type_round_trip(p: PieceType)
    ensures
        0 <= piece_type_number(p) <= 6,
        forall|q: PieceType| piece_type_number(q) == piece_type_number(p) ==> q == p,
{
}

/// The same for sides.
pub proof fn lemma_color_round_trip(c: Color)
    ensures
        -1 <= color_number(c) <= 1,
        forall|d: Color| color_number(d) == color_number(c) ==> d == c,
{
}

/// A piece: its kind and its side.
#[derive(Clone, Copy, Debug)]
pub struct Piece {
    piece_type: PieceType,
    color: Color,
}

impl View for Piece {
    type V = (PieceType, Color);

    closed spec fn view(&self) -> (PieceType, Color) {
        (self.piece_type, self.color)
    }
}

/// The text of a piece: its side's name, an underscore, and its kind's name
/// in double quotes.
pub open spec fn piece_text(p: (PieceType, Color)) -> Seq<char> {
    color_name(p.1) + "_\""@ + piece_type_name(p.0) + "\""@
}

impl Piece {
    pub fn new(piece_type: PieceType, color: Color) -> (r: Piece)
        ensures
            r@ == (piece_type, color),
    {
        Piece { piece_type, color }
    }

    pub fn get_piece_type(&self) -> (r: PieceType)
        ensures
            r == self@.0,
    {
        self.piece_type
    }

    pub fn get_color(&self) -> (r: Color)
        ensures
            r == self@.1,
    {
        self.color
    }

    /// For example `White_"Pawn"`.
    pub fn to_string(&self) -> (r: String)
        ensures
            r@ == piece_text(self@),
    {
        let mut s = String::new();
        s.append(self.color.name());
        s.append("_\"");
        s.append(self.piece_type.name());
        s.append("\"");
        assert(s@ =~= piece_text(self@));
        s
    }
}

} // verus!
