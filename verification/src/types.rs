//! The value types a parsed transcript is made of: pieces, half-moves,
//! game results, and the typed parse errors, together with their
//! mathematical views.

use vstd::prelude::*;
use vstd::string::StringSliceAdditionalSpecFns;

use crate::scan::bytes_eq;

verus! {

/// A chess piece, as named by a letter of the move notation.
/// `Pawn` is never written as a letter: it is the implied mover of a
/// pawn-shaped token and can never be a promotion target.
#[derive(Clone, Copy, Debug, PartialEq, Eq, Structural)]
pub enum Piece {
    King,
    Queen,
    Bishop,
    Knight,
    Rook,
    Pawn,
}

/// The outcome a transcript's terminal token declares.
#[derive(Clone, Copy, Debug, PartialEq, Eq, Structural)]
pub enum GameResult {
    WhiteWon,
    BlackWon,
    Draw,
    Other,
}

/// The display glyph for a piece moved by White.
pub open spec fn white_glyph(p: Piece) -> Seq<char> {
    match p {
        Piece::King => "\u{2654}"@,
        Piece::Queen => "\u{2655}"@,
        Piece::Bishop => "\u{2657}"@,
        Piece::Knight => "\u{2658}"@,
        Piece::Rook => "\u{2656}"@,
        Piece::Pawn => ""@,
    }
}

/// The display glyph for a piece moved by Black.
pub open spec fn black_glyph(p: Piece) -> Seq<char> {
    match p {
        Piece::King => "\u{265A}"@,
        Piece::Queen => "\u{265B}"@,
        Piece::Bishop => "\u{265D}"@,
        Piece::Knight => "\u{265E}"@,
        Piece::Rook => "\u{265C}"@,
        Piece::Pawn => ""@,
    }
}

/// The piece a notation letter stands for. Meaningful only on the five
/// piece letters `K`, `Q`, `B`, `N`, `R`.
pub open spec fn piece_of_byte(c: u8) -> Piece {
    if c == 75 {
        Piece::King
    } else if c == 81 {
        Piece::Queen
    } else if c == 66 {
        Piece::Bishop
    } else if c == 78 {
        Piece::Knight
    } else {
        Piece::Rook
    }
}

/// True of the five letters that may name a moving piece.
pub open spec fn is_piece_letter(c: u8) -> bool {
    c == 75 || c == 81 || c == 66 || c == 78 || c == 82
}

impl Piece {
    /// The board glyph for this piece when moved by White.
    pub fn as_white(&self) -> (r: &str)
        ensures
            r@ == white_glyph(*self),
    {
        match *self {
            Piece::King => "\u{2654}",
            Piece::Queen => "\u{2655}",
            Piece::Bishop => "\u{2657}",
            Piece::Knight => "\u{2658}",
            Piece::Rook => "\u{2656}",
            Piece::Pawn => "",
        }
    }

    /// The board glyph for this piece when moved by Black.
    pub fn as_black(&self) -> (r: &str)
        ensures
            r@ == black_glyph(*self),
    {
        match *self {
            Piece::King => "\u{265A}",
            Piece::Queen => "\u{265B}",
            Piece::Bishop => "\u{265D}",
            Piece::Knight => "\u{265E}",
            Piece::Rook => "\u{265C}",
            Piece::Pawn => "",
        }
    }

    /// The piece named by a one-letter piece string. Only the five piece
    /// letters are accepted, so this never has to answer for other input.
    pub fn from_str(p: &str) -> (r: Piece)
        requires
            p.spec_bytes().len() == 1,
            is_piece_letter(p.spec_bytes()[0]),
        ensures
            r == piece_of_byte(p.spec_bytes()[0]),
    {
        let b = p.as_bytes();
        if b[0] == 75 {
            Piece::King
        } else if b[0] == 81 {
            Piece::Queen
        } else if b[0] == 66 {
            Piece::Bishop
        } else if b[0] == 78 {
            Piece::Knight
        } else {
            Piece::Rook
        }
    }
}

/// One half-move (one ply) of the game.
#[derive(Clone, Debug)]
pub enum HalfMove {
    /// An ordinary move: which piece moved, whether it captured, the
    /// optional file and rank disambiguators of the origin square, the
    /// target square, and the optional promotion piece.
    Regular {
        piece: Piece,
        capture: bool,
        col_from: Option<Vec<u8>>,
        row_from: Option<Vec<u8>>,
        square: Vec<u8>,
        promotion: Option<Piece>,
    },
    /// The kingside castling token `O-O`.
    KingsideCastling,
    /// The queenside castling token `O-O-O`.
    QueensideCastling,
    /// The sentinel for a ply whose black half does not exist. It never
    /// appears in a finished game's move sequence.
    NoMove,
}

/// The byte sequence an optional owned byte string stands for.
pub open spec fn opt_bytes_view(o: Option<Vec<u8>>) -> Option<Seq<u8>> {
    match o {
        Some(v) => Some(v@),
        None => None,
    }
}

/// The mathematical value of a `HalfMove`, with byte sequences in place
/// of owned byte strings.
pub ghost enum HalfMoveV {
    Regular {
        piece: Piece,
        capture: bool,
        col_from: Option<Seq<u8>>,
        row_from: Option<Seq<u8>>,
        square: Seq<u8>,
        promotion: Option<Piece>,
    },
    KingsideCastling,
    QueensideCastling,
    NoMove,
}

impl View for HalfMove {
    type V = HalfMoveV;

    open spec fn view(&self) -> HalfMoveV {
        match self {
            HalfMove::Regular { piece, capture, col_from, row_from, square, promotion } => {
                HalfMoveV::Regular {
                    piece: *piece,
                    capture: *capture,
                    col_from: opt_bytes_view(*col_from),
                    row_from: opt_bytes_view(*row_from),
                    square: square@,
                    promotion: *promotion,
                }
            },
            HalfMove::KingsideCastling => HalfMoveV::KingsideCastling,
            HalfMove::QueensideCastling => HalfMoveV::QueensideCastling,
            HalfMove::NoMove => HalfMoveV::NoMove,
        }
    }
}

/// Whether two optional byte strings hold the same bytes.
fn opt_bytes_eq(a: &Option<Vec<u8>>, b: &Option<Vec<u8>>) -> (r: bool)
    ensures
        r == (opt_bytes_view(*a) == opt_bytes_view(*b)),
{
    match (a, b) {
        (Some(x), Some(y)) => bytes_eq(x.as_slice(), y.as_slice()),
        (None, None) => true,
        _ => false,
    }
}

/// Whether two optional pieces are the same.
fn opt_piece_eq(a: &Option<Piece>, b: &Option<Piece>) -> (r: bool)
    ensures
        r == (*a == *b),
{
    match (a, b) {
        (Some(x), Some(y)) => *x == *y,
        (None, None) => true,
        _ => false,
    }
}

impl PartialEq for HalfMove {
    /// Two half-moves are equal when their mathematical values are:
    /// same variant, and for a regular move the same piece, capture
    /// flag, disambiguators, target square and promotion.
    fn eq(&self, other: &Self) -> (r: bool) {
        match (self, other) {
            (
                HalfMove::Regular {
                    piece: p1,
                    capture: c1,
                    col_from: f1,
                    row_from: r1,
                    square: s1,
                    promotion: m1,
                },
                HalfMove::Regular {
                    piece: p2,
                    capture: c2,
                    col_from: f2,
                    row_from: r2,
                    square: s2,
                    promotion: m2,
                },
            ) => *p1 == *p2 && *c1 == *c2 && opt_bytes_eq(f1, f2) && opt_bytes_eq(r1, r2)
                && bytes_eq(s1.as_slice(), s2.as_slice()) && opt_piece_eq(m1, m2),
            (HalfMove::KingsideCastling, HalfMove::KingsideCastling) => true,
            (HalfMove::QueensideCastling, HalfMove::QueensideCastling) => true,
            (HalfMove::NoMove, HalfMove::NoMove) => true,
            _ => false,
        }
    }
}

impl vstd::std_specs::cmp::PartialEqSpecImpl for HalfMove {
    open spec fn obeys_eq_spec() -> bool {
        true
    }

    open spec fn eq_spec(&self, other: &Self) -> bool {
        self@ == other@
    }
}

/// Why a parse failed: which construct was malformed, or that the buffer
/// ended before a construct could be completed. Each failure carries the
/// byte offset where it was found; a malformed move also carries the
/// offending token.
#[derive(Clone, Debug)]
pub enum ParseError {
    MalformedHeader { offset: usize },
    MalformedMove { offset: usize, token: Vec<u8> },
    MalformedResult { offset: usize },
    IncompleteInput { offset: usize },
}

/// The mathematical value of a `ParseError`.
pub ghost enum ParseErrorV {
    MalformedHeader { offset: int },
    MalformedMove { offset: int, token: Seq<u8> },
    MalformedResult { offset: int },
    IncompleteInput { offset: int },
}

impl PartialEq for ParseError {
    /// Two failures are equal when their mathematical values are: same
    /// kind, same offset, and for a malformed move the same token.
    fn eq(&self, other: &Self) -> (r: bool) {
        match (self, other) {
            (
                ParseError::MalformedHeader { offset: o1 },
                ParseError::MalformedHeader { offset: o2 },
            ) => *o1 == *o2,
            (
                ParseError::MalformedMove { offset: o1, token: t1 },
                ParseError::MalformedMove { offset: o2, token: t2 },
            ) => *o1 == *o2 && bytes_eq(t1.as_slice(), t2.as_slice()),
            (
                ParseError::MalformedResult { offset: o1 },
                ParseError::MalformedResult { offset: o2 },
            ) => *o1 == *o2,
            (
                ParseError::IncompleteInput { offset: o1 },
                ParseError::IncompleteInput { offset: o2 },
            ) => *o1 == *o2,
            _ => false,
        }
    }
}

impl vstd::std_specs::cmp::PartialEqSpecImpl for ParseError {
    open spec fn obeys_eq_spec() -> bool {
        true
    }

    open spec fn eq_spec(&self, other: &Self) -> bool {
        self@ == other@
    }
}

impl View for ParseError {
    type V = ParseErrorV;

    open spec fn view(&self) -> ParseErrorV {
        match self {
            ParseError::MalformedHeader { offset } => ParseErrorV::MalformedHeader {
                offset: *offset as int,
            },
            ParseError::MalformedMove { offset, token } => ParseErrorV::MalformedMove {
                offset: *offset as int,
                token: token@,
            },
            ParseError::MalformedResult { offset } => ParseErrorV::MalformedResult {
                offset: *offset as int,
            },
            ParseError::IncompleteInput { offset } => ParseErrorV::IncompleteInput {
                offset: *offset as int,
            },
        }
    }
}

} // verus!
