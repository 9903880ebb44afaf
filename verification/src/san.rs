//! The five move-shape matchers and the half-move dispatcher. Each
//! matcher isolates the next whitespace-delimited token and tests it
//! against one fixed shape of standard algebraic notation; the
//! dispatcher tries the shapes in a fixed order and commits to the
//! first that accepts.

use vstd::prelude::*;

use crate::scan::lemma_token_end;
use crate::scan::token_at;
use crate::scan::token_end;
use crate::scan::token_end_spec;
use crate::types::HalfMove;
use crate::types::HalfMoveV;
use crate::types::Piece;
use crate::types::is_piece_letter;
use crate::types::piece_of_byte;

verus! {

/// True of the file letters `a` through `h`.
pub open spec fn is_file(c: u8) -> bool {
    97 <= c && c <= 104
}

/// True of the rank digits `1` through `8`.
pub open spec fn is_rank(c: u8) -> bool {
    49 <= c && c <= 56
}

/// True of the four letters a pawn may promote to: `Q`, `B`, `N`, `R`.
pub open spec fn is_promo_letter(c: u8) -> bool {
    c == 81 || c == 66 || c == 78 || c == 82
}

/// A token with a trailing check or checkmate annotation (`+` or `#`)
/// loses it before shape testing; the annotation carries no payload.
pub open spec fn strip_check(t: Seq<u8>) -> Seq<u8> {
    if t.len() > 0 && (t.last() == 43 || t.last() == 35) {
        t.drop_last()
    } else {
        t
    }
}

/// The shape of a plain pawn move: a target square `[a-h][1-8]`, an
/// optional promotion suffix `=[QBNR]`, an optional trailing `+` or `#`.
pub open spec fn pawn_move_shape(t: Seq<u8>) -> bool {
    let c = strip_check(t);
    (c.len() == 2 && is_file(c[0]) && is_rank(c[1])) || (c.len() == 4 && is_file(c[0]) && is_rank(
        c[1],
    ) && c[2] == 61 && is_promo_letter(c[3]))
}

/// The half-move a pawn-move token denotes.
pub open spec fn pawn_move_value(t: Seq<u8>) -> HalfMoveV {
    let c = strip_check(t);
    HalfMoveV::Regular {
        piece: Piece::Pawn,
        capture: false,
        col_from: None,
        row_from: None,
        square: c.subrange(0, 2),
        promotion: if c.len() == 4 {
            Some(piece_of_byte(c[3]))
        } else {
            None
        },
    }
}

/// The shape of a pawn capture: origin file, `x`, target square,
/// optional promotion suffix, optional trailing `+` or `#`.
pub open spec fn pawn_capture_shape(t: Seq<u8>) -> bool {
    let c = strip_check(t);
    (c.len() == 4 && is_file(c[0]) && c[1] == 120 && is_file(c[2]) && is_rank(c[3])) || (c.len()
        == 6 && is_file(c[0]) && c[1] == 120 && is_file(c[2]) && is_rank(c[3]) && c[4] == 61
        && is_promo_letter(c[5]))
}

/// The half-move a pawn-capture token denotes.
pub open spec fn pawn_capture_value(t: Seq<u8>) -> HalfMoveV {
    let c = strip_check(t);
    HalfMoveV::Regular {
        piece: Piece::Pawn,
        capture: true,
        col_from: Some(c.subrange(0, 1)),
        row_from: None,
        square: c.subrange(2, 4),
        promotion: if c.len() == 6 {
            Some(piece_of_byte(c[5]))
        } else {
            None
        },
    }
}

/// The disambiguator-and-capture middle of a piece move: an optional
/// origin file, an optional origin rank, an optional `x`, in that order.
pub open spec fn mid_ok(m: Seq<u8>) -> bool {
    m.len() == 0 || (m.len() == 1 && (is_file(m[0]) || is_rank(m[0]) || m[0] == 120)) || (m.len()
        == 2 && ((is_file(m[0]) && is_rank(m[1])) || (is_file(m[0]) && m[1] == 120) || (is_rank(
        m[0],
    ) && m[1] == 120))) || (m.len() == 3 && is_file(m[0]) && is_rank(m[1]) && m[2] == 120)
}

/// The shape of a piece move or capture: a piece letter, the optional
/// middle of `mid_ok`, a target square, an optional trailing `+` or `#`.
pub open spec fn piece_move_shape(t: Seq<u8>) -> bool {
    let c = strip_check(t);
    3 <= c.len() <= 6 && is_piece_letter(c[0]) && is_file(c[c.len() - 2]) && is_rank(
        c[c.len() - 1],
    ) && mid_ok(c.subrange(1, c.len() - 2))
}

/// The half-move a piece-move token denotes. The capture marker may
/// stand after either disambiguator, or after both.
pub open spec fn piece_move_value(t: Seq<u8>) -> HalfMoveV {
    let c = strip_check(t);
    let m = c.subrange(1, c.len() - 2);
    HalfMoveV::Regular {
        piece: piece_of_byte(c[0]),
        capture: m.len() > 0 && m.last() == 120,
        col_from: if m.len() > 0 && is_file(m[0]) {
            Some(m.subrange(0, 1))
        } else {
            None
        },
        row_from: if m.len() > 0 && is_rank(m[0]) {
            Some(m.subrange(0, 1))
        } else if m.len() > 1 && is_rank(m[1]) {
            Some(m.subrange(1, 2))
        } else {
            None
        },
        square: c.subrange(c.len() - 2, c.len() as int),
        promotion: None,
    }
}

/// The kingside castling token `O-O`.
pub open spec fn kingside_seq() -> Seq<u8> {
    seq![79u8, 45u8, 79u8]
}

/// The queenside castling token `O-O-O`.
pub open spec fn queenside_seq() -> Seq<u8> {
    seq![79u8, 45u8, 79u8, 45u8, 79u8]
}

/// Whether some move-shape matcher accepts the token.
pub open spec fn san_shape(t: Seq<u8>) -> bool {
    pawn_move_shape(t) || pawn_capture_shape(t) || piece_move_shape(t) || t == queenside_seq()
        || t == kingside_seq()
}

/// The half-move the dispatcher yields for a token: the shapes are
/// tried in order — pawn move, pawn capture, piece move, queenside
/// castling, kingside castling — and the first that accepts decides.
/// Queenside stands before kingside so that `O-O-O` can never be read
/// as `O-O` with a spurious leftover.
pub open spec fn san_value(t: Seq<u8>) -> HalfMoveV {
    if pawn_move_shape(t) {
        pawn_move_value(t)
    } else if pawn_capture_shape(t) {
        pawn_capture_value(t)
    } else if piece_move_shape(t) {
        piece_move_value(t)
    } else if t == queenside_seq() {
        HalfMoveV::QueensideCastling
    } else {
        HalfMoveV::KingsideCastling
    }
}

/// The notation letter that names a piece. The pawn, which notation
/// never names by letter, is given `P`; no serialized token holds it.
pub open spec fn piece_letter_of(p: Piece) -> u8 {
    match p {
        Piece::King => 75,
        Piece::Queen => 81,
        Piece::Bishop => 66,
        Piece::Knight => 78,
        Piece::Rook => 82,
        Piece::Pawn => 80,
    }
}

/// The bytes an optional disambiguator contributes: its own where
/// present, none where absent.
pub open spec fn opt_seq(o: Option<Seq<u8>>) -> Seq<u8> {
    match o {
        Some(s) => s,
        None => Seq::<u8>::empty(),
    }
}

/// The minimal token that writes a half-move back down: piece letter
/// unless a pawn moves, the disambiguators, `x` on a capture, the
/// target square, and `=` with the promotion letter where a pawn
/// promotes. Check annotations are not retained, so none is written.
/// The sentinel for an absent half-move writes nothing.
pub open spec fn san_of(m: HalfMoveV) -> Seq<u8> {
    match m {
        HalfMoveV::Regular { piece, capture, col_from, row_from, square, promotion } => (
        if piece == Piece::Pawn {
            Seq::<u8>::empty()
        } else {
            seq![piece_letter_of(piece)]
        }) + opt_seq(col_from) + opt_seq(row_from) + (if capture {
            seq![120u8]
        } else {
            Seq::<u8>::empty()
        }) + square + (match promotion {
            Some(p) => seq![61u8, piece_letter_of(p)],
            None => Seq::<u8>::empty(),
        }),
        HalfMoveV::KingsideCastling => kingside_seq(),
        HalfMoveV::QueensideCastling => queenside_seq(),
        HalfMoveV::NoMove => Seq::<u8>::empty(),
    }
}

/// The bytes of `v` appended to `out`.
fn push_all(out: &mut Vec<u8>, v: &[u8])
    ensures
        final(out)@ == old(out)@ + v@,
{
    let n = v.len();
    let mut j: usize = 0;
    while j < n
        invariant
            0 <= j <= n,
            n == v@.len(),
            out@ == old(out)@ + v@.subrange(0, j as int),
        decreases n - j,
    {
        out.push(v[j]);
        j = j + 1;
        proof {
            assert(old(out)@ + v@.subrange(0, j as int) =~= (old(out)@ + v@.subrange(
                0,
                j as int - 1,
            )).push(v@[j as int - 1]));
        }
    }
    proof {
        assert(v@.subrange(0, n as int) =~= v@);
    }
}

/// The notation letter for a piece.
fn piece_letter(p: Piece) -> (r: u8)
    ensures
        r == piece_letter_of(p),
{
    match p {
        Piece::King => 75,
        Piece::Queen => 81,
        Piece::Bishop => 66,
        Piece::Knight => 78,
        Piece::Rook => 82,
        Piece::Pawn => 80,
    }
}

/// The minimal token that writes a half-move back down; exactly the
/// bytes `san_of` names.
pub fn to_san(m: &HalfMove) -> (r: Vec<u8>)
    ensures
        r@ == san_of(m@),
{
    let mut out: Vec<u8> = Vec::new();
    match m {
        HalfMove::Regular { piece, capture, col_from, row_from, square, promotion } => {
            if *piece != Piece::Pawn {
                out.push(piece_letter(*piece));
            }
            match col_from {
                Some(v) => push_all(&mut out, v.as_slice()),
                None => {},
            }
            match row_from {
                Some(v) => push_all(&mut out, v.as_slice()),
                None => {},
            }
            if *capture {
                out.push(120);
            }
            push_all(&mut out, square.as_slice());
            match promotion {
                Some(p) => {
                    out.push(61);
                    out.push(piece_letter(*p));
                },
                None => {},
            }
            proof {
                assert(out@ =~= san_of(m@));
            }
        },
        HalfMove::KingsideCastling => {
            out.push(79);
            out.push(45);
            out.push(79);
            proof {
                assert(out@ =~= san_of(m@));
            }
        },
        HalfMove::QueensideCastling => {
            out.push(79);
            out.push(45);
            out.push(79);
            out.push(45);
            out.push(79);
            proof {
                assert(out@ =~= san_of(m@));
            }
        },
        HalfMove::NoMove => {
            proof {
                assert(out@ =~= san_of(m@));
            }
        },
    }
    out
}

/// Whether a character is a file letter `a` through `h`.
fn is_file_char(c: u8) -> (r: bool)
    ensures
        r == is_file(c),
{
    97 <= c && c <= 104
}

/// Whether a character is a rank digit `1` through `8`.
fn is_rank_char(c: u8) -> (r: bool)
    ensures
        r == is_rank(c),
{
    49 <= c && c <= 56
}

/// Whether a character is a promotion piece letter.
fn is_promo_char(c: u8) -> (r: bool)
    ensures
        r == is_promo_letter(c),
{
    c == 81 || c == 66 || c == 78 || c == 82
}

/// Whether a character is a piece letter.
fn is_piece_char(c: u8) -> (r: bool)
    ensures
        r == is_piece_letter(c),
{
    c == 75 || c == 81 || c == 66 || c == 78 || c == 82
}

/// The piece a notation letter names.
fn piece_from_byte(c: u8) -> (r: Piece)
    ensures
        r == piece_of_byte(c),
{
    if c == 75 {
        Piece::King
    } else if c == 81 {
        Piece::Queen
    } else if c == 66 {
        Piece::Bishop
    } else if c == 78 {
        Piece::Knight
    } else {
        Piece::Rook
    }
}

/// The matcher for a plain pawn move. It accepts exactly the tokens of
/// `pawn_move_shape` and consumes exactly the isolated token; a failure
/// consumes nothing.
pub fn pawn_move(input: &[u8], pos: usize) -> (r: Option<(HalfMove, usize)>)
    requires
        pos <= input@.len(),
    ensures
        match r {
            Some(m) => pawn_move_shape(token_at(input@, pos as int)) && m.0@ == pawn_move_value(
                token_at(input@, pos as int),
            ) && m.1 == token_end_spec(input@, pos as int),
            None => !pawn_move_shape(token_at(input@, pos as int)),
        },
{
    proof {
        lemma_token_end(input@, pos as int);
    }
    let end = token_end(input, pos);
    let ghost t = token_at(input@, pos as int);
    let core_end = if end > pos && (input[end - 1] == 43 || input[end - 1] == 35) {
        end - 1
    } else {
        end
    };
    proof {
        assert(strip_check(t) =~= input@.subrange(pos as int, core_end as int));
    }
    let m = core_end - pos;
    if m == 2 && is_file_char(input[pos]) && is_rank_char(input[pos + 1]) {
        let mut sq: Vec<u8> = Vec::new();
        sq.push(input[pos]);
        sq.push(input[pos + 1]);
        proof {
            assert(sq@ =~= strip_check(t).subrange(0, 2));
        }
        Some(
            (
                HalfMove::Regular {
                    piece: Piece::Pawn,
                    capture: false,
                    col_from: None,
                    row_from: None,
                    square: sq,
                    promotion: None,
                },
                end,
            ),
        )
    } else if m == 4 && is_file_char(input[pos]) && is_rank_char(input[pos + 1]) && input[pos + 2]
        == 61 && is_promo_char(input[pos + 3]) {
        let mut sq: Vec<u8> = Vec::new();
        sq.push(input[pos]);
        sq.push(input[pos + 1]);
        proof {
            assert(sq@ =~= strip_check(t).subrange(0, 2));
        }
        Some(
            (
                HalfMove::Regular {
                    piece: Piece::Pawn,
                    capture: false,
                    col_from: None,
                    row_from: None,
                    square: sq,
                    promotion: Some(piece_from_byte(input[pos + 3])),
                },
                end,
            ),
        )
    } else {
        None
    }
}

/// The matcher for a pawn capture. It accepts exactly the tokens of
/// `pawn_capture_shape` and consumes exactly the isolated token.
pub fn pawn_capture(input: &[u8], pos: usize) -> (r: Option<(HalfMove, usize)>)
    requires
        pos <= input@.len(),
    ensures
        match r {
            Some(m) => pawn_capture_shape(token_at(input@, pos as int)) && m.0@
                == pawn_capture_value(token_at(input@, pos as int)) && m.1 == token_end_spec(
                input@,
                pos as int,
            ),
            None => !pawn_capture_shape(token_at(input@, pos as int)),
        },
{
    proof {
        lemma_token_end(input@, pos as int);
    }
    let end = token_end(input, pos);
    let ghost t = token_at(input@, pos as int);
    let core_end = if end > pos && (input[end - 1] == 43 || input[end - 1] == 35) {
        end - 1
    } else {
        end
    };
    proof {
        assert(strip_check(t) =~= input@.subrange(pos as int, core_end as int));
    }
    let m = core_end - pos;
    if (m == 4 || m == 6) && is_file_char(input[pos]) && input[pos + 1] == 120 && is_file_char(
        input[pos + 2],
    ) && is_rank_char(input[pos + 3]) {
        if m == 4 || (input[pos + 4] == 61 && is_promo_char(input[pos + 5])) {
            let mut col: Vec<u8> = Vec::new();
            col.push(input[pos]);
            let mut sq: Vec<u8> = Vec::new();
            sq.push(input[pos + 2]);
            sq.push(input[pos + 3]);
            let promotion = if m == 6 {
                Some(piece_from_byte(input[pos + 5]))
            } else {
                None
            };
            proof {
                assert(col@ =~= strip_check(t).subrange(0, 1));
                assert(sq@ =~= strip_check(t).subrange(2, 4));
            }
            Some(
                (
                    HalfMove::Regular {
                        piece: Piece::Pawn,
                        capture: true,
                        col_from: Some(col),
                        row_from: None,
                        square: sq,
                        promotion,
                    },
                    end,
                ),
            )
        } else {
            None
        }
    } else {
        None
    }
}

/// The matcher for a piece move or capture. It accepts exactly the
/// tokens of `piece_move_shape` and consumes exactly the isolated
/// token.
pub fn piece_move(input: &[u8], pos: usize) -> (r: Option<(HalfMove, usize)>)
    requires
        pos <= input@.len(),
    ensures
        match r {
            Some(m) => piece_move_shape(token_at(input@, pos as int)) && m.0@ == piece_move_value(
                token_at(input@, pos as int),
            ) && m.1 == token_end_spec(input@, pos as int),
            None => !piece_move_shape(token_at(input@, pos as int)),
        },
{
    proof {
        lemma_token_end(input@, pos as int);
    }
    let end = token_end(input, pos);
    let ghost t = token_at(input@, pos as int);
    let core_end = if end > pos && (input[end - 1] == 43 || input[end - 1] == 35) {
        end - 1
    } else {
        end
    };
    proof {
        assert(strip_check(t) =~= input@.subrange(pos as int, core_end as int));
    }
    let ghost c = strip_check(t);
    let m = core_end - pos;
    if m < 3 || m > 6 {
        return None;
    }
    if !is_piece_char(input[pos]) {
        return None;
    }
    if !(is_file_char(input[core_end - 2]) && is_rank_char(input[core_end - 1])) {
        return None;
    }
    let ghost mid = c.subrange(1, c.len() - 2);
    proof {
        assert(c.len() == m);
        assert(mid.len() == m - 3);
        assert(forall|k: int| 0 <= k < mid.len() ==> mid[k] == input@[pos + 1 + k]);
        assert(c[0] == input@[pos as int]);
        assert(c[c.len() - 2] == input@[core_end - 2]);
        assert(c[c.len() - 1] == input@[core_end - 1]);
    }
    let midlen = m - 3;
    let mut capture = false;
    let mut col: Option<Vec<u8>> = None;
    let mut row: Option<Vec<u8>> = None;
    let ok: bool;
    if midlen == 0 {
        ok = true;
    } else if midlen == 1 {
        let c1 = input[pos + 1];
        if is_file_char(c1) {
            let mut v: Vec<u8> = Vec::new();
            v.push(c1);
            proof {
                assert(v@ =~= mid.subrange(0, 1));
            }
            col = Some(v);
            ok = true;
        } else if is_rank_char(c1) {
            let mut v: Vec<u8> = Vec::new();
            v.push(c1);
            proof {
                assert(v@ =~= mid.subrange(0, 1));
            }
            row = Some(v);
            ok = true;
        } else if c1 == 120 {
            capture = true;
            ok = true;
        } else {
            ok = false;
        }
    } else if midlen == 2 {
        let c1 = input[pos + 1];
        let c2 = input[pos + 2];
        if is_file_char(c1) && is_rank_char(c2) {
            let mut v: Vec<u8> = Vec::new();
            v.push(c1);
            proof {
                assert(v@ =~= mid.subrange(0, 1));
            }
            col = Some(v);
            let mut w: Vec<u8> = Vec::new();
            w.push(c2);
            proof {
                assert(w@ =~= mid.subrange(1, 2));
            }
            row = Some(w);
            ok = true;
        } else if is_file_char(c1) && c2 == 120 {
            let mut v: Vec<u8> = Vec::new();
            v.push(c1);
            proof {
                assert(v@ =~= mid.subrange(0, 1));
            }
            col = Some(v);
            capture = true;
            ok = true;
        } else if is_rank_char(c1) && c2 == 120 {
            let mut v: Vec<u8> = Vec::new();
            v.push(c1);
            proof {
                assert(v@ =~= mid.subrange(0, 1));
            }
            row = Some(v);
            capture = true;
            ok = true;
        } else {
            ok = false;
        }
    } else {
        let c1 = input[pos + 1];
        let c2 = input[pos + 2];
        let c3 = input[pos + 3];
        if is_file_char(c1) && is_rank_char(c2) && c3 == 120 {
            let mut v: Vec<u8> = Vec::new();
            v.push(c1);
            proof {
                assert(v@ =~= mid.subrange(0, 1));
            }
            col = Some(v);
            let mut w: Vec<u8> = Vec::new();
            w.push(c2);
            proof {
                assert(w@ =~= mid.subrange(1, 2));
            }
            row = Some(w);
            capture = true;
            ok = true;
        } else {
            ok = false;
        }
    }
    if !ok {
        return None;
    }
    let mut sq: Vec<u8> = Vec::new();
    sq.push(input[core_end - 2]);
    sq.push(input[core_end - 1]);
    proof {
        assert(sq@ =~= c.subrange(c.len() - 2, c.len() as int));
    }
    Some(
        (
            HalfMove::Regular {
                piece: piece_from_byte(input[pos]),
                capture,
                col_from: col,
                row_from: row,
                square: sq,
                promotion: None,
            },
            end,
        ),
    )
}

/// The half-move dispatcher: the shapes are tried in order — pawn
/// move, pawn capture, piece move, queenside castling, kingside
/// castling — and the first acceptance wins. `None` means no matcher
/// accepted the isolated token; nothing is consumed then.
pub fn san(input: &[u8], pos: usize) -> (r: Option<(HalfMove, usize)>)
    requires
        pos <= input@.len(),
    ensures
        match r {
            Some(m) => san_shape(token_at(input@, pos as int)) && m.0@ == san_value(
                token_at(input@, pos as int),
            ) && m.1 == token_end_spec(input@, pos as int),
            None => !san_shape(token_at(input@, pos as int)),
        },
{
    let ghost t = token_at(input@, pos as int);
    if let Some(m) = pawn_move(input, pos) {
        return Some(m);
    }
    if let Some(m) = pawn_capture(input, pos) {
        return Some(m);
    }
    if let Some(m) = piece_move(input, pos) {
        return Some(m);
    }
    proof {
        lemma_token_end(input@, pos as int);
        assert(queenside_seq().len() == 5);
        assert(kingside_seq().len() == 3);
    }
    let end = token_end(input, pos);
    let n = end - pos;
    if n == 5 && input[pos] == 79 && input[pos + 1] == 45 && input[pos + 2] == 79 && input[pos + 3]
        == 45 && input[pos + 4] == 79 {
        proof {
            assert(t =~= queenside_seq());
        }
        Some((HalfMove::QueensideCastling, end))
    } else if n == 3 && input[pos] == 79 && input[pos + 1] == 45 && input[pos + 2] == 79 {
        proof {
            assert(t =~= kingside_seq());
        }
        Some((HalfMove::KingsideCastling, end))
    } else {
        proof {
            assert(t.len() == n);
            if t == queenside_seq() {
                assert(t[0] == 79 && t[1] == 45 && t[2] == 79 && t[3] == 45 && t[4] == 79);
                assert(false);
            }
            if t == kingside_seq() {
                assert(t[0] == 79 && t[1] == 45 && t[2] == 79);
                assert(false);
            }
        }
        None
    }
}

} // verus!
