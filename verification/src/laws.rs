//! The general properties the library states of itself, each proved:
//! what the pawn-move matcher accepts and yields, why queenside
//! castling can never be read as kingside with a leftover, that every
//! dispatched half-move can be written back down, and that writing one
//! down and re-reading it is the identity.

use vstd::prelude::*;

use crate::game::GameOutcome;
use crate::game::GameV;
use crate::game::dedup_headers;
use crate::game::lemma_lookup_absent;
use crate::game::lemma_lookup_at;
use crate::game::lookup_header;
use crate::game::unique_keys;
use crate::game::upsert_header;
use crate::game::MovesOutcome;
use crate::game::PlyOutcome;
use crate::game::parse_game_spec;
use crate::game::parse_moves_spec;
use crate::game::parse_ply_spec;
use crate::game::ply_moves;
use crate::header::HeadersOutcome;
use crate::header::lemma_headers_next_in_range;
use crate::header::parse_headers_spec;
use crate::san::is_file;
use crate::san::is_rank;
use crate::san::kingside_seq;
use crate::san::mid_ok;
use crate::san::opt_seq;
use crate::san::pawn_capture_shape;
use crate::san::pawn_move_shape;
use crate::san::piece_letter_of;
use crate::san::piece_move_shape;
use crate::san::queenside_seq;
use crate::san::san_of;
use crate::san::san_shape;
use crate::san::san_value;
use crate::san::strip_check;
use crate::scan::digits_end_spec;
use crate::scan::lemma_digits_end;
use crate::scan::lemma_skip_ws;
use crate::scan::lemma_token_end;
use crate::scan::skip_ws_spec;
use crate::scan::token_at;
use crate::scan::token_end_spec;
use crate::types::HalfMoveV;
use crate::types::Piece;
use crate::types::is_piece_letter;
use crate::types::piece_of_byte;

verus! {

/// Every token of the pawn-move shape — a square `[a-h][1-8]` with an
/// optional `=[QBNR]` suffix — is accepted by the dispatcher as a pawn
/// move: a regular half-move of the pawn, no capture, no
/// disambiguators, the token's square as target, and the promotion
/// letter mapped through the piece table exactly where the suffix is
/// present.
pub proof fn lemma_pawn_move_accepted(t: Seq<u8>)
    requires
        pawn_move_shape(t),
    ensures
        san_shape(t),
        san_value(t) == (HalfMoveV::Regular {
            piece: Piece::Pawn,
            capture: false,
            col_from: None::<Seq<u8>>,
            row_from: None::<Seq<u8>>,
            square: strip_check(t).subrange(0, 2),
            promotion: if strip_check(t).len() == 4 {
                Some(piece_of_byte(strip_check(t)[3]))
            } else {
                None
            },
        }),
{
}

/// The queenside token `O-O-O` is dispatched as queenside castling and
/// consumed whole: it is never read as kingside castling with a
/// spurious leftover `-O`, because the queenside shape stands before
/// the kingside shape in the dispatch order and the dispatcher always
/// judges the whole isolated token.
pub proof fn lemma_queenside_never_kingside(t: Seq<u8>)
    requires
        t == queenside_seq(),
    ensures
        san_shape(t),
        san_value(t) == HalfMoveV::QueensideCastling,
{
    assert(t.len() == 5);
    assert(t[4] == 79);
    assert(strip_check(t) == t);
    assert(!pawn_move_shape(t));
    assert(!pawn_capture_shape(t));
    assert(!is_piece_letter(t[0]));
    assert(!piece_move_shape(t));
}

/// A half-move in the form the parser can produce: a real target
/// square; a promotion only on a pawn move and only to queen, bishop,
/// knight or rook; on a pawn capture exactly the origin file as
/// disambiguator, on a plain pawn move none, on a piece move any
/// combination of a valid file and a valid rank. The sentinel for an
/// absent half-move is not a move.
pub open spec fn wf_half_move(m: HalfMoveV) -> bool {
    match m {
        HalfMoveV::Regular { piece, capture, col_from, row_from, square, promotion } => square.len()
            == 2 && is_file(square[0]) && is_rank(square[1]) && (match promotion {
            Some(p) => piece == Piece::Pawn && (p == Piece::Queen || p == Piece::Bishop || p
                == Piece::Knight || p == Piece::Rook),
            None => true,
        }) && (if piece == Piece::Pawn {
            if capture {
                (match col_from {
                    Some(f) => f.len() == 1 && is_file(f[0]),
                    None => false,
                }) && row_from is None
            } else {
                col_from is None && row_from is None
            }
        } else {
            (match col_from {
                Some(f) => f.len() == 1 && is_file(f[0]),
                None => true,
            }) && (match row_from {
                Some(r) => r.len() == 1 && is_rank(r[0]),
                None => true,
            })
        }),
        HalfMoveV::KingsideCastling => true,
        HalfMoveV::QueensideCastling => true,
        HalfMoveV::NoMove => false,
    }
}

/// Whatever token the dispatcher accepts, the half-move it yields is
/// well-formed: re-serialization is never stuck on a parsed move.
pub proof fn lemma_san_value_wf(t: Seq<u8>)
    requires
        san_shape(t),
    ensures
        wf_half_move(san_value(t)),
{
    let c = strip_check(t);
    if pawn_move_shape(t) {
    } else if pawn_capture_shape(t) {
    } else if piece_move_shape(t) {
        let m = c.subrange(1, c.len() - 2);
        assert(is_piece_letter(c[0]));
        assert(piece_of_byte(c[0]) != Piece::Pawn);
    } else {
    }
}

/// Writing a well-formed half-move back down as its minimal token and
/// dispatching that token yields the very same half-move: the core of
/// the serialize-then-reparse round trip, for every half-move the
/// parser can produce.
#[verifier::rlimit(100)]
pub proof fn lemma_san_round_trip(m: HalfMoveV)
    requires
        wf_half_move(m),
    ensures
        san_shape(san_of(m)),
        san_value(san_of(m)) == m,
{
    let t = san_of(m);
    match m {
        HalfMoveV::Regular { piece, capture, col_from, row_from, square, promotion } => {
            if piece == Piece::Pawn {
                if capture {
                    let f = opt_seq(col_from);
                    match promotion {
                        Some(p) => {
                            assert(t =~= seq![
                                f[0],
                                120u8,
                                square[0],
                                square[1],
                                61u8,
                                piece_letter_of(p),
                            ]);
                            assert(strip_check(t) == t);
                            assert(!pawn_move_shape(t));
                            assert(pawn_capture_shape(t));
                            assert(strip_check(t).subrange(0, 1) =~= f);
                            assert(strip_check(t).subrange(2, 4) =~= square);
                            assert(piece_of_byte(piece_letter_of(p)) == p);
                            assert(san_value(t) == m);
                        },
                        None => {
                            assert(t =~= seq![f[0], 120u8, square[0], square[1]]);
                            assert(strip_check(t) == t);
                            assert(!pawn_move_shape(t));
                            assert(pawn_capture_shape(t));
                            assert(strip_check(t).subrange(0, 1) =~= f);
                            assert(strip_check(t).subrange(2, 4) =~= square);
                            assert(san_value(t) == m);
                        },
                    }
                } else {
                    match promotion {
                        Some(p) => {
                            assert(t =~= seq![square[0], square[1], 61u8, piece_letter_of(p)]);
                            assert(strip_check(t) == t);
                            assert(pawn_move_shape(t));
                            assert(strip_check(t).subrange(0, 2) =~= square);
                            assert(piece_of_byte(piece_letter_of(p)) == p);
                            assert(san_value(t) == m);
                        },
                        None => {
                            assert(t =~= seq![square[0], square[1]]);
                            assert(strip_check(t) == t);
                            assert(pawn_move_shape(t));
                            assert(strip_check(t).subrange(0, 2) =~= square);
                            assert(san_value(t) == m);
                        },
                    }
                }
            } else {
                let pl = piece_letter_of(piece);
                assert(is_piece_letter(pl));
                assert(piece_of_byte(pl) == piece);
                assert(!is_file(pl));
                assert(promotion is None);
                match col_from {
                    Some(f) => {
                        match row_from {
                            Some(rr) => {
                                if capture {
                                    assert(t =~= seq![
                                        pl,
                                        f[0],
                                        rr[0],
                                        120u8,
                                        square[0],
                                        square[1],
                                    ]);
                                    assert(strip_check(t) == t);
                                    let mid = strip_check(t).subrange(1, 4);
                                    assert(mid =~= seq![f[0], rr[0], 120u8]);
                                    assert(mid_ok(mid));
                                    assert(piece_move_shape(t));
                                    assert(mid.subrange(0, 1) =~= f);
                                    assert(mid.subrange(1, 2) =~= rr);
                                    assert(strip_check(t).subrange(4, 6) =~= square);
                                    assert(san_value(t) == m);
                                } else {
                                    assert(t =~= seq![pl, f[0], rr[0], square[0], square[1]]);
                                    assert(strip_check(t) == t);
                                    let mid = strip_check(t).subrange(1, 3);
                                    assert(mid =~= seq![f[0], rr[0]]);
                                    assert(mid_ok(mid));
                                    assert(piece_move_shape(t));
                                    assert(mid.subrange(0, 1) =~= f);
                                    assert(mid.subrange(1, 2) =~= rr);
                                    assert(strip_check(t).subrange(3, 5) =~= square);
                                    assert(san_value(t) == m);
                                }
                            },
                            None => {
                                if capture {
                                    assert(t =~= seq![pl, f[0], 120u8, square[0], square[1]]);
                                    assert(strip_check(t) == t);
                                    let mid = strip_check(t).subrange(1, 3);
                                    assert(mid =~= seq![f[0], 120u8]);
                                    assert(mid_ok(mid));
                                    assert(piece_move_shape(t));
                                    assert(mid.subrange(0, 1) =~= f);
                                    assert(strip_check(t).subrange(3, 5) =~= square);
                                    assert(san_value(t) == m);
                                } else {
                                    assert(t =~= seq![pl, f[0], square[0], square[1]]);
                                    assert(strip_check(t) == t);
                                    let mid = strip_check(t).subrange(1, 2);
                                    assert(mid =~= seq![f[0]]);
                                    assert(mid_ok(mid));
                                    assert(piece_move_shape(t));
                                    assert(mid.subrange(0, 1) =~= f);
                                    assert(strip_check(t).subrange(2, 4) =~= square);
                                    assert(san_value(t) == m);
                                }
                            },
                        }
                    },
                    None => {
                        match row_from {
                            Some(rr) => {
                                if capture {
                                    assert(t =~= seq![pl, rr[0], 120u8, square[0], square[1]]);
                                    assert(strip_check(t) == t);
                                    let mid = strip_check(t).subrange(1, 3);
                                    assert(mid =~= seq![rr[0], 120u8]);
                                    assert(mid_ok(mid));
                                    assert(piece_move_shape(t));
                                    assert(!is_file(rr[0]));
                                    assert(mid.subrange(0, 1) =~= rr);
                                    assert(strip_check(t).subrange(3, 5) =~= square);
                                    assert(san_value(t) == m);
                                } else {
                                    assert(t =~= seq![pl, rr[0], square[0], square[1]]);
                                    assert(strip_check(t) == t);
                                    let mid = strip_check(t).subrange(1, 2);
                                    assert(mid =~= seq![rr[0]]);
                                    assert(mid_ok(mid));
                                    assert(piece_move_shape(t));
                                    assert(!is_file(rr[0]));
                                    assert(mid.subrange(0, 1) =~= rr);
                                    assert(strip_check(t).subrange(2, 4) =~= square);
                                    assert(san_value(t) == m);
                                }
                            },
                            None => {
                                if capture {
                                    assert(t =~= seq![pl, 120u8, square[0], square[1]]);
                                    assert(strip_check(t) == t);
                                    let mid = strip_check(t).subrange(1, 2);
                                    assert(mid =~= seq![120u8]);
                                    assert(mid_ok(mid));
                                    assert(piece_move_shape(t));
                                    assert(!is_file(120u8) && !is_rank(120u8));
                                    assert(strip_check(t).subrange(2, 4) =~= square);
                                    assert(san_value(t) == m);
                                } else {
                                    assert(t =~= seq![pl, square[0], square[1]]);
                                    assert(strip_check(t) == t);
                                    let mid = strip_check(t).subrange(1, 1);
                                    assert(mid =~= Seq::<u8>::empty());
                                    assert(mid_ok(mid));
                                    assert(piece_move_shape(t));
                                    assert(strip_check(t).subrange(1, 3) =~= square);
                                    assert(san_value(t) == m);
                                }
                            },
                        }
                    },
                }
            }
        },
        HalfMoveV::KingsideCastling => {
            assert(t == kingside_seq());
            assert(t.len() == 3);
            assert(t[0] == 79);
            assert(strip_check(t) == t);
            assert(!pawn_move_shape(t));
            assert(!pawn_capture_shape(t));
            assert(!is_piece_letter(t[0]));
            assert(!piece_move_shape(t));
            assert(queenside_seq().len() == 5);
            assert(t != queenside_seq());
            assert(san_value(t) == m);
        },
        HalfMoveV::QueensideCastling => {
            lemma_queenside_never_kingside(t);
        },
        HalfMoveV::NoMove => {
            assert(false);
        },
    }
}

/// The value the last entry carrying a key wrote, if any entry does.
pub open spec fn last_value(es: Seq<(Seq<u8>, Seq<u8>)>, key: Seq<u8>) -> Option<Seq<u8>>
    decreases es.len(),
{
    if es.len() == 0 {
        None
    } else if es.last().0 == key {
        Some(es.last().1)
    } else {
        last_value(es.drop_last(), key)
    }
}

/// Writing an entry into a mapping with unique keys keeps the keys
/// unique.
pub proof fn lemma_upsert_unique(hs: Seq<(Seq<u8>, Seq<u8>)>, e: (Seq<u8>, Seq<u8>))
    requires
        unique_keys(hs),
    ensures
        unique_keys(upsert_header(hs, e)),
{
    if exists|k: int| 0 <= k < hs.len() && hs[k].0 == e.0 {
        let w = choose|k: int| 0 <= k < hs.len() && hs[k].0 == e.0;
        let nv = hs.update(w, e);
        assert forall|a: int, b: int| 0 <= a < b < nv.len() implies nv[a].0 != nv[b].0 by {
            if a == w {
                assert(nv[a].0 == hs[w].0);
            } else if b == w {
                assert(nv[b].0 == hs[w].0);
            }
        }
    } else {
        let nv = hs.push(e);
        assert forall|a: int, b: int| 0 <= a < b < nv.len() implies nv[a].0 != nv[b].0 by {
            if b == hs.len() {
                assert(nv[b] == e);
                assert(nv[a] == hs[a]);
            }
        }
    }
}

/// What a lookup sees after one write: the written value under the
/// written key, everything else unchanged.
pub proof fn lemma_upsert_lookup(hs: Seq<(Seq<u8>, Seq<u8>)>, e: (Seq<u8>, Seq<u8>), key: Seq<u8>)
    requires
        unique_keys(hs),
    ensures
        lookup_header(upsert_header(hs, e), key) == (if key == e.0 {
            Some(e.1)
        } else {
            lookup_header(hs, key)
        }),
{
    if exists|k: int| 0 <= k < hs.len() && hs[k].0 == e.0 {
        let w = choose|k: int| 0 <= k < hs.len() && hs[k].0 == e.0;
        let nv = hs.update(w, e);
        if key == e.0 {
            assert forall|j: int| 0 <= j < w implies nv[j].0 != key by {
                assert(nv[j].0 == hs[j].0);
                assert(hs[j].0 != hs[w].0);
            }
            lemma_lookup_at(nv, key, w);
        } else {
            if exists|j: int| 0 <= j < hs.len() && hs[j].0 == key {
                let m = choose|j: int| 0 <= j < hs.len() && hs[j].0 == key;
                assert(m != w);
                assert forall|j: int| 0 <= j < m implies hs[j].0 != key by {
                    assert(hs[j].0 != hs[m].0);
                }
                lemma_lookup_at(hs, key, m);
                assert(nv[m] == hs[m]);
                assert forall|j: int| 0 <= j < m implies nv[j].0 != key by {
                    if j == w {
                        assert(nv[j].0 == e.0);
                    } else {
                        assert(nv[j].0 == hs[j].0);
                        assert(hs[j].0 != hs[m].0);
                    }
                }
                lemma_lookup_at(nv, key, m);
            } else {
                lemma_lookup_absent(hs, key);
                assert forall|j: int| 0 <= j < nv.len() implies nv[j].0 != key by {
                    if j == w {
                        assert(nv[j].0 == e.0);
                    } else {
                        assert(nv[j] == hs[j]);
                    }
                }
                lemma_lookup_absent(nv, key);
            }
        }
    } else {
        let nv = hs.push(e);
        if key == e.0 {
            assert forall|j: int| 0 <= j < hs.len() implies nv[j].0 != key by {
                assert(nv[j] == hs[j]);
            }
            assert(nv[hs.len() as int] == e);
            lemma_lookup_at(nv, key, hs.len() as int);
        } else {
            if exists|j: int| 0 <= j < hs.len() && hs[j].0 == key {
                let m = choose|j: int| 0 <= j < hs.len() && hs[j].0 == key;
                assert forall|j: int| 0 <= j < m implies hs[j].0 != key by {
                    assert(hs[j].0 != hs[m].0);
                }
                lemma_lookup_at(hs, key, m);
                assert(nv[m] == hs[m]);
                assert forall|j: int| 0 <= j < m implies nv[j].0 != key by {
                    assert(nv[j] == hs[j]);
                }
                lemma_lookup_at(nv, key, m);
            } else {
                lemma_lookup_absent(hs, key);
                assert forall|j: int| 0 <= j < nv.len() implies nv[j].0 != key by {
                    if j < hs.len() {
                        assert(nv[j] == hs[j]);
                    } else {
                        assert(nv[j] == e);
                    }
                }
                lemma_lookup_absent(nv, key);
            }
        }
    }
}

/// Folding header entries into the mapping leaves its keys unique.
pub proof fn lemma_dedup_unique(es: Seq<(Seq<u8>, Seq<u8>)>)
    ensures
        unique_keys(dedup_headers(es)),
    decreases es.len(),
{
    if es.len() > 0 {
        lemma_dedup_unique(es.drop_last());
        lemma_upsert_unique(dedup_headers(es.drop_last()), es.last());
    }
}

/// Of a repeated header key the last entry wins: looking a key up in
/// the folded mapping answers with the last value written under it.
pub proof fn lemma_last_write_wins(es: Seq<(Seq<u8>, Seq<u8>)>, key: Seq<u8>)
    ensures
        lookup_header(dedup_headers(es), key) == last_value(es, key),
    decreases es.len(),
{
    if es.len() == 0 {
    } else {
        lemma_dedup_unique(es.drop_last());
        lemma_upsert_lookup(dedup_headers(es.drop_last()), es.last(), key);
        lemma_last_write_wins(es.drop_last(), key);
    }
}

/// The half-moves a move-list outcome carries: none where it failed.
pub open spec fn moves_of(o: MovesOutcome) -> Seq<HalfMoveV> {
    match o {
        MovesOutcome::Parsed { moves, .. } => moves,
        MovesOutcome::Failed { .. } => seq![],
    }
}

/// Every half-move a parsed move list carries is well-formed: each one
/// came out of the dispatcher, and whatever the dispatcher accepts is
/// well-formed.
pub proof fn lemma_parsed_moves_wf(s: Seq<u8>, i: int)
    requires
        0 <= i <= s.len(),
    ensures
        forall|k: int|
            0 <= k < moves_of(parse_moves_spec(s, i)).len() ==> wf_half_move(
                moves_of(parse_moves_spec(s, i))[k],
            ),
    decreases s.len() - i,
{
    let j = skip_ws_spec(s, i);
    lemma_skip_ws(s, i);
    match parse_ply_spec(s, j) {
        PlyOutcome::NotPly => {},
        PlyOutcome::Failed { .. } => {},
        PlyOutcome::Ply { white, black, next } => {
            let d = digits_end_spec(s, j);
            lemma_digits_end(s, j);
            assert(d != j && d < s.len() && s[d] == 46);
            let w0 = skip_ws_spec(s, d + 1);
            lemma_skip_ws(s, d + 1);
            assert(w0 < s.len());
            let wt = token_at(s, w0);
            assert(san_shape(wt));
            lemma_san_value_wf(wt);
            assert(white == san_value(wt));
            let w1 = token_end_spec(s, w0);
            lemma_token_end(s, w0);
            assert(w1 > w0);
            let b0 = skip_ws_spec(s, w1);
            lemma_skip_ws(s, w1);
            if b0 < s.len() && san_shape(token_at(s, b0)) {
                lemma_san_value_wf(token_at(s, b0));
                lemma_token_end(s, b0);
                assert(next == token_end_spec(s, b0));
                assert(black == san_value(token_at(s, b0)));
                assert(black != HalfMoveV::NoMove);
            } else {
                assert(black == HalfMoveV::NoMove);
                assert(next == w1);
            }
            assert(i < next <= s.len());
            lemma_parsed_moves_wf(s, next);
            match parse_moves_spec(s, next) {
                MovesOutcome::Failed { .. } => {},
                MovesOutcome::Parsed { moves: rest, .. } => {
                    let front = ply_moves(white, black);
                    let all = moves_of(parse_moves_spec(s, i));
                    assert(all == front + rest);
                    assert(wf_half_move(white));
                    if black == HalfMoveV::NoMove {
                        assert(front =~= seq![white]);
                    } else {
                        assert(wf_half_move(black));
                        assert(front =~= seq![white, black]);
                    }
                    assert forall|k: int| 0 <= k < all.len() implies wf_half_move(all[k]) by {
                        if k < front.len() {
                            assert(all[k] == front[k]);
                        } else {
                            assert(all[k] == rest[k - front.len()]);
                            assert(moves_of(parse_moves_spec(s, next)) == rest);
                            assert(wf_half_move(moves_of(parse_moves_spec(s, next))[k - front.len()]));
                        }
                    }
                },
            }
        },
    }
}

/// Parsing a transcript, writing every half-move of the record back
/// down as its minimal token, and dispatching each token again yields
/// the very same move sequence: the serialize-then-reparse round trip,
/// for every game the parser produces.
pub proof fn lemma_game_moves_round_trip(s: Seq<u8>, g: GameV)
    requires
        parse_game_spec(s) == (GameOutcome::Parsed { game: g }),
    ensures
        forall|k: int| 0 <= k < g.moves.len() ==> wf_half_move(g.moves[k]),
        forall|k: int|
            0 <= k < g.moves.len() ==> san_shape(san_of(g.moves[k])) && san_value(
                san_of(g.moves[k]),
            ) == g.moves[k],
{
    match parse_headers_spec(s, 0) {
        HeadersOutcome::Failed { .. } => {
            assert(false);
        },
        HeadersOutcome::Parsed { next, .. } => {
            lemma_headers_next_in_range(s, 0);
            lemma_parsed_moves_wf(s, next);
            match parse_moves_spec(s, next) {
                MovesOutcome::Failed { .. } => {
                    assert(false);
                },
                MovesOutcome::Parsed { moves, .. } => {
                    assert(g.moves == moves);
                    assert(moves == moves_of(parse_moves_spec(s, next)));
                    assert forall|k: int|
                        0 <= k < g.moves.len() implies wf_half_move(g.moves[k]) by {
                        assert(g.moves[k] == moves_of(parse_moves_spec(s, next))[k]);
                    }
                    assert forall|k: int|
                        0 <= k < g.moves.len() implies san_shape(san_of(g.moves[k])) && san_value(
                        san_of(g.moves[k]),
                    ) == g.moves[k] by {
                        lemma_san_round_trip(g.moves[k]);
                    }
                },
            }
        },
    }
}

} // verus!
