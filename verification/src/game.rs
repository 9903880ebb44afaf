//! The ply parser, the move-list parser, the result matcher, and the
//! top-level game parser that sequences header block, move list and
//! result token into one record.

use vstd::prelude::*;
use vstd::string::StringSliceAdditionalSpecFns;

use crate::header::HeadersOutcome;
use crate::header::headers;
use crate::header::pairs_view;
use crate::header::parse_headers_spec;
use crate::san::san;
use crate::san::san_shape;
use crate::san::san_value;
use crate::scan::bytes_eq;
use crate::scan::copy_range;
use crate::scan::digits_end;
use crate::scan::digits_end_spec;
use crate::scan::is_ws;
use crate::scan::lemma_skip_ws;
use crate::scan::lemma_token_end;
use crate::scan::lemma_digits_end_ge;
use crate::scan::lemma_skip_ws_ge;
use crate::scan::lemma_token_end_ge;
use crate::scan::skip_ws;
use crate::scan::skip_ws_spec;
use crate::scan::token_end;
use crate::scan::token_at;
use crate::scan::token_end_spec;
use crate::types::GameResult;
use crate::types::HalfMove;
use crate::types::HalfMoveV;
use crate::types::ParseError;
use crate::types::ParseErrorV;

verus! {

/// What one attempt at a ply yields: a white half-move with an
/// optional black one and the position after them; or the finding that
/// no ply starts here, which ends the move list without failing; or a
/// failure inside a committed ply.
pub ghost enum PlyOutcome {
    Ply { white: HalfMoveV, black: HalfMoveV, next: int },
    NotPly,
    Failed { err: ParseErrorV },
}

/// One ply from position `i`: a run of move-number digits, a literal
/// `.`, optional whitespace, a mandatory half-move, and an optional
/// second half-move. Input that does not open with digits and a dot is
/// not a ply — the result token, among other things, is judged
/// elsewhere. Once the dot commits the ply, a token no matcher accepts
/// is a `MalformedMove` carrying that token and its offset, and input
/// that ends where the first half-move was owed is `IncompleteInput`.
/// The move number itself is not retained: moves are ordered by their
/// position in the finished record.
pub open spec fn parse_ply_spec(s: Seq<u8>, i: int) -> PlyOutcome {
    let d = digits_end_spec(s, i);
    if d == i || d >= s.len() || s[d] != 46 {
        PlyOutcome::NotPly
    } else {
        let w0 = skip_ws_spec(s, d + 1);
        if w0 >= s.len() {
            PlyOutcome::Failed { err: ParseErrorV::IncompleteInput { offset: w0 } }
        } else {
            let wt = token_at(s, w0);
            if !san_shape(wt) {
                PlyOutcome::Failed { err: ParseErrorV::MalformedMove { offset: w0, token: wt } }
            } else {
                let w1 = token_end_spec(s, w0);
                let b0 = skip_ws_spec(s, w1);
                if b0 < s.len() && san_shape(token_at(s, b0)) {
                    PlyOutcome::Ply {
                        white: san_value(wt),
                        black: san_value(token_at(s, b0)),
                        next: token_end_spec(s, b0),
                    }
                } else {
                    PlyOutcome::Ply {
                        white: san_value(wt),
                        black: HalfMoveV::NoMove,
                        next: w1,
                    }
                }
            }
        }
    }
}

/// What one attempt at a ply yields, as owned values. The sentinel
/// `HalfMove::NoMove` stands for an absent black half.
#[derive(Debug)]
pub enum PlyResult {
    Ply { white: HalfMove, black: HalfMove, next: usize },
    NotPly,
    Failed { err: ParseError },
}

impl View for PlyResult {
    type V = PlyOutcome;

    open spec fn view(&self) -> PlyOutcome {
        match self {
            PlyResult::Ply { white, black, next } => PlyOutcome::Ply {
                white: white@,
                black: black@,
                next: *next as int,
            },
            PlyResult::NotPly => PlyOutcome::NotPly,
            PlyResult::Failed { err } => PlyOutcome::Failed { err: err@ },
        }
    }
}

/// One ply, parsed from `pos`; the result is exactly what
/// `parse_ply_spec` names there.
pub fn mve(input: &[u8], pos: usize) -> (r: PlyResult)
    requires
        pos <= input@.len(),
    ensures
        r@ == parse_ply_spec(input@, pos as int),
        match r {
            PlyResult::Ply { next, .. } => pos < next <= input@.len(),
            _ => true,
        },
{
    let n = input.len();
    let d = digits_end(input, pos);
    if d == pos || d == n || input[d] != 46 {
        return PlyResult::NotPly;
    }
    let w0 = skip_ws(input, d + 1);
    if w0 == n {
        return PlyResult::Failed { err: ParseError::IncompleteInput { offset: w0 } };
    }
    match san(input, w0) {
        None => {
            let w1 = token_end(input, w0);
            let tok = copy_range(input, w0, w1);
            PlyResult::Failed { err: ParseError::MalformedMove { offset: w0, token: tok } }
        },
        Some((white, w1)) => {
            proof {
                lemma_skip_ws(input@, d + 1);
                lemma_token_end(input@, w0 as int);
                assert(!is_ws(input@[w0 as int]));
                assert(w1 > w0);
            }
            let b0 = skip_ws(input, w1);
            if b0 < n {
                match san(input, b0) {
                    Some((black, b1)) => {
                        proof {
                            lemma_skip_ws(input@, w1 as int);
                            lemma_token_end(input@, b0 as int);
                            assert(!is_ws(input@[b0 as int]));
                            assert(b1 > b0);
                        }
                        PlyResult::Ply { white, black, next: b1 }
                    },
                    None => PlyResult::Ply { white, black: HalfMove::NoMove, next: w1 },
                }
            } else {
                PlyResult::Ply { white, black: HalfMove::NoMove, next: w1 }
            }
        },
    }
}

/// What a whole move list yields: the flattened half-moves in order
/// with the position after the list, or the failure of the first
/// broken ply.
pub ghost enum MovesOutcome {
    Parsed { moves: Seq<HalfMoveV>, next: int },
    Failed { err: ParseErrorV },
}

/// The half-moves one ply contributes: the white half always, the
/// black half only where it exists.
pub open spec fn ply_moves(white: HalfMoveV, black: HalfMoveV) -> Seq<HalfMoveV> {
    if black == HalfMoveV::NoMove {
        seq![white]
    } else {
        seq![white, black]
    }
}

/// The move list from position `i`: plies are taken, each after
/// optional whitespace, for as long as one starts; zero plies are
/// valid. The sentinel for an absent black half never enters the
/// flattened sequence.
pub open spec fn parse_moves_spec(s: Seq<u8>, i: int) -> MovesOutcome
    decreases s.len() - i,
    via parse_moves_spec_dec
{
    let j = skip_ws_spec(s, i);
    match parse_ply_spec(s, j) {
        PlyOutcome::NotPly => MovesOutcome::Parsed { moves: seq![], next: j },
        PlyOutcome::Failed { err } => MovesOutcome::Failed { err },
        PlyOutcome::Ply { white, black, next } => match parse_moves_spec(s, next) {
            MovesOutcome::Parsed { moves, next: rest_next } => MovesOutcome::Parsed {
                moves: ply_moves(white, black) + moves,
                next: rest_next,
            },
            MovesOutcome::Failed { err } => MovesOutcome::Failed { err },
        },
    }
}

#[via_fn]
proof fn parse_moves_spec_dec(s: Seq<u8>, i: int) {
    lemma_skip_ws_ge(s, i);
    let j = skip_ws_spec(s, i);
    let d = digits_end_spec(s, j);
    lemma_digits_end_ge(s, j);
    if !(d == j || d >= s.len() || s[d] != 46) {
        let w0 = skip_ws_spec(s, d + 1);
        lemma_skip_ws_ge(s, d + 1);
        if w0 < s.len() {
            let w1 = token_end_spec(s, w0);
            lemma_token_end_ge(s, w0);
            let b0 = skip_ws_spec(s, w1);
            lemma_skip_ws_ge(s, w1);
            lemma_token_end_ge(s, b0);
        }
    }
}

/// The outcome `o` with the half-moves `ms` put before its own.
pub open spec fn prepend_moves(ms: Seq<HalfMoveV>, o: MovesOutcome) -> MovesOutcome {
    match o {
        MovesOutcome::Parsed { moves, next } => MovesOutcome::Parsed { moves: ms + moves, next },
        MovesOutcome::Failed { err } => MovesOutcome::Failed { err },
    }
}

/// The half-move values a vector of owned half-moves stands for.
pub open spec fn moves_view(v: Seq<HalfMove>) -> Seq<HalfMoveV> {
    v.map_values(|m: HalfMove| m@)
}

/// The whole move list from `pos`: the flattened half-moves in order
/// and the position after the list, or the failure of the first broken
/// ply.
pub fn moves(input: &[u8], pos: usize) -> (r: Result<(Vec<HalfMove>, usize), ParseError>)
    requires
        pos <= input@.len(),
    ensures
        match r {
            Ok(p) => parse_moves_spec(input@, pos as int) == (MovesOutcome::Parsed {
                moves: moves_view(p.0@),
                next: p.1 as int,
            }) && p.1 <= input@.len(),
            Err(e) => parse_moves_spec(input@, pos as int) == (MovesOutcome::Failed { err: e@ }),
        },
{
    let ghost s = input@;
    let mut acc: Vec<HalfMove> = Vec::new();
    let mut cur = pos;
    loop
        invariant
            pos <= cur <= s.len(),
            s == input@,
            parse_moves_spec(s, pos as int) == prepend_moves(
                moves_view(acc@),
                parse_moves_spec(s, cur as int),
            ),
        decreases s.len() - cur,
    {
        let j = skip_ws(input, cur);
        let r = mve(input, j);
        match r {
            PlyResult::NotPly => {
                proof {
                    assert(parse_moves_spec(s, cur as int) == (MovesOutcome::Parsed {
                        moves: seq![],
                        next: j as int,
                    }));
                    assert(moves_view(acc@) + seq![] =~= moves_view(acc@));
                }
                return Ok((acc, j));
            },
            PlyResult::Failed { err } => {
                proof {
                    assert(parse_moves_spec(s, cur as int) == (MovesOutcome::Failed {
                        err: err@,
                    }));
                }
                return Err(err);
            },
            PlyResult::Ply { white, black, next } => {
                let ghost old_acc = acc@;
                let ghost wv = white@;
                let ghost bv = black@;
                acc.push(white);
                let black_is_absent = matches!(black, HalfMove::NoMove);
                if !black_is_absent {
                    acc.push(black);
                }
                proof {
                    assert(moves_view(acc@) =~= moves_view(old_acc) + ply_moves(wv, bv));
                    let inner = parse_moves_spec(s, next as int);
                    assert(parse_moves_spec(s, cur as int) == prepend_moves(
                        ply_moves(wv, bv),
                        inner,
                    ));
                    match inner {
                        MovesOutcome::Parsed { moves, next: rest_next } => {
                            assert((moves_view(old_acc) + ply_moves(wv, bv)) + moves =~= moves_view(
                                old_acc,
                            ) + (ply_moves(wv, bv) + moves));
                        },
                        MovesOutcome::Failed { err } => {},
                    }
                }
                cur = next;
            },
        }
    }
}

/// What the result matcher yields: one of the four results with the
/// position after its token, or a failure.
pub ghost enum ResultOutcome {
    Parsed { result: GameResult, next: int },
    Failed { err: ParseErrorV },
}

/// The literal `1-0` stands at `i`.
pub open spec fn white_won_at(s: Seq<u8>, i: int) -> bool {
    i + 3 <= s.len() && s[i] == 49 && s[i + 1] == 45 && s[i + 2] == 48
}

/// The literal `0-1` stands at `i`.
pub open spec fn black_won_at(s: Seq<u8>, i: int) -> bool {
    i + 3 <= s.len() && s[i] == 48 && s[i + 1] == 45 && s[i + 2] == 49
}

/// The literal `1/2-1/2` stands at `i`.
pub open spec fn draw_at(s: Seq<u8>, i: int) -> bool {
    i + 7 <= s.len() && s[i] == 49 && s[i + 1] == 47 && s[i + 2] == 50 && s[i + 3] == 45 && s[i + 4]
        == 49 && s[i + 5] == 47 && s[i + 6] == 50
}

/// The literal `*` stands at `i`.
pub open spec fn other_at(s: Seq<u8>, i: int) -> bool {
    i + 1 <= s.len() && s[i] == 42
}

/// The input from `i` to its end is a proper prefix of one of the four
/// result tokens: more bytes could still complete one.
pub open spec fn result_incomplete_at(s: Seq<u8>, i: int) -> bool {
    let r = s.len() - i;
    (r < 3 && (r < 1 || s[i] == 49) && (r < 2 || s[i + 1] == 45)) || (r < 3 && (r < 1 || s[i] == 48)
        && (r < 2 || s[i + 1] == 45)) || (r < 7 && (r < 1 || s[i] == 49) && (r < 2 || s[i + 1]
        == 47) && (r < 3 || s[i + 2] == 50) && (r < 4 || s[i + 3] == 45) && (r < 5 || s[i + 4]
        == 49) && (r < 6 || s[i + 5] == 47))
}

/// The result token at `i`: one of the four literals `1-0`, `0-1`,
/// `1/2-1/2`, `*`, matched as a prefix — what follows the token is not
/// this parser's business. Where no literal matches, an input that is
/// a proper prefix of one is `IncompleteInput`; anything else is
/// `MalformedResult`.
pub open spec fn parse_result_spec(s: Seq<u8>, i: int) -> ResultOutcome {
    if white_won_at(s, i) {
        ResultOutcome::Parsed { result: GameResult::WhiteWon, next: i + 3 }
    } else if black_won_at(s, i) {
        ResultOutcome::Parsed { result: GameResult::BlackWon, next: i + 3 }
    } else if draw_at(s, i) {
        ResultOutcome::Parsed { result: GameResult::Draw, next: i + 7 }
    } else if other_at(s, i) {
        ResultOutcome::Parsed { result: GameResult::Other, next: i + 1 }
    } else if result_incomplete_at(s, i) {
        ResultOutcome::Failed { err: ParseErrorV::IncompleteInput { offset: i } }
    } else {
        ResultOutcome::Failed { err: ParseErrorV::MalformedResult { offset: i } }
    }
}

/// The result token at `pos`; the result is exactly what
/// `parse_result_spec` names there.
pub fn result_token(input: &[u8], pos: usize) -> (r: Result<(GameResult, usize), ParseError>)
    requires
        pos <= input@.len(),
    ensures
        match r {
            Ok(p) => parse_result_spec(input@, pos as int) == (ResultOutcome::Parsed {
                result: p.0,
                next: p.1 as int,
            }) && p.1 <= input@.len(),
            Err(e) => parse_result_spec(input@, pos as int) == (ResultOutcome::Failed {
                err: e@,
            }),
        },
{
    let n = input.len();
    let rem = n - pos;
    if rem >= 3 && input[pos] == 49 && input[pos + 1] == 45 && input[pos + 2] == 48 {
        Ok((GameResult::WhiteWon, pos + 3))
    } else if rem >= 3 && input[pos] == 48 && input[pos + 1] == 45 && input[pos + 2] == 49 {
        Ok((GameResult::BlackWon, pos + 3))
    } else if rem >= 7 && input[pos] == 49 && input[pos + 1] == 47 && input[pos + 2] == 50
        && input[pos + 3] == 45 && input[pos + 4] == 49 && input[pos + 5] == 47 && input[pos + 6]
        == 50 {
        Ok((GameResult::Draw, pos + 7))
    } else if rem >= 1 && input[pos] == 42 {
        Ok((GameResult::Other, pos + 1))
    } else {
        let incomplete = (rem < 3 && (rem < 1 || input[pos] == 49) && (rem < 2 || input[pos + 1]
            == 45)) || (rem < 3 && (rem < 1 || input[pos] == 48) && (rem < 2 || input[pos + 1]
            == 45)) || (rem < 7 && (rem < 1 || input[pos] == 49) && (rem < 2 || input[pos + 1]
            == 47) && (rem < 3 || input[pos + 2] == 50) && (rem < 4 || input[pos + 3] == 45) && (
        rem < 5 || input[pos + 4] == 49) && (rem < 6 || input[pos + 5] == 47));
        if incomplete {
            Err(ParseError::IncompleteInput { offset: pos })
        } else {
            Err(ParseError::MalformedResult { offset: pos })
        }
    }
}

/// No two header entries share a key.
pub open spec fn unique_keys(hs: Seq<(Seq<u8>, Seq<u8>)>) -> bool {
    forall|a: int, b: int| 0 <= a < b < hs.len() ==> hs[a].0 != hs[b].0
}

/// The entry `e` written into the mapping `hs`: where its key is
/// already present the value there is overwritten, else the entry is
/// appended.
pub open spec fn upsert_header(
    hs: Seq<(Seq<u8>, Seq<u8>)>,
    e: (Seq<u8>, Seq<u8>),
) -> Seq<(Seq<u8>, Seq<u8>)> {
    if exists|k: int| 0 <= k < hs.len() && hs[k].0 == e.0 {
        hs.update(choose|k: int| 0 <= k < hs.len() && hs[k].0 == e.0, e)
    } else {
        hs.push(e)
    }
}

/// The header entries written into an initially empty mapping, in
/// order: keys are unique afterwards, and of a repeated key the last
/// entry wins.
pub open spec fn dedup_headers(es: Seq<(Seq<u8>, Seq<u8>)>) -> Seq<(Seq<u8>, Seq<u8>)>
    decreases es.len(),
{
    if es.len() == 0 {
        seq![]
    } else {
        upsert_header(dedup_headers(es.drop_last()), es.last())
    }
}

/// The value stored under a key, by the first entry carrying it.
pub open spec fn lookup_header(hs: Seq<(Seq<u8>, Seq<u8>)>, key: Seq<u8>) -> Option<Seq<u8>>
    decreases hs.len(),
{
    if hs.len() == 0 {
        None
    } else if hs[0].0 == key {
        Some(hs[0].1)
    } else {
        lookup_header(hs.drop_first(), key)
    }
}

/// A key found at position `k`, with no earlier entry carrying it, is
/// the one the lookup answers with.
pub proof fn lemma_lookup_at(hs: Seq<(Seq<u8>, Seq<u8>)>, key: Seq<u8>, k: int)
    requires
        0 <= k < hs.len(),
        hs[k].0 == key,
        forall|j: int| 0 <= j < k ==> hs[j].0 != key,
    ensures
        lookup_header(hs, key) == Some(hs[k].1),
    decreases k,
{
    if k > 0 {
        assert(hs.drop_first() =~= hs.subrange(1, hs.len() as int));
        assert(forall|j: int| 0 <= j < hs.drop_first().len() ==> hs.drop_first()[j] == hs[j + 1]);
        lemma_lookup_at(hs.drop_first(), key, k - 1);
    }
}

/// A key no entry carries, the lookup does not answer.
pub proof fn lemma_lookup_absent(hs: Seq<(Seq<u8>, Seq<u8>)>, key: Seq<u8>)
    requires
        forall|j: int| 0 <= j < hs.len() ==> hs[j].0 != key,
    ensures
        lookup_header(hs, key) is None,
    decreases hs.len(),
{
    if hs.len() > 0 {
        assert(forall|j: int| 0 <= j < hs.drop_first().len() ==> hs.drop_first()[j] == hs[j + 1]);
        lemma_lookup_absent(hs.drop_first(), key);
    }
}

/// The mathematical value of a parsed game.
pub ghost struct GameV {
    pub headers: Seq<(Seq<u8>, Seq<u8>)>,
    pub moves: Seq<HalfMoveV>,
    pub result: GameResult,
}

/// What a whole transcript yields: one complete game, or the failure
/// of the first broken construct.
pub ghost enum GameOutcome {
    Parsed { game: GameV },
    Failed { err: ParseErrorV },
}

/// The whole transcript: the header block, then the move list, then —
/// after optional whitespace — the result token. The first failure
/// aborts the parse; input beyond the result token is ignored.
pub open spec fn parse_game_spec(s: Seq<u8>) -> GameOutcome {
    match parse_headers_spec(s, 0) {
        HeadersOutcome::Failed { err } => GameOutcome::Failed { err },
        HeadersOutcome::Parsed { entries, next } => match parse_moves_spec(s, next) {
            MovesOutcome::Failed { err } => GameOutcome::Failed { err },
            MovesOutcome::Parsed { moves, next: after_moves } => {
                match parse_result_spec(s, skip_ws_spec(s, after_moves)) {
                    ResultOutcome::Failed { err } => GameOutcome::Failed { err },
                    ResultOutcome::Parsed { result, .. } => GameOutcome::Parsed {
                        game: GameV { headers: dedup_headers(entries), moves, result },
                    },
                }
            },
        },
    }
}

/// A parsed game: its header mapping with unique keys, its half-moves
/// in strict chronological order — even positions White, odd positions
/// Black — and its declared result.
#[derive(Clone, Debug)]
pub struct PGNGame {
    pub headers: Vec<(Vec<u8>, Vec<u8>)>,
    pub moves: Vec<HalfMove>,
    pub result: GameResult,
}

impl View for PGNGame {
    type V = GameV;

    open spec fn view(&self) -> GameV {
        GameV {
            headers: pairs_view(self.headers@),
            moves: moves_view(self.moves@),
            result: self.result,
        }
    }
}

/// The position of the first entry carrying the key, if any entry
/// does.
fn find_key(hs: &[(Vec<u8>, Vec<u8>)], key: &[u8]) -> (r: Option<usize>)
    ensures
        match r {
            Some(k) => k < hs@.len() && hs@[k as int].0@ == key@ && (forall|j: int|
                0 <= j < k ==> hs@[j].0@ != key@),
            None => forall|j: int| 0 <= j < hs@.len() ==> hs@[j].0@ != key@,
        },
{
    let n = hs.len();
    let mut k: usize = 0;
    while k < n
        invariant
            0 <= k <= n,
            n == hs@.len(),
            forall|j: int| 0 <= j < k ==> hs@[j].0@ != key@,
        decreases n - k,
    {
        let p = vstd::slice::slice_index_get(hs, k);
        if bytes_eq(p.0.as_slice(), key) {
            return Some(k);
        }
        k = k + 1;
    }
    None
}

/// The entry `e` written into the vector `acc`, as `upsert_header`
/// says: an existing entry with the same key is overwritten in place,
/// a new key is appended.
fn upsert_entry(acc: &mut Vec<(Vec<u8>, Vec<u8>)>, e: (Vec<u8>, Vec<u8>))
    requires
        unique_keys(pairs_view(old(acc)@)),
    ensures
        pairs_view(final(acc)@) == upsert_header(pairs_view(old(acc)@), (e.0@, e.1@)),
        unique_keys(pairs_view(final(acc)@)),
{
    let ghost hv = pairs_view(acc@);
    let ghost ev = (e.0@, e.1@);
    proof {
        assert(forall|j: int| 0 <= j < hv.len() ==> hv[j] == (acc@[j].0@, acc@[j].1@));
    }
    match find_key(acc.as_slice(), e.0.as_slice()) {
        Some(k) => {
            proof {
                assert(hv[k as int].0 == ev.0);
                assert(exists|j: int| 0 <= j < hv.len() && hv[j].0 == ev.0);
                let w = choose|j: int| 0 <= j < hv.len() && hv[j].0 == ev.0;
                assert(w == k as int);
            }
            acc.remove(k);
            acc.insert(k, e);
            proof {
                assert(pairs_view(acc@) =~= hv.update(k as int, ev));
                assert(unique_keys(pairs_view(acc@))) by {
                    let nv = pairs_view(acc@);
                    assert forall|a: int, b: int|
                        0 <= a < b < nv.len() implies nv[a].0 != nv[b].0 by {
                        assert(nv[a].0 == hv[a].0);
                        assert(nv[b].0 == hv[b].0);
                    }
                }
            }
        },
        None => {
            acc.push(e);
            proof {
                assert(!(exists|j: int| 0 <= j < hv.len() && hv[j].0 == ev.0));
                assert(pairs_view(acc@) =~= hv.push(ev));
                assert(unique_keys(pairs_view(acc@))) by {
                    let nv = pairs_view(acc@);
                    assert forall|a: int, b: int|
                        0 <= a < b < nv.len() implies nv[a].0 != nv[b].0 by {
                        if b < hv.len() {
                            assert(nv[a].0 == hv[a].0);
                            assert(nv[b].0 == hv[b].0);
                        } else {
                            assert(nv[a].0 == hv[a].0);
                            assert(nv[b] == ev);
                        }
                    }
                }
            }
        },
    }
}

/// The header entries folded into a mapping with unique keys; of a
/// repeated key the last entry wins.
fn dedup_entries(entries: Vec<(Vec<u8>, Vec<u8>)>) -> (r: Vec<(Vec<u8>, Vec<u8>)>)
    ensures
        pairs_view(r@) == dedup_headers(pairs_view(entries@)),
        unique_keys(pairs_view(r@)),
{
    let ghost orig = pairs_view(entries@);
    let mut rest = entries;
    let mut acc: Vec<(Vec<u8>, Vec<u8>)> = Vec::new();
    let ghost mut done: Seq<(Seq<u8>, Seq<u8>)> = seq![];
    proof {
        assert(done + pairs_view(rest@) =~= orig);
        assert(pairs_view(acc@) =~= Seq::<(Seq<u8>, Seq<u8>)>::empty());
        assert(dedup_headers(done) == Seq::<(Seq<u8>, Seq<u8>)>::empty());
    }
    while rest.len() > 0
        invariant
            orig == done + pairs_view(rest@),
            pairs_view(acc@) == dedup_headers(done),
            unique_keys(pairs_view(acc@)),
        decreases rest@.len(),
    {
        let ghost old_rest = pairs_view(rest@);
        let e = rest.remove(0);
        let ghost ev = (e.0@, e.1@);
        proof {
            assert(old_rest == seq![ev] + pairs_view(rest@)) by {
                assert(old_rest =~= seq![ev] + pairs_view(rest@));
            }
        }
        upsert_entry(&mut acc, e);
        proof {
            let stepped = done.push(ev);
            assert(stepped.drop_last() =~= done);
            assert(stepped.last() == ev);
            assert(dedup_headers(stepped) == upsert_header(dedup_headers(done), ev));
            assert(orig == stepped + pairs_view(rest@)) by {
                assert((done + (seq![ev] + pairs_view(rest@))) =~= (stepped + pairs_view(rest@)));
            }
            done = stepped;
        }
    }
    proof {
        assert(pairs_view(rest@).len() == 0);
        assert(done =~= orig);
    }
    acc
}

/// The whole transcript parsed from its first byte: one complete game
/// with deduplicated headers, or the failure of the first broken
/// construct. Nothing is produced on failure, and trailing input after
/// the result token is ignored.
pub fn game(input: &[u8]) -> (r: Result<PGNGame, ParseError>)
    ensures
        match r {
            Ok(g) => parse_game_spec(input@) == (GameOutcome::Parsed { game: g@ }) && unique_keys(
                g@.headers,
            ),
            Err(e) => parse_game_spec(input@) == (GameOutcome::Failed { err: e@ }),
        },
{
    let (entries, after_headers) = match headers(input, 0) {
        Ok(p) => p,
        Err(e) => {
            return Err(e);
        },
    };
    let (move_list, after_moves) = match moves(input, after_headers) {
        Ok(p) => p,
        Err(e) => {
            return Err(e);
        },
    };
    let at_result = skip_ws(input, after_moves);
    let result = match result_token(input, at_result) {
        Ok(p) => p.0,
        Err(e) => {
            return Err(e);
        },
    };
    let deduped = dedup_entries(entries);
    Ok(PGNGame { headers: deduped, moves: move_list, result })
}

impl PGNGame {
    /// A whole transcript parsed from a string slice; the grammar works
    /// on the string's bytes.
    pub fn from_str(gstr: &str) -> (r: Result<PGNGame, ParseError>)
        ensures
            match r {
                Ok(g) => parse_game_spec(gstr.spec_bytes()) == (GameOutcome::Parsed { game: g@ })
                    && unique_keys(g@.headers),
                Err(e) => parse_game_spec(gstr.spec_bytes()) == (GameOutcome::Failed { err: e@ }),
            },
    {
        game(gstr.as_bytes())
    }

    /// The value stored under a header key, or nothing where the key
    /// is absent.
    pub fn get_header(&self, key: &[u8]) -> (r: Option<Vec<u8>>)
        ensures
            match r {
                Some(v) => lookup_header(self@.headers, key@) == Some(v@),
                None => lookup_header(self@.headers, key@) is None,
            },
    {
        let ghost hv = self@.headers;
        proof {
            assert(forall|j: int|
                0 <= j < hv.len() ==> hv[j] == (self.headers@[j].0@, self.headers@[j].1@));
        }
        match find_key(self.headers.as_slice(), key) {
            Some(k) => {
                proof {
                    lemma_lookup_at(hv, key@, k as int);
                }
                let p = vstd::slice::slice_index_get(self.headers.as_slice(), k);
                let v = &p.1;
                Some(copy_range(v.as_slice(), 0, v.len()))
            },
            None => {
                proof {
                    lemma_lookup_absent(hv, key@);
                }
                None
            },
        }
    }
}

} // verus!
