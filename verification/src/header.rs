//! The header-block grammar: zero or more entries of the shape
//! `[ Key "Value" ]`, each key a maximal run of letters, digits and
//! underscores, each value everything up to the next double quote.
//! A later entry with a repeated key overwrites the earlier one, but
//! only when the whole game is assembled; the block parser itself
//! keeps the entries in order.

use vstd::prelude::*;

use crate::scan::alphanumeric_or_underscore;
use crate::scan::copy_range;
use crate::scan::key_end_spec;
use crate::scan::lemma_key_end;
use crate::scan::lemma_key_end_ge;
use crate::scan::lemma_quote_end;
use crate::scan::lemma_quote_end_ge;
use crate::scan::lemma_skip_ws;
use crate::scan::lemma_skip_ws_ge;
use crate::scan::quote_end;
use crate::scan::quote_end_spec;
use crate::scan::skip_ws;
use crate::scan::skip_ws_spec;
use crate::types::ParseError;
use crate::types::ParseErrorV;

verus! {

/// What one attempt at a header entry yields: an entry with the
/// position after it, a stop at the first input that does not open an
/// entry, or a failure.
pub ghost enum HeaderStep {
    Entry { key: Seq<u8>, val: Seq<u8>, next: int },
    Stop { next: int },
    Failed { err: ParseErrorV },
}

/// One header entry, parsed from position `i`: optional whitespace,
/// `[`, optional whitespace, the key run, optional whitespace, `"`,
/// the value up to the next `"`, optional whitespace, `]`. The parse
/// stops, without failing, where no `[` opens an entry; it fails with
/// `MalformedHeader` at a wrong character inside an entry and with
/// `IncompleteInput` where the input ends inside one.
pub open spec fn header_step(s: Seq<u8>, i: int) -> HeaderStep {
    let j = skip_ws_spec(s, i);
    if j >= s.len() || s[j] != 91 {
        HeaderStep::Stop { next: j }
    } else {
        let k0 = skip_ws_spec(s, j + 1);
        let k1 = key_end_spec(s, k0);
        let q0 = skip_ws_spec(s, k1);
        if q0 >= s.len() {
            HeaderStep::Failed { err: ParseErrorV::IncompleteInput { offset: q0 } }
        } else if s[q0] != 34 {
            HeaderStep::Failed { err: ParseErrorV::MalformedHeader { offset: q0 } }
        } else {
            let v1 = quote_end_spec(s, q0 + 1);
            if v1 >= s.len() {
                HeaderStep::Failed { err: ParseErrorV::IncompleteInput { offset: v1 } }
            } else {
                let b0 = skip_ws_spec(s, v1 + 1);
                if b0 >= s.len() {
                    HeaderStep::Failed { err: ParseErrorV::IncompleteInput { offset: b0 } }
                } else if s[b0] != 93 {
                    HeaderStep::Failed { err: ParseErrorV::MalformedHeader { offset: b0 } }
                } else {
                    HeaderStep::Entry {
                        key: s.subrange(k0, k1),
                        val: s.subrange(q0 + 1, v1),
                        next: b0 + 1,
                    }
                }
            }
        }
    }
}

/// What a whole header block yields: the entries in order with the
/// position after the block, or the failure of the first broken entry.
pub ghost enum HeadersOutcome {
    Parsed { entries: Seq<(Seq<u8>, Seq<u8>)>, next: int },
    Failed { err: ParseErrorV },
}

/// The header block from position `i`: entries are taken as long as
/// `header_step` yields them.
pub open spec fn parse_headers_spec(s: Seq<u8>, i: int) -> HeadersOutcome
    decreases s.len() - i,
    via parse_headers_spec_dec
{
    match header_step(s, i) {
        HeaderStep::Stop { next } => HeadersOutcome::Parsed { entries: seq![], next },
        HeaderStep::Failed { err } => HeadersOutcome::Failed { err },
        HeaderStep::Entry { key, val, next } => match parse_headers_spec(s, next) {
            HeadersOutcome::Parsed { entries, next: rest_next } => HeadersOutcome::Parsed {
                entries: seq![(key, val)] + entries,
                next: rest_next,
            },
            HeadersOutcome::Failed { err } => HeadersOutcome::Failed { err },
        },
    }
}

#[via_fn]
proof fn parse_headers_spec_dec(s: Seq<u8>, i: int) {
    let j = skip_ws_spec(s, i);
    lemma_skip_ws_ge(s, i);
    if !(j >= s.len() || s[j] != 91) {
        lemma_skip_ws_ge(s, j + 1);
        lemma_key_end_ge(s, skip_ws_spec(s, j + 1));
        lemma_skip_ws_ge(s, key_end_spec(s, skip_ws_spec(s, j + 1)));
        let q0 = skip_ws_spec(s, key_end_spec(s, skip_ws_spec(s, j + 1)));
        if q0 < s.len() && s[q0] == 34 {
            lemma_quote_end_ge(s, q0 + 1);
            let v1 = quote_end_spec(s, q0 + 1);
            if v1 < s.len() {
                lemma_skip_ws_ge(s, v1 + 1);
            }
        }
    }
}

/// Where the header block parses, the position after it lies between
/// the block's start and the end of the input.
pub proof fn lemma_headers_next_in_range(s: Seq<u8>, i: int)
    requires
        0 <= i <= s.len(),
    ensures
        match parse_headers_spec(s, i) {
            HeadersOutcome::Parsed { next, .. } => i <= next <= s.len(),
            HeadersOutcome::Failed { .. } => true,
        },
    decreases s.len() - i,
{
    let j = skip_ws_spec(s, i);
    lemma_skip_ws(s, i);
    match header_step(s, i) {
        HeaderStep::Stop { .. } => {},
        HeaderStep::Failed { .. } => {},
        HeaderStep::Entry { next, .. } => {
            let k0 = skip_ws_spec(s, j + 1);
            lemma_skip_ws(s, j + 1);
            let k1 = key_end_spec(s, k0);
            lemma_key_end(s, k0);
            let q0 = skip_ws_spec(s, k1);
            lemma_skip_ws(s, k1);
            let v1 = quote_end_spec(s, q0 + 1);
            lemma_quote_end(s, q0 + 1);
            let b0 = skip_ws_spec(s, v1 + 1);
            lemma_skip_ws(s, v1 + 1);
            assert(next == b0 + 1);
            lemma_headers_next_in_range(s, next);
        },
    }
}

/// The byte-sequence pairs a vector of owned header entries stands for.
pub open spec fn pairs_view(v: Seq<(Vec<u8>, Vec<u8>)>) -> Seq<(Seq<u8>, Seq<u8>)> {
    v.map_values(|p: (Vec<u8>, Vec<u8>)| (p.0@, p.1@))
}

/// What one attempt at a header entry yields, as owned values.
pub enum HeaderItem {
    Entry { key: Vec<u8>, val: Vec<u8>, next: usize },
    Stop { next: usize },
    Failed { err: ParseError },
}

impl View for HeaderItem {
    type V = HeaderStep;

    open spec fn view(&self) -> HeaderStep {
        match self {
            HeaderItem::Entry { key, val, next } => HeaderStep::Entry {
                key: key@,
                val: val@,
                next: *next as int,
            },
            HeaderItem::Stop { next } => HeaderStep::Stop { next: *next as int },
            HeaderItem::Failed { err } => HeaderStep::Failed { err: err@ },
        }
    }
}

/// One header entry, parsed from `pos`; the result is exactly what
/// `header_step` names there.
pub fn key_value_pair(input: &[u8], pos: usize) -> (r: HeaderItem)
    requires
        pos <= input@.len(),
    ensures
        r@ == header_step(input@, pos as int),
        match r {
            HeaderItem::Entry { next, .. } => pos < next <= input@.len(),
            HeaderItem::Stop { next } => pos <= next <= input@.len(),
            HeaderItem::Failed { .. } => true,
        },
{
    let n = input.len();
    let j = skip_ws(input, pos);
    if j == n || input[j] != 91 {
        return HeaderItem::Stop { next: j };
    }
    let k0 = skip_ws(input, j + 1);
    let k1 = alphanumeric_or_underscore(input, k0);
    let q0 = skip_ws(input, k1);
    if q0 == n {
        return HeaderItem::Failed { err: ParseError::IncompleteInput { offset: q0 } };
    }
    if input[q0] != 34 {
        return HeaderItem::Failed { err: ParseError::MalformedHeader { offset: q0 } };
    }
    let v1 = quote_end(input, q0 + 1);
    if v1 == n {
        return HeaderItem::Failed { err: ParseError::IncompleteInput { offset: v1 } };
    }
    let b0 = skip_ws(input, v1 + 1);
    if b0 == n {
        return HeaderItem::Failed { err: ParseError::IncompleteInput { offset: b0 } };
    }
    if input[b0] != 93 {
        return HeaderItem::Failed { err: ParseError::MalformedHeader { offset: b0 } };
    }
    let key = copy_range(input, k0, k1);
    let val = copy_range(input, q0 + 1, v1);
    HeaderItem::Entry { key, val, next: b0 + 1 }
}

/// The outcome `o` with the entries `es` put before its own.
pub open spec fn prepend_entries(es: Seq<(Seq<u8>, Seq<u8>)>, o: HeadersOutcome) -> HeadersOutcome {
    match o {
        HeadersOutcome::Parsed { entries, next } => HeadersOutcome::Parsed {
            entries: es + entries,
            next,
        },
        HeadersOutcome::Failed { err } => HeadersOutcome::Failed { err },
    }
}

/// The whole header block from `pos`: the entries in order and the
/// position after the block, or the failure of the first broken entry.
/// Repeated keys are kept here; the game assembly resolves them.
pub fn headers(input: &[u8], pos: usize) -> (r: Result<(Vec<(Vec<u8>, Vec<u8>)>, usize), ParseError>)
    requires
        pos <= input@.len(),
    ensures
        match r {
            Ok(p) => parse_headers_spec(input@, pos as int) == (HeadersOutcome::Parsed {
                entries: pairs_view(p.0@),
                next: p.1 as int,
            }) && p.1 <= input@.len(),
            Err(e) => parse_headers_spec(input@, pos as int) == (HeadersOutcome::Failed {
                err: e@,
            }),
        },
{
    let ghost s = input@;
    let mut acc: Vec<(Vec<u8>, Vec<u8>)> = Vec::new();
    let mut cur = pos;
    loop
        invariant
            pos <= cur <= s.len(),
            s == input@,
            parse_headers_spec(s, pos as int) == prepend_entries(
                pairs_view(acc@),
                parse_headers_spec(s, cur as int),
            ),
        decreases s.len() - cur,
    {
        let r = key_value_pair(input, cur);
        match r {
            HeaderItem::Stop { next } => {
                proof {
                    assert(parse_headers_spec(s, cur as int) == (HeadersOutcome::Parsed {
                        entries: seq![],
                        next: next as int,
                    }));
                    assert(pairs_view(acc@) + seq![] =~= pairs_view(acc@));
                }
                return Ok((acc, next));
            },
            HeaderItem::Failed { err } => {
                proof {
                    assert(parse_headers_spec(s, cur as int) == (HeadersOutcome::Failed {
                        err: err@,
                    }));
                }
                return Err(err);
            },
            HeaderItem::Entry { key, val, next } => {
                let ghost old_acc = acc@;
                let ghost kv = (key@, val@);
                acc.push((key, val));
                proof {
                    assert(pairs_view(acc@) =~= pairs_view(old_acc) + seq![kv]);
                    let inner = parse_headers_spec(s, next as int);
                    assert(parse_headers_spec(s, cur as int) == prepend_entries(
                        seq![kv],
                        inner,
                    )) by {
                        match inner {
                            HeadersOutcome::Parsed { entries, next: rest_next } => {
                                assert(seq![kv] + entries =~= seq![kv] + entries);
                            },
                            HeadersOutcome::Failed { err } => {},
                        }
                    }
                    match inner {
                        HeadersOutcome::Parsed { entries, next: rest_next } => {
                            assert((pairs_view(old_acc) + seq![kv]) + entries =~= pairs_view(
                                old_acc,
                            ) + (seq![kv] + entries));
                        },
                        HeadersOutcome::Failed { err } => {},
                    }
                }
                cur = next;
            },
        }
    }
}

} // verus!
