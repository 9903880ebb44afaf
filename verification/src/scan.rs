//! Lexical ground floor: classification of whitespace and token
//! characters, and the bounded scanners every parser builds on. Each
//! exec scanner returns exactly the index its spec-level twin names.

use vstd::prelude::*;

verus! {

/// True of the four separator characters: space, tab, carriage return,
/// line feed.
pub open spec fn is_ws(c: u8) -> bool {
    c == 32 || c == 9 || c == 13 || c == 10
}

/// True of the decimal digit characters.
pub open spec fn is_digit_byte(c: u8) -> bool {
    48 <= c && c <= 57
}

/// True of the characters a header key is made of: letters, digits and
/// the underscore.
pub open spec fn is_alnum_us(c: u8) -> bool {
    is_digit_byte(c) || (65 <= c && c <= 90) || (97 <= c && c <= 122) || c == 95
}

/// The index of the first separator at or after `i`, or the end of the
/// input: the token starting at `i` reaches exactly to here.
pub open spec fn token_end_spec(s: Seq<u8>, i: int) -> int
    decreases s.len() - i,
{
    if i >= s.len() {
        i
    } else if is_ws(s[i]) {
        i
    } else {
        token_end_spec(s, i + 1)
    }
}

/// The index of the first non-separator at or after `i`, or the end of
/// the input.
pub open spec fn skip_ws_spec(s: Seq<u8>, i: int) -> int
    decreases s.len() - i,
{
    if i >= s.len() {
        i
    } else if !is_ws(s[i]) {
        i
    } else {
        skip_ws_spec(s, i + 1)
    }
}

/// The index just past the run of decimal digits starting at `i`.
pub open spec fn digits_end_spec(s: Seq<u8>, i: int) -> int
    decreases s.len() - i,
{
    if i >= s.len() {
        i
    } else if !is_digit_byte(s[i]) {
        i
    } else {
        digits_end_spec(s, i + 1)
    }
}

/// The index just past the run of key characters starting at `i`.
pub open spec fn key_end_spec(s: Seq<u8>, i: int) -> int
    decreases s.len() - i,
{
    if i >= s.len() {
        i
    } else if !is_alnum_us(s[i]) {
        i
    } else {
        key_end_spec(s, i + 1)
    }
}

/// The index of the first double quote at or after `i`, or the end of
/// the input.
pub open spec fn quote_end_spec(s: Seq<u8>, i: int) -> int
    decreases s.len() - i,
{
    if i >= s.len() {
        i
    } else if s[i] == 34 {
        i
    } else {
        quote_end_spec(s, i + 1)
    }
}

/// The whitespace-delimited token that starts at `i`.
pub open spec fn token_at(s: Seq<u8>, i: int) -> Seq<u8> {
    s.subrange(i, token_end_spec(s, i))
}

/// Every scanner stays between its start and the end of the input, runs
/// over characters of its class only, and stops at the first character
/// outside it.
pub proof fn lemma_token_end(s: Seq<u8>, i: int)
    requires
        0 <= i <= s.len(),
    ensures
        i <= token_end_spec(s, i) <= s.len(),
        forall|j: int| i <= j < token_end_spec(s, i) ==> !is_ws(s[j]),
        token_end_spec(s, i) < s.len() ==> is_ws(s[token_end_spec(s, i)]),
    decreases s.len() - i,
{
    if i < s.len() && !is_ws(s[i]) {
        lemma_token_end(s, i + 1);
    }
}

/// See `lemma_token_end`; the same bounds for the whitespace skipper.
pub proof fn lemma_skip_ws(s: Seq<u8>, i: int)
    requires
        0 <= i <= s.len(),
    ensures
        i <= skip_ws_spec(s, i) <= s.len(),
        forall|j: int| i <= j < skip_ws_spec(s, i) ==> is_ws(s[j]),
        skip_ws_spec(s, i) < s.len() ==> !is_ws(s[skip_ws_spec(s, i)]),
    decreases s.len() - i,
{
    if i < s.len() && is_ws(s[i]) {
        lemma_skip_ws(s, i + 1);
    }
}

/// See `lemma_token_end`; the same bounds for the digit scanner.
pub proof fn lemma_digits_end(s: Seq<u8>, i: int)
    requires
        0 <= i <= s.len(),
    ensures
        i <= digits_end_spec(s, i) <= s.len(),
        forall|j: int| i <= j < digits_end_spec(s, i) ==> is_digit_byte(s[j]),
        digits_end_spec(s, i) < s.len() ==> !is_digit_byte(s[digits_end_spec(s, i)]),
    decreases s.len() - i,
{
    if i < s.len() && is_digit_byte(s[i]) {
        lemma_digits_end(s, i + 1);
    }
}

/// See `lemma_token_end`; the same bounds for the key scanner.
pub proof fn lemma_key_end(s: Seq<u8>, i: int)
    requires
        0 <= i <= s.len(),
    ensures
        i <= key_end_spec(s, i) <= s.len(),
        forall|j: int| i <= j < key_end_spec(s, i) ==> is_alnum_us(s[j]),
        key_end_spec(s, i) < s.len() ==> !is_alnum_us(s[key_end_spec(s, i)]),
    decreases s.len() - i,
{
    if i < s.len() && is_alnum_us(s[i]) {
        lemma_key_end(s, i + 1);
    }
}

/// See `lemma_token_end`; the same bounds for the quote scanner.
pub proof fn lemma_quote_end(s: Seq<u8>, i: int)
    requires
        0 <= i <= s.len(),
    ensures
        i <= quote_end_spec(s, i) <= s.len(),
        forall|j: int| i <= j < quote_end_spec(s, i) ==> s[j] != 34,
        quote_end_spec(s, i) < s.len() ==> s[quote_end_spec(s, i)] == 34,
    decreases s.len() - i,
{
    if i < s.len() && s[i] != 34 {
        lemma_quote_end(s, i + 1);
    }
}

/// A scanner never moves backwards, and never runs past the end of the
/// input it started inside. Stated without a lower bound on the start,
/// for the termination proofs of the recursive grammar functions.
pub proof fn lemma_token_end_ge(s: Seq<u8>, i: int)
    ensures
        i <= token_end_spec(s, i),
        i <= s.len() ==> token_end_spec(s, i) <= s.len(),
    decreases s.len() - i,
{
    if i < s.len() && !is_ws(s[i]) {
        lemma_token_end_ge(s, i + 1);
    }
}

/// See `lemma_token_end_ge`.
pub proof fn lemma_skip_ws_ge(s: Seq<u8>, i: int)
    ensures
        i <= skip_ws_spec(s, i),
        i <= s.len() ==> skip_ws_spec(s, i) <= s.len(),
    decreases s.len() - i,
{
    if i < s.len() && is_ws(s[i]) {
        lemma_skip_ws_ge(s, i + 1);
    }
}

/// See `lemma_token_end_ge`.
pub proof fn lemma_digits_end_ge(s: Seq<u8>, i: int)
    ensures
        i <= digits_end_spec(s, i),
        i <= s.len() ==> digits_end_spec(s, i) <= s.len(),
    decreases s.len() - i,
{
    if i < s.len() && is_digit_byte(s[i]) {
        lemma_digits_end_ge(s, i + 1);
    }
}

/// See `lemma_token_end_ge`.
pub proof fn lemma_key_end_ge(s: Seq<u8>, i: int)
    ensures
        i <= key_end_spec(s, i),
        i <= s.len() ==> key_end_spec(s, i) <= s.len(),
    decreases s.len() - i,
{
    if i < s.len() && is_alnum_us(s[i]) {
        lemma_key_end_ge(s, i + 1);
    }
}

/// See `lemma_token_end_ge`.
pub proof fn lemma_quote_end_ge(s: Seq<u8>, i: int)
    ensures
        i <= quote_end_spec(s, i),
        i <= s.len() ==> quote_end_spec(s, i) <= s.len(),
    decreases s.len() - i,
{
    if i < s.len() && s[i] != 34 {
        lemma_quote_end_ge(s, i + 1);
    }
}

/// Whether a character separates tokens: space, tab, carriage return or
/// line feed.
pub fn is_space_or_eol(chr: u8) -> (r: bool)
    ensures
        r == is_ws(chr),
{
    chr == 32 || chr == 9 || chr == 13 || chr == 10
}

/// The end of the token that starts at `pos`: the input is scanned
/// forward until a separator or the end of the input.
pub fn token_end(input: &[u8], pos: usize) -> (end: usize)
    requires
        pos <= input@.len(),
    ensures
        end == token_end_spec(input@, pos as int),
        pos <= end <= input@.len(),
{
    let n = input.len();
    let mut j = pos;
    while j < n && !is_space_or_eol(input[j])
        invariant
            pos <= j <= n,
            n == input@.len(),
            token_end_spec(input@, pos as int) == token_end_spec(input@, j as int),
        decreases n - j,
    {
        j = j + 1;
    }
    proof {
        assert(token_end_spec(input@, j as int) == j as int);
    }
    j
}

/// The first non-separator position at or after `pos`.
pub fn skip_ws(input: &[u8], pos: usize) -> (next: usize)
    requires
        pos <= input@.len(),
    ensures
        next == skip_ws_spec(input@, pos as int),
        pos <= next <= input@.len(),
{
    let n = input.len();
    let mut j = pos;
    while j < n && is_space_or_eol(input[j])
        invariant
            pos <= j <= n,
            n == input@.len(),
            skip_ws_spec(input@, pos as int) == skip_ws_spec(input@, j as int),
        decreases n - j,
    {
        j = j + 1;
    }
    proof {
        assert(skip_ws_spec(input@, j as int) == j as int);
    }
    j
}

/// The end of the run of decimal digits that starts at `pos`.
pub fn digits_end(input: &[u8], pos: usize) -> (end: usize)
    requires
        pos <= input@.len(),
    ensures
        end == digits_end_spec(input@, pos as int),
        pos <= end <= input@.len(),
{
    let n = input.len();
    let mut j = pos;
    while j < n && 48 <= input[j] && input[j] <= 57
        invariant
            pos <= j <= n,
            n == input@.len(),
            digits_end_spec(input@, pos as int) == digits_end_spec(input@, j as int),
        decreases n - j,
    {
        j = j + 1;
    }
    proof {
        assert(digits_end_spec(input@, j as int) == j as int);
    }
    j
}

/// The end of the maximal run of letters, digits and underscores that
/// starts at `pos`: the shape of a header key.
pub fn alphanumeric_or_underscore(input: &[u8], pos: usize) -> (end: usize)
    requires
        pos <= input@.len(),
    ensures
        end == key_end_spec(input@, pos as int),
        pos <= end <= input@.len(),
{
    let n = input.len();
    let mut j = pos;
    while j < n && (48 <= input[j] && input[j] <= 57 || 65 <= input[j] && input[j] <= 90 || 97
        <= input[j] && input[j] <= 122 || input[j] == 95)
        invariant
            pos <= j <= n,
            n == input@.len(),
            key_end_spec(input@, pos as int) == key_end_spec(input@, j as int),
        decreases n - j,
    {
        j = j + 1;
    }
    proof {
        assert(key_end_spec(input@, j as int) == j as int);
    }
    j
}

/// The position of the first double quote at or after `pos`, or the end
/// of the input if there is none.
pub fn quote_end(input: &[u8], pos: usize) -> (end: usize)
    requires
        pos <= input@.len(),
    ensures
        end == quote_end_spec(input@, pos as int),
        pos <= end <= input@.len(),
{
    let n = input.len();
    let mut j = pos;
    while j < n && input[j] != 34
        invariant
            pos <= j <= n,
            n == input@.len(),
            quote_end_spec(input@, pos as int) == quote_end_spec(input@, j as int),
        decreases n - j,
    {
        j = j + 1;
    }
    proof {
        assert(quote_end_spec(input@, j as int) == j as int);
    }
    j
}

/// An owned copy of the input bytes between `from` and `to`.
pub fn copy_range(input: &[u8], from: usize, to: usize) -> (r: Vec<u8>)
    requires
        from <= to <= input@.len(),
    ensures
        r@ == input@.subrange(from as int, to as int),
{
    let mut v: Vec<u8> = Vec::new();
    let mut j = from;
    while j < to
        invariant
            from <= j <= to <= input@.len(),
            v@ == input@.subrange(from as int, j as int),
        decreases to - j,
    {
        v.push(input[j]);
        j = j + 1;
        proof {
            assert(v@ =~= input@.subrange(from as int, j as int));
        }
    }
    v
}

/// Whether two byte strings hold the same bytes.
pub fn bytes_eq(a: &[u8], b: &[u8]) -> (r: bool)
    ensures
        r == (a@ == b@),
{
    if a.len() != b.len() {
        return false;
    }
    let n = a.len();
    let mut j: usize = 0;
    while j < n
        invariant
            0 <= j <= n,
            n == a@.len() == b@.len(),
            forall|k: int| 0 <= k < j ==> a@[k] == b@[k],
        decreases n - j,
    {
        if a[j] != b[j] {
            return false;
        }
        j = j + 1;
    }
    proof {
        assert(a@ =~= b@);
    }
    true
}

} // verus!
