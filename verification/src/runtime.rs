//! Byte-level parsing primitives: whitespace scanning and per-kind value
//! parsers over an input buffer and a cursor.
//!
//! Every parser advances the cursor past the consumed token on success; on
//! failure the cursor position is unspecified and the caller must abort.

use vstd::prelude::*;

verus! {

pub const QUOTE_BYTE: u8 = 34;

pub const COMMA_BYTE: u8 = 44;

pub const COLON_BYTE: u8 = 58;

pub const LBRACE_BYTE: u8 = 123;

pub const RBRACE_BYTE: u8 = 125;

pub const LBRACKET_BYTE: u8 = 91;

pub const RBRACKET_BYTE: u8 = 93;

/// Failure of one primitive parser.
#[derive(Clone, Copy, PartialEq, Eq, Structural, Debug)]
pub struct PrimError {}

/// Insignificant whitespace: space, tab, line feed, carriage return.
pub open spec fn is_ws(b: u8) -> bool {
    b == 32 || b == 9 || b == 10 || b == 13
}

pub open spec fn is_digit(b: u8) -> bool {
    48 <= b <= 57
}

/// The cursor after skipping insignificant whitespace.
pub open spec fn skip_ws_spec(data: Seq<u8>, pos: nat) -> nat
    decreases data.len() - pos,
{
    if pos < data.len() && is_ws(data[pos as int]) {
        skip_ws_spec(data, (pos + 1) as nat)
    } else {
        pos
    }
}

pub proof fn lemma_skip_ws_spec(data: Seq<u8>, pos: nat)
    ensures
        pos <= skip_ws_spec(data, pos),
        pos <= data.len() ==> skip_ws_spec(data, pos) <= data.len(),
        skip_ws_spec(data, pos) < data.len() ==> !is_ws(
            data[skip_ws_spec(data, pos) as int],
        ),
    decreases data.len() - pos,
{
    if pos < data.len() && is_ws(data[pos as int]) {
        lemma_skip_ws_spec(data, (pos + 1) as nat);
    }
}

fn byte_is_ws(b: u8) -> (r: bool)
    ensures
        r == is_ws(b),
{
    b == 32 || b == 9 || b == 10 || b == 13
}

/// Advance the cursor past insignificant whitespace; cannot fail.
pub fn skip_whitespace(data: &[u8], pos: &mut usize)
    ensures
        *final(pos) == skip_ws_spec(data@, *old(pos) as nat),
        *old(pos) <= *final(pos),
        *old(pos) <= data@.len() ==> *final(pos) <= data@.len(),
{
    proof {
        lemma_skip_ws_spec(data@, *old(pos) as nat);
    }
    while *pos < data.len() && byte_is_ws(data[*pos])
        invariant
            *old(pos) <= *pos,
            skip_ws_spec(data@, *old(pos) as nat) == skip_ws_spec(data@, *pos as nat),
            *old(pos) <= data@.len() ==> *pos <= data@.len(),
        decreases data@.len() - *pos,
    {
        *pos = *pos + 1;
    }
}

/// The index of the next quote at or after `i`, if any.
pub open spec fn find_quote_end(data: Seq<u8>, i: nat) -> Option<nat>
    decreases data.len() - i,
{
    if i < data.len() {
        if data[i as int] == QUOTE_BYTE {
            Some(i)
        } else {
            find_quote_end(data, (i + 1) as nat)
        }
    } else {
        None
    }
}

pub proof fn lemma_find_quote_end(data: Seq<u8>, i: nat)
    ensures
        match find_quote_end(data, i) {
            Some(e) => i <= e < data.len() && data[e as int] == QUOTE_BYTE && forall|j: int|
                i <= j < e ==> data[j] != QUOTE_BYTE,
            None => forall|j: int| i <= j < data.len() ==> data[j] != QUOTE_BYTE,
        },
    decreases data.len() - i,
{
    if i < data.len() && data[i as int] != QUOTE_BYTE {
        lemma_find_quote_end(data, (i + 1) as nat);
    }
}

/// A parsed string token: an opening quote, the raw content bytes up to the
/// next quote (no escape processing), and the closing quote.  Yields the
/// content and the cursor after the closing quote.
pub open spec fn parse_string_spec(data: Seq<u8>, pos: nat) -> Option<(Seq<u8>, nat)> {
    if pos < data.len() && data[pos as int] == QUOTE_BYTE {
        match find_quote_end(data, (pos + 1) as nat) {
            Some(end) => Some((data.subrange(pos as int + 1, end as int), (end + 1) as nat)),
            None => None,
        }
    } else {
        None
    }
}

pub proof fn lemma_parse_string_bounds(data: Seq<u8>, pos: nat)
    ensures
        match parse_string_spec(data, pos) {
            Some(r) => pos + 2 <= r.1 <= data.len(),
            None => true,
        },
{
    if pos < data.len() && data[pos as int] == QUOTE_BYTE {
        lemma_find_quote_end(data, (pos + 1) as nat);
    }
}

/// Parse a string token, returning its raw content bytes.
pub fn parse_string(data: &[u8], pos: &mut usize) -> (r: Result<Vec<u8>, PrimError>)
    ensures
        match r {
            Ok(v) => parse_string_spec(data@, *old(pos) as nat) == Some(
                (v@, *final(pos) as nat),
            ),
            Err(_) => parse_string_spec(data@, *old(pos) as nat) is None,
        },
{
    if *pos >= data.len() || data[*pos] != QUOTE_BYTE {
        return Err(PrimError {});
    }
    let start = *pos + 1;
    let mut i = start;
    let mut content: Vec<u8> = Vec::new();
    while i < data.len() && data[i] != QUOTE_BYTE
        invariant
            start <= i <= data@.len(),
            start == *old(pos) + 1,
            content@ == data@.subrange(start as int, i as int),
            find_quote_end(data@, start as nat) == find_quote_end(data@, i as nat),
            forall|j: int| start <= j < i ==> data@[j] != QUOTE_BYTE,
        decreases data@.len() - i,
    {
        content.push(data[i]);
        proof {
            assert(content@ =~= data@.subrange(start as int, i + 1));
        }
        i += 1;
    }
    if i >= data.len() {
        return Err(PrimError {});
    }
    *pos = i + 1;
    Ok(content)
}

/// The first index at or after `i` whose byte is not a decimal digit.
pub open spec fn digits_end(data: Seq<u8>, i: nat) -> nat
    decreases data.len() - i,
{
    if i < data.len() && is_digit(data[i as int]) {
        digits_end(data, (i + 1) as nat)
    } else {
        i
    }
}

pub proof fn lemma_digits_end(data: Seq<u8>, i: nat)
    ensures
        i <= digits_end(data, i),
        i <= data.len() ==> digits_end(data, i) <= data.len(),
        forall|j: int| i <= j < digits_end(data, i) ==> is_digit(#[trigger] data[j]),
        digits_end(data, i) < data.len() ==> !is_digit(data[digits_end(data, i) as int]),
    decreases data.len() - i,
{
    if i < data.len() && is_digit(data[i as int]) {
        lemma_digits_end(data, (i + 1) as nat);
    }
}

/// Left fold of a digit run into an unsigned 64-bit value; fails where any
/// intermediate value would exceed the range.
pub open spec fn u64_fold(data: Seq<u8>, i: nat, end: nat, acc: u64) -> Option<u64>
    decreases end - i,
{
    if i >= end {
        Some(acc)
    } else {
        let v = acc * 10 + (data[i as int] - 48);
        if v > u64::MAX {
            None
        } else {
            u64_fold(data, (i + 1) as nat, end, v as u64)
        }
    }
}

/// A parsed unsigned 64-bit integer: a nonempty decimal digit run whose
/// value fits the type.  Yields the value and the cursor after the run.
pub open spec fn parse_u64_spec(data: Seq<u8>, pos: nat) -> Option<(u64, nat)> {
    let end = digits_end(data, pos);
    if end == pos {
        None
    } else {
        match u64_fold(data, pos, end, 0) {
            Some(v) => Some((v, end)),
            None => None,
        }
    }
}

pub proof fn lemma_parse_u64_bounds(data: Seq<u8>, pos: nat)
    ensures
        match parse_u64_spec(data, pos) {
            Some(r) => pos < r.1 <= data.len(),
            None => true,
        },
{
    lemma_digits_end(data, pos);
    if pos >= data.len() {
        assert(digits_end(data, pos) == pos);
    }
}

/// Parse an unsigned 64-bit integer token.
pub fn parse_u64(data: &[u8], pos: &mut usize) -> (r: Result<u64, PrimError>)
    ensures
        match r {
            Ok(v) => parse_u64_spec(data@, *old(pos) as nat) == Some((v, *final(pos) as nat)),
            Err(_) => parse_u64_spec(data@, *old(pos) as nat) is None,
        },
{
    let ghost start = *pos as nat;
    let ghost end = digits_end(data@, start);
    proof {
        lemma_digits_end(data@, start);
        if start >= data@.len() {
            assert(end == start);
        }
    }
    if *pos >= data.len() || !(48 <= data[*pos] && data[*pos] <= 57) {
        return Err(PrimError {});
    }
    let mut acc: u64 = 0;
    let mut i = *pos;
    while i < data.len() && 48 <= data[i] && data[i] <= 57
        invariant
            start == *old(pos) as nat,
            start <= i <= data@.len(),
            end == digits_end(data@, start),
            start <= end <= data@.len(),
            i <= end,
            forall|j: int| start <= j < end ==> is_digit(#[trigger] data@[j]),
            end < data@.len() ==> !is_digit(data@[end as int]),
            u64_fold(data@, start, end, 0) == u64_fold(data@, i as nat, end, acc),
        decreases data@.len() - i,
    {
        proof {
            assert(i < end) by {
                if i >= end {
                    assert(!is_digit(data@[i as int]));
                }
            }
        }
        let d = data[i] - 48;
        let step = match acc.checked_mul(10) {
            Some(m) => m.checked_add(d as u64),
            None => None,
        };
        match step {
            Some(v) => {
                acc = v;
            },
            None => {
                proof {
                    assert(u64_fold(data@, i as nat, end, acc) is None);
                }
                return Err(PrimError {});
            },
        }
        i += 1;
    }
    proof {
        assert(i >= end) by {
            if i < end {
                assert(is_digit(data@[i as int]));
            }
        }
        assert(i == end);
        assert(u64_fold(data@, start, end, 0) == Some(acc));
    }
    *pos = i;
    Ok(acc)
}

/// A parsed field element: a nonempty decimal digit run, kept as its raw
/// digits.  Yields the digits and the cursor after the run.
pub open spec fn parse_felt_spec(data: Seq<u8>, pos: nat) -> Option<(Seq<u8>, nat)> {
    let end = digits_end(data, pos);
    if end == pos {
        None
    } else {
        Some((data.subrange(pos as int, end as int), end))
    }
}

pub proof fn lemma_parse_felt_bounds(data: Seq<u8>, pos: nat)
    ensures
        match parse_felt_spec(data, pos) {
            Some(r) => pos < r.1 <= data.len(),
            None => true,
        },
{
    lemma_digits_end(data, pos);
    if pos >= data.len() {
        assert(digits_end(data, pos) == pos);
    }
}

/// Parse a field-element token, returning its raw digits.
pub fn parse_felt252(data: &[u8], pos: &mut usize) -> (r: Result<Vec<u8>, PrimError>)
    ensures
        match r {
            Ok(v) => parse_felt_spec(data@, *old(pos) as nat) == Some(
                (v@, *final(pos) as nat),
            ),
            Err(_) => parse_felt_spec(data@, *old(pos) as nat) is None,
        },
{
    let ghost start = *pos as nat;
    let ghost end = digits_end(data@, start);
    proof {
        lemma_digits_end(data@, start);
        if start >= data@.len() {
            assert(end == start);
        }
    }
    if *pos >= data.len() || !(48 <= data[*pos] && data[*pos] <= 57) {
        return Err(PrimError {});
    }
    let mut digits: Vec<u8> = Vec::new();
    let mut i = *pos;
    while i < data.len() && 48 <= data[i] && data[i] <= 57
        invariant
            start == *old(pos) as nat,
            start <= i <= data@.len(),
            end == digits_end(data@, start),
            start <= end <= data@.len(),
            i <= end,
            forall|j: int| start <= j < end ==> is_digit(#[trigger] data@[j]),
            end < data@.len() ==> !is_digit(data@[end as int]),
            digits@ == data@.subrange(start as int, i as int),
        decreases data@.len() - i,
    {
        digits.push(data[i]);
        proof {
            assert(digits@ =~= data@.subrange(start as int, i + 1));
        }
        i += 1;
    }
    proof {
        assert(i >= end) by {
            if i < end {
                assert(is_digit(data@[i as int]));
            }
        }
        assert(i == end);
    }
    *pos = i;
    Ok(digits)
}

/// A parsed boolean token: the literal `true` or `false`.
pub open spec fn parse_bool_spec(data: Seq<u8>, pos: nat) -> Option<(bool, nat)> {
    if pos + 4 <= data.len() && data[pos as int] == 116 && data[pos as int + 1] == 114
        && data[pos as int + 2] == 117 && data[pos as int + 3] == 101 {
        Some((true, (pos + 4) as nat))
    } else if pos + 5 <= data.len() && data[pos as int] == 102 && data[pos as int + 1] == 97
        && data[pos as int + 2] == 108 && data[pos as int + 3] == 115 && data[pos as int + 4]
        == 101 {
        Some((false, (pos + 5) as nat))
    } else {
        None
    }
}

/// Parse a boolean token.
pub fn parse_bool(data: &[u8], pos: &mut usize) -> (r: Result<bool, PrimError>)
    ensures
        match r {
            Ok(v) => parse_bool_spec(data@, *old(pos) as nat) == Some((v, *final(pos) as nat)),
            Err(_) => parse_bool_spec(data@, *old(pos) as nat) is None,
        },
{
    let n = data.len();
    if *pos < n && n - *pos >= 4 && data[*pos] == 116 && data[*pos + 1] == 114 && data[*pos + 2]
        == 117 && data[*pos + 3] == 101 {
        *pos = *pos + 4;
        return Ok(true);
    }
    if *pos < n && n - *pos >= 5 && data[*pos] == 102 && data[*pos + 1] == 97 && data[*pos + 2]
        == 108 && data[*pos + 3] == 115 && data[*pos + 4] == 101 {
        *pos = *pos + 5;
        return Ok(false);
    }
    Err(PrimError {})
}

/// The cursor after the close byte that balances one already-open bracket,
/// scanning from `i` at nesting depth `depth`.
pub open spec fn scan_balanced(data: Seq<u8>, i: nat, open: u8, close: u8, depth: nat) -> Option<
    nat,
>
    decreases data.len() - i,
{
    if i < data.len() {
        if data[i as int] == close {
            if depth == 1 {
                Some((i + 1) as nat)
            } else {
                scan_balanced(data, (i + 1) as nat, open, close, (depth - 1) as nat)
            }
        } else if data[i as int] == open {
            scan_balanced(data, (i + 1) as nat, open, close, (depth + 1) as nat)
        } else {
            scan_balanced(data, (i + 1) as nat, open, close, depth)
        }
    } else {
        None
    }
}

pub proof fn lemma_scan_balanced(data: Seq<u8>, i: nat, open: u8, close: u8, depth: nat)
    ensures
        match scan_balanced(data, i, open, close, depth) {
            Some(e) => i < e <= data.len(),
            None => true,
        },
    decreases data.len() - i,
{
    if i < data.len() {
        if data[i as int] == close {
            if depth != 1 {
                lemma_scan_balanced(data, (i + 1) as nat, open, close, (depth - 1) as nat);
            }
        } else if data[i as int] == open {
            lemma_scan_balanced(data, (i + 1) as nat, open, close, (depth + 1) as nat);
        } else {
            lemma_scan_balanced(data, (i + 1) as nat, open, close, depth);
        }
    }
}

/// A parsed composite token: the raw bytes of one balanced
/// bracket-delimited region, brackets included.  Quotes inside the region
/// are not treated specially.
pub open spec fn parse_balanced_spec(data: Seq<u8>, pos: nat, open: u8, close: u8) -> Option<
    (Seq<u8>, nat),
> {
    if pos < data.len() && data[pos as int] == open {
        match scan_balanced(data, (pos + 1) as nat, open, close, 1) {
            Some(end) => Some((data.subrange(pos as int, end as int), end)),
            None => None,
        }
    } else {
        None
    }
}

/// A parsed array token: a balanced `[` .. `]` region, kept raw; the
/// element type is not re-validated at this layer.
pub open spec fn parse_array_spec(data: Seq<u8>, pos: nat) -> Option<(Seq<u8>, nat)> {
    parse_balanced_spec(data, pos, LBRACKET_BYTE, RBRACKET_BYTE)
}

/// A parsed nested-object token: a balanced `{` .. `}` region, kept raw;
/// its conformance to the nested type is asserted, not checked, here.
pub open spec fn parse_object_spec(data: Seq<u8>, pos: nat) -> Option<(Seq<u8>, nat)> {
    parse_balanced_spec(data, pos, LBRACE_BYTE, RBRACE_BYTE)
}

pub proof fn lemma_parse_balanced_bounds(data: Seq<u8>, pos: nat, open: u8, close: u8)
    ensures
        match parse_balanced_spec(data, pos, open, close) {
            Some(r) => pos < r.1 <= data.len(),
            None => true,
        },
{
    if pos < data.len() && data[pos as int] == open {
        lemma_scan_balanced(data, (pos + 1) as nat, open, close, 1);
    }
}

/// Parse one balanced bracket-delimited region, returning its raw bytes.
fn parse_balanced(data: &[u8], pos: &mut usize, open: u8, close: u8) -> (r: Result<
    Vec<u8>,
    PrimError,
>)
    requires
        open != close,
    ensures
        match r {
            Ok(v) => parse_balanced_spec(data@, *old(pos) as nat, open, close) == Some(
                (v@, *final(pos) as nat),
            ),
            Err(_) => parse_balanced_spec(data@, *old(pos) as nat, open, close) is None,
        },
{
    if *pos >= data.len() || data[*pos] != open {
        return Err(PrimError {});
    }
    let start = *pos;
    let mut i = *pos + 1;
    let mut depth: usize = 1;
    while i < data.len() && !(data[i] == close && depth == 1)
        invariant
            start < i <= data@.len(),
            start < data@.len(),
            data@[start as int] == open,
            open != close,
            1 <= depth <= i - start,
            scan_balanced(data@, (start + 1) as nat, open, close, 1) == scan_balanced(
                data@,
                i as nat,
                open,
                close,
                depth as nat,
            ),
        decreases data@.len() - i,
    {
        if data[i] == close {
            depth = depth - 1;
        } else if data[i] == open {
            depth = depth + 1;
        }
        i += 1;
    }
    if i >= data.len() {
        return Err(PrimError {});
    }
    proof {
        assert(scan_balanced(data@, i as nat, open, close, depth as nat) == Some((i + 1) as nat));
    }
    let end = i + 1;
    let mut content: Vec<u8> = Vec::new();
    let mut k = start;
    while k < end
        invariant
            start <= k <= end <= data@.len(),
            content@ == data@.subrange(start as int, k as int),
        decreases end - k,
    {
        content.push(data[k]);
        proof {
            assert(content@ =~= data@.subrange(start as int, k + 1));
        }
        k += 1;
    }
    *pos = end;
    Ok(content)
}

/// Parse an array token, returning its raw bytes.
pub fn parse_array(data: &[u8], pos: &mut usize) -> (r: Result<Vec<u8>, PrimError>)
    ensures
        match r {
            Ok(v) => parse_array_spec(data@, *old(pos) as nat) == Some(
                (v@, *final(pos) as nat),
            ),
            Err(_) => parse_array_spec(data@, *old(pos) as nat) is None,
        },
{
    parse_balanced(data, pos, LBRACKET_BYTE, RBRACKET_BYTE)
}

/// Parse a nested-object token, returning its raw bytes.
pub fn parse_object(data: &[u8], pos: &mut usize) -> (r: Result<Vec<u8>, PrimError>)
    ensures
        match r {
            Ok(v) => parse_object_spec(data@, *old(pos) as nat) == Some(
                (v@, *final(pos) as nat),
            ),
            Err(_) => parse_object_spec(data@, *old(pos) as nat) is None,
        },
{
    parse_balanced(data, pos, LBRACE_BYTE, RBRACE_BYTE)
}

} // verus!
