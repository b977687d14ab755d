//! ASCII text helpers: decimal rendering and parsing of unsigned integers,
//! and turning ASCII bytes into a `String`.
use vstd::prelude::*;
use vstd::string::StringSliceAdditionalSpecFns;

verus! {

/// The characters of ASCII bytes.
pub open spec fn ascii_chars(bytes: Seq<u8>) -> Seq<char> {
    bytes.map_values(|b: u8| b as char)
}

/// Whether every byte is ASCII.
pub open spec fn is_ascii_bytes(bytes: Seq<u8>) -> bool {
    forall|i: int| 0 <= i < bytes.len() ==> bytes[i] < 128
}

/// The decimal digits of `n`, most significant first, without leading zeros.
pub open spec fn decimal(n: nat) -> Seq<u8>
    decreases n,
{
    if n < 10 {
        seq![(48 + n) as u8]
    } else {
        decimal(n / 10).push((48 + n % 10) as u8)
    }
}

pub proof fn lemma_decimal_ascii(n: nat)
    ensures
        is_ascii_bytes(decimal(n)),
        decimal(n).len() >= 1,
    decreases n,
{
    if n >= 10 {
        lemma_decimal_ascii(n / 10);
    }
}

/// Concatenated ASCII is ASCII.
pub proof fn lemma_ascii_concat(a: Seq<u8>, b: Seq<u8>)
    requires
        is_ascii_bytes(a),
        is_ascii_bytes(b),
    ensures
        is_ascii_bytes(a + b),
{
    assert forall|i: int| 0 <= i < (a + b).len() implies (a + b)[i] < 128 by {
        if i < a.len() {
            assert((a + b)[i] == a[i]);
        } else {
            assert((a + b)[i] == b[i - a.len()]);
        }
    }
}

/// A string slice whose characters are ASCII bytes is encoded as those bytes.
pub proof fn lemma_ascii_str_bytes(s: &str, b: Seq<u8>)
    requires
        s@ == ascii_chars(b),
        is_ascii_bytes(b),
    ensures
        s.spec_bytes() == b,
{
    broadcast use vstd::string::is_ascii_spec_bytes;

    assert(vstd::string::is_ascii(s)) by {
        assert forall|i: int| 0 <= i < s@.len() implies '\0' <= #[trigger] s@[i] <= '\u{7f}' by {
            assert(s@[i] == (b[i] as char));
        }
    }
    assert(s.spec_bytes() =~= b) by {
        assert forall|i: int| 0 <= i < b.len() implies s.spec_bytes()[i] == b[i] by {
            assert(s@[i] == (b[i] as char));
        }
    }
}

/// Calls `String::from_utf8` on ASCII bytes. ASCII is valid UTF-8, so std
/// returns `Ok` with one character per byte; the error arm is never taken.
#[verifier::external_body]
pub(crate) fn string_from_ascii(bytes: Vec<u8>) -> (s: String)
    requires
        is_ascii_bytes(bytes@),
    ensures
        s@ == ascii_chars(bytes@),
{
    match String::from_utf8(bytes) {
        Ok(s) => s,
        Err(_) => String::new(),
    }
}

/// Appends the decimal digits of `n`.
pub fn push_decimal(out: &mut Vec<u8>, n: u64)
    ensures
        final(out)@ == old(out)@ + decimal(n as nat),
    decreases n,
{
    if n >= 10 {
        push_decimal(out, n / 10);
    }
    let digit: u8 = (n % 10) as u8;
    out.push(48u8 + digit);
    proof {
        if n >= 10 {
            assert(decimal(n as nat) == decimal((n / 10) as nat).push((48 + n % 10) as u8));
        }
    }
    assert(final(out)@ =~= old(out)@ + decimal(n as nat));
}

/// Appends the decimal digits of `n` to ASCII bytes.
pub fn push_decimal_ascii(out: &mut Vec<u8>, n: u64)
    requires
        is_ascii_bytes(old(out)@),
    ensures
        final(out)@ == old(out)@ + decimal(n as nat),
        is_ascii_bytes(final(out)@),
{
    let ghost start = out@;
    push_decimal(out, n);
    proof {
        lemma_decimal_ascii(n as nat);
        lemma_ascii_concat(start, decimal(n as nat));
    }
}

/// Appends ASCII bytes to ASCII bytes.
pub fn push_ascii(out: &mut Vec<u8>, src: &[u8])
    requires
        is_ascii_bytes(old(out)@),
        is_ascii_bytes(src@),
    ensures
        final(out)@ == old(out)@ + src@,
        is_ascii_bytes(final(out)@),
{
    let ghost start = out@;
    crate::bytes::push_all(out, src);
    proof {
        lemma_ascii_concat(start, src@);
    }
}

/// Appends `src`.
pub fn push_bytes(out: &mut Vec<u8>, src: &[u8])
    ensures
        final(out)@ == old(out)@ + src@,
{
    crate::bytes::push_all(out, src);
}

/// Why an unsigned decimal does not parse, as std reports it.
#[derive(Debug, Clone, Copy, PartialEq, Eq, Structural)]
pub enum ParseUintError {
    Empty,
    InvalidDigit,
    PosOverflow,
}

/// The message std's `ParseIntError` displays for each kind.
pub open spec fn parse_error_message(e: ParseUintError) -> Seq<u8> {
    match e {
        ParseUintError::Empty => msg_empty(),
        ParseUintError::InvalidDigit => msg_invalid_digit(),
        ParseUintError::PosOverflow => msg_pos_overflow(),
    }
}

/// `"cannot parse integer from empty string"`.
pub open spec fn msg_empty() -> Seq<u8> {
    seq![
        0x63u8, 0x61, 0x6e, 0x6e, 0x6f, 0x74, 0x20, 0x70, 0x61, 0x72, 0x73, 0x65, 0x20, 0x69, 0x6e,
        0x74, 0x65, 0x67, 0x65, 0x72, 0x20, 0x66, 0x72, 0x6f, 0x6d, 0x20, 0x65, 0x6d, 0x70, 0x74,
        0x79, 0x20, 0x73, 0x74, 0x72, 0x69, 0x6e, 0x67,
    ]
}

/// `"invalid digit found in string"`.
pub open spec fn msg_invalid_digit() -> Seq<u8> {
    seq![
        0x69u8, 0x6e, 0x76, 0x61, 0x6c, 0x69, 0x64, 0x20, 0x64, 0x69, 0x67, 0x69, 0x74, 0x20, 0x66,
        0x6f, 0x75, 0x6e, 0x64, 0x20, 0x69, 0x6e, 0x20, 0x73, 0x74, 0x72, 0x69, 0x6e, 0x67,
    ]
}

/// `"number too large to fit in target type"`.
pub open spec fn msg_pos_overflow() -> Seq<u8> {
    seq![
        0x6eu8, 0x75, 0x6d, 0x62, 0x65, 0x72, 0x20, 0x74, 0x6f, 0x6f, 0x20, 0x6c, 0x61, 0x72, 0x67,
        0x65, 0x20, 0x74, 0x6f, 0x20, 0x66, 0x69, 0x74, 0x20, 0x69, 0x6e, 0x20, 0x74, 0x61, 0x72,
        0x67, 0x65, 0x74, 0x20, 0x74, 0x79, 0x70, 0x65,
    ]
}

pub fn parse_error_message_bytes(e: ParseUintError) -> (r: Vec<u8>)
    ensures
        r@ == parse_error_message(e),
        is_ascii_bytes(r@),
{
    let r: Vec<u8> = match e {
        ParseUintError::Empty => vec![
            0x63u8, 0x61, 0x6e, 0x6e, 0x6f, 0x74, 0x20, 0x70, 0x61, 0x72, 0x73, 0x65, 0x20, 0x69,
            0x6e, 0x74, 0x65, 0x67, 0x65, 0x72, 0x20, 0x66, 0x72, 0x6f, 0x6d, 0x20, 0x65, 0x6d,
            0x70, 0x74, 0x79, 0x20, 0x73, 0x74, 0x72, 0x69, 0x6e, 0x67,
        ],
        ParseUintError::InvalidDigit => vec![
            0x69u8, 0x6e, 0x76, 0x61, 0x6c, 0x69, 0x64, 0x20, 0x64, 0x69, 0x67, 0x69, 0x74, 0x20,
            0x66, 0x6f, 0x75, 0x6e, 0x64, 0x20, 0x69, 0x6e, 0x20, 0x73, 0x74, 0x72, 0x69, 0x6e,
            0x67,
        ],
        ParseUintError::PosOverflow => vec![
            0x6eu8, 0x75, 0x6d, 0x62, 0x65, 0x72, 0x20, 0x74, 0x6f, 0x6f, 0x20, 0x6c, 0x61, 0x72,
            0x67, 0x65, 0x20, 0x74, 0x6f, 0x20, 0x66, 0x69, 0x74, 0x20, 0x69, 0x6e, 0x20, 0x74,
            0x61, 0x72, 0x67, 0x65, 0x74, 0x20, 0x74, 0x79, 0x70, 0x65,
        ],
    };
    assert(r@ =~= parse_error_message(e));
    r
}

pub open spec fn is_digit(b: u8) -> bool {
    48 <= b <= 57
}

/// The value of the digits of `s` read as a decimal (no bound).
pub open spec fn digits_value(s: Seq<u8>) -> nat
    decreases s.len(),
{
    if s.len() == 0 {
        0
    } else {
        digits_value(s.drop_last()) * 10 + (s.last() - 48) as nat
    }
}

/// How std's `str::parse` for an unsigned type with maximum `max` reads the
/// digits `s` (after any leading `+`), scanning from the left: the first
/// non-digit is an invalid digit, and the first digit that takes the value
/// past `max` an overflow.
pub open spec fn scan_digits(s: Seq<u8>, max: nat) -> Result<nat, ParseUintError>
    decreases s.len(),
{
    if s.len() == 0 {
        Ok(0)
    } else {
        match scan_digits(s.drop_last(), max) {
            Err(e) => Err(e),
            Ok(v) => if !is_digit(s.last()) {
                Err(ParseUintError::InvalidDigit)
            } else if v * 10 + (s.last() - 48) > max {
                Err(ParseUintError::PosOverflow)
            } else {
                Ok(v * 10 + (s.last() - 48) as nat)
            },
        }
    }
}

/// std's unsigned decimal parse: empty input is `Empty`; a leading `+` is
/// allowed but not alone; then `scan_digits`.
pub open spec fn parse_uint(s: Seq<u8>, max: nat) -> Result<nat, ParseUintError> {
    if s.len() == 0 {
        Err(ParseUintError::Empty)
    } else if s[0] == 0x2b {
        if s.len() == 1 {
            Err(ParseUintError::InvalidDigit)
        } else {
            scan_digits(s.drop_first(), max)
        }
    } else {
        scan_digits(s, max)
    }
}

proof fn lemma_scan_bound(s: Seq<u8>, max: nat)
    ensures
        scan_digits(s, max) matches Ok(v) ==> v <= max,
    decreases s.len(),
{
    if s.len() > 0 {
        lemma_scan_bound(s.drop_last(), max);
    }
}

/// Parses `s[start..end]` as std parses an unsigned integer whose maximum is
/// `max`.
pub fn parse_uint_bytes(s: &[u8], start: usize, end: usize, max: u64) -> (r: Result<
    u64,
    ParseUintError,
>)
    requires
        start <= end <= s@.len(),
    ensures
        match parse_uint(s@.subrange(start as int, end as int), max as nat) {
            Ok(v) => r == Ok::<u64, ParseUintError>(v as u64),
            Err(e) => r == Err::<u64, ParseUintError>(e),
        },
{
    let ghost t = s@.subrange(start as int, end as int);
    if start == end {
        return Err(ParseUintError::Empty);
    }
    let mut i = start;
    if s[start] == 0x2b {
        if end - start == 1 {
            return Err(ParseUintError::InvalidDigit);
        }
        i = start + 1;
    }
    let ghost digits = s@.subrange(i as int, end as int);
    assert(parse_uint(t, max as nat) == scan_digits(digits, max as nat)) by {
        if s[start as int] == 0x2b {
            assert(t.drop_first() =~= digits);
        } else {
            assert(t =~= digits);
        }
    }
    let first = i;
    let mut value: u64 = 0;
    assert(s@.subrange(first as int, first as int) =~= Seq::<u8>::empty());
    while i < end
        invariant
            first <= i <= end <= s@.len(),
            digits == s@.subrange(first as int, end as int),
            parse_uint(s@.subrange(start as int, end as int), max as nat) == scan_digits(
                digits,
                max as nat,
            ),
            scan_digits(s@.subrange(first as int, i as int), max as nat) == Ok::<
                nat,
                ParseUintError,
            >(value as nat),
            value <= max,
        decreases end - i,
    {
        let b = s[i];
        let ghost prefix = s@.subrange(first as int, i + 1);
        assert(prefix.drop_last() =~= s@.subrange(first as int, i as int));
        assert(prefix.last() == b);
        if b < 48 || b > 57 {
            assert(digits.subrange(0, (i - first) + 1) =~= prefix);
            proof {
                lemma_scan_prefix_error(digits, (i - first) as int, max as nat, ParseUintError::InvalidDigit);
            }
            return Err(ParseUintError::InvalidDigit);
        }
        let d = (b - 48) as u64;
        assert(digits.subrange(0, (i - first) + 1) =~= prefix);
        if d > max || value > (max - d) / 10 {
            assert(value * 10 + d > max) by (nonlinear_arith)
                requires
                    d > max || value > (max - d) / 10,
                    value <= max,
            ;
            proof {
                lemma_scan_prefix_error(digits, (i - first) as int, max as nat, ParseUintError::PosOverflow);
            }
            return Err(ParseUintError::PosOverflow);
        }
        assert(value * 10 + d <= max) by (nonlinear_arith)
            requires
                value <= (max - d) / 10,
                d <= max,
        ;
        value = value * 10 + d;
        i = i + 1;
    }
    assert(s@.subrange(first as int, end as int) =~= digits);
    Ok(value)
}

/// An error at some prefix of the digits is the scan's answer.
proof fn lemma_scan_prefix_error(s: Seq<u8>, n: int, max: nat, e: ParseUintError)
    requires
        0 <= n < s.len(),
        scan_digits(s.subrange(0, n + 1), max) == Err::<nat, ParseUintError>(e),
    ensures
        scan_digits(s, max) == Err::<nat, ParseUintError>(e),
    decreases s.len(),
{
    if n + 1 == s.len() {
        assert(s.subrange(0, n + 1) =~= s);
    } else {
        assert(s.drop_last().subrange(0, n + 1) =~= s.subrange(0, n + 1));
        lemma_scan_prefix_error(s.drop_last(), n, max, e);
    }
}

/// Whether two strings hold the same characters, compared by their UTF-8
/// bytes (the encoding is one to one).
pub fn str_eq(a: &str, b: &str) -> (r: bool)
    ensures
        r == (a@ == b@),
{
    let r = crate::bytes::bytes_equal(a.as_bytes(), b.as_bytes());
    proof {
        broadcast use vstd::utf8::encode_utf8_decode_utf8;

        if r {
            assert(vstd::utf8::decode_utf8(vstd::utf8::encode_utf8(a@)) == a@);
            assert(vstd::utf8::decode_utf8(vstd::utf8::encode_utf8(b@)) == b@);
        }
    }
    r
}

/// Calls `String::from_utf8`: the string the bytes encode if they are valid
/// UTF-8 (std refuses exactly the invalid ones), else std's error turned
/// into its message. The message's text is not stated here.
#[verifier::external_body]
pub(crate) fn string_from_utf8(bytes: Vec<u8>) -> (r: Result<String, String>)
    ensures
        r is Ok <==> vstd::utf8::valid_utf8(bytes@),
        r matches Ok(s) ==> s@ == vstd::utf8::decode_utf8(bytes@),
{
    match String::from_utf8(bytes) {
        Ok(s) => Ok(s),
        Err(error) => Err(error.to_string()),
    }
}

} // verus!
