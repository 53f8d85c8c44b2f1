//! Reading single fields of a cartridge header: a field as text, and the
//! header checksum.

use std::ops::Range;
use vstd::prelude::*;
use vstd::utf8::{decode_utf8, valid_utf8};

verus! {

/// The offset of the first byte that the checksum covers.
pub const CHECKSUM_FIRST: usize = 0xA0;

/// The offset past the last byte that the checksum covers.
pub const CHECKSUM_END: usize = 0xBC;

/// What the checksum takes off besides the bytes.
pub const CHECKSUM_BIAS: u8 = 0x19;

/// Why a header field could not be read.
#[derive(Debug, Clone, Copy, PartialEq, Eq, Structural)]
pub enum HeaderError {
    /// The byte range asked for does not lie inside the header.
    OutOfRange,
    /// The header ends before the last byte that the checksum covers.
    Truncated,
}

/// The character of the decimal digit `d`.
pub open spec fn digit(d: int) -> char {
    ('0' as int + d) as char
}

/// `n` in decimal, without leading zeros.
pub open spec fn decimal(n: nat) -> Seq<char>
    decreases n,
{
    if n < 10 {
        seq![digit(n as int)]
    } else {
        decimal(n / 10).push(digit((n % 10) as int))
    }
}

/// The bytes in decimal, with a comma and a space between two of them.
pub open spec fn listed(bytes: Seq<u8>) -> Seq<char>
    decreases bytes.len(),
{
    if bytes.len() == 0 {
        Seq::<char>::empty()
    } else if bytes.len() == 1 {
        decimal(bytes[0] as nat)
    } else {
        listed(bytes.drop_last()) + seq![',', ' '] + decimal(bytes.last() as nat)
    }
}

/// The bytes as a list in square brackets.
pub open spec fn bracketed(bytes: Seq<u8>) -> Seq<char> {
    seq!['['] + listed(bytes) + seq![']']
}

/// A field as text: its bytes as a list and, where they are well-formed
/// UTF-8, a colon, a space and the text that they encode.
pub open spec fn field_text(bytes: Seq<u8>) -> Seq<char> {
    if valid_utf8(bytes) {
        bracketed(bytes) + seq![':', ' '] + decode_utf8(bytes)
    } else {
        bracketed(bytes)
    }
}

/// The sum of the bytes.
pub open spec fn byte_sum(bytes: Seq<u8>) -> int
    decreases bytes.len(),
{
    if bytes.len() == 0 {
        0
    } else {
        byte_sum(bytes.drop_last()) + bytes.last()
    }
}

/// The checksum of a header: zero less the bytes from offset `0xA0` up to,
/// and without, offset `0xBC`, less `0x19`, in eight bits.
pub open spec fn checksum(header: Seq<u8>) -> int {
    (0 - byte_sum(header.subrange(CHECKSUM_FIRST as int, CHECKSUM_END as int)) - CHECKSUM_BIAS)
        % 256
}

/// `String::from_utf8` on a copy of the bytes: the text that the bytes
/// encode, where they are well-formed UTF-8, and `None` where they are not.
#[verifier::external_body]
fn utf8_text(bytes: &[u8]) -> (text: Option<String>)
    ensures
        text is Some <==> valid_utf8(bytes@),
        text is Some ==> text->0@ == decode_utf8(bytes@),
{
    String::from_utf8(bytes.to_vec()).ok()
}

/// The character of the decimal digit `d`.
fn digit_char(d: u8) -> (c: char)
    requires
        d < 10,
    ensures
        c == digit(d as int),
{
    (0x30 + d) as char
}

/// Appends `n` in decimal to `out`.
pub fn push_decimal(out: &mut String, n: u8)
    ensures
        final(out)@ == old(out)@ + decimal(n as nat),
{
    if n >= 100 {
        out.push(digit_char(n / 100));
    }
    if n >= 10 {
        out.push(digit_char((n / 10) % 10));
    }
    out.push(digit_char(n % 10));
    proof {
        reveal_with_fuel(decimal, 3);
    }
}

/// `n` in decimal.
pub fn decimal_string(n: u8) -> (text: String)
    ensures
        text@ == decimal(n as nat),
{
    let mut text = String::new();
    push_decimal(&mut text, n);
    text
}

/// The bytes as a list in square brackets.
pub fn bracketed_string(bytes: &[u8]) -> (text: String)
    ensures
        text@ == bracketed(bytes@),
{
    let mut text = String::new();
    text.push('[');
    let mut i: usize = 0;
    while i < bytes.len()
        invariant
            i <= bytes.len(),
            text@ == seq!['['] + listed(bytes@.take(i as int)),
        decreases bytes.len() - i,
    {
        if i > 0 {
            text.push(',');
            text.push(' ');
        }
        push_decimal(&mut text, bytes[i]);
        proof {
            let now = bytes@.take(i + 1);
            assert(now.drop_last() =~= bytes@.take(i as int));
            if i > 0 {
                assert(text@ =~= seq!['['] + (listed(bytes@.take(i as int)) + seq![',', ' ']
                    + decimal(bytes@[i as int] as nat)));
            }
        }
        i += 1;
    }
    assert(bytes@.take(bytes@.len() as int) =~= bytes@);
    text.push(']');
    text
}

/// Reads the bytes of `header` in the range `offset` as text.
pub fn parse_header(header: &Vec<u8>, offset: Range<usize>) -> (parsed: Result<
    String,
    HeaderError,
>)
    ensures
        match parsed {
            Ok(text) => offset.start <= offset.end <= header@.len() && text@ == field_text(
                header@.subrange(offset.start as int, offset.end as int),
            ),
            Err(e) => e == HeaderError::OutOfRange && !(offset.start <= offset.end
                <= header@.len()),
        },
{
    if offset.start > offset.end || offset.end > header.len() {
        return Err(HeaderError::OutOfRange);
    }
    let bytes = vstd::slice::slice_subrange(header.as_slice(), offset.start, offset.end);
    let mut text = bracketed_string(bytes);
    match utf8_text(bytes) {
        Some(decoded) => {
            text.push(':');
            text.push(' ');
            text.append(decoded.as_str());
        },
        None => {},
    }
    Ok(text)
}

/// Computes the checksum of a header.
pub fn header_checksum(header: &Vec<u8>) -> (sum: Result<u8, HeaderError>)
    ensures
        match sum {
            Ok(chk) => header@.len() >= CHECKSUM_END && chk == checksum(header@),
            Err(e) => e == HeaderError::Truncated && header@.len() < CHECKSUM_END,
        },
{
    if header.len() < CHECKSUM_END {
        return Err(HeaderError::Truncated);
    }
    let ghost covered = header@.subrange(CHECKSUM_FIRST as int, CHECKSUM_END as int);
    let mut chk: u8 = 0;
    let mut i: usize = CHECKSUM_FIRST;
    while i < CHECKSUM_END
        invariant
            CHECKSUM_FIRST <= i <= CHECKSUM_END <= header@.len(),
            covered == header@.subrange(CHECKSUM_FIRST as int, CHECKSUM_END as int),
            chk == (0 - byte_sum(covered.take(i - CHECKSUM_FIRST))) % 256,
        decreases CHECKSUM_END - i,
    {
        proof {
            let now = covered.take(i + 1 - CHECKSUM_FIRST);
            assert(now.drop_last() =~= covered.take(i - CHECKSUM_FIRST));
        }
        chk = chk.wrapping_sub(header[i]);
        i += 1;
    }
    assert(covered.take(CHECKSUM_END - CHECKSUM_FIRST) =~= covered);
    Ok(chk.wrapping_sub(CHECKSUM_BIAS))
}

/// Computes the checksum of a header and gives it in decimal.
pub fn validate_checksum(header: &Vec<u8>) -> (text: Result<String, HeaderError>)
    ensures
        match text {
            Ok(digits) => header@.len() >= CHECKSUM_END && digits@ == decimal(
                checksum(header@) as nat,
            ),
            Err(e) => e == HeaderError::Truncated && header@.len() < CHECKSUM_END,
        },
{
    match header_checksum(header) {
        Ok(chk) => Ok(decimal_string(chk)),
        Err(e) => Err(e),
    }
}

} // verus!
