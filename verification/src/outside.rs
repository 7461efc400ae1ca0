//! Calls into other crates, each with what is believed of it.

use base64::Engine;
use rand::{Rng, SeedableRng};
use vstd::arithmetic::power2::pow2;
use vstd::prelude::*;

verus! {

/// The random generator of the crate `rand`.
#[verifier::external_type_specification]
#[verifier::external_body]
pub struct ExStdRng(rand::rngs::StdRng);

/// Why a text is not a UUID.
#[verifier::external_type_specification]
#[verifier::external_body]
pub struct ExUuidError(uuid::Error);

/// Why a text is not the value of an HTTP header.
#[verifier::external_type_specification]
#[verifier::external_body]
pub struct ExInvalidHeaderValue(reqwest::header::InvalidHeaderValue);

/// A lower-case hexadecimal digit.
pub open spec fn hex_digit(d: nat) -> char {
    if d < 10 {
        ((48 + d) as u8) as char
    } else {
        ((87 + d) as u8) as char
    }
}

/// An upper-case hexadecimal digit.
pub open spec fn upper_hex_digit(d: nat) -> char {
    if d < 10 {
        ((48 + d) as u8) as char
    } else {
        ((55 + d) as u8) as char
    }
}

/// The place of a character of a hyphenated UUID among its digits.
pub open spec fn digit_place(i: int) -> int {
    if i < 8 {
        i
    } else if i < 13 {
        i - 1
    } else if i < 18 {
        i - 2
    } else if i < 23 {
        i - 3
    } else {
        i - 4
    }
}

/// A UUID as 32 lower-case hexadecimal digits in groups of 8, 4, 4, 4 and 12.
pub open spec fn hyphenated(id: u128) -> Seq<char> {
    Seq::new(
        36,
        |i: int|
            if i == 8 || i == 13 || i == 18 || i == 23 {
                '-'
            } else {
                hex_digit(id as nat / pow2((124 - 4 * digit_place(i)) as nat) % 16)
            },
    )
}

/// `uuid::Uuid::to_string`: the hyphenated text of the UUID with the given 128 bits.
#[verifier::external_body]
pub(crate) fn uuid_text(id: u128) -> (r: String)
    ensures
        r@ == hyphenated(id),
{
    uuid::Uuid::from_u128(id).to_string()
}

/// Whether the version field of a UUID says that it is random, and the variant field that it
/// is laid out as RFC 9562 says.
pub open spec fn is_random_uuid(id: u128) -> bool {
    &&& id as nat / pow2(76) % 16 == 4
    &&& id as nat / pow2(62) % 4 == 2
}

/// `uuid::Uuid::new_v4`: a random UUID. Nothing is said of its other bits, nor that two of
/// them differ. It panics where the operating system gives no random bytes.
#[verifier::external_body]
pub(crate) fn random_uuid() -> (r: u128)
    ensures
        is_random_uuid(r),
{
    uuid::Uuid::new_v4().as_u128()
}

/// The value of a hexadecimal digit of either case.
pub open spec fn hex_value(c: char) -> Option<nat> {
    let n = c as nat;
    if 48 <= n <= 57 {
        Some((n - 48) as nat)
    } else if 65 <= n <= 70 {
        Some((n - 55) as nat)
    } else if 97 <= n <= 102 {
        Some((n - 87) as nat)
    } else {
        None
    }
}

/// The number that a sequence of hexadecimal digits stands for.
pub open spec fn hex_number(s: Seq<char>) -> Option<nat>
    decreases s.len(),
{
    if s.len() == 0 {
        Some(0)
    } else {
        match (hex_number(s.drop_last()), hex_value(s.last())) {
            (Some(high), Some(low)) => Some(16 * high + low),
            _ => None,
        }
    }
}

/// Whether a text is `urn:uuid:`, in either case.
pub open spec fn is_urn_prefix(s: Seq<char>) -> bool {
    &&& s.len() == 9
    &&& s[0] == 'u' || s[0] == 'U'
    &&& s[1] == 'r' || s[1] == 'R'
    &&& s[2] == 'n' || s[2] == 'N'
    &&& s[3] == ':'
    &&& s[4] == 'u' || s[4] == 'U'
    &&& s[5] == 'u' || s[5] == 'U'
    &&& s[6] == 'i' || s[6] == 'I'
    &&& s[7] == 'd' || s[7] == 'D'
    &&& s[8] == ':'
}

/// The number that a hyphenated UUID of either case stands for.
pub open spec fn hyphenated_number(s: Seq<char>) -> Option<nat> {
    if s.len() == 36 && s[8] == '-' && s[13] == '-' && s[18] == '-' && s[23] == '-' {
        hex_number(
            s.subrange(0, 8) + s.subrange(9, 13) + s.subrange(14, 18) + s.subrange(19, 23)
                + s.subrange(24, 36),
        )
    } else {
        None
    }
}

/// The number that the text of a UUID stands for: 32 digits, or the hyphenated form, alone, in
/// braces or as a URN.
pub open spec fn uuid_number(s: Seq<char>) -> Option<nat> {
    if s.len() == 32 {
        hex_number(s)
    } else if s.len() == 38 && s[0] == '{' && s[37] == '}' {
        hyphenated_number(s.subrange(1, 37))
    } else if s.len() == 45 && is_urn_prefix(s.subrange(0, 9)) {
        hyphenated_number(s.subrange(9, 45))
    } else {
        hyphenated_number(s)
    }
}

/// `uuid::Uuid::parse_str`: succeeds on the texts of a UUID, and gives the number that they
/// stand for.
#[verifier::external_body]
pub(crate) fn parse_uuid(s: &str) -> (r: Result<u128, uuid::Error>)
    ensures
        match r {
            Ok(id) => uuid_number(s@) == Some(id as nat),
            Err(_) => uuid_number(s@) is None,
        },
{
    match uuid::Uuid::parse_str(s) {
        Ok(id) => Ok(id.as_u128()),
        Err(e) => Err(e),
    }
}

/// The text that `chrono` gives for a point in time (seconds and nanoseconds since the Unix epoch)
/// in a format; nothing where the point in time is outside its range.
pub uninterp spec fn time_in_format(secs: i64, nanos: u32, format: Seq<char>) -> Option<Seq<char>>;

/// `chrono::DateTime::from_timestamp` and `format`: a point in time in UTC, as text. Formatting
/// panics on a malformed format, so only the one in use is let through.
#[verifier::external_body]
pub(crate) fn format_time(secs: i64, nanos: u32, format: &str) -> (r: Option<String>)
    requires
        format@ == "%Y-%m-%d %H:%M:%S"@,
    ensures
        crate::model::opt_text(r) == time_in_format(secs, nanos, format@),
{
    match chrono::DateTime::from_timestamp(secs, nanos) {
        Some(t) => Some(t.format(format).to_string()),
        None => None,
    }
}

/// The character for six bits in base64.
pub open spec fn base64_char(d: nat) -> char {
    if d < 26 {
        ((65 + d) as u8) as char
    } else if d < 52 {
        ((71 + d) as u8) as char
    } else if d < 62 {
        ((d - 4) as u8) as char
    } else if d == 62 {
        '+'
    } else {
        '/'
    }
}

/// The byte at a place, and zero past the end.
pub open spec fn byte_or_zero(bytes: Seq<u8>, i: int) -> nat {
    if 0 <= i < bytes.len() {
        bytes[i] as nat
    } else {
        0
    }
}

/// Bytes in base64 with padding: four characters for every three bytes begun.
pub open spec fn base64_text(bytes: Seq<u8>) -> Seq<char> {
    Seq::new(
        (bytes.len() + 2) / 3 * 4,
        |k: int|
            {
                let i = k / 4 * 3;
                let group = byte_or_zero(bytes, i) * 65536 + byte_or_zero(bytes, i + 1) * 256
                    + byte_or_zero(bytes, i + 2);
                if k % 4 > bytes.len() - i {
                    '='
                } else if k % 4 == 0 {
                    base64_char(group / 262144)
                } else if k % 4 == 1 {
                    base64_char(group / 4096 % 64)
                } else if k % 4 == 2 {
                    base64_char(group / 64 % 64)
                } else {
                    base64_char(group % 64)
                }
            },
    )
}

/// `base64::Engine::encode` with the engine `STANDARD`: the standard alphabet, with padding.
/// Allocating the text panics where it would be longer than any allocation.
#[verifier::external_body]
pub(crate) fn encode_base64(bytes: &[u8]) -> (r: String)
    requires
        (bytes@.len() + 2) / 3 * 4 <= isize::MAX,
    ensures
        r@ == base64_text(bytes@),
{
    base64::engine::general_purpose::STANDARD.encode(bytes)
}

/// Whether a byte stands for itself in a URL.
pub open spec fn is_unreserved(b: u8) -> bool {
    ||| 48 <= b <= 57
    ||| 65 <= b <= 90
    ||| 97 <= b <= 122
    ||| b == 45
    ||| b == 46
    ||| b == 95
    ||| b == 126
}

/// Bytes with every one that does not stand for itself written as `%` and two upper-case
/// hexadecimal digits.
pub open spec fn percent_encoded(bytes: Seq<u8>) -> Seq<char>
    decreases bytes.len(),
{
    if bytes.len() == 0 {
        Seq::empty()
    } else {
        let b = bytes.last();
        let rest = percent_encoded(bytes.drop_last());
        if is_unreserved(b) {
            rest.push(b as char)
        } else {
            rest.push('%').push(upper_hex_digit((b / 16) as nat)).push(
                upper_hex_digit((b % 16) as nat),
            )
        }
    }
}

/// `urlencoding::encode`: the bytes of a text, percent-encoded.
#[verifier::external_body]
pub(crate) fn encode_url(s: &str) -> (r: String)
    ensures
        r@ == percent_encoded(vstd::utf8::encode_utf8(s@)),
{
    urlencoding::encode(s).into_owned()
}

/// Whether a byte may stand in the value of an HTTP header.
pub open spec fn is_header_byte(b: u8) -> bool {
    b == 9 || (b >= 32 && b != 127)
}

/// `reqwest::header::HeaderValue::from_str`: succeeds where every byte of the text may stand in a
/// header value.
#[verifier::external_body]
pub(crate) fn check_header_value(s: &str) -> (r: Result<(), reqwest::header::InvalidHeaderValue>)
    ensures
        r is Ok <==> (forall|i: int|
            #![trigger vstd::utf8::encode_utf8(s@)[i]]
            0 <= i < vstd::utf8::encode_utf8(s@).len() ==> is_header_byte(
                vstd::utf8::encode_utf8(s@)[i],
            )),
{
    match reqwest::header::HeaderValue::from_str(s) {
        Ok(_) => Ok(()),
        Err(e) => Err(e),
    }
}

/// `ToString::to_string` for `reqwest::header::InvalidHeaderValue`: the same text for all of them.
#[verifier::external_body]
pub(crate) fn header_error_text(e: &reqwest::header::InvalidHeaderValue) -> (r: String)
    ensures
        r@ == "failed to parse header value"@,
{
    e.to_string()
}

/// The text that bytes stand for, with those that are not UTF-8 replaced.
pub uninterp spec fn lossy_text(bytes: Seq<u8>) -> Seq<char>;

/// `String::from_utf8_lossy`: bytes that are UTF-8 stand for what they encode; how others are
/// replaced is left to the standard library.
#[verifier::external_body]
pub(crate) fn decode_lossy(bytes: &[u8]) -> (r: String)
    ensures
        r@ == lossy_text(bytes@),
        vstd::utf8::valid_utf8(bytes@) ==> r@ == vstd::utf8::decode_utf8(bytes@),
{
    String::from_utf8_lossy(bytes).into_owned()
}

/// The phrase that goes with an HTTP status, or that there is none.
pub uninterp spec fn reason_phrase(code: u16) -> Seq<char>;

/// The text of an HTTP status: its number and its phrase.
pub open spec fn status_phrase(code: u16) -> Seq<char> {
    crate::text::decimal(code as nat) + " "@ + reason_phrase(code)
}

/// `reqwest::StatusCode::to_string`, on the numbers that are status codes: the number, a space,
/// and the phrase, which is left to the crate.
#[verifier::external_body]
pub(crate) fn status_text(code: u16) -> (r: String)
    requires
        100 <= code <= 999,
    ensures
        r@ == crate::text::decimal(code as nat) + " "@ + reason_phrase(code),
{
    reqwest::StatusCode::from_u16(code).unwrap().to_string()
}

/// `rand::SeedableRng::from_entropy` for `StdRng`: a generator seeded by the operating system.
/// Nothing is said of what it will draw. It panics where the operating system gives no random
/// bytes.
#[verifier::external_body]
pub(crate) fn seeded_rng() -> rand::rngs::StdRng {
    rand::rngs::StdRng::from_entropy()
}

/// `rand::Rng::gen_range` for `StdRng` and a half-open range, which must not be empty.
#[verifier::external_body]
pub(crate) fn draw(rng: &mut rand::rngs::StdRng, low: u32, high: u32) -> (r: u32)
    requires
        low < high,
    ensures
        low <= r < high,
{
    rng.gen_range(low..high)
}

} // verus!
