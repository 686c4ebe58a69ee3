//! Text encodings: Base64, percent-encoding, UTF-8 and letter case.
use base64::engine::general_purpose;
use base64::{DecodeError, Engine};
use vstd::prelude::*;
use vstd::utf8::{decode_utf8, encode_utf8, is_ascii_chars, is_scalar, valid_utf8};

use crate::text::{all_white, lemma_trimmed_core, lemma_trimmed_same, trim, trimmed, white_space};

verus! {

/// Why a text is not Base64.
#[derive(Debug, Clone, Copy, PartialEq, Eq)]
pub enum Base64Error {
    /// A byte outside the alphabet: where it stands, and the byte.
    InvalidByte(usize, u8),
    /// A number of symbols that no encoding has.
    InvalidLength(usize),
    /// A last symbol with bits that stand for nothing: where it stands, and the symbol.
    InvalidLastSymbol(usize, u8),
    /// Padding that is missing or wrong.
    InvalidPadding,
}

/// The outcome of a decoding, with the bytes as a sequence.
pub open spec fn decoding(outcome: Result<Vec<u8>, Base64Error>) -> Result<Seq<u8>, Base64Error> {
    match outcome {
        Ok(bytes) => Ok(bytes@),
        Err(error) => Err(error),
    }
}

/// The symbol for six bits, in the standard or the URL-safe alphabet.
pub open spec fn symbol(bits: int, url_safe: bool) -> char {
    if bits < 26 {
        ('A' as int + bits) as char
    } else if bits < 52 {
        ('a' as int + bits - 26) as char
    } else if bits < 62 {
        ('0' as int + bits - 52) as char
    } else if bits == 62 {
        if url_safe {
            '-'
        } else {
            '+'
        }
    } else {
        if url_safe {
            '_'
        } else {
            '/'
        }
    }
}

/// The padded Base64 text of bytes: four symbols for each three bytes, and for what is left two
/// or three symbols, filled up with `=`.
pub open spec fn base64_text(bytes: Seq<u8>, url_safe: bool) -> Seq<char>
    decreases bytes.len(),
{
    if bytes.len() == 0 {
        Seq::empty()
    } else if bytes.len() == 1 {
        let bits = bytes[0] * 16;
        seq![symbol(bits / 64, url_safe), symbol(bits % 64, url_safe), '=', '=']
    } else if bytes.len() == 2 {
        let bits = (bytes[0] * 256 + bytes[1]) * 4;
        seq![
            symbol(bits / 4096, url_safe),
            symbol(bits / 64 % 64, url_safe),
            symbol(bits % 64, url_safe),
            '=',
        ]
    } else {
        let bits = bytes[0] * 65536 + bytes[1] * 256 + bytes[2];
        seq![
            symbol(bits / 262144, url_safe),
            symbol(bits / 4096 % 64, url_safe),
            symbol(bits / 64 % 64, url_safe),
            symbol(bits % 64, url_safe),
        ] + base64_text(bytes.skip(3), url_safe)
    }
}

/// Whether a text is the padded Base64 text of some bytes.
pub open spec fn is_base64(text: Seq<char>, url_safe: bool) -> bool {
    exists|bytes: Seq<u8>| #[trigger] base64_text(bytes, url_safe) == text
}

/// The bytes that a text is the padded Base64 text of.
pub open spec fn base64_bytes(text: Seq<char>, url_safe: bool) -> Seq<u8> {
    choose|bytes: Seq<u8>| #[trigger] base64_text(bytes, url_safe) == text
}

/// Calls `base64::Engine::decode` on `general_purpose::STANDARD`, which requires canonical
/// padding and no stray bits: it takes the padded text of bytes in the standard alphabet, and no
/// other.
#[verifier::external_body]
fn decode_standard(text: &str) -> (outcome: Option<Vec<u8>>)
    ensures
        match outcome {
            Some(bytes) => base64_text(bytes@, false) == text@,
            None => !is_base64(text@, false),
        },
{
    general_purpose::STANDARD.decode(text).ok()
}

/// Why a text is no padded Base64 in the URL-safe alphabet.
pub uninterp spec fn url_safe_error(text: Seq<char>) -> Base64Error;

/// Calls `base64::Engine::decode` on `general_purpose::URL_SAFE`, which requires canonical
/// padding and no stray bits: it takes the padded text of bytes in the URL-safe alphabet, and no
/// other. The error depends on the text alone; it is the crate's, variant for variant, and which
/// it is is not stated.
#[verifier::external_body]
fn decode_url_safe(text: &str) -> (outcome: Result<Vec<u8>, Base64Error>)
    ensures
        match outcome {
            Ok(bytes) => base64_text(bytes@, true) == text@,
            Err(error) => !is_base64(text@, true) && error == url_safe_error(text@),
        },
{
    match general_purpose::URL_SAFE.decode(text) {
        Ok(bytes) => Ok(bytes),
        Err(DecodeError::InvalidByte(at, byte)) => Err(Base64Error::InvalidByte(at, byte)),
        Err(DecodeError::InvalidLength(len)) => Err(Base64Error::InvalidLength(len)),
        Err(DecodeError::InvalidLastSymbol(at, b)) => Err(Base64Error::InvalidLastSymbol(at, b)),
        Err(DecodeError::InvalidPadding) => Err(Base64Error::InvalidPadding),
    }
}

/// What a text, its outer white space aside, decodes to: the bytes that it is the padded text of
/// in either alphabet.
pub open spec fn base64_decoding(text: Seq<char>) -> Result<Seq<u8>, Base64Error> {
    let core = trimmed(text);
    if is_base64(core, false) {
        Ok(base64_bytes(core, false))
    } else if is_base64(core, true) {
        Ok(base64_bytes(core, true))
    } else {
        Err(url_safe_error(core))
    }
}

/// Decodes Base64 in the standard or the URL-safe alphabet.
pub fn decode_base64_safe(input: &str) -> (outcome: Result<Vec<u8>, Base64Error>)
    ensures
        decoding(outcome) == base64_decoding(input@),
{
    let text = trim(input);
    match decode_standard(text.as_str()) {
        Some(bytes) => {
            proof {
                lemma_base64_injective(base64_bytes(text@, false), bytes@, false, false);
            }
            Ok(bytes)
        },
        None => {
            match decode_url_safe(text.as_str()) {
                Ok(bytes) => {
                    proof {
                        lemma_base64_injective(base64_bytes(text@, true), bytes@, true, true);
                    }
                    Ok(bytes)
                },
                Err(error) => Err(error),
            }
        },
    }
}

/// A symbol stands for its six bits alone, in whichever alphabet, and is neither padding nor a
/// colon nor white space.
proof fn lemma_symbol(m: int, u: bool, n: int, v: bool)
    requires
        0 <= m < 64,
        0 <= n < 64,
    ensures
        symbol(m, u) == symbol(n, v) ==> m == n,
        symbol(m, u) != '=',
        symbol(m, u) != ':',
        !white_space(symbol(m, u)),
{
}

/// Base64 text holds no colon and no white space.
pub proof fn lemma_base64_chars(bytes: Seq<u8>, url_safe: bool)
    ensures
        forall|i: int|
            0 <= i < base64_text(bytes, url_safe).len() ==> (#[trigger] base64_text(
                bytes,
                url_safe,
            )[i]) != ':' && !white_space(base64_text(bytes, url_safe)[i]),
    decreases bytes.len(),
{
    let text = base64_text(bytes, url_safe);
    if bytes.len() == 1 {
        let bits = bytes[0] * 16;
        lemma_symbol(bits / 64, url_safe, bits % 64, url_safe);
        lemma_symbol(bits % 64, url_safe, 0, url_safe);
    } else if bytes.len() == 2 {
        let bits = (bytes[0] * 256 + bytes[1]) * 4;
        lemma_symbol(bits / 4096, url_safe, 0, url_safe);
        lemma_symbol(bits / 64 % 64, url_safe, 0, url_safe);
        lemma_symbol(bits % 64, url_safe, 0, url_safe);
    } else if bytes.len() > 2 {
        let bits = bytes[0] * 65536 + bytes[1] * 256 + bytes[2];
        let rest = base64_text(bytes.skip(3), url_safe);
        lemma_symbol(bits / 262144, url_safe, 0, url_safe);
        lemma_symbol(bits / 4096 % 64, url_safe, 0, url_safe);
        lemma_symbol(bits / 64 % 64, url_safe, 0, url_safe);
        lemma_symbol(bits % 64, url_safe, 0, url_safe);
        lemma_base64_chars(bytes.skip(3), url_safe);
        assert forall|i: int| 0 <= i < text.len() implies (#[trigger] text[i]) != ':'
            && !white_space(text[i]) by {
            if i >= 4 {
                assert(text[i] == rest[i - 4]);
            }
        }
    }
}

/// Numbers with the same groups of six bits are the same.
proof fn lemma_same_bits(m: int, n: int)
    requires
        0 <= m,
        0 <= n,
        m / 262144 == n / 262144,
        m / 4096 % 64 == n / 4096 % 64,
        m / 64 % 64 == n / 64 % 64,
        m % 64 == n % 64,
    ensures
        m == n,
{
    assert(m / 4096 == 64 * (m / 262144) + m / 4096 % 64);
    assert(n / 4096 == 64 * (n / 262144) + n / 4096 % 64);
    assert(m / 64 == 64 * (m / 4096) + m / 64 % 64);
    assert(n / 64 == 64 * (n / 4096) + n / 64 % 64);
}

/// Three bytes are told by their bits.
proof fn lemma_same_bytes(a: Seq<u8>, b: Seq<u8>)
    requires
        a.len() >= 3,
        b.len() >= 3,
        a[0] * 65536 + a[1] * 256 + a[2] == b[0] * 65536 + b[1] * 256 + b[2],
    ensures
        a.take(3) == b.take(3),
{
    assert(a[0] == b[0] && a[1] == b[1] && a[2] == b[2]);
    assert(a.take(3) =~= b.take(3));
}

/// Texts that begin with the same four symbols stand for the same three bytes.
proof fn lemma_same_symbols(a: Seq<u8>, b: Seq<u8>, u: bool, v: bool)
    requires
        a.len() >= 3,
        b.len() >= 3,
        base64_text(a, u) == base64_text(b, v),
    ensures
        a.take(3) == b.take(3),
        base64_text(a.skip(3), u) == base64_text(b.skip(3), v),
{
    let s = base64_text(a, u);
    let t = base64_text(b, v);
    let m = a[0] * 65536 + a[1] * 256 + a[2];
    let n = b[0] * 65536 + b[1] * 256 + b[2];
    assert(s[0] == symbol(m / 262144, u) && t[0] == symbol(n / 262144, v));
    assert(s[1] == symbol(m / 4096 % 64, u) && t[1] == symbol(n / 4096 % 64, v));
    assert(s[2] == symbol(m / 64 % 64, u) && t[2] == symbol(n / 64 % 64, v));
    assert(s[3] == symbol(m % 64, u) && t[3] == symbol(n % 64, v));
    assert(s.skip(4) =~= base64_text(a.skip(3), u));
    assert(t.skip(4) =~= base64_text(b.skip(3), v));
    lemma_symbol(m / 262144, u, n / 262144, v);
    lemma_symbol(m / 4096 % 64, u, n / 4096 % 64, v);
    lemma_symbol(m / 64 % 64, u, n / 64 % 64, v);
    lemma_symbol(m % 64, u, n % 64, v);
    lemma_same_bits(m, n);
    lemma_same_bytes(a, b);
}

/// Padded texts of one or two bytes stand for the same bytes where they are the same.
proof fn lemma_same_rest(a: Seq<u8>, b: Seq<u8>, u: bool, v: bool)
    requires
        1 <= a.len() <= 2,
        b.len() == a.len(),
        base64_text(a, u) == base64_text(b, v),
    ensures
        a == b,
{
    let s = base64_text(a, u);
    let t = base64_text(b, v);
    assert(s[0] == t[0] && s[1] == t[1] && s[2] == t[2]);
    if a.len() == 1 {
        let m = a[0] * 16;
        let n = b[0] * 16;
        lemma_symbol(m / 64, u, n / 64, v);
        lemma_symbol(m % 64, u, n % 64, v);
        assert(m == n);
    } else {
        let m = (a[0] * 256 + a[1]) * 4;
        let n = (b[0] * 256 + b[1]) * 4;
        lemma_symbol(m / 4096, u, n / 4096, v);
        lemma_symbol(m / 64 % 64, u, n / 64 % 64, v);
        lemma_symbol(m % 64, u, n % 64, v);
        assert(m == 64 * (m / 64) + m % 64);
        assert(n == 64 * (n / 64) + n % 64);
        assert(m / 64 == 64 * (m / 4096) + m / 64 % 64);
        assert(n / 64 == 64 * (n / 4096) + n / 64 % 64);
        assert(m == n);
    }
    assert(a =~= b);
}

/// No two lists of bytes have the same Base64 text, in whichever alphabets.
pub proof fn lemma_base64_injective(a: Seq<u8>, b: Seq<u8>, u: bool, v: bool)
    requires
        base64_text(a, u) == base64_text(b, v),
    ensures
        a == b,
    decreases a.len(),
{
    lemma_base64_shape(a, u);
    lemma_base64_shape(b, v);
    if a.len() == 0 {
        assert(a =~= b);
    } else if a.len() <= 2 {
        lemma_same_rest(a, b, u, v);
    } else {
        lemma_same_symbols(a, b, u, v);
        lemma_base64_injective(a.skip(3), b.skip(3), u, v);
        assert(a =~= a.take(3) + a.skip(3));
        assert(b =~= b.take(3) + b.skip(3));
    }
}

/// The first four characters of a Base64 text tell whether there are one, two or more bytes.
proof fn lemma_base64_shape(bytes: Seq<u8>, url_safe: bool)
    ensures
        ({
            let text = base64_text(bytes, url_safe);
            &&& text.len() == 0 <==> bytes.len() == 0
            &&& bytes.len() > 0 ==> text.len() >= 4
            &&& bytes.len() > 0 ==> (text[2] == '=' <==> bytes.len() == 1)
            &&& bytes.len() > 0 ==> (text[3] == '=' <==> bytes.len() <= 2)
        }),
{
    if bytes.len() == 2 {
        let bits = (bytes[0] * 256 + bytes[1]) * 4;
        lemma_symbol(bits % 64, url_safe, 0, url_safe);
    } else if bytes.len() > 2 {
        let bits = bytes[0] * 65536 + bytes[1] * 256 + bytes[2];
        lemma_symbol(bits / 64 % 64, url_safe, 0, url_safe);
        lemma_symbol(bits % 64, url_safe, 0, url_safe);
    }
}

/// The padded Base64 text of any bytes, in either alphabet and with any white space around it,
/// decodes to those bytes.
pub proof fn law_base64_round_trip(
    before: Seq<char>,
    bytes: Seq<u8>,
    url_safe: bool,
    after: Seq<char>,
)
    requires
        all_white(before),
        all_white(after),
    ensures
        base64_decoding(before + base64_text(bytes, url_safe) + after) == Ok::<
            Seq<u8>,
            Base64Error,
        >(bytes),
{
    let core = base64_text(bytes, url_safe);
    lemma_base64_chars(bytes, url_safe);
    lemma_trimmed_core(before, core, after);
    lemma_decodes(core, bytes, url_safe);
}

/// What is Base64 text without its outer white space decodes to its bytes.
pub proof fn lemma_decodes(text: Seq<char>, bytes: Seq<u8>, url_safe: bool)
    requires
        trimmed(text) == base64_text(bytes, url_safe) || text == base64_text(bytes, url_safe),
    ensures
        base64_decoding(text) == Ok::<Seq<u8>, Base64Error>(bytes),
{
    let core = trimmed(text);
    if text == base64_text(bytes, url_safe) {
        lemma_base64_chars(bytes, url_safe);
        lemma_trimmed_same(text);
    }
    if is_base64(core, false) {
        lemma_base64_injective(base64_bytes(core, false), bytes, false, url_safe);
    } else {
        lemma_base64_injective(base64_bytes(core, true), bytes, true, url_safe);
    }
}

/// The value of a hexadecimal digit.
pub open spec fn hex_digit(byte: u8) -> Option<int> {
    if '0' as u8 <= byte <= '9' as u8 {
        Some(byte - '0' as u8)
    } else if 'A' as u8 <= byte <= 'F' as u8 {
        Some(byte - 'A' as u8 + 10)
    } else if 'a' as u8 <= byte <= 'f' as u8 {
        Some(byte - 'a' as u8 + 10)
    } else {
        None
    }
}

/// The bytes with each `%` that two hexadecimal digits follow turned, together with them,
/// into the byte that they write.
pub open spec fn percent_bytes(bytes: Seq<u8>) -> Seq<u8>
    decreases bytes.len(),
{
    if bytes.len() == 0 {
        bytes
    } else if bytes.len() >= 3 && bytes[0] == '%' as u8 && hex_digit(bytes[1]) is Some
        && hex_digit(bytes[2]) is Some {
        seq![(16 * hex_digit(bytes[1])->0 + hex_digit(bytes[2])->0) as u8] + percent_bytes(
            bytes.skip(3),
        )
    } else {
        seq![bytes[0]] + percent_bytes(bytes.skip(1))
    }
}

/// A percent-encoded text decoded; `None` where the bytes it writes are not UTF-8.
pub open spec fn percent_decoded(text: Seq<char>) -> Option<Seq<char>> {
    let bytes = percent_bytes(encode_utf8(text));
    if valid_utf8(bytes) {
        Some(decode_utf8(bytes))
    } else {
        None
    }
}

/// Calls `urlencoding::decode`, which turns each `%` and two hexadecimal digits into a byte,
/// leaves all else alone, and fails where the bytes are then not UTF-8.
#[verifier::external_body]
pub(crate) fn percent_decode(text: &str) -> (decoded: Option<String>)
    ensures
        match decoded {
            Some(t) => percent_decoded(text@) == Some(t@),
            None => percent_decoded(text@) is None,
        },
{
    match urlencoding::decode(text) {
        Ok(t) => Some(t.into_owned()),
        Err(_) => None,
    }
}

/// What is read from bytes that are not UTF-8.
pub uninterp spec fn repaired_text(bytes: Seq<u8>) -> Seq<char>;

/// The bytes read as UTF-8, with replacement characters where they are not.
pub open spec fn lossy_text(bytes: Seq<u8>) -> Seq<char> {
    if valid_utf8(bytes) {
        decode_utf8(bytes)
    } else {
        repaired_text(bytes)
    }
}

/// Calls `String::from_utf8_lossy`, which decodes UTF-8 as it stands and puts replacement
/// characters in place of what is none. Where those go is named and not stated.
#[verifier::external_body]
pub(crate) fn read_lossy(bytes: &[u8]) -> (text: String)
    ensures
        valid_utf8(bytes@) ==> text@ == decode_utf8(bytes@),
        !valid_utf8(bytes@) ==> text@ == repaired_text(bytes@),
{
    String::from_utf8_lossy(bytes).into_owned()
}

/// The lower-case form of an ASCII character.
pub open spec fn ascii_lower(c: char) -> char {
    if 'A' <= c && c <= 'Z' {
        (c as int + 32) as char
    } else {
        c
    }
}

/// The upper-case form of an ASCII character.
pub open spec fn ascii_upper(c: char) -> char {
    if 'a' <= c && c <= 'z' {
        (c as int - 32) as char
    } else {
        c
    }
}

/// A text beyond ASCII in lower case, by the Unicode rules.
pub uninterp spec fn unicode_lower(text: Seq<char>) -> Seq<char>;

/// A text beyond ASCII in upper case, by the Unicode rules.
pub uninterp spec fn unicode_upper(text: Seq<char>) -> Seq<char>;

/// A text in lower case.
pub open spec fn lower_cased(text: Seq<char>) -> Seq<char> {
    if is_ascii_chars(text) {
        Seq::new(text.len(), |i: int| ascii_lower(text[i]))
    } else {
        unicode_lower(text)
    }
}

/// A text in upper case.
pub open spec fn upper_cased(text: Seq<char>) -> Seq<char> {
    if is_ascii_chars(text) {
        Seq::new(text.len(), |i: int| ascii_upper(text[i]))
    } else {
        unicode_upper(text)
    }
}

/// Calls `str::to_lowercase`. On ASCII it turns the letters A to Z into a to z; what it does
/// beyond ASCII is named and not stated.
#[verifier::external_body]
pub(crate) fn lower_case(text: &str) -> (lower: String)
    ensures
        is_ascii_chars(text@) ==> lower@ == Seq::new(text@.len(), |i: int| ascii_lower(text@[i])),
        !is_ascii_chars(text@) ==> lower@ == unicode_lower(text@),
{
    text.to_lowercase()
}

/// Calls `str::to_uppercase`. On ASCII it turns the letters a to z into A to Z; what it does
/// beyond ASCII is named and not stated.
#[verifier::external_body]
pub(crate) fn upper_case(text: &str) -> (upper: String)
    ensures
        is_ascii_chars(text@) ==> upper@ == Seq::new(text@.len(), |i: int| ascii_upper(text@[i])),
        !is_ascii_chars(text@) ==> upper@ == unicode_upper(text@),
{
    text.to_uppercase()
}

/// `std::char::from_u32` gives the character with a code point, where the code point is a
/// Unicode scalar value.
pub assume_specification[ std::char::from_u32 ](code: u32) -> (c: Option<char>)
    ensures
        c is Some <==> is_scalar(code),
        c matches Some(c) ==> c as u32 == code,
;

} // verus!
