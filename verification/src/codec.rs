//! Encodings and digests: base64, hexadecimal, UTF-8, form fields, and the
//! hash functions that the protocols call for.

use crate::seqs::lemma_flat_end;
use crate::strs::{at_most, natural_value};
use base64::engine::general_purpose::URL_SAFE_NO_PAD;
use base64::Engine;
use md5::Md5;
use sha2::{Digest, Sha256};
use vstd::prelude::*;
use vstd::utf8::{decode_utf8, encode_utf8, valid_utf8};

verus! {

/// The base64url symbol for six bits.
pub open spec fn base64url_symbol(v: int) -> char {
    if v < 26 {
        ('A' as int + v) as char
    } else if v < 52 {
        ('a' as int + v - 26) as char
    } else if v < 62 {
        ('0' as int + v - 52) as char
    } else if v == 62 {
        '-'
    } else {
        '_'
    }
}

/// Byte `k`, zero behind the end.
pub open spec fn byte_or_zero(bytes: Seq<u8>, k: int) -> int {
    if 0 <= k < bytes.len() {
        bytes[k] as int
    } else {
        0
    }
}

/// The `i`-th group of six bits of `bytes`.
pub open spec fn sextet(bytes: Seq<u8>, i: int) -> int {
    let q = i / 4 * 3;
    if i % 4 == 0 {
        byte_or_zero(bytes, q) / 4
    } else if i % 4 == 1 {
        byte_or_zero(bytes, q) % 4 * 16 + byte_or_zero(bytes, q + 1) / 16
    } else if i % 4 == 2 {
        byte_or_zero(bytes, q + 1) % 16 * 4 + byte_or_zero(bytes, q + 2) / 64
    } else {
        byte_or_zero(bytes, q + 2) % 64
    }
}

/// `bytes` in the URL-safe base64 alphabet, without padding.
pub open spec fn base64url(bytes: Seq<u8>) -> Seq<char> {
    Seq::new(
        ((4 * bytes.len() + 2) / 3) as nat,
        |i: int| base64url_symbol(sextet(bytes, i)),
    )
}

proof fn lemma_symbol_injective(v: int, w: int)
    requires
        0 <= v < 64,
        0 <= w < 64,
        base64url_symbol(v) == base64url_symbol(w),
    ensures
        v == w,
{
}

proof fn lemma_sextet_range(bytes: Seq<u8>, i: int)
    requires
        i >= 0,
    ensures
        0 <= sextet(bytes, i) < 64,
{
}

/// Different bytes have different encodings.
pub proof fn base64url_injective(a: Seq<u8>, b: Seq<u8>)
    requires
        base64url(a) == base64url(b),
    ensures
        a == b,
{
    let n = (4 * (a.len() as int) + 2) / 3;
    let m = (4 * (b.len() as int) + 2) / 3;
    assert(base64url(a).len() == n);
    assert(base64url(b).len() == m);
    assert(n == m);
    assert(a.len() == b.len());
    assert forall|j: int| 0 <= j < a.len() implies a[j] == b[j] by {
        let q = j / 3;
        let i = 4 * q;
        assert forall|k: int| i <= k < i + 4 && k < n implies sextet(a, k) == sextet(b, k) by {
            assert(base64url(a)[k] == base64url_symbol(sextet(a, k)));
            assert(base64url(b)[k] == base64url_symbol(sextet(b, k)));
            lemma_sextet_range(a, k);
            lemma_sextet_range(b, k);
            lemma_symbol_injective(sextet(a, k), sextet(b, k));
        }
        assert(i / 4 * 3 == 3 * q);
        assert((i + 1) / 4 * 3 == 3 * q);
        assert((i + 2) / 4 * 3 == 3 * q);
        assert((i + 3) / 4 * 3 == 3 * q);
        if j % 3 == 0 {
            assert(sextet(a, i) == sextet(b, i) && sextet(a, i + 1) == sextet(b, i + 1));
        } else if j % 3 == 1 {
            assert(sextet(a, i + 1) == sextet(b, i + 1) && sextet(a, i + 2) == sextet(b, i + 2));
        } else {
            assert(sextet(a, i + 2) == sextet(b, i + 2) && sextet(a, i + 3) == sextet(b, i + 3));
        }
    }
    assert(a =~= b);
}

/// The bytes that `text` encodes, if it encodes any.
pub open spec fn base64url_bytes(text: Seq<char>) -> Option<Seq<u8>> {
    if exists|b: Seq<u8>| #[trigger] base64url(b) == text {
        Some(choose|b: Seq<u8>| #[trigger] base64url(b) == text)
    } else {
        None
    }
}

/// Decoding gives back what was encoded.
pub proof fn base64url_round_trip(bytes: Seq<u8>)
    ensures
        base64url_bytes(base64url(bytes)) == Some(bytes),
{
    let text = base64url(bytes);
    let b = choose|b: Seq<u8>| #[trigger] base64url(b) == text;
    assert(base64url(b) == text);
    base64url_injective(b, bytes);
}

/// `Engine::encode` of the `base64` crate's `URL_SAFE_NO_PAD` writes each six
/// bits as one symbol of the URL-safe alphabet and adds no padding.
#[verifier::external_body]
pub(crate) fn base64url_encode(bytes: &[u8]) -> (r: String)
    ensures
        r@ == base64url(bytes@),
{
    URL_SAFE_NO_PAD.encode(bytes)
}

/// What the `base64` crate says of a text that is no base64url.
pub uninterp spec fn base64url_fault(text: Seq<char>) -> Seq<char>;

/// `Engine::decode` of the `base64` crate's `URL_SAFE_NO_PAD` takes exactly the
/// texts that encoding gives, and gives back what was encoded: padding, symbols
/// outside the alphabet, impossible lengths and stray bits in the last symbol
/// are all refused. The message of the error depends on the text alone.
#[verifier::external_body]
pub(crate) fn base64url_decode(text: &str) -> (r: Result<Vec<u8>, String>)
    ensures
        match r {
            Ok(bytes) => text@ == base64url(bytes@),
            Err(e) => e@ == base64url_fault(text@) && forall|b: Seq<u8>| #[trigger]
                base64url(b) != text@,
        },
{
    URL_SAFE_NO_PAD.decode(text).map_err(|e| e.to_string())
}

/// What std says of bytes that are no UTF-8.
pub uninterp spec fn utf8_fault(bytes: Seq<u8>) -> Seq<char>;

/// `String::from_utf8` takes valid UTF-8 and nothing else. The message of the
/// error depends on the bytes alone.
#[verifier::external_body]
pub(crate) fn utf8_string(bytes: Vec<u8>) -> (r: Result<String, String>)
    ensures
        match r {
            Ok(s) => valid_utf8(bytes@) && s@ == decode_utf8(bytes@),
            Err(e) => !valid_utf8(bytes@) && e@ == utf8_fault(bytes@),
        },
{
    String::from_utf8(bytes).map_err(|e| e.to_string())
}

/// What std says of a text that is no number up to `max`.
pub uninterp spec fn number_fault(text: Seq<char>, max: nat) -> Seq<char>;

/// `str::parse::<usize>` takes one or more decimal digits, which may follow a
/// plus sign, of a number that fits in a machine word. The message of the
/// error depends on the text and on the size of the word.
#[verifier::external_body]
pub(crate) fn parse_index(text: &str) -> (r: Result<usize, String>)
    ensures
        match r {
            Ok(n) => natural_value(text@) == Some(n as nat),
            Err(e) => at_most(natural_value(text@), usize::MAX as nat) is None && e@
                == number_fault(text@, usize::MAX as nat),
        },
{
    text.parse::<usize>().map_err(|e| e.to_string())
}

/// The lower-case hexadecimal digit for four bits.
pub open spec fn hex_digit(v: int) -> char {
    if v < 10 {
        ('0' as int + v) as char
    } else {
        ('a' as int + v - 10) as char
    }
}

/// `bytes` in lower-case hexadecimal, two digits for each byte.
pub open spec fn hex_text(bytes: Seq<u8>) -> Seq<char> {
    Seq::new(
        2 * bytes.len(),
        |i: int| hex_digit(if i % 2 == 0 { bytes[i / 2] as int / 16 } else { bytes[i / 2] as int % 16 }),
    )
}

/// The value of a hexadecimal digit in either case.
pub open spec fn hex_value(c: char) -> Option<int> {
    if '0' <= c <= '9' {
        Some(c as int - '0' as int)
    } else if 'a' <= c <= 'f' {
        Some(c as int - 'a' as int + 10)
    } else if 'A' <= c <= 'F' {
        Some(c as int - 'A' as int + 10)
    } else {
        None
    }
}

/// `text` is hexadecimal: an even number of digits and nothing else.
pub open spec fn is_hex(text: Seq<char>) -> bool {
    text.len() % 2 == 0 && forall|i: int|
        0 <= i < text.len() ==> hex_value(#[trigger] text[i]) is Some
}

/// The bytes that hexadecimal text stands for.
pub open spec fn hex_bytes(text: Seq<char>) -> Seq<u8> {
    Seq::new(
        text.len() / 2,
        |i: int| (hex_value(text[2 * i])->0 * 16 + hex_value(text[2 * i + 1])->0) as u8,
    )
}

/// `hex::encode` writes two lower-case digits for each byte.
#[verifier::external_body]
pub(crate) fn hex_encode(bytes: &[u8]) -> (r: String)
    ensures
        r@ == hex_text(bytes@),
{
    hex::encode(bytes)
}

/// `hex::decode` takes an even number of hexadecimal digits in either case and
/// nothing else.
#[verifier::external_body]
pub(crate) fn hex_decode(text: &str) -> (r: Option<Vec<u8>>)
    ensures
        match r {
            Some(bytes) => is_hex(text@) && bytes@ == hex_bytes(text@),
            None => !is_hex(text@),
        },
{
    hex::decode(text).ok()
}

/// The MD5 digest of `bytes`.
pub uninterp spec fn md5_digest(bytes: Seq<u8>) -> Seq<u8>;

/// `Md5::digest` of the `md-5` crate: sixteen bytes that depend on the input
/// alone.
#[verifier::external_body]
pub(crate) fn md5(bytes: &[u8]) -> (r: Vec<u8>)
    ensures
        r@ == md5_digest(bytes@),
        r@.len() == 16,
{
    Md5::digest(bytes).to_vec()
}

/// The SHA-256 digest of `bytes`.
pub uninterp spec fn sha256_digest(bytes: Seq<u8>) -> Seq<u8>;

/// `Sha256::digest` of the `sha2` crate: thirty-two bytes that depend on the
/// input alone.
#[verifier::external_body]
pub(crate) fn sha256(bytes: &[u8]) -> (r: Vec<u8>)
    ensures
        r@ == sha256_digest(bytes@),
        r@.len() == 32,
{
    Sha256::digest(bytes).to_vec()
}

/// The BLAKE3 digest of `bytes`.
pub uninterp spec fn blake3_digest(bytes: Seq<u8>) -> Seq<u8>;

/// `blake3::hash`: thirty-two bytes that depend on the input alone.
#[verifier::external_body]
pub(crate) fn blake3_hash(bytes: &[u8]) -> (r: Vec<u8>)
    ensures
        r@ == blake3_digest(bytes@),
        r@.len() == 32,
{
    blake3::hash(bytes).as_bytes().to_vec()
}

/// A form writes this byte as it is.
pub open spec fn form_plain(b: u8) -> bool {
    b == 42 || b == 45 || b == 46 || b == 95 || 48 <= b <= 57 || 65 <= b <= 90 || 97 <= b <= 122
}

/// The upper-case hexadecimal digit for four bits.
pub open spec fn upper_hex_digit(v: int) -> char {
    if v < 10 {
        ('0' as int + v) as char
    } else {
        ('A' as int + v - 10) as char
    }
}

/// How a form writes one byte: letters, digits and `*-._` as they are, a space
/// as a plus sign, everything else as a percent sign and two digits.
pub open spec fn form_byte(b: u8) -> Seq<char> {
    if form_plain(b) {
        seq![b as char]
    } else if b == 32 {
        seq!['+']
    } else {
        seq!['%', upper_hex_digit(b as int / 16), upper_hex_digit(b as int % 16)]
    }
}

/// How a form writes a run of bytes.
pub open spec fn form_bytes(bytes: Seq<u8>) -> Seq<char>
    decreases bytes.len(),
{
    if bytes.len() == 0 {
        seq![]
    } else {
        form_bytes(bytes.drop_last()) + form_byte(bytes.last())
    }
}

/// How a form writes fields: `name=value`, joined by ampersands.
pub open spec fn form_text(pairs: Seq<(Seq<char>, Seq<char>)>) -> Seq<char>
    decreases pairs.len(),
{
    if pairs.len() == 0 {
        seq![]
    } else {
        let (k, v) = pairs.last();
        let field = form_bytes(encode_utf8(k)) + seq!['='] + form_bytes(encode_utf8(v));
        if pairs.len() == 1 {
            field
        } else {
            form_text(pairs.drop_last()) + seq!['&'] + field
        }
    }
}

/// Fields as characters.
pub open spec fn pair_views(v: Seq<(String, String)>) -> Seq<(Seq<char>, Seq<char>)> {
    v.map_values(|p: (String, String)| (p.0@, p.1@))
}

/// The fields that `form_urlencoded::parse` finds in `bytes`.
pub uninterp spec fn form_fields(bytes: Seq<u8>) -> Seq<(Seq<char>, Seq<char>)>;

/// `Serializer::extend_pairs` of the `form_urlencoded` crate on an empty
/// string: the fields one after the other, and `form_urlencoded::parse` reads
/// them back from it.
#[verifier::external_body]
pub(crate) fn form_serialize(pairs: &Vec<(String, String)>) -> (r: String)
    ensures
        r@ == form_text(pair_views(pairs@)),
        form_fields(encode_utf8(r@)) == pair_views(pairs@),
{
    form_urlencoded::Serializer::new(String::new()).extend_pairs(pairs.iter()).finish()
}

/// `form_urlencoded::parse`: the fields that it finds depend on the bytes
/// alone.
#[verifier::external_body]
pub(crate) fn form_parse(bytes: &[u8]) -> (r: Vec<(String, String)>)
    ensures
        pair_views(r@) == form_fields(bytes@),
{
    form_urlencoded::parse(bytes).into_owned().collect()
}

/// The text of UTF-8 bytes, decoded, is the text.
pub proof fn utf8_round_trip(s: Seq<char>)
    ensures
        valid_utf8(encode_utf8(s)),
        decode_utf8(encode_utf8(s)) == s,
{
    vstd::utf8::encode_utf8_valid_utf8(s);
    vstd::utf8::encode_utf8_decode_utf8(s);
}

/// Bytes that are written in hexadecimal are read back, in small and in capital
/// letters.
pub proof fn hex_round_trip(bytes: Seq<u8>)
    ensures
        hex_text(bytes).len() == 2 * bytes.len(),
        is_hex(hex_text(bytes)),
        hex_bytes(hex_text(bytes)) == bytes,
        forall|i: int|
            0 <= i < hex_text(bytes).len() ==> '0' <= #[trigger] hex_text(bytes)[i] <= '9' || 'a'
                <= hex_text(bytes)[i] <= 'f',
{
    let text = hex_text(bytes);
    assert forall|i: int| 0 <= i < text.len() implies hex_value(#[trigger] text[i]) is Some && (
    '0' <= text[i] <= '9' || 'a' <= text[i] <= 'f') by {
        let v = if i % 2 == 0 { bytes[i / 2] as int / 16 } else { bytes[i / 2] as int % 16 };
        assert(0 <= v < 16);
        assert(text[i] == hex_digit(v));
    }
    assert forall|i: int| 0 <= i < bytes.len() implies #[trigger] hex_bytes(text)[i]
        == bytes[i] by {
        let b = bytes[i] as int;
        assert((2 * i) % 2 == 0 && (2 * i) / 2 == i);
        assert((2 * i + 1) % 2 == 1 && (2 * i + 1) / 2 == i);
        assert(text[2 * i] == hex_digit(b / 16));
        assert(text[2 * i + 1] == hex_digit(b % 16));
        assert(hex_value(hex_digit(b / 16)) == Some(b / 16));
        assert(hex_value(hex_digit(b % 16)) == Some(b % 16));
    }
    assert(hex_bytes(text) =~= bytes);
}

/// In a form, letters, digits and the signs "*", "-", "." and "_" stand for
/// themselves, a space is a plus sign, and any other byte is a percent sign and
/// two hexadecimal digits.
pub proof fn form_bytes_are_written_one_by_one(bytes: Seq<u8>, b: u8)
    ensures
        form_bytes(bytes) == bytes.map_values(|b: u8| form_byte(b)).flatten(),
        'a' as u8 <= b <= 'z' as u8 || 'A' as u8 <= b <= 'Z' as u8 || '0' as u8 <= b <= '9' as u8
            || b == '*' as u8 || b == '-' as u8 || b == '.' as u8 || b == '_' as u8 ==> form_byte(b)
            == seq![b as char],
        form_byte(' ' as u8) == seq!['+'],
        !('a' as u8 <= b <= 'z' as u8 || 'A' as u8 <= b <= 'Z' as u8 || '0' as u8 <= b <= '9' as u8
            || b == '*' as u8 || b == '-' as u8 || b == '.' as u8 || b == '_' as u8 || b == ' ' as u8)
            ==> form_byte(b).len() == 3 && form_byte(b)[0] == '%' && hex_value(form_byte(b)[1])
            == Some(b as int / 16) && hex_value(form_byte(b)[2]) == Some(b as int % 16),
    decreases bytes.len(),
{
    lemma_flat_end(bytes, |b: u8| form_byte(b));
    if bytes.len() > 0 {
        form_bytes_are_written_one_by_one(bytes.drop_last(), b);
    }
}

/// A form writes its fields as names and values, joined by ampersands.
pub proof fn forms_join_their_fields(
    pairs: Seq<(Seq<char>, Seq<char>)>,
    k: Seq<char>,
    v: Seq<char>,
)
    ensures
        form_text(seq![(k, v)]) == form_bytes(encode_utf8(k)) + seq!['='] + form_bytes(
            encode_utf8(v),
        ),
        pairs.len() > 0 ==> form_text(pairs.push((k, v))) == form_text(pairs) + seq!['&']
            + form_text(seq![(k, v)]),
        form_text(seq![]) == Seq::<char>::empty(),
{
    assert(pairs.push((k, v)).drop_last() =~= pairs);
    assert(seq![(k, v)].last() == (k, v));
}

} // verus!
