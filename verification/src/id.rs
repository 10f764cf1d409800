//! Opaque identifiers.
//!
//! Every identifier that clients see is a token that encodes where the item
//! lives. Clients never see the identifiers of a backend.

use crate::codec::{
    base64url, base64url_bytes, base64url_decode, base64url_encode, base64url_fault,
    base64url_injective, base64url_round_trip, number_fault, parse_index, utf8_fault,
    utf8_round_trip, utf8_string,
};
use crate::error::{FugueError, FugueErrorView};
use crate::strs::{
    after_prefix, at_most, concat2, cut_at, cuts_are_at_the_first_place, decimal,
    decimal_read_back, decimal_string, has_prefix, lemma_cut_at, natural_value, split_once,
    starts_with, strip_prefix,
};
use vstd::prelude::*;
use vstd::utf8::{decode_utf8, encode_utf8, valid_utf8};

verus! {

/// The token that stands for a text.
pub open spec fn token(text: Seq<char>) -> Seq<char> {
    base64url(encode_utf8(text))
}

/// Why a token stands for no text.
pub enum TokenFault {
    /// It is no base64url; with the decoder's message.
    Encoding(Seq<char>),
    /// What it encodes is no UTF-8; with the decoder's message.
    Utf8(Seq<char>),
}

/// The text that a token stands for.
pub open spec fn token_text(t: Seq<char>) -> Result<Seq<char>, TokenFault> {
    match base64url_bytes(t) {
        None => Err(TokenFault::Encoding(base64url_fault(t))),
        Some(b) => if valid_utf8(b) {
            Ok(decode_utf8(b))
        } else {
            Err(TokenFault::Utf8(utf8_fault(b)))
        },
    }
}

/// A token gives back the text that it was made from.
pub proof fn token_round_trip(text: Seq<char>)
    ensures
        token_text(token(text)) == Ok::<Seq<char>, TokenFault>(text),
{
    base64url_round_trip(encode_utf8(text));
    utf8_round_trip(text);
}

/// Makes the token for a text.
pub fn make_token(text: &str) -> (r: String)
    ensures
        r@ == token(text@),
{
    base64url_encode(text.as_bytes())
}

/// Why a token could not be read.
pub enum TokenError {
    Encoding(String),
    Utf8(String),
}

/// Reads the text that a token stands for.
pub fn read_token(t: &str) -> (r: Result<String, TokenError>)
    ensures
        match r {
            Ok(s) => token_text(t@) == Ok::<Seq<char>, TokenFault>(s@),
            Err(TokenError::Encoding(e)) => token_text(t@) == Err::<Seq<char>, TokenFault>(
                TokenFault::Encoding(e@),
            ),
            Err(TokenError::Utf8(e)) => token_text(t@) == Err::<Seq<char>, TokenFault>(
                TokenFault::Utf8(e@),
            ),
        },
{
    match base64url_decode(t) {
        Err(e) => Err(TokenError::Encoding(e)),
        Ok(bytes) => {
            proof {
                base64url_round_trip(bytes@);
            }
            match utf8_string(bytes) {
                Ok(s) => Ok(s),
                Err(e) => Err(TokenError::Utf8(e)),
            }
        },
    }
}

/// The text of a readable token.
pub open spec fn readable(t: Seq<char>) -> Option<Seq<char>> {
    match token_text(t) {
        Ok(s) => Some(s),
        Err(_) => None,
    }
}

/// Reads a token, if it can be read.
pub fn try_read_token(t: &str) -> (r: Option<String>)
    ensures
        crate::strs::opt_text(r) == readable(t@),
{
    match read_token(t) {
        Ok(s) => Some(s),
        Err(_) => None,
    }
}

/// The error for a token that cannot be read.
pub open spec fn token_error(f: TokenFault) -> FugueErrorView {
    match f {
        TokenFault::Encoding(e) => FugueErrorView::Internal("Invalid ID encoding: "@ + e),
        TokenFault::Utf8(e) => FugueErrorView::Internal("Invalid ID UTF-8: "@ + e),
    }
}

fn id_error(e: TokenError) -> (r: FugueError)
    ensures
        match e {
            TokenError::Encoding(m) => r@ == token_error(TokenFault::Encoding(m@)),
            TokenError::Utf8(m) => r@ == token_error(TokenFault::Utf8(m@)),
        },
{
    match e {
        TokenError::Encoding(m) => FugueError::Internal(
            concat2("Invalid ID encoding: ", m.as_str()),
        ),
        TokenError::Utf8(m) => FugueError::Internal(concat2("Invalid ID UTF-8: ", m.as_str())),
    }
}

/// The namespaced identifier of an item of a backend.
pub open spec fn namespaced_id(backend_idx: nat, original_id: Seq<char>) -> Seq<char> {
    token(decimal(backend_idx) + seq![':'] + original_id)
}

/// What a namespaced identifier stands for, or why it stands for nothing.
pub open spec fn id_parts(namespaced: Seq<char>) -> Result<(nat, Seq<char>), FugueErrorView> {
    match token_text(namespaced) {
        Err(f) => Err(token_error(f)),
        Ok(raw) => match cut_at(raw, ':') {
            None => Err(FugueErrorView::Internal("Invalid ID format: missing colon"@)),
            Some((idx, original)) => match at_most(natural_value(idx), usize::MAX as nat) {
                Some(n) => Ok((n, original)),
                None => Err(
                    FugueErrorView::Internal(
                        "Invalid backend index: "@ + number_fault(idx, usize::MAX as nat),
                    ),
                ),
            },
        },
    }
}

/// Encodes a backend index and original ID into a namespaced ID:
/// base64url("{backend_idx}:{original_id}").
pub fn encode_id(backend_idx: usize, original_id: &str) -> (r: String)
    ensures
        r@ == namespaced_id(backend_idx as nat, original_id@),
{
    let mut raw = decimal_string(backend_idx as u128);
    raw.push(':');
    raw.append(original_id);
    assert(raw@ =~= decimal(backend_idx as nat) + seq![':'] + original_id@);
    make_token(raw.as_str())
}

/// Decodes a namespaced ID back to the backend index and the original ID.
pub fn decode_id(namespaced: &str) -> (r: Result<(usize, String), FugueError>)
    ensures
        match r {
            Ok((idx, original)) => id_parts(namespaced@) == Ok::<(nat, Seq<char>), FugueErrorView>(
                (idx as nat, original@),
            ),
            Err(e) => id_parts(namespaced@) == Err::<(nat, Seq<char>), FugueErrorView>(e@),
        },
{
    let raw = match read_token(namespaced) {
        Ok(s) => s,
        Err(e) => {
            return Err(id_error(e));
        },
    };
    match split_once(raw.as_str(), ':') {
        None => Err(FugueError::Internal("Invalid ID format: missing colon".to_owned())),
        Some((idx_str, original)) => match parse_index(idx_str.as_str()) {
            Ok(idx) => Ok((idx, original)),
            Err(e) => Err(FugueError::Internal(concat2("Invalid backend index: ", e.as_str()))),
        },
    }
}

/// The identifier of a deduplicated item.
pub open spec fn dedup_id(fingerprint_hash: Seq<char>) -> Seq<char> {
    token("d:"@ + fingerprint_hash)
}

/// `namespaced` is the identifier of a deduplicated item.
pub open spec fn names_dedup(namespaced: Seq<char>) -> bool {
    readable(namespaced) matches Some(raw) && has_prefix(raw, "d:"@)
}

/// The fingerprint hash in the identifier of a deduplicated item, or why
/// there is none.
pub open spec fn dedup_hash(namespaced: Seq<char>) -> Result<Seq<char>, FugueErrorView> {
    match token_text(namespaced) {
        Err(f) => Err(token_error(f)),
        Ok(raw) => match after_prefix(raw, "d:"@) {
            Some(h) => Ok(h),
            None => Err(FugueErrorView::Internal("Not a dedup ID"@)),
        },
    }
}

/// Encodes a dedup canonical ID.
pub fn encode_dedup_id(fingerprint_hash: &str) -> (r: String)
    ensures
        r@ == dedup_id(fingerprint_hash@),
{
    make_token(concat2("d:", fingerprint_hash).as_str())
}

/// Whether a namespaced ID is a dedup canonical ID.
pub fn is_dedup_id(namespaced: &str) -> (r: bool)
    ensures
        r == names_dedup(namespaced@),
{
    match try_read_token(namespaced) {
        Some(raw) => starts_with(raw.as_str(), "d:"),
        None => false,
    }
}

/// Decodes a dedup ID to the fingerprint hash.
pub fn decode_dedup_id(namespaced: &str) -> (r: Result<String, FugueError>)
    ensures
        match r {
            Ok(h) => dedup_hash(namespaced@) == Ok::<Seq<char>, FugueErrorView>(h@),
            Err(e) => dedup_hash(namespaced@) == Err::<Seq<char>, FugueErrorView>(e@),
        },
{
    let raw = match read_token(namespaced) {
        Ok(s) => s,
        Err(e) => {
            return Err(id_error(e));
        },
    };
    match strip_prefix(raw.as_str(), "d:") {
        Some(h) => Ok(h),
        None => Err(FugueError::Internal("Not a dedup ID".to_owned())),
    }
}

/// What was put into a namespaced ID is what comes out of it, whatever the
/// original ID holds.
pub proof fn id_round_trip(backend_idx: nat, original_id: Seq<char>)
    requires
        backend_idx <= usize::MAX,
    ensures
        id_parts(namespaced_id(backend_idx, original_id)) == Ok::<(nat, Seq<char>), FugueErrorView>(
            (backend_idx, original_id),
        ),
{
    let raw = decimal(backend_idx) + seq![':'] + original_id;
    token_round_trip(raw);
    decimal_read_back(backend_idx);
    lemma_cut_at(decimal(backend_idx), ':', original_id);
}

/// The hash that was put into a dedup ID is what comes out of it.
pub proof fn dedup_id_round_trip(hash: Seq<char>)
    ensures
        dedup_hash(dedup_id(hash)) == Ok::<Seq<char>, FugueErrorView>(hash),
        names_dedup(dedup_id(hash)),
{
    let raw = "d:"@ + hash;
    token_round_trip(raw);
    assert(raw.take("d:"@.len() as int) =~= "d:"@);
    assert(raw.skip("d:"@.len() as int) =~= hash);
}

/// The ID of a backend's item is never taken for a dedup ID.
pub proof fn backend_ids_are_not_dedup_ids(backend_idx: nat, original_id: Seq<char>)
    ensures
        !names_dedup(namespaced_id(backend_idx, original_id)),
{
    reveal_strlit("d:");
    let raw = decimal(backend_idx) + seq![':'] + original_id;
    token_round_trip(raw);
    decimal_read_back(backend_idx);
    crate::strs::decimal_starts_with_digit(backend_idx);
    assert(raw[0] == decimal(backend_idx)[0]);
    if has_prefix(raw, "d:"@) {
        assert(raw.take(2)[0] == 'd');
        assert(raw[0] == 'd');
    }
}

/// Two tokens are equal only if they stand for the same text.
pub proof fn token_injective(a: Seq<char>, b: Seq<char>)
    requires
        token(a) == token(b),
    ensures
        a == b,
{
    base64url_injective(encode_utf8(a), encode_utf8(b));
    utf8_round_trip(a);
    utf8_round_trip(b);
}

/// What an identifier that cannot be read is answered with.
pub proof fn unreadable_identifiers_are_told_apart(e: Seq<char>)
    ensures
        token_error(TokenFault::Encoding(e)) == FugueErrorView::Internal(
            "Invalid ID encoding: "@ + e,
        ),
        token_error(TokenFault::Utf8(e)) == FugueErrorView::Internal("Invalid ID UTF-8: "@ + e),
{
}

/// A token reads as the text that it was made of.
pub proof fn tokens_are_readable(text: Seq<char>)
    ensures
        readable(token(text)) == Some(text),
{
    token_round_trip(text);
}

/// An identifier without a colon, or with something else than a number before it,
/// names no item.
pub proof fn malformed_identifiers_are_refused(raw: Seq<char>)
    ensures
        !raw.contains(':') ==> id_parts(token(raw)) == Err::<(nat, Seq<char>), FugueErrorView>(
            FugueErrorView::Internal("Invalid ID format: missing colon"@),
        ),
        cut_at(raw, ':') matches Some((idx, _)) ==> (natural_value(idx) is None ==> id_parts(
            token(raw),
        ) is Err),
{
    token_round_trip(raw);
    if !raw.contains(':') {
        if cut_at(raw, ':') is Some {
            cuts_are_at_the_first_place(raw, ':');
        }
    }
}

} // verus!
