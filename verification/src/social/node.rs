//! The identity of this node, and the tickets by which friends find it.

use crate::error::{FugueError, FugueErrorView};
use crate::id::{
    make_token, read_token, token, token_round_trip, token_text, TokenError, TokenFault,
};
use crate::random::{draw_key, key_drawn};
use crate::strs::concat2;
use vstd::prelude::*;

verus! {

/// The protocol identifier of direct requests between nodes.
pub fn fugue_alpn() -> (r: &'static str)
    ensures
        r@ == "fugue/social/0"@,
{
    "fugue/social/0"
}

/// The secret key that was stored, or a fresh one if none was.
pub fn load_or_create_secret_key(stored: Option<Vec<u8>>) -> (r: Result<Vec<u8>, FugueError>)
    ensures
        match stored {
            Some(bytes) => if bytes@.len() == 32 {
                r == Ok::<Vec<u8>, FugueError>(bytes)
            } else {
                r matches Err(e) && e@ == FugueErrorView::Internal("Invalid stored secret key"@)
            },
            None => r matches Ok(key) && key_drawn(key) && key@.len() == 32,
        },
{
    match stored {
        Some(bytes) => if bytes.len() == 32 {
            Ok(bytes)
        } else {
            Err(FugueError::Internal("Invalid stored secret key".to_owned()))
        },
        None => Ok(draw_key()),
    }
}

/// The ticket for an address that is written as JSON.
pub fn generate_ticket(address_json: &str) -> (r: String)
    ensures
        r@ == token(address_json@),
{
    make_token(address_json)
}

/// The address, as JSON, that a ticket stands for.
pub open spec fn ticket_address(ticket: Seq<char>) -> Result<Seq<char>, FugueErrorView> {
    match token_text(ticket) {
        Ok(json) => Ok(json),
        Err(TokenFault::Encoding(e)) => Err(
            FugueErrorView::Internal("Invalid ticket encoding: "@ + e),
        ),
        Err(TokenFault::Utf8(e)) => Err(FugueErrorView::Internal("Invalid ticket UTF-8: "@ + e)),
    }
}

/// Reads the address, as JSON, that a ticket stands for.
pub fn parse_ticket(ticket: &str) -> (r: Result<String, FugueError>)
    ensures
        match r {
            Ok(json) => ticket_address(ticket@) == Ok::<Seq<char>, FugueErrorView>(json@),
            Err(e) => ticket_address(ticket@) == Err::<Seq<char>, FugueErrorView>(e@),
        },
{
    match read_token(ticket) {
        Ok(json) => Ok(json),
        Err(TokenError::Encoding(e)) => Err(
            FugueError::Internal(concat2("Invalid ticket encoding: ", e.as_str())),
        ),
        Err(TokenError::Utf8(e)) => Err(
            FugueError::Internal(concat2("Invalid ticket UTF-8: ", e.as_str())),
        ),
    }
}

/// The error for a ticket whose address cannot be read.
pub fn ticket_format_error(fault: &str) -> (r: FugueError)
    ensures
        r@ == FugueErrorView::Internal("Invalid ticket format: "@ + fault@),
{
    FugueError::Internal(concat2("Invalid ticket format: ", fault))
}

/// A ticket gives the address back that it was made from.
pub proof fn ticket_round_trip(address_json: Seq<char>)
    ensures
        ticket_address(token(address_json)) == Ok::<Seq<char>, FugueErrorView>(address_json),
{
    token_round_trip(address_json);
}

/// A ticket that cannot be read is told apart from one that holds no text.
pub proof fn unreadable_tickets_are_refused(ticket: Seq<char>, text: Seq<char>)
    ensures
        token_text(ticket) == Ok::<Seq<char>, TokenFault>(text) ==> ticket_address(ticket) == Ok::<
            Seq<char>,
            FugueErrorView,
        >(text),
        token_text(ticket) == Err::<Seq<char>, TokenFault>(TokenFault::Encoding(text))
            ==> ticket_address(ticket) == Err::<Seq<char>, FugueErrorView>(
            FugueErrorView::Internal("Invalid ticket encoding: "@ + text),
        ),
        token_text(ticket) == Err::<Seq<char>, TokenFault>(TokenFault::Utf8(text))
            ==> ticket_address(ticket) == Err::<Seq<char>, FugueErrorView>(
            FugueErrorView::Internal("Invalid ticket UTF-8: "@ + text),
        ),
{
}

} // verus!
