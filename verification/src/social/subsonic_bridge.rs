//! Subsonic requests that come over a peer-to-peer stream.
//!
//! A stream carries one request: the name of an endpoint, and parameters. It
//! is answered as the same request over HTTP would be, with a header line
//! before the body. The endpoint `admin/events` subscribes to events instead.

use crate::codec::{form_serialize, form_text, pair_views};
use crate::json::{object, reading_after_setting, whole, Json, JsonView, NumberView};
use crate::strs::{
    at_most, concat2, decimal, decimal_read_back, has_prefix, natural_value, parse_u64,
    starts_with, str_eq,
};
use vstd::prelude::*;

verus! {

/// Whether a request subscribes to events.
pub fn is_event_subscription(endpoint: &str) -> (r: bool)
    ensures
        r == (endpoint@ == "admin/events"@),
{
    str_eq(endpoint, "admin/events")
}

/// The path of an endpoint: administrative ones are at the root, all others
/// under `/rest`.
pub open spec fn endpoint_path(endpoint: Seq<char>) -> Seq<char> {
    if has_prefix(endpoint, "admin/"@) {
        "/"@ + endpoint
    } else {
        "/rest/"@ + endpoint
    }
}

/// The HTTP request that a request over a stream stands for.
pub fn request_uri(endpoint: &str, params: &Vec<(String, String)>) -> (r: String)
    ensures
        r@ == endpoint_path(endpoint@) + "?"@ + form_text(pair_views(params@)),
{
    let mut uri = if starts_with(endpoint, "admin/") {
        concat2("/", endpoint)
    } else {
        concat2("/rest/", endpoint)
    };
    uri.append("?");
    uri.append(form_serialize(params).as_str());
    uri
}

/// What is said before the body: the status, the type and, if it is known, the
/// length of the body.
pub open spec fn response_header(
    status: u16,
    content_type: Option<Seq<char>>,
    content_length: Option<Seq<char>>,
) -> JsonView {
    let length = match content_length {
        Some(text) => at_most(natural_value(text), u64::MAX as nat),
        None => None,
    };
    object().with("status"@, whole(status as nat)).with(
        "content_type"@,
        JsonView::Text(
            match content_type {
                Some(t) => t,
                None => "application/octet-stream"@,
            },
        ),
    ).with(
        "content_length"@,
        match length {
            Some(n) => whole(n),
            None => JsonView::Null,
        },
    )
}

/// An optional text, as characters.
pub open spec fn opt_view(o: Option<&String>) -> Option<Seq<char>> {
    match o {
        Some(s) => Some(s@),
        None => None,
    }
}

/// What is said before the body.
pub fn make_header(
    status: u16,
    content_type: Option<&String>,
    content_length: Option<&String>,
) -> (r: Json)
    ensures
        r@ == response_header(status, opt_view(content_type), opt_view(content_length)),
{
    let kind = match content_type {
        Some(t) => t.as_str(),
        None => "application/octet-stream",
    };
    let length = match content_length {
        Some(text) => match parse_u64(text.as_str()) {
            Some(n) => Json::whole(n),
            None => Json::Null,
        },
        None => Json::Null,
    };
    Json::object().with("status", Json::whole(status as u64)).with_text("content_type", kind).with(
        "content_length",
        length,
    )
}

/// Endpoints for administration stand at the root, all others below "/rest/".
pub proof fn endpoints_have_their_paths(name: Seq<char>)
    ensures
        endpoint_path("admin/"@ + name) == "/"@ + ("admin/"@ + name),
        !"admin/"@.is_prefix_of(name) ==> endpoint_path(name) == "/rest/"@ + name,
{
    let admin = "admin/"@;
    assert((admin + name).take(admin.len() as int) =~= admin);
    if has_prefix(name, admin) {
        assert(admin =~= name.subrange(0, admin.len() as int));
    }
}

/// A header tells status, type and length of what follows; a type that is not
/// known is that of plain bytes, and an unknown length is left open.
pub proof fn headers_tell_status_type_and_length(
    status: u16,
    content_type: Seq<char>,
    n: u64,
    length: Option<Seq<char>>,
)
    ensures
        ({
            let r = response_header(status, Some(content_type), length);
            &&& r.get("status"@) == Some(JsonView::Number(NumberView::PosInt(status as u64)))
            &&& r.get("content_type"@) == Some(JsonView::Text(content_type))
            &&& length == Some(decimal(n as nat)) ==> r.get("content_length"@) == Some(
                JsonView::Number(NumberView::PosInt(n)),
            )
            &&& length is None ==> r.get("content_length"@) == Some(JsonView::Null)
        }),
        response_header(status, None, length).get("content_type"@) == Some(
            JsonView::Text("application/octet-stream"@),
        ),
{
    broadcast use reading_after_setting;

    reveal_strlit("status");
    reveal_strlit("content_type");
    reveal_strlit("content_length");
    assert("status"@.len() == 6 && "content_type"@.len() == 12 && "content_length"@.len() == 14);
    decimal_read_back(n as nat);
}

} // verus!
