//! Requests to a backend and what its answers mean.

use crate::codec::{form_serialize, form_text, hex_text, md5_digest, pair_views};
use crate::config::{BackendConfig, Config};
use crate::error::{FugueError, FugueErrorView};
use crate::json::{Json, JsonView, NumberView};
use crate::random::{draw_salt, is_plain, salt_drawn};
use crate::strs::{chars_of, concat3, str_eq, substring};
use crate::subsonic::auth::token_for;
use vstd::prelude::*;
use vstd::utf8::encode_utf8;

verus! {

/// A backend and how to log in to it.
#[derive(Debug)]
pub struct BackendClient {
    pub index: usize,
    pub name: String,
    pub base_url: String,
    pub username: String,
    pub password: String,
    pub weight: i32,
}

/// `s` without the slashes at its end.
pub open spec fn without_slashes(s: Seq<char>) -> Seq<char>
    decreases s.len(),
{
    if s.len() > 0 && s.last() == '/' {
        without_slashes(s.drop_last())
    } else {
        s
    }
}

fn trim_slashes(s: &str) -> (r: String)
    ensures
        r@ == without_slashes(s@),
{
    let x = chars_of(s);
    let mut n: usize = x.len();
    assert(x@.take(n as int) =~= x@);
    while n > 0 && x[n - 1] == '/'
        invariant
            n <= x@.len(),
            without_slashes(x@) == without_slashes(x@.take(n as int)),
        decreases n,
    {
        assert(x@.take(n as int).drop_last() =~= x@.take(n - 1));
        n -= 1;
    }
    let r = substring(&x, 0, n);
    assert(r@ =~= x@.take(n as int));
    r
}

/// The fields of a request: the credentials with the salt, the protocol, and
/// what the request itself asks.
pub open spec fn request_fields(
    username: Seq<char>,
    password: Seq<char>,
    salt: Seq<char>,
    extra: Seq<(Seq<char>, Seq<char>)>,
) -> Seq<(Seq<char>, Seq<char>)> {
    seq![
        ("u"@, username),
        ("t"@, hex_text(md5_digest(encode_utf8(password) + encode_utf8(salt)))),
        ("s"@, salt),
        ("v"@, "1.16.1"@),
        ("c"@, "fugue"@),
        ("f"@, "json"@),
    ] + extra
}

/// The URL of a request with this salt.
pub open spec fn request_url(
    b: BackendClient,
    endpoint: Seq<char>,
    extra: Seq<(Seq<char>, Seq<char>)>,
    salt: Seq<char>,
) -> Seq<char> {
    b.base_url@ + "/rest/"@ + endpoint + "?"@ + form_text(
        request_fields(b.username@, b.password@, salt, extra),
    )
}

impl BackendClient {
    /// A backend; slashes at the end of its URL are dropped.
    pub fn new(
        index: usize,
        name: String,
        base_url: String,
        username: String,
        password: String,
        weight: i32,
    ) -> (r: BackendClient)
        ensures
            r.index == index,
            r.name == name,
            r.base_url@ == without_slashes(base_url@),
            r.username == username,
            r.password == password,
            r.weight == weight,
    {
        BackendClient {
            index,
            name,
            base_url: trim_slashes(base_url.as_str()),
            username,
            password,
            weight,
        }
    }

    /// The URL of a request with this salt: the token is derived from it, so
    /// that the password itself is never sent.
    pub fn url_with_salt(&self, endpoint: &str, extra_params: &Vec<(String, String)>, salt: &str) -> (r:
        String)
        ensures
            r@ == request_url(*self, endpoint@, pair_views(extra_params@), salt@),
    {
        let ghost want = request_fields(
            self.username@,
            self.password@,
            salt@,
            pair_views(extra_params@),
        );
        let token = token_for(self.password.as_str(), salt);
        let mut pairs: Vec<(String, String)> = Vec::new();
        pairs.push(("u".to_owned(), self.username.clone()));
        pairs.push(("t".to_owned(), token));
        pairs.push(("s".to_owned(), salt.to_owned()));
        pairs.push(("v".to_owned(), "1.16.1".to_owned()));
        pairs.push(("c".to_owned(), "fugue".to_owned()));
        pairs.push(("f".to_owned(), "json".to_owned()));
        assert(pair_views(pairs@) =~= want.take(6));
        let mut i: usize = 0;
        while i < extra_params.len()
            invariant
                i <= extra_params@.len(),
                want == request_fields(
                    self.username@,
                    self.password@,
                    salt@,
                    pair_views(extra_params@),
                ),
                pair_views(pairs@) == want.take(6 + i),
            decreases extra_params@.len() - i,
        {
            let ghost before = pairs@;
            let p = (extra_params[i].0.clone(), extra_params[i].1.clone());
            pairs.push(p);
            proof {
                assert(want[6 + i] == pair_views(extra_params@)[i as int]);
                assert(pair_views(pairs@) =~= pair_views(before).push((p.0@, p.1@)));
                assert(want.take(6 + i + 1) =~= want.take(6 + i).push((p.0@, p.1@)));
            }
            i += 1;
        }
        assert(want.take(6 + i) =~= want);
        let query = form_serialize(&pairs);
        let mut url = concat3(self.base_url.as_str(), "/rest/", endpoint);
        url.append("?");
        url.append(query.as_str());
        url
    }

    /// The URL of a request, with a fresh salt of sixteen letters and digits.
    pub fn build_url(&self, endpoint: &str, extra_params: &Vec<(String, String)>) -> (r: String)
        ensures
            exists|salt: String| #[trigger]
                salt_drawn(salt) && salt@.len() == 16 && (forall|i: int|
                    0 <= i < salt@.len() ==> is_plain(#[trigger] salt@[i])) && r@ == request_url(
                    *self,
                    endpoint@,
                    pair_views(extra_params@),
                    salt@,
                ),
    {
        let salt = draw_salt();
        self.url_with_salt(endpoint, extra_params, salt.as_str())
    }

    /// The error for a request that did not get through.
    pub fn request_error(&self, cause: &str) -> (r: FugueError)
        ensures
            r@ == FugueErrorView::Backend(self.name@ + ": "@ + cause@),
    {
        FugueError::Backend(concat3(self.name.as_str(), ": ", cause))
    }

    /// The error for an answer whose HTTP status is no success.
    pub fn status_error(&self, status: &str) -> (r: FugueError)
        ensures
            r@ == FugueErrorView::Backend(self.name@ + ": HTTP "@ + status@),
    {
        FugueError::Backend(concat3(self.name.as_str(), ": HTTP ", status))
    }

    /// The error for an answer that is no JSON.
    pub fn parse_error(&self, cause: &str) -> (r: FugueError)
        ensures
            r@ == FugueErrorView::Backend(self.name@ + ": parse error: "@ + cause@),
    {
        FugueError::Backend(concat3(self.name.as_str(), ": parse error: ", cause))
    }

    /// What the JSON of an answer means: the answer proper, or the error that it
    /// reports.
    pub fn request_json(&self, json: &Json) -> (r: Result<Json, FugueError>)
        ensures
            match reported_error(inner_response(json@)) {
                Some(e) => r matches Err(f) && f@ == e,
                None => r matches Ok(v) && v@ == inner_response(json@),
            },
    {
        let inner = match json.get("subsonic-response") {
            Some(v) => v,
            None => json,
        };
        let failed = match inner.get_str("status") {
            Some(s) => str_eq(s.as_str(), "failed"),
            None => false,
        };
        if failed {
            match inner.get("error") {
                Some(err) => {
                    let code: u32 = match err.get("code") {
                        Some(c) => match c.as_u64() {
                            Some(n) => n as u32,
                            None => 0,
                        },
                        None => 0,
                    };
                    let message = err.str_or("message", "Unknown error").to_owned();
                    return Err(FugueError::Subsonic { code, message });
                },
                None => {},
            }
        }
        Ok(inner.clone())
    }
}

/// The answer proper: what stands under `subsonic-response`, or all of it.
pub open spec fn inner_response(json: JsonView) -> JsonView {
    match json.get("subsonic-response"@) {
        Some(inner) => inner,
        None => json,
    }
}

/// The error that an answer reports, if it reports one.
pub open spec fn reported_error(inner: JsonView) -> Option<FugueErrorView> {
    if inner.get_text("status"@) == Some("failed"@) {
        match inner.get("error"@) {
            Some(err) => Some(
                FugueErrorView::Subsonic {
                    code: match err.get("code"@) {
                        Some(c) => match c.natural() {
                            Some(n) => n as u32,
                            None => 0,
                        },
                        None => 0,
                    },
                    message: err.text_or("message"@, "Unknown error"@),
                },
            ),
            None => None,
        }
    } else {
        None
    }
}

/// The client of the backend that is configured at a position.
pub open spec fn is_client_of(c: BackendClient, b: BackendConfig, index: int) -> bool {
    &&& c.index == index
    &&& c.name@ == b.name@
    &&& c.base_url@ == without_slashes(b.url@)
    &&& c.username@ == b.username@
    &&& c.password@ == b.password@
    &&& c.weight == b.weight
}

/// The clients of all configured backends, in their order.
pub fn build_backends(config: &Config) -> (r: Vec<BackendClient>)
    ensures
        r@.len() == config.backends@.len(),
        forall|i: int|
            0 <= i < r@.len() ==> is_client_of(#[trigger] r@[i], config.backends@[i], i),
{
    let mut out: Vec<BackendClient> = Vec::new();
    let mut i: usize = 0;
    while i < config.backends.len()
        invariant
            i <= config.backends@.len(),
            out@.len() == i,
            forall|k: int|
                0 <= k < i ==> is_client_of(#[trigger] out@[k], config.backends@[k], k),
        decreases config.backends@.len() - i,
    {
        let b = &config.backends[i];
        out.push(
            BackendClient::new(
                i,
                b.name.clone(),
                b.url.clone(),
                b.username.clone(),
                b.password.clone(),
                b.weight,
            ),
        );
        i += 1;
    }
    out
}

// ── Laws of what backends are asked and answer ──────────────────

/// An address loses the slashes at its end, all of them and nothing else.
pub proof fn trailing_slashes_are_dropped(s: Seq<char>) -> (n: nat)
    ensures
        s == without_slashes(s) + Seq::new(n, |i: int| '/'),
        without_slashes(s).len() > 0 ==> without_slashes(s).last() != '/',
    decreases s.len(),
{
    if s.len() > 0 && s.last() == '/' {
        let d = s.drop_last();
        let n = trailing_slashes_are_dropped(d);
        assert(s =~= d.push('/'));
        assert(Seq::new(n + 1, |i: int| '/') =~= Seq::new(n, |i: int| '/').push('/'));
        assert(s =~= without_slashes(s) + Seq::new(n + 1, |i: int| '/'));
        n + 1
    } else {
        assert(s =~= without_slashes(s) + Seq::new(0, |i: int| '/'));
        0
    }
}

/// A request goes to the endpoint below the backend's address and carries the
/// user, the token that the password and the salt give, the salt, the protocol
/// version, the client's name, the format, and all further parameters.
pub proof fn requests_carry_credentials_and_parameters(
    b: BackendClient,
    endpoint: Seq<char>,
    extra: Seq<(Seq<char>, Seq<char>)>,
    salt: Seq<char>,
)
    ensures
        request_url(b, endpoint, extra, salt) == b.base_url@ + "/rest/"@ + endpoint + "?"@
            + form_text(
            seq![
                ("u"@, b.username@),
                ("t"@, hex_text(md5_digest(encode_utf8(b.password@) + encode_utf8(salt)))),
                ("s"@, salt),
                ("v"@, "1.16.1"@),
                ("c"@, "fugue"@),
                ("f"@, "json"@),
            ] + extra,
        ),
{
}

/// What a backend answers is what stands under the root element, if there is one.
pub proof fn answers_are_taken_from_the_root(json: JsonView, inner: JsonView)
    ensures
        json.get("subsonic-response"@) == Some(inner) ==> inner_response(json) == inner,
        json.get("subsonic-response"@) is None ==> inner_response(json) == json,
{
}

/// An answer reports an error exactly if its status is "failed" and it holds one;
/// code and message are those that the backend gave.
pub proof fn failures_are_reported(
    inner: JsonView,
    err: JsonView,
    code: u64,
    message: Seq<char>,
)
    ensures
        inner.get("status"@) != Some(JsonView::Text("failed"@)) ==> reported_error(inner) is None,
        inner.get("error"@) is None ==> reported_error(inner) is None,
        inner.get("status"@) == Some(JsonView::Text("failed"@)) && inner.get("error"@) == Some(err)
            ==> {
            &&& reported_error(inner) is Some
            &&& code <= u32::MAX && err.get("code"@) == Some(
                JsonView::Number(NumberView::PosInt(code)),
            ) && err.get("message"@) == Some(JsonView::Text(message)) ==> reported_error(inner)
                == Some(FugueErrorView::Subsonic { code: code as u32, message })
            &&& err.get("code"@) is None && err.get("message"@) is None ==> reported_error(inner)
                == Some(FugueErrorView::Subsonic { code: 0, message: "Unknown error"@ })
        },
{
}

/// A backend is reached as its settings say: by name, address, user and password,
/// with its weight, at its place.
pub proof fn clients_follow_their_settings(c: BackendClient, b: BackendConfig, index: int)
    ensures
        is_client_of(c, b, index) <==> c.index == index && c.name@ == b.name@ && c.base_url@
            == without_slashes(b.url@) && c.username@ == b.username@ && c.password@ == b.password@
            && c.weight == b.weight,
{
}

} // verus!
