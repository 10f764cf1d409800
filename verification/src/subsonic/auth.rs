//! Subsonic authentication mechanisms.
//!
//! Three methods are supported, checked in this order: an API key, whose
//! SHA-256 digest is looked up; token and salt, where the token is the MD5
//! digest of password and salt; and the password itself, which may be
//! hex-encoded with an `enc:` prefix.

use crate::codec::{
    hex_bytes, hex_decode, hex_encode, hex_round_trip, hex_text, is_hex, md5, md5_digest,
    sha256, sha256_digest, utf8_round_trip, utf8_string,
};
use crate::config::{AuthConfig, UserCredentialView};
use crate::error::{FugueError, FugueErrorView};
use crate::like::{beginnings_match, is_like, like, starting_with};
use crate::random::{draw_key, key_drawn};
use crate::seqs::lemma_filter_end;
use crate::sorting::{
    ranking, ranking_is_total_preorder, sort, stable_sort, stable_sort_sorts, Ranked,
};
use crate::strs::{
    after_prefix, concat2, has_prefix, opt_text, str_eq, str_less, strip_prefix, text_less,
    text_less_irreflexive, text_less_total, text_less_transitive, views,
};
use crate::subsonic::params::{field_value, Params};
use crate::unicode::{lowercase, to_lowercase};
use vstd::prelude::*;
use vstd::utf8::{decode_utf8, encode_utf8, valid_utf8};

verus! {

/// A user whose credentials were found to be right.
#[derive(Debug)]
pub struct AuthenticatedUser {
    pub username: String,
}

/// The password of the first user of this name.
pub open spec fn password_of(users: Seq<UserCredentialView>, username: Seq<char>) -> Option<
    Seq<char>,
>
    decreases users.len(),
{
    if users.len() == 0 {
        None
    } else if users[0].username == username {
        Some(users[0].password)
    } else {
        password_of(users.drop_first(), username)
    }
}

/// `token` is the MD5 digest of password and salt, in hexadecimal of either
/// case.
pub open spec fn token_matches(password: Seq<char>, salt: Seq<char>, token: Seq<char>) -> bool {
    hex_text(md5_digest(encode_utf8(password) + encode_utf8(salt))) == lowercase(token)
}

/// The password that a `p` parameter stands for: what is hex-encoded behind
/// `enc:`, empty if that is no text; otherwise the parameter itself.
pub open spec fn plain_password(p: Seq<char>) -> Seq<char> {
    match after_prefix(p, "enc:"@) {
        Some(h) => if is_hex(h) && valid_utf8(hex_bytes(h)) {
            decode_utf8(hex_bytes(h))
        } else {
            seq![]
        },
        None => p,
    }
}

/// The credentials are right: the user is known; with token and salt the token
/// decides, otherwise the password.
pub open spec fn credentials_right(
    users: Seq<UserCredentialView>,
    username: Seq<char>,
    token: Option<Seq<char>>,
    salt: Option<Seq<char>>,
    password: Option<Seq<char>>,
) -> bool {
    match password_of(users, username) {
        None => false,
        Some(stored) => match (token, salt) {
            (Some(t), Some(s)) => token_matches(stored, s, t),
            _ => match password {
                Some(p) => plain_password(p) == stored,
                None => false,
            },
        },
    }
}

fn find_password<'a>(auth_config: &'a AuthConfig, username: &str) -> (r: Option<&'a String>)
    ensures
        match r {
            Some(p) => password_of(auth_config@, username@) == Some(p@),
            None => password_of(auth_config@, username@) is None,
        },
{
    let ghost users = auth_config@;
    let mut i: usize = 0;
    assert(users.skip(0) =~= users);
    while i < auth_config.users.len()
        invariant
            i <= auth_config.users@.len(),
            users == views(auth_config.users@),
            password_of(users, username@) == password_of(users.skip(i as int), username@),
        decreases auth_config.users@.len() - i,
    {
        proof {
            assert(users.skip(i as int)[0] == auth_config.users@[i as int]@);
            assert(users.skip(i as int).drop_first() =~= users.skip(i + 1));
        }
        if str_eq(auth_config.users[i].username.as_str(), username) {
            return Some(&auth_config.users[i].password);
        }
        i += 1;
    }
    None
}

/// The MD5 digest of password and salt, in hexadecimal.
pub fn token_for(password: &str, salt: &str) -> (r: String)
    ensures
        r@ == hex_text(md5_digest(encode_utf8(password@) + encode_utf8(salt@))),
{
    let both = concat2(password, salt);
    proof {
        lemma_encode_concat(password@, salt@);
    }
    let digest = md5(both.as_str().as_bytes());
    hex_encode(digest.as_slice())
}

/// Encoding two texts in a row is encoding them one after the other.
pub proof fn lemma_encode_concat(a: Seq<char>, b: Seq<char>)
    ensures
        encode_utf8(a + b) == encode_utf8(a) + encode_utf8(b),
    decreases a.len(),
{
    if a.len() == 0 {
        assert(a + b =~= b);
        assert(encode_utf8(a) + encode_utf8(b) =~= encode_utf8(b));
    } else {
        lemma_encode_concat(a.drop_first(), b);
        assert((a + b).drop_first() =~= a.drop_first() + b);
        assert(encode_utf8(a + b) =~= encode_utf8(a) + encode_utf8(b));
    }
}

fn verify_token(password: &str, salt: &str, token: &str) -> (r: bool)
    ensures
        r == token_matches(password@, salt@, token@),
{
    let expected = token_for(password, salt);
    str_eq(expected.as_str(), to_lowercase(token).as_str())
}

fn read_password(p: &str) -> (r: String)
    ensures
        r@ == plain_password(p@),
{
    match strip_prefix(p, "enc:") {
        Some(h) => match hex_decode(h.as_str()) {
            Some(bytes) => match utf8_string(bytes) {
                Ok(s) => s,
                Err(_) => String::new(),
            },
            None => String::new(),
        },
        None => p.to_owned(),
    }
}

/// What an optional text holds.
pub open spec fn opt_str(o: Option<&str>) -> Option<Seq<char>> {
    match o {
        Some(s) => Some(s@),
        None => None,
    }
}

/// Checks credentials against the configured users.
pub fn validate_auth(
    auth_config: &AuthConfig,
    username: &str,
    token: Option<&str>,
    salt: Option<&str>,
    password: Option<&str>,
) -> (r: Result<(), FugueError>)
    ensures
        r is Ok <==> credentials_right(
            auth_config@,
            username@,
            opt_str(token),
            opt_str(salt),
            opt_str(password),
        ),
        r matches Err(e) ==> e@ is AuthFailed,
{
    let stored = match find_password(auth_config, username) {
        Some(p) => p,
        None => {
            return Err(FugueError::AuthFailed);
        },
    };
    let right = match (token, salt) {
        (Some(t), Some(s)) => verify_token(stored.as_str(), s, t),
        _ => match password {
            Some(p) => str_eq(read_password(p).as_str(), stored.as_str()),
            None => false,
        },
    };
    if right {
        Ok(())
    } else {
        Err(FugueError::AuthFailed)
    }
}

/// The digest under which an API key is stored.
pub open spec fn key_digest(api_key: Seq<char>) -> Seq<char> {
    hex_text(sha256_digest(encode_utf8(api_key)))
}

/// The digest under which an API key is stored.
pub fn api_key_hash(api_key: &str) -> (r: String)
    ensures
        r@ == key_digest(api_key@),
{
    let digest = sha256(api_key.as_bytes());
    hex_encode(digest.as_slice())
}

/// What the parameters of a request come to.
pub enum AuthDecision {
    /// Look up the API key with this digest.
    LookUpKey(String),
    /// The user is authenticated.
    Authenticated(AuthenticatedUser),
    /// The request is refused.
    Refused(FugueError),
}

/// What the parameters of a request come to, as characters.
pub enum AuthDecisionView {
    LookUpKey(Seq<char>),
    Authenticated(Seq<char>),
    Refused(FugueErrorView),
}

impl View for AuthDecision {
    type V = AuthDecisionView;

    open spec fn view(&self) -> AuthDecisionView {
        match *self {
            AuthDecision::LookUpKey(h) => AuthDecisionView::LookUpKey(h@),
            AuthDecision::Authenticated(u) => AuthDecisionView::Authenticated(u.username@),
            AuthDecision::Refused(e) => AuthDecisionView::Refused(e@),
        }
    }
}

/// What the parameters of a request come to: an API key goes first and excludes
/// a user name; without it the credentials decide.
pub open spec fn auth_outcome(
    fields: Seq<(Seq<char>, Seq<char>)>,
    users: Seq<UserCredentialView>,
) -> AuthDecisionView {
    match field_value(fields, "apiKey"@) {
        Some(key) => if field_value(fields, "u"@) is Some {
            AuthDecisionView::Refused(
                FugueErrorView::Subsonic {
                    code: 43,
                    message: "Multiple conflicting authentication mechanisms provided"@,
                },
            )
        } else {
            AuthDecisionView::LookUpKey(key_digest(key))
        },
        None => match field_value(fields, "u"@) {
            None => AuthDecisionView::Refused(FugueErrorView::AuthFailed),
            Some(username) => if credentials_right(
                users,
                username,
                field_value(fields, "t"@),
                field_value(fields, "s"@),
                field_value(fields, "p"@),
            ) {
                AuthDecisionView::Authenticated(username)
            } else {
                AuthDecisionView::Refused(FugueErrorView::AuthFailed)
            },
        },
    }
}

fn as_text(o: Option<&String>) -> (r: Option<&str>)
    ensures
        opt_str(r) == match o {
            Some(s) => Some(s@),
            None => None,
        },
{
    match o {
        Some(s) => Some(s.as_str()),
        None => None,
    }
}

/// Decides on the parameters of a request.
pub fn authenticate(params: &Params, auth_config: &AuthConfig) -> (r: AuthDecision)
    ensures
        r@ == auth_outcome(params@, auth_config@),
{
    match params.get("apiKey") {
        Some(key) => match params.get("u") {
            Some(_) => AuthDecision::Refused(
                FugueError::Subsonic {
                    code: 43,
                    message: "Multiple conflicting authentication mechanisms provided".to_owned(),
                },
            ),
            None => AuthDecision::LookUpKey(api_key_hash(key.as_str())),
        },
        None => match params.get("u") {
            None => AuthDecision::Refused(FugueError::AuthFailed),
            Some(username) => {
                let checked = validate_auth(
                    auth_config,
                    username.as_str(),
                    as_text(params.get("t")),
                    as_text(params.get("s")),
                    as_text(params.get("p")),
                );
                match checked {
                    Ok(_) => AuthDecision::Authenticated(
                        AuthenticatedUser { username: username.clone() },
                    ),
                    Err(_) => AuthDecision::Refused(FugueError::AuthFailed),
                }
            },
        },
    }
}

// ── API keys ────────────────────────────────────────────────────

/// A stored API key. Only its digest is kept; the key itself is shown once,
/// when it is made.
#[derive(Debug)]
pub struct ApiKey {
    pub key_hash: String,
    pub username: String,
    pub label: String,
    pub created_at: String,
    pub last_used: Option<String>,
}

/// A stored API key, as characters.
pub struct ApiKeyView {
    pub key_hash: Seq<char>,
    pub username: Seq<char>,
    pub label: Seq<char>,
    pub created_at: Seq<char>,
    pub last_used: Option<Seq<char>>,
}

impl View for ApiKey {
    type V = ApiKeyView;

    open spec fn view(&self) -> ApiKeyView {
        ApiKeyView {
            key_hash: self.key_hash@,
            username: self.username@,
            label: self.label@,
            created_at: self.created_at@,
            last_used: opt_text(self.last_used),
        }
    }
}

impl Clone for ApiKey {
    fn clone(&self) -> (r: Self)
        ensures
            r@ == self@,
    {
        ApiKey {
            key_hash: self.key_hash.clone(),
            username: self.username.clone(),
            label: self.label.clone(),
            created_at: self.created_at.clone(),
            last_used: self.last_used.clone(),
        }
    }
}

impl Ranked for ApiKey {
    open spec fn leq(a: ApiKeyView, b: ApiKeyView) -> bool {
        !text_less(b.created_at, a.created_at)
    }

    proof fn leq_total(a: ApiKeyView, b: ApiKeyView) {
        if text_less(a.created_at, b.created_at) && text_less(b.created_at, a.created_at) {
            text_less_transitive(a.created_at, b.created_at, a.created_at);
            text_less_irreflexive(a.created_at);
        }
    }

    proof fn leq_transitive(a: ApiKeyView, b: ApiKeyView, c: ApiKeyView) {
        if text_less(c.created_at, a.created_at) {
            text_less_total(a.created_at, b.created_at);
            text_less_total(b.created_at, c.created_at);
            if text_less(a.created_at, b.created_at) {
                text_less_transitive(c.created_at, a.created_at, b.created_at);
            } else if text_less(b.created_at, c.created_at) {
                text_less_transitive(b.created_at, c.created_at, a.created_at);
            }
        }
    }

    fn may_precede(&self, other: &Self) -> (r: bool) {
        !str_less(other.created_at.as_str(), self.created_at.as_str())
    }
}

/// Where the first key with this digest stands, behind all keys if there is
/// none.
pub open spec fn key_index(keys: Seq<ApiKeyView>, key_hash: Seq<char>) -> nat
    decreases keys.len(),
{
    if keys.len() == 0 || keys[0].key_hash == key_hash {
        0
    } else {
        1 + key_index(keys.skip(1), key_hash)
    }
}

/// The user to whom the key with this digest belongs, if it is stored.
pub open spec fn key_owner(keys: Seq<ApiKeyView>, key_hash: Seq<char>) -> Option<Seq<char>> {
    let i = key_index(keys, key_hash);
    if i < keys.len() {
        Some(keys[i as int].username)
    } else {
        None
    }
}

proof fn lemma_key_index(keys: Seq<ApiKeyView>, key_hash: Seq<char>)
    ensures
        key_index(keys, key_hash) <= keys.len(),
        key_index(keys, key_hash) < keys.len() ==> keys[key_index(
            keys,
            key_hash,
        ) as int].key_hash == key_hash,
        forall|i: int|
            0 <= i < key_index(keys, key_hash) ==> (#[trigger] keys[i]).key_hash != key_hash,
    decreases keys.len(),
{
    if keys.len() > 0 && keys[0].key_hash != key_hash {
        let t = keys.skip(1);
        lemma_key_index(t, key_hash);
        assert forall|i: int| 0 <= i < key_index(keys, key_hash) implies (#[trigger]
        keys[i]).key_hash != key_hash by {
            if i > 0 {
                assert(t[i - 1] == keys[i]);
            }
        }
    }
}

proof fn lemma_first_index(keys: Seq<ApiKeyView>, key_hash: Seq<char>, n: int)
    requires
        0 <= n <= keys.len(),
        n < keys.len() ==> keys[n].key_hash == key_hash,
        forall|i: int| 0 <= i < n ==> (#[trigger] keys[i]).key_hash != key_hash,
    ensures
        key_index(keys, key_hash) == n,
{
    lemma_key_index(keys, key_hash);
    let k = key_index(keys, key_hash) as int;
    if k < n {
        assert(keys[k].key_hash != key_hash);
    } else if n < k {
        assert(keys[n].key_hash != key_hash);
    }
}

fn find_key(keys: &Vec<ApiKey>, key_hash: &str) -> (r: usize)
    ensures
        r == key_index(views(keys@), key_hash@),
        r <= keys@.len(),
{
    let ghost s = views(keys@);
    let mut i: usize = 0;
    while i < keys.len() && !str_eq(keys[i].key_hash.as_str(), key_hash)
        invariant
            i <= keys@.len(),
            s == views(keys@),
            forall|j: int| 0 <= j < i ==> (#[trigger] s[j]).key_hash != key_hash@,
        decreases keys@.len() - i,
    {
        assert(s[i as int] == keys@[i as int]@);
        i += 1;
    }
    proof {
        if i < keys@.len() {
            assert(s[i as int] == keys@[i as int]@);
        }
        assert(s.len() == keys@.len());
        lemma_first_index(s, key_hash@, i as int);
    }
    i
}

/// A key that was used at a time.
pub open spec fn used(k: ApiKeyView, at: Seq<char>) -> ApiKeyView {
    ApiKeyView {
        key_hash: k.key_hash,
        username: k.username,
        label: k.label,
        created_at: k.created_at,
        last_used: Some(at),
    }
}

/// Looks up the API key with a digest: who it belongs to is let in, and it is
/// noted when the key was used. A key that is not stored is refused.
pub fn verify_api_key(keys: &mut Vec<ApiKey>, key_hash: &str, at: &str) -> (r: Result<
    AuthenticatedUser,
    FugueError,
>)
    ensures
        match key_owner(views(old(keys)@), key_hash@) {
            Some(u) => {
                let i = key_index(views(old(keys)@), key_hash@) as int;
                &&& r matches Ok(a) && a.username@ == u
                &&& views(final(keys)@) == views(old(keys)@).update(
                    i,
                    used(views(old(keys)@)[i], at@),
                )
            },
            None => {
                &&& r matches Err(e) && e@ is AuthFailed
                &&& final(keys)@ == old(keys)@
            },
        },
{
    let i = find_key(keys, key_hash);
    if i == keys.len() {
        return Err(FugueError::AuthFailed);
    }
    let mut k = keys[i].clone();
    k.last_used = Some(at.to_owned());
    let username = k.username.clone();
    let ghost kv = k@;
    keys.set(i, k);
    assert(views(keys@) =~= views(old(keys)@).update(i as int, kv));
    Ok(AuthenticatedUser { username })
}

/// The API key that random bytes make, and the digest under which it is stored.
pub fn api_key_from_bytes(bytes: &Vec<u8>) -> (r: (String, String))
    ensures
        r.0@ == hex_text(bytes@),
        r.1@ == key_digest(hex_text(bytes@)),
{
    let key = hex_encode(bytes.as_slice());
    let hash = api_key_hash(key.as_str());
    (key, hash)
}

/// Stores the API key that random bytes make for a user, and gives the key. No
/// digest is stored twice.
pub fn store_api_key(
    keys: &mut Vec<ApiKey>,
    bytes: &Vec<u8>,
    username: &str,
    label: &str,
    created_at: &str,
) -> (r: Result<String, FugueError>)
    ensures
        if key_owner(views(old(keys)@), key_digest(hex_text(bytes@))) is None {
            &&& r matches Ok(key) && key@ == hex_text(bytes@)
            &&& views(final(keys)@) == views(old(keys)@).push(
                (ApiKeyView {
                    key_hash: key_digest(hex_text(bytes@)),
                    username: username@,
                    label: label@,
                    created_at: created_at@,
                    last_used: None,
                }),
            )
        } else {
            &&& r matches Err(e) && e@ == FugueErrorView::Internal(
                "API key is already stored"@,
            )
            &&& final(keys)@ == old(keys)@
        },
{
    let (key, hash) = api_key_from_bytes(bytes);
    if find_key(keys, hash.as_str()) < keys.len() {
        return Err(FugueError::Internal("API key is already stored".to_owned()));
    }
    let k = ApiKey {
        key_hash: hash,
        username: username.to_owned(),
        label: label.to_owned(),
        created_at: created_at.to_owned(),
        last_used: None,
    };
    let ghost kv = k@;
    keys.push(k);
    assert(views(keys@) =~= views(old(keys)@).push(kv));
    Ok(key)
}

/// Makes a new API key for a user, stores its digest and gives the key: 64
/// hexadecimal digits.
pub fn create_api_key(
    keys: &mut Vec<ApiKey>,
    username: &str,
    label: &str,
    created_at: &str,
) -> (r: Result<String, FugueError>)
    ensures
        match r {
            Ok(key) => {
                &&& exists|bytes: Vec<u8>| #[trigger]
                    key_drawn(bytes) && bytes@.len() == 32 && key@ == hex_text(bytes@)
                &&& key_owner(views(old(keys)@), key_digest(key@)) is None
                &&& views(final(keys)@) == views(old(keys)@).push(
                    (ApiKeyView {
                        key_hash: key_digest(key@),
                        username: username@,
                        label: label@,
                        created_at: created_at@,
                        last_used: None,
                    }),
                )
            },
            Err(e) => {
                &&& e@ == FugueErrorView::Internal("API key is already stored"@)
                &&& exists|bytes: Vec<u8>| #[trigger]
                    key_drawn(bytes) && key_owner(
                        views(old(keys)@),
                        key_digest(hex_text(bytes@)),
                    ) is Some
                &&& old(keys)@.len() > 0
                &&& final(keys)@ == old(keys)@
            },
        },
{
    let bytes = draw_key();
    assert(views(keys@).len() == keys@.len());
    store_api_key(keys, &bytes, username, label, created_at)
}

/// The keys whose digests do not match a pattern.
pub open spec fn keys_unlike(keys: Seq<ApiKeyView>, pattern: Seq<char>) -> Seq<ApiKeyView>
    decreases keys.len(),
{
    if keys.len() == 0 {
        seq![]
    } else {
        let rest = keys_unlike(keys.drop_last(), pattern);
        if like(pattern, keys.last().key_hash) {
            rest
        } else {
            rest.push(keys.last())
        }
    }
}

/// Revokes the API keys whose digests begin with `hash_prefix`; whether there
/// were any.
pub fn revoke_api_key(keys: &mut Vec<ApiKey>, hash_prefix: &str) -> (r: bool)
    ensures
        views(final(keys)@) == keys_unlike(views(old(keys)@), hash_prefix@ + "%"@),
        r == exists|i: int|
            0 <= i < old(keys)@.len() && like(
                hash_prefix@ + "%"@,
                (#[trigger] views(old(keys)@)[i]).key_hash,
            ),
{
    let pattern = starting_with(hash_prefix);
    let ghost s = views(keys@);
    let mut kept: Vec<ApiKey> = Vec::new();
    let mut any = false;
    let mut i: usize = 0;
    assert(s.take(0) =~= seq![]);
    assert(views(kept@) =~= seq![]);
    while i < keys.len()
        invariant
            i <= keys@.len(),
            s == views(keys@),
            pattern@ == hash_prefix@ + "%"@,
            views(kept@) == keys_unlike(s.take(i as int), pattern@),
            any == exists|j: int| 0 <= j < i && like(pattern@, (#[trigger] s[j]).key_hash),
        decreases keys@.len() - i,
    {
        let ghost before = kept@;
        proof {
            assert(s.take(i + 1).drop_last() =~= s.take(i as int));
            assert(s.take(i + 1).last() == keys@[i as int]@);
            assert(s[i as int] == keys@[i as int]@);
        }
        if is_like(pattern.as_str(), keys[i].key_hash.as_str()) {
            any = true;
        } else {
            let k = keys[i].clone();
            let ghost kv = k@;
            kept.push(k);
            assert(views(kept@) =~= views(before).push(kv));
        }
        i += 1;
    }
    assert(s.take(i as int) =~= s);
    *keys = kept;
    any
}

/// The keys of a user.
pub open spec fn keys_of(keys: Seq<ApiKeyView>, username: Seq<char>) -> Seq<ApiKeyView>
    decreases keys.len(),
{
    if keys.len() == 0 {
        seq![]
    } else {
        let rest = keys_of(keys.drop_last(), username);
        if keys.last().username == username {
            rest.push(keys.last())
        } else {
            rest
        }
    }
}

/// The API keys of a user, the oldest first.
pub fn list_api_keys(keys: &Vec<ApiKey>, username: &str) -> (r: Vec<ApiKey>)
    ensures
        views(r@) == stable_sort(keys_of(views(keys@), username@), ranking::<ApiKey>()),
{
    let ghost s = views(keys@);
    let mut own: Vec<ApiKey> = Vec::new();
    let mut i: usize = 0;
    assert(s.take(0) =~= seq![]);
    assert(views(own@) =~= seq![]);
    while i < keys.len()
        invariant
            i <= keys@.len(),
            s == views(keys@),
            views(own@) == keys_of(s.take(i as int), username@),
        decreases keys@.len() - i,
    {
        let ghost before = own@;
        proof {
            assert(s.take(i + 1).drop_last() =~= s.take(i as int));
            assert(s.take(i + 1).last() == keys@[i as int]@);
        }
        if str_eq(keys[i].username.as_str(), username) {
            let k = keys[i].clone();
            let ghost kv = k@;
            own.push(k);
            assert(views(own@) =~= views(before).push(kv));
        }
        i += 1;
    }
    assert(s.take(i as int) =~= s);
    sort(own)
}

/// A key that was stored is accepted as its user's, and all other keys are as
/// good as before.
pub proof fn stored_key_is_accepted(keys: Seq<ApiKeyView>, k: ApiKeyView, other: Seq<char>)
    requires
        key_owner(keys, k.key_hash) is None,
    ensures
        key_owner(keys.push(k), k.key_hash) == Some(k.username),
        other != k.key_hash ==> key_owner(keys.push(k), other) == key_owner(keys, other),
{
    let all = keys.push(k);
    lemma_key_index(keys, k.key_hash);
    assert forall|i: int| 0 <= i < keys.len() implies (#[trigger] all[i]).key_hash
        != k.key_hash by {
        assert(all[i] == keys[i]);
    }
    lemma_first_index(all, k.key_hash, keys.len() as int);
    if other != k.key_hash {
        lemma_key_index(keys, other);
        let n = key_index(keys, other) as int;
        assert forall|i: int| 0 <= i < n implies (#[trigger] all[i]).key_hash != other by {
            assert(all[i] == keys[i]);
        }
        if n < keys.len() {
            assert(all[n] == keys[n]);
            lemma_first_index(all, other, n);
        } else {
            assert forall|i: int| 0 <= i < all.len() implies (#[trigger] all[i]).key_hash
                != other by {
                if i < n {
                    assert(all[i] == keys[i]);
                }
            }
            lemma_first_index(all, other, all.len() as int);
        }
    }
}

proof fn lemma_unlike(keys: Seq<ApiKeyView>, pattern: Seq<char>, i: int)
    requires
        0 <= i < keys_unlike(keys, pattern).len(),
    ensures
        !like(pattern, keys_unlike(keys, pattern)[i].key_hash),
    decreases keys.len(),
{
    if keys.len() > 0 && i < keys_unlike(keys.drop_last(), pattern).len() {
        lemma_unlike(keys.drop_last(), pattern, i);
    }
}

/// A key that was revoked by the beginning of its digest is refused.
pub proof fn revoked_key_is_refused(
    keys: Seq<ApiKeyView>,
    hash_prefix: Seq<char>,
    key_hash: Seq<char>,
)
    requires
        has_prefix(key_hash, hash_prefix),
    ensures
        key_owner(keys_unlike(keys, hash_prefix + "%"@), key_hash) is None,
{
    let kept = keys_unlike(keys, hash_prefix + "%"@);
    beginnings_match(hash_prefix, key_hash);
    lemma_key_index(kept, key_hash);
    let i = key_index(kept, key_hash) as int;
    if i < kept.len() {
        lemma_unlike(keys, hash_prefix + "%"@, i);
    }
}

/// A client that computes its token from the password and any salt is let in.
pub proof fn right_token_is_accepted(
    users: Seq<UserCredentialView>,
    username: Seq<char>,
    salt: Seq<char>,
    token: Seq<char>,
    password: Option<Seq<char>>,
)
    requires
        password_of(users, username) is Some,
        lowercase(token) == hex_text(
            md5_digest(encode_utf8(password_of(users, username)->0) + encode_utf8(salt)),
        ),
    ensures
        credentials_right(users, username, Some(token), Some(salt), password),
{
}

/// Nobody gets in without a user name or an API key, as an unknown user, or
/// without any credentials.
pub proof fn strangers_are_refused(
    fields: Seq<(Seq<char>, Seq<char>)>,
    users: Seq<UserCredentialView>,
)
    requires
        field_value(fields, "apiKey"@) is None,
        field_value(fields, "u"@) is None || password_of(users, field_value(fields, "u"@)->0) is None
            || (field_value(fields, "p"@) is None && (field_value(fields, "t"@) is None
            || field_value(fields, "s"@) is None)),
    ensures
        auth_outcome(fields, users) == AuthDecisionView::Refused(FugueErrorView::AuthFailed),
{
}

/// A token is right exactly if it is the MD5 digest, in hexadecimal, of the
/// password followed by the salt; capital letters are as good as small ones.
pub proof fn right_tokens_are_digests(
    password: Seq<char>,
    salt: Seq<char>,
    token: Seq<char>,
    other: Seq<char>,
)
    ensures
        token_matches(password, salt, token) <==> lowercase(token) == hex_text(
            md5_digest(encode_utf8(password) + encode_utf8(salt)),
        ),
        lowercase(token) == lowercase(other) ==> token_matches(password, salt, token)
            == token_matches(password, salt, other),
{
}

/// A password that is sent in hexadecimal behind "enc:" is the password that was
/// encoded; any other text is the password itself.
pub proof fn encoded_passwords_are_read_back(password: Seq<char>)
    ensures
        plain_password("enc:"@ + hex_text(encode_utf8(password))) == password,
        !"enc:"@.is_prefix_of(password) ==> plain_password(password) == password,
{
    let mark = "enc:"@;
    let h = hex_text(encode_utf8(password));
    let sent = mark + h;
    assert(sent.take(mark.len() as int) =~= mark);
    assert(sent.skip(mark.len() as int) =~= h);
    hex_round_trip(encode_utf8(password));
    utf8_round_trip(password);
    if has_prefix(password, mark) {
        assert(mark =~= password.subrange(0, mark.len() as int));
    }
}

/// The keys of a user are all those with the user's name, in their order.
pub proof fn keys_of_a_user_are_picked(keys: Seq<ApiKeyView>, username: Seq<char>)
    ensures
        keys_of(keys, username) == keys.filter(|k: ApiKeyView| k.username == username),
    decreases keys.len(),
{
    lemma_filter_end(keys, |k: ApiKeyView| k.username == username);
    if keys.len() > 0 {
        keys_of_a_user_are_picked(keys.drop_last(), username);
    }
}

/// A key is found by the digest of its text: the first key with that digest.
pub proof fn keys_are_found_by_digest(keys: Seq<ApiKeyView>, api_key: Seq<char>, i: int)
    requires
        0 <= i < keys.len(),
        keys[i].key_hash == hex_text(sha256_digest(encode_utf8(api_key))),
        forall|j: int|
            0 <= j < i ==> (#[trigger] keys[j]).key_hash != hex_text(
                sha256_digest(encode_utf8(api_key)),
            ),
    ensures
        key_index(keys, key_digest(api_key)) == i,
{
    lemma_first_index(keys, key_digest(api_key), i);
}

/// Using a key changes the time of its last use and nothing else.
pub proof fn using_a_key_dates_it(k: ApiKeyView, at: Seq<char>)
    ensures
        used(k, at) == (ApiKeyView { last_used: Some(at), ..k }),
{
}

/// A user has the password that is set for the first user of that name; a name that
/// no user has, has none.
pub proof fn users_are_found_by_name(
    users: Seq<UserCredentialView>,
    username: Seq<char>,
    i: int,
)
    ensures
        0 <= i < users.len() && users[i].username == username && (forall|j: int|
            0 <= j < i ==> (#[trigger] users[j]).username != username) ==> password_of(
            users,
            username,
        ) == Some(users[i].password),
        (forall|j: int| 0 <= j < users.len() ==> (#[trigger] users[j]).username != username)
            ==> password_of(users, username) is None,
    decreases users.len(),
{
    if users.len() > 0 {
        let t = users.drop_first();
        users_are_found_by_name(t, username, i - 1);
        assert forall|j: int| 0 <= j < t.len() implies #[trigger] t[j] == users[j + 1] by {}
    }
}

/// A token with its salt decides alone; without one of them the password does, and
/// without that the user is refused.
pub proof fn token_goes_before_password(
    users: Seq<UserCredentialView>,
    username: Seq<char>,
    stored: Seq<char>,
    token: Seq<char>,
    salt: Seq<char>,
    password: Seq<char>,
)
    requires
        password_of(users, username) == Some(stored),
    ensures
        credentials_right(users, username, Some(token), Some(salt), Some(password))
            == token_matches(stored, salt, token),
        credentials_right(users, username, None, Some(salt), Some(password)) == (plain_password(
            password,
        ) == stored),
        credentials_right(users, username, Some(token), None, Some(password)) == (plain_password(
            password,
        ) == stored),
        credentials_right(users, username, None, None, Some(password)) == (plain_password(password)
            == stored),
        !credentials_right(users, username, None, None, None),
        !credentials_right(users, username, Some(token), None, None),
{
}

/// An API key is looked up by its digest, and is not to be mixed with a user name.
/// Without one, the user is let in exactly if the credentials are right.
pub proof fn keys_and_credentials_let_in(
    fields: Seq<(Seq<char>, Seq<char>)>,
    users: Seq<UserCredentialView>,
    key: Seq<char>,
    username: Seq<char>,
)
    ensures
        field_value(fields, "apiKey"@) == Some(key) && field_value(fields, "u"@) is None
            ==> auth_outcome(fields, users) == AuthDecisionView::LookUpKey(
            hex_text(sha256_digest(encode_utf8(key))),
        ),
        field_value(fields, "apiKey"@) == Some(key) && field_value(fields, "u"@) == Some(username)
            ==> (auth_outcome(fields, users) matches AuthDecisionView::Refused(e) && e.code() == 43),
        field_value(fields, "apiKey"@) is None && field_value(fields, "u"@) == Some(username) ==> (
        auth_outcome(fields, users) == if credentials_right(
            users,
            username,
            field_value(fields, "t"@),
            field_value(fields, "s"@),
            field_value(fields, "p"@),
        ) {
            AuthDecisionView::Authenticated(username)
        } else {
            AuthDecisionView::Refused(FugueErrorView::AuthFailed)
        }),
{
}

/// Revoking takes the keys whose digests match the pattern, and no others.
pub proof fn revoking_keeps_other_keys(keys: Seq<ApiKeyView>, pattern: Seq<char>)
    ensures
        keys_unlike(keys, pattern) == keys.filter(|k: ApiKeyView| !like(pattern, k.key_hash)),
    decreases keys.len(),
{
    lemma_filter_end(keys, |k: ApiKeyView| !like(pattern, k.key_hash));
    if keys.len() > 0 {
        revoking_keeps_other_keys(keys.drop_last(), pattern);
    }
}

/// A key belongs to the user for whom the first key of its digest was made.
pub proof fn keys_belong_to_their_users(keys: Seq<ApiKeyView>, key_hash: Seq<char>, i: int)
    ensures
        0 <= i < keys.len() && keys[i].key_hash == key_hash && (forall|j: int|
            0 <= j < i ==> (#[trigger] keys[j]).key_hash != key_hash) ==> key_owner(keys, key_hash)
            == Some(keys[i].username),
        (forall|j: int| 0 <= j < keys.len() ==> (#[trigger] keys[j]).key_hash != key_hash)
            ==> key_owner(keys, key_hash) is None,
{
    if 0 <= i < keys.len() && keys[i].key_hash == key_hash && (forall|j: int|
        0 <= j < i ==> (#[trigger] keys[j]).key_hash != key_hash) {
        lemma_first_index(keys, key_hash, i);
    }
    if forall|j: int| 0 <= j < keys.len() ==> (#[trigger] keys[j]).key_hash != key_hash {
        lemma_first_index(keys, key_hash, keys.len() as int);
    }
}

/// Keys are listed in the order in which they were made.
pub proof fn older_keys_come_first(keys: Seq<ApiKeyView>, i: int, j: int)
    requires
        0 <= i < j < keys.len(),
    ensures
        ({
            let listed = stable_sort(keys, ranking::<ApiKey>());
            &&& listed.to_multiset() == keys.to_multiset()
            &&& listed.len() == keys.len()
            &&& !text_less(listed[j].created_at, listed[i].created_at)
        }),
{
    ranking_is_total_preorder::<ApiKey>();
    stable_sort_sorts(keys, ranking::<ApiKey>());
    let listed = stable_sort(keys, ranking::<ApiKey>());
    assert(ranking::<ApiKey>()(listed[i], listed[j]));
}

} // verus!
