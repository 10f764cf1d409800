//! System endpoints, and the administrative ones that the command line uses.

use crate::health::probe::BackendHealth;
use crate::json::{
    integer, object, reading_after_setting, whole, Json, JsonView, Number, NumberView,
};
use crate::proxy::backend::BackendClient;
use crate::social::collab_playlist::{
    collab_id, collab_id_round_trip, collab_uuid, decode_collab_id, encode_collab_id,
    generate_invite, invite, invite_parts, parse_invite, role_name,
    role_named, role_round_trip, CollabTrack, PlaylistOp, Role,
};
use crate::social::friends::{Friend, FriendView};
use crate::social::library::{opt_text_json, text_or_null};
use crate::social::party::{
    ActiveParty, ActivePartyView, PartyMember, PartyMemberView, PartySessionView, PartyState,
    PartyStateView,
};
use crate::social::protocol::{
    opt_number, opt_track_json, opt_track_to_json, state_json, state_to_json, tracks_json,
    tracks_to_json, GossipMessage, PartyPlaybackState, PartyTrack, PartyTrackView,
};
use crate::social::service::SocialHandle;
use crate::strs::{
    at_most, concat2, decimal, decimal_read_back, natural_value, opt_text, parse_u32, str_eq,
    views,
};
use crate::subsonic::params::{field_value, number_or, value_or, Params};
use vstd::prelude::*;

verus! {

// ── Endpoints for clients ───────────────────────────────────────

/// The client that can move from HTTP to a peer-to-peer connection is told the
/// ticket of this node, if it has one; the answer to all others is empty.
pub fn ping(client: &str, ticket: Option<String>) -> (r: Option<Json>)
    ensures
        match ticket {
            Some(t) => if client@ == "naviamp"@ {
                r matches Some(j) && j@ == object().with("irohTicket"@, JsonView::Text(t@))
            } else {
                r is None
            },
            None => r is None,
        },
{
    match ticket {
        Some(t) => if str_eq(client, "naviamp") {
            Some(Json::object().with_text("irohTicket", t.as_str()))
        } else {
            None
        },
        None => None,
    }
}

/// The license, which is always valid.
pub fn get_license() -> (r: Json)
    ensures
        r@ == object().with(
            "license"@,
            object().with("valid"@, JsonView::Bool(true)).with(
                "email"@,
                JsonView::Text("fugue@localhost"@),
            ).with("licenseExpires"@, JsonView::Text("2099-12-31T23:59:59"@)),
        ),
{
    Json::object().with(
        "license",
        Json::object().with("valid", Json::Bool(true)).with_text(
            "email",
            "fugue@localhost",
        ).with_text("licenseExpires", "2099-12-31T23:59:59"),
    )
}

/// What a user is told of a user's rights.
pub open spec fn user_entry(username: Seq<char>) -> JsonView {
    object().with("username"@, JsonView::Text(username)).with("email"@, JsonView::Text(""@)).with(
        "scrobblingEnabled"@,
        JsonView::Bool(true),
    ).with("maxBitRate"@, integer(0)).with("adminRole"@, JsonView::Bool(false)).with(
        "settingsRole"@,
        JsonView::Bool(false),
    ).with("downloadRole"@, JsonView::Bool(true)).with("uploadRole"@, JsonView::Bool(false)).with(
        "playlistRole"@,
        JsonView::Bool(true),
    ).with("coverArtRole"@, JsonView::Bool(true)).with("commentRole"@, JsonView::Bool(false)).with(
        "podcastRole"@,
        JsonView::Bool(false),
    ).with("streamRole"@, JsonView::Bool(true)).with("jukeboxRole"@, JsonView::Bool(false)).with(
        "shareRole"@,
        JsonView::Bool(false),
    ).with("videoConversionRole"@, JsonView::Bool(false)).with(
        "folder"@,
        JsonView::Array(seq![integer(0)]),
    )
}

/// The rights of a user: of the one who asks, if the request names no other.
pub fn get_user(auth_username: &str, params: &Params) -> (r: Json)
    ensures
        r@ == object().with(
            "user"@,
            user_entry(value_or(params@, "username"@, auth_username@)),
        ),
{
    let username = params.get_or("username", auth_username);
    let mut folders: Vec<Json> = Vec::new();
    folders.push(Json::integer(0));
    assert(views(folders@) =~= seq![integer(0)]);
    Json::object().with(
        "user",
        Json::object().with_text("username", username.as_str()).with_text("email", "").with(
            "scrobblingEnabled",
            Json::Bool(true),
        ).with("maxBitRate", Json::integer(0)).with("adminRole", Json::Bool(false)).with(
            "settingsRole",
            Json::Bool(false),
        ).with("downloadRole", Json::Bool(true)).with("uploadRole", Json::Bool(false)).with(
            "playlistRole",
            Json::Bool(true),
        ).with("coverArtRole", Json::Bool(true)).with("commentRole", Json::Bool(false)).with(
            "podcastRole",
            Json::Bool(false),
        ).with("streamRole", Json::Bool(true)).with("jukeboxRole", Json::Bool(false)).with(
            "shareRole",
            Json::Bool(false),
        ).with("videoConversionRole", Json::Bool(false)).with("folder", Json::array(folders)),
    )
}

/// An extension of the Subsonic protocol, in its first version.
pub open spec fn extension(name: Seq<char>) -> JsonView {
    object().with("name"@, JsonView::Text(name)).with(
        "versions"@,
        JsonView::Array(seq![integer(1)]),
    )
}

fn make_extension(name: &str) -> (r: Json)
    ensures
        r@ == extension(name@),
{
    let mut versions: Vec<Json> = Vec::new();
    versions.push(Json::integer(1));
    assert(views(versions@) =~= seq![integer(1)]);
    Json::object().with_text("name", name).with("versions", Json::array(versions))
}

/// The extensions of the Subsonic protocol that this server has.
pub fn get_open_subsonic_extensions() -> (r: Json)
    ensures
        r@ == object().with(
            "openSubsonicExtensions"@,
            JsonView::Array(
                seq![
                    extension("formPost"@),
                    extension("songLyrics"@),
                    extension("transcodeOffset"@),
                    extension("playbackReport"@),
                    extension("apiKeyAuthentication"@),
                ],
            ),
        ),
{
    let mut list: Vec<Json> = Vec::new();
    list.push(make_extension("formPost"));
    list.push(make_extension("songLyrics"));
    list.push(make_extension("transcodeOffset"));
    list.push(make_extension("playbackReport"));
    list.push(make_extension("apiKeyAuthentication"));
    assert(views(list@) =~= seq![
        extension("formPost"@),
        extension("songLyrics"@),
        extension("transcodeOffset"@),
        extension("playbackReport"@),
        extension("apiKeyAuthentication"@),
    ]);
    Json::object().with("openSubsonicExtensions", Json::array(list))
}

/// The server scans nothing itself.
pub fn get_scan_status() -> (r: Json)
    ensures
        r@ == object().with(
            "scanStatus"@,
            object().with("scanning"@, JsonView::Bool(false)).with("count"@, integer(0)),
        ),
{
    Json::object().with(
        "scanStatus",
        Json::object().with("scanning", Json::Bool(false)).with("count", Json::integer(0)),
    )
}

// ── Administration ──────────────────────────────────────────────

/// An answer that reports an error.
pub open spec fn error_answer(message: Seq<char>) -> JsonView {
    object().with("error"@, JsonView::Text(message))
}

/// An answer that reports an error.
pub fn admin_error(message: &str) -> (r: Json)
    ensures
        r@ == error_answer(message@),
{
    Json::object().with_text("error", message)
}

/// An answer that reports a status.
pub fn admin_status_text(status: &str) -> (r: Json)
    ensures
        r@ == object().with("status"@, JsonView::Text(status@)),
{
    Json::object().with_text("status", status)
}

/// The ticket and the identifier of this node, if it has an identity.
pub fn admin_ticket(ticket: Option<(String, String)>) -> (r: Json)
    ensures
        r@ == match ticket {
            Some((ticket, node_id)) => object().with("ticket"@, JsonView::Text(ticket@)).with(
                "node_id"@,
                JsonView::Text(node_id@),
            ),
            None => error_answer(
                "Social is not enabled. Set [social] enabled = true in config."@,
            ),
        },
{
    match ticket {
        Some((ticket, node_id)) => Json::object().with_text("ticket", ticket.as_str()).with_text(
            "node_id",
            node_id.as_str(),
        ),
        None => admin_error("Social is not enabled. Set [social] enabled = true in config."),
    }
}

/// What the status says of a friend.
pub open spec fn friend_entry(f: FriendView) -> JsonView {
    object().with("name"@, JsonView::Text(f.name)).with(
        "node_id"@,
        JsonView::Text(f.public_key),
    ).with("last_seen"@, text_or_null(f.last_seen))
}

fn make_friend_entry(f: &Friend) -> (r: Json)
    ensures
        r@ == friend_entry(f@),
{
    Json::object().with_text("name", f.name.as_str()).with_text(
        "node_id",
        f.public_key.as_str(),
    ).with("last_seen", opt_text_json(&f.last_seen))
}

fn friend_entries(friends: &Vec<Friend>) -> (r: Vec<Json>)
    ensures
        views(r@) == views(friends@).map_values(|f: FriendView| friend_entry(f)),
{
    let ghost want = views(friends@).map_values(|f: FriendView| friend_entry(f));
    let mut out: Vec<Json> = Vec::new();
    let mut i: usize = 0;
    while i < friends.len()
        invariant
            i <= friends@.len(),
            want == views(friends@).map_values(|f: FriendView| friend_entry(f)),
            views(out@) == want.take(i as int),
        decreases friends@.len() - i,
    {
        let ghost before = out@;
        let c = make_friend_entry(&friends[i]);
        out.push(c);
        assert(views(out@) =~= views(before).push(c@));
        assert(want.take(i + 1) =~= want.take(i as int).push(c@));
        i += 1;
    }
    assert(want.take(i as int) =~= want);
    out
}

/// All friends.
pub fn admin_friends(friends: &Vec<Friend>) -> (r: Json)
    ensures
        r@ == object().with(
            "friends"@,
            JsonView::Array(views(friends@).map_values(|f: FriendView| friend_entry(f))),
        ),
{
    Json::object().with("friends", Json::array(friend_entries(friends)))
}

/// What a node is playing: the first entry of it.
pub open spec fn playing_at(entries: Seq<JsonView>, node_id: Seq<char>) -> JsonView
    decreases entries.len(),
{
    if entries.len() == 0 {
        JsonView::Null
    } else if entries[0].get_text("nodeId"@) == Some(node_id) {
        entries[0]
    } else {
        playing_at(entries.skip(1), node_id)
    }
}

fn find_playing(entries: &Vec<Json>, node_id: &str) -> (r: Json)
    ensures
        r@ == playing_at(views(entries@), node_id@),
{
    let ghost s = views(entries@);
    let mut i: usize = 0;
    assert(s.skip(0) =~= s);
    while i < entries.len()
        invariant
            i <= entries@.len(),
            s == views(entries@),
            playing_at(s, node_id@) == playing_at(s.skip(i as int), node_id@),
        decreases entries@.len() - i,
    {
        proof {
            assert(s.skip(i as int)[0] == entries@[i as int]@);
            assert(s.skip(i as int).skip(1) =~= s.skip(i + 1));
        }
        match entries[i].get_str("nodeId") {
            Some(n) => {
                if str_eq(n.as_str(), node_id) {
                    return entries[i].clone();
                }
            },
            None => {},
        }
        i += 1;
    }
    Json::Null
}

/// A friend with what they are playing.
pub open spec fn active_friend(f: FriendView, playing: Seq<JsonView>) -> JsonView {
    friend_entry(f).with("now_playing"@, playing_at(playing, f.public_key))
}

/// All friends with what they are playing.
pub fn admin_activity(friends: &Vec<Friend>, now_playing: &Vec<Json>, display_name: &str) -> (r:
    Json)
    ensures
        r@ == object().with(
            "friends"@,
            JsonView::Array(
                views(friends@).map_values(
                    |f: FriendView| active_friend(f, views(now_playing@)),
                ),
            ),
        ).with("display_name"@, JsonView::Text(display_name@)),
{
    let ghost want = views(friends@).map_values(
        |f: FriendView| active_friend(f, views(now_playing@)),
    );
    let mut out: Vec<Json> = Vec::new();
    let mut i: usize = 0;
    while i < friends.len()
        invariant
            i <= friends@.len(),
            want == views(friends@).map_values(
                |f: FriendView| active_friend(f, views(now_playing@)),
            ),
            views(out@) == want.take(i as int),
        decreases friends@.len() - i,
    {
        let ghost before = out@;
        let c = make_friend_entry(&friends[i]).with(
            "now_playing",
            find_playing(now_playing, friends[i].public_key.as_str()),
        );
        out.push(c);
        assert(views(out@) =~= views(before).push(c@));
        assert(want.take(i + 1) =~= want.take(i as int).push(c@));
        i += 1;
    }
    assert(want.take(i as int) =~= want);
    Json::object().with("friends", Json::array(out)).with_text("display_name", display_name)
}

/// What the status says of a backend.
pub open spec fn backend_entry(b: BackendClient, h: BackendHealth) -> JsonView {
    object().with("name"@, JsonView::Text(b.name@)).with("url"@, JsonView::Text(b.base_url@)).with(
        "available"@,
        JsonView::Bool(h.available),
    ).with("latency_ms"@, whole(h.latency_ms as nat)).with(
        "consecutive_failures"@,
        whole(h.consecutive_failures as nat),
    )
}

/// What the status says of a backend.
pub fn backend_status(b: &BackendClient, h: &BackendHealth) -> (r: Json)
    ensures
        r@ == backend_entry(*b, *h),
{
    Json::object().with_text("name", b.name.as_str()).with_text("url", b.base_url.as_str()).with(
        "available",
        Json::Bool(h.available),
    ).with("latency_ms", Json::whole(h.latency_ms)).with(
        "consecutive_failures",
        Json::whole(h.consecutive_failures as u64),
    )
}

/// What is known of this node's connection to others.
#[derive(Debug)]
pub struct NodeStatus {
    pub node_id: String,
    pub relay: Option<String>,
    pub direct_addresses: Vec<String>,
}

/// Texts as JSON.
pub open spec fn text_list(s: Seq<Seq<char>>) -> JsonView {
    JsonView::Array(s.map_values(|t: Seq<char>| JsonView::Text(t)))
}

fn texts_to_json(texts: &Vec<String>) -> (r: Json)
    ensures
        r@ == text_list(views(texts@)),
{
    let ghost want = views(texts@).map_values(|t: Seq<char>| JsonView::Text(t));
    let mut out: Vec<Json> = Vec::new();
    let mut i: usize = 0;
    while i < texts.len()
        invariant
            i <= texts@.len(),
            want == views(texts@).map_values(|t: Seq<char>| JsonView::Text(t)),
            views(out@) == want.take(i as int),
        decreases texts@.len() - i,
    {
        let ghost before = out@;
        let c = Json::text(texts[i].as_str());
        out.push(c);
        assert(views(out@) =~= views(before).push(c@));
        assert(want.take(i + 1) =~= want.take(i as int).push(c@));
        i += 1;
    }
    assert(want.take(i as int) =~= want);
    Json::array(out)
}

/// What the status says of sharing with friends.
pub open spec fn social_entry(node: Option<NodeStatus>, friends: Seq<FriendView>) -> JsonView {
    object().with("enabled"@, JsonView::Bool(node is Some)).with(
        "node_id"@,
        match node {
            Some(n) => JsonView::Text(n.node_id@),
            None => JsonView::Null,
        },
    ).with(
        "relay"@,
        match node {
            Some(n) => text_or_null(opt_text(n.relay)),
            None => JsonView::Null,
        },
    ).with(
        "direct_addresses"@,
        match node {
            Some(n) => text_list(views(n.direct_addresses@)),
            None => JsonView::Array(seq![]),
        },
    ).with(
        "friends"@,
        JsonView::Array(friends.map_values(|f: FriendView| friend_entry(f))),
    )
}

/// The status of this server: sharing with friends, the cache, the backends.
pub fn admin_status(
    node: &Option<NodeStatus>,
    friends: &Vec<Friend>,
    stats: (i64, i64, i64),
    backends: Vec<Json>,
) -> (r: Json)
    ensures
        r@ == object().with("social"@, social_entry(*node, views(friends@))).with(
            "cache"@,
            object().with("artists"@, integer(stats.0 as int)).with(
                "albums"@,
                integer(stats.1 as int),
            ).with("tracks"@, integer(stats.2 as int)),
        ).with("backends"@, JsonView::Array(views(backends@))),
{
    let none: Vec<Json> = Vec::new();
    assert(views(none@) =~= seq![]);
    let social = match node {
        Some(n) => Json::object().with("enabled", Json::Bool(true)).with_text(
            "node_id",
            n.node_id.as_str(),
        ).with("relay", opt_text_json(&n.relay)).with(
            "direct_addresses",
            texts_to_json(&n.direct_addresses),
        ),
        None => Json::object().with("enabled", Json::Bool(false)).with("node_id", Json::Null).with(
            "relay",
            Json::Null,
        ).with("direct_addresses", Json::array(none)),
    };
    Json::object().with("social", social.with("friends", Json::array(friend_entries(friends)))).with(
        "cache",
        Json::object().with("artists", Json::integer(stats.0)).with(
            "albums",
            Json::integer(stats.1),
        ).with("tracks", Json::integer(stats.2)),
    ).with("backends", Json::array(backends))
}

/// How many friends' addresses were registered.
pub fn admin_refresh_friends(registered: u64) -> (r: Json)
    ensures
        r@ == object().with("status"@, JsonView::Text("ok"@)).with(
            "friends_registered"@,
            whole(registered as nat),
        ),
{
    Json::object().with_text("status", "ok").with("friends_registered", Json::whole(registered))
}

// ── Collaborative playlists ─────────────────────────────────────

/// What friends are sent so that they have all of a playlist.
pub fn admin_playlist_sync(playlist_id: &str, name: Option<String>, tracks: Vec<CollabTrack>) -> (r:
    PlaylistOp)
    ensures
        r matches PlaylistOp::FullSync { playlist_id: p, name: n, tracks: t } && p@ == playlist_id@
            && n@ == (match opt_text(name) {
            Some(x) => x,
            None => "Unknown"@,
        }) && t == tracks,
{
    PlaylistOp::FullSync {
        playlist_id: playlist_id.to_owned(),
        name: match name {
            Some(n) => n,
            None => "Unknown".to_owned(),
        },
        tracks,
    }
}

/// What a request to join a playlist asks for.
pub open spec fn join_request(fields: Seq<(Seq<char>, Seq<char>)>) -> Result<
    (Seq<char>, Role, Seq<char>),
    JsonView,
> {
    match field_value(fields, "code"@) {
        None => Err(error_answer("Missing ?code= parameter"@)),
        Some(code) => match invite_parts(code) {
            Some(parts) => Ok(parts),
            None => Err(error_answer("Invalid invite code"@)),
        },
    }
}

/// Reads the invite by which a request joins a playlist.
pub fn admin_playlist_join(params: &Params) -> (r: Result<(String, Role, String), Json>)
    ensures
        match r {
            Ok((id, role, name)) => join_request(params@) == Ok::<
                (Seq<char>, Role, Seq<char>),
                JsonView,
            >((id@, role, name@)),
            Err(j) => join_request(params@) == Err::<(Seq<char>, Role, Seq<char>), JsonView>(j@),
        },
{
    match params.get("code") {
        None => Err(admin_error("Missing ?code= parameter")),
        Some(code) => match parse_invite(code.as_str()) {
            Some(parts) => Ok(parts),
            None => Err(admin_error("Invalid invite code")),
        },
    }
}

/// The answer to one who joined a playlist.
pub fn joined_playlist(playlist_id: &str, role: Role, name: &str) -> (r: Json)
    ensures
        r@ == object().with("status"@, JsonView::Text("ok"@)).with(
            "playlist_name"@,
            JsonView::Text(name@),
        ).with("role"@, JsonView::Text(role_name(role))).with(
            "playlist_id"@,
            JsonView::Text(collab_id(playlist_id@)),
        ),
{
    Json::object().with_text("status", "ok").with_text("playlist_name", name).with_text(
        "role",
        role.as_str(),
    ).with_text("playlist_id", encode_collab_id(playlist_id).as_str())
}

/// The playlist and the role that an invite is asked for. The playlist may be
/// named by its identifier or by itself.
pub open spec fn invite_request(fields: Seq<(Seq<char>, Seq<char>)>) -> Result<
    (Seq<char>, Role),
    JsonView,
> {
    match field_value(fields, "id"@) {
        None => Err(error_answer("Missing ?id= parameter"@)),
        Some(id) => match role_named(value_or(fields, "role"@, "collab"@)) {
            Some(role) => Ok(
                (
                    match collab_uuid(id) {
                        Some(uuid) => uuid,
                        None => id,
                    },
                    role,
                ),
            ),
            None => Err(
                error_answer("Invalid role: "@ + value_or(fields, "role"@, "collab"@)),
            ),
        },
    }
}

/// Reads for which playlist and role an invite is asked for.
pub fn admin_playlist_invite(params: &Params) -> (r: Result<(String, Role), Json>)
    ensures
        match r {
            Ok((id, role)) => invite_request(params@) == Ok::<(Seq<char>, Role), JsonView>(
                (id@, role),
            ),
            Err(j) => invite_request(params@) == Err::<(Seq<char>, Role), JsonView>(j@),
        },
{
    match params.get("id") {
        None => Err(admin_error("Missing ?id= parameter")),
        Some(id) => {
            let role_text = params.get_or("role", "collab");
            match Role::from_str(role_text.as_str()) {
                Some(role) => {
                    let uuid = match decode_collab_id(id.as_str()) {
                        Some(u) => u,
                        None => id.clone(),
                    };
                    Ok((uuid, role))
                },
                None => Err(admin_error(concat2("Invalid role: ", role_text.as_str()).as_str())),
            }
        },
    }
}

/// The answer with an invite; an error if there is no such playlist.
pub fn invite_answer(playlist_id: &str, role: Role, name: Option<String>) -> (r: Json)
    ensures
        r@ == match opt_text(name) {
            Some(n) => object().with("status"@, JsonView::Text("ok"@)).with(
                "code"@,
                JsonView::Text(invite(playlist_id@, role, n)),
            ).with("playlist_name"@, JsonView::Text(n)).with(
                "role"@,
                JsonView::Text(role_name(role)),
            ),
            None => error_answer("Playlist not found"@),
        },
{
    match name {
        Some(n) => Json::object().with_text("status", "ok").with_text(
            "code",
            generate_invite(playlist_id, role, n.as_str()).as_str(),
        ).with_text("playlist_name", n.as_str()).with_text("role", role.as_str()),
        None => admin_error("Playlist not found"),
    }
}

// ── Listening parties ───────────────────────────────────────────

/// The answer to one who created a session.
pub fn admin_party_create(session_id: &str, host: &str) -> (r: Json)
    ensures
        r@ == object().with("ok"@, JsonView::Bool(true)).with(
            "session_id"@,
            JsonView::Text(session_id@),
        ).with("host"@, JsonView::Text(host@)),
{
    Json::object().with("ok", Json::Bool(true)).with_text("session_id", session_id).with_text(
        "host",
        host,
    )
}

/// Follows the session that a request names. The state stays if it names none.
pub fn admin_party_join(party: &mut PartyState, params: &Params) -> (r: Json)
    ensures
        match field_value(params@, "session_id"@) {
            None => r@ == error_answer("Missing session_id"@) && final(party)@ == old(party)@,
            Some(id) => r@ == object().with("ok"@, JsonView::Bool(true)).with(
                "session_id"@,
                JsonView::Text(id),
            ).with("host_name"@, JsonView::Text(value_or(params@, "host_name"@, ""@)))
                && final(party)@ == (PartyStateView {
                hosting: None,
                following: Some(
                    crate::social::party::fresh_following(
                        id,
                        value_or(params@, "host_node_id"@, ""@),
                        value_or(params@, "host_name"@, ""@),
                    ),
                ),
                ..old(party)@
            }),
        },
{
    match params.get("session_id") {
        None => admin_error("Missing session_id"),
        Some(id) => {
            let host_name = params.get_or("host_name", "");
            let answer = Json::object().with("ok", Json::Bool(true)).with_text(
                "session_id",
                id.as_str(),
            ).with_text("host_name", host_name.as_str());
            party.follow(id.clone(), params.get_or("host_node_id", ""), host_name);
            answer
        },
    }
}

/// The answer to one who left a session, or who was in none.
pub fn admin_party_leave(left: Option<String>) -> (r: Json)
    ensures
        r@ == match opt_text(left) {
            Some(id) => object().with("ok"@, JsonView::Bool(true)).with(
                "left_session"@,
                JsonView::Text(id),
            ),
            None => error_answer("Not in a party session"@),
        },
{
    match left {
        Some(id) => Json::object().with("ok", Json::Bool(true)).with_text(
            "left_session",
            id.as_str(),
        ),
        None => admin_error("Not in a party session"),
    }
}

/// The answer to one who ended a session, or who hosted none.
pub fn admin_party_end(ended: Option<String>) -> (r: Json)
    ensures
        r@ == match opt_text(ended) {
            Some(id) => object().with("ok"@, JsonView::Bool(true)).with(
                "ended_session"@,
                JsonView::Text(id),
            ),
            None => error_answer("Not hosting a party"@),
        },
{
    match ended {
        Some(id) => Json::object().with("ok", Json::Bool(true)).with_text(
            "ended_session",
            id.as_str(),
        ),
        None => admin_error("Not hosting a party"),
    }
}

/// What a host announces to keep the party discoverable, and the answer to the
/// one who asked for it; nothing, if no party is hosted.
pub fn admin_party_beacon(party: &PartyState, social: &SocialHandle, node_id: &str) -> (r: (
    Option<GossipMessage>,
    Json,
))
    ensures
        match party@.hosting {
            Some(h) => {
                &&& r.0 matches Some(
                    GossipMessage::PartyCreate { session_id, display_name, node_id: n },
                ) && session_id@ == h.session_id && display_name@ == social.display_name@ && n@
                    == node_id@
                &&& r.1@ == object().with("ok"@, JsonView::Bool(true))
            },
            None => r.0 is None && r.1@ == error_answer("Not hosting a party"@),
        },
{
    match &party.hosting {
        Some(h) => (
            Some(social.broadcast_party_create(h.session_id.as_str(), node_id)),
            Json::object().with("ok", Json::Bool(true)),
        ),
        None => (None, admin_error("Not hosting a party")),
    }
}

/// The state that a request names; stopped, if it names none.
pub open spec fn named_state(name: Option<Seq<char>>) -> PartyPlaybackState {
    if name == Some("Playing"@) {
        PartyPlaybackState::Playing
    } else if name == Some("Paused"@) {
        PartyPlaybackState::Paused
    } else {
        PartyPlaybackState::Stopped
    }
}

/// A track that parameters describe.
pub open spec fn param_track(
    fields: Seq<(Seq<char>, Seq<char>)>,
    song_id: Seq<char>,
    duration_secs: Option<NumberView>,
) -> PartyTrackView {
    PartyTrackView {
        fingerprint: field_value(fields, "fingerprint"@),
        song_id,
        title: value_or(fields, "title"@, ""@),
        artist: value_or(fields, "artist"@, ""@),
        album: value_or(fields, "album"@, ""@),
        track_number: match field_value(fields, "track_number"@) {
            Some(t) => match at_most(natural_value(t), u32::MAX as nat) {
                Some(n) => Some(n as u32),
                None => None,
            },
            None => None,
        },
        duration_secs,
    }
}

/// The track that a request describes. `duration_secs` is the duration in it,
/// if it is a number.
pub fn track_from_params(params: &Params, song_id: &str, duration_secs: Option<Number>) -> (r:
    PartyTrack)
    ensures
        r@ == param_track(params@, song_id@, opt_number(duration_secs)),
{
    PartyTrack {
        fingerprint: params.copy_of("fingerprint"),
        song_id: song_id.to_owned(),
        title: params.get_or("title", ""),
        artist: params.get_or("artist", ""),
        album: params.get_or("album", ""),
        track_number: match params.get("track_number") {
            Some(t) => parse_u32(t.as_str()),
            None => None,
        },
        duration_secs,
    }
}

/// A session after its host said what is playing.
pub open spec fn synced(
    h: PartySessionView,
    fields: Seq<(Seq<char>, Seq<char>)>,
    position_secs: NumberView,
    duration_secs: Option<NumberView>,
) -> PartySessionView {
    PartySessionView {
        seq: (h.seq + 1) as u64,
        state: named_state(field_value(fields, "state"@)),
        position_secs,
        dj_timestamp_ms: number_or(fields, "dj_timestamp_ms"@, 0, u64::MAX as nat) as u64,
        track: match field_value(fields, "song_id"@) {
            Some(id) => Some(param_track(fields, id, duration_secs)),
            None => None,
        },
        ..h
    }
}

/// The host says what is playing. Returns the new sequence number; nothing
/// happens if this node hosts no session. The numbers of seconds are read from
/// the request beforehand.
pub fn admin_party_sync(
    party: &mut PartyState,
    params: &Params,
    position_secs: Number,
    duration_secs: Option<Number>,
) -> (r: Option<u64>)
    requires
        old(party)@.hosting matches Some(h) ==> h.seq < u64::MAX,
    ensures
        match old(party)@.hosting {
            Some(h) => {
                let after = synced(h, params@, position_secs@, opt_number(duration_secs));
                r == Some(after.seq) && final(party)@ == (PartyStateView {
                    hosting: Some(after),
                    ..old(party)@
                })
            },
            None => r is None && final(party)@ == old(party)@,
        },
{
    match &mut party.hosting {
        Some(h) => {
            let state = if params.has("state", "Playing") {
                PartyPlaybackState::Playing
            } else if params.has("state", "Paused") {
                PartyPlaybackState::Paused
            } else {
                PartyPlaybackState::Stopped
            };
            let track = match params.get("song_id") {
                Some(id) => Some(track_from_params(params, id.as_str(), duration_secs)),
                None => None,
            };
            h.seq = h.seq + 1;
            h.state = state;
            h.position_secs = position_secs;
            h.dj_timestamp_ms = params.number_u64("dj_timestamp_ms", 0);
            h.track = track;
            Some(h.seq)
        },
        None => None,
    }
}

/// A session after its host said what is in its playlist and queue.
pub open spec fn queue_synced(
    h: PartySessionView,
    fields: Seq<(Seq<char>, Seq<char>)>,
    playlist: Seq<PartyTrackView>,
    queue: Seq<PartyTrackView>,
) -> PartySessionView {
    PartySessionView {
        seq: (h.seq + 1) as u64,
        playlist,
        playlist_index: number_or(fields, "playlist_index"@, 0, usize::MAX as nat) as usize,
        queue,
        queue_index: number_or(fields, "queue_index"@, 0, usize::MAX as nat) as usize,
        playing_from_queue: field_value(fields, "playing_from_queue"@) == Some("true"@),
        ..h
    }
}

/// The host says what is in its playlist and queue. Returns the new sequence
/// number; nothing happens if this node hosts no session.
pub fn admin_party_queue_sync(
    party: &mut PartyState,
    params: &Params,
    playlist: Vec<PartyTrack>,
    queue: Vec<PartyTrack>,
) -> (r: Option<u64>)
    requires
        old(party)@.hosting matches Some(h) ==> h.seq < u64::MAX,
    ensures
        match old(party)@.hosting {
            Some(h) => {
                let after = queue_synced(h, params@, views(playlist@), views(queue@));
                r == Some(after.seq) && final(party)@ == (PartyStateView {
                    hosting: Some(after),
                    ..old(party)@
                })
            },
            None => r is None && final(party)@ == old(party)@,
        },
{
    match &mut party.hosting {
        Some(h) => {
            h.playlist = playlist;
            h.playlist_index = params.number("playlist_index", 0);
            h.queue = queue;
            h.queue_index = params.number("queue_index", 0);
            h.playing_from_queue = params.has("playing_from_queue", "true");
            h.seq = h.seq + 1;
            Some(h.seq)
        },
        None => None,
    }
}

/// Every change that a host makes known has a higher sequence number than all
/// before it, so that followers can tell.
pub proof fn host_sequence_rises(
    h: PartySessionView,
    fields: Seq<(Seq<char>, Seq<char>)>,
    position: NumberView,
    duration: Option<NumberView>,
    playlist: Seq<PartyTrackView>,
    queue: Seq<PartyTrackView>,
)
    requires
        h.seq < u64::MAX,
    ensures
        synced(h, fields, position, duration).seq > h.seq,
        queue_synced(h, fields, playlist, queue).seq > h.seq,
{
}

/// The answer to a host whose change was made known.
pub fn sync_answer(seq: Option<u64>) -> (r: Json)
    ensures
        r@ == match seq {
            Some(n) => object().with("ok"@, JsonView::Bool(true)).with("seq"@, whole(n as nat)),
            None => error_answer("Not hosting a party"@),
        },
{
    match seq {
        Some(n) => Json::object().with("ok", Json::Bool(true)).with("seq", Json::whole(n)),
        None => admin_error("Not hosting a party"),
    }
}

/// A party, as it is listed.
pub open spec fn party_entry(p: ActivePartyView) -> JsonView {
    object().with("session_id"@, JsonView::Text(p.session_id)).with(
        "host_name"@,
        JsonView::Text(p.host_name),
    ).with("host_node_id"@, JsonView::Text(p.host_node_id))
}

/// The list of parties that were discovered.
pub fn admin_party_discover(parties: &Vec<ActiveParty>) -> (r: Json)
    ensures
        r@ == object().with(
            "parties"@,
            JsonView::Array(views(parties@).map_values(|p: ActivePartyView| party_entry(p))),
        ),
{
    let ghost want = views(parties@).map_values(|p: ActivePartyView| party_entry(p));
    let mut out: Vec<Json> = Vec::new();
    let mut i: usize = 0;
    while i < parties.len()
        invariant
            i <= parties@.len(),
            want == views(parties@).map_values(|p: ActivePartyView| party_entry(p)),
            views(out@) == want.take(i as int),
        decreases parties@.len() - i,
    {
        let ghost before = out@;
        let p = &parties[i];
        let c = Json::object().with_text("session_id", p.session_id.as_str()).with_text(
            "host_name",
            p.host_name.as_str(),
        ).with_text("host_node_id", p.host_node_id.as_str());
        out.push(c);
        assert(views(out@) =~= views(before).push(c@));
        assert(want.take(i + 1) =~= want.take(i as int).push(c@));
        i += 1;
    }
    assert(want.take(i as int) =~= want);
    Json::object().with("parties", Json::array(out))
}

/// Whether a friend is asked for a party: not if one at their node is known.
pub fn asks_for_party(parties: &Vec<ActiveParty>, public_key: &str) -> (r: bool)
    ensures
        r == !(exists|i: int|
            0 <= i < parties@.len() && (#[trigger] parties@[i]).host_node_id@ == public_key@),
{
    let mut i: usize = 0;
    while i < parties.len()
        invariant
            i <= parties@.len(),
            forall|j: int|
                0 <= j < i ==> (#[trigger] parties@[j]).host_node_id@ != public_key@,
        decreases parties@.len() - i,
    {
        if str_eq(parties[i].host_node_id.as_str(), public_key) {
            return false;
        }
        i += 1;
    }
    true
}

/// The party that a friend's status says they host: its session, and the name
/// of the host.
pub open spec fn hosted_party(status: JsonView) -> Option<(Seq<char>, Seq<char>)> {
    let session_id = status.text_or("session_id"@, ""@);
    if status.text_or("mode"@, "off"@) == "hosting"@ && session_id.len() > 0 {
        Some((session_id, status.text_or("host_name"@, ""@)))
    } else {
        None
    }
}

/// Reads the party that a friend hosts from their status.
pub fn query_friend_party_status(status: &Json) -> (r: Option<(String, String)>)
    ensures
        match r {
            Some((s, h)) => hosted_party(status@) == Some((s@, h@)),
            None => hosted_party(status@) is None,
        },
{
    let session_id = status.str_or("session_id", "");
    if str_eq(status.str_or("mode", "off"), "hosting") && !session_id.is_empty() {
        Some((session_id.to_owned(), status.str_or("host_name", "").to_owned()))
    } else {
        None
    }
}

/// All that followers are told of a hosted session.
pub open spec fn full_state(hosting: Option<PartySessionView>) -> JsonView {
    match hosting {
        Some(h) => object().with("found"@, JsonView::Bool(true)).with(
            "seq"@,
            whole(h.seq as nat),
        ).with("state"@, state_json(h.state)).with("track"@, opt_track_json(h.track)).with(
            "position_secs"@,
            JsonView::Number(h.position_secs),
        ).with("dj_timestamp_ms"@, whole(h.dj_timestamp_ms as nat)).with(
            "dj_endpoint_addr"@,
            text_or_null(h.dj_endpoint_addr),
        ).with("playlist"@, tracks_json(h.playlist)).with(
            "playlist_index"@,
            whole(h.playlist_index as nat),
        ).with("queue"@, tracks_json(h.queue)).with(
            "queue_index"@,
            whole(h.queue_index as nat),
        ).with("playing_from_queue"@, JsonView::Bool(h.playing_from_queue)),
        None => object().with("found"@, JsonView::Bool(false)),
    }
}

/// All that followers are told of the hosted session.
pub fn admin_party_full_state(party: &PartyState) -> (r: Json)
    ensures
        r@ == full_state(party@.hosting),
{
    match &party.hosting {
        Some(h) => Json::object().with("found", Json::Bool(true)).with(
            "seq",
            Json::whole(h.seq),
        ).with("state", state_to_json(h.state)).with("track", opt_track_to_json(&h.track)).with(
            "position_secs",
            Json::Number(h.position_secs.clone()),
        ).with("dj_timestamp_ms", Json::whole(h.dj_timestamp_ms)).with(
            "dj_endpoint_addr",
            opt_text_json(&h.dj_endpoint_addr),
        ).with("playlist", tracks_to_json(&h.playlist)).with(
            "playlist_index",
            Json::whole(h.playlist_index as u64),
        ).with("queue", tracks_to_json(&h.queue)).with(
            "queue_index",
            Json::whole(h.queue_index as u64),
        ).with("playing_from_queue", Json::Bool(h.playing_from_queue)),
        None => Json::object().with("found", Json::Bool(false)),
    }
}

/// A member, as the status lists it.
pub open spec fn member_entry(m: PartyMemberView) -> JsonView {
    object().with("node_id"@, JsonView::Text(m.node_id)).with(
        "display_name"@,
        JsonView::Text(m.display_name),
    )
}

/// The status of a party state; what does not apply is left out.
pub open spec fn party_status(s: PartyStateView) -> JsonView {
    match (s.hosting, s.following) {
        (Some(h), _) => {
            let head = object().with("mode"@, JsonView::Text("hosting"@)).with(
                "session_id"@,
                JsonView::Text(h.session_id),
            ).with("host_name"@, JsonView::Text(h.host_name)).with(
                "members"@,
                JsonView::Array(h.members.map_values(|m: PartyMemberView| member_entry(m))),
            ).with("state"@, state_json(h.state));
            let middle = match h.track {
                Some(_) => head.with("track"@, opt_track_json(h.track)),
                None => head,
            };
            middle.with("position_secs"@, JsonView::Number(h.position_secs))
        },
        (None, Some(f)) => object().with("mode"@, JsonView::Text("following"@)).with(
            "session_id"@,
            JsonView::Text(f.session_id),
        ).with("host_name"@, JsonView::Text(f.host_name)),
        (None, None) => object().with("mode"@, JsonView::Text("off"@)),
    }
}

fn member_entries(members: &Vec<PartyMember>) -> (r: Vec<Json>)
    ensures
        views(r@) == views(members@).map_values(|m: PartyMemberView| member_entry(m)),
{
    let ghost want = views(members@).map_values(|m: PartyMemberView| member_entry(m));
    let mut out: Vec<Json> = Vec::new();
    let mut i: usize = 0;
    while i < members.len()
        invariant
            i <= members@.len(),
            want == views(members@).map_values(|m: PartyMemberView| member_entry(m)),
            views(out@) == want.take(i as int),
        decreases members@.len() - i,
    {
        let ghost before = out@;
        let c = Json::object().with_text("node_id", members[i].node_id.as_str()).with_text(
            "display_name",
            members[i].display_name.as_str(),
        );
        out.push(c);
        assert(views(out@) =~= views(before).push(c@));
        assert(want.take(i + 1) =~= want.take(i as int).push(c@));
        i += 1;
    }
    assert(want.take(i as int) =~= want);
    out
}

/// The status of the party state.
pub fn admin_party_status(party: &PartyState) -> (r: Json)
    ensures
        r@ == party_status(party@),
{
    match (&party.hosting, &party.following) {
        (Some(h), _) => {
            let head = Json::object().with_text("mode", "hosting").with_text(
                "session_id",
                h.session_id.as_str(),
            ).with_text("host_name", h.host_name.as_str()).with(
                "members",
                Json::array(member_entries(&h.members)),
            ).with("state", state_to_json(h.state));
            let middle = match &h.track {
                Some(_) => head.with("track", opt_track_to_json(&h.track)),
                None => head,
            };
            middle.with("position_secs", Json::Number(h.position_secs.clone()))
        },
        (None, Some(f)) => Json::object().with_text("mode", "following").with_text(
            "session_id",
            f.session_id.as_str(),
        ).with_text("host_name", f.host_name.as_str()),
        (None, None) => Json::object().with_text("mode", "off"),
    }
}

/// What a friend's status says is what the friend hosts: a hosted session with
/// an identifier is discovered by it.
pub proof fn hosted_party_is_discovered(s: PartyStateView, h: PartySessionView)
    requires
        s.hosting == Some(h),
        h.session_id.len() > 0,
    ensures
        hosted_party(party_status(s)) == Some((h.session_id, h.host_name)),
{
    reveal_strlit("mode");
    reveal_strlit("session_id");
    reveal_strlit("host_name");
    reveal_strlit("members");
    reveal_strlit("state");
    reveal_strlit("track");
    reveal_strlit("position_secs");
    let status = party_status(s);
    let mode = JsonView::Text("hosting"@);
    let o1 = object().with("mode"@, mode);
    let o2 = o1.with("session_id"@, JsonView::Text(h.session_id));
    let o3 = o2.with("host_name"@, JsonView::Text(h.host_name));
    let o4 = o3.with(
        "members"@,
        JsonView::Array(h.members.map_values(|m: PartyMemberView| member_entry(m))),
    );
    let o5 = o4.with("state"@, state_json(h.state));
    let o6 = match h.track {
        Some(_) => o5.with("track"@, opt_track_json(h.track)),
        None => o5,
    };
    assert(status == o6.with("position_secs"@, JsonView::Number(h.position_secs)));
    lemma_member_kept(object(), "mode"@, mode, "mode"@);
    lemma_member_kept(o1, "session_id"@, JsonView::Text(h.session_id), "mode"@);
    lemma_member_kept(o2, "host_name"@, JsonView::Text(h.host_name), "mode"@);
    lemma_member_kept(o2, "host_name"@, JsonView::Text(h.host_name), "session_id"@);
    let members = JsonView::Array(h.members.map_values(|m: PartyMemberView| member_entry(m)));
    lemma_head_kept(o3, "members"@, members);
    lemma_head_kept(o4, "state"@, state_json(h.state));
    lemma_head_kept(o5, "track"@, opt_track_json(h.track));
    lemma_head_kept(o6, "position_secs"@, JsonView::Number(h.position_secs));
}

proof fn lemma_member_kept(o: JsonView, key: Seq<char>, v: JsonView, other: Seq<char>)
    requires
        o is Object,
    ensures
        o.with(key, v) is Object,
        o.with(key, v).get(key) == Some(v),
        other != key ==> o.with(key, v).get(other) == o.get(other),
{
    crate::json::set_then_get(o->Object_0, key, v, other);
}

proof fn lemma_head_kept(o: JsonView, key: Seq<char>, v: JsonView)
    requires
        o is Object,
        key != "mode"@,
        key != "session_id"@,
        key != "host_name"@,
    ensures
        o.with(key, v) is Object,
        o.with(key, v).get("mode"@) == o.get("mode"@),
        o.with(key, v).get("session_id"@) == o.get("session_id"@),
        o.with(key, v).get("host_name"@) == o.get("host_name"@),
{
    lemma_member_kept(o, key, v, "mode"@);
    lemma_member_kept(o, key, v, "session_id"@);
    lemma_member_kept(o, key, v, "host_name"@);
}

/// The host's client says at which address followers reach it directly.
pub fn admin_party_advertise_direct(party: &mut PartyState, params: &Params) -> (r: Json)
    ensures
        ({
            let addr = value_or(params@, "addr"@, ""@);
            if addr.len() == 0 {
                r@ == error_answer("Missing addr parameter"@) && final(party)@ == old(party)@
            } else {
                match old(party)@.hosting {
                    Some(h) => r@ == object().with("ok"@, JsonView::Bool(true)) && final(party)@
                        == (PartyStateView {
                        hosting: Some(
                            PartySessionView { dj_endpoint_addr: Some(addr), ..h },
                        ),
                        ..old(party)@
                    }),
                    None => r@ == error_answer("Not hosting a party"@) && final(party)@ == old(
                        party,
                    )@,
                }
            }
        }),
{
    let addr = params.get_or("addr", "");
    if addr.as_str().is_empty() {
        return admin_error("Missing addr parameter");
    }
    match &mut party.hosting {
        Some(h) => {
            h.dj_endpoint_addr = Some(addr);
            Json::object().with("ok", Json::Bool(true))
        },
        None => admin_error("Not hosting a party"),
    }
}

/// At which address the host of a session is reached directly, if it is hosted
/// here and its address is known.
pub fn admin_party_peer_addr(party: &PartyState, params: &Params) -> (r: Json)
    ensures
        ({
            let id = value_or(params@, "session_id"@, ""@);
            let addr = match party@.hosting {
                Some(h) => if h.session_id == id {
                    text_or_null(h.dj_endpoint_addr)
                } else {
                    JsonView::Null
                },
                None => JsonView::Null,
            };
            r@ == object().with("ok"@, JsonView::Bool(true)).with("addr"@, addr)
        }),
{
    let id = params.get_or("session_id", "");
    let addr = match &party.hosting {
        Some(h) => if str_eq(h.session_id.as_str(), id.as_str()) {
            opt_text_json(&h.dj_endpoint_addr)
        } else {
            Json::Null
        },
        None => Json::Null,
    };
    Json::object().with("ok", Json::Bool(true)).with("addr", addr)
}

/// The times of a clock measurement: when the client sent it by its own clock,
/// when it was received here, and when the answer is sent.
pub fn admin_party_time_ping(params: &Params, received_ms: u64, sent_ms: u64) -> (r: Json)
    ensures
        r@ == object().with(
            "t1"@,
            whole(number_or(params@, "t1"@, 0, u64::MAX as nat)),
        ).with("t2"@, whole(received_ms as nat)).with("t3"@, whole(sent_ms as nat)),
{
    Json::object().with("t1", Json::whole(params.number_u64("t1", 0))).with(
        "t2",
        Json::whole(received_ms),
    ).with("t3", Json::whole(sent_ms))
}

/// The answer to one who asked for a track of the host in the library here.
pub fn admin_party_resolve_track(found: Option<String>, track: &PartyTrack) -> (r: Json)
    ensures
        r@ == match opt_text(found) {
            Some(id) => object().with("ok"@, JsonView::Bool(true)).with(
                "song_id"@,
                JsonView::Text(id),
            ),
            None => object().with("ok"@, JsonView::Bool(false)).with(
                "error"@,
                JsonView::Text("Track not found"@),
            ).with("title"@, JsonView::Text(track.title@)).with(
                "artist"@,
                JsonView::Text(track.artist@),
            ),
        },
{
    match found {
        Some(id) => Json::object().with("ok", Json::Bool(true)).with_text("song_id", id.as_str()),
        None => Json::object().with("ok", Json::Bool(false)).with_text(
            "error",
            "Track not found",
        ).with_text("title", track.title.as_str()).with_text("artist", track.artist.as_str()),
    }
}

// ── Laws of what the endpoints show ─────────────────────────────

/// Every user may play, download, keep playlists and see cover art, and may not
/// manage anything.
#[verifier::rlimit(60)]
pub proof fn users_may_play_but_not_manage(username: Seq<char>)
    ensures
        ({
            let r = user_entry(username);
            &&& r.get("username"@) == Some(JsonView::Text(username))
            &&& r.get("email"@) == Some(JsonView::Text(""@))
            &&& r.get("scrobblingEnabled"@) == Some(JsonView::Bool(true))
            &&& r.get("maxBitRate"@) == Some(JsonView::Number(NumberView::PosInt(0)))
            &&& r.get("adminRole"@) == Some(JsonView::Bool(false))
            &&& r.get("settingsRole"@) == Some(JsonView::Bool(false))
            &&& r.get("downloadRole"@) == Some(JsonView::Bool(true))
            &&& r.get("uploadRole"@) == Some(JsonView::Bool(false))
            &&& r.get("playlistRole"@) == Some(JsonView::Bool(true))
            &&& r.get("coverArtRole"@) == Some(JsonView::Bool(true))
            &&& r.get("commentRole"@) == Some(JsonView::Bool(false))
            &&& r.get("podcastRole"@) == Some(JsonView::Bool(false))
            &&& r.get("streamRole"@) == Some(JsonView::Bool(true))
            &&& r.get("jukeboxRole"@) == Some(JsonView::Bool(false))
            &&& r.get("shareRole"@) == Some(JsonView::Bool(false))
            &&& r.get("videoConversionRole"@) == Some(JsonView::Bool(false))
        }),
{
    broadcast use reading_after_setting;

    reveal_strlit("username");
    reveal_strlit("email");
    reveal_strlit("scrobblingEnabled");
    reveal_strlit("maxBitRate");
    reveal_strlit("adminRole");
    reveal_strlit("settingsRole");
    reveal_strlit("downloadRole");
    reveal_strlit("uploadRole");
    reveal_strlit("playlistRole");
    reveal_strlit("coverArtRole");
    reveal_strlit("commentRole");
    reveal_strlit("podcastRole");
    reveal_strlit("streamRole");
    reveal_strlit("jukeboxRole");
    reveal_strlit("shareRole");
    reveal_strlit("videoConversionRole");
    reveal_strlit("folder");
    assert("username"@.len() == 8 && "email"@.len() == 5 && "scrobblingEnabled"@.len() == 17);
    assert("maxBitRate"@.len() == 10 && "adminRole"@.len() == 9 && "settingsRole"@.len() == 12);
    assert("downloadRole"@.len() == 12 && "uploadRole"@.len() == 10);
    assert("playlistRole"@.len() == 12 && "coverArtRole"@.len() == 12);
    assert("commentRole"@.len() == 11 && "podcastRole"@.len() == 11 && "streamRole"@.len() == 10);
    assert("jukeboxRole"@.len() == 11 && "shareRole"@.len() == 9);
    assert("videoConversionRole"@.len() == 19 && "folder"@.len() == 6);
    assert("maxBitRate"@[0] != "uploadRole"@[0]);
    assert("maxBitRate"@[0] != "streamRole"@[0]);
    assert("adminRole"@[0] != "shareRole"@[0]);
    assert("settingsRole"@[0] != "downloadRole"@[0]);
    assert("settingsRole"@[0] != "playlistRole"@[0]);
    assert("settingsRole"@[0] != "coverArtRole"@[0]);
    assert("downloadRole"@[0] != "playlistRole"@[0]);
    assert("downloadRole"@[0] != "coverArtRole"@[0]);
    assert("uploadRole"@[0] != "streamRole"@[0]);
    assert("playlistRole"@[0] != "coverArtRole"@[0]);
    assert("commentRole"@[0] != "podcastRole"@[0]);
    assert("commentRole"@[0] != "jukeboxRole"@[0]);
    assert("podcastRole"@[0] != "jukeboxRole"@[0]);
}

/// A friend is shown with the name, the node and the time at which the friend
/// was last seen.
pub proof fn friends_are_shown_with_node_and_time(f: FriendView, at: Seq<char>)
    ensures
        ({
            let r = friend_entry(f);
            &&& r.get("name"@) == Some(JsonView::Text(f.name))
            &&& r.get("node_id"@) == Some(JsonView::Text(f.public_key))
            &&& f.last_seen is None ==> r.get("last_seen"@) == Some(JsonView::Null)
            &&& f.last_seen == Some(at) ==> r.get("last_seen"@) == Some(JsonView::Text(at))
        }),
{
    broadcast use reading_after_setting;

    reveal_strlit("name");
    reveal_strlit("node_id");
    reveal_strlit("last_seen");
    assert("name"@.len() == 4 && "node_id"@.len() == 7 && "last_seen"@.len() == 9);
}

proof fn lemma_playing_at(entries: Seq<JsonView>, node_id: Seq<char>, i: int)
    ensures
        0 <= i < entries.len() && entries[i].get_text("nodeId"@) == Some(node_id) && (forall|j: int|
            0 <= j < i ==> (#[trigger] entries[j]).get_text("nodeId"@) != Some(node_id))
            ==> playing_at(entries, node_id) == entries[i],
        (forall|j: int|
            0 <= j < entries.len() ==> (#[trigger] entries[j]).get_text("nodeId"@) != Some(node_id))
            ==> playing_at(entries, node_id) == JsonView::Null,
    decreases entries.len(),
{
    if entries.len() > 0 {
        let t = entries.skip(1);
        lemma_playing_at(t, node_id, i - 1);
        assert forall|j: int| 0 <= j < t.len() implies #[trigger] t[j] == entries[j + 1] by {}
        if i > 0 {
            assert(entries[0].get_text("nodeId"@) != Some(node_id) || !(forall|j: int|
                0 <= j < i ==> (#[trigger] entries[j]).get_text("nodeId"@) != Some(node_id)));
        }
    }
}

/// An active friend is shown with the first entry that says what plays at the
/// friend's node, with nothing if none does.
pub proof fn friends_are_shown_with_what_they_play(f: FriendView, playing: Seq<JsonView>, i: int)
    ensures
        0 <= i < playing.len() && playing[i].get_text("nodeId"@) == Some(f.public_key) && (
        forall|j: int|
            0 <= j < i ==> (#[trigger] playing[j]).get_text("nodeId"@) != Some(f.public_key))
            ==> active_friend(f, playing).get("now_playing"@) == Some(playing[i]),
        (forall|j: int|
            0 <= j < playing.len() ==> (#[trigger] playing[j]).get_text("nodeId"@) != Some(
                f.public_key,
            )) ==> active_friend(f, playing).get("now_playing"@) == Some(JsonView::Null),
        active_friend(f, playing).get("name"@) == Some(JsonView::Text(f.name)),
        active_friend(f, playing).get("node_id"@) == Some(JsonView::Text(f.public_key)),
{
    broadcast use reading_after_setting;

    reveal_strlit("name");
    reveal_strlit("node_id");
    reveal_strlit("last_seen");
    reveal_strlit("now_playing");
    assert("name"@.len() == 4 && "node_id"@.len() == 7 && "last_seen"@.len() == 9);
    assert("now_playing"@.len() == 11);
    lemma_playing_at(playing, f.public_key, i);
    friends_are_shown_with_node_and_time(f, seq![]);
}

/// A backend is shown with its name, its address, and what is known of its
/// health.
pub proof fn backends_are_shown_with_their_health(b: BackendClient, h: BackendHealth)
    ensures
        ({
            let r = backend_entry(b, h);
            &&& r.get("name"@) == Some(JsonView::Text(b.name@))
            &&& r.get("url"@) == Some(JsonView::Text(b.base_url@))
            &&& r.get("available"@) == Some(JsonView::Bool(h.available))
            &&& r.get("latency_ms"@) == Some(JsonView::Number(NumberView::PosInt(h.latency_ms)))
            &&& r.get("consecutive_failures"@) == Some(JsonView::Number(NumberView::PosInt(h.consecutive_failures as u64)))
        }),
{
    broadcast use reading_after_setting;

    reveal_strlit("name");
    reveal_strlit("url");
    reveal_strlit("available");
    reveal_strlit("latency_ms");
    reveal_strlit("consecutive_failures");
    assert("name"@.len() == 4 && "url"@.len() == 3 && "available"@.len() == 9);
    assert("latency_ms"@.len() == 10 && "consecutive_failures"@.len() == 20);
}

/// The social part of the status says whether there is a node, under which
/// identifier and addresses it is reached, and who the friends are.
pub proof fn status_shows_node_and_friends(node: NodeStatus, friends: Seq<FriendView>, i: int)
    ensures
        ({
            let r = social_entry(Some(node), friends);
            &&& r.get("enabled"@) == Some(JsonView::Bool(true))
            &&& r.get("node_id"@) == Some(JsonView::Text(node.node_id@))
            &&& node.relay matches Some(relay) ==> r.get("relay"@) == Some(JsonView::Text(relay@))
            &&& node.relay is None ==> r.get("relay"@) == Some(JsonView::Null)
            &&& r.items("direct_addresses"@).len() == node.direct_addresses@.len()
            &&& 0 <= i < node.direct_addresses@.len() ==> r.items("direct_addresses"@)[i]
                == JsonView::Text(node.direct_addresses@[i]@)
            &&& r.items("friends"@).len() == friends.len()
            &&& 0 <= i < friends.len() ==> r.items("friends"@)[i] == friend_entry(friends[i])
        }),
        ({
            let r = social_entry(None, friends);
            &&& r.get("enabled"@) == Some(JsonView::Bool(false))
            &&& r.get("node_id"@) == Some(JsonView::Null)
            &&& r.get("relay"@) == Some(JsonView::Null)
            &&& r.items("direct_addresses"@).len() == 0
            &&& r.items("friends"@).len() == friends.len()
            &&& 0 <= i < friends.len() ==> r.items("friends"@)[i] == friend_entry(friends[i])
        }),
{
    broadcast use reading_after_setting;

    reveal_strlit("enabled");
    reveal_strlit("node_id");
    reveal_strlit("relay");
    reveal_strlit("direct_addresses");
    reveal_strlit("friends");
    assert("enabled"@.len() == 7 && "node_id"@.len() == 7 && "relay"@.len() == 5);
    assert("direct_addresses"@.len() == 16 && "friends"@.len() == 7);
    assert("enabled"@[0] != "node_id"@[0]);
    assert("enabled"@[0] != "friends"@[0]);
    assert("node_id"@[0] != "friends"@[0]);
}

/// An invitation that was given out can be joined by its code.
pub proof fn invitations_can_be_joined(
    fields: Seq<(Seq<char>, Seq<char>)>,
    playlist_id: Seq<char>,
    role: Role,
    name: Seq<char>,
)
    ensures
        field_value(fields, "code"@) is None ==> join_request(fields) == Err::<
            (Seq<char>, Role, Seq<char>),
            JsonView,
        >(error_answer("Missing ?code= parameter"@)),
        field_value(fields, "code"@) matches Some(code) ==> {
            &&& invite_parts(code) is None ==> join_request(fields) == Err::<
                (Seq<char>, Role, Seq<char>),
                JsonView,
            >(error_answer("Invalid invite code"@))
            &&& invite_parts(code) == Some((playlist_id, role, name)) ==> join_request(fields)
                == Ok::<(Seq<char>, Role, Seq<char>), JsonView>((playlist_id, role, name))
        },
{
}

/// One invites to a playlist by its identifier or its plain name, in the role that
/// is asked for; who asks for none invites a collaborator.
pub proof fn invitations_name_playlist_and_role(
    fields: Seq<(Seq<char>, Seq<char>)>,
    uuid: Seq<char>,
    role: Role,
)
    requires
        field_value(fields, "role"@) == Some(role_name(role)) || (field_value(fields, "role"@) is None
            && role_name(role) == "collab"@),
    ensures
        field_value(fields, "id"@) == Some(collab_id(uuid)) ==> invite_request(fields) == Ok::<
            (Seq<char>, Role),
            JsonView,
        >((uuid, role)),
        field_value(fields, "id"@) == Some(uuid) && collab_uuid(uuid) is None ==> invite_request(
            fields,
        ) == Ok::<(Seq<char>, Role), JsonView>((uuid, role)),
        field_value(fields, "id"@) is None ==> invite_request(fields) == Err::<
            (Seq<char>, Role),
            JsonView,
        >(error_answer("Missing ?id= parameter"@)),
{
    collab_id_round_trip(uuid);
    role_round_trip(role);
}

/// A party plays or pauses if its state says so; else it has stopped.
pub proof fn states_are_read_by_name(name: Seq<char>)
    ensures
        named_state(Some("Playing"@)) == PartyPlaybackState::Playing,
        named_state(Some("Paused"@)) == PartyPlaybackState::Paused,
        name != "Playing"@ && name != "Paused"@ ==> named_state(Some(name))
            == PartyPlaybackState::Stopped,
        named_state(None) == PartyPlaybackState::Stopped,
{
    reveal_strlit("Playing");
    reveal_strlit("Paused");
    assert("Playing"@.len() == 7 && "Paused"@.len() == 6);
}

/// The track that a request describes has what the request says of it.
pub proof fn requests_describe_tracks(
    fields: Seq<(Seq<char>, Seq<char>)>,
    song_id: Seq<char>,
    duration_secs: Option<NumberView>,
    text: Seq<char>,
    n: u32,
)
    ensures
        ({
            let t = param_track(fields, song_id, duration_secs);
            &&& t.song_id == song_id
            &&& t.duration_secs == duration_secs
            &&& t.fingerprint == field_value(fields, "fingerprint"@)
            &&& field_value(fields, "title"@) == Some(text) ==> t.title == text
            &&& field_value(fields, "artist"@) == Some(text) ==> t.artist == text
            &&& field_value(fields, "album"@) == Some(text) ==> t.album == text
            &&& field_value(fields, "title"@) is None ==> t.title == ""@
            &&& field_value(fields, "artist"@) is None ==> t.artist == ""@
            &&& field_value(fields, "album"@) is None ==> t.album == ""@
            &&& field_value(fields, "track_number"@) == Some(decimal(n as nat)) ==> t.track_number
                == Some(n)
            &&& field_value(fields, "track_number"@) is None ==> t.track_number is None
        }),
{
    decimal_read_back(n as nat);
}

/// A party is shown with its session and its host.
pub proof fn parties_are_shown_with_their_hosts(p: ActivePartyView)
    ensures
        ({
            let r = party_entry(p);
            &&& r.get("session_id"@) == Some(JsonView::Text(p.session_id))
            &&& r.get("host_name"@) == Some(JsonView::Text(p.host_name))
            &&& r.get("host_node_id"@) == Some(JsonView::Text(p.host_node_id))
        }),
{
    broadcast use reading_after_setting;

    reveal_strlit("session_id");
    reveal_strlit("host_name");
    reveal_strlit("host_node_id");
    assert("session_id"@.len() == 10 && "host_name"@.len() == 9 && "host_node_id"@.len() == 12);
}

/// A member of a party is shown with node and name.
pub proof fn members_are_shown_with_their_names(m: PartyMemberView)
    ensures
        ({
            let r = member_entry(m);
            &&& r.get("node_id"@) == Some(JsonView::Text(m.node_id))
            &&& r.get("display_name"@) == Some(JsonView::Text(m.display_name))
        }),
{
    broadcast use reading_after_setting;

    reveal_strlit("node_id");
    reveal_strlit("display_name");
    assert("node_id"@.len() == 7 && "display_name"@.len() == 12);
}

/// The full state of a hosted party is all that followers need: where it
/// stands, what plays, and both lists.
#[verifier::rlimit(60)]
pub proof fn hosts_show_the_full_state(h: PartySessionView)
    ensures
        ({
            let r = full_state(Some(h));
            &&& r.get("found"@) == Some(JsonView::Bool(true))
            &&& r.get("seq"@) == Some(JsonView::Number(NumberView::PosInt(h.seq)))
            &&& r.get("state"@) == Some(state_json(h.state))
            &&& r.get("track"@) == Some(opt_track_json(h.track))
            &&& r.get("position_secs"@) == Some(JsonView::Number(h.position_secs))
            &&& r.get("dj_timestamp_ms"@) == Some(whole(h.dj_timestamp_ms as nat))
            &&& r.get("dj_endpoint_addr"@) == Some(text_or_null(h.dj_endpoint_addr))
            &&& r.get("playlist"@) == Some(tracks_json(h.playlist))
            &&& r.get("playlist_index"@) == Some(whole(h.playlist_index as nat))
            &&& r.get("queue"@) == Some(tracks_json(h.queue))
            &&& r.get("queue_index"@) == Some(whole(h.queue_index as nat))
            &&& r.get("playing_from_queue"@) == Some(JsonView::Bool(h.playing_from_queue))
            &&& full_state(None).get("found"@) == Some(JsonView::Bool(false))
        }),
{
    broadcast use reading_after_setting;

    reveal_strlit("found");
    reveal_strlit("seq");
    reveal_strlit("state");
    reveal_strlit("track");
    reveal_strlit("position_secs");
    reveal_strlit("dj_timestamp_ms");
    reveal_strlit("dj_endpoint_addr");
    reveal_strlit("playlist");
    reveal_strlit("playlist_index");
    reveal_strlit("queue");
    reveal_strlit("queue_index");
    reveal_strlit("playing_from_queue");
    assert("found"@.len() == 5 && "seq"@.len() == 3 && "state"@.len() == 5);
    assert("track"@.len() == 5 && "position_secs"@.len() == 13 && "dj_timestamp_ms"@.len() == 15);
    assert("dj_endpoint_addr"@.len() == 16 && "playlist"@.len() == 8);
    assert("playlist_index"@.len() == 14 && "queue"@.len() == 5 && "queue_index"@.len() == 11);
    assert("playing_from_queue"@.len() == 18);
    assert("found"@[0] != "state"@[0]);
    assert("found"@[0] != "track"@[0]);
    assert("found"@[0] != "queue"@[0]);
    assert("state"@[0] != "track"@[0]);
    assert("state"@[0] != "queue"@[0]);
    assert("track"@[0] != "queue"@[0]);
}

/// An extension is shown by name, in its first version.
pub proof fn extensions_are_shown_with_their_versions(name: Seq<char>)
    ensures
        ({
            let r = extension(name);
            &&& r.get("name"@) == Some(JsonView::Text(name))
            &&& r.get("versions"@) == Some(JsonView::Array(seq![JsonView::Number(NumberView::PosInt(1))]))
        }),
{
    broadcast use reading_after_setting;

    reveal_strlit("name");
    reveal_strlit("versions");
    assert("name"@.len() == 4 && "versions"@.len() == 8);
}

} // verus!
