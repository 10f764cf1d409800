//! What the command line prints.

use crate::json::{Json, JsonView, NumberView};
use crate::social::collab_playlist::{
    collab_id, collab_id_round_trip, collab_uuid, decode_collab_id, generate_invite, invite,
    role_name, role_named, Role,
};
use crate::social::friends::{Friend, FriendView};
use crate::strs::{
    chars_of, concat2, concat3, decimal, decimal_string, signed_decimal, signed_decimal_string,
    str_eq, substring, views,
};
use vstd::prelude::*;

verus! {

// ── Columns ─────────────────────────────────────────────────────

/// `n` times the character `c`.
pub open spec fn repeated(c: char, n: nat) -> Seq<char> {
    Seq::new(n, |i: int| c)
}

/// The text with spaces behind it, so that it fills a column.
pub open spec fn padded(s: Seq<char>, width: nat) -> Seq<char> {
    if s.len() < width {
        s + repeated(' ', (width - s.len()) as nat)
    } else {
        s
    }
}

/// Writes a character `n` times.
pub fn repeat(c: char, n: usize) -> (r: String)
    ensures
        r@ == repeated(c, n as nat),
{
    let mut out = String::new();
    let mut i: usize = 0;
    assert(out@ =~= repeated(c, 0));
    while i < n
        invariant
            i <= n,
            out@ == repeated(c, i as nat),
        decreases n - i,
    {
        out.push(c);
        assert(repeated(c, i as nat).push(c) =~= repeated(c, (i + 1) as nat));
        i += 1;
    }
    out
}

/// Puts spaces behind a text, so that it fills a column.
pub fn pad(s: &str, width: usize) -> (r: String)
    ensures
        r@ == padded(s@, width as nat),
{
    let n = chars_of(s).len();
    let mut out = s.to_owned();
    if n < width {
        out.append(repeat(' ', width - n).as_str());
    }
    out
}

/// A row of three columns.
pub open spec fn row(
    a: Seq<char>,
    width_a: nat,
    b: Seq<char>,
    width_b: nat,
    c: Seq<char>,
) -> Seq<char> {
    padded(a, width_a) + " "@ + padded(b, width_b) + " "@ + c
}

fn make_row(a: &str, width_a: usize, b: &str, width_b: usize, c: &str) -> (r: String)
    ensures
        r@ == row(a@, width_a as nat, b@, width_b as nat, c@),
{
    let mut out = concat3(pad(a, width_a).as_str(), " ", pad(b, width_b).as_str());
    out.append(" ");
    out.append(c);
    out
}

/// The lines of a table, or what is said instead if it is empty.
pub open spec fn table(
    header: Seq<char>,
    dashes: nat,
    rows: Seq<Seq<char>>,
    empty: Seq<Seq<char>>,
) -> Seq<Seq<char>> {
    if rows.len() == 0 {
        empty
    } else {
        seq![header, repeated('-', dashes)] + rows
    }
}

fn add_line(out: &mut Vec<String>, line: &str)
    ensures
        views(final(out)@) == views(old(out)@).push(line@),
{
    let ghost before = out@;
    let l = line.to_owned();
    out.push(l);
    assert(views(out@) =~= views(before).push(l@));
}

// ── Friends ─────────────────────────────────────────────────────

/// A line of the list of friends.
pub open spec fn friend_row(f: FriendView) -> Seq<char> {
    row(
        f.name,
        20,
        f.public_key,
        50,
        match f.last_seen {
            Some(t) => t,
            None => "never"@,
        },
    )
}

/// The list of friends.
pub fn friend_lines(friends: &Vec<Friend>) -> (r: Vec<String>)
    ensures
        views(r@) == table(
            row("Name"@, 20, "Node ID"@, 50, "Last seen"@),
            85,
            views(friends@).map_values(|f: FriendView| friend_row(f)),
            seq![
                "No friends added yet."@,
                "Add a friend: fugue friend add --name \"Name\" <ticket>"@,
            ],
        ),
{
    let ghost rows = views(friends@).map_values(|f: FriendView| friend_row(f));
    let mut out: Vec<String> = Vec::new();
    assert(views(out@) =~= seq![]);
    if friends.len() == 0 {
        add_line(&mut out, "No friends added yet.");
        add_line(&mut out, "Add a friend: fugue friend add --name \"Name\" <ticket>");
        assert(views(out@) =~= seq![
            "No friends added yet."@,
            "Add a friend: fugue friend add --name \"Name\" <ticket>"@,
        ]);
        return out;
    }
    let header = make_row("Name", 20, "Node ID", 50, "Last seen");
    add_line(&mut out, header.as_str());
    add_line(&mut out, repeat('-', 85).as_str());
    let ghost head = views(out@);
    let mut i: usize = 0;
    assert(head + rows.take(0) =~= head);
    while i < friends.len()
        invariant
            i <= friends@.len(),
            rows == views(friends@).map_values(|f: FriendView| friend_row(f)),
            views(out@) == head + rows.take(i as int),
        decreases friends@.len() - i,
    {
        let f = &friends[i];
        let seen = match &f.last_seen {
            Some(t) => t.as_str(),
            None => "never",
        };
        let line = make_row(f.name.as_str(), 20, f.public_key.as_str(), 50, seen);
        add_line(&mut out, line.as_str());
        assert(rows[i as int] == line@);
        assert((head + rows.take(i as int)).push(line@) =~= head + rows.take(i + 1));
        i += 1;
    }
    assert(rows.take(i as int) =~= rows);
    assert(head =~= seq![row("Name"@, 20, "Node ID"@, 50, "Last seen"@), repeated('-', 85)]);
    out
}

/// What is said to one who asked for the ticket of this node.
pub fn ticket_lines(ticket: &str, node_id: &str, display_name: &str) -> (r: Vec<String>)
    ensures
        views(r@) == seq![
            "Your Fugue ticket:"@,
            "  "@ + ticket@,
            ""@,
            "Node ID: "@ + node_id@,
            ""@,
            "Share the ticket with friends:"@,
            "  fugue friend add --name \""@ + display_name@ + "\" "@ + ticket@,
        ],
{
    let mut out: Vec<String> = Vec::new();
    assert(views(out@) =~= seq![]);
    add_line(&mut out, "Your Fugue ticket:");
    add_line(&mut out, concat2("  ", ticket).as_str());
    add_line(&mut out, "");
    add_line(&mut out, concat2("Node ID: ", node_id).as_str());
    add_line(&mut out, "");
    add_line(&mut out, "Share the ticket with friends:");
    let mut last = concat3("  fugue friend add --name \"", display_name, "\" ");
    last.append(ticket);
    add_line(&mut out, last.as_str());
    assert(views(out@) =~= seq![
        "Your Fugue ticket:"@,
        "  "@ + ticket@,
        ""@,
        "Node ID: "@ + node_id@,
        ""@,
        "Share the ticket with friends:"@,
        "  fugue friend add --name \""@ + display_name@ + "\" "@ + ticket@,
    ]);
    out
}

// ── Collaborative playlists ─────────────────────────────────────

/// What is said to one who created a playlist: its identifier, and invites to
/// work on it and to view it.
pub fn created_playlist_lines(playlist_id: &str, name: &str) -> (r: Vec<String>)
    ensures
        views(r@) == seq![
            "Created collaborative playlist: "@ + name@,
            "Playlist ID: "@ + playlist_id@,
            ""@,
            "Share these invite codes with friends:"@,
            "  Collaborate: fugue playlist join "@ + invite(playlist_id@, Role::Collab, name@),
            "  View only:   fugue playlist join "@ + invite(playlist_id@, Role::Viewer, name@),
        ],
{
    let mut out: Vec<String> = Vec::new();
    assert(views(out@) =~= seq![]);
    add_line(&mut out, concat2("Created collaborative playlist: ", name).as_str());
    add_line(&mut out, concat2("Playlist ID: ", playlist_id).as_str());
    add_line(&mut out, "");
    add_line(&mut out, "Share these invite codes with friends:");
    let collab = generate_invite(playlist_id, Role::Collab, name);
    let viewer = generate_invite(playlist_id, Role::Viewer, name);
    add_line(&mut out, concat2("  Collaborate: fugue playlist join ", collab.as_str()).as_str());
    add_line(&mut out, concat2("  View only:   fugue playlist join ", viewer.as_str()).as_str());
    assert(views(out@) =~= seq![
        "Created collaborative playlist: "@ + name@,
        "Playlist ID: "@ + playlist_id@,
        ""@,
        "Share these invite codes with friends:"@,
        "  Collaborate: fugue playlist join "@ + invite(playlist_id@, Role::Collab, name@),
        "  View only:   fugue playlist join "@ + invite(playlist_id@, Role::Viewer, name@),
    ]);
    out
}

/// The role that an invite is for: to view, if the role has no meaning.
pub fn invited_role(role: &str) -> (r: Role)
    ensures
        r == match role_named(role@) {
            Some(x) => x,
            None => Role::Viewer,
        },
{
    match Role::from_str(role) {
        Some(x) => x,
        None => Role::Viewer,
    }
}

/// A line of the list of playlists.
pub open spec fn playlist_row(p: JsonView) -> Seq<char> {
    let encoded = p.text_or("id"@, "?"@);
    row(
        match collab_uuid(encoded) {
            Some(uuid) => uuid,
            None => encoded,
        },
        36,
        p.text_or("name"@, "?"@),
        30,
        signed_decimal(
            match p.get_signed("songCount"@) {
                Some(n) => n as int,
                None => 0,
            },
        ),
    )
}

/// The list of collaborative playlists.
pub fn playlist_lines(playlists: &Vec<Json>) -> (r: Vec<String>)
    ensures
        views(r@) == table(
            row("ID"@, 36, "Name"@, 30, "Tracks"@),
            75,
            views(playlists@).map_values(|p: JsonView| playlist_row(p)),
            seq![
                "No collaborative playlists."@,
                "Create one: fugue playlist create \"My Playlist\""@,
            ],
        ),
{
    let ghost rows = views(playlists@).map_values(|p: JsonView| playlist_row(p));
    let mut out: Vec<String> = Vec::new();
    assert(views(out@) =~= seq![]);
    if playlists.len() == 0 {
        add_line(&mut out, "No collaborative playlists.");
        add_line(&mut out, "Create one: fugue playlist create \"My Playlist\"");
        assert(views(out@) =~= seq![
            "No collaborative playlists."@,
            "Create one: fugue playlist create \"My Playlist\""@,
        ]);
        return out;
    }
    let header = make_row("ID", 36, "Name", 30, "Tracks");
    add_line(&mut out, header.as_str());
    add_line(&mut out, repeat('-', 75).as_str());
    let ghost head = views(out@);
    let mut i: usize = 0;
    assert(head + rows.take(0) =~= head);
    while i < playlists.len()
        invariant
            i <= playlists@.len(),
            rows == views(playlists@).map_values(|p: JsonView| playlist_row(p)),
            views(out@) == head + rows.take(i as int),
        decreases playlists@.len() - i,
    {
        let p = &playlists[i];
        let encoded = p.str_or("id", "?").to_owned();
        let uuid = match decode_collab_id(encoded.as_str()) {
            Some(u) => u,
            None => encoded,
        };
        let tracks: i64 = match p.get_i64("songCount") {
            Some(n) => n,
            None => 0,
        };
        let line = make_row(
            uuid.as_str(),
            36,
            p.str_or("name", "?"),
            30,
            signed_decimal_string(tracks).as_str(),
        );
        add_line(&mut out, line.as_str());
        assert(rows[i as int] == line@);
        assert((head + rows.take(i as int)).push(line@) =~= head + rows.take(i + 1));
        i += 1;
    }
    assert(rows.take(i as int) =~= rows);
    assert(head =~= seq![row("ID"@, 36, "Name"@, 30, "Tracks"@), repeated('-', 75)]);
    out
}

/// How many bytes a character takes in UTF-8.
pub open spec fn utf8_width(c: char) -> nat {
    if c <= '\u{7f}' {
        1
    } else if c <= '\u{7ff}' {
        2
    } else if c <= '\u{ffff}' {
        3
    } else {
        4
    }
}

/// How many characters, from the first on, fit into `room` bytes.
pub open spec fn fitting(s: Seq<char>, room: int) -> nat
    decreases s.len(),
{
    if s.len() == 0 || utf8_width(s[0]) > room {
        0
    } else {
        1 + fitting(s.skip(1), room - utf8_width(s[0]))
    }
}

/// The beginning of a node's identifier: the characters that its first eight
/// bytes hold whole.
pub open spec fn short_id(id: Seq<char>) -> Seq<char> {
    id.take(fitting(id, 8) as int)
}

fn char_width(c: char) -> (r: usize)
    ensures
        r == utf8_width(c),
{
    if c <= '\u{7f}' {
        1
    } else if c <= '\u{7ff}' {
        2
    } else if c <= '\u{ffff}' {
        3
    } else {
        4
    }
}

fn shorten(id: &str) -> (r: String)
    ensures
        r@ == short_id(id@),
{
    let chars = chars_of(id);
    let ghost s = chars@;
    let mut n: usize = 0;
    let mut room: usize = 8;
    assert(s.skip(0) =~= s);
    while n < chars.len() && char_width(chars[n]) <= room
        invariant
            n <= chars@.len(),
            s == chars@,
            fitting(s, 8) == n + fitting(s.skip(n as int), room as int),
        decreases chars@.len() - n,
    {
        assert(s.skip(n as int)[0] == s[n as int]);
        assert(s.skip(n as int).skip(1) =~= s.skip(n + 1));
        room = room - char_width(chars[n]);
        n += 1;
    }
    proof {
        if n < s.len() {
            assert(s.skip(n as int)[0] == s[n as int]);
        }
    }
    let short = substring(&chars, 0, n);
    assert(short@ =~= short_id(id@));
    short
}

/// A line of the list of members.
pub open spec fn member_row(m: (Seq<char>, Seq<char>, Role), node_id: Seq<char>) -> Seq<char> {
    row(
        if m.0 == node_id {
            m.1 + " (you)"@
        } else {
            m.1
        },
        20,
        role_name(m.2),
        10,
        short_id(m.0) + "..."@,
    )
}

/// The list of members of a playlist. `node_id` is this node.
pub fn member_lines(members: &Vec<(String, String, Role)>, node_id: &str) -> (r: Vec<String>)
    ensures
        views(r@) == table(
            row("Name"@, 20, "Role"@, 10, "Node ID (short)"@),
            55,
            crate::social::collab_state::member_views(members@).map_values(
                |m: (Seq<char>, Seq<char>, Role)| member_row(m, node_id@),
            ),
            seq!["No members (or playlist not found)."@],
        ),
{
    let ghost ms = crate::social::collab_state::member_views(members@);
    let ghost rows = ms.map_values(|m: (Seq<char>, Seq<char>, Role)| member_row(m, node_id@));
    let mut out: Vec<String> = Vec::new();
    assert(views(out@) =~= seq![]);
    if members.len() == 0 {
        add_line(&mut out, "No members (or playlist not found).");
        assert(views(out@) =~= seq!["No members (or playlist not found)."@]);
        return out;
    }
    let header = make_row("Name", 20, "Role", 10, "Node ID (short)");
    add_line(&mut out, header.as_str());
    add_line(&mut out, repeat('-', 55).as_str());
    let ghost head = views(out@);
    let mut i: usize = 0;
    assert(head + rows.take(0) =~= head);
    while i < members.len()
        invariant
            i <= members@.len(),
            ms == crate::social::collab_state::member_views(members@),
            rows == ms.map_values(
                |m: (Seq<char>, Seq<char>, Role)| member_row(m, node_id@),
            ),
            views(out@) == head + rows.take(i as int),
        decreases members@.len() - i,
    {
        let m = &members[i];
        let mut short = shorten(m.0.as_str());
        short.append("...");
        let label = if str_eq(m.0.as_str(), node_id) {
            concat2(m.1.as_str(), " (you)")
        } else {
            m.1.clone()
        };
        let line = make_row(label.as_str(), 20, m.2.as_str(), 10, short.as_str());
        add_line(&mut out, line.as_str());
        assert(ms[i as int] == (m.0@, m.1@, m.2));
        assert(rows[i as int] == line@);
        assert((head + rows.take(i as int)).push(line@) =~= head + rows.take(i + 1));
        i += 1;
    }
    assert(rows.take(i as int) =~= rows);
    assert(head =~= seq![row("Name"@, 20, "Role"@, 10, "Node ID (short)"@), repeated('-', 55)]);
    out
}

// ── Status ──────────────────────────────────────────────────────

/// A backend's line of the status.
pub open spec fn backend_line(b: JsonView) -> Seq<char> {
    let latency = match b.get("latency_ms"@) {
        Some(l) => match l.natural() {
            Some(n) => n as nat,
            None => 0,
        },
        None => 0,
    };
    "  "@ + padded(b.text_or("name"@, "?"@), 20) + " "@ + if b.is_set("available"@) {
        "ok  "@ + decimal(latency) + "ms"@
    } else {
        "DOWN"@
    }
}

/// The number under a name, zero if there is none.
pub open spec fn count_of(j: JsonView, key: Seq<char>) -> int {
    match j.get_signed(key) {
        Some(n) => n as int,
        None => 0,
    }
}

/// What the status says of the cache.
pub open spec fn cache_lines(body: JsonView) -> Seq<Seq<char>> {
    match body.get("cache"@) {
        Some(c) => seq![
            "  "@ + signed_decimal(count_of(c, "artists"@)) + " artists, "@ + signed_decimal(
                count_of(c, "albums"@),
            ) + " albums, "@ + signed_decimal(count_of(c, "tracks"@)) + " tracks"@,
        ],
        None => seq![],
    }
}

/// A friend's line of the status.
pub open spec fn friend_line(f: JsonView) -> Seq<char> {
    "    "@ + padded(f.text_or("name"@, "?"@), 20) + " last seen: "@ + f.text_or(
        "last_seen"@,
        "never"@,
    )
}

/// What the status says of friends.
pub open spec fn friends_part(social: JsonView) -> Seq<Seq<char>> {
    match social.get("friends"@) {
        Some(JsonView::Array(a)) => seq![""@, "  Friends:"@] + (if a.len() == 0 {
            seq!["    (none)"@]
        } else {
            seq![]
        }) + a.map_values(|f: JsonView| friend_line(f)),
        _ => seq![],
    }
}

/// What the status says of sharing with friends.
pub open spec fn social_lines(body: JsonView) -> Seq<Seq<char>> {
    match body.get("social"@) {
        Some(s) => if s.is_set("enabled"@) {
            seq![
                "  Node ID:    "@ + s.text_or("node_id"@, "?"@),
                "  Relay:      "@ + s.text_or("relay"@, "none"@),
                "  Direct IPs: "@ + decimal(s.items("direct_addresses"@).len()),
            ] + friends_part(s)
        } else {
            seq!["  disabled"@]
        },
        None => seq![],
    }
}

/// The status of the running server, in lines.
pub open spec fn status_text(body: JsonView) -> Seq<Seq<char>> {
    seq!["Backends:"@] + body.items("backends"@).map_values(|b: JsonView| backend_line(b)) + seq![
        ""@,
        "Cache:"@,
    ] + cache_lines(body) + seq![""@, "Social:"@] + social_lines(body)
}

fn make_backend_line(b: &Json) -> (r: String)
    ensures
        r@ == backend_line(b@),
{
    let latency: u64 = match b.get("latency_ms") {
        Some(l) => match l.as_u64() {
            Some(n) => n,
            None => 0,
        },
        None => 0,
    };
    let state = if b.is_true("available") {
        concat3("ok  ", decimal_string(latency as u128).as_str(), "ms")
    } else {
        "DOWN".to_owned()
    };
    let mut out = concat3("  ", pad(b.str_or("name", "?"), 20).as_str(), " ");
    out.append(state.as_str());
    out
}

fn make_friend_line(f: &Json) -> (r: String)
    ensures
        r@ == friend_line(f@),
{
    let mut out = concat3("    ", pad(f.str_or("name", "?"), 20).as_str(), " last seen: ");
    out.append(f.str_or("last_seen", "never"));
    out
}

fn get_count(j: &Json, key: &str) -> (r: String)
    ensures
        r@ == signed_decimal(count_of(j@, key@)),
{
    match j.get_i64(key) {
        Some(n) => signed_decimal_string(n),
        None => signed_decimal_string(0),
    }
}

fn add_social(out: &mut Vec<String>, body: &Json)
    ensures
        views(final(out)@) == views(old(out)@) + social_lines(body@),
{
    let ghost start = views(out@);
    assert(start + seq![] =~= start);
    match body.get("social") {
        None => {},
        Some(s) => {
            if !s.is_true("enabled") {
                add_line(out, "  disabled");
                assert(views(out@) =~= start + seq!["  disabled"@]);
            } else {
                add_line(out, concat2("  Node ID:    ", s.str_or("node_id", "?")).as_str());
                add_line(out, concat2("  Relay:      ", s.str_or("relay", "none")).as_str());
                let mut addresses: Vec<Json> = Vec::new();
                assert(views(addresses@) =~= seq![]);
                s.append_to("direct_addresses", &mut addresses);
                assert(Seq::<JsonView>::empty() + s@.items("direct_addresses"@) =~= s@.items(
                    "direct_addresses"@,
                ));
                assert(views(addresses@).len() == addresses@.len());
                let n = addresses.len();
                add_line(
                    out,
                    concat2("  Direct IPs: ", decimal_string(n as u128).as_str()).as_str(),
                );
                let ghost head = seq![
                    "  Node ID:    "@ + s@.text_or("node_id"@, "?"@),
                    "  Relay:      "@ + s@.text_or("relay"@, "none"@),
                    "  Direct IPs: "@ + decimal(s@.items("direct_addresses"@).len()),
                ];
                assert(views(out@) =~= start + head);
                add_friends(out, s);
                assert(start + head + friends_part(s@) =~= start + (head + friends_part(s@)));
            }
        },
    }
}

fn add_friends(out: &mut Vec<String>, social: &Json)
    ensures
        views(final(out)@) == views(old(out)@) + friends_part(social@),
{
    let ghost start = views(out@);
    assert(start + seq![] =~= start);
    match social.get("friends") {
        None => {},
        Some(list) => match list.as_array() {
            None => {},
            Some(friends) => {
                add_line(out, "");
                add_line(out, "  Friends:");
                if friends.len() == 0 {
                    add_line(out, "    (none)");
                }
                let ghost head = views(out@);
                let ghost none = if friends@.len() == 0 {
                    seq!["    (none)"@]
                } else {
                    seq![]
                };
                let ghost rows = views(friends@).map_values(|f: JsonView| friend_line(f));
                assert(head =~= start + seq![""@, "  Friends:"@] + none);
                let mut i: usize = 0;
                assert(head + rows.take(0) =~= head);
                while i < friends.len()
                    invariant
                        i <= friends@.len(),
                        rows == views(friends@).map_values(|f: JsonView| friend_line(f)),
                        views(out@) == head + rows.take(i as int),
                    decreases friends@.len() - i,
                {
                    let line = make_friend_line(&friends[i]);
                    add_line(out, line.as_str());
                    assert(rows[i as int] == line@);
                    assert((head + rows.take(i as int)).push(line@) =~= head + rows.take(i + 1));
                    i += 1;
                }
                assert(rows.take(i as int) =~= rows);
                assert(views(friends@).len() == friends@.len());
                assert(head + rows =~= start + (seq![""@, "  Friends:"@] + none + rows));
            },
        },
    }
}

/// The status of the running server.
pub fn status_lines(body: &Json) -> (r: Vec<String>)
    ensures
        views(r@) == status_text(body@),
{
    let mut out: Vec<String> = Vec::new();
    assert(views(out@) =~= seq![]);
    add_line(&mut out, "Backends:");
    assert(views(out@) =~= seq!["Backends:"@]);
    let mut backends: Vec<Json> = Vec::new();
    assert(views(backends@) =~= seq![]);
    body.append_to("backends", &mut backends);
    assert(Seq::<JsonView>::empty() + body@.items("backends"@) =~= body@.items("backends"@));
    let ghost rows = views(backends@).map_values(|b: JsonView| backend_line(b));
    let ghost head = views(out@);
    let mut i: usize = 0;
    assert(head + rows.take(0) =~= head);
    while i < backends.len()
        invariant
            i <= backends@.len(),
            rows == views(backends@).map_values(|b: JsonView| backend_line(b)),
            views(out@) == head + rows.take(i as int),
        decreases backends@.len() - i,
    {
        let line = make_backend_line(&backends[i]);
        add_line(&mut out, line.as_str());
        assert(rows[i as int] == line@);
        assert((head + rows.take(i as int)).push(line@) =~= head + rows.take(i + 1));
        i += 1;
    }
    assert(rows.take(i as int) =~= rows);
    let ghost part1 = head + rows;
    add_line(&mut out, "");
    add_line(&mut out, "Cache:");
    let ghost part2 = part1 + seq![""@, "Cache:"@];
    assert(views(out@) =~= part2);
    match body.get("cache") {
        Some(c) => {
            let mut line = concat3("  ", get_count(c, "artists").as_str(), " artists, ");
            line.append(get_count(c, "albums").as_str());
            line.append(" albums, ");
            line.append(get_count(c, "tracks").as_str());
            line.append(" tracks");
            add_line(&mut out, line.as_str());
            assert(views(out@) =~= part2 + cache_lines(body@));
        },
        None => {
            assert(part2 + seq![] =~= part2);
        },
    }
    let ghost part3 = part2 + cache_lines(body@);
    add_line(&mut out, "");
    add_line(&mut out, "Social:");
    assert(views(out@) =~= part3 + seq![""@, "Social:"@]);
    add_social(&mut out, body);
    out
}

// ── Laws of what the command line shows ─────────────────────────

/// A cell is filled up with spaces to its width; one that is too wide stays whole.
pub proof fn cells_are_filled_with_spaces(s: Seq<char>, width: nat, i: int)
    ensures
        s.is_prefix_of(padded(s, width)),
        s.len() <= width ==> padded(s, width).len() == width,
        s.len() > width ==> padded(s, width) == s,
        s.len() <= i < width ==> padded(s, width)[i] == ' ',
{
    assert(s =~= padded(s, width).subrange(0, s.len() as int));
}

/// A table is its header, a line of dashes and its rows; one without rows is
/// replaced.
pub proof fn tables_have_header_dashes_and_rows(
    header: Seq<char>,
    dashes: nat,
    rows: Seq<Seq<char>>,
    empty: Seq<Seq<char>>,
    i: int,
)
    ensures
        rows.len() == 0 ==> table(header, dashes, rows, empty) == empty,
        rows.len() > 0 ==> ({
            let t = table(header, dashes, rows, empty);
            &&& t.len() == rows.len() + 2
            &&& t[0] == header
            &&& t[1].len() == dashes && (0 <= i < dashes ==> t[1][i] == '-')
            &&& 0 <= i < rows.len() ==> t[i + 2] == rows[i]
        }),
{
}

/// A friend's row shows name, node and when the friend was last seen; a playlist's
/// its identifier, name and number of songs; a member's the name, the role and the
/// beginning of the node, marked if it is this one.
pub proof fn rows_show_who_and_what(
    f: FriendView,
    uuid: Seq<char>,
    p: JsonView,
    name: Seq<char>,
    n: u64,
    m: (Seq<char>, Seq<char>, Role),
    node_id: Seq<char>,
)
    ensures
        f.last_seen is None ==> friend_row(f) == padded(f.name, 20) + " "@ + padded(
            f.public_key,
            50,
        ) + " "@ + "never"@,
        f.last_seen matches Some(t) ==> friend_row(f) == padded(f.name, 20) + " "@ + padded(
            f.public_key,
            50,
        ) + " "@ + t,
        p.get("id"@) == Some(JsonView::Text(collab_id(uuid))) && p.get("name"@) == Some(
            JsonView::Text(name),
        ) && p.get("songCount"@) == Some(JsonView::Number(NumberView::PosInt(n))) && n <= i64::MAX
            ==> playlist_row(p) == padded(uuid, 36) + " "@ + padded(name, 30) + " "@ + decimal(
            n as nat,
        ),
        m.0 == node_id ==> member_row(m, node_id) == padded(m.1 + " (you)"@, 20) + " "@ + padded(
            role_name(m.2),
            10,
        ) + " "@ + (short_id(m.0) + "..."@),
        m.0 != node_id ==> member_row(m, node_id) == padded(m.1, 20) + " "@ + padded(
            role_name(m.2),
            10,
        ) + " "@ + (short_id(m.0) + "..."@),
{
    collab_id_round_trip(uuid);
}

/// A character takes one to four bytes.
pub proof fn characters_take_up_to_four_bytes(c: char)
    ensures
        (c as u32) < 0x80 ==> utf8_width(c) == 1,
        0x80 <= (c as u32) < 0x800 ==> utf8_width(c) == 2,
        0x800 <= (c as u32) < 0x10000 ==> utf8_width(c) == 3,
        0x10000 <= (c as u32) ==> utf8_width(c) == 4,
{
}

/// The bytes that a text takes.
pub open spec fn text_width(s: Seq<char>) -> nat
    decreases s.len(),
{
    if s.len() == 0 {
        0
    } else {
        utf8_width(s[0]) + text_width(s.skip(1))
    }
}

proof fn lemma_fitting(s: Seq<char>, room: int)
    requires
        room >= 0,
    ensures
        fitting(s, room) <= s.len(),
        text_width(s.take(fitting(s, room) as int)) <= room,
        fitting(s, room) < s.len() ==> text_width(s.take(fitting(s, room) as int + 1)) > room,
    decreases s.len(),
{
    let n = fitting(s, room) as int;
    if s.len() == 0 || utf8_width(s[0]) > room {
        assert(s.take(0) =~= seq![]);
        if s.len() > 0 {
            let one = s.take(1);
            assert(one[0] == s[0]);
            assert(one.skip(1) =~= seq![]);
        }
    } else {
        let t = s.skip(1);
        lemma_fitting(t, room - utf8_width(s[0]));
        assert(s.take(n)[0] == s[0]);
        assert(s.take(n).skip(1) =~= t.take(n - 1));
        if n < s.len() {
            assert(s.take(n + 1)[0] == s[0]);
            assert(s.take(n + 1).skip(1) =~= t.take(n));
        }
    }
}

/// A node is shown by as much of the beginning of its identifier as fits into
/// eight bytes.
pub proof fn short_ids_fit_eight_bytes(id: Seq<char>)
    ensures
        short_id(id).is_prefix_of(id),
        text_width(short_id(id)) <= 8,
        short_id(id).len() < id.len() ==> text_width(id.take(short_id(id).len() as int + 1)) > 8,
{
    lemma_fitting(id, 8);
    let n = fitting(id, 8) as int;
    assert(id.take(n) =~= id.subrange(0, n));
}

/// A backend's line shows its name and, if it is there, how fast it answers.
pub proof fn backend_lines_show_health(b: JsonView, name: Seq<char>, n: u64)
    requires
        b.get("name"@) == Some(JsonView::Text(name)),
    ensures
        b.get("available"@) == Some(JsonView::Bool(true)) && b.get("latency_ms"@) == Some(
            JsonView::Number(NumberView::PosInt(n)),
        ) ==> backend_line(b) == "  "@ + padded(name, 20) + " "@ + ("ok  "@ + decimal(n as nat)
            + "ms"@),
        b.get("available"@) == Some(JsonView::Bool(false)) || b.get("available"@) is None
            ==> backend_line(b) == "  "@ + padded(name, 20) + " "@ + "DOWN"@,
{
}

/// The status shows every backend, the counts of the cache, and the social part.
pub proof fn status_shows_everything(
    body: JsonView,
    cache: JsonView,
    artists: u64,
    albums: u64,
    tracks: u64,
    social: JsonView,
    friends: Seq<JsonView>,
)
    ensures
        status_text(body) == seq!["Backends:"@] + body.items("backends"@).map_values(
            |b: JsonView| backend_line(b),
        ) + seq![""@, "Cache:"@] + cache_lines(body) + seq![""@, "Social:"@] + social_lines(body),
        body.get("cache"@) == Some(cache) && cache.get("artists"@) == Some(
            JsonView::Number(NumberView::PosInt(artists)),
        ) && cache.get("albums"@) == Some(JsonView::Number(NumberView::PosInt(albums)))
            && cache.get("tracks"@) == Some(JsonView::Number(NumberView::PosInt(tracks))) && artists
            <= i64::MAX && albums <= i64::MAX && tracks <= i64::MAX ==> cache_lines(body) == seq![
            "  "@ + decimal(artists as nat) + " artists, "@ + decimal(albums as nat) + " albums, "@
                + decimal(tracks as nat) + " tracks"@,
        ],
        body.get("social"@) == Some(social) && social.get("enabled"@) == Some(
            JsonView::Bool(true),
        ) ==> social_lines(body) == seq![
            "  Node ID:    "@ + social.text_or("node_id"@, "?"@),
            "  Relay:      "@ + social.text_or("relay"@, "none"@),
            "  Direct IPs: "@ + decimal(social.items("direct_addresses"@).len()),
        ] + friends_part(social),
        body.get("social"@) == Some(social) && social.get("enabled"@) == Some(
            JsonView::Bool(false),
        ) ==> social_lines(body) == seq!["  disabled"@],
        social.get("friends"@) == Some(JsonView::Array(friends)) ==> friends_part(social) == seq![
            ""@,
            "  Friends:"@,
        ] + (if friends.len() == 0 {
            seq!["    (none)"@]
        } else {
            friends.map_values(
                |f: JsonView|
                    "    "@ + padded(f.text_or("name"@, "?"@), 20) + " last seen: "@ + f.text_or(
                        "last_seen"@,
                        "never"@,
                    ),
            )
        }),
{
    if friends.len() == 0 {
        assert(friends.map_values(|f: JsonView| friend_line(f)) =~= seq![]);
    } else {
        assert(friends.map_values(|f: JsonView| friend_line(f)) =~= friends.map_values(
            |f: JsonView|
                "    "@ + padded(f.text_or("name"@, "?"@), 20) + " last seen: "@ + f.text_or(
                    "last_seen"@,
                    "never"@,
                ),
        ));
    }
}

} // verus!
