use fugue::cli::{
    created_playlist_lines, friend_lines, invited_role, member_lines, pad, playlist_lines,
    status_lines, ticket_lines,
};
use fugue::config::{
    default_host, default_log_level, default_port, default_refresh_interval, setting_path,
    ServerConfig, SocialConfig,
};
use fugue::error::FugueError;
use fugue::json::{Json, Number};
use fugue::social::collab_playlist::{encode_collab_id, parse_invite, Role};
use fugue::social::friends::Friend;
use fugue::strs::{
    decimal_string, lower_ascii, parse_i64, parse_u32, parse_u64, parse_usize, replace,
    signed_decimal_string, split_once, str_less, strip_prefix, trim,
};
use fugue::xml::{escape_markup, xml_escape};

#[test]
fn trimming_takes_all_white_space() {
    assert_eq!(trim(" \t\u{a0}a b\u{2003}\n"), "a b");
    assert_eq!(trim("   "), "");
    assert_eq!(trim(""), "");
}

#[test]
fn only_ascii_letters_are_lowered() {
    assert_eq!(lower_ascii("AbZ-Ä1"), "abz-Ä1");
}

#[test]
fn replacing_goes_from_the_front() {
    assert_eq!(replace("aaa", "aa", "b"), "ba");
    assert_eq!(replace("abcabc", "bc", ""), "aa");
    assert_eq!(replace("xyz", "q", "r"), "xyz");
}

#[test]
fn numbers_are_read_as_rust_reads_them() {
    assert_eq!(parse_u64("+7"), Some(7));
    assert_eq!(parse_u64(""), None);
    assert_eq!(parse_u64("+"), None);
    assert_eq!(parse_u64("18446744073709551615"), Some(u64::MAX));
    assert_eq!(parse_u64("18446744073709551616"), None);
    assert_eq!(parse_u32("4294967296"), None);
    assert_eq!(parse_usize("12x"), None);
    assert_eq!(parse_i64("-9223372036854775808"), Some(i64::MIN));
    assert_eq!(parse_i64("-9223372036854775809"), None);
    assert_eq!(parse_i64("--1"), None);
    assert_eq!(parse_i64("-"), None);
}

#[test]
fn numbers_are_written_in_decimal() {
    assert_eq!(decimal_string(0), "0");
    assert_eq!(decimal_string(u128::MAX), u128::MAX.to_string());
    assert_eq!(signed_decimal_string(i64::MIN), i64::MIN.to_string());
}

#[test]
fn texts_compare_by_code_points() {
    assert!(str_less("a", "b"));
    assert!(str_less("a", "aa"));
    assert!(!str_less("b", "a"));
    assert!(!str_less("a", "a"));
    assert!(str_less("Z", "a"));
}

#[test]
fn splitting_takes_the_first_mark() {
    assert_eq!(split_once("a:b:c", ':'), Some(("a".to_string(), "b:c".to_string())));
    assert_eq!(split_once("abc", ':'), None);
    assert_eq!(strip_prefix("m:x", "m:"), Some("x".to_string()));
    assert_eq!(strip_prefix("x", "m:"), None);
}

#[test]
fn markup_is_escaped() {
    assert_eq!(escape_markup("<a href=\"x\">&'"), "&lt;a href=&quot;x&quot;&gt;&amp;'");
    assert_eq!(xml_escape("'&'"), "&apos;&amp;&apos;");
}

#[test]
fn each_error_has_its_code_and_message() {
    let cases = vec![
        (FugueError::Subsonic { code: 30, message: "m".into() }, 30, "m"),
        (FugueError::Internal("i".into()), 0, "i"),
        (FugueError::Backend("b".into()), 0, "Backend error: b"),
        (FugueError::AuthFailed, 40, "Wrong username or password"),
        (FugueError::NotFound("n".into()), 70, "n"),
        (FugueError::MissingParam("p".into()), 10, "Required parameter is missing: p"),
        (FugueError::Forbidden("f".into()), 50, "f"),
    ];
    for (e, code, message) in cases {
        assert_eq!(e.subsonic_code(), code);
        assert_eq!(e.subsonic_message(), message);
    }
    assert_eq!(FugueError::missing("id").subsonic_message(), "Missing required parameter: id");
}

#[test]
fn error_bodies_are_subsonic_xml() {
    let body = FugueError::NotFound("a<b".into()).response_body();
    assert_eq!(
        body,
        "<subsonic-response xmlns=\"http://subsonic.org/restapi\" status=\"failed\" version=\"1.16.1\" type=\"fugue\"><error code=\"70\" message=\"a&lt;b\"/></subsonic-response>"
    );
}

#[test]
fn environment_variables_name_settings() {
    assert_eq!(setting_path("SERVER_PORT"), Some("server.port".to_string()));
    assert_eq!(setting_path("AUTH_USERS"), Some("auth.users".to_string()));
    assert_eq!(setting_path("BACKENDS"), Some("backends".to_string()));
    assert_eq!(setting_path("PATH"), None);
}

fn server(host: &str, port: u16) -> ServerConfig {
    ServerConfig { host: host.to_string(), port, log_level: "info".to_string() }
}

#[test]
fn the_running_server_is_reached_locally() {
    assert_eq!(server("0.0.0.0", 4533).local_url("/admin/sync"), "http://127.0.0.1:4533/admin/sync");
    assert_eq!(server("10.0.0.1", 80).local_url("/x"), "http://10.0.0.1:80/x");
    assert_eq!(server("10.0.0.1", 80).listen_address(), "10.0.0.1:80");
}

#[test]
fn defaults_are_documented_values() {
    assert_eq!((default_host().as_str(), default_port()), ("0.0.0.0", 4533));
    assert_eq!(default_log_level(), "info");
    assert_eq!(default_refresh_interval(), 300);
    assert!(!SocialConfig::default().enabled);
}

#[test]
fn columns_are_padded() {
    assert_eq!(pad("ab", 4), "ab  ");
    assert_eq!(pad("abcd", 3), "abcd");
    assert_eq!(pad("äö", 3), "äö ");
}

fn friend(name: &str, key: &str, seen: Option<&str>) -> Friend {
    Friend {
        id: 1,
        name: name.to_string(),
        public_key: key.to_string(),
        ticket: "t".to_string(),
        added_at: "now".to_string(),
        last_seen: seen.map(|s| s.to_string()),
    }
}

#[test]
fn friends_are_listed_in_a_table() {
    assert_eq!(friend_lines(&vec![])[0], "No friends added yet.");
    let lines = friend_lines(&vec![friend("Bob", "key", None)]);
    assert_eq!(lines[0], format!("{:<20} {:<50} {}", "Name", "Node ID", "Last seen"));
    assert_eq!(lines[1], "-".repeat(85));
    assert_eq!(lines[2], format!("{:<20} {:<50} {}", "Bob", "key", "never"));
}

#[test]
fn tickets_come_with_the_command_to_use_them() {
    let lines = ticket_lines("TT", "NN", "Me");
    assert_eq!(lines.len(), 7);
    assert_eq!(lines[6], "  fugue friend add --name \"Me\" TT");
}

#[test]
fn new_playlists_come_with_invites() {
    let lines = created_playlist_lines("abc", "Mix");
    let code = lines[4].strip_prefix("  Collaborate: fugue playlist join ").unwrap();
    assert_eq!(
        parse_invite(code),
        Some(("abc".to_string(), Role::Collab, "Mix".to_string()))
    );
    assert_eq!(invited_role("collab"), Role::Collab);
    assert_eq!(invited_role("nonsense"), Role::Viewer);
}

#[test]
fn playlists_and_members_are_listed_in_tables() {
    let p = Json::object()
        .with_text("id", &encode_collab_id("u1"))
        .with_text("name", "Mix")
        .with("songCount", Json::integer(3));
    let lines = playlist_lines(&vec![p]);
    assert_eq!(lines[2], format!("{:<36} {:<30} {}", "u1", "Mix", 3));
    assert_eq!(playlist_lines(&vec![])[0], "No collaborative playlists.");
    let m = vec![("0123456789".to_string(), "Ann".to_string(), Role::Owner)];
    let lines = member_lines(&m, "0123456789");
    assert_eq!(lines[2], format!("{:<20} {:<10} {}...", "Ann (you)", "owner", "01234567"));
    let lines = member_lines(&m, "x");
    assert_eq!(lines[2], format!("{:<20} {:<10} {}...", "Ann", "owner", "01234567"));
    let m = vec![("äö234567".to_string(), "Ann".to_string(), Role::Owner)];
    let lines = member_lines(&m, "x");
    assert_eq!(lines[2], format!("{:<20} {:<10} {}...", "Ann", "owner", "äö2345"));
}

#[test]
fn the_status_is_printed_line_by_line() {
    let backend = Json::object()
        .with_text("name", "home")
        .with("available", Json::Bool(true))
        .with("latency_ms", Json::Number(Number::PosInt(12)));
    let down = Json::object().with_text("name", "cabin");
    let body = Json::object()
        .with("backends", Json::array(vec![backend, down]))
        .with("cache", Json::object().with("artists", Json::integer(2)))
        .with("social", Json::object().with("enabled", Json::Bool(true)).with("friends", Json::array(vec![])));
    let lines = status_lines(&body);
    assert_eq!(
        lines,
        vec![
            "Backends:".to_string(),
            format!("  {:<20} {}", "home", "ok  12ms"),
            format!("  {:<20} {}", "cabin", "DOWN"),
            "".to_string(),
            "Cache:".to_string(),
            "  2 artists, 0 albums, 0 tracks".to_string(),
            "".to_string(),
            "Social:".to_string(),
            "  Node ID:    ?".to_string(),
            "  Relay:      none".to_string(),
            "  Direct IPs: 0".to_string(),
            "".to_string(),
            "  Friends:".to_string(),
            "    (none)".to_string(),
        ]
    );
}
