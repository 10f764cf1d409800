use fugue::json::{Json, Number};
use fugue::subsonic::params::{Params, ResponseFormat, SubsonicParams};
use fugue::subsonic::params::{
    is_form_content, merge_fields, merge_post_form_params, query_params,
};
use fugue::subsonic::response::{build_json_response, build_xml_response, jsonp_body, Rendered, SubsonicResponse};
use fugue::subsonic::system::{
    admin_activity, admin_playlist_invite, admin_playlist_join, admin_status, admin_ticket,
    get_license, get_open_subsonic_extensions, get_scan_status, get_user, invite_answer,
    joined_playlist, ping, NodeStatus,
};
use fugue::social::collab_playlist::{decode_collab_id, encode_collab_id, generate_invite, Role};
use fugue::social::friends::Friend;

fn params(list: &[(&str, &str)]) -> Params {
    Params {
        fields: list.iter().map(|(k, v)| (k.to_string(), v.to_string())).collect(),
    }
}

#[test]
fn empty_xml_answer() {
    assert_eq!(
        build_xml_response(&Json::object()),
        "<?xml version=\"1.0\" encoding=\"UTF-8\"?>\n<subsonic-response xmlns=\"http://subsonic.org/restapi\" status=\"ok\" version=\"1.16.1\" type=\"fugue\" serverVersion=\"0.1.0\" openSubsonic=\"true\"></subsonic-response>"
    );
}

#[test]
fn xml_has_attributes_and_children() {
    let song = Json::object().with_text("title", "A & B").with("year", Json::integer(1999));
    let body = Json::object().with("list", Json::object().with("n", Json::integer(1)).with("song", Json::array(vec![song])));
    let xml = build_xml_response(&body);
    assert!(
        xml.contains("\n  <list n=\"1\">\n    <song title=\"A &amp; B\" year=\"1999\"/>\n  </list>"),
        "{}",
        xml
    );
}

#[test]
fn json_answers_are_wrapped() {
    let j = build_json_response(&Json::object().with_text("x", "y"));
    let r = j.get("subsonic-response").unwrap();
    assert_eq!(r.str_or("status", ""), "ok");
    assert_eq!(r.str_or("version", ""), "1.16.1");
    assert_eq!(r.str_or("x", ""), "y");
}

#[test]
fn formats_follow_the_request() {
    let f = |list: &[(&str, &str)]| ResponseFormat::from_params(&params(list));
    assert!(matches!(f(&[]), ResponseFormat::Xml));
    assert!(matches!(f(&[("f", "json")]), ResponseFormat::Json));
    assert!(matches!(f(&[("f", "jsonp"), ("callback", "cb")]), ResponseFormat::Jsonp(ref c) if c == "cb"));
    assert!(matches!(SubsonicResponse::empty(ResponseFormat::Json).render(), Rendered::Json(_)));
    assert!(matches!(SubsonicResponse::ok(ResponseFormat::Xml, Json::object()).render(), Rendered::Xml(_)));
    assert_eq!(jsonp_body("cb", "{}"), "cb({})");
}

#[test]
fn the_last_value_of_a_parameter_counts() {
    let p = params(&[("u", "a"), ("u", "b"), ("c", "naviamp")]);
    assert_eq!(p.get("u").unwrap(), "b");
    let s = SubsonicParams::from_fields(p);
    assert_eq!((s.username.as_str(), s.client.as_str()), ("b", "naviamp"));
}

#[test]
fn queries_override_forms() {
    let form = vec![("a".to_string(), "1".to_string()), ("b".to_string(), "2".to_string())];
    let query = vec![("b".to_string(), "3".to_string())];
    let merged = Params { fields: merge_fields(&form, &query) };
    assert_eq!(merged.get("a").unwrap(), "1");
    assert_eq!(merged.get("b").unwrap(), "3");
}

#[test]
fn queries_are_read() {
    let p = query_params("u=a%20b&c=x+y&u=z%26");
    assert_eq!(p.get("u").unwrap(), "z&");
    assert_eq!(p.get("c").unwrap(), "x y");
    assert_eq!(p.fields.len(), 2);
    assert!(query_params("").fields.is_empty());
}

#[test]
fn form_bodies_go_to_the_query() {
    let uri = merge_post_form_params("/rest/ping", "c=x%20y", b"name=a+b%26c");
    let (path, query) = uri.split_once('?').unwrap();
    assert_eq!(path, "/rest/ping");
    let mut fields: Vec<&str> = query.split('&').collect();
    fields.sort();
    assert_eq!(fields, vec!["c=x+y", "name=a+b%26c"]);
    assert!(is_form_content("application/x-www-form-urlencoded; charset=utf-8"));
    assert!(!is_form_content("application/json"));
}

#[test]
fn ping_tells_the_ticket_to_one_client() {
    let j = ping("naviamp", Some("T".to_string())).unwrap();
    assert_eq!(j.str_or("irohTicket", ""), "T");
    assert!(ping("other", Some("T".to_string())).is_none());
    assert!(ping("naviamp", None).is_none());
}

#[test]
fn fixed_answers() {
    assert!(get_license().get("license").unwrap().is_true("valid"));
    let u = get_user("me", &params(&[]));
    assert_eq!(u.get("user").unwrap().str_or("username", ""), "me");
    let u = get_user("me", &params(&[("username", "you")]));
    assert_eq!(u.get("user").unwrap().str_or("username", ""), "you");
    let e = get_open_subsonic_extensions();
    assert_eq!(e.get("openSubsonicExtensions").unwrap().as_array().unwrap().len(), 5);
    assert!(!get_scan_status().get("scanStatus").unwrap().is_true("scanning"));
}

#[test]
fn tickets_need_an_identity() {
    assert_eq!(admin_ticket(Some(("t".into(), "n".into()))).str_or("ticket", ""), "t");
    assert_eq!(
        admin_ticket(None).str_or("error", ""),
        "Social is not enabled. Set [social] enabled = true in config."
    );
}

fn friend(key: &str) -> Friend {
    Friend {
        id: 0,
        name: "F".into(),
        public_key: key.into(),
        ticket: "".into(),
        added_at: "".into(),
        last_seen: None,
    }
}

#[test]
fn status_has_three_parts() {
    let node = Some(NodeStatus { node_id: "n".into(), relay: None, direct_addresses: vec!["a".into()] });
    let s = admin_status(&node, &vec![friend("k")], (1, 2, 3), vec![]);
    let social = s.get("social").unwrap();
    assert!(social.is_true("enabled"));
    assert!(matches!(social.get("relay"), Some(Json::Null)));
    assert_eq!(s.get("cache").unwrap().get_i64("tracks"), Some(3));
    let s = admin_status(&None, &vec![], (0, 0, 0), vec![]);
    assert!(!s.get("social").unwrap().is_true("enabled"));
}

#[test]
fn activity_joins_friends_and_what_they_play() {
    let playing = Json::object().with_text("nodeId", "k").with_text("title", "T");
    let a = admin_activity(&vec![friend("k"), friend("x")], &vec![playing], "Me");
    let list = a.get("friends").unwrap().as_array().unwrap();
    assert_eq!(list[0].get("now_playing").unwrap().str_or("title", ""), "T");
    assert!(matches!(list[1].get("now_playing"), Some(Json::Null)));
}

#[test]
fn invites_are_answered() {
    let e = admin_playlist_invite(&params(&[])).unwrap_err();
    assert_eq!(e.str_or("error", ""), "Missing ?id= parameter");
    let e = admin_playlist_invite(&params(&[("id", "x"), ("role", "king")])).unwrap_err();
    assert_eq!(e.str_or("error", ""), "Invalid role: king");
    let id = encode_collab_id("u1");
    let (uuid, role) = admin_playlist_invite(&params(&[("id", id.as_str())])).unwrap();
    assert_eq!((uuid.as_str(), role), ("u1", Role::Collab));
    let a = invite_answer("u1", Role::Viewer, Some("Mix".into()));
    assert_eq!(a.str_or("code", ""), generate_invite("u1", Role::Viewer, "Mix"));
    assert_eq!(invite_answer("u1", Role::Viewer, None).str_or("error", ""), "Playlist not found");
}

#[test]
fn joining_reads_the_invite() {
    let e = admin_playlist_join(&params(&[])).unwrap_err();
    assert_eq!(e.str_or("error", ""), "Missing ?code= parameter");
    let e = admin_playlist_join(&params(&[("code", "zz")])).unwrap_err();
    assert_eq!(e.str_or("error", ""), "Invalid invite code");
    let code = generate_invite("u1", Role::Collab, "A: B");
    let (id, role, name) = admin_playlist_join(&params(&[("code", code.as_str())])).unwrap();
    assert_eq!((id.as_str(), role, name.as_str()), ("u1", Role::Collab, "A: B"));
    let j = joined_playlist("u1", Role::Collab, "A: B");
    assert_eq!(decode_collab_id(j.str_or("playlist_id", "")), Some("u1".to_string()));
}

#[test]
fn objects_keep_one_member_of_a_name() {
    let mut o = Json::object().with("a", Json::integer(1));
    o.set("b", Json::Bool(false));
    o.set("a", Json::Number(Number::Float("2.5".into())));
    assert!(matches!(o.get("a"), Some(Json::Number(Number::Float(_)))));
    let r = o.rename("a", "c");
    assert!(r.get("a").is_none());
    assert!(r.get("c").is_some());
    assert!(r.get("b").is_some());
}
