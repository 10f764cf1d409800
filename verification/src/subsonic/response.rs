//! Answers in the format that the client asked for.

use crate::json::{
    json_view_parts, lemma_item_smaller, lemma_member_smaller, member, members_view, object,
    reading_after_setting, set_then_get, with_member, Json, JsonView, Number, NumberView,
};
use crate::seqs::lemma_layout_end;
use crate::strs::{
    concat2, concat3, decimal, decimal_string, signed_decimal, signed_decimal_string, views,
};
use crate::subsonic::params::{ResponseFormat, ResponseFormatView};
use crate::xml::{xml_escape, xml_escaped};
use vstd::prelude::*;

verus! {

/// A successful answer, to be written in the client's format.
#[derive(Debug)]
pub struct SubsonicResponse {
    pub format: ResponseFormat,
    pub body: Json,
}

/// The text of a value that is neither array nor object.
pub open spec fn primitive_text(v: JsonView) -> Seq<char> {
    match v {
        JsonView::Text(s) => s,
        JsonView::Number(NumberView::PosInt(n)) => decimal(n as nat),
        JsonView::Number(NumberView::NegInt(n)) => signed_decimal(n as int),
        JsonView::Number(NumberView::Float(s)) => s,
        JsonView::Bool(b) => if b {
            "true"@
        } else {
            "false"@
        },
        _ => seq![],
    }
}

/// `v` is an array or an object.
pub open spec fn is_compound(v: JsonView) -> bool {
    v is Array || v is Object
}

/// The attributes that the first `n` members give: those that are neither
/// arrays nor objects.
pub open spec fn xml_attributes(m: Seq<(Seq<char>, JsonView)>, n: nat) -> Seq<char>
    decreases n,
{
    if n == 0 {
        seq![]
    } else {
        let (k, v) = m[n - 1];
        let rest = xml_attributes(m, (n - 1) as nat);
        if is_compound(v) {
            rest
        } else {
            rest + " "@ + k + "=\""@ + xml_escaped(primitive_text(v)) + "\""@
        }
    }
}

/// One of the first `n` members is an array or an object.
pub open spec fn has_children(m: Seq<(Seq<char>, JsonView)>, n: nat) -> bool
    decreases n,
{
    n > 0 && (is_compound(m[n - 1].1) || has_children(m, (n - 1) as nat))
}

/// The XML of a value under the name `tag`: an array is its items under that
/// name; an object is an element whose attributes are its plain members and
/// whose children are the others; anything else is an element with text.
pub open spec fn xml_of(tag: Seq<char>, v: JsonView, indent: Seq<char>) -> Seq<char>
    decreases v, 0nat,
{
    match v {
        JsonView::Array(a) => xml_of_items(tag, a, a.len(), indent),
        JsonView::Object(m) => "\n"@ + indent + "<"@ + tag + xml_attributes(m, m.len()) + (
        if has_children(m, m.len()) {
            ">"@ + xml_of_children(m, m.len(), indent + "  "@) + "\n"@ + indent + "</"@ + tag + ">"@
        } else {
            "/>"@
        }),
        _ => "\n"@ + indent + "<"@ + tag + ">"@ + xml_escaped(primitive_text(v)) + "</"@ + tag
            + ">"@,
    }
}

/// The XML of the first `n` items of an array.
pub open spec fn xml_of_items(tag: Seq<char>, a: Seq<JsonView>, n: nat, indent: Seq<char>) -> Seq<
    char,
>
    decreases a, n,
{
    if n == 0 || n > a.len() {
        seq![]
    } else {
        xml_of_items(tag, a, (n - 1) as nat, indent) + xml_of(tag, a[n - 1], indent)
    }
}

/// The XML of those of the first `n` members that are arrays or objects.
pub open spec fn xml_of_children(
    m: Seq<(Seq<char>, JsonView)>,
    n: nat,
    indent: Seq<char>,
) -> Seq<char>
    decreases m, n,
{
    if n == 0 || n > m.len() {
        seq![]
    } else {
        let rest = xml_of_children(m, (n - 1) as nat, indent);
        if is_compound(m[n - 1].1) {
            rest + xml_of(m[n - 1].0, m[n - 1].1, indent)
        } else {
            rest
        }
    }
}

/// The XML of the first `n` members, plain ones too.
pub open spec fn xml_of_members(
    m: Seq<(Seq<char>, JsonView)>,
    n: nat,
    indent: Seq<char>,
) -> Seq<char>
    decreases n,
{
    if n == 0 || n > m.len() {
        seq![]
    } else {
        xml_of_members(m, (n - 1) as nat, indent) + xml_of(m[n - 1].0, m[n - 1].1, indent)
    }
}

/// The XML document that answers with `body`.
pub open spec fn xml_document(body: JsonView) -> Seq<char> {
    "<?xml version=\"1.0\" encoding=\"UTF-8\"?>\n<subsonic-response xmlns=\"http://subsonic.org/restapi\" status=\"ok\" version=\"1.16.1\" type=\"fugue\" serverVersion=\"0.1.0\" openSubsonic=\"true\">"@
        + match body {
        JsonView::Object(m) => xml_of_members(m, m.len(), "  "@),
        _ => seq![],
    } + "</subsonic-response>"@
}

fn primitive_to_string(v: &Json) -> (r: String)
    requires
        !is_compound(v@),
    ensures
        r@ == primitive_text(v@),
{
    match v {
        Json::Text(s) => s.clone(),
        Json::Number(Number::PosInt(n)) => decimal_string(*n as u128),
        Json::Number(Number::NegInt(n)) => signed_decimal_string(*n),
        Json::Number(Number::Float(s)) => s.clone(),
        Json::Bool(b) => if *b {
            "true".to_owned()
        } else {
            "false".to_owned()
        },
        _ => String::new(),
    }
}

fn is_nested(v: &Json) -> (r: bool)
    ensures
        r == is_compound(v@),
{
    match v {
        Json::Array(_) => true,
        Json::Object(_) => true,
        _ => false,
    }
}

/// Appends the XML of `value` under the name `tag`.
fn json_to_xml(xml: &mut String, tag: &str, value: &Json, indent: &str)
    ensures
        final(xml)@ == old(xml)@ + xml_of(tag@, value@, indent@),
    decreases value,
{
    broadcast use json_view_parts;

    let ghost before = xml@;
    match value {
        Json::Array(arr) => {
            let ghost a = views(arr@);
            let mut i: usize = 0;
            assert(before + seq![] =~= before);
            while i < arr.len()
                invariant
                    i <= arr@.len(),
                    *value == Json::Array(*arr),
                    a == views(arr@),
                    xml@ == before + xml_of_items(tag@, a, i as nat, indent@),
                decreases arr@.len() - i,
            {
                proof {
                    lemma_item_smaller(*value, i as int);
                    assert(a[i as int] == arr@[i as int]@);
                }
                let ghost sofar = xml_of_items(tag@, a, i as nat, indent@);
                json_to_xml(xml, tag, &arr[i], indent);
                i += 1;
                assert(xml@ =~= before + xml_of_items(tag@, a, i as nat, indent@));
            }
        },
        Json::Object(obj) => {
            let ghost m = members_view(obj@);
            xml.append("\n");
            xml.append(indent);
            xml.append("<");
            xml.append(tag);
            let ghost head = "\n"@ + indent@ + "<"@ + tag@;
            assert(xml@ =~= before + head);
            let mut children: bool = false;
            let mut i: usize = 0;
            assert(before + head + seq![] =~= before + head);
            while i < obj.len()
                invariant
                    i <= obj@.len(),
                    *value == Json::Object(*obj),
                    m == members_view(obj@),
                    xml@ == before + head + xml_attributes(m, i as nat),
                    children == has_children(m, i as nat),
                decreases obj@.len() - i,
            {
                assert(m[i as int] == (obj@[i as int].0@, obj@[i as int].1@));
                let v = &obj[i].1;
                if is_nested(v) {
                    children = true;
                } else {
                    let ghost sofar = xml_attributes(m, i as nat);
                    xml.append(" ");
                    xml.append(obj[i].0.as_str());
                    xml.append("=\"");
                    xml.append(xml_escape(primitive_to_string(v).as_str()).as_str());
                    xml.append("\"");
                    assert(xml@ =~= before + head + (sofar + " "@ + m[i as int].0 + "=\""@
                        + xml_escaped(primitive_text(m[i as int].1)) + "\""@));
                }
                i += 1;
            }
            let ghost attrs = xml_attributes(m, m.len());
            if !children {
                xml.append("/>");
                assert(xml@ =~= before + (head + attrs + "/>"@));
            } else {
                xml.append(">");
                let inner = concat2(indent, "  ");
                let mut j: usize = 0;
                let ghost open = before + head + attrs + ">"@;
                assert(open + seq![] =~= open);
                while j < obj.len()
                    invariant
                        j <= obj@.len(),
                        *value == Json::Object(*obj),
                        m == members_view(obj@),
                        inner@ == indent@ + "  "@,
                        xml@ == open + xml_of_children(m, j as nat, inner@),
                    decreases obj@.len() - j,
                {
                    assert(m[j as int] == (obj@[j as int].0@, obj@[j as int].1@));
                    let ghost sofar = xml_of_children(m, j as nat, inner@);
                    if is_nested(&obj[j].1) {
                        proof {
                            lemma_member_smaller(*value, j as int);
                        }
                        json_to_xml(xml, obj[j].0.as_str(), &obj[j].1, inner.as_str());
                    }
                    j += 1;
                    assert(xml@ =~= open + xml_of_children(m, j as nat, inner@));
                }
                xml.append("\n");
                xml.append(indent);
                xml.append("</");
                xml.append(tag);
                xml.append(">");
                assert(xml@ =~= before + (head + attrs + (">"@ + xml_of_children(
                    m,
                    m.len(),
                    indent@ + "  "@,
                ) + "\n"@ + indent@ + "</"@ + tag@ + ">"@)));
            }
        },
        _ => {
            xml.append("\n");
            xml.append(indent);
            xml.append("<");
            xml.append(tag);
            xml.append(">");
            xml.append(xml_escape(primitive_to_string(value).as_str()).as_str());
            xml.append("</");
            xml.append(tag);
            xml.append(">");
            assert(xml@ =~= before + xml_of(tag@, value@, indent@));
        },
    }
}

/// The XML document that answers with `body`.
pub fn build_xml_response(body: &Json) -> (r: String)
    ensures
        r@ == xml_document(body@),
{
    broadcast use json_view_parts;

    let mut xml = "<?xml version=\"1.0\" encoding=\"UTF-8\"?>\n<subsonic-response xmlns=\"http://subsonic.org/restapi\" status=\"ok\" version=\"1.16.1\" type=\"fugue\" serverVersion=\"0.1.0\" openSubsonic=\"true\">".to_owned();
    let ghost head = xml@;
    assert(head + seq![] =~= head);
    match body {
        Json::Object(obj) => {
            let ghost m = members_view(obj@);
            let mut i: usize = 0;
            while i < obj.len()
                invariant
                    i <= obj@.len(),
                    m == members_view(obj@),
                    xml@ == head + xml_of_members(m, i as nat, "  "@),
                decreases obj@.len() - i,
            {
                assert(m[i as int] == (obj@[i as int].0@, obj@[i as int].1@));
                json_to_xml(&mut xml, obj[i].0.as_str(), &obj[i].1, "  ");
                i += 1;
                assert(xml@ =~= head + xml_of_members(m, i as nat, "  "@));
            }
        },
        _ => {},
    }
    xml.append("</subsonic-response>");
    xml
}

/// `m` with the first `n` members of `body` set in it.
pub open spec fn overlaid(
    m: Seq<(Seq<char>, JsonView)>,
    body: Seq<(Seq<char>, JsonView)>,
    n: nat,
) -> Seq<(Seq<char>, JsonView)>
    decreases n,
{
    if n == 0 || n > body.len() {
        m
    } else {
        with_member(overlaid(m, body, (n - 1) as nat), body[n - 1].0, body[n - 1].1)
    }
}

/// What every successful answer says.
pub open spec fn standard_fields() -> JsonView {
    object().with("status"@, JsonView::Text("ok"@)).with("version"@, JsonView::Text("1.16.1"@)).with(
        "type"@,
        JsonView::Text("fugue"@),
    ).with("serverVersion"@, JsonView::Text("0.1.0"@)).with("openSubsonic"@, JsonView::Bool(true))
}

/// The JSON value that answers with `body`: the standard fields, with the
/// members of `body` among them.
pub open spec fn json_document(body: JsonView) -> JsonView {
    object().with(
        "subsonic-response"@,
        match (standard_fields(), body) {
            (JsonView::Object(s), JsonView::Object(b)) => JsonView::Object(overlaid(s, b, b.len())),
            (s, _) => s,
        },
    )
}

/// The JSON value that answers with `body`.
pub fn build_json_response(body: &Json) -> (r: Json)
    ensures
        r@ == json_document(body@),
{
    broadcast use json_view_parts;

    let mut inner = Json::object().with_text("status", "ok").with_text("version", "1.16.1").with_text(
        "type",
        "fugue",
    ).with_text("serverVersion", "0.1.0").with("openSubsonic", Json::Bool(true));
    match body {
        Json::Object(obj) => {
            let ghost b = members_view(obj@);
            let ghost s = inner@->Object_0;
            let mut i: usize = 0;
            while i < obj.len()
                invariant
                    i <= obj@.len(),
                    b == members_view(obj@),
                    inner@ == JsonView::Object(overlaid(s, b, i as nat)),
                decreases obj@.len() - i,
            {
                assert(b[i as int] == (obj@[i as int].0@, obj@[i as int].1@));
                let v = obj[i].1.clone();
                inner.set(obj[i].0.as_str(), v);
                i += 1;
            }
        },
        _ => {},
    }
    Json::object().with("subsonic-response", inner)
}

/// An answer, ready but for writing JSON as text.
pub enum Rendered {
    /// An XML document.
    Xml(String),
    /// A JSON value.
    Json(Json),
    /// A JSON value that goes to a callback.
    Jsonp(String, Json),
}

impl SubsonicResponse {
    /// A successful answer with these fields.
    pub fn ok(format: ResponseFormat, body: Json) -> (r: SubsonicResponse)
        ensures
            r.format == format,
            r.body == body,
    {
        SubsonicResponse { format, body }
    }

    /// An empty successful answer.
    pub fn empty(format: ResponseFormat) -> (r: SubsonicResponse)
        ensures
            r.format == format,
            r.body@ == object(),
    {
        SubsonicResponse { format, body: Json::object() }
    }

    /// The answer in the client's format.
    pub fn render(&self) -> (r: Rendered)
        ensures
            match r {
                Rendered::Xml(s) => self.format@ is Xml && s@ == xml_document(self.body@),
                Rendered::Json(j) => self.format@ is Json && j@ == json_document(self.body@),
                Rendered::Jsonp(c, j) => self.format@ == ResponseFormatView::Jsonp(c@) && j@
                    == json_document(self.body@),
            },
    {
        match &self.format {
            ResponseFormat::Xml => Rendered::Xml(build_xml_response(&self.body)),
            ResponseFormat::Json => Rendered::Json(build_json_response(&self.body)),
            ResponseFormat::Jsonp(c) => Rendered::Jsonp(
                c.clone(),
                build_json_response(&self.body),
            ),
        }
    }

    /// The content type of the answer.
    pub fn content_type(&self) -> (r: String)
        ensures
            r@ == match self.format@ {
                ResponseFormatView::Xml => "text/xml; charset=utf-8"@,
                ResponseFormatView::Json => "application/json; charset=utf-8"@,
                ResponseFormatView::Jsonp(_) => "application/javascript; charset=utf-8"@,
            },
    {
        match &self.format {
            ResponseFormat::Xml => "text/xml; charset=utf-8".to_owned(),
            ResponseFormat::Json => "application/json; charset=utf-8".to_owned(),
            ResponseFormat::Jsonp(_) => "application/javascript; charset=utf-8".to_owned(),
        }
    }
}

/// A call of `callback` with a JSON text.
pub fn jsonp_body(callback: &str, json_text: &str) -> (r: String)
    ensures
        r@ == callback@ + "("@ + json_text@ + ")"@,
{
    let mut s = concat3(callback, "(", json_text);
    s.append(")");
    s
}

// ── Laws of how answers are written ─────────────────────────────

/// What a value that holds no other values is written as.
pub proof fn plain_values_are_written_out(
    s: Seq<char>,
    n: u64,
    i: i64,
    members: Seq<(Seq<char>, JsonView)>,
    items: Seq<JsonView>,
)
    ensures
        primitive_text(JsonView::Text(s)) == s,
        primitive_text(JsonView::Number(NumberView::PosInt(n))) == decimal(n as nat),
        i < 0 ==> primitive_text(JsonView::Number(NumberView::NegInt(i))) == seq!['-'] + decimal(
            (-i) as nat,
        ),
        primitive_text(JsonView::Number(NumberView::Float(s))) == s,
        primitive_text(JsonView::Bool(true)) == "true"@,
        primitive_text(JsonView::Bool(false)) == "false"@,
        !is_compound(JsonView::Text(s)) && !is_compound(JsonView::Null),
        is_compound(JsonView::Object(members)) && is_compound(JsonView::Array(items)),
{
}

proof fn lemma_attributes(m: Seq<(Seq<char>, JsonView)>, n: nat)
    requires
        n <= m.len(),
    ensures
        xml_attributes(m, n) == Seq::new(
            n,
            |i: int|
                if m[i].1 is Array || m[i].1 is Object {
                    seq![]
                } else {
                    " "@ + m[i].0 + "=\""@ + xml_escaped(primitive_text(m[i].1)) + "\""@
                },
        ).flatten(),
    decreases n,
{
    let f = |i: int|
        if m[i].1 is Array || m[i].1 is Object {
            seq![]
        } else {
            " "@ + m[i].0 + "=\""@ + xml_escaped(primitive_text(m[i].1)) + "\""@
        };
    let all = Seq::new(n, f);
    lemma_layout_end(all);
    if n > 0 {
        lemma_attributes(m, (n - 1) as nat);
        assert(all.drop_last() =~= Seq::new((n - 1) as nat, f));
        let rest = xml_attributes(m, (n - 1) as nat);
        let last = f(n - 1);
        assert(xml_attributes(m, n) =~= rest + last);
    }
}

proof fn lemma_children(m: Seq<(Seq<char>, JsonView)>, n: nat, indent: Seq<char>)
    requires
        n <= m.len(),
    ensures
        xml_of_children(m, n, indent) == Seq::new(
            n,
            |i: int|
                if m[i].1 is Array || m[i].1 is Object {
                    xml_of(m[i].0, m[i].1, indent)
                } else {
                    seq![]
                },
        ).flatten(),
        has_children(m, n) <==> exists|i: int|
            0 <= i < n && ((#[trigger] m[i]).1 is Array || m[i].1 is Object),
    decreases n,
{
    let f = |i: int|
        if m[i].1 is Array || m[i].1 is Object {
            xml_of(m[i].0, m[i].1, indent)
        } else {
            seq![]
        };
    let all = Seq::new(n, f);
    lemma_layout_end(all);
    if n > 0 {
        lemma_children(m, (n - 1) as nat, indent);
        assert(all.drop_last() =~= Seq::new((n - 1) as nat, f));
        if is_compound(m[n - 1].1) {
            assert(has_children(m, n));
        }
    }
}

/// An object is an element: its plain members are attributes, in order, and its
/// other members are elements within, in order and indented by two more spaces.
/// One without such members is an empty element.
pub proof fn objects_are_elements(
    tag: Seq<char>,
    m: Seq<(Seq<char>, JsonView)>,
    indent: Seq<char>,
)
    ensures
        ({
            let attributes = Seq::new(
                m.len(),
                |i: int|
                    if m[i].1 is Array || m[i].1 is Object {
                        seq![]
                    } else {
                        " "@ + m[i].0 + "=\""@ + xml_escaped(primitive_text(m[i].1)) + "\""@
                    },
            ).flatten();
            let deeper = indent + "  "@;
            let children = Seq::new(
                m.len(),
                |i: int|
                    if m[i].1 is Array || m[i].1 is Object {
                        xml_of(m[i].0, m[i].1, deeper)
                    } else {
                        seq![]
                    },
            ).flatten();
            let start = "\n"@ + indent + "<"@ + tag + attributes;
            xml_of(tag, JsonView::Object(m), indent) == if exists|i: int|
                0 <= i < m.len() && ((#[trigger] m[i]).1 is Array || m[i].1 is Object) {
                start + (">"@ + children + "\n"@ + indent + "</"@ + tag + ">"@)
            } else {
                start + "/>"@
            }
        }),
{
    lemma_attributes(m, m.len());
    lemma_children(m, m.len(), indent + "  "@);
}

proof fn lemma_items(tag: Seq<char>, a: Seq<JsonView>, n: nat, indent: Seq<char>)
    requires
        n <= a.len(),
    ensures
        xml_of_items(tag, a, n, indent) == Seq::new(
            n,
            |i: int| xml_of(tag, a[i], indent),
        ).flatten(),
    decreases n,
{
    let f = |i: int| xml_of(tag, a[i], indent);
    let all = Seq::new(n, f);
    lemma_layout_end(all);
    if n > 0 {
        lemma_items(tag, a, (n - 1) as nat, indent);
        assert(all.drop_last() =~= Seq::new((n - 1) as nat, f));
    }
}

/// A list is written item by item, each as an element of the list's name; plain
/// text is written between its tags, escaped.
pub proof fn lists_are_written_item_by_item(
    tag: Seq<char>,
    a: Seq<JsonView>,
    s: Seq<char>,
    indent: Seq<char>,
)
    ensures
        xml_of(tag, JsonView::Array(a), indent) == Seq::new(
            a.len(),
            |i: int| xml_of(tag, a[i], indent),
        ).flatten(),
        xml_of(tag, JsonView::Text(s), indent) == "\n"@ + indent + "<"@ + tag + ">"@ + xml_escaped(
            s,
        ) + "</"@ + tag + ">"@,
{
    lemma_items(tag, a, a.len(), indent);
}

proof fn lemma_members(m: Seq<(Seq<char>, JsonView)>, n: nat, indent: Seq<char>)
    requires
        n <= m.len(),
    ensures
        xml_of_members(m, n, indent) == Seq::new(
            n,
            |i: int| xml_of(m[i].0, m[i].1, indent),
        ).flatten(),
    decreases n,
{
    let f = |i: int| xml_of(m[i].0, m[i].1, indent);
    let all = Seq::new(n, f);
    lemma_layout_end(all);
    if n > 0 {
        lemma_members(m, (n - 1) as nat, indent);
        assert(all.drop_last() =~= Seq::new((n - 1) as nat, f));
    }
}

/// An answer in XML is the standard root element around all members of the body,
/// in order.
pub proof fn answers_hold_all_members(m: Seq<(Seq<char>, JsonView)>)
    ensures
        xml_document(JsonView::Object(m))
            == "<?xml version=\"1.0\" encoding=\"UTF-8\"?>\n<subsonic-response xmlns=\"http://subsonic.org/restapi\" status=\"ok\" version=\"1.16.1\" type=\"fugue\" serverVersion=\"0.1.0\" openSubsonic=\"true\">"@
            + Seq::new(m.len(), |i: int| xml_of(m[i].0, m[i].1, "  "@)).flatten()
            + "</subsonic-response>"@,
{
    lemma_members(m, m.len(), "  "@);
}

proof fn lemma_overlaid(
    m: Seq<(Seq<char>, JsonView)>,
    body: Seq<(Seq<char>, JsonView)>,
    n: nat,
    key: Seq<char>,
)
    requires
        n <= body.len(),
    ensures
        member(overlaid(m, body, n), key) == match member(body.take(n as int), key) {
            Some(v) => Some(v),
            None => member(m, key),
        },
    decreases n,
{
    if n > 0 {
        lemma_overlaid(m, body, (n - 1) as nat, key);
        set_then_get(overlaid(m, body, (n - 1) as nat), body[n - 1].0, body[n - 1].1, key);
        assert(body.take(n as int).drop_last() =~= body.take(n - 1));
    } else {
        assert(body.take(0) =~= seq![]);
    }
}

/// An answer in JSON holds every member of the body under the root, and the
/// standard fields as far as the body does not set them itself.
pub proof fn json_answers_hold_body_and_standard_fields(body: JsonView, key: Seq<char>)
    requires
        body is Object,
    ensures
        json_document(body).get("subsonic-response"@) matches Some(r) && {
            &&& body.get(key) matches Some(v) ==> r.get(key) == Some(v)
            &&& body.get("status"@) is None ==> r.get("status"@) == Some(JsonView::Text("ok"@))
            &&& body.get("version"@) is None ==> r.get("version"@) == Some(
                JsonView::Text("1.16.1"@),
            )
            &&& body.get("type"@) is None ==> r.get("type"@) == Some(JsonView::Text("fugue"@))
            &&& body.get("serverVersion"@) is None ==> r.get("serverVersion"@) == Some(
                JsonView::Text("0.1.0"@),
            )
            &&& body.get("openSubsonic"@) is None ==> r.get("openSubsonic"@) == Some(
                JsonView::Bool(true),
            )
        },
{
    broadcast use reading_after_setting;

    reveal_strlit("status");
    reveal_strlit("version");
    reveal_strlit("type");
    reveal_strlit("serverVersion");
    reveal_strlit("openSubsonic");
    assert("status"@.len() != "version"@.len() && "status"@.len() != "type"@.len());
    assert("status"@.len() != "serverVersion"@.len() && "status"@.len() != "openSubsonic"@.len());
    let standard = standard_fields();
    match (standard, body) {
        (JsonView::Object(s), JsonView::Object(b)) => {
            assert(b.take(b.len() as int) =~= b);
            lemma_overlaid(s, b, b.len(), key);
            lemma_overlaid(s, b, b.len(), "status"@);
            lemma_overlaid(s, b, b.len(), "version"@);
            lemma_overlaid(s, b, b.len(), "type"@);
            lemma_overlaid(s, b, b.len(), "serverVersion"@);
            lemma_overlaid(s, b, b.len(), "openSubsonic"@);
            assert(standard.get("status"@) == Some(JsonView::Text("ok"@)));
            assert(standard.get("version"@) == Some(JsonView::Text("1.16.1"@)));
            assert(standard.get("type"@) == Some(JsonView::Text("fugue"@)));
            assert(standard.get("serverVersion"@) == Some(JsonView::Text("0.1.0"@)));
            assert(standard.get("openSubsonic"@) == Some(JsonView::Bool(true)));
        },
        _ => {},
    }
}

} // verus!
