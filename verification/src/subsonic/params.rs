//! Request parameters.
//!
//! Some clients send parameters in the query string, others in a form body.
//! The two are merged, so that everything else reads one set of parameters.

use crate::codec::{form_fields, form_parse, form_serialize, form_text, pair_views};
use crate::error::{missing_param, FugueError};
use crate::strs::{
    at_most, decimal, decimal_read_back, natural_value, opt_text, parse_u64, parse_usize,
    str_eq,
};
use vstd::prelude::*;
use vstd::utf8::encode_utf8;

verus! {

/// The value that fields give `key`: that of the last field of this name.
pub open spec fn field_value(fields: Seq<(Seq<char>, Seq<char>)>, key: Seq<char>) -> Option<
    Seq<char>,
>
    decreases fields.len(),
{
    if fields.len() == 0 {
        None
    } else if fields.last().0 == key {
        Some(fields.last().1)
    } else {
        field_value(fields.drop_last(), key)
    }
}

/// Named parameters. Of several with one name the last counts.
#[derive(Debug)]
pub struct Params {
    pub fields: Vec<(String, String)>,
}

impl View for Params {
    type V = Seq<(Seq<char>, Seq<char>)>;

    open spec fn view(&self) -> Seq<(Seq<char>, Seq<char>)> {
        pair_views(self.fields@)
    }
}

impl Clone for Params {
    fn clone(&self) -> (r: Self)
        ensures
            r@ == self@,
    {
        let mut fields: Vec<(String, String)> = Vec::new();
        let mut i: usize = 0;
        while i < self.fields.len()
            invariant
                i <= self.fields@.len(),
                pair_views(fields@) == self@.take(i as int),
            decreases self.fields@.len() - i,
        {
            let ghost before = fields@;
            let p = (self.fields[i].0.clone(), self.fields[i].1.clone());
            fields.push(p);
            proof {
                assert(pair_views(fields@) =~= pair_views(before).push((p.0@, p.1@)));
                assert(self@.take(i + 1) =~= self@.take(i as int).push((p.0@, p.1@)));
            }
            i += 1;
        }
        assert(self@.take(i as int) =~= self@);
        Params { fields }
    }
}

/// The value of `key` in a list of fields.
pub fn find_field<'a>(fields: &'a Vec<(String, String)>, key: &str) -> (r: Option<&'a String>)
    ensures
        match r {
            Some(v) => field_value(pair_views(fields@), key@) == Some(v@),
            None => field_value(pair_views(fields@), key@) is None,
        },
{
    let ghost s = pair_views(fields@);
    let mut i: usize = fields.len();
    assert(s.take(i as int) =~= s);
    while i > 0
        invariant
            i <= fields@.len(),
            s == pair_views(fields@),
            field_value(s, key@) == field_value(s.take(i as int), key@),
        decreases i,
    {
        proof {
            assert(s.take(i as int).drop_last() =~= s.take(i - 1));
            assert(s.take(i as int).last() == (fields@[i - 1].0@, fields@[i - 1].1@));
        }
        if str_eq(fields[i - 1].0.as_str(), key) {
            return Some(&fields[i - 1].1);
        }
        i -= 1;
    }
    None
}

impl Params {
    /// The value of a parameter.
    pub fn get(&self, key: &str) -> (r: Option<&String>)
        ensures
            match r {
                Some(v) => field_value(self@, key@) == Some(v@),
                None => field_value(self@, key@) is None,
            },
    {
        find_field(&self.fields, key)
    }

    /// A copy of the value of a parameter.
    pub fn copy_of(&self, key: &str) -> (r: Option<String>)
        ensures
            opt_text(r) == field_value(self@, key@),
    {
        match self.get(key) {
            Some(v) => Some(v.clone()),
            None => None,
        }
    }

    /// The value of a parameter that must be there.
    pub fn required(&self, key: &str) -> (r: Result<&String, FugueError>)
        ensures
            match field_value(self@, key@) {
                Some(v) => r matches Ok(s) && s@ == v,
                None => r matches Err(e) && e@ == missing_param(key@),
            },
    {
        match self.get(key) {
            Some(v) => Ok(v),
            None => Err(FugueError::missing(key)),
        }
    }

    /// The number that a parameter gives, `default` if it gives none.
    pub fn number(&self, key: &str, default: usize) -> (r: usize)
        ensures
            r == number_or(self@, key@, default as nat, usize::MAX as nat),
    {
        match self.get(key) {
            Some(v) => match parse_usize(v.as_str()) {
                Some(n) => n,
                None => default,
            },
            None => default,
        }
    }

    /// The number of up to 64 bits that a parameter gives, `default` if it
    /// gives none.
    pub fn number_u64(&self, key: &str, default: u64) -> (r: u64)
        ensures
            r == number_or(self@, key@, default as nat, u64::MAX as nat),
    {
        match self.get(key) {
            Some(v) => match parse_u64(v.as_str()) {
                Some(n) => n,
                None => default,
            },
            None => default,
        }
    }

    /// Whether a parameter has this value.
    pub fn has(&self, key: &str, value: &str) -> (r: bool)
        ensures
            r == (field_value(self@, key@) == Some(value@)),
    {
        match self.get(key) {
            Some(v) => str_eq(v.as_str(), value),
            None => false,
        }
    }

    /// A copy of the value of a parameter, `default` if there is none.
    pub fn get_or(&self, key: &str, default: &str) -> (r: String)
        ensures
            r@ == value_or(self@, key@, default@),
    {
        match self.get(key) {
            Some(v) => v.clone(),
            None => default.to_owned(),
        }
    }
}

/// The number that a parameter gives, `default` if it gives none up to `max`.
pub open spec fn number_or(
    fields: Seq<(Seq<char>, Seq<char>)>,
    key: Seq<char>,
    default: nat,
    max: nat,
) -> nat {
    match field_value(fields, key) {
        Some(text) => match at_most(natural_value(text), max) {
            Some(n) => n,
            None => default,
        },
        None => default,
    }
}

/// The value of a parameter, `default` if there is none.
pub open spec fn value_or(
    fields: Seq<(Seq<char>, Seq<char>)>,
    key: Seq<char>,
    default: Seq<char>,
) -> Seq<char> {
    match field_value(fields, key) {
        Some(v) => v,
        None => default,
    }
}

/// `list` with the parameter `key`, if the request gives it.
pub open spec fn passed_on(
    list: Seq<(Seq<char>, Seq<char>)>,
    fields: Seq<(Seq<char>, Seq<char>)>,
    key: Seq<char>,
) -> Seq<(Seq<char>, Seq<char>)> {
    match field_value(fields, key) {
        Some(v) => list.push((key, v)),
        None => list,
    }
}

/// Passes the parameter `key` on, if the request gives it.
pub fn pass_on(out: &mut Vec<(String, String)>, params: &Params, key: &str)
    ensures
        pair_views(final(out)@) == passed_on(pair_views(old(out)@), params@, key@),
{
    let ghost before = out@;
    match params.get(key) {
        Some(v) => {
            let p = (key.to_owned(), v.clone());
            out.push(p);
            assert(pair_views(out@) =~= pair_views(before).push((p.0@, p.1@)));
        },
        None => {},
    }
}

/// The format that a client wants its answers in.
#[derive(Debug)]
pub enum ResponseFormat {
    Xml,
    Json,
    Jsonp(String),
}

/// A format, the name of a callback as characters.
pub enum ResponseFormatView {
    Xml,
    Json,
    Jsonp(Seq<char>),
}

impl View for ResponseFormat {
    type V = ResponseFormatView;

    open spec fn view(&self) -> ResponseFormatView {
        match *self {
            ResponseFormat::Xml => ResponseFormatView::Xml,
            ResponseFormat::Json => ResponseFormatView::Json,
            ResponseFormat::Jsonp(c) => ResponseFormatView::Jsonp(c@),
        }
    }
}

impl Clone for ResponseFormat {
    fn clone(&self) -> (r: Self)
        ensures
            r@ == self@,
    {
        match self {
            ResponseFormat::Xml => ResponseFormat::Xml,
            ResponseFormat::Json => ResponseFormat::Json,
            ResponseFormat::Jsonp(c) => ResponseFormat::Jsonp(c.clone()),
        }
    }
}

/// The format that the parameter `f` asks for: XML unless it is `json` or
/// `jsonp`.
pub open spec fn wanted_format(fields: Seq<(Seq<char>, Seq<char>)>) -> ResponseFormatView {
    match field_value(fields, "f"@) {
        Some(f) => if f == "json"@ {
            ResponseFormatView::Json
        } else if f == "jsonp"@ {
            ResponseFormatView::Jsonp(value_or(fields, "callback"@, "callback"@))
        } else {
            ResponseFormatView::Xml
        },
        None => ResponseFormatView::Xml,
    }
}

impl ResponseFormat {
    /// The format that a request asks for.
    pub fn from_params(params: &Params) -> (r: ResponseFormat)
        ensures
            r@ == wanted_format(params@),
    {
        match params.get("f") {
            Some(f) => if str_eq(f.as_str(), "json") {
                ResponseFormat::Json
            } else if str_eq(f.as_str(), "jsonp") {
                ResponseFormat::Jsonp(params.get_or("callback", "callback"))
            } else {
                ResponseFormat::Xml
            },
            None => ResponseFormat::Xml,
        }
    }
}

/// Common Subsonic query parameters present on every request.
#[derive(Debug)]
pub struct SubsonicParams {
    pub username: String,
    pub version: String,
    pub client: String,
    pub format: ResponseFormat,
    /// All query parameters, for forwarding additional ones.
    pub raw: Params,
}

impl SubsonicParams {
    /// Reads the common parameters of a request.
    pub fn from_fields(raw: Params) -> (r: SubsonicParams)
        ensures
            r.raw@ == raw@,
            r.username@ == value_or(raw@, "u"@, ""@),
            r.version@ == value_or(raw@, "v"@, "1.16.1"@),
            r.client@ == value_or(raw@, "c"@, "unknown"@),
            r.format@ == wanted_format(raw@),
    {
        SubsonicParams {
            username: raw.get_or("u", ""),
            version: raw.get_or("v", "1.16.1"),
            client: raw.get_or("c", "unknown"),
            format: ResponseFormat::from_params(&raw),
            raw,
        }
    }
}

/// No two fields share a name.
pub open spec fn distinct_names(fields: Seq<(Seq<char>, Seq<char>)>) -> bool {
    forall|i: int, j: int|
        0 <= i < j < fields.len() ==> (#[trigger] fields[i]).0 != (#[trigger] fields[j]).0
}

/// `merged` gives every name once: the value that the query gives it, or else
/// the value that the form gives it.
pub open spec fn is_merge(
    merged: Seq<(Seq<char>, Seq<char>)>,
    form: Seq<(Seq<char>, Seq<char>)>,
    query: Seq<(Seq<char>, Seq<char>)>,
) -> bool {
    &&& distinct_names(merged)
    &&& forall|k: Seq<char>| #[trigger]
        field_value(merged, k) == if field_value(query, k) is Some {
            field_value(query, k)
        } else {
            field_value(form, k)
        }
}

proof fn lemma_absent(s: Seq<(Seq<char>, Seq<char>)>, k: Seq<char>)
    ensures
        field_value(s, k) is None <==> forall|i: int| 0 <= i < s.len() ==> (#[trigger] s[i]).0 != k,
    decreases s.len(),
{
    if s.len() > 0 {
        lemma_absent(s.drop_last(), k);
        if field_value(s, k) is None {
            assert forall|i: int| 0 <= i < s.len() implies (#[trigger] s[i]).0 != k by {
                if i < s.len() - 1 {
                    assert(s.drop_last()[i] == s[i]);
                }
            }
        }
        if forall|i: int| 0 <= i < s.len() ==> (#[trigger] s[i]).0 != k {
            assert(s[s.len() - 1].0 != k);
            assert forall|i: int| 0 <= i < s.drop_last().len() implies (
            #[trigger] s.drop_last()[i]).0 != k by {
                assert(s[i].0 != k);
            }
        }
    }
}

/// Adds the fields of `from` whose names are not yet in `out`, each with the
/// value that `from` gives its name.
fn add_missing(out: &mut Vec<(String, String)>, from: &Vec<(String, String)>)
    requires
        distinct_names(pair_views(old(out)@)),
    ensures
        is_merge(pair_views(final(out)@), pair_views(from@), pair_views(old(out)@)),
{
    let ghost before = pair_views(out@);
    let ghost f = pair_views(from@);
    let mut i: usize = from.len();
    assert(f.take(i as int) =~= f);
    assert(f.skip(i as int) =~= seq![]);
    assert forall|k: Seq<char>| #[trigger]
        field_value(before, k) == if field_value(before, k) is Some {
            field_value(before, k)
        } else {
            field_value(f.skip(i as int), k)
        } by {}
    while i > 0
        invariant
            i <= from@.len(),
            f == pair_views(from@),
            distinct_names(before),
            is_merge(pair_views(out@), f.skip(i as int), before),
        decreases i,
    {
        let ghost sofar = pair_views(out@);
        let key = &from[i - 1].0;
        proof {
            assert(f.skip(i - 1) =~= seq![(from@[i - 1].0@, from@[i - 1].1@)] + f.skip(i as int));
            assert forall|k: Seq<char>| #[trigger]
                field_value(f.skip(i - 1), k) == if field_value(f.skip(i as int), k) is Some {
                    field_value(f.skip(i as int), k)
                } else if k == key@ {
                    Some(from@[i - 1].1@)
                } else {
                    None
                } by {
                lemma_prepended((from@[i - 1].0@, from@[i - 1].1@), f.skip(i as int), k);
            }
        }
        match find_field(out, key.as_str()) {
            Some(_) => {
                assert forall|k: Seq<char>| #[trigger]
                    field_value(sofar, k) == if field_value(before, k) is Some {
                        field_value(before, k)
                    } else {
                        field_value(f.skip(i - 1), k)
                    } by {
                    assert(field_value(f.skip(i - 1), k) == field_value(f.skip(i - 1), k));
                }
            },
            None => {
                let p = (key.clone(), from[i - 1].1.clone());
                let ghost pv = (p.0@, p.1@);
                out.push(p);
                proof {
                    let now = pair_views(out@);
                    assert(now =~= sofar.push(pv));
                    lemma_absent(sofar, key@);
                    assert(now.drop_last() =~= sofar);
                    assert(distinct_names(now)) by {
                        assert forall|a: int, b: int| 0 <= a < b < now.len() implies (
                        #[trigger] now[a]).0 != (#[trigger] now[b]).0 by {
                            if b == sofar.len() {
                                assert(sofar[a].0 != key@);
                            } else {
                                assert(sofar[a].0 != sofar[b].0);
                            }
                        }
                    }
                    assert forall|k: Seq<char>| #[trigger]
                        field_value(now, k) == if field_value(before, k) is Some {
                            field_value(before, k)
                        } else {
                            field_value(f.skip(i - 1), k)
                        } by {
                        assert(field_value(sofar, k) == field_value(sofar, k));
                        assert(field_value(f.skip(i - 1), k) == field_value(f.skip(i - 1), k));
                    }
                }
            },
        }
        i -= 1;
    }
    assert(f.skip(0) =~= f);
}

proof fn lemma_prepended(p: (Seq<char>, Seq<char>), s: Seq<(Seq<char>, Seq<char>)>, k: Seq<char>)
    ensures
        field_value(seq![p] + s, k) == if field_value(s, k) is Some {
            field_value(s, k)
        } else if k == p.0 {
            Some(p.1)
        } else {
            None
        },
    decreases s.len(),
{
    let t = seq![p] + s;
    if s.len() == 0 {
        assert(t =~= seq![p]);
        assert(t.drop_last() =~= seq![]);
        assert(field_value(t.drop_last(), k) is None);
    } else {
        assert(t.drop_last() =~= seq![p] + s.drop_last());
        assert(t.last() == s.last());
        lemma_prepended(p, s.drop_last(), k);
    }
}

/// Merges the fields of a form body and of a query: the query takes
/// precedence.
pub fn merge_fields(form: &Vec<(String, String)>, query: &Vec<(String, String)>) -> (r: Vec<
    (String, String),
>)
    ensures
        is_merge(pair_views(r@), pair_views(form@), pair_views(query@)),
{
    let mut out: Vec<(String, String)> = Vec::new();
    add_missing(&mut out, query);
    let ghost q = pair_views(out@);
    add_missing(&mut out, form);
    proof {
        assert forall|k: Seq<char>| #[trigger]
            field_value(pair_views(out@), k) == if field_value(pair_views(query@), k) is Some {
                field_value(pair_views(query@), k)
            } else {
                field_value(pair_views(form@), k)
            } by {
            assert(field_value(q, k) == field_value(pair_views(query@), k));
        }
    }
    out
}

/// The parameters that a query gives: each name once, with its last value.
pub fn query_params(query: &str) -> (r: Params)
    ensures
        is_merge(r@, seq![], form_fields(encode_utf8(query@))),
{
    let none: Vec<(String, String)> = Vec::new();
    assert(pair_views(none@) =~= seq![]);
    let fields = form_parse(query.as_bytes());
    Params { fields: merge_fields(&none, &fields) }
}

/// The path and query of a request whose form body was merged into its query.
pub fn merge_post_form_params(path: &str, query: &str, body: &[u8]) -> (r: String)
    ensures
        exists|merged: Seq<(Seq<char>, Seq<char>)>| #[trigger]
            is_merge(merged, form_fields(body@), form_fields(encode_utf8(query@))) && r@ == path@
                + seq!['?'] + form_text(merged) && form_fields(encode_utf8(form_text(merged)))
                == merged,
{
    let form = form_parse(body);
    let existing = form_parse(query.as_bytes());
    let merged = merge_fields(&form, &existing);
    let new_query = form_serialize(&merged);
    let mut uri = path.to_owned();
    uri.push('?');
    uri.append(new_query.as_str());
    assert(uri@ =~= path@ + seq!['?'] + form_text(pair_views(merged@)));
    uri
}

/// A content type that says that the body is a form.
pub fn is_form_content(content_type: &str) -> (r: bool)
    ensures
        r == crate::strs::has_prefix(content_type@, "application/x-www-form-urlencoded"@),
{
    crate::strs::starts_with(content_type, "application/x-www-form-urlencoded")
}

/// A parameter that the query gives keeps its value, whatever the form says.
pub proof fn query_overrides_form(
    merged: Seq<(Seq<char>, Seq<char>)>,
    form: Seq<(Seq<char>, Seq<char>)>,
    query: Seq<(Seq<char>, Seq<char>)>,
    key: Seq<char>,
)
    requires
        is_merge(merged, form, query),
    ensures
        field_value(query, key) is Some ==> field_value(merged, key) == field_value(query, key),
        field_value(query, key) is None ==> field_value(merged, key) == field_value(form, key),
{
    assert(field_value(merged, key) == field_value(merged, key));
}

proof fn lemma_found_field(fields: Seq<(Seq<char>, Seq<char>)>, key: Seq<char>, i: int)
    requires
        0 <= i < fields.len(),
        fields[i].0 == key,
        forall|j: int| i < j < fields.len() ==> (#[trigger] fields[j]).0 != key,
    ensures
        field_value(fields, key) == Some(fields[i].1),
    decreases fields.len(),
{
    if i < fields.len() - 1 {
        assert(fields[fields.len() - 1].0 != key);
        let d = fields.drop_last();
        assert forall|j: int| i < j < d.len() implies (#[trigger] d[j]).0 != key by {
            assert(fields[j].0 != key);
        }
        lemma_found_field(d, key, i);
    }
}

proof fn lemma_missing_field(fields: Seq<(Seq<char>, Seq<char>)>, key: Seq<char>)
    requires
        forall|j: int| 0 <= j < fields.len() ==> (#[trigger] fields[j]).0 != key,
    ensures
        field_value(fields, key) is None,
    decreases fields.len(),
{
    if fields.len() > 0 {
        assert(fields[fields.len() - 1].0 != key);
        let d = fields.drop_last();
        assert forall|j: int| 0 <= j < d.len() implies (#[trigger] d[j]).0 != key by {
            assert(fields[j].0 != key);
        }
        lemma_missing_field(d, key);
    }
}

/// A parameter has the value of the last field that bears its name; where no
/// field does, it has the default, as text and as a number.
pub proof fn parameters_are_read_by_name(
    fields: Seq<(Seq<char>, Seq<char>)>,
    key: Seq<char>,
    i: int,
    default: Seq<char>,
    number: nat,
    max: nat,
)
    ensures
        0 <= i < fields.len() && fields[i].0 == key && (forall|j: int|
            i < j < fields.len() ==> (#[trigger] fields[j]).0 != key) ==> {
            &&& field_value(fields, key) == Some(fields[i].1)
            &&& value_or(fields, key, default) == fields[i].1
        },
        (forall|j: int| 0 <= j < fields.len() ==> (#[trigger] fields[j]).0 != key) ==> {
            &&& field_value(fields, key) is None
            &&& value_or(fields, key, default) == default
            &&& number_or(fields, key, number, max) == number
        },
{
    if 0 <= i < fields.len() && fields[i].0 == key && (forall|j: int|
        i < j < fields.len() ==> (#[trigger] fields[j]).0 != key) {
        lemma_found_field(fields, key, i);
    }
    if forall|j: int| 0 <= j < fields.len() ==> (#[trigger] fields[j]).0 != key {
        lemma_missing_field(fields, key);
    }
}

/// A number is read as it was written in decimal; one that is too large is read
/// as the default.
pub proof fn numbers_are_read_as_written(
    fields: Seq<(Seq<char>, Seq<char>)>,
    key: Seq<char>,
    n: nat,
    default: nat,
    max: nat,
)
    requires
        field_value(fields, key) == Some(decimal(n)),
    ensures
        number_or(fields, key, default, max) == if n <= max {
            n
        } else {
            default
        },
{
    decimal_read_back(n);
}

/// A parameter that a request has is handed on with its name and value behind
/// what is handed on already; one that it lacks is not.
pub proof fn given_parameters_are_passed_on(
    list: Seq<(Seq<char>, Seq<char>)>,
    fields: Seq<(Seq<char>, Seq<char>)>,
    key: Seq<char>,
)
    ensures
        field_value(fields, key) is None ==> passed_on(list, fields, key) == list,
        field_value(fields, key) matches Some(v) ==> {
            &&& passed_on(list, fields, key).len() == list.len() + 1
            &&& passed_on(list, fields, key).take(list.len() as int) == list
            &&& field_value(passed_on(list, fields, key), key) == Some(v)
        },
{
}

/// Answers are XML unless the parameter `f` asks for "json" or "jsonp"; in
/// "jsonp" the parameter `callback` names the function, which is else "callback".
pub proof fn format_is_what_f_asks_for(fields: Seq<(Seq<char>, Seq<char>)>, name: Seq<char>)
    ensures
        field_value(fields, "f"@) is None ==> wanted_format(fields) == ResponseFormatView::Xml,
        field_value(fields, "f"@) == Some("json"@) ==> wanted_format(fields)
            == ResponseFormatView::Json,
        field_value(fields, "f"@) == Some("jsonp"@) && field_value(fields, "callback"@) == Some(name)
            ==> wanted_format(fields) == ResponseFormatView::Jsonp(name),
        field_value(fields, "f"@) == Some("jsonp"@) && field_value(fields, "callback"@) is None
            ==> wanted_format(fields) == ResponseFormatView::Jsonp("callback"@),
        field_value(fields, "f"@) == Some(name) && name != "json"@ && name != "jsonp"@
            ==> wanted_format(fields) == ResponseFormatView::Xml,
{
    reveal_strlit("json");
    reveal_strlit("jsonp");
    assert("json"@.len() != "jsonp"@.len());
}

} // verus!
