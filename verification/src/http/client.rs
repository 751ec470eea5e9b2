//! What the API client sends: addresses and headers.
use vstd::prelude::*;

use crate::errors::Error;
use crate::http::request::parameters_view;
use crate::text::{chars_of, owned, push_all};

verus! {

/// The header values that HTTP accepts (the http crate's
/// `HeaderValue::from_str`): no control character but tab, no DEL. Other
/// characters, non-ASCII ones too, are accepted.
pub open spec fn header_value_valid(v: Seq<char>) -> bool {
    forall|i: int|
        0 <= i < v.len() ==> ((#[trigger] v[i] as u32 >= 32 && v[i] as u32 != 127) || v[i] == '\t')
}

pub fn header_value_ok(v: &str) -> (r: bool)
    ensures
        r == header_value_valid(v@),
{
    let cs = chars_of(v);
    let n = cs.len();
    for i in 0..n
        invariant
            n == cs.len(),
            cs@ == v@,
            forall|j: int|
                0 <= j < i ==> ((#[trigger] cs@[j] as u32 >= 32 && cs@[j] as u32 != 127) || cs@[j]
                    == '\t'),
    {
        let c = cs[i];
        if !((c as u32 >= 32 && c as u32 != 127) || c == '\t') {
            return false;
        }
    }
    true
}

pub open spec fn user_agent() -> Seq<char> {
    "Dalvik/2.1.0 (Linux; U; Android 6.0; Samsung Galaxy S7 for keyaki messages Build/MRA58K)"@
}

/// The headers of every request, with the app's id.
pub open spec fn base_headers(app_id: Seq<char>) -> Seq<(Seq<char>, Seq<char>)> {
    seq![
        ("accept"@, "application/json"@),
        ("content-type"@, "application/json"@),
        ("x-talk-app-id"@, app_id),
        ("accept-language"@, "ja-JP"@),
        ("user-agent"@, user_agent()),
        ("connection"@, "Keep-Alive"@),
        ("accept-encoding"@, "gzip"@),
        ("te"@, "gzip, deflate; q=0.5"@),
    ]
}

pub open spec fn bearer(access_token: Seq<char>) -> Seq<char> {
    "Bearer "@ + access_token
}

/// The headers of a request: the common ones, the authorization where there
/// is an access token (GET requests), and a request for dynamic data from a
/// mock server where the answer changes between calls.
pub open spec fn request_headers_spec(app_id: Seq<char>, access_token: Option<Seq<char>>, is_dynamic: bool) -> Seq<(Seq<char>, Seq<char>)> {
    base_headers(app_id) + match access_token {
        Some(t) => seq![("authorization"@, bearer(t))],
        None => Seq::empty(),
    } + if is_dynamic {
        seq![("prefer"@, "dynamic=true"@)]
    } else {
        Seq::empty()
    }
}

pub open spec fn headers_view(v: Seq<(String, String)>) -> Seq<(Seq<char>, Seq<char>)> {
    v.map_values(|kv: (String, String)| (kv.0@, kv.1@))
}

pub open spec fn invalid_header_text() -> Seq<char> {
    "failed to parse header value"@
}

fn push_header(v: &mut Vec<(String, String)>, name: &str, value: String)
    ensures
        headers_view(final(v)@) == headers_view(old(v)@).push((name@, value@)),
{
    let ghost before = headers_view(v@);
    v.push((owned(name), value));
    assert(headers_view(v@) =~= before.push((name@, value@)));
}

/// The headers of a request (see `request_headers_spec`), checked before
/// anything is sent: a value that HTTP refuses is an error.
pub fn request_headers(app_id: &str, access_token: Option<&str>, is_dynamic: bool) -> (r: core::result::Result<Vec<(String, String)>, Error>)
    ensures
        (header_value_valid(app_id@) && (access_token matches Some(t) ==> header_value_valid(bearer(t@))))
            ==> r is Ok && headers_view(r->Ok_0@) == request_headers_spec(
            app_id@,
            match access_token {
                Some(t) => Some(t@),
                None => None,
            },
            is_dynamic,
        ),
        !(header_value_valid(app_id@) && (access_token matches Some(t) ==> header_value_valid(bearer(t@))))
            ==> r is Err && r->Err_0 is InvalidHeaderValue && r->Err_0.text() == invalid_header_text(),
{
    if !header_value_ok(app_id) {
        return Err(Error::InvalidHeaderValue(owned("failed to parse header value")));
    }
    let authorization = match access_token {
        Some(t) => {
            let mut a = owned("Bearer ");
            push_all(&mut a, t);
            if !header_value_ok(a.as_str()) {
                return Err(Error::InvalidHeaderValue(owned("failed to parse header value")));
            }
            Some(a)
        },
        None => None,
    };
    let mut h: Vec<(String, String)> = Vec::new();
    push_header(&mut h, "accept", owned("application/json"));
    push_header(&mut h, "content-type", owned("application/json"));
    push_header(&mut h, "x-talk-app-id", owned(app_id));
    push_header(&mut h, "accept-language", owned("ja-JP"));
    push_header(
        &mut h,
        "user-agent",
        owned("Dalvik/2.1.0 (Linux; U; Android 6.0; Samsung Galaxy S7 for keyaki messages Build/MRA58K)"),
    );
    push_header(&mut h, "connection", owned("Keep-Alive"));
    push_header(&mut h, "accept-encoding", owned("gzip"));
    push_header(&mut h, "te", owned("gzip, deflate; q=0.5"));
    assert(headers_view(h@) =~= base_headers(app_id@));
    match authorization {
        Some(a) => push_header(&mut h, "authorization", a),
        None => {},
    }
    if is_dynamic {
        push_header(&mut h, "prefer", owned("dynamic=true"));
    }
    assert(headers_view(h@) =~= request_headers_spec(
        app_id@,
        match access_token {
            Some(t) => Some(t@),
            None => None,
        },
        is_dynamic,
    ));
    Ok(h)
}

/// What the url crate gives for `Url::parse(base)` and then `join(path)`:
/// the joined address, or the text of the parse error.
pub uninterp spec fn url_join(base: Seq<char>, path: Seq<char>) -> core::result::Result<Seq<char>, Seq<char>>;

/// What the url crate gives for `Url::parse_with_params(url, params)`: the
/// address with the parameters added as its query, or the text of the parse
/// error.
pub uninterp spec fn url_with_params(url: Seq<char>, params: Seq<(Seq<char>, Seq<char>)>) -> core::result::Result<Seq<char>, Seq<char>>;

pub open spec fn result_view(r: core::result::Result<String, String>) -> core::result::Result<Seq<char>, Seq<char>> {
    match r {
        Ok(s) => Ok(s@),
        Err(e) => Err(e@),
    }
}

/// Joins a path to a base address with the url crate (`Url::parse`, then
/// `Url::join`); the result is named by `url_join`.
#[verifier::external_body]
fn join_url(base: &str, path: &str) -> (r: core::result::Result<String, String>)
    ensures
        result_view(r) == url_join(base@, path@),
{
    match url::Url::parse(base) {
        Ok(u) => match u.join(path) {
            Ok(joined) => Ok(joined.to_string()),
            Err(e) => Err(e.to_string()),
        },
        Err(e) => Err(e.to_string()),
    }
}

/// Adds query parameters to an address with the url crate's
/// `Url::parse_with_params`; the result is named by `url_with_params`.
#[verifier::external_body]
fn add_params(url: &str, params: &Vec<(String, String)>) -> (r: core::result::Result<String, String>)
    ensures
        result_view(r) == url_with_params(url@, params@.map_values(|kv: (String, String)| (kv.0@, kv.1@))),
{
    match url::Url::parse_with_params(url, params.iter()) {
        Ok(u) => Ok(u.to_string()),
        Err(e) => Err(e.to_string()),
    }
}

/// The address of a POST request: the path joined to the base address.
pub fn post_url(base: &str, path: &str) -> (r: core::result::Result<String, Error>)
    ensures
        match url_join(base@, path@) {
            Ok(u) => r is Ok && r->Ok_0@ == u,
            Err(e) => r is Err && r->Err_0 is UrlParseError && r->Err_0.text() == e,
        },
{
    match join_url(base, path) {
        Ok(u) => Ok(u),
        Err(e) => Err(Error::UrlParseError(e)),
    }
}

/// The address of a GET request: the path joined to the base address, then
/// the parameters (none where there are none) added as the query.
pub fn get_url(base: &str, path: &str, parameters: &Option<Vec<(String, String)>>) -> (r: core::result::Result<String, Error>)
    ensures
        match url_join(base@, path@) {
            Err(e) => r is Err && r->Err_0 is UrlParseError && r->Err_0.text() == e,
            Ok(u) => match url_with_params(
                u,
                match parameters_view(*parameters) {
                    Some(p) => p,
                    None => Seq::empty(),
                },
            ) {
                Ok(full) => r is Ok && r->Ok_0@ == full,
                Err(e) => r is Err && r->Err_0 is UrlParseError && r->Err_0.text() == e,
            },
        },
{
    let joined = match join_url(base, path) {
        Ok(u) => u,
        Err(e) => return Err(Error::UrlParseError(e)),
    };
    let empty: Vec<(String, String)> = Vec::new();
    let params = match parameters {
        Some(p) => p,
        None => &empty,
    };
    assert(params@.map_values(|kv: (String, String)| (kv.0@, kv.1@)) =~= match parameters_view(*parameters) {
        Some(p) => p,
        None => Seq::empty(),
    });
    match add_params(joined.as_str(), params) {
        Ok(u) => Ok(u),
        Err(e) => Err(Error::UrlParseError(e)),
    }
}

/// The error for an answer that does not decode: what decoding said, the
/// address, and the answer's body.
pub open spec fn decode_error_text(error: Seq<char>, request_url: Seq<char>, body: Seq<char>) -> Seq<char> {
    "error: "@ + error + ", request url: "@ + request_url + ", response body: "@ + body
}

pub fn decode_error(error: &str, request_url: &str, body: &str) -> (r: Error)
    ensures
        r is Msg,
        r.text() == decode_error_text(error@, request_url@, body@),
{
    let mut m = owned("error: ");
    push_all(&mut m, error);
    push_all(&mut m, ", request url: ");
    push_all(&mut m, request_url);
    push_all(&mut m, ", response body: ");
    push_all(&mut m, body);
    assert(m@ =~= decode_error_text(error@, request_url@, body@));
    Error::Msg(m)
}

} // verus!
