//! The inbound command endpoint's decisions: routing, request
//! validation, token verification, and the slash-command reply. The
//! HTTP server outside the library reads the request, hands its parts
//! in as plain values (header fields lowercased), and sends the reply.

use vstd::prelude::*;
use vstd::string::StringExecFns;

use crate::links::{spec_substitute_urls, substitute_urls};
use crate::text::{is_blank, pairs_view, spec_is_blank, str_eq};

verus! {

/// Where a request goes, by its path and method.
#[derive(Clone, Copy, PartialEq, Eq, Structural, Debug)]
pub enum Route {
    Home,
    NitCommand,
    Stylesheet,
    NotFound,
}

pub open spec fn spec_route(url: Seq<char>, is_post: bool) -> Route {
    if url == "/"@ {
        Route::Home
    } else if url == "/nit"@ {
        if is_post {
            Route::NitCommand
        } else {
            Route::NotFound
        }
    } else if url == "/style.css"@ {
        Route::Stylesheet
    } else {
        Route::NotFound
    }
}

/// Route a request by its path; the command endpoint takes POST alone.
pub fn route(url: &str, is_post: bool) -> (r: Route)
    ensures
        r == spec_route(url@, is_post),
{
    if str_eq(url, "/") {
        Route::Home
    } else if str_eq(url, "/nit") {
        if is_post {
            Route::NitCommand
        } else {
            Route::NotFound
        }
    } else if str_eq(url, "/style.css") {
        Route::Stylesheet
    } else {
        Route::NotFound
    }
}

/// The Authorization value expected for a configured token.
pub fn mattermost_token(token: &str) -> (r: String)
    ensures
        r@ == "Token "@ + token@,
{
    String::from_str("Token ").concat(token)
}

/// Exact comparison of the presented token against the expected one.
pub fn verify_token(expected: &str, provided: &str) -> (r: bool)
    ensures
        r == (expected@ == provided@),
{
    str_eq(expected, provided)
}

/// The value of the first pair with the given key, if any.
pub open spec fn pair_lookup(ps: Seq<(Seq<char>, Seq<char>)>, key: Seq<char>) -> Option<Seq<char>>
    decreases ps.len(),
{
    if ps.len() == 0 {
        None
    } else if ps[0].0 == key {
        Some(ps[0].1)
    } else {
        pair_lookup(ps.skip(1), key)
    }
}

/// Find the first pair whose key matches, and hand its value out.
pub fn find_pair(pairs: &Vec<(String, String)>, key: &str) -> (r: Option<String>)
    ensures
        match r {
            Some(v) => pair_lookup(pairs_view(pairs@), key@) == Some(v@),
            None => pair_lookup(pairs_view(pairs@), key@) is None,
        },
{
    let ghost pv = pairs_view(pairs@);
    proof {
        assert(pv.skip(0) =~= pv);
    }
    let mut idx: usize = 0;
    while idx < pairs.len()
        invariant
            0 <= idx <= pairs@.len(),
            pv == pairs_view(pairs@),
            pv.len() == pairs@.len(),
            pair_lookup(pv, key@) == pair_lookup(pv.skip(idx as int), key@),
        decreases pairs@.len() - idx,
    {
        proof {
            assert(pv[idx as int] == (pairs@[idx as int].0@, pairs@[idx as int].1@));
            assert(pv.skip(idx as int)[0] == pv[idx as int]);
        }
        if str_eq(pairs[idx].0.as_str(), key) {
            return Some(pairs[idx].1.clone());
        }
        proof {
            assert(pv.skip(idx as int).skip(1) =~= pv.skip(idx + 1));
        }
        idx += 1;
    }
    proof {
        assert(pv.skip(idx as int).len() == 0);
    }
    None
}

/// The two headers the endpoint requires, or the failure reply for a
/// request that lacks one. Header fields are expected lowercased.
pub fn validate_request(headers: &Vec<(String, String)>) -> (r: Result<
    (String, String),
    (String, u16),
>)
    ensures
        match r {
            Ok(pair) => {
                &&& pair_lookup(pairs_view(headers@), "content-type"@) == Some(pair.0@)
                &&& pair_lookup(pairs_view(headers@), "authorization"@) == Some(pair.1@)
            },
            Err(fail) => fail.1 == 400 && {
                ||| (pair_lookup(pairs_view(headers@), "content-type"@) is None && fail.0@
                    == "Content-Type header not found"@)
                ||| (pair_lookup(pairs_view(headers@), "content-type"@) is Some && pair_lookup(
                    pairs_view(headers@),
                    "authorization"@,
                ) is None && fail.0@ == "Authorization header not found"@)
            },
        },
{
    let content_type = match find_pair(headers, "content-type") {
        Some(v) => v,
        None => {
            return Err((String::from_str("Content-Type header not found"), 400));
        },
    };
    let authorization = match find_pair(headers, "authorization") {
        Some(v) => v,
        None => {
            return Err((String::from_str("Authorization header not found"), 400));
        },
    };
    Ok((content_type, authorization))
}

/// What the json crate writes for an object with one "error" member.
pub uninterp spec fn json_error_of(message: Seq<char>) -> Seq<char>;

/// Relies on json::stringify_pretty of an object with one "error"
/// member; the output is a function of the message alone.
#[verifier::external_body]
fn json_error_object(message: &str) -> (r: String)
    ensures
        r@ == json_error_of(message@),
{
    let mut obj = json::object::Object::new();
    obj.insert("error", message.into());
    json::stringify_pretty(json::JsonValue::Object(obj), 2)
}

/// What the json crate writes for a reply with "response_type" and
/// "text" members.
pub uninterp spec fn json_reply_of(response_type: Seq<char>, text: Seq<char>) -> Seq<char>;

/// Relies on json::stringify_pretty of an object with "response_type"
/// and "text" members; the output is a function of the two texts alone.
#[verifier::external_body]
fn json_reply_object(response_type: &str, text: &str) -> (r: String)
    ensures
        r@ == json_reply_of(response_type@, text@),
{
    let mut obj = json::object::Object::new();
    obj.insert("response_type", response_type.into());
    obj.insert("text", text.into());
    json::stringify_pretty(json::JsonValue::Object(obj), 2)
}

/// What the form_urlencoded crate decodes out of a request body: the
/// key/value pairs, in order.
pub uninterp spec fn form_pairs_of(bytes: Seq<u8>) -> Seq<(Seq<char>, Seq<char>)>;

/// Relies on form_urlencoded::parse; the pairs are a function of the
/// bytes alone.
#[verifier::external_body]
fn parse_form(body: &[u8]) -> (r: Vec<(String, String)>)
    ensures
        pairs_view(r@) == form_pairs_of(body@),
{
    form_urlencoded::parse(body).into_owned().collect()
}

/// The slash-command reply: a JSON body and a status code.
pub open spec fn spec_nit_reply(
    hs: Seq<(Seq<char>, Seq<char>)>,
    expected_token: Seq<char>,
    body: Option<Seq<u8>>,
) -> (Seq<char>, int) {
    match pair_lookup(hs, "content-type"@) {
        None => (json_error_of("Content-Type header not found"@), 400int),
        Some(ct) => match pair_lookup(hs, "authorization"@) {
            None => (json_error_of("Authorization header not found"@), 400int),
            Some(auth) => if ct != "application/x-www-form-urlencoded"@ {
                (json_error_of("Bad request"@), 400int)
            } else if auth != expected_token {
                (json_error_of("Not authorised"@), 401int)
            } else {
                match body {
                    None => (json_error_of("Internal server error"@), 500int),
                    Some(bytes) => match pair_lookup(form_pairs_of(bytes), "text"@) {
                        Some(t) => if !spec_is_blank(t) {
                            (json_reply_of("in_channel"@, spec_substitute_urls(t)), 200int)
                        } else {
                            (json_reply_of("ephemeral"@, "You need to supply some text"@), 200int)
                        },
                        None => (
                            json_reply_of("ephemeral"@, "You need to supply some text"@),
                            200int,
                        ),
                    },
                }
            },
        },
    }
}

/// Decide the slash-command reply from the request's headers, the
/// configured token, and the body (`None` when reading it failed).
pub fn nit_slash_command(
    headers: &Vec<(String, String)>,
    expected_token: &str,
    body: Option<&Vec<u8>>,
) -> (r: (String, u16))
    ensures
        ({
            let want = spec_nit_reply(
                pairs_view(headers@),
                expected_token@,
                match body {
                    Some(b) => Some(b@),
                    None => None,
                },
            );
            r.0@ == want.0 && r.1 as int == want.1
        }),
{
    let pair = match validate_request(headers) {
        Ok(pair) => pair,
        Err(fail) => {
            return (json_error_object(fail.0.as_str()), fail.1);
        },
    };
    if !str_eq(pair.0.as_str(), "application/x-www-form-urlencoded") {
        return (json_error_object("Bad request"), 400);
    }
    if !verify_token(expected_token, pair.1.as_str()) {
        return (json_error_object("Not authorised"), 401);
    }
    let bytes = match body {
        Some(b) => b,
        None => {
            return (json_error_object("Internal server error"), 500);
        },
    };
    let pairs = parse_form(bytes.as_slice());
    match find_pair(&pairs, "text") {
        Some(t) => {
            if !is_blank(t.as_str()) {
                let rewritten = substitute_urls(t.as_str());
                (json_reply_object("in_channel", rewritten.as_str()), 200)
            } else {
                (json_reply_object("ephemeral", "You need to supply some text"), 200)
            }
        },
        None => (json_reply_object("ephemeral", "You need to supply some text"), 200),
    }
}

} // verus!
