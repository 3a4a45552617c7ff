//! The router: a flat decision list over the request path, first match wins.
//! The root probe answers an empty Ok200; the echo route reflects the path
//! payload; the reflection route reflects the `User-Agent` header; the file
//! route asks for a file under the configured root; everything else is
//! not-found. Lookup failures answer not-found instead of dropping the
//! connection, except the file route with no configured root, which by
//! design writes nothing.

use crate::headers::{lemma_key_index_props, lookup, HeaderMap};
use crate::request::{headers_of_list, spec_parse, Request};
use crate::response::{body_view, Response, Status};
use crate::text::{
    dec_chars, dec_string, lemma_find_first, lemma_rfind_from_props, lemma_split_len, rfind,
    rfind_sub, split, split_str, starts_with, starts_with_str, str_eq,
};
use vstd::prelude::*;

verus! {

/// What the router decides for one request: write a response; read the
/// named file under the configured root and answer from what was read; or
/// write nothing at all.
pub enum RouteAction {
    Respond(Response),
    ReadFile(String),
    NoResponse,
}

/// The echo payload of a path: what follows the last occurrence of
/// `"/echo/"`, or empty when the path holds no such occurrence (the
/// documented fallback for a bare `/echo` prefix).
pub open spec fn echo_payload(path: Seq<char>) -> Seq<char> {
    match rfind(path, ("/echo/")@) {
        Some(i) => path.skip(i + ("/echo/")@.len() as int),
        None => Seq::empty(),
    }
}

/// The filename of a file-route path: the piece of the path's split on
/// `"/files/"` at index 1, that is, what stands between the first
/// occurrence of the separator and the next one (or the path's end).
pub open spec fn file_name(path: Seq<char>) -> Seq<char> {
    split(path, ("/files/")@)[1]
}

/// An Ok200 response carrying `body`, with `Content-Type: ct` and a
/// `Content-Length` of the body's length, in that order and nothing else.
pub open spec fn is_payload_response(r: Response, ct: Seq<char>, body: Seq<char>) -> bool {
    &&& r.status is Ok200
    &&& r.headers@ == seq![
        (("Content-Type")@, ct),
        (("Content-Length")@, dec_chars(body.len() as int)),
    ]
    &&& r.headers.wf()
    &&& body_view(r.body) == Some(body)
}

/// A not-found response with no headers and no body.
pub open spec fn is_not_found_response(r: Response) -> bool {
    &&& r.status is NotFound404
    &&& r.headers@ == Seq::<(Seq<char>, Seq<char>)>::empty()
    &&& r.headers.wf()
    &&& r.body is None
}

/// An Ok200 response with no headers and no body.
pub open spec fn is_empty_ok_response(r: Response) -> bool {
    &&& r.status is Ok200
    &&& r.headers@ == Seq::<(Seq<char>, Seq<char>)>::empty()
    &&& r.headers.wf()
    &&& r.body is None
}

/// What the router decides for a request with the given path and headers,
/// in precedence order: the root probe, the echo route, the reflection
/// route, the file route, and otherwise not-found. A reflection request
/// without its `User-Agent` header answers not-found; the file route with
/// no configured root answers nothing.
pub open spec fn route_ok(
    path: Seq<char>,
    headers: Seq<(Seq<char>, Seq<char>)>,
    root_configured: bool,
    a: RouteAction,
) -> bool {
    if path == ("/")@ {
        match a {
            RouteAction::Respond(r) => is_empty_ok_response(r),
            _ => false,
        }
    } else if starts_with(path, ("/echo")@) {
        match a {
            RouteAction::Respond(r) => is_payload_response(
                r,
                ("text/plain")@,
                echo_payload(path),
            ),
            _ => false,
        }
    } else if starts_with(path, ("/user-agent")@) {
        match a {
            RouteAction::Respond(r) => match lookup(headers, ("User-Agent")@) {
                Some(v) => is_payload_response(r, ("text/plain")@, v),
                None => is_not_found_response(r),
            },
            _ => false,
        }
    } else if starts_with(path, ("/files/")@) {
        if root_configured {
            match a {
                RouteAction::ReadFile(f) => f@ == file_name(path),
                _ => false,
            }
        } else {
            a is NoResponse
        }
    } else {
        match a {
            RouteAction::Respond(r) => is_not_found_response(r),
            _ => false,
        }
    }
}

/// The not-found response: no headers, no body.
pub fn not_found_response() -> (r: Response)
    ensures
        is_not_found_response(r),
{
    Response::new(Status::NotFound404, None, HeaderMap::new())
}

/// An Ok200 response carrying `body` under content type `ct`, with the
/// body's length as `Content-Length`.
fn payload_response(ct: &str, body: String) -> (r: Response)
    ensures
        is_payload_response(r, ct@, body@),
{
    let len = body.as_str().unicode_len();
    let mut headers = HeaderMap::new();
    headers.insert(String::from_str("Content-Type"), String::from_str(ct));
    proof {
        assert(headers@ =~= seq![(("Content-Type")@, ct@)]);
    }
    headers.insert(String::from_str("Content-Length"), dec_string(len));
    proof {
        reveal_strlit("Content-Type");
        reveal_strlit("Content-Length");
        lemma_key_index_props(seq![(("Content-Type")@, ct@)], ("Content-Length")@);
        assert(("Content-Type")@.len() == 12);
        assert(("Content-Length")@.len() == 14);
        assert(("Content-Type")@ != ("Content-Length")@);
        assert(headers@ =~~= seq![
            (("Content-Type")@, ct@),
            (("Content-Length")@, dec_chars(len as int)),
        ]);
    }
    Response::new(Status::Ok200, Some(body), headers)
}

/// Routes a parsed request, first matching route winning.
pub fn route(req: &Request, root_configured: bool) -> (a: RouteAction)
    ensures
        route_ok(req.path@, req.headers@, root_configured, a),
{
    if str_eq(req.path.as_str(), "/") {
        RouteAction::Respond(Response::new(Status::Ok200, None, HeaderMap::new()))
    } else if starts_with_str(req.path.as_str(), "/echo") {
        let n = req.path.as_str().unicode_len();
        let payload: String = match rfind_sub(req.path.as_str(), "/echo/") {
            Some(i) => {
                proof {
                    lemma_rfind_from_props(
                        req.path@,
                        ("/echo/")@,
                        req.path@.len() - ("/echo/")@.len(),
                    );
                }
                let seplen = "/echo/".unicode_len();
                let p = req.path.as_str().substring_char(i + seplen, n).to_owned();
                proof {
                    assert(p@ =~= req.path@.skip(i + ("/echo/")@.len() as int));
                }
                p
            },
            None => String::new(),
        };
        proof {
            assert(payload@ == echo_payload(req.path@));
        }
        RouteAction::Respond(payload_response("text/plain", payload))
    } else if starts_with_str(req.path.as_str(), "/user-agent") {
        match req.headers.get("User-Agent") {
            Some(v) => RouteAction::Respond(payload_response("text/plain", v.clone())),
            None => RouteAction::Respond(not_found_response()),
        }
    } else if starts_with_str(req.path.as_str(), "/files/") {
        if root_configured {
            proof {
                reveal_strlit("/files/");
                lemma_find_first(req.path@, ("/files/")@, 0);
                lemma_split_len(req.path@.skip(("/files/")@.len() as int), ("/files/")@);
                assert(split(req.path@, ("/files/")@).len() >= 2);
            }
            let parts = split_str(req.path.as_str(), "/files/");
            let f = parts[1].clone();
            proof {
                assert(f@ == parts.deep_view()[1]);
            }
            RouteAction::ReadFile(f)
        } else {
            RouteAction::NoResponse
        }
    } else {
        RouteAction::Respond(not_found_response())
    }
}

/// The response for the file route once the filesystem has answered: the
/// contents as an octet-stream body when the file was read, not-found when
/// it was not there.
pub fn file_response(contents: Option<String>) -> (r: Response)
    ensures
        match contents {
            Some(c) => is_payload_response(r, ("application/octet-stream")@, c@),
            None => is_not_found_response(r),
        },
{
    match contents {
        Some(c) => payload_response("application/octet-stream", c),
        None => not_found_response(),
    }
}

/// One whole request/response decision: parse the raw text, then route.
/// A malformed request answers not-found rather than dropping the
/// connection.
pub fn handle(raw_data: String, root_configured: bool) -> (a: RouteAction)
    ensures
        match spec_parse(raw_data@) {
            Some(t) => route_ok(t.1, headers_of_list(t.2), root_configured, a),
            None => match a {
                RouteAction::Respond(r) => is_not_found_response(r),
                _ => false,
            },
        },
{
    match Request::parse_from(raw_data) {
        Ok(req) => route(&req, root_configured),
        Err(_) => RouteAction::Respond(not_found_response()),
    }
}

} // verus!
