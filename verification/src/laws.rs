//! Laws relating the parser, the router and the formatter: the exact frames
//! of the fixed routes, the reflected payloads of the echo and header routes,
//! and the indifference of a not-found frame to its headers and body.

use crate::headers::{insert_pair, lemma_key_index_props, lookup};
use crate::request::{header_of_line, headers_of_list, parse_header_lines, spec_parse};
use crate::response::{body_view, frame_of, header_line, join_headers, spec_format, Response, Status};
use crate::router::{echo_payload, file_name, is_payload_response, route_ok, RouteAction};
use crate::text::{
    contains_at, dec_chars, lemma_contains_at_first_char, lemma_find_first, lemma_rfind_last,
    lemma_split_len2, lemma_split_no_sep, lemma_split_prefix, split, starts_with,
};
use vstd::prelude::*;

verus! {

/// Law: a not-found response renders exactly as the fixed minimal frame,
/// whatever headers or body it carries.
pub proof fn lemma_not_found_frame(r: Response)
    requires
        r.status is NotFound404,
    ensures
        frame_of(r) == ("HTTP/1.1 404 NOT FOUND\r\n\r\n")@,
{
}

/// Law: a not-found response's headers and body never reach its frame: it
/// renders as if it had none.
pub proof fn lemma_not_found_ignores_parts(
    headers: Seq<(Seq<char>, Seq<char>)>,
    body: Option<Seq<char>>,
)
    ensures
        spec_format(Status::NotFound404, headers, body) == spec_format(
            Status::NotFound404,
            Seq::empty(),
            None,
        ),
{
}

/// Law: the root probe's response renders exactly as the bare Ok200 frame.
pub proof fn lemma_root_frame(
    headers: Seq<(Seq<char>, Seq<char>)>,
    root_configured: bool,
    a: RouteAction,
)
    requires
        route_ok(("/")@, headers, root_configured, a),
    ensures
        match a {
            RouteAction::Respond(r) => frame_of(r) == ("HTTP/1.1 200 OK\r\n\r\n")@,
            _ => false,
        },
{
    reveal_strlit("HTTP/1.1 200 OK\r\n");
    reveal_strlit("HTTP/1.1 200 OK\r\n\r\n");
    reveal_strlit("\r\n");
    match a {
        RouteAction::Respond(r) => {
            assert(frame_of(r) =~= ("HTTP/1.1 200 OK\r\n\r\n")@);
        },
        _ => {
        },
    }
}

/// Law: an unrecognized path answers exactly the fixed not-found frame,
/// whatever the headers carried.
pub proof fn lemma_unrecognized_frame(
    path: Seq<char>,
    headers: Seq<(Seq<char>, Seq<char>)>,
    root_configured: bool,
    a: RouteAction,
)
    requires
        path != ("/")@,
        !starts_with(path, ("/echo")@),
        !starts_with(path, ("/user-agent")@),
        !starts_with(path, ("/files/")@),
        route_ok(path, headers, root_configured, a),
    ensures
        match a {
            RouteAction::Respond(r) => frame_of(r) == ("HTTP/1.1 404 NOT FOUND\r\n\r\n")@,
            _ => false,
        },
{
}

/// In a payload response's headers, `Content-Type` and `Content-Length` are
/// found with their stated values.
pub proof fn lemma_payload_header_lookup(r: Response, ct: Seq<char>, body: Seq<char>)
    requires
        is_payload_response(r, ct, body),
    ensures
        lookup(r.headers@, ("Content-Type")@) == Some(ct),
        lookup(r.headers@, ("Content-Length")@) == Some(dec_chars(body.len() as int)),
{
    reveal_strlit("Content-Type");
    reveal_strlit("Content-Length");
    assert(("Content-Type")@.len() == 12);
    assert(("Content-Length")@.len() == 14);
    lemma_key_index_props(r.headers@, ("Content-Type")@);
    lemma_key_index_props(r.headers@, ("Content-Length")@);
}

/// Law: for any payload `s`, a path made of `"/echo/"` followed by `s`, in
/// which the separator does not occur a second time, answers Ok200 with
/// body `s`, content type `text/plain`, and a `Content-Length` of `s`'s
/// length.
pub proof fn lemma_echo_response(
    s: Seq<char>,
    headers: Seq<(Seq<char>, Seq<char>)>,
    root_configured: bool,
    a: RouteAction,
)
    requires
        forall|j: int| 0 < j ==> !contains_at(("/echo/")@ + s, ("/echo/")@, j),
        route_ok(("/echo/")@ + s, headers, root_configured, a),
    ensures
        match a {
            RouteAction::Respond(r) => {
                &&& r.status is Ok200
                &&& body_view(r.body) == Some(s)
                &&& lookup(r.headers@, ("Content-Type")@) == Some(("text/plain")@)
                &&& lookup(r.headers@, ("Content-Length")@) == Some(dec_chars(s.len() as int))
            },
            _ => false,
        },
{
    let path = ("/echo/")@ + s;
    reveal_strlit("/echo/");
    reveal_strlit("/echo");
    reveal_strlit("/");
    assert(path != ("/")@) by {
        assert(path.len() == 6 + s.len());
        assert(("/")@.len() == 1);
    }
    assert(path.subrange(0, 5) =~= ("/echo")@);
    assert(starts_with(path, ("/echo")@));
    assert(path.subrange(0, 6) =~= ("/echo/")@);
    assert(contains_at(path, ("/echo/")@, 0));
    lemma_rfind_last(path, ("/echo/")@, 0);
    assert(echo_payload(path) =~= s);
    match a {
        RouteAction::Respond(r) => {
            lemma_payload_header_lookup(r, ("text/plain")@, echo_payload(path));
        },
        _ => {
        },
    }
}

/// Law: a request whose path begins with `"/user-agent"` and whose headers
/// hold `User-Agent: x` answers Ok200 with body `x`, content type
/// `text/plain`, and a `Content-Length` of `x`'s length.
pub proof fn lemma_user_agent_response(
    path: Seq<char>,
    headers: Seq<(Seq<char>, Seq<char>)>,
    x: Seq<char>,
    root_configured: bool,
    a: RouteAction,
)
    requires
        starts_with(path, ("/user-agent")@),
        lookup(headers, ("User-Agent")@) == Some(x),
        route_ok(path, headers, root_configured, a),
    ensures
        match a {
            RouteAction::Respond(r) => {
                &&& r.status is Ok200
                &&& body_view(r.body) == Some(x)
                &&& lookup(r.headers@, ("Content-Type")@) == Some(("text/plain")@)
                &&& lookup(r.headers@, ("Content-Length")@) == Some(dec_chars(x.len() as int))
            },
            _ => false,
        },
{
    reveal_strlit("/user-agent");
    reveal_strlit("/echo");
    reveal_strlit("/");
    assert(path[1] == ("/user-agent")@[1]) by {
        assert(path.subrange(0, 11)[1] == path[1]);
    }
    assert(!starts_with(path, ("/echo")@)) by {
        if starts_with(path, ("/echo")@) {
            assert(path.subrange(0, 5)[1] == path[1]);
        }
    }
    assert(path != ("/")@);
    match a {
        RouteAction::Respond(r) => {
            lemma_payload_header_lookup(r, ("text/plain")@, x);
        },
        _ => {
        },
    }
}

/// Law: for a path made of `"/files/"` followed by `f`, where the separator
/// does not occur in `f`, the filename handed to the filesystem is exactly
/// `f`.
pub proof fn lemma_file_name(f: Seq<char>)
    requires
        forall|j: int| !contains_at(f, ("/files/")@, j),
    ensures
        file_name(("/files/")@ + f) == f,
{
    reveal_strlit("/files/");
    let p = ("/files/")@;
    let path = p + f;
    assert(Seq::<char>::empty() + p + f =~= path);
    lemma_split_prefix(Seq::empty(), p, f);
    lemma_split_no_sep(f, p);
}

/// Law: format an Ok200 response holding one header and no body; parse the
/// frame; format an Ok200 response holding the parsed headers and no body:
/// the same frame comes back, byte for byte. The header's name must not
/// hold the `": "` separator, and neither its name nor its value a CRLF.
pub proof fn lemma_format_parse_format(name: Seq<char>, value: Seq<char>)
    requires
        forall|j: int| !contains_at(name, ("\r\n")@, j),
        forall|j: int| !contains_at(value, ("\r\n")@, j),
        forall|j: int| !contains_at(name, (": ")@, j),
    ensures
        ({
            let frame = spec_format(Status::Ok200, seq![(name, value)], None);
            match spec_parse(frame) {
                Some(t) => t.2 == seq![(name, value)] && spec_format(
                    Status::Ok200,
                    headers_of_list(t.2),
                    None,
                ) == frame,
                None => false,
            }
        }),
{
    reveal_strlit("HTTP/1.1 200 OK\r\n");
    reveal_strlit("HTTP/1.1 200 OK");
    reveal_strlit("\r\n");
    reveal_strlit(": ");
    reveal_strlit(" ");
    let crlf = ("\r\n")@;
    let sep = (": ")@;
    let l0 = ("HTTP/1.1 200 OK")@;
    let line = name + sep + value;
    let nl = name.len() as int;
    let hs = seq![(name, value)];
    let frame = spec_format(Status::Ok200, hs, None);
    let e = Seq::<char>::empty();

    // The frame's shape: status line, the one header line, a blank line,
    // and the terminating CRLF.
    assert(join_headers(hs) == header_line((name, value)));
    let r1 = line + (crlf + crlf);
    assert(frame =~= l0 + crlf + r1);

    // The first CRLF ends the status line: no occurrence begins inside it.
    assert forall|j: int| 0 <= j < 15 implies !contains_at(l0 + crlf + r1, crlf, j) by {
        if contains_at(l0 + crlf + r1, crlf, j) {
            lemma_contains_at_first_char(l0 + crlf + r1, crlf, j);
            assert((l0 + crlf + r1)[j] == l0[j]);
            assert(l0[j] != '\r');
        }
    }
    assert(l0.len() == 15);
    lemma_split_prefix(l0, crlf, r1);

    // The second CRLF ends the header line: no occurrence begins inside it.
    let t = line + crlf + crlf;
    assert(r1 =~= t);
    assert forall|j: int| 0 <= j < line.len() implies !contains_at(t, crlf, j) by {
        if contains_at(t, crlf, j) {
            assert(t.subrange(j, j + 2)[0] == t[j]);
            assert(t.subrange(j, j + 2)[1] == t[j + 1]);
            assert(t[j] == '\r' && t[j + 1] == '\n');
            assert(t[j] == line[j]);
            if j + 1 < nl {
                assert(line[j] == name[j] && line[j + 1] == name[j + 1]);
                assert(name.subrange(j, j + 2) =~= crlf);
                assert(contains_at(name, crlf, j));
            } else if j < nl {
                assert(t[j + 1] == line[j + 1]);
                assert(line[j + 1] == sep[0]);
            } else if j == nl {
                assert(line[j] == sep[0]);
            } else if j == nl + 1 {
                assert(line[j] == sep[1]);
            } else if j + 1 < line.len() {
                let k = j - nl - 2;
                assert(line[j] == value[k] && line[j + 1] == value[k + 1]);
                assert(value.subrange(k, k + 2) =~= crlf);
                assert(contains_at(value, crlf, k));
            } else {
                assert(t[j + 1] == crlf[0]);
            }
        }
    }
    lemma_split_prefix(line, crlf, crlf);

    // The remainder, one bare CRLF, splits into two empty pieces.
    assert(crlf.subrange(0, 2) =~= crlf);
    assert(contains_at(crlf, crlf, 0));
    lemma_find_first(crlf, crlf, 0);
    assert(crlf.subrange(0, 0) =~= e);
    assert(crlf.skip(2) =~= e);
    assert(split(e, crlf) == seq![e]);
    assert(split(crlf, crlf) == seq![crlf.subrange(0, 0)] + split(crlf.skip(2), crlf));

    let lines = split(frame, crlf);
    assert(lines =~= seq![l0, line, e, e]);

    // The status line splits on spaces into at least two tokens.
    assert(l0.subrange(8, 9) =~= (" ")@);
    assert(contains_at(l0, (" ")@, 8));
    lemma_split_len2(l0, (" ")@, 8);
    assert(lines[0] == l0);
    assert(split(l0, (" ")@).len() >= 2);

    // The header line parses back to the one header.
    assert(line.subrange(nl, nl + 2) =~= sep);
    assert(contains_at(line, sep, nl));
    assert forall|j: int| 0 <= j < nl implies !contains_at(line, sep, j) by {
        if contains_at(line, sep, j) {
            assert(line.subrange(j, j + 2)[0] == line[j]);
            assert(line.subrange(j, j + 2)[1] == line[j + 1]);
            if j + 1 < nl {
                assert(line[j] == name[j] && line[j + 1] == name[j + 1]);
                assert(name.subrange(j, j + 2) =~= sep);
                assert(contains_at(name, sep, j));
            } else {
                assert(line[j + 1] == sep[0]);
            }
        }
    }
    lemma_find_first(line, sep, nl);
    assert(header_of_line(line) == Some((line.subrange(0, nl), line.skip(nl + 2))));
    assert(line.subrange(0, nl) =~= name);
    assert(line.skip(nl + 2) =~= value);

    let rest_lines = lines.drop_first();
    assert(rest_lines =~= seq![line, e, e]);
    assert(line.len() >= 2);
    assert(rest_lines.drop_first() =~= seq![e, e]);
    assert(parse_header_lines(seq![e, e]) == Seq::<(Seq<char>, Seq<char>)>::empty());
    assert(parse_header_lines(rest_lines) =~= seq![(name, value)]);

    // Rebuilding the header map from the one parsed header gives it back.
    let hl = seq![(name, value)];
    assert(hl.drop_last() =~= Seq::<(Seq<char>, Seq<char>)>::empty());
    assert(hl.last() == (name, value));
    assert(headers_of_list(Seq::<(Seq<char>, Seq<char>)>::empty()) == Seq::<(
        Seq<char>,
        Seq<char>,
    )>::empty());
    assert(headers_of_list(hl) == insert_pair(
        Seq::<(Seq<char>, Seq<char>)>::empty(),
        name,
        value,
    ));
    assert(insert_pair(Seq::<(Seq<char>, Seq<char>)>::empty(), name, value) =~= hl);

    match spec_parse(frame) {
        Some(parsed) => {
            assert(parsed.2 == parse_header_lines(rest_lines));
        },
        None => {
            assert(false);
        },
    }
}

} // verus!
