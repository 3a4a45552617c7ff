//! The response: a status, a header map and an optional body, and the exact
//! wire frame each response renders to. A not-found response always renders
//! as the fixed minimal frame, whatever headers or body it carries.

use crate::headers::{insert_pair, HeaderMap};
use vstd::prelude::*;

verus! {

/// The statuses any route in scope produces.
#[derive(Clone, Copy, PartialEq, Eq, Structural, Debug)]
pub enum Status {
    Ok200,
    NotFound404,
}

/// The view of an optional body.
pub open spec fn body_view(b: Option<String>) -> Option<Seq<char>> {
    match b {
        Some(s) => Some(s@),
        None => None,
    }
}

/// One header rendered on the wire: `Name: Value`.
pub open spec fn header_line(h: (Seq<char>, Seq<char>)) -> Seq<char> {
    h.0 + (": ")@ + h.1
}

/// The headers rendered in order, joined by CRLF.
pub open spec fn join_headers(hs: Seq<(Seq<char>, Seq<char>)>) -> Seq<char>
    decreases hs.len(),
{
    if hs.len() == 0 {
        Seq::empty()
    } else if hs.len() == 1 {
        header_line(hs[0])
    } else {
        header_line(hs[0]) + ("\r\n")@ + join_headers(hs.drop_first())
    }
}

/// Appending one header extends the joined rendering at its end.
pub proof fn lemma_join_headers_push(hs: Seq<(Seq<char>, Seq<char>)>, h: (Seq<char>, Seq<char>))
    ensures
        join_headers(hs.push(h)) == (if hs.len() == 0 {
            header_line(h)
        } else {
            join_headers(hs) + ("\r\n")@ + header_line(h)
        }),
    decreases hs.len(),
{
    if hs.len() == 0 {
        assert(hs.push(h) =~= seq![h]);
    } else {
        lemma_join_headers_push(hs.drop_first(), h);
        assert(hs.push(h).drop_first() =~= hs.drop_first().push(h));
        assert(hs.push(h)[0] == hs[0]);
        if hs.len() == 1 {
            assert(join_headers(hs.push(h)) =~= join_headers(hs) + ("\r\n")@ + header_line(h));
        } else {
            assert(join_headers(hs.push(h)) =~= join_headers(hs) + ("\r\n")@ + header_line(h));
        }
    }
}

/// The exact frame written for a response: the fixed minimal frame for a
/// not-found status; otherwise the status line, the joined headers (with a
/// trailing CRLF, only when there is at least one), the body framed by CRLF
/// on both sides (only when present), and one terminating CRLF.
pub open spec fn spec_format(
    status: Status,
    headers: Seq<(Seq<char>, Seq<char>)>,
    body: Option<Seq<char>>,
) -> Seq<char> {
    if status is NotFound404 {
        ("HTTP/1.1 404 NOT FOUND\r\n\r\n")@
    } else {
        ("HTTP/1.1 200 OK\r\n")@ + (if headers.len() > 0 {
            join_headers(headers) + ("\r\n")@
        } else {
            Seq::<char>::empty()
        }) + (match body {
            Some(b) => ("\r\n")@ + b + ("\r\n")@,
            None => Seq::<char>::empty(),
        }) + ("\r\n")@
    }
}

/// A response: status, headers and optional body.
pub struct Response {
    pub status: Status,
    pub headers: HeaderMap,
    pub body: Option<String>,
}

/// The frame a response renders to.
pub open spec fn frame_of(r: Response) -> Seq<char> {
    spec_format(r.status, r.headers@, body_view(r.body))
}

impl Response {
    /// A response made of the given parts.
    pub fn new(status: Status, body: Option<String>, headers: HeaderMap) -> (r: Response)
        ensures
            r.status == status,
            r.body == body,
            r.headers == headers,
    {
        Response { status, body, headers }
    }

    /// Stores `value` under `key` in the response's headers, replacing any
    /// earlier value for that name.
    pub fn add_header(&mut self, key: String, value: String)
        ensures
            final (self).status == old(self).status,
            final (self).body == old(self).body,
            final (self).headers@ == insert_pair(old(self).headers@, key@, value@),
            old(self).headers.wf() ==> final (self).headers.wf(),
    {
        self.headers.insert(key, value);
    }

    /// Renders the response as its exact wire frame.
    pub fn format(&self) -> (r: String)
        ensures
            r@ == spec_format(self.status, self.headers@, body_view(self.body)),
    {
        match self.status {
            Status::NotFound404 => String::from_str("HTTP/1.1 404 NOT FOUND\r\n\r\n"),
            Status::Ok200 => {
                let ghost status_line = ("HTTP/1.1 200 OK\r\n")@;
                let mut r = String::from_str("HTTP/1.1 200 OK\r\n");
                let n = self.headers.len();
                if n > 0 {
                    let mut i: usize = 0;
                    while i < n
                        invariant
                            n == self.headers@.len(),
                            0 < n,
                            i <= n,
                            r@ == status_line + join_headers(self.headers@.take(i as int)),
                        decreases n - i,
                    {
                        if i > 0 {
                            r.append("\r\n");
                        }
                        r.append(self.headers.name_at(i).as_str());
                        r.append(": ");
                        r.append(self.headers.value_at(i).as_str());
                        proof {
                            lemma_join_headers_push(
                                self.headers@.take(i as int),
                                self.headers@[i as int],
                            );
                            assert(self.headers@.take(i as int).push(self.headers@[i as int])
                                =~= self.headers@.take(i + 1));
                            assert(r@ =~= status_line + join_headers(self.headers@.take(i + 1)));
                        }
                        i += 1;
                    }
                    proof {
                        assert(self.headers@.take(n as int) =~= self.headers@);
                    }
                    r.append("\r\n");
                }
                let ghost with_headers = r@;
                proof {
                    assert(with_headers =~= status_line + (if self.headers@.len() > 0 {
                        join_headers(self.headers@) + ("\r\n")@
                    } else {
                        Seq::<char>::empty()
                    }));
                }
                match &self.body {
                    Some(b) => {
                        r.append("\r\n");
                        r.append(b.as_str());
                        r.append("\r\n");
                    },
                    None => {},
                }
                let ghost with_body = r@;
                proof {
                    assert(with_body =~= with_headers + (match body_view(self.body) {
                        Some(b) => ("\r\n")@ + b + ("\r\n")@,
                        None => Seq::<char>::empty(),
                    }));
                }
                r.append("\r\n");
                proof {
                    assert(r@ =~= spec_format(self.status, self.headers@, body_view(self.body)));
                }
                r
            },
        }
    }
}

} // verus!
