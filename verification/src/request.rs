//! The request parser: a raw buffer split on CRLF into lines, the first line
//! split on single spaces into method and path, the following lines read as
//! headers until the first empty line.

use crate::headers::{insert_pair, HeaderMap};
use crate::text::{find, find_sub, lemma_find_from_props, split, split_str};
use vstd::prelude::*;

verus! {

/// Why a raw buffer could not be read as a request.
#[derive(Clone, Copy, PartialEq, Eq, Structural, Debug)]
pub enum HttpError {
    MalformedRequest,
}

/// A parsed request, immutable once built.
pub struct Request {
    pub method: String,
    pub path: String,
    pub headers: HeaderMap,
}

/// The header one line carries, if the line holds the `": "` separator:
/// the name before its first occurrence, the value after it.
pub open spec fn header_of_line(line: Seq<char>) -> Option<(Seq<char>, Seq<char>)> {
    match find(line, (": ")@) {
        None => None,
        Some(i) => Some((line.subrange(0, i), line.skip(i + (": ")@.len() as int))),
    }
}

/// The headers taken in order from the lines after the request line, up to
/// the first empty line; a line without the separator is skipped.
pub open spec fn parse_header_lines(lines: Seq<Seq<char>>) -> Seq<(Seq<char>, Seq<char>)>
    decreases lines.len(),
{
    if lines.len() == 0 {
        Seq::empty()
    } else if lines[0].len() == 0 {
        Seq::empty()
    } else {
        match header_of_line(lines[0]) {
            None => parse_header_lines(lines.drop_first()),
            Some(h) => seq![h] + parse_header_lines(lines.drop_first()),
        }
    }
}

/// The header map built from a list of headers by inserting each in turn:
/// on a duplicated name the later entry wins.
pub open spec fn headers_of_list(l: Seq<(Seq<char>, Seq<char>)>) -> Seq<(Seq<char>, Seq<char>)>
    decreases l.len(),
{
    if l.len() == 0 {
        Seq::empty()
    } else {
        insert_pair(headers_of_list(l.drop_last()), l.last().0, l.last().1)
    }
}

/// What a raw buffer parses to: the first CRLF-delimited line must split on
/// single spaces into at least two tokens, the method and then the path;
/// the lines after it contribute the headers. A first line of fewer than
/// two tokens is a malformed request.
pub open spec fn spec_parse(raw: Seq<char>) -> Option<
    (Seq<char>, Seq<char>, Seq<(Seq<char>, Seq<char>)>),
> {
    let lines = split(raw, ("\r\n")@);
    let tokens = split(lines[0], (" ")@);
    if tokens.len() < 2 {
        None
    } else {
        Some((tokens[0], tokens[1], parse_header_lines(lines.drop_first())))
    }
}

/// `req` is what `raw` parses to.
pub open spec fn parses_to(raw: Seq<char>, req: Request) -> bool {
    match spec_parse(raw) {
        Some(t) => req.method@ == t.0 && req.path@ == t.1 && req.headers@ == headers_of_list(t.2),
        None => false,
    }
}

impl Request {
    /// The request's header map holds each name at most once.
    pub open spec fn wf(&self) -> bool {
        self.headers.wf()
    }

    /// Parses a raw buffer into a request, or reports it malformed exactly
    /// when its first line has fewer than two space-separated tokens.
    pub fn parse_from(raw_data: String) -> (r: Result<Request, HttpError>)
        ensures
            match r {
                Ok(req) => parses_to(raw_data@, req) && req.wf(),
                Err(e) => spec_parse(raw_data@) is None && e == HttpError::MalformedRequest,
            },
    {
        proof {
            reveal_strlit("\r\n");
            reveal_strlit(" ");
            reveal_strlit(": ");
        }
        let lines = split_str(raw_data.as_str(), "\r\n");
        let ghost ls = lines.deep_view();
        let n = lines.len();
        proof {
            assert(ls.len() >= 1);
            assert(ls[0] == lines@[0]@);
        }
        let tokens = split_str(lines[0].as_str(), " ");
        if tokens.len() < 2 {
            return Err(HttpError::MalformedRequest);
        }
        let method = tokens[0].clone();
        let path = tokens[1].clone();
        proof {
            assert(tokens.deep_view()[0] == tokens@[0]@);
            assert(tokens.deep_view()[1] == tokens@[1]@);
        }
        let mut headers = HeaderMap::new();
        let ghost mut done: Seq<(Seq<char>, Seq<char>)> = Seq::empty();
        let mut i: usize = 1;
        let mut stopped = false;
        proof {
            assert(done + parse_header_lines(ls.skip(1)) =~= parse_header_lines(ls.skip(1)));
        }
        while i < n && !stopped
            invariant
                1 <= i <= n,
                n == lines@.len(),
                ls == lines.deep_view(),
                headers.wf(),
                headers@ == headers_of_list(done),
                !stopped ==> parse_header_lines(ls.skip(1)) == done + parse_header_lines(
                    ls.skip(i as int),
                ),
                stopped ==> parse_header_lines(ls.skip(1)) == done,
            decreases n - i + (if stopped { 0int } else { 1int }),
        {
            let line = &lines[i];
            proof {
                assert(ls.skip(i as int)[0] == line@);
            }
            if line.as_str().is_empty() {
                stopped = true;
                proof {
                    assert(parse_header_lines(ls.skip(i as int)) == Seq::<(
                        Seq<char>,
                        Seq<char>,
                    )>::empty());
                    assert(done + Seq::<(Seq<char>, Seq<char>)>::empty() =~= done);
                }
            } else {
                match find_sub(line.as_str(), ": ") {
                    Some(j) => {
                        proof {
                            lemma_find_from_props(line@, (": ")@, 0);
                        }
                        let llen = line.as_str().unicode_len();
                        let seplen = ": ".unicode_len();
                        let name = line.as_str().substring_char(0, j).to_owned();
                        let value = line.as_str().substring_char(j + seplen, llen).to_owned();
                        let ghost h = (name@, value@);
                        headers.insert(name, value);
                        proof {
                            assert(h.1 =~= line@.skip(j + (": ")@.len() as int));
                            assert(header_of_line(line@) == Some(h));
                            assert(ls.skip(i as int).drop_first() =~= ls.skip(i + 1));
                            assert(parse_header_lines(ls.skip(i as int)) == seq![h]
                                + parse_header_lines(ls.skip(i + 1)));
                            assert(done.push(h).drop_last() =~= done);
                            assert(headers@ == headers_of_list(done.push(h)));
                            assert(done + (seq![h] + parse_header_lines(ls.skip(i + 1))) =~= (done
                                + seq![h]) + parse_header_lines(ls.skip(i + 1)));
                            assert(done.push(h) =~= done + seq![h]);
                            done = done.push(h);
                        }
                        i += 1;
                    },
                    None => {
                        proof {
                            assert(header_of_line(line@) is None);
                            assert(ls.skip(i as int).drop_first() =~= ls.skip(i + 1));
                            assert(parse_header_lines(ls.skip(i as int)) == parse_header_lines(
                                ls.skip(i + 1),
                            ));
                        }
                        i += 1;
                    },
                }
            }
        }
        proof {
            if !stopped {
                assert(ls.skip(n as int) =~= Seq::<Seq<char>>::empty());
                assert(parse_header_lines(ls.skip(n as int)) == Seq::<(
                    Seq<char>,
                    Seq<char>,
                )>::empty());
                assert(done + Seq::<(Seq<char>, Seq<char>)>::empty() =~= done);
            }
            assert(ls.drop_first() =~= ls.skip(1));
        }
        Ok(Request { method, path, headers })
    }
}

} // verus!
