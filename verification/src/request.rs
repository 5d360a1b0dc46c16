//! Request head parsing: the request line splits on single spaces into
//! method, path and an optional version token (present but never
//! interpreted); header lines follow until the blank line, malformed ones
//! skipped. A parsed path is never empty and always begins with `/`.
use vstd::prelude::*;

use crate::bytes::{copy_range, eq_ignore_case, find_byte, find_byte_from};
use crate::header::{header_of_line, lookup_spec, parse_header_line, Header};

verus! {

/// A parsed request head: the body, if any, is framed separately by
/// `Content-Length`.
pub struct Request {
    pub method: Vec<u8>,
    pub path: Vec<u8>,
    pub headers: Vec<Header>,
}

/// The method and path of a request line, split on single spaces: the method
/// runs to the first space, the path from there to the second space or the
/// end. A line with no space, an empty path, or a path that does not begin
/// with `/` parses to nothing.
pub open spec fn parse_request_line_spec(l: Seq<u8>) -> Option<(Seq<u8>, Seq<u8>)> {
    match find_byte(l, 32) {
        None => None,
        Some(i) => {
            let method = l.subrange(0, i);
            let rest = l.subrange(i + 1, l.len() as int);
            let path = match find_byte(rest, 32) {
                None => rest,
                Some(j) => rest.subrange(0, j),
            };
            if path.len() > 0 && path[0] == 47 {
                Some((method, path))
            } else {
                None
            }
        },
    }
}

/// Parse a request line into its method and path.
pub fn parse_request_line(line: &Vec<u8>) -> (r: Option<(Vec<u8>, Vec<u8>)>)
    ensures
        match r {
            Some(mp) => parse_request_line_spec(line@) == Some((mp.0@, mp.1@)),
            None => parse_request_line_spec(line@) is None,
        },
{
    proof {
        assert(line@.subrange(0, line@.len() as int) =~= line@);
    }
    match find_byte_from(line, 32, 0) {
        None => None,
        Some(i) => {
            let method = copy_range(line, 0, i);
            let n: usize = line.len();
            let ghost rest = line@.subrange(i + 1, n as int);
            let path_end: usize = match find_byte_from(line, 32, i + 1) {
                None => n,
                Some(j) => j,
            };
            proof {
                if path_end < n {
                    assert(rest.subrange(0, path_end - (i + 1)) =~= line@.subrange(
                        i + 1,
                        path_end as int,
                    ));
                } else {
                    assert(rest =~= line@.subrange(i + 1, path_end as int));
                }
            }
            let path = copy_range(line, i + 1, path_end);
            if path.len() > 0 && path[0] == 47 {
                Some((method, path))
            } else {
                None
            }
        },
    }
}

/// The value the header lines give to `name`: last match wins, matching up
/// to ASCII case, lines without a colon skipped.
pub open spec fn lookup_lines(ls: Seq<Vec<u8>>, name: Seq<u8>) -> Option<Seq<u8>>
    decreases ls.len(),
{
    if ls.len() == 0 {
        None
    } else {
        match header_of_line(ls.last()@) {
            Some(nv) => if eq_ignore_case(nv.0, name) {
                Some(nv.1)
            } else {
                lookup_lines(ls.drop_last(), name)
            },
            None => lookup_lines(ls.drop_last(), name),
        }
    }
}

/// Parse the head lines into a request. The first line must parse as a
/// request line; the rest become the header map, which afterwards answers
/// every name lookup exactly as the lines themselves do.
pub fn parse_head(lines: &Vec<Vec<u8>>) -> (r: Option<Request>)
    ensures
        match r {
            Some(req) => lines@.len() > 0 && parse_request_line_spec(lines@[0]@) == Some(
                (req.method@, req.path@),
            ) && forall|name: Seq<u8>|
                #[trigger] lookup_spec(req.headers@, name) == lookup_lines(
                    lines@.subrange(1, lines@.len() as int),
                    name,
                ),
            None => lines@.len() == 0 || parse_request_line_spec(lines@[0]@) is None,
        },
{
    if lines.len() == 0 {
        return None;
    }
    let first = &lines[0];
    match parse_request_line(first) {
        None => None,
        Some((method, path)) => {
            let n: usize = lines.len();
            let mut headers: Vec<Header> = Vec::new();
            let mut i: usize = 1;
            while i < n
                invariant
                    1 <= i <= n,
                    n == lines@.len(),
                    forall|name: Seq<u8>|
                        #[trigger] lookup_spec(headers@, name) == lookup_lines(
                            lines@.subrange(1, i as int),
                            name,
                        ),
                decreases n - i,
            {
                let line = &lines[i];
                let ghost old_headers = headers@;
                let ghost prefix = lines@.subrange(1, i as int);
                let ghost next = lines@.subrange(1, i + 1);
                proof {
                    assert(next.drop_last() =~= prefix);
                    assert(next.last() == lines@[i as int]);
                }
                match parse_header_line(line) {
                    Some(h) => {
                        let ghost hname = h.name@;
                        let ghost hvalue = h.value@;
                        headers.push(h);
                        proof {
                            assert(headers@.drop_last() =~= old_headers);
                            assert forall|name: Seq<u8>|
                                #[trigger] lookup_spec(headers@, name) == lookup_lines(
                                    next,
                                    name,
                                ) by {
                                assert(header_of_line(next.last()@) == Some((hname, hvalue)));
                                if eq_ignore_case(hname, name) {
                                    assert(lookup_spec(headers@, name) == Some(hvalue));
                                    assert(lookup_lines(next, name) == Some(hvalue));
                                } else {
                                    assert(lookup_spec(headers@, name) == lookup_spec(
                                        old_headers,
                                        name,
                                    ));
                                    assert(lookup_lines(next, name) == lookup_lines(prefix, name));
                                }
                            }
                        }
                    },
                    None => {
                        proof {
                            assert forall|name: Seq<u8>|
                                #[trigger] lookup_spec(headers@, name) == lookup_lines(
                                    next,
                                    name,
                                ) by {
                                assert(header_of_line(next.last()@) is None);
                                assert(lookup_lines(next, name) == lookup_lines(prefix, name));
                                assert(lookup_spec(headers@, name) == lookup_lines(prefix, name));
                            }
                        }
                    },
                }
                i = i + 1;
            }
            proof {
                assert(lines@.subrange(1, n as int) =~= lines@.subrange(1, lines@.len() as int));
            }
            Some(Request { method, path, headers })
        },
    }
}

} // verus!
