//! Responses and their wire form: a status line, one line per header, a
//! blank line, then the body. A well-formed response never advertises a
//! `Content-Length` other than the byte length of the body it carries.
use vstd::prelude::*;

use crate::bytes::{dec_rep, eq_ignore_case, push_arr, push_vec};
use crate::header::{content_length_name, Header};

verus! {

/// The status codes this server sends.
pub enum Status {
    Okay,
    Created,
    BadRequest,
    NotFound,
    MethodNotAllowed,
    ServerError,
}

/// `"HTTP/1.1 "`.
pub open spec fn http_version() -> Seq<u8> {
    seq![72u8, 84u8, 84u8, 80u8, 47u8, 49u8, 46u8, 49u8, 32u8]
}

/// The code and reason phrase of a status, e.g. `"200 OK"`.
pub open spec fn status_text(s: Status) -> Seq<u8> {
    match s {
        Status::Okay => seq![50u8, 48u8, 48u8, 32u8, 79u8, 75u8],
        Status::Created => seq![50u8, 48u8, 49u8, 32u8, 67u8, 114u8, 101u8, 97u8, 116u8, 101u8, 100u8],
        Status::BadRequest => seq![52u8, 48u8, 48u8, 32u8, 66u8, 97u8, 100u8, 32u8, 82u8, 101u8, 113u8, 117u8, 101u8, 115u8, 116u8],
        Status::NotFound => seq![52u8, 48u8, 52u8, 32u8, 78u8, 111u8, 116u8, 32u8, 70u8, 111u8, 117u8, 110u8, 100u8],
        Status::MethodNotAllowed => seq![52u8, 48u8, 53u8, 32u8, 77u8, 101u8, 116u8, 104u8, 111u8, 100u8, 32u8, 78u8, 111u8, 116u8, 32u8, 65u8, 108u8, 108u8, 111u8, 119u8, 101u8, 100u8],
        Status::ServerError => seq![53u8, 48u8, 48u8, 32u8, 73u8, 110u8, 116u8, 101u8, 114u8, 110u8, 97u8, 108u8, 32u8, 83u8, 101u8, 114u8, 118u8, 101u8, 114u8, 32u8, 69u8, 114u8, 114u8, 111u8, 114u8],
    }
}

/// A response about to be written: status, headers in order, body bytes.
pub struct Response {
    pub status: Status,
    pub headers: Vec<Header>,
    pub body: Vec<u8>,
}

impl Response {
    /// Any `Content-Length` header carries exactly the body's byte length,
    /// and a non-empty body always has one.
    pub open spec fn wf(&self) -> bool {
        (forall|i: int|
            0 <= i < self.headers@.len() && eq_ignore_case(
                self.headers@[i].name@,
                content_length_name(),
            ) ==> #[trigger] self.headers@[i].value@ == dec_rep(self.body@.len())) && (
        self.body@.len() > 0 ==> exists|i: int|
            0 <= i < self.headers@.len() && eq_ignore_case(
                #[trigger] self.headers@[i].name@,
                content_length_name(),
            ))
    }
}

/// The header block's wire form: `name: value` and a CRLF for each header,
/// in order.
pub open spec fn headers_bytes(hs: Seq<Header>) -> Seq<u8>
    decreases hs.len(),
{
    if hs.len() == 0 {
        Seq::empty()
    } else {
        headers_bytes(hs.drop_last()) + hs.last().name@ + seq![58u8, 32u8] + hs.last().value@
            + seq![13u8, 10u8]
    }
}

/// The full wire form of a response.
pub open spec fn serialize_spec(status: Status, hs: Seq<Header>, body: Seq<u8>) -> Seq<u8> {
    http_version() + status_text(status) + seq![13u8, 10u8] + headers_bytes(hs) + seq![13u8, 10u8]
        + body
}

/// Append the status's code and reason phrase.
fn push_status_text(out: &mut Vec<u8>, s: &Status)
    ensures
        final(out)@ == old(out)@ + status_text(*s),
{
    match s {
        Status::Okay => {
            let t: [u8; 6] = [50, 48, 48, 32, 79, 75];
            push_arr(out, &t);
            proof {
                assert(t@ =~= status_text(Status::Okay));
            }
        },
        Status::Created => {
            let t: [u8; 11] = [50, 48, 49, 32, 67, 114, 101, 97, 116, 101, 100];
            push_arr(out, &t);
            proof {
                assert(t@ =~= status_text(Status::Created));
            }
        },
        Status::BadRequest => {
            let t: [u8; 15] = [52, 48, 48, 32, 66, 97, 100, 32, 82, 101, 113, 117, 101, 115, 116];
            push_arr(out, &t);
            proof {
                assert(t@ =~= status_text(Status::BadRequest));
            }
        },
        Status::NotFound => {
            let t: [u8; 13] = [52, 48, 52, 32, 78, 111, 116, 32, 70, 111, 117, 110, 100];
            push_arr(out, &t);
            proof {
                assert(t@ =~= status_text(Status::NotFound));
            }
        },
        Status::MethodNotAllowed => {
            let t: [u8; 22] = [52, 48, 53, 32, 77, 101, 116, 104, 111, 100, 32, 78, 111, 116, 32,
                65, 108, 108, 111, 119, 101, 100];
            push_arr(out, &t);
            proof {
                assert(t@ =~= status_text(Status::MethodNotAllowed));
            }
        },
        Status::ServerError => {
            let t: [u8; 25] = [53, 48, 48, 32, 73, 110, 116, 101, 114, 110, 97, 108, 32, 83, 101,
                114, 118, 101, 114, 32, 69, 114, 114, 111, 114];
            push_arr(out, &t);
            proof {
                assert(t@ =~= status_text(Status::ServerError));
            }
        },
    }
}

/// Serialize a response into the bytes that go on the wire.
pub fn serialize(r: &Response) -> (out: Vec<u8>)
    ensures
        out@ == serialize_spec(r.status, r.headers@, r.body@),
{
    let mut out: Vec<u8> = Vec::new();
    let ver: [u8; 9] = [72, 84, 84, 80, 47, 49, 46, 49, 32];
    proof {
        assert(ver@ =~= http_version());
    }
    push_arr(&mut out, &ver);
    push_status_text(&mut out, &r.status);
    let crlf: [u8; 2] = [13, 10];
    proof {
        assert(crlf@ =~= seq![13u8, 10u8]);
    }
    push_arr(&mut out, &crlf);
    let ghost stat_line = http_version() + status_text(r.status) + seq![13u8, 10u8];
    proof {
        assert(out@ =~= stat_line);
    }
    let n: usize = r.headers.len();
    let mut i: usize = 0;
    while i < n
        invariant
            0 <= i <= n,
            n == r.headers@.len(),
            out@ == stat_line + headers_bytes(r.headers@.subrange(0, i as int)),
        decreases n - i,
    {
        let h = &r.headers[i];
        push_vec(&mut out, &h.name);
        let sep: [u8; 2] = [58, 32];
        push_arr(&mut out, &sep);
        push_vec(&mut out, &h.value);
        let crlf2: [u8; 2] = [13, 10];
        push_arr(&mut out, &crlf2);
        proof {
            let sub = r.headers@.subrange(0, i + 1);
            assert(sub.drop_last() =~= r.headers@.subrange(0, i as int));
            assert(sub.last() == r.headers@[i as int]);
            assert(sep@ =~= seq![58u8, 32u8]);
            assert(crlf2@ =~= seq![13u8, 10u8]);
            assert(out@ =~= stat_line + headers_bytes(sub));
        }
        i = i + 1;
    }
    proof {
        assert(r.headers@.subrange(0, n as int) =~= r.headers@);
    }
    let crlf3: [u8; 2] = [13, 10];
    proof {
        assert(crlf3@ =~= seq![13u8, 10u8]);
    }
    push_arr(&mut out, &crlf3);
    push_vec(&mut out, &r.body);
    proof {
        assert(out@ =~= serialize_spec(r.status, r.headers@, r.body@));
    }
    out
}

} // verus!
