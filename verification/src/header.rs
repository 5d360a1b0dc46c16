//! Header lines and the header map. A header line splits on its first colon
//! into a name and a value; the value loses its leading whitespace. The map
//! is ordered, names compare case-insensitively, and on duplicates the last
//! value wins for every field this server reads.
use vstd::prelude::*;

use crate::bytes::{
    clone_bytes, copy_range, dec_val, eq_ignore_case, eq_ignore_case_arr, find_byte,
    find_byte_from, is_digit_seq, lemma_find_byte, parse_dec, trim_leading_ws,
};

verus! {

/// One parsed header: a name and a value.
pub struct Header {
    pub name: Vec<u8>,
    pub value: Vec<u8>,
}

/// `"Content-Length"`.
pub open spec fn content_length_name() -> Seq<u8> {
    seq![67u8, 111u8, 110u8, 116u8, 101u8, 110u8, 116u8, 45u8, 76u8, 101u8, 110u8, 103u8, 116u8, 104u8]
}

/// `"User-Agent"`.
pub open spec fn user_agent_name() -> Seq<u8> {
    seq![85u8, 115u8, 101u8, 114u8, 45u8, 65u8, 103u8, 101u8, 110u8, 116u8]
}

/// `"Content-Type"`.
pub open spec fn content_type_name() -> Seq<u8> {
    seq![67u8, 111u8, 110u8, 116u8, 101u8, 110u8, 116u8, 45u8, 84u8, 121u8, 112u8, 101u8]
}

/// `"Content-Encoding"`.
pub open spec fn content_encoding_name() -> Seq<u8> {
    seq![67u8, 111u8, 110u8, 116u8, 101u8, 110u8, 116u8, 45u8, 69u8, 110u8, 99u8, 111u8, 100u8, 105u8, 110u8, 103u8]
}

/// `"Accept-Encoding"`.
pub open spec fn accept_encoding_name() -> Seq<u8> {
    seq![65u8, 99u8, 99u8, 101u8, 112u8, 116u8, 45u8, 69u8, 110u8, 99u8, 111u8, 100u8, 105u8, 110u8, 103u8]
}

/// The name/value split of one header line: the part before the first colon
/// and the part after it with leading whitespace removed. A line without a
/// colon is malformed and yields nothing.
pub open spec fn header_of_line(l: Seq<u8>) -> Option<(Seq<u8>, Seq<u8>)> {
    match find_byte(l, 58) {
        None => None,
        Some(i) => Some(
            (l.subrange(0, i), trim_leading_ws(l.subrange(i + 1, l.len() as int))),
        ),
    }
}

/// Parse one header line, or report it malformed (no colon).
pub fn parse_header_line(line: &Vec<u8>) -> (r: Option<Header>)
    ensures
        match r {
            Some(h) => header_of_line(line@) == Some((h.name@, h.value@)),
            None => header_of_line(line@) is None,
        },
{
    proof {
        assert(line@.subrange(0, line@.len() as int) =~= line@);
    }
    match find_byte_from(line, 58, 0) {
        None => None,
        Some(i) => {
            let name = copy_range(line, 0, i);
            let n: usize = line.len();
            let mut k: usize = i + 1;
            while k < n && (line[k] == 32 || line[k] == 9)
                invariant
                    i + 1 <= k <= n,
                    n == line@.len(),
                    trim_leading_ws(line@.subrange(i + 1, n as int)) == trim_leading_ws(
                        line@.subrange(k as int, n as int),
                    ),
                decreases n - k,
            {
                proof {
                    let s = line@.subrange(k as int, n as int);
                    assert(s.subrange(1, s.len() as int) =~= line@.subrange(k + 1, n as int));
                }
                k = k + 1;
            }
            proof {
                let s = line@.subrange(k as int, n as int);
                assert(trim_leading_ws(s) == s);
            }
            let value = copy_range(line, k, n);
            Some(Header { name, value })
        },
    }
}

/// The value of the last header whose name matches `name` up to ASCII case.
pub open spec fn lookup_spec(hs: Seq<Header>, name: Seq<u8>) -> Option<Seq<u8>>
    decreases hs.len(),
{
    if hs.len() == 0 {
        None
    } else if eq_ignore_case(hs.last().name@, name) {
        Some(hs.last().value@)
    } else {
        lookup_spec(hs.drop_last(), name)
    }
}

/// Look a header up by name, case-insensitively, last match winning.
pub fn lookup<const N: usize>(headers: &Vec<Header>, name: &[u8; N]) -> (r: Option<Vec<u8>>)
    ensures
        match r {
            Some(v) => lookup_spec(headers@, name@) == Some(v@),
            None => lookup_spec(headers@, name@) is None,
        },
{
    let mut i: usize = headers.len();
    proof {
        assert(headers@.subrange(0, i as int) =~= headers@);
    }
    while i > 0
        invariant
            0 <= i <= headers@.len(),
            lookup_spec(headers@, name@) == lookup_spec(headers@.subrange(0, i as int), name@),
        decreases i,
    {
        i = i - 1;
        let h = &headers[i];
        proof {
            let sub = headers@.subrange(0, i + 1);
            assert(sub.last() == headers@[i as int]);
            assert(sub.drop_last() =~= headers@.subrange(0, i as int));
        }
        if eq_ignore_case_arr(&h.name, name) {
            return Some(clone_bytes(&h.value));
        }
    }
    None
}

/// The body length a header map declares: the value of its last
/// `Content-Length` header read as a decimal number, or zero when the header
/// is absent, malformed, or does not fit the machine.
pub open spec fn content_length_spec(hs: Seq<Header>) -> nat {
    match lookup_spec(hs, content_length_name()) {
        None => 0,
        Some(v) => if is_digit_seq(v) && dec_val(v) <= usize::MAX {
            dec_val(v)
        } else {
            0
        },
    }
}

/// Read the declared body length off the headers.
pub fn content_length(headers: &Vec<Header>) -> (r: usize)
    ensures
        r as nat == content_length_spec(headers@),
{
    let name: [u8; 14] = [67, 111, 110, 116, 101, 110, 116, 45, 76, 101, 110, 103, 116, 104];
    proof {
        assert(name@ =~= content_length_name());
    }
    match lookup(headers, &name) {
        None => 0,
        Some(v) => match parse_dec(&v) {
            Some(n) => n,
            None => 0,
        },
    }
}

} // verus!
