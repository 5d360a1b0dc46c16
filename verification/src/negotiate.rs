//! Content negotiation: a response may advertise gzip only when the client's
//! `Accept-Encoding` header lists `gzip` among its comma-separated tokens,
//! compared case-insensitively token by token, not as a substring of the
//! whole header value.
use vstd::prelude::*;

use crate::bytes::{
    copy_range, eq_ignore_case, eq_ignore_case_arr, find_byte, find_byte_from, lemma_find_byte,
    trim_range, trim_ws,
};
use crate::header::{accept_encoding_name, lookup, lookup_spec, Header};

verus! {

/// `"gzip"`.
pub open spec fn gzip_token() -> Seq<u8> {
    seq![103u8, 122u8, 105u8, 112u8]
}

/// The token, stripped of surrounding whitespace, is `gzip` up to ASCII
/// case.
pub open spec fn token_is_gzip(t: Seq<u8>) -> bool {
    eq_ignore_case(trim_ws(t), gzip_token())
}

/// Some comma-separated token of `s` is `gzip`.
pub open spec fn has_gzip_token(s: Seq<u8>) -> bool
    decreases s.len(),
    via has_gzip_token_decreases
{
    match find_byte(s, 44) {
        None => token_is_gzip(s),
        Some(i) => token_is_gzip(s.subrange(0, i)) || has_gzip_token(
            s.subrange(i + 1, s.len() as int),
        ),
    }
}

#[via_fn]
proof fn has_gzip_token_decreases(s: Seq<u8>) {
    lemma_find_byte(s, 44);
}

/// The header set accepts gzip: its `Accept-Encoding` value (last one, if
/// repeated) lists `gzip` as a token.
pub open spec fn accepts_gzip(hs: Seq<Header>) -> bool {
    match lookup_spec(hs, accept_encoding_name()) {
        None => false,
        Some(v) => has_gzip_token(v),
    }
}

/// Does the request accept a gzip-encoded response?
#[verifier::loop_isolation(false)]
pub fn supports_gzip(headers: &Vec<Header>) -> (r: bool)
    ensures
        r == accepts_gzip(headers@),
{
    let name: [u8; 15] = [65, 99, 99, 101, 112, 116, 45, 69, 110, 99, 111, 100, 105, 110, 103];
    proof {
        assert(name@ =~= accept_encoding_name());
    }
    let gz: [u8; 4] = [103, 122, 105, 112];
    proof {
        assert(gz@ =~= gzip_token());
    }
    match lookup(headers, &name) {
        None => false,
        Some(v) => {
            let n: usize = v.len();
            let mut pos: usize = 0;
            proof {
                assert(v@.subrange(0, n as int) =~= v@);
            }
            loop
                invariant
                    0 <= pos <= n,
                    has_gzip_token(v@) == has_gzip_token(v@.subrange(pos as int, n as int)),
                decreases n - pos,
            {
                let ghost suffix = v@.subrange(pos as int, n as int);
                match find_byte_from(&v, 44, pos) {
                    None => {
                        let (a, b) = trim_range(&v, pos, n);
                        let t = copy_range(&v, a, b);
                        proof {
                            assert(has_gzip_token(suffix) == token_is_gzip(suffix));
                        }
                        return eq_ignore_case_arr(&t, &gz);
                    },
                    Some(j) => {
                        proof {
                            assert(suffix.subrange(0, j - pos) =~= v@.subrange(
                                pos as int,
                                j as int,
                            ));
                            assert(suffix.subrange(j - pos + 1, suffix.len() as int) =~= v@.subrange(
                                j + 1,
                                n as int,
                            ));
                        }
                        let (a, b) = trim_range(&v, pos, j);
                        let t = copy_range(&v, a, b);
                        if eq_ignore_case_arr(&t, &gz) {
                            return true;
                        }
                        pos = j + 1;
                    },
                }
            }
        },
    }
}

} // verus!
