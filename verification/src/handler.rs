//! The handlers and the dispatch plan. Parsing and routing decide here what
//! to answer; the caller only performs what the returned action names —
//! read a file, receive a body, write a file — and feeds the outcome back
//! in, so every decision stays within verified code.
use vstd::prelude::*;

use crate::bytes::{
    clone_bytes, copy_range, dec_rep, ends_with, ends_with_arr, eq_arr, eq_ignore_case, find_byte,
    find_byte_from, lemma_find_byte, render_dec, starts_with,
};
use crate::gzip::{gzip_compress, gzip_of};
use crate::header::{
    content_encoding_name, content_length, content_length_name, content_length_spec,
    content_type_name, lookup, lookup_spec, user_agent_name, Header,
};
use crate::negotiate::{accepts_gzip, gzip_token, supports_gzip};
use crate::request::Request;
use crate::response::{Response, Status};
use crate::router::{
    echo_prefix, files_prefix, get_method, known_path, post_method, root_path, route,
    route_allows, user_agent_path, Route,
};

verus! {

/// `".."`.
pub open spec fn dotdot() -> Seq<u8> {
    seq![46u8, 46u8]
}

/// No `/`-separated segment of `s` is `..`.
pub open spec fn no_dotdot_segment(s: Seq<u8>) -> bool
    decreases s.len(),
    via no_dotdot_segment_decreases
{
    match find_byte(s, 47) {
        None => s != dotdot(),
        Some(i) => s.subrange(0, i) != dotdot() && no_dotdot_segment(
            s.subrange(i + 1, s.len() as int),
        ),
    }
}

#[via_fn]
proof fn no_dotdot_segment_decreases(s: Seq<u8>) {
    lemma_find_byte(s, 47);
}

/// A filename that stays under the base directory when resolved against it:
/// not absolute, and free of `..` segments.
pub open spec fn safe_name(s: Seq<u8>) -> bool {
    (s.len() > 0 ==> s[0] != 47) && no_dotdot_segment(s)
}

/// Check a filename for path traversal.
#[verifier::loop_isolation(false)]
pub fn safe_name_check(name: &Vec<u8>) -> (r: bool)
    ensures
        r == safe_name(name@),
{
    let n: usize = name.len();
    if n > 0 && name[0] == 47 {
        return false;
    }
    let dd: [u8; 2] = [46, 46];
    proof {
        assert(dd@ =~= dotdot());
        assert(name@.subrange(0, n as int) =~= name@);
    }
    let mut pos: usize = 0;
    loop
        invariant
            0 <= pos <= n,
            no_dotdot_segment(name@) == no_dotdot_segment(name@.subrange(pos as int, n as int)),
        decreases n - pos,
    {
        let ghost suffix = name@.subrange(pos as int, n as int);
        match find_byte_from(name, 47, pos) {
            None => {
                let seg = copy_range(name, pos, n);
                proof {
                    assert(seg@ =~= suffix);
                }
                return !eq_arr(&seg, &dd);
            },
            Some(j) => {
                proof {
                    assert(suffix.subrange(0, j - pos) =~= name@.subrange(pos as int, j as int));
                    assert(suffix.subrange(j - pos + 1, suffix.len() as int) =~= name@.subrange(
                        j + 1,
                        n as int,
                    ));
                }
                let seg = copy_range(name, pos, j);
                if eq_arr(&seg, &dd) {
                    return false;
                }
                pos = j + 1;
            },
        }
    }
}

/// `"text/plain"`.
pub open spec fn text_plain() -> Seq<u8> {
    seq![116u8, 101u8, 120u8, 116u8, 47u8, 112u8, 108u8, 97u8, 105u8, 110u8]
}

/// `"text/html"`.
pub open spec fn text_html() -> Seq<u8> {
    seq![116u8, 101u8, 120u8, 116u8, 47u8, 104u8, 116u8, 109u8, 108u8]
}

/// `"application/json"`.
pub open spec fn application_json() -> Seq<u8> {
    seq![97u8, 112u8, 112u8, 108u8, 105u8, 99u8, 97u8, 116u8, 105u8, 111u8, 110u8, 47u8, 106u8, 115u8, 111u8, 110u8]
}

/// `"application/octet-stream"`.
pub open spec fn octet_stream() -> Seq<u8> {
    seq![97u8, 112u8, 112u8, 108u8, 105u8, 99u8, 97u8, 116u8, 105u8, 111u8, 110u8, 47u8, 111u8, 99u8, 116u8, 101u8, 116u8, 45u8, 115u8, 116u8, 114u8, 101u8, 97u8, 109u8]
}

/// `".txt"`.
pub open spec fn dot_txt() -> Seq<u8> {
    seq![46u8, 116u8, 120u8, 116u8]
}

/// `".html"`.
pub open spec fn dot_html() -> Seq<u8> {
    seq![46u8, 104u8, 116u8, 109u8, 108u8]
}

/// `".json"`.
pub open spec fn dot_json() -> Seq<u8> {
    seq![46u8, 106u8, 115u8, 111u8, 110u8]
}

/// The content type a filename's extension selects, falling back to the
/// octet-stream type.
pub open spec fn mime_of(name: Seq<u8>) -> Seq<u8> {
    if ends_with(name, dot_txt()) {
        text_plain()
    } else if ends_with(name, dot_html()) {
        text_html()
    } else if ends_with(name, dot_json()) {
        application_json()
    } else {
        octet_stream()
    }
}

/// A bare response: a status line, no headers, no body.
pub open spec fn plain_response(r: Response, st: Status) -> bool {
    r.status == st && r.headers@.len() == 0 && r.body@.len() == 0
}

/// Build a bare response.
pub fn plain(st: Status) -> (r: Response)
    ensures
        plain_response(r, st),
        r.wf(),
{
    Response { status: st, headers: Vec::new(), body: Vec::new() }
}

/// Build a header from a fixed name and a value.
fn make_header<const N: usize>(name: &[u8; N], value: Vec<u8>) -> (h: Header)
    ensures
        h.name@ == name@,
        h.value@ == value@,
{
    Header { name: vstd::slice::slice_to_vec(name.as_slice()), value }
}

/// A success response carrying `payload`: 200, a `Content-Type`, a
/// `Content-Length` naming the body's exact byte length, and — exactly when
/// gzip was negotiated — a `Content-Encoding: gzip` whose body is the
/// compressed payload rather than the raw bytes.
pub open spec fn payload_response(r: Response, payload: Seq<u8>, ct: Seq<u8>, gz: bool) -> bool {
    &&& r.status is Okay
    &&& r.wf()
    &&& r.headers@.len() == (if gz {
        3int
    } else {
        2int
    })
    &&& r.headers@[0].name@ == content_type_name() && r.headers@[0].value@ == ct
    &&& (gz ==> r.headers@[1].name@ == content_encoding_name() && r.headers@[1].value@
        == gzip_token())
    &&& r.headers@.last().name@ == content_length_name() && r.headers@.last().value@ == dec_rep(
        r.body@.len(),
    )
    &&& lookup_spec(r.headers@, content_type_name()) == Some(ct)
    &&& lookup_spec(r.headers@, content_length_name()) == Some(dec_rep(r.body@.len()))
    &&& (if gz {
        r.body@ == gzip_of(payload) && lookup_spec(r.headers@, content_encoding_name()) == Some(
            gzip_token(),
        )
    } else {
        r.body@ == payload && lookup_spec(r.headers@, content_encoding_name()) is None
    })
}

/// Build a 200 response around an already-encoded body.
fn build_payload<const N: usize>(ct_val: &[u8; N], gz: bool, body: Vec<u8>) -> (r: Response)
    ensures
        r.status is Okay,
        r.body@ == body@,
        r.wf(),
        r.headers@.len() == (if gz {
            3int
        } else {
            2int
        }),
        r.headers@[0].name@ == content_type_name() && r.headers@[0].value@ == ct_val@,
        gz ==> r.headers@[1].name@ == content_encoding_name() && r.headers@[1].value@
            == gzip_token(),
        r.headers@.last().name@ == content_length_name() && r.headers@.last().value@ == dec_rep(
            body@.len(),
        ),
        lookup_spec(r.headers@, content_type_name()) == Some(ct_val@),
        lookup_spec(r.headers@, content_length_name()) == Some(dec_rep(body@.len())),
        gz ==> lookup_spec(r.headers@, content_encoding_name()) == Some(gzip_token()),
        !gz ==> lookup_spec(r.headers@, content_encoding_name()) is None,
{
    let ct_name: [u8; 12] = [67, 111, 110, 116, 101, 110, 116, 45, 84, 121, 112, 101];
    let ce_name: [u8; 16] = [67, 111, 110, 116, 101, 110, 116, 45, 69, 110, 99, 111, 100, 105, 110,
        103];
    let cl_name: [u8; 14] = [67, 111, 110, 116, 101, 110, 116, 45, 76, 101, 110, 103, 116, 104];
    let gz_val: [u8; 4] = [103, 122, 105, 112];
    proof {
        assert(ct_name@ =~= content_type_name());
        assert(ce_name@ =~= content_encoding_name());
        assert(cl_name@ =~= content_length_name());
        assert(gz_val@ =~= gzip_token());
    }
    let mut headers: Vec<Header> = Vec::new();
    headers.push(make_header(&ct_name, vstd::slice::slice_to_vec(ct_val.as_slice())));
    if gz {
        headers.push(make_header(&ce_name, vstd::slice::slice_to_vec(gz_val.as_slice())));
    }
    let cl_value = render_dec(body.len());
    headers.push(make_header(&cl_name, cl_value));
    let r = Response { status: Status::Okay, headers, body };
    proof {
        let hs = r.headers@;
        let ct = content_type_name();
        let ce = content_encoding_name();
        let cl = content_length_name();
        assert(!eq_ignore_case(cl, ct));
        assert(!eq_ignore_case(ce, ct));
        assert(!eq_ignore_case(cl, ce));
        assert(eq_ignore_case(ct, ct));
        assert(eq_ignore_case(ce, ce));
        assert(eq_ignore_case(cl, cl));
        if gz {
            let h2 = hs.drop_last();
            assert(h2 =~= seq![hs[0], hs[1]]);
            let h1 = h2.drop_last();
            assert(h1 =~= seq![hs[0]]);
            assert(lookup_spec(hs, ct) == lookup_spec(h2, ct));
            assert(lookup_spec(h2, ct) == lookup_spec(h1, ct));
            assert(lookup_spec(h1, ct) == Some(hs[0].value@));
            assert(lookup_spec(hs, ce) == lookup_spec(h2, ce));
            assert(lookup_spec(h2, ce) == Some(hs[1].value@));
            assert(lookup_spec(hs, cl) == Some(hs.last().value@));
        } else {
            let h1 = hs.drop_last();
            assert(h1 =~= seq![hs[0]]);
            assert(lookup_spec(hs, ct) == lookup_spec(h1, ct));
            assert(lookup_spec(h1, ct) == Some(hs[0].value@));
            assert(lookup_spec(hs, ce) == lookup_spec(h1, ce));
            assert(lookup_spec(h1, ce) == lookup_spec(h1.drop_last(), ce));
            assert(h1.drop_last() =~= Seq::<Header>::empty());
            assert(lookup_spec(Seq::<Header>::empty(), ce) is None);
            assert(lookup_spec(hs, cl) == Some(hs.last().value@));
        }
        assert forall|i: int|
            0 <= i < hs.len() && eq_ignore_case(
                hs[i].name@,
                content_length_name(),
            ) implies #[trigger] hs[i].value@ == dec_rep(r.body@.len()) by {
            assert(i == hs.len() - 1);
        }
    }
    r
}

/// Echo: the payload is the path's remainder, verbatim.
pub fn echo_response(msg: &Vec<u8>, gz: bool) -> (r: Response)
    ensures
        payload_response(r, msg@, text_plain(), gz),
{
    let tp: [u8; 10] = [116, 101, 120, 116, 47, 112, 108, 97, 105, 110];
    proof {
        assert(tp@ =~= text_plain());
    }
    let body = if gz {
        gzip_compress(msg)
    } else {
        clone_bytes(msg)
    };
    build_payload(&tp, gz, body)
}

/// The payload of the user-agent route: the `User-Agent` value, or empty
/// when the header is absent.
pub open spec fn ua_payload(hs: Seq<Header>) -> Seq<u8> {
    match lookup_spec(hs, user_agent_name()) {
        Some(v) => v,
        None => Seq::empty(),
    }
}

/// Reflect the request's `User-Agent` header.
pub fn user_agent_response(headers: &Vec<Header>, gz: bool) -> (r: Response)
    ensures
        payload_response(r, ua_payload(headers@), text_plain(), gz),
{
    let ua: [u8; 10] = [85, 115, 101, 114, 45, 65, 103, 101, 110, 116];
    proof {
        assert(ua@ =~= user_agent_name());
    }
    let payload = match lookup(headers, &ua) {
        Some(v) => v,
        None => Vec::new(),
    };
    proof {
        assert(payload@ == ua_payload(headers@));
    }
    let tp: [u8; 10] = [116, 101, 120, 116, 47, 112, 108, 97, 105, 110];
    proof {
        assert(tp@ =~= text_plain());
    }
    let body = if gz {
        gzip_compress(&payload)
    } else {
        payload
    };
    build_payload(&tp, gz, body)
}

/// What the caller found when it tried to read the named file.
pub enum FileOutcome {
    /// No such file under the base directory.
    Missing,
    /// The file's bytes.
    Content(Vec<u8>),
    /// The file exists but could not be read.
    Unreadable,
}

/// Serve a file-read outcome: 404 when missing, 500 when unreadable, and
/// otherwise the content under the extension's content type.
pub fn file_get_response(name: &Vec<u8>, outcome: FileOutcome, gz: bool) -> (r: Response)
    ensures
        outcome is Missing ==> plain_response(r, Status::NotFound),
        outcome is Unreadable ==> plain_response(r, Status::ServerError),
        outcome matches FileOutcome::Content(b) ==> payload_response(r, b@, mime_of(name@), gz),
{
    match outcome {
        FileOutcome::Missing => plain(Status::NotFound),
        FileOutcome::Unreadable => plain(Status::ServerError),
        FileOutcome::Content(b) => {
            let body = if gz {
                gzip_compress(&b)
            } else {
                b
            };
            let t_txt: [u8; 4] = [46, 116, 120, 116];
            let t_html: [u8; 5] = [46, 104, 116, 109, 108];
            let t_json: [u8; 5] = [46, 106, 115, 111, 110];
            proof {
                assert(t_txt@ =~= dot_txt());
                assert(t_html@ =~= dot_html());
                assert(t_json@ =~= dot_json());
            }
            if ends_with_arr(name, &t_txt) {
                let ct: [u8; 10] = [116, 101, 120, 116, 47, 112, 108, 97, 105, 110];
                proof {
                    assert(ct@ =~= text_plain());
                }
                build_payload(&ct, gz, body)
            } else if ends_with_arr(name, &t_html) {
                let ct: [u8; 9] = [116, 101, 120, 116, 47, 104, 116, 109, 108];
                proof {
                    assert(ct@ =~= text_html());
                }
                build_payload(&ct, gz, body)
            } else if ends_with_arr(name, &t_json) {
                let ct: [u8; 16] = [97, 112, 112, 108, 105, 99, 97, 116, 105, 111, 110, 47, 106,
                    115, 111, 110];
                proof {
                    assert(ct@ =~= application_json());
                }
                build_payload(&ct, gz, body)
            } else {
                let ct: [u8; 24] = [97, 112, 112, 108, 105, 99, 97, 116, 105, 111, 110, 47, 111,
                    99, 116, 101, 116, 45, 115, 116, 114, 101, 97, 109];
                proof {
                    assert(ct@ =~= octet_stream());
                }
                build_payload(&ct, gz, body)
            }
        },
    }
}

/// What to do with a received request body.
pub enum PostAction {
    /// Answer at once, without touching the filesystem.
    Respond(Response),
    /// Write `body` to the named file, then report the outcome.
    WriteFile { name: Vec<u8>, body: Vec<u8> },
}

/// Decide a file upload once its whole body has been received: unsafe names
/// are refused with 404 and nothing is written; safe names carry the body
/// through verbatim.
pub fn post_body_action(name: Vec<u8>, body: Vec<u8>) -> (r: PostAction)
    ensures
        safe_name(name@) ==> (r matches PostAction::WriteFile { name: n, body: b } && n@
            == name@ && b@ == body@),
        !safe_name(name@) ==> (r matches PostAction::Respond(resp) && plain_response(
            resp,
            Status::NotFound,
        )),
{
    if safe_name_check(&name) {
        PostAction::WriteFile { name, body }
    } else {
        PostAction::Respond(plain(Status::NotFound))
    }
}

/// Report a file write: 201 when it succeeded, 500 when it failed.
pub fn file_post_response(ok: bool) -> (r: Response)
    ensures
        ok ==> plain_response(r, Status::Created),
        !ok ==> plain_response(r, Status::ServerError),
{
    if ok {
        plain(Status::Created)
    } else {
        plain(Status::ServerError)
    }
}

/// The 400 answer for a head that does not parse, an overlong head, or a
/// body cut short of its declared length.
pub fn bad_request() -> (r: Response)
    ensures
        plain_response(r, Status::BadRequest),
{
    plain(Status::BadRequest)
}

/// What the caller must do for a parsed request.
pub enum Action {
    /// Write this response; nothing else is needed.
    Respond(Response),
    /// Read the named file under the base directory and feed the outcome to
    /// `file_get_response`.
    ReadFile { name: Vec<u8>, gzip: bool },
    /// Receive exactly `length` body bytes, then feed them to
    /// `post_body_action`; a body cut short is a 400 and nothing is written.
    ReceiveBody { name: Vec<u8>, length: usize },
}

/// Route a parsed request and run every handler that needs no outside
/// outcome; the rest comes back as an instruction.
pub fn handle_request(req: &Request) -> (r: Action)
    ensures
        req.method@ == get_method() && req.path@ == root_path() ==> (r matches Action::Respond(
            resp,
        ) && plain_response(resp, Status::Okay)),
        req.method@ == get_method() && starts_with(req.path@, echo_prefix()) ==> (r matches
            Action::Respond(resp) && payload_response(
            resp,
            req.path@.subrange(6, req.path@.len() as int),
            text_plain(),
            accepts_gzip(req.headers@),
        )),
        req.method@ == get_method() && req.path@ == user_agent_path() ==> (r matches
            Action::Respond(resp) && payload_response(
            resp,
            ua_payload(req.headers@),
            text_plain(),
            accepts_gzip(req.headers@),
        )),
        req.method@ == get_method() && starts_with(req.path@, files_prefix()) && safe_name(
            req.path@.subrange(7, req.path@.len() as int),
        ) ==> (r matches Action::ReadFile { name, gzip } && name@ == req.path@.subrange(
            7,
            req.path@.len() as int,
        ) && gzip == accepts_gzip(req.headers@)),
        req.method@ == get_method() && starts_with(req.path@, files_prefix()) && !safe_name(
            req.path@.subrange(7, req.path@.len() as int),
        ) ==> (r matches Action::Respond(resp) && plain_response(resp, Status::NotFound)),
        req.method@ == post_method() && starts_with(req.path@, files_prefix()) ==> (r matches
            Action::ReceiveBody { name, length } && name@ == req.path@.subrange(
            7,
            req.path@.len() as int,
        ) && length as nat == content_length_spec(req.headers@)),
        !known_path(req.path@) ==> (r matches Action::Respond(resp) && plain_response(
            resp,
            Status::NotFound,
        )),
        known_path(req.path@) && !route_allows(req.method@, req.path@) ==> (r matches
            Action::Respond(resp) && plain_response(resp, Status::MethodNotAllowed)),
{
    let gz = supports_gzip(&req.headers);
    match route(&req.method, &req.path) {
        Route::Root => Action::Respond(plain(Status::Okay)),
        Route::Echo(m) => Action::Respond(echo_response(&m, gz)),
        Route::UserAgent => Action::Respond(user_agent_response(&req.headers, gz)),
        Route::FileGet(f) => {
            if safe_name_check(&f) {
                Action::ReadFile { name: f, gzip: gz }
            } else {
                Action::Respond(plain(Status::NotFound))
            }
        },
        Route::FilePost(f) => {
            let length = content_length(&req.headers);
            Action::ReceiveBody { name: f, length }
        },
        Route::NotFound => Action::Respond(plain(Status::NotFound)),
        Route::MethodNotAllowed => Action::Respond(plain(Status::MethodNotAllowed)),
    }
}

/// An echo answer is exact: status 200, `Content-Type: text/plain`, the body
/// is the message itself, and `Content-Length` names the message's byte
/// length — for every message, when no encoding was negotiated.
pub proof fn lemma_echo_exact(r: Response, m: Seq<u8>)
    requires
        payload_response(r, m, text_plain(), false),
    ensures
        r.status is Okay,
        r.body@ == m,
        lookup_spec(r.headers@, content_type_name()) == Some(text_plain()),
        lookup_spec(r.headers@, content_length_name()) == Some(dec_rep(m.len())),
{
}

/// Round trip: what a file-serving response carries is exactly the stored
/// content, for every byte sequence, the empty one included — so a file
/// stored by an upload and served back arrives unchanged, since
/// `post_body_action` writes the received body verbatim.
pub proof fn lemma_files_round_trip(r: Response, stored: Seq<u8>, name: Seq<u8>)
    requires
        payload_response(r, stored, mime_of(name), false),
    ensures
        r.body@ == stored,
{
}

/// When a response advertises gzip, its body is the compressed form of the
/// payload — never the raw bytes under a gzip label — and its
/// `Content-Length` names the compressed size.
pub proof fn lemma_gzip_advertised_is_compressed(r: Response, payload: Seq<u8>, ct: Seq<u8>)
    requires
        payload_response(r, payload, ct, true),
    ensures
        r.body@ == gzip_of(payload),
        lookup_spec(r.headers@, content_length_name()) == Some(dec_rep(gzip_of(payload).len())),
{
}

} // verus!
