//! The fixed route table. Exact paths (`/`, `/user-agent`) are tried before
//! the prefix routes (`/echo/`, `/files/`); an empty suffix after a prefix is
//! a valid match (an empty echo body or filename). A known path reached with
//! the wrong method is told apart from an unknown path.
use vstd::prelude::*;

use crate::bytes::{copy_range, eq_arr, starts_with, starts_with_arr};

verus! {

/// Where a request goes. The prefix routes carry the rest of the path after
/// the prefix, verbatim: no percent-decoding, and a query string is not
/// stripped.
pub enum Route {
    Root,
    Echo(Vec<u8>),
    UserAgent,
    FileGet(Vec<u8>),
    FilePost(Vec<u8>),
    NotFound,
    MethodNotAllowed,
}

/// `"GET"`.
pub open spec fn get_method() -> Seq<u8> {
    seq![71u8, 69u8, 84u8]
}

/// `"POST"`.
pub open spec fn post_method() -> Seq<u8> {
    seq![80u8, 79u8, 83u8, 84u8]
}

/// `"/"`.
pub open spec fn root_path() -> Seq<u8> {
    seq![47u8]
}

/// `"/user-agent"`.
pub open spec fn user_agent_path() -> Seq<u8> {
    seq![47u8, 117u8, 115u8, 101u8, 114u8, 45u8, 97u8, 103u8, 101u8, 110u8, 116u8]
}

/// `"/echo/"`.
pub open spec fn echo_prefix() -> Seq<u8> {
    seq![47u8, 101u8, 99u8, 104u8, 111u8, 47u8]
}

/// `"/files/"`.
pub open spec fn files_prefix() -> Seq<u8> {
    seq![47u8, 102u8, 105u8, 108u8, 101u8, 115u8, 47u8]
}

/// The path matches some registered pattern, whatever the method.
pub open spec fn known_path(p: Seq<u8>) -> bool {
    p == root_path() || p == user_agent_path() || starts_with(p, echo_prefix()) || starts_with(
        p,
        files_prefix(),
    )
}

/// Some route is registered for this method on this path.
pub open spec fn route_allows(m: Seq<u8>, p: Seq<u8>) -> bool {
    (m == get_method() && known_path(p)) || (m == post_method() && starts_with(
        p,
        files_prefix(),
    ))
}

/// Map a method and path to their route. Unknown paths go to `NotFound`;
/// known paths under the wrong method go to `MethodNotAllowed`.
pub fn route(method: &Vec<u8>, path: &Vec<u8>) -> (r: Route)
    ensures
        r is Root <==> (method@ == get_method() && path@ == root_path()),
        r is UserAgent <==> (method@ == get_method() && path@ == user_agent_path()),
        r matches Route::Echo(m) ==> method@ == get_method() && starts_with(path@, echo_prefix())
            && m@ == path@.subrange(6, path@.len() as int),
        method@ == get_method() && starts_with(path@, echo_prefix()) ==> r is Echo,
        r matches Route::FileGet(f) ==> method@ == get_method() && starts_with(
            path@,
            files_prefix(),
        ) && f@ == path@.subrange(7, path@.len() as int),
        method@ == get_method() && starts_with(path@, files_prefix()) ==> r is FileGet,
        r matches Route::FilePost(f) ==> method@ == post_method() && starts_with(
            path@,
            files_prefix(),
        ) && f@ == path@.subrange(7, path@.len() as int),
        method@ == post_method() && starts_with(path@, files_prefix()) ==> r is FilePost,
        r is NotFound <==> !known_path(path@),
        r is MethodNotAllowed <==> (known_path(path@) && !route_allows(method@, path@)),
{
    let get_tok: [u8; 3] = [71, 69, 84];
    let post_tok: [u8; 4] = [80, 79, 83, 84];
    let root_tok: [u8; 1] = [47];
    let ua_tok: [u8; 11] = [47, 117, 115, 101, 114, 45, 97, 103, 101, 110, 116];
    let echo_tok: [u8; 6] = [47, 101, 99, 104, 111, 47];
    let files_tok: [u8; 7] = [47, 102, 105, 108, 101, 115, 47];
    proof {
        assert(get_tok@ =~= get_method());
        assert(post_tok@ =~= post_method());
        assert(root_tok@ =~= root_path());
        assert(ua_tok@ =~= user_agent_path());
        assert(echo_tok@ =~= echo_prefix());
        assert(files_tok@ =~= files_prefix());
    }
    let is_get = eq_arr(method, &get_tok);
    let is_post = eq_arr(method, &post_tok);
    if eq_arr(path, &root_tok) {
        if is_get {
            Route::Root
        } else {
            Route::MethodNotAllowed
        }
    } else if eq_arr(path, &ua_tok) {
        if is_get {
            Route::UserAgent
        } else {
            Route::MethodNotAllowed
        }
    } else if starts_with_arr(path, &echo_tok) {
        if is_get {
            Route::Echo(copy_range(path, 6, path.len()))
        } else {
            Route::MethodNotAllowed
        }
    } else if starts_with_arr(path, &files_tok) {
        if is_get {
            Route::FileGet(copy_range(path, 7, path.len()))
        } else if is_post {
            Route::FilePost(copy_range(path, 7, path.len()))
        } else {
            Route::MethodNotAllowed
        }
    } else {
        Route::NotFound
    }
}

} // verus!
