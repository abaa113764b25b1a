//! Which requests the service answers: `GET /predictions/{client_id}` and
//! nothing else.

use vstd::prelude::*;

verus! {

/// The method of a lookup.
pub open spec fn lookup_method() -> Seq<char> {
    "GET"@
}

/// What the path of a lookup begins with.
pub open spec fn path_prefix() -> Seq<char> {
    "/predictions/"@
}

/// Whether a text can name a client in a path: it is there, and it is one
/// segment. Nothing else is asked of a client id.
pub open spec fn is_client_id(text: Seq<char>) -> bool {
    text.len() > 0 && !text.contains('/')
}

/// The path that looks up the client `client_id`.
pub open spec fn lookup_path(client_id: Seq<char>) -> Seq<char> {
    path_prefix() + client_id
}

/// The client that a path looks up, if the path is that of a lookup. The
/// client id is the rest of the path as it stands: nothing is decoded.
pub open spec fn client_of_path(path: Seq<char>) -> Option<Seq<char>> {
    let at = path_prefix().len() as int;
    if path.len() > at && path.take(at) == path_prefix() && !path.skip(at).contains('/') {
        Some(path.skip(at))
    } else {
        None
    }
}

/// Where a request goes.
#[derive(Debug)]
pub enum Route {
    /// To the lookup of the client with this id.
    Lookup(String),
    /// Nowhere: the path is not that of a lookup.
    NotFound,
    /// Nowhere: the method is not that of a lookup.
    MethodNotAllowed,
}

/// Where the request with this method and path goes. The method is looked
/// at first: a request with another method than `GET` is turned away
/// whatever its path.
pub fn route(method: &str, path: &str) -> (to: Route)
    ensures
        match to {
            Route::Lookup(client_id) => method@ == lookup_method() && client_of_path(path@) == Some(
                client_id@,
            ),
            Route::NotFound => method@ == lookup_method() && client_of_path(path@) is None,
            Route::MethodNotAllowed => method@ != lookup_method(),
        },
{
    if !same_text(method, "GET") {
        return Route::MethodNotAllowed;
    }
    proof {
        reveal_strlit("/predictions/");
    }
    let length = path.unicode_len();
    if length <= 13 {
        return Route::NotFound;
    }
    let head = path.substring_char(0, 13);
    if !same_text(head, "/predictions/") {
        return Route::NotFound;
    }
    let rest = path.substring_char(13, length);
    if has_slash(rest) {
        return Route::NotFound;
    }
    Route::Lookup(String::from_str(rest))
}

/// A path made for a client id leads to that client, and a path that leads
/// to a client is the one made for it.
pub proof fn lemma_path_round_trip(client_id: Seq<char>, path: Seq<char>)
    ensures
        is_client_id(client_id) ==> client_of_path(lookup_path(client_id)) == Some(client_id),
        client_of_path(path) == Some(client_id) ==> is_client_id(client_id) && path == lookup_path(
            client_id,
        ),
{
    let at = path_prefix().len() as int;
    assert(lookup_path(client_id).take(at) =~= path_prefix());
    assert(lookup_path(client_id).skip(at) =~= client_id);
    assert(path.len() >= at ==> path =~= path.take(at) + path.skip(at));
}

/// Whether two texts are the same.
fn same_text(left: &str, right: &str) -> (same: bool)
    ensures
        same == (left@ == right@),
{
    String::from_str(left) == String::from_str(right)
}

/// Whether a text holds a slash.
fn has_slash(text: &str) -> (found: bool)
    ensures
        found == text@.contains('/'),
{
    let mut found = false;
    for c in it: text.chars()
        invariant
            it.seq() == text@,
            found == text@.take(it.index()).contains('/'),
    {
        proof {
            let seen = text@.take(it.index());
            let more = text@.take(it.index() + 1);
            assert(more =~= seen.push(c));
            if seen.contains('/') {
                let i = choose|i: int| 0 <= i < seen.len() && seen[i] == '/';
                assert(more[i] == '/');
            }
            if more.contains('/') && c != '/' {
                let i = choose|i: int| 0 <= i < more.len() && more[i] == '/';
                assert(seen[i] == '/');
            }
            if c == '/' {
                assert(more[it.index()] == '/');
            }
        }
        if c == '/' {
            found = true;
        }
    }
    assert(text@.take(text@.len() as int) =~= text@);
    found
}

} // verus!
