//! Requests as values: what is sent, before anything is sent.
use vstd::prelude::*;

use crate::text::{decimal, owned, push_all, push_decimal};

verus! {

/// A GET request to the API.
pub struct GetRequest {
    pub path: String,
    pub access_token: String,
    pub parameters: Option<Vec<(String, String)>>,
    /// Whether the answer changes between calls (a mock server is then asked
    /// for dynamic data).
    pub is_dynamic: bool,
}

/// A POST request to the API, with the body that is sent as JSON.
pub struct PostRequest<B> {
    pub path: String,
    pub body: B,
    pub is_dynamic: bool,
}

/// The view of query parameters: each name with its value.
pub open spec fn parameters_view(p: Option<Vec<(String, String)>>) -> Option<Seq<(Seq<char>, Seq<char>)>> {
    match p {
        Some(v) => Some(v@.map_values(|kv: (String, String)| (kv.0@, kv.1@))),
        None => None,
    }
}

/// `<prefix>/<id><suffix>`, as `format!("{}/{}{}", ..)` writes it.
pub open spec fn id_path(prefix: Seq<char>, id: u32, suffix: Seq<char>) -> Seq<char> {
    prefix + seq!['/'] + decimal(id as nat) + suffix
}

pub fn make_id_path(prefix: &str, id: u32, suffix: &str) -> (r: String)
    ensures
        r@ == id_path(prefix@, id, suffix@),
{
    let mut r = owned(prefix);
    push_all(&mut r, "/");
    proof {
        reveal_strlit("/");
    }
    push_decimal(&mut r, id as u64);
    push_all(&mut r, suffix);
    assert(r@ =~= id_path(prefix@, id, suffix@));
    r
}

} // verus!
