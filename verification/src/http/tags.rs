//! Tags that sort groups into generations and larger groups.
use vstd::prelude::*;

use crate::http::request::GetRequest;
use crate::text::owned;

verus! {

pub struct TagsMeta {
    pub color: Option<String>,
    pub dimension: Option<String>,
}

pub struct Tags {
    pub meta: Option<TagsMeta>,
    pub name: String,
    pub priority: u32,
    pub updated_at: String,
    pub uuid: String,
}

pub open spec fn path() -> Seq<char> {
    "/v2/tags"@
}

/// The request for every tag: `GET /v2/tags`, with fixed data.
pub fn request(access_token: &String) -> (r: GetRequest)
    ensures
        r.path@ == path(),
        r.access_token@ == access_token@,
        r.parameters is None,
        !r.is_dynamic,
{
    GetRequest {
        path: owned("/v2/tags"),
        access_token: access_token.clone(),
        parameters: None,
        is_dynamic: false,
    }
}

} // verus!
