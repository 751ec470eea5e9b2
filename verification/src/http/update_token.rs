//! Exchanging a refresh token for an access token.
use vstd::prelude::*;

use crate::http::request::PostRequest;
use crate::text::owned;

verus! {

pub struct InvalidParameter {
    pub code: String,
    pub message: String,
    pub parameter: String,
}

pub struct UpdateToken {
    pub access_token: String,
    pub expires_in: u32,
    pub refresh_token: String,
}

pub struct UpdateTokenReq {
    pub refresh_token: String,
}

pub open spec fn path() -> Seq<char> {
    "/v2/update_token"@
}

/// The request for a fresh access token: `POST /v2/update_token` with the
/// refresh token in the body.
pub fn request(refresh_token: &String) -> (r: PostRequest<UpdateTokenReq>)
    ensures
        r.path@ == path(),
        r.body.refresh_token@ == refresh_token@,
        r.is_dynamic,
{
    PostRequest {
        path: owned("/v2/update_token"),
        body: UpdateTokenReq { refresh_token: refresh_token.clone() },
        is_dynamic: true,
    }
}

} // verus!
