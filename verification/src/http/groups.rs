//! The groups (members) that the account can subscribe to.
use vstd::prelude::*;

use crate::http::request::GetRequest;
use crate::text::owned;

verus! {

pub struct GroupsSubscription {
    pub auto_renewing: bool,
    pub end_at: Option<String>,
    pub start_at: String,
    pub subscription_type: String,
}

pub struct Groups {
    pub id: u32,
    pub is_letter_destination: bool,
    pub name: String,
    pub phone_image: Option<String>,
    pub priority: u32,
    pub state: String,
    pub tags: Vec<String>,
    pub thumbnail: String,
    pub trial_days: Option<u32>,
    pub updated_at: String,
    pub subscription: Option<GroupsSubscription>,
}

pub open spec fn path() -> Seq<char> {
    "/v2/groups"@
}

/// The request for every group: `GET /v2/groups`, with fixed data.
pub fn request(access_token: &String) -> (r: GetRequest)
    ensures
        r.path@ == path(),
        r.access_token@ == access_token@,
        r.parameters is None,
        !r.is_dynamic,
{
    GetRequest {
        path: owned("/v2/groups"),
        access_token: access_token.clone(),
        parameters: None,
        is_dynamic: false,
    }
}

} // verus!
