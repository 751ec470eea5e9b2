//! Member names, by id.
use vstd::prelude::*;

use crate::http::request::{GetRequest, id_path, make_id_path};
use crate::text::owned;

verus! {

pub struct Members {
    pub id: u32,
    pub name: String,
}

impl Clone for Members {
    fn clone(&self) -> (r: Self)
        ensures
            r == *self,
    {
        Members { id: self.id, name: self.name.clone() }
    }
}

pub open spec fn members_path() -> Seq<char> {
    "/v2/members"@
}

pub open spec fn group_members_path(group_id: u32) -> Seq<char> {
    id_path("/v2/groups"@, group_id, "/members"@)
}

/// The request for every member: `GET /v2/members`, with fixed data.
pub fn request_all(access_token: &String) -> (r: GetRequest)
    ensures
        r.path@ == members_path(),
        r.access_token@ == access_token@,
        r.parameters is None,
        !r.is_dynamic,
{
    GetRequest {
        path: owned("/v2/members"),
        access_token: access_token.clone(),
        parameters: None,
        is_dynamic: false,
    }
}

/// The request for the members who post in a group:
/// `GET /v2/groups/<id>/members`, with fixed data.
pub fn request(access_token: &String, group_id: &u32) -> (r: GetRequest)
    ensures
        r.path@ == group_members_path(*group_id),
        r.access_token@ == access_token@,
        r.parameters is None,
        !r.is_dynamic,
{
    GetRequest {
        path: make_id_path("/v2/groups", *group_id, "/members"),
        access_token: access_token.clone(),
        parameters: None,
        is_dynamic: false,
    }
}

} // verus!
