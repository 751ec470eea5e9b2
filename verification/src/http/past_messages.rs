//! Messages delivered up to a day before the subscription started.
use vstd::prelude::*;

use crate::http::request::{GetRequest, id_path, make_id_path, parameters_view};
use crate::http::timeline::TimelineMessages;
use crate::text::owned;

verus! {

pub struct PastMessages {
    pub messages: Vec<TimelineMessages>,
}

pub open spec fn past_messages_path(id: u32) -> Seq<char> {
    id_path("/v2/groups"@, id, "/past_messages"@)
}

/// The request for a group's past messages, oldest first:
/// `GET /v2/groups/<id>/past_messages?order=asc`, with dynamic data.
pub fn request(access_token: &String, id: &u32) -> (r: GetRequest)
    ensures
        r.path@ == past_messages_path(*id),
        r.access_token@ == access_token@,
        parameters_view(r.parameters) == Some(seq![("order"@, "asc"@)]),
        r.is_dynamic,
{
    let mut parameters: Vec<(String, String)> = Vec::new();
    parameters.push((owned("order"), owned("asc")));
    let r = GetRequest {
        path: make_id_path("/v2/groups", *id, "/past_messages"),
        access_token: access_token.clone(),
        parameters: Some(parameters),
        is_dynamic: true,
    };
    assert(parameters_view(r.parameters)->0 =~= seq![("order"@, "asc"@)]);
    r
}

} // verus!
