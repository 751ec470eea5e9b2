//! A group's timeline: messages, letters and comments, page by page.
use vstd::prelude::*;

use crate::http::request::{GetRequest, id_path, make_id_path, parameters_view};
use crate::text::owned;

verus! {

/// How many messages a timeline page asks for at first.
pub const DEFAULT_COUNT: usize = 100;

pub struct TimelineComments {}

pub struct LinkParams {
    pub url: String,
    pub method: String,
    pub send_id: Option<u32>,
    /// The parameters, each as its JSON text: their shape is not fixed.
    pub parameters: Vec<String>,
}

pub struct TimelineMessages {
    pub group_id: u32,
    pub id: u32,
    pub is_favorite: bool,
    pub is_silent: bool,
    pub member_id: Option<u32>,
    pub publish_type: Option<String>,
    pub published_at: String,
    pub state: String,
    pub text: Option<String>,
    pub messages_type: String,
    pub link_params: Option<LinkParams>,
    pub updated_at: String,
    pub file: Option<String>,
    pub thumbnail: Option<String>,
    pub thumbnail_height: Option<u32>,
    pub thumbnail_width: Option<u32>,
}

pub struct TimelineLetters {
    pub client_token: String,
    pub created_at: String,
    pub file: String,
    pub group_id: u32,
    pub id: u32,
    pub is_favorite: bool,
    pub member_id: Option<u32>,
    pub opened_at: Option<String>,
    pub text: String,
    pub thumbnail: String,
    pub thumbnail_height: u32,
    pub thumbnail_width: u32,
    pub updated_at: String,
}

pub struct Timeline {
    pub comments: Vec<TimelineComments>,
    pub letters: Vec<TimelineLetters>,
    pub messages: Vec<TimelineMessages>,
    pub queried_at: String,
}

pub open spec fn timeline_path(id: u32) -> Seq<char> {
    id_path("/v2/groups"@, id, "/timeline"@)
}

/// Messages from the start of the service on are asked for.
pub open spec fn created_from() -> Seq<char> {
    "2000-01-01T00:00:00Z"@
}

/// The query of a timeline page: everything created since the start,
/// updated since `fromdate`, `count` messages at most, oldest first.
pub open spec fn timeline_parameters(fromdate: Seq<char>, count: Seq<char>) -> Seq<(Seq<char>, Seq<char>)> {
    seq![
        ("created_from"@, created_from()),
        ("updated_from"@, fromdate),
        ("count"@, count),
        ("order"@, "asc"@),
    ]
}

/// The request for a page of a group's timeline:
/// `GET /v2/groups/<id>/timeline`, with dynamic data.
pub fn request(access_token: &String, id: &u32, fromdate: &String, count: &String) -> (r: GetRequest)
    ensures
        r.path@ == timeline_path(*id),
        r.access_token@ == access_token@,
        parameters_view(r.parameters) == Some(timeline_parameters(fromdate@, count@)),
        r.is_dynamic,
{
    let mut parameters: Vec<(String, String)> = Vec::new();
    parameters.push((owned("created_from"), owned("2000-01-01T00:00:00Z")));
    parameters.push((owned("updated_from"), fromdate.clone()));
    parameters.push((owned("count"), count.clone()));
    parameters.push((owned("order"), owned("asc")));
    let r = GetRequest {
        path: make_id_path("/v2/groups", *id, "/timeline"),
        access_token: access_token.clone(),
        parameters: Some(parameters),
        is_dynamic: true,
    };
    assert(parameters_view(r.parameters)->0 =~= timeline_parameters(fromdate@, count@));
    r
}

} // verus!
