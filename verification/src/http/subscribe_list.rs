//! The subscriptions of the first message API.
use vstd::prelude::*;

use crate::http::request::PostRequest;
use crate::text::owned;

verus! {

pub struct SubscribeListResultCategories {
    pub category_id: u32,
    pub category_name: String,
    pub sortorder: u32,
}

pub struct SubscribeListResult {
    pub arrival: u32,
    pub autorenewing: u32,
    pub categories: Vec<SubscribeListResultCategories>,
    pub destletter: u32,
    pub disable: u32,
    pub enddate: String,
    pub expiredate: String,
    pub fullname: String,
    pub group: String,
    pub groupname: String,
    pub information: String,
    pub lastupdate: String,
    pub price: u32,
    pub productid: String,
    pub remainsec: i32,
    pub subscribed: String,
    pub thumbnail: String,
    pub thumbupdate: String,
    pub trialdays: i32,
}

pub struct SubscribeList {
    pub result: Vec<SubscribeListResult>,
    pub status: String,
    pub statuscd: String,
}

pub struct SubscribeListReq {
    pub token: String,
    pub username: String,
}

pub open spec fn path() -> Seq<char> {
    "/subscribe/list"@
}

/// The request for the subscriptions: `POST /subscribe/list` with the token
/// and the user name.
pub fn request(token: &String, username: &String) -> (r: PostRequest<SubscribeListReq>)
    ensures
        r.path@ == path(),
        r.body.token@ == token@,
        r.body.username@ == username@,
        !r.is_dynamic,
{
    PostRequest {
        path: owned("/subscribe/list"),
        body: SubscribeListReq { token: token.clone(), username: username.clone() },
        is_dynamic: false,
    }
}

} // verus!
