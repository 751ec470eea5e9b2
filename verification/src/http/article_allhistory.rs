//! The whole history of a group in the first message API.
use vstd::prelude::*;

use crate::http::request::PostRequest;
use crate::text::owned;

verus! {

pub struct ArticleAllhistoryResultGroupMembers {
    pub author: String,
    pub destletter: u32,
    pub disable: u32,
    pub lastupdate: String,
    pub name: String,
    pub sortorder: u32,
    pub thumbupdate: String,
}

pub struct ArticleAllhistoryResultGroup {
    pub autorenewing: u32,
    pub destletter: u32,
    pub disable: u32,
    pub enddate: String,
    pub expiredate: String,
    pub lastupdate: String,
    pub members: Vec<ArticleAllhistoryResultGroupMembers>,
    pub remainsec: i32,
    pub subscribed: String,
    pub thumbupdate: String,
}

pub struct ArticleAllhistoryResultHistoryBodyLinkParam {}

pub struct ArticleAllhistoryResultHistoryBody {
    pub author: String,
    pub contents: Option<String>,
    pub date: String,
    pub disable: u32,
    pub favorite: bool,
    pub group: String,
    pub link_param: Option<ArticleAllhistoryResultHistoryBodyLinkParam>,
    pub media: Option<u32>,
    pub parent_comment: Option<String>,
    pub parent_fanletter: Option<String>,
    pub premium: Option<u32>,
    pub seq_id: Option<u32>,
    pub special: Option<u32>,
    pub stamp: Option<String>,
    pub talk: Option<String>,
    pub thread: String,
    pub thumbheight: u32,
    pub thumbwidth: u32,
    pub lastupdate: Option<String>,
    pub letter: Option<String>,
    pub opendate: Option<String>,
    pub opened: Option<u32>,
}

pub struct ArticleAllhistoryResultHistory {
    pub body: ArticleAllhistoryResultHistoryBody,
    pub kind: u32,
}

pub struct ArticleAllhistoryResult {
    pub group: ArticleAllhistoryResultGroup,
    pub history: Vec<ArticleAllhistoryResultHistory>,
}

pub struct ArticleAllhistory {
    pub result: ArticleAllhistoryResult,
    pub status: String,
    pub statuscd: String,
}

pub struct ArticleAllhistoryReq {
    pub group: String,
    pub token: String,
    pub username: String,
    pub count: u32,
    pub fromdate: String,
    pub sortorder: u32,
    pub todate: String,
}

pub open spec fn path() -> Seq<char> {
    "/article/allhistory"@
}

/// The request for a group's history between two dates:
/// `POST /article/allhistory` with every argument in the body.
pub fn request(
    group: &String,
    token: &String,
    username: &String,
    count: u32,
    fromdate: &String,
    sortorder: u32,
    todate: &String,
) -> (r: PostRequest<ArticleAllhistoryReq>)
    ensures
        r.path@ == path(),
        r.body.group@ == group@,
        r.body.token@ == token@,
        r.body.username@ == username@,
        r.body.count == count,
        r.body.fromdate@ == fromdate@,
        r.body.sortorder == sortorder,
        r.body.todate@ == todate@,
        !r.is_dynamic,
{
    PostRequest {
        path: owned("/article/allhistory"),
        body: ArticleAllhistoryReq {
            group: group.clone(),
            token: token.clone(),
            username: username.clone(),
            count,
            fromdate: fromdate.clone(),
            sortorder,
            todate: todate.clone(),
        },
        is_dynamic: false,
    }
}

} // verus!
