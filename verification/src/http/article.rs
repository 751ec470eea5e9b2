//! A single article of the first message API.
use vstd::prelude::*;

use crate::http::request::PostRequest;
use crate::text::owned;

verus! {

pub struct ArticleResult {
    pub disable: u32,
    pub phoneimage: Option<String>,
    pub thumbnail: String,
    pub url: String,
    pub silent: Option<u32>,
}

pub struct Article {
    pub result: ArticleResult,
    pub status: String,
    pub statuscd: String,
}

pub struct ArticleReq {
    pub article: String,
    pub token: String,
    pub username: String,
}

pub open spec fn path() -> Seq<char> {
    "/article"@
}

/// The request for an article: `POST /article` with the article, the token
/// and the user name.
pub fn request(article: &String, token: &String, username: &String) -> (r: PostRequest<ArticleReq>)
    ensures
        r.path@ == path(),
        r.body.article@ == article@,
        r.body.token@ == token@,
        r.body.username@ == username@,
        !r.is_dynamic,
{
    PostRequest {
        path: owned("/article"),
        body: ArticleReq {
            article: article.clone(),
            token: token.clone(),
            username: username.clone(),
        },
        is_dynamic: false,
    }
}

} // verus!
