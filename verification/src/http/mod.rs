//! The messaging API: what each request asks for and what its answers hold.
pub mod article;
pub mod article_allhistory;
pub mod client;
pub mod groups;
pub mod members;
pub mod past_messages;
pub mod request;
pub mod subscribe_list;
pub mod tags;
pub mod timeline;
pub mod update_token;
