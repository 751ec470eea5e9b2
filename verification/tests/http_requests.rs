use colmsg::http::groups;
use colmsg::http::members;
use colmsg::http::past_messages;
use colmsg::http::request::make_id_path;
use colmsg::http::tags;
use colmsg::http::timeline;
use colmsg::http::update_token;

fn pairs(p: &Option<Vec<(String, String)>>) -> Option<Vec<(&str, &str)>> {
    p.as_ref().map(|v| v.iter().map(|(k, v)| (k.as_str(), v.as_str())).collect())
}

#[test]
fn request_returns_groups_using_the_groups_endpoint_without_dynamic_data() {
    let r = groups::request(&"access-token".to_owned());
    assert_eq!(r.path, "/v2/groups");
    assert_eq!(r.access_token, "access-token");
    assert!(r.parameters.is_none());
    assert!(!r.is_dynamic);
}

#[test]
fn request_all_returns_members_from_the_global_endpoint() {
    let r = members::request_all(&"access-token".to_owned());
    assert_eq!(r.path, "/v2/members");
    assert_eq!(r.access_token, "access-token");
    assert!(r.parameters.is_none());
    assert!(!r.is_dynamic);
}

#[test]
fn request_returns_members_from_the_group_endpoint() {
    let r = members::request(&"access-token".to_owned(), &48);
    assert_eq!(r.path, "/v2/groups/48/members");
    assert_eq!(r.access_token, "access-token");
    assert!(r.parameters.is_none());
    assert!(!r.is_dynamic);
}

#[test]
fn request_returns_past_messages_for_the_requested_member_in_ascending_order() {
    let r = past_messages::request(&"access-token".to_owned(), &42);
    assert_eq!(r.path, "/v2/groups/42/past_messages");
    assert_eq!(r.access_token, "access-token");
    assert_eq!(pairs(&r.parameters), Some(vec![("order", "asc")]));
    assert!(r.is_dynamic);
}

#[test]
fn request_returns_tags_and_preserves_optional_metadata() {
    let r = tags::request(&"access-token".to_owned());
    assert_eq!(r.path, "/v2/tags");
    assert_eq!(r.access_token, "access-token");
    assert!(r.parameters.is_none());
    assert!(!r.is_dynamic);
}

#[test]
fn request_sends_the_refresh_token_and_returns_rotated_tokens() {
    let r = update_token::request(&"old-refresh".to_owned());
    assert_eq!(r.path, "/v2/update_token");
    assert_eq!(r.body.refresh_token, "old-refresh");
    assert!(r.is_dynamic);
}

#[test]
fn timeline_request_asks_for_a_page_updated_since_the_date() {
    let r = timeline::request(
        &"token".to_owned(),
        &7,
        &"2026-09-23T01:02:03Z".to_owned(),
        &"100".to_owned(),
    );
    assert_eq!(r.path, "/v2/groups/7/timeline");
    assert_eq!(r.access_token, "token");
    assert_eq!(
        pairs(&r.parameters),
        Some(vec![
            ("created_from", "2000-01-01T00:00:00Z"),
            ("updated_from", "2026-09-23T01:02:03Z"),
            ("count", "100"),
            ("order", "asc"),
        ])
    );
    assert!(r.is_dynamic);
    assert_eq!(timeline::DEFAULT_COUNT, 100);
}

#[test]
fn id_paths_write_the_id_in_decimal() {
    assert_eq!(make_id_path("/v2/groups", 0, "/members"), "/v2/groups/0/members");
    assert_eq!(make_id_path("/v2/groups", 4294967295, ""), "/v2/groups/4294967295");
}
