use colmsg::controller::{
    check_jobs, retry_decision, run_outcome, selected_services, MemberStatus, RetryDecision,
    Service,
};
use colmsg::errors::{report, Error, IoFailure, RequestFailure};
use colmsg::http::client::{decode_error, get_url, header_value_ok, post_url, request_headers};

fn header<'a>(headers: &'a [(String, String)], name: &str) -> Option<&'a str> {
    headers.iter().find(|(k, _)| k == name).map(|(_, v)| v.as_str())
}

#[test]
fn all_public_clients_reject_invalid_authorization_without_network() {
    for service in Service::all() {
        let result = request_headers(service.app_id(), Some("invalid\r\ntoken"), false);
        assert!(matches!(result.unwrap_err(), Error::InvalidHeaderValue(_)));
    }
}

#[test]
fn headers_carry_the_app_id_the_token_and_the_dynamic_request() {
    let h = request_headers(Service::Sakurazaka.app_id(), Some("access-token"), true).unwrap();
    assert_eq!(h.len(), 10);
    assert_eq!(header(&h, "x-talk-app-id"), Some("jp.co.sonymusic.communication.sakurazaka 2.4"));
    assert_eq!(header(&h, "authorization"), Some("Bearer access-token"));
    assert_eq!(header(&h, "accept"), Some("application/json"));
    assert_eq!(header(&h, "prefer"), Some("dynamic=true"));
    assert_eq!(h[0].0, "accept");
    assert_eq!(h[9].0, "prefer");

    let post = request_headers(Service::Yodel.app_id(), None, false).unwrap();
    assert_eq!(post.len(), 8);
    assert_eq!(header(&post, "authorization"), None);
    assert_eq!(header(&post, "prefer"), None);
    assert_eq!(header(&post, "x-talk-app-id"), Some("jp.co.sonymusic.communication.yodel 2.4"));
}

#[test]
fn header_values_follow_http_rules() {
    assert!(header_value_ok("Bearer abc\tdef"));
    assert!(header_value_ok("テスト"));
    assert!(!header_value_ok("a\nb"));
    assert!(!header_value_ok("a\u{7f}"));
}

#[test]
fn get_addresses_join_the_path_and_add_the_query() {
    let u = get_url("http://127.0.0.1:1234", "/v2/groups", &None).unwrap();
    assert_eq!(u, "http://127.0.0.1:1234/v2/groups?");
    let p = Some(vec![("order".to_owned(), "asc".to_owned())]);
    let u = get_url("https://api.s46.glastonr.net", "/v2/groups/42/past_messages", &p).unwrap();
    assert_eq!(u, "https://api.s46.glastonr.net/v2/groups/42/past_messages?order=asc");
    let post = post_url("https://api.kh.glastonr.net", "/v2/update_token").unwrap();
    assert_eq!(post, "https://api.kh.glastonr.net/v2/update_token");
}

#[test]
fn an_invalid_base_address_is_a_url_error() {
    assert!(matches!(get_url("not a url", "/v2/groups", &None), Err(Error::UrlParseError(_))));
    match post_url("", "/v2/update_token") {
        Err(Error::UrlParseError(m)) => assert_eq!(m, "relative URL without a base"),
        _ => panic!("expected a URL error"),
    }
}

#[test]
fn undecodable_answers_name_the_address_and_body() {
    let e = decode_error("expected value", "http://x/v2/tags?", "oops");
    assert_eq!(
        e.message(),
        "error: expected value, request url: http://x/v2/tags?, response body: oops"
    );
    assert!(matches!(e, Error::Msg(_)));
}

#[test]
fn service_names_slugs_and_addresses() {
    let names: Vec<&str> = Service::all().into_iter().map(|s| s.name()).collect();
    assert_eq!(
        names,
        vec!["Sakurazaka", "Hinatazaka", "Nogizaka", "Asukasaito", "Maishiraishi", "Yodel"]
    );
    assert_eq!(Service::Hinatazaka.slug(), "hinatazaka");
    assert_eq!(Service::Nogizaka.base_url_variable(), "N_BASE_URL");
    assert_eq!(Service::Sakurazaka.base_url(None), "https://api.s46.glastonr.net");
    assert_eq!(
        Service::Sakurazaka.base_url(Some("http://127.0.0.1:9".to_owned())),
        "http://127.0.0.1:9"
    );
    assert_eq!(Service::Asukasaito.app_id(), "jp.co.sonymusic.communication.asukasaito 2.4");
}

#[test]
fn controller_public_methods_keep_the_legacy_path_and_reject_zero_jobs() {
    match check_jobs(0) {
        Err(e) => assert_eq!(e.message(), "jobs must be greater than zero"),
        Ok(()) => panic!("zero jobs must be refused"),
    }
    assert!(check_jobs(1).is_ok());
}

#[test]
fn only_a_refused_authorization_is_retried() {
    let refused: Result<(), Error> = Err(Error::ReqwestError(RequestFailure {
        status: Some(401),
        message: "401 Unauthorized".to_owned(),
    }));
    let other: Result<(), Error> = Err(Error::ReqwestError(RequestFailure {
        status: Some(500),
        message: "500".to_owned(),
    }));
    assert_eq!(retry_decision(1, &refused), RetryDecision::RetryWithNewToken);
    assert_eq!(retry_decision(1, &other), RetryDecision::Finish);
    assert_eq!(retry_decision(1, &Ok(())), RetryDecision::Finish);
    assert_eq!(retry_decision(1, &Err(Error::msg("x"))), RetryDecision::Finish);
}

#[test]
fn unauthorized_token_refresh_is_bounded_without_an_existing_cache() {
    let refused = || -> Result<(), Error> {
        Err(Error::ReqwestError(RequestFailure { status: Some(401), message: "401".to_owned() }))
    };
    let mut attempts: u32 = 0;
    loop {
        attempts += 1;
        let result = refused();
        if retry_decision(attempts, &result) == RetryDecision::Finish {
            assert!(result.unwrap_err().is_unauthorized());
            break;
        }
    }
    assert_eq!(attempts, 2);
    assert_eq!(retry_decision(2, &refused()), RetryDecision::Finish);
}

#[test]
fn only_selected_service_is_contacted() {
    let tokens = vec![true, true, false, true, false, true];
    assert_eq!(
        selected_services(&tokens, &None),
        vec![Service::Sakurazaka, Service::Hinatazaka, Service::Asukasaito, Service::Yodel]
    );
    let groups = Some(vec!["hinatazaka".to_owned(), "nogizaka".to_owned()]);
    assert_eq!(selected_services(&tokens, &groups), vec![Service::Hinatazaka]);
    assert_eq!(selected_services(&vec![false; 6], &None), vec![]);
}

#[test]
fn a_run_fails_when_some_service_failed() {
    let results = vec![
        (Service::Sakurazaka, Ok(())),
        (Service::Hinatazaka, Err(Error::msg("boom"))),
        (Service::Yodel, Err(Error::msg("bang"))),
    ];
    let outcome = run_outcome(&results);
    assert_eq!(outcome.failed_services, 2);
    assert_eq!(
        outcome.report.unwrap().message(),
        "one or more services failed:\nHinatazaka: boom\nYodel: bang"
    );
    let ok = run_outcome(&vec![(Service::Nogizaka, Ok(()))]);
    assert_eq!(ok.failed_services, 0);
    assert!(ok.report.is_none());
}

#[test]
fn public_error_handler_handles_broken_pipe_and_reports_other_errors() {
    let pipe = Error::Io(IoFailure { broken_pipe: true, message: "test-output-error".to_owned() });
    assert_eq!(report(&pipe), None);
    let denied = Error::Io(IoFailure { broken_pipe: false, message: "test-output-error".to_owned() });
    assert_eq!(report(&denied), Some("test-output-error".to_owned()));
    assert_eq!(report(&Error::msg("other")), Some("other".to_owned()));
}

#[test]
fn member_statuses_compare_by_variant() {
    assert_eq!(MemberStatus::Saving, MemberStatus::Saving);
    assert_ne!(MemberStatus::Done, MemberStatus::Failed);
}
