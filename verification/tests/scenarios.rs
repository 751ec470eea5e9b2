use std::collections::HashMap;
use colmsg::config::{get_args_from_str, parse_jobs};
use colmsg::controller::{check_jobs, retry_decision, run_outcome, RetryDecision, Service};
use colmsg::datetime::parse_cli_date;
use colmsg::dirs::ColmsgProjectDirs;
use colmsg::errors::{Error, RequestFailure};
use colmsg::http::client::{decode_error, get_url, request_headers};
use colmsg::http::groups::{Groups, GroupsSubscription};
use colmsg::http::tags::{Tags, TagsMeta};
use colmsg::http::timeline::{self, TimelineMessages};
use colmsg::message::file::{Extension, FileContent};
use colmsg::message::saver::{
    combine_member_results, latest_date, page_step, plan_message, start_date, subscribed_list,
    id_dates_from_names, plan_page, PageStep,
};
use colmsg::progress::summary_line;
use colmsg::Kind;

const INITIAL_DATE: &str = "2000-01-01T09:00:00Z";
const DATE: &str = "2026-09-23T01:02:03Z";
const TEXT: &str = "テスト用メッセージ☀\n二行目";
const APP_IDS: [&str; 6] = [
    "jp.co.sonymusic.communication.sakurazaka 2.4",
    "jp.co.sonymusic.communication.keyakizaka 2.4",
    "jp.co.sonymusic.communication.nogizaka 2.4",
    "jp.co.sonymusic.communication.asukasaito 2.4",
    "jp.co.sonymusicsolutions.maishiraishi 2.4",
    "jp.co.sonymusic.communication.yodel 2.4",
];

fn sample_message(id: u32, kind: &str) -> TimelineMessages {
    TimelineMessages {
        group_id: 1,
        id,
        is_favorite: false,
        is_silent: false,
        member_id: None,
        publish_type: None,
        published_at: DATE.to_owned(),
        state: "published".to_owned(),
        text: if ["text", "picture", "link"].contains(&kind) { Some(TEXT.to_owned()) } else { None },
        messages_type: kind.to_owned(),
        link_params: None,
        updated_at: DATE.to_owned(),
        file: if ["picture", "video", "voice"].contains(&kind) {
            Some(format!("http://127.0.0.1/media/{}", id))
        } else {
            None
        },
        thumbnail: None,
        thumbnail_height: None,
        thumbnail_width: None,
    }
}

fn catalog() -> (Vec<Groups>, Vec<Tags>) {
    let groups = vec![Groups {
        id: 1,
        is_letter_destination: false,
        name: "テスト メンバー".to_owned(),
        phone_image: None,
        priority: 1,
        state: "open".to_owned(),
        tags: vec!["generation".to_owned()],
        thumbnail: "thumbnail".to_owned(),
        trial_days: None,
        updated_at: DATE.to_owned(),
        subscription: Some(GroupsSubscription {
            auto_renewing: true,
            end_at: None,
            start_at: DATE.to_owned(),
            subscription_type: "monthly".to_owned(),
        }),
    }];
    let tags = vec![Tags {
        meta: Some(TagsMeta { color: Some("#ffffff".to_owned()), dimension: None }),
        name: "一期生".to_owned(),
        priority: 0,
        updated_at: DATE.to_owned(),
        uuid: "generation".to_owned(),
    }];
    (groups, tags)
}

fn every_kind() -> Vec<Kind> {
    vec![Kind::Text, Kind::Picture, Kind::Video, Kind::Voice, Kind::Link]
}

/// The files that planning the messages writes, as `name.ext`.
fn planned_files(messages: &[TimelineMessages], saved_names: &[String]) -> Vec<(String, Option<String>)> {
    let saved = id_dates_from_names(&saved_names.to_vec());
    let mut files = Vec::new();
    for m in messages {
        for action in plan_message(m, &saved, &HashMap::new(), &HashMap::new(), &every_kind()).unwrap() {
            let text = match &action.content {
                FileContent::Text(t) => Some(t.clone()),
                FileContent::Download(_) => None,
            };
            files.push((format!("{}.{}", action.file_name, action.extension.as_str()), text));
        }
    }
    files
}

fn saves_service(index: usize) {
    let service = Service::all()[index];
    let headers = request_headers(service.app_id(), Some("test-access-token"), true).unwrap();
    assert!(headers.iter().any(|(k, v)| k == "x-talk-app-id" && v == APP_IDS[index]));

    let (groups, tags) = catalog();
    let members = subscribed_list(&groups, &tags, &vec![]);
    assert_eq!(members.len(), 1);
    assert_eq!((members[0].gen.as_str(), members[0].name.as_str()), ("一期生", "テストメンバー"));

    // First run: nothing saved yet.
    let start = start_date(&None, &id_dates_from_names(&vec![])).unwrap();
    assert_eq!(start, INITIAL_DATE);
    let past = vec![sample_message(1, "text")];
    let page = vec![sample_message(2, "picture"), sample_message(3, "video"), sample_message(4, "voice"), sample_message(5, "link")];
    assert!(matches!(page_step(&start, timeline::DEFAULT_COUNT, &page), PageStep::SaveAndFinish));
    let mut written = planned_files(&past, &[]);
    written.extend(planned_files(&page, &[]));
    let names: Vec<&str> = written.iter().map(|(n, _)| n.as_str()).collect();
    assert_eq!(
        names,
        vec![
            "1_0_20260923010203_unknown.txt",
            "2_1_20260923010203_unknown.jpg",
            "2_1_20260923010203_unknown.txt",
            "3_2_20260923010203_unknown.mp4",
            "4_3_20260923010203_unknown.mp4",
            "5_4_20260923010203_unknown.txt",
        ]
    );
    for (name, text) in &written {
        if name.ends_with(".txt") {
            assert_eq!(text.as_deref(), Some(format!("{}\n", TEXT).as_str()));
        }
    }

    // Second run: the saved files give where to read on from, and nothing is written again.
    let saved_names: Vec<String> = written.iter().map(|(n, _)| n.clone()).collect();
    let saved = id_dates_from_names(&saved_names);
    assert_eq!(start_date(&None, &saved).unwrap(), DATE);
    let next: Vec<TimelineMessages> = ["text", "picture", "video", "voice", "link"]
        .iter()
        .enumerate()
        .map(|(i, kind)| sample_message(i as u32 + 1, kind))
        .collect();
    assert!(planned_files(&next, &saved_names).is_empty());
}

#[test]
fn sakurazaka_messages_are_downloaded_and_saved() {
    saves_service(0);
}

#[test]
fn hinatazaka_messages_are_downloaded_and_saved() {
    saves_service(1);
}

#[test]
fn nogizaka_messages_are_downloaded_and_saved() {
    saves_service(2);
}

#[test]
fn asukasaito_messages_are_downloaded_and_saved() {
    saves_service(3);
}

#[test]
fn maishiraishi_messages_are_downloaded_and_saved() {
    saves_service(4);
}

#[test]
fn yodel_messages_are_downloaded_and_saved() {
    saves_service(5);
}

#[test]
fn no_matching_members_only_prints_the_result_line() {
    let (groups, tags) = catalog();
    assert!(subscribed_list(&groups, &tags, &vec!["not-a-member".to_owned()]).is_empty());
    assert_eq!(summary_line(0, 0, 0), "No matching members found.");
}

#[test]
fn fully_filtered_page_still_advances_to_later_messages() {
    let mut page: Vec<TimelineMessages> = (1..=100).map(|id| sample_message(id, "text")).collect();
    page[0].updated_at = "2026-09-22T01:02:03Z".to_owned();
    let pictures_only = vec![Kind::Picture];
    for m in &page {
        assert!(plan_message(m, &vec![], &HashMap::new(), &HashMap::new(), &pictures_only).unwrap().is_empty());
    }
    match page_step(&INITIAL_DATE.to_owned(), 100, &page) {
        PageStep::SaveAndAdvance { fromdate } => assert_eq!(fromdate, DATE),
        _ => panic!("a full page must advance"),
    }
    let later = plan_message(&sample_message(101, "picture"), &vec![], &HashMap::new(), &HashMap::new(), &pictures_only).unwrap();
    assert_eq!(later.len(), 2);
    assert_eq!(later[0].extension, Extension::Jpg);
    assert_eq!(later[0].file_name, "101_1_20260923010203_unknown");
}

#[test]
fn invalid_cli_arguments_fail_without_network() {
    assert!(check_jobs(parse_jobs(Some("0")).unwrap()).is_err());
    assert!(parse_jobs(Some("not-a-number")).is_err());
    assert!(parse_cli_date("not-a-date").is_err());
}

#[test]
fn transport_and_invalid_url_errors_are_reported() {
    assert!(matches!(get_url("not a URL", "/v2/members", &None), Err(Error::UrlParseError(_))));
    assert_eq!(get_url("http://127.0.0.1:1", "/v2/members", &None).unwrap(), "http://127.0.0.1:1/v2/members?");
}

#[test]
fn invalid_cached_authorization_is_rejected() {
    let result = request_headers(Service::Sakurazaka.app_id(), Some("bad\ntoken"), false);
    assert!(matches!(result, Err(Error::InvalidHeaderValue(_))));
}

#[test]
fn malformed_or_incompatible_api_json_is_reported() {
    let e = decode_error("invalid type: string \"1\", expected u32", "http://x/v2/groups?", "[{\"id\":\"1\"}]");
    assert!(e.message().starts_with("error: invalid type"));
    assert!(e.message().ends_with("response body: [{\"id\":\"1\"}]"));
}

#[test]
fn http_failures_are_reported_for_each_service() {
    let results: Vec<(Service, Result<(), Error>)> = Service::all()
        .into_iter()
        .map(|s| (s, Err(Error::msg("500 Internal Server Error"))))
        .collect();
    let outcome = run_outcome(&results);
    assert_eq!(outcome.failed_services, 6);
    let report = outcome.report.unwrap().message();
    for s in Service::all() {
        assert!(report.contains(&format!("{}: 500 Internal Server Error", s.name())));
    }
    assert_eq!(summary_line(0, 0, 6), "6 services failed.");
}

#[test]
fn persistent_unauthorized_response_stops_for_every_service() {
    let refused = || Error::ReqwestError(RequestFailure { status: Some(401), message: "401 Unauthorized".to_owned() });
    let stopped = combine_member_results(vec![("a".to_owned(), Err(refused())), ("b".to_owned(), Ok(()))]);
    assert!(stopped.as_ref().unwrap_err().is_unauthorized());
    assert_eq!(retry_decision(1, &stopped), RetryDecision::RetryWithNewToken);
    assert_eq!(retry_decision(2, &Err(refused())), RetryDecision::Finish);
}

#[test]
fn expired_cached_token_is_refreshed_for_each_service() {
    for _service in Service::all() {
        let expired: Result<(), Error> =
            Err(Error::ReqwestError(RequestFailure { status: Some(401), message: "401".to_owned() }));
        assert_eq!(retry_decision(1, &expired), RetryDecision::RetryWithNewToken);
        assert_eq!(retry_decision(2, &Ok(())), RetryDecision::Finish);
    }
}

#[test]
fn dynamic_mock_requests_send_prefer_for_each_openapi_base_url() {
    for service in [Service::Sakurazaka, Service::Hinatazaka, Service::Nogizaka] {
        let h = request_headers(service.app_id(), Some("access-token"), true).unwrap();
        assert!(h.iter().any(|(k, v)| k == "prefer" && v == "dynamic=true"));
        let fixed = request_headers(service.app_id(), Some("access-token"), false).unwrap();
        assert!(!fixed.iter().any(|(k, _)| k == "prefer"));
    }
}

#[test]
fn service_works_with_only_its_own_api_override() {
    let variables: Vec<&str> = Service::all().into_iter().map(|s| s.base_url_variable()).collect();
    assert_eq!(variables, vec!["S_BASE_URL", "H_BASE_URL", "N_BASE_URL", "A_BASE_URL", "M_BASE_URL", "Y_BASE_URL"]);
    assert_eq!(Service::Sakurazaka.base_url(Some("http://127.0.0.1:5".to_owned())), "http://127.0.0.1:5");
    assert_eq!(Service::Hinatazaka.base_url(None), "https://api.kh.glastonr.net");
    assert_eq!(Service::Nogizaka.base_url(None), "https://api.n46.glastonr.net");
}

#[test]
fn default_download_directory_is_created_under_isolated_home() {
    let dirs = ColmsgProjectDirs::new(Some("/tmp/h/.config/".to_owned()), Some("/tmp/h/Downloads".to_owned()), '/').unwrap();
    assert_eq!(dirs.download_dir(), "/tmp/h/Downloads/colmsg");
    assert_eq!(dirs.config_dir(), "/tmp/h/.config/colmsg");
    assert!(ColmsgProjectDirs::new(None, Some("/tmp/h/Downloads".to_owned()), '/').is_none());
}

#[test]
fn custom_configuration_file_is_used() {
    assert_eq!(
        get_args_from_str("--s_refresh_token test-refresh-token").unwrap(),
        vec!["--s_refresh_token", "test-refresh-token"]
    );
}

#[test]
fn the_latest_saved_file_decides_where_to_resume() {
    let names = vec!["2_0_20260923010203_x.txt".to_owned(), "1_0_20260101000000_x.txt".to_owned()];
    let saved = id_dates_from_names(&names);
    assert_eq!(latest_date(&saved).unwrap(), DATE);
    let from = Some(parse_cli_date("2020/01/01 00:00:00").unwrap());
    assert_eq!(start_date(&from, &saved).unwrap(), "2020-01-01T00:00:00Z");
}

#[test]
fn token_refresh_failure_is_reported_for_each_service() {
    for service in Service::all() {
        let request = colmsg::http::update_token::request(&"test-refresh-token".to_owned());
        assert_eq!(request.path, "/v2/update_token");
        assert_eq!(request.body.refresh_token, "test-refresh-token");
        let refused: Result<(), Error> =
            Err(Error::ReqwestError(RequestFailure { status: Some(400), message: "400 Bad Request".to_owned() }));
        assert_eq!(retry_decision(1, &refused), RetryDecision::Finish);
        let outcome = run_outcome(&vec![(service, refused)]);
        assert_eq!(outcome.failed_services, 1);
        assert_eq!(
            outcome.report.unwrap().message(),
            format!("one or more services failed:\n{}: 400 Bad Request", service.name())
        );
    }
}

#[test]
fn a_page_is_planned_up_to_its_first_failure() {
    let page = vec![sample_message(1, "text"), sample_message(2, "unknown"), sample_message(3, "text")];
    let (actions, failure) = plan_page(&page, &vec![], &HashMap::new(), &HashMap::new(), &every_kind());
    assert_eq!(actions.len(), 1);
    assert_eq!(actions[0].file_name, "1_0_20260923010203_unknown");
    assert_eq!(failure.unwrap().message(), "unknown type: unknown");
    let (all, none) = plan_page(&vec![sample_message(1, "picture"), sample_message(2, "voice")], &vec![], &HashMap::new(), &HashMap::new(), &every_kind());
    assert_eq!(all.len(), 3);
    assert!(none.is_none());
}

#[test]
fn running_again_over_saved_messages_writes_nothing() {
    let page: Vec<TimelineMessages> = ["text", "picture", "video", "voice", "link"]
        .iter()
        .enumerate()
        .map(|(i, kind)| sample_message(i as u32 + 1, kind))
        .collect();
    let (first, failure) = plan_page(&page, &vec![], &HashMap::new(), &HashMap::new(), &every_kind());
    assert!(failure.is_none());
    let mut names: Vec<String> = first
        .iter()
        .map(|a| format!("{}.{}", a.file_name, a.extension.as_str()))
        .collect();
    names.push("notes.txt".to_owned());
    names.push("99999999999_0_1.txt".to_owned());
    let saved = id_dates_from_names(&names);
    let (again, failure) = plan_page(&page, &saved, &HashMap::new(), &HashMap::new(), &every_kind());
    assert!(again.is_empty());
    assert!(failure.is_none());
}

#[test]
fn each_slug_is_the_lowercase_name() {
    let slugs: Vec<&str> = Service::all().into_iter().map(|s| s.slug()).collect();
    for s in Service::all() {
        assert_eq!(s.slug(), s.name().to_ascii_lowercase());
    }
    let mut unique = slugs.clone();
    unique.sort();
    unique.dedup();
    assert_eq!(unique.len(), 6);
}

#[test]
fn the_last_years_that_chrono_holds_are_written() {
    let late = colmsg::datetime::DateTimeParts {
        year: 262142, month: 12, day: 31, hour: 23, minute: 59, second: 59, nanosecond: 0,
    };
    assert_eq!(colmsg::datetime::to_api_text(&late), "+262142-12-31T23:59:59Z");
    let early = colmsg::datetime::DateTimeParts {
        year: -262143, month: 1, day: 1, hour: 0, minute: 0, second: 0, nanosecond: 0,
    };
    assert_eq!(colmsg::datetime::to_api_text(&early), "-262143-01-01T00:00:00Z");
}
