use std::collections::HashMap;
use colmsg::errors::Error;
use colmsg::http::groups::{Groups, GroupsSubscription};
use colmsg::http::members::Members;
use colmsg::http::tags::{Tags, TagsMeta};
use colmsg::http::timeline::TimelineMessages;
use colmsg::message::file::{
    file_name, save_media, save_text, Extension, FileAction, FileContent, Picture, SaveToFile,
    Text, Video, Voice,
};
use colmsg::message::saver::{
    combine_member_results, create_member_identifier_list, dir_entry_to_id_date,
    id_dates_from_names, latest_date, names_by_id, page_step, plan_message, poster_name, start_date,
    subscribed_list, worker_count, IdDate, PageStep,
};
use colmsg::datetime::{parse_cli_date, DateTimeParts};
use colmsg::errors::RequestFailure;
use colmsg::Kind;

const DATE: &str = "2026-09-23T01:02:03Z";
const STAMP: &str = "20260923010203";

fn message(id: u32, kind: &str) -> TimelineMessages {
    let with_text = ["text", "picture", "link"].contains(&kind);
    let with_file = ["picture", "video", "voice"].contains(&kind);
    TimelineMessages {
        group_id: 1,
        id,
        is_favorite: false,
        is_silent: false,
        member_id: None,
        publish_type: None,
        published_at: DATE.to_owned(),
        state: "published".to_owned(),
        text: if with_text { Some("テスト本文".to_owned()) } else { None },
        messages_type: kind.to_owned(),
        link_params: None,
        updated_at: DATE.to_owned(),
        file: if with_file { Some(format!("http://media/{}", id)) } else { None },
        thumbnail: None,
        thumbnail_height: None,
        thumbnail_width: None,
    }
}

fn text_of(a: &FileAction) -> &str {
    match &a.content {
        FileContent::Text(t) => t.as_str(),
        FileContent::Download(_) => panic!("expected a text"),
    }
}

fn url_of(a: &FileAction) -> &str {
    match &a.content {
        FileContent::Download(u) => u.as_str(),
        FileContent::Text(_) => panic!("expected a download"),
    }
}

fn all_kinds() -> Vec<Kind> {
    vec![Kind::Text, Kind::Picture, Kind::Video, Kind::Voice, Kind::Link]
}

fn group(id: u32, name: &str, subscribed: bool, tags: &[&str]) -> Groups {
    Groups {
        id,
        is_letter_destination: false,
        name: name.to_owned(),
        phone_image: None,
        priority: 1,
        state: "open".to_owned(),
        tags: tags.iter().map(|t| t.to_string()).collect(),
        thumbnail: "thumbnail".to_owned(),
        trial_days: None,
        updated_at: DATE.to_owned(),
        subscription: if subscribed {
            Some(GroupsSubscription {
                auto_renewing: true,
                end_at: None,
                start_at: DATE.to_owned(),
                subscription_type: "monthly".to_owned(),
            })
        } else {
            None
        },
    }
}

fn tag(uuid: &str, name: &str, dimension: Option<&str>) -> Tags {
    Tags {
        meta: Some(TagsMeta { color: None, dimension: dimension.map(|d| d.to_owned()) }),
        name: name.to_owned(),
        priority: 0,
        updated_at: DATE.to_owned(),
        uuid: uuid.to_owned(),
    }
}

#[test]
fn file_names_carry_id_kind_date_and_poster() {
    assert_eq!(file_name(1, 0, DATE, "unknown").unwrap(), "1_0_20260923010203_unknown");
    assert_eq!(file_name(4294967295, 4, "1999-12-31T23:59:59Z", "テスト").unwrap(),
        "4294967295_4_19991231235959_テスト");
    match file_name(1, 0, "invalid", "unknown") {
        Err(Error::Msg(m)) => assert_eq!(m, "Parse error. date: invalid"),
        _ => panic!("expected a parse error"),
    }
}

#[test]
fn literal_escaped_line_breaks_are_normalized() {
    let actions = save_text(&"1_0_x".to_owned(), &Some("a\\r\\nb".to_owned()));
    assert_eq!(actions.len(), 1);
    assert_eq!(actions[0].file_name, "1_0_x");
    assert_eq!(actions[0].extension, Extension::Txt);
    assert_eq!(text_of(&actions[0]), "a\nb\n");
}

#[test]
fn empty_text_is_preserved_as_a_message() {
    let actions = save_text(&"1_0_x".to_owned(), &Some(String::new()));
    assert_eq!(actions.len(), 1);
    assert_eq!(text_of(&actions[0]), "\n");
}

#[test]
fn absent_optional_text_and_media_do_not_create_empty_files() {
    assert!(save_text(&"n".to_owned(), &None).is_empty());
    assert!(save_media(&"n".to_owned(), &None, Extension::Jpg).is_empty());
    assert!(Picture::new("n".to_owned(), None, None).save().is_empty());
    assert!(Video::new("n".to_owned(), None).save().is_empty());
    assert!(Voice::new("n".to_owned(), None).save().is_empty());
    assert!(Text::new("n".to_owned(), None).save().is_empty());
}

#[test]
fn a_picture_is_downloaded_before_its_caption_is_written() {
    let actions = Picture::new("2_1_s".to_owned(), Some("cap".to_owned()), Some("http://m/2".to_owned())).save();
    assert_eq!(actions.len(), 2);
    assert_eq!(actions[0].extension, Extension::Jpg);
    assert_eq!(url_of(&actions[0]), "http://m/2");
    assert_eq!(actions[1].extension, Extension::Txt);
    assert_eq!(text_of(&actions[1]), "cap\n");
    assert_eq!(Extension::Mp4.as_str(), "mp4");
    let v = Voice::new("4_3_s".to_owned(), Some("http://m/4".to_owned())).save();
    assert_eq!(v[0].extension, Extension::Mp4);
}

#[test]
fn every_kind_filter_saves_only_that_kind() {
    let kinds = ["text", "picture", "video", "voice", "link"];
    let exts = [
        vec![Extension::Txt],
        vec![Extension::Jpg, Extension::Txt],
        vec![Extension::Mp4],
        vec![Extension::Mp4],
        vec![Extension::Txt],
    ];
    for (index, kind) in kinds.iter().enumerate() {
        let only = vec![all_kinds()[index]];
        for (other, other_kind) in kinds.iter().enumerate() {
            let m = message(other as u32 + 1, other_kind);
            let plan = plan_message(&m, &vec![], &HashMap::new(), &HashMap::new(), &only).unwrap();
            if other == index {
                let got: Vec<Extension> = plan.iter().map(|a| a.extension).collect();
                assert_eq!(got, exts[index]);
                assert_eq!(plan[0].file_name, format!("{}_{}_{}_unknown", other + 1, other, STAMP));
            } else {
                assert!(plan.is_empty());
            }
        }
    }
}

#[test]
fn unknown_kind_and_invalid_timestamp_fail_without_saving() {
    let unknown = message(1, "unknown");
    match plan_message(&unknown, &vec![], &HashMap::new(), &HashMap::new(), &all_kinds()) {
        Err(e) => assert_eq!(e.message(), "unknown type: unknown"),
        Ok(_) => panic!("an unknown type must fail"),
    }
    let mut bad = message(1, "text");
    bad.updated_at = "invalid".to_owned();
    match plan_message(&bad, &vec![], &HashMap::new(), &HashMap::new(), &all_kinds()) {
        Err(e) => assert!(e.message().contains("Parse error")),
        Ok(_) => panic!("an invalid date must fail"),
    }
}

#[test]
fn repeated_message_between_past_and_timeline_is_not_overwritten_or_redownloaded() {
    let saved = vec![IdDate { id: 1, date: STAMP.to_owned() }];
    let m = message(1, "picture");
    assert!(plan_message(&m, &saved, &HashMap::new(), &HashMap::new(), &all_kinds()).unwrap().is_empty());
    let other = message(2, "picture");
    assert_eq!(plan_message(&other, &saved, &HashMap::new(), &HashMap::new(), &all_kinds()).unwrap().len(), 2);
}

#[test]
fn the_poster_is_found_in_the_group_then_in_every_member() {
    let group_members = names_by_id(vec![
        Members { id: 5, name: "グループ名".to_owned() },
        Members { id: 6, name: "  ".to_owned() },
    ]);
    let all = names_by_id(vec![
        Members { id: 6, name: "全体名".to_owned() },
        Members { id: 7, name: "first".to_owned() },
        Members { id: 7, name: "last".to_owned() },
    ]);
    assert_eq!(poster_name(Some(5), &group_members, &all), "グループ名");
    assert_eq!(poster_name(Some(6), &group_members, &all), "全体名");
    assert_eq!(poster_name(Some(7), &group_members, &all), "last");
    assert_eq!(poster_name(Some(8), &group_members, &all), "unknown");
    assert_eq!(poster_name(None, &group_members, &all), "unknown");
    let mut m = message(3, "text");
    m.member_id = Some(5);
    let plan = plan_message(&m, &vec![], &group_members, &all, &all_kinds()).unwrap();
    assert_eq!(plan[0].file_name, format!("3_0_{}_グループ名", STAMP));
}

#[test]
fn resumes_from_saved_files_and_ignores_unrelated_files() {
    let names = vec![
        "9_0_20260924010203_unknown.txt".to_owned(),
        "notes.txt".to_owned(),
        "8_0_20260923010203.txt".to_owned(),
    ];
    let found = id_dates_from_names(&names);
    let ids: Vec<(u32, &str)> = found.iter().map(|x| (x.id, x.date.as_str())).collect();
    assert_eq!(ids, vec![(8, "20260923010203"), (9, "20260924010203")]);
    assert_eq!(latest_date(&found).unwrap(), "2026-09-24T01:02:03Z");
    assert_eq!(id_dates_from_names(&names).len(), 2);
    assert!(dir_entry_to_id_date("notes.txt").is_none());
    let one = dir_entry_to_id_date("12_1_20260923010203_x.jpg").unwrap();
    assert_eq!((one.id, one.date.as_str()), (12, STAMP));
}

#[test]
fn an_id_too_large_for_a_message_id_is_ignored() {
    assert!(dir_entry_to_id_date("99999999999_0_1.txt").is_none());
    let names = vec!["99999999999_0_1.txt".to_owned(), "3_0_20260923010203_unknown.txt".to_owned()];
    let found = id_dates_from_names(&names);
    let ids: Vec<u32> = found.iter().map(|x| x.id).collect();
    assert_eq!(ids, vec![3]);
}

#[test]
fn nothing_saved_starts_from_the_initial_date() {
    assert_eq!(latest_date(&vec![]).unwrap(), "2000-01-01T09:00:00Z");
    let from: Option<DateTimeParts> = Some(parse_cli_date("2026/09/23 01:02:03").unwrap());
    assert_eq!(start_date(&from, &vec![]).unwrap(), DATE);
    assert!(parse_cli_date("2026-09-23").is_err());
}

#[test]
fn invalid_date_in_existing_filename_is_reported() {
    let found = id_dates_from_names(&vec!["1_0_20261399010203_unknown.txt".to_owned()]);
    assert!(matches!(latest_date(&found), Err(Error::ParseError(_))));
}

#[test]
fn empty_and_short_pages_finish() {
    for count in [0u32, 1, 99].iter() {
        let messages: Vec<TimelineMessages> = (1..=*count).map(|id| message(id, "text")).collect();
        assert!(matches!(page_step(&DATE.to_owned(), 100, &messages), PageStep::SaveAndFinish));
    }
}

#[test]
fn full_page_advances_date_and_preserves_overlapping_messages() {
    let mut messages: Vec<TimelineMessages> = (1..=100).map(|id| message(id, "text")).collect();
    messages[0].updated_at = "2026-09-22T01:02:03Z".to_owned();
    match page_step(&"2000-01-01T09:00:00Z".to_owned(), 100, &messages) {
        PageStep::SaveAndAdvance { fromdate } => assert_eq!(fromdate, DATE),
        _ => panic!("a full page must advance"),
    }
}

#[test]
fn equal_timestamps_expand_page_size_without_losing_messages() {
    let messages: Vec<TimelineMessages> = (1..=100).map(|id| message(id, "text")).collect();
    assert!(matches!(
        page_step(&"2000-01-01T09:00:00Z".to_owned(), 100, &messages),
        PageStep::Expand { count: 200 }
    ));
    let more: Vec<TimelineMessages> = (1..=200).map(|id| message(id, "text")).collect();
    assert!(matches!(
        page_step(&"2000-01-01T09:00:00Z".to_owned(), 200, &more),
        PageStep::Expand { count: 300 }
    ));
    let short: Vec<TimelineMessages> = (1..=201).map(|id| message(id, "text")).collect();
    assert!(matches!(
        page_step(&"2000-01-01T09:00:00Z".to_owned(), 300, &short),
        PageStep::SaveAndFinish
    ));
}

#[test]
fn nonadvancing_timeline_is_reported_instead_of_retried_forever() {
    let mut messages: Vec<TimelineMessages> = (1..=100).map(|id| message(id, "text")).collect();
    messages[0].updated_at = "2026-09-22T01:02:03Z".to_owned();
    match page_step(&DATE.to_owned(), 100, &messages) {
        PageStep::SaveAndStall { error } => assert_eq!(error.message(), "timeline did not advance"),
        _ => panic!("a page that does not move on must stop"),
    }
}

#[test]
fn names_subscriptions_and_optional_tag_metadata_are_respected() {
    let groups = vec![
        group(1, "テスト　メンバー", true, &[]),
        group(2, "非購読", false, &[]),
        group(3, "対象外", true, &["group", "generation"]),
    ];
    let tags = vec![tag("group", "グループ", Some("group")), tag("generation", "一期生", None)];
    let all = create_member_identifier_list(&groups, &tags);
    assert_eq!(all.len(), 3);
    assert_eq!(all[0].name, "テストメンバー");
    assert_eq!(all[0].gen, "");
    assert_eq!(all[2].gen, "一期生");
    assert!(!all[1].subscription);

    let wanted = subscribed_list(&groups, &tags, &vec!["テストメンバー".to_owned()]);
    assert_eq!(wanted.len(), 1);
    assert_eq!(wanted[0].id, 1);
    let every = subscribed_list(&groups, &tags, &vec![]);
    let ids: Vec<u32> = every.iter().map(|m| m.id).collect();
    assert_eq!(ids, vec![1, 3]);
}

#[test]
fn member_saves_use_the_default_and_configured_concurrency() {
    assert_eq!(worker_count(4, 10), 4);
    assert_eq!(worker_count(4, 2), 2);
    assert_eq!(worker_count(1, 0), 0);
}

#[test]
fn member_failures_are_listed_and_a_refused_token_stops_the_service() {
    let results = vec![
        ("a".to_owned(), Ok(())),
        ("b".to_owned(), Err(Error::msg("disk full"))),
        ("c".to_owned(), Err(Error::msg("timeout"))),
    ];
    match combine_member_results(results) {
        Err(e) => assert_eq!(e.message(), "failed to save messages for members:\nb: disk full\nc: timeout"),
        Ok(()) => panic!("expected a failure"),
    }
    let refused = vec![
        ("a".to_owned(), Err(Error::msg("other"))),
        (
            "b".to_owned(),
            Err(Error::ReqwestError(RequestFailure { status: Some(401), message: "401".to_owned() })),
        ),
    ];
    match combine_member_results(refused) {
        Err(e) => assert!(e.is_unauthorized()),
        Ok(()) => panic!("expected the refusal"),
    }
    assert!(combine_member_results(vec![("a".to_owned(), Ok(()))]).is_ok());
}

#[test]
fn a_saved_message_resumes_from_its_own_date() {
    let name = file_name(8, 1, DATE, "テスト").unwrap();
    let saved = dir_entry_to_id_date(&format!("{}.jpg", name)).unwrap();
    assert_eq!(saved.id, 8);
    assert_eq!(saved.date, STAMP);
    assert_eq!(latest_date(&vec![saved]).unwrap(), DATE);
}

#[test]
fn file_stems_join_id_kind_date_and_poster() {
    assert_eq!(colmsg::message::file::stem_of(1, 0, STAMP, "unknown"), "1_0_20260923010203_unknown");
    assert_eq!(colmsg::message::file::stem_of(0, 4, "", ""), "0_4__");
}
