use colmsg::config::{get_args_from_str, kinds_from, names_from, parse_jobs, token_file_name};
use colmsg::controller::Service;
use colmsg::dirs::ColmsgProjectDirs;
use colmsg::errors::Error;
use colmsg::Kind;

#[test]
fn configuration_supports_comments_quoted_names_and_dates() {
    let content = "\n# comment\n --s_refresh_token test-refresh-token\n--name 'テストメンバー'\n--from '2026/09/20 12:34:56'\n--kind text\n";
    let args = get_args_from_str(content).unwrap();
    assert_eq!(
        args,
        vec![
            "--s_refresh_token",
            "test-refresh-token",
            "--name",
            "テストメンバー",
            "--from",
            "2026/09/20 12:34:56",
            "--kind",
            "text",
        ]
    );
}

#[test]
fn missing_configuration_is_allowed() {
    assert!(get_args_from_str("").unwrap().is_empty());
    assert!(get_args_from_str("\n\n   \n# only a comment").unwrap().is_empty());
}

#[test]
fn malformed_configuration_is_reported_instead_of_silently_ignored() {
    match get_args_from_str("--s_refresh_token 'unterminated") {
        Err(Error::ShellWordsParseError(m)) => assert_eq!(m, "missing closing quote"),
        _ => panic!("an unterminated quote must be an error"),
    }
    assert!(get_args_from_str("--name ok\n--name \"open").is_err());
}

#[test]
fn double_quotes_and_escapes_are_read_as_a_shell_does() {
    let args = get_args_from_str("--name \"a b\" c\\ d\r\n--dir x").unwrap();
    assert_eq!(args, vec!["--name", "a b", "c d", "--dir", "x"]);
}

#[test]
fn all_six_services_use_their_own_tokens_in_one_run_and_on_restart() {
    let files: Vec<String> = Service::all().into_iter().map(token_file_name).collect();
    assert_eq!(
        files,
        vec![
            "s_access_token",
            "h_access_token",
            "n_access_token",
            "a_access_token",
            "m_access_token",
            "y_access_token",
        ]
    );
    assert_eq!(Service::Maishiraishi.token_argument(), "m_refresh_token");
}

#[test]
fn kinds_default_to_every_kind() {
    assert_eq!(
        kinds_from(&None),
        vec![Kind::Text, Kind::Picture, Kind::Video, Kind::Voice, Kind::Link]
    );
    let some = Some(vec!["voice".to_owned(), "text".to_owned()]);
    assert_eq!(kinds_from(&some), vec![Kind::Voice, Kind::Text]);
}

#[test]
fn names_are_trimmed() {
    let names = names_from(&Some(vec![" テストメンバー ".to_owned(), "\tA B\n".to_owned()]));
    assert_eq!(names, vec!["テストメンバー", "A B"]);
    assert!(names_from(&None).is_empty());
}

#[test]
fn jobs_default_to_four_and_must_be_a_number() {
    assert_eq!(parse_jobs(None).unwrap(), 4);
    assert_eq!(parse_jobs(Some("16")).unwrap(), 16);
    assert_eq!(parse_jobs(Some("0")).unwrap(), 0);
    match parse_jobs(Some("many")) {
        Err(e) => assert!(e.message().starts_with("invalid --jobs value: ")),
        Ok(_) => panic!("a word is not a number of jobs"),
    }
    assert!(parse_jobs(Some("")).is_err());
    assert!(parse_jobs(Some("-1")).is_err());
}

#[test]
fn project_directories_are_named_colmsg() {
    let dirs = ColmsgProjectDirs::new(
        Some("/home/u/.config".to_owned()),
        Some("/home/u/Downloads".to_owned()),
        '/',
    )
    .unwrap();
    assert_eq!(dirs.config_dir(), "/home/u/.config/colmsg");
    assert_eq!(dirs.download_dir(), "/home/u/Downloads/colmsg");
}

#[test]
fn comment_and_blank_lines_leave_the_arguments_unchanged() {
    let plain = get_args_from_str("--kind text\n--name 'A B'").unwrap();
    let commented = get_args_from_str("# saved kinds\n--kind text\n\n   # who\n--name 'A B'\n#").unwrap();
    assert_eq!(plain, commented);
    assert!(get_args_from_str("# it's only a comment\n--kind text").is_ok());
}
