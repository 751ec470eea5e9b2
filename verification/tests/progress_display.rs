use colmsg::controller::{MemberStatus, ProgressEvent, Service};
use colmsg::progress::{line_width, log_line, status_label, summary_line, ProgressState};

fn member(service: Service, index: usize, total: usize, name: &str, status: MemberStatus) -> ProgressEvent {
    ProgressEvent::Member { service, index, total_members: total, name: name.to_owned(), status }
}

#[test]
fn progress_events_can_initialize_service_state_without_start_events() {
    let mut display = ProgressState::new();
    display.handle(&ProgressEvent::ServiceRetrying { service: Service::Sakurazaka });
    display.handle(&member(Service::Hinatazaka, 1, 1, "処理中", MemberStatus::Saving));
    display.handle(&ProgressEvent::ServiceFinished { service: Service::Nogizaka, success: false });

    let sakurazaka = display.services[0].as_ref().unwrap();
    assert!(sakurazaka.retrying);
    assert!(sakurazaka.members.is_empty());
    let nogizaka = display.services[2].as_ref().unwrap();
    assert!(nogizaka.failed);
    assert!(display.services[3].is_none());

    assert_eq!(
        display.screen(),
        vec!["Hinatazaka".to_owned(), "  [ 1/ 1] | downloading 処理中".to_owned()]
    );
    assert_eq!(display.member_counts(), (0, 0));
    assert_eq!(summary_line(0, 0, 0), "No matching members found.");
}

#[test]
fn member_progress_and_completion_are_logged_with_a_final_count() {
    let saving = member(Service::Sakurazaka, 1, 1, "テストメンバー", MemberStatus::Saving);
    let done = member(Service::Sakurazaka, 1, 1, "テストメンバー", MemberStatus::Done);
    assert_eq!(log_line(&saving).unwrap(), "[Sakurazaka  1/ 1] downloading: テストメンバー");
    assert_eq!(log_line(&done).unwrap(), "[Sakurazaka  1/ 1] done: テストメンバー");
    assert!(log_line(&ProgressEvent::ServiceStarted { service: Service::Yodel }).is_none());
    assert_eq!(
        log_line(&ProgressEvent::ServiceRetrying { service: Service::Yodel }).unwrap(),
        "Yodel: authorization expired; retrying"
    );

    let mut display = ProgressState::new();
    display.handle(&ProgressEvent::ServiceStarted { service: Service::Sakurazaka });
    display.handle(&saving);
    display.handle(&done);
    let (d, f) = display.member_counts();
    assert_eq!((d, f), (1, 0));
    assert_eq!(summary_line(d, f, 0), "1 member saved.");
}

#[test]
fn failed_member_progress_is_reported_in_the_final_count() {
    let failed = member(Service::Sakurazaka, 1, 1, "テストメンバー", MemberStatus::Failed);
    assert_eq!(log_line(&failed).unwrap(), "[Sakurazaka  1/ 1] failed: テストメンバー");
    assert_eq!(summary_line(0, 1, 1), "1 member failed; 1 service failed.");
    assert_eq!(summary_line(2, 3, 2), "2 members saved; 3 members failed; 2 services failed.");
    assert_eq!(summary_line(2, 0, 0), "2 members saved.");
}

#[test]
fn terminal_progress_animates_while_a_member_is_saving() {
    let mut display = ProgressState::new();
    display.handle(&member(Service::Sakurazaka, 1, 1, "テストメンバー", MemberStatus::Saving));
    assert!(display.has_active_members());
    assert_eq!(display.screen()[1], "  [ 1/ 1] | downloading テストメンバー");
    display.tick(true);
    assert_eq!(display.screen()[1], "  [ 1/ 1] / downloading テストメンバー");
    display.tick(false);
    assert_eq!(display.spinner_frame, 1);
    display.tick(true);
    display.tick(true);
    display.tick(true);
    assert_eq!(display.spinner_frame, 0);
    display.handle(&member(Service::Sakurazaka, 1, 1, "テストメンバー", MemberStatus::Done));
    assert!(!display.has_active_members());
    display.tick(true);
    assert_eq!(display.spinner_frame, 0);
    assert_eq!(display.screen()[1], "  [ 1/ 1]   done       テストメンバー");
}

#[test]
fn terminal_progress_redraws_member_rows_and_truncates_long_names() {
    let name = "長い名前".repeat(12);
    let mut display = ProgressState::new();
    display.handle(&member(Service::Sakurazaka, 1, 1, &name, MemberStatus::Saving));
    display.handle(&member(Service::Sakurazaka, 1, 1, &name, MemberStatus::Done));
    let screen = display.screen();
    assert_eq!(screen.len(), 2);
    let lines = display.terminal_lines(48);
    assert_eq!(lines.len(), 2);
    assert_eq!(lines[0], "Sakurazaka");
    assert!(lines[1].starts_with("  [ 1/ 1]   done"));
    assert!(lines[1].ends_with('…'));
    assert!(lines[1].chars().count() < screen[1].chars().count());
    assert_eq!(line_width(48), 47);
    assert_eq!(line_width(0), 1);
    assert_eq!(line_width(1), 1);
}

#[test]
fn terminal_progress_keeps_members_in_index_order() {
    let mut display = ProgressState::new();
    display.handle(&member(Service::Nogizaka, 2, 3, "二", MemberStatus::Saving));
    display.handle(&member(Service::Nogizaka, 1, 3, "一", MemberStatus::Done));
    display.handle(&member(Service::Nogizaka, 3, 3, "三", MemberStatus::Failed));
    display.handle(&member(Service::Nogizaka, 2, 3, "二", MemberStatus::Done));
    let rows: Vec<(usize, MemberStatus)> = display.services[2]
        .as_ref()
        .unwrap()
        .members
        .iter()
        .map(|m| (m.index, m.status))
        .collect();
    assert_eq!(rows, vec![(1, MemberStatus::Done), (2, MemberStatus::Done), (3, MemberStatus::Failed)]);
    assert_eq!(display.member_counts(), (2, 1));
}

#[test]
fn terminal_progress_omits_services_without_matching_members() {
    let mut display = ProgressState::new();
    display.handle(&ProgressEvent::ServiceStarted { service: Service::Sakurazaka });
    display.handle(&ProgressEvent::ServiceFinished { service: Service::Sakurazaka, success: true });
    assert!(display.screen().is_empty());
    assert_eq!(summary_line(0, 0, 0), "No matching members found.");
}

#[test]
fn terminal_progress_marks_a_service_that_failed_to_save_a_member() {
    let mut display = ProgressState::new();
    display.handle(&member(Service::Sakurazaka, 1, 1, "テストメンバー", MemberStatus::Failed));
    display.handle(&ProgressEvent::ServiceFinished { service: Service::Sakurazaka, success: false });
    assert_eq!(display.screen()[0], "Sakurazaka (failed)");
    assert_eq!(display.screen()[1], "  [ 1/ 1]   failed     テストメンバー");
}

#[test]
fn terminal_progress_shows_retrying_after_a_member_request_expires() {
    let mut display = ProgressState::new();
    display.handle(&member(Service::Yodel, 1, 2, "テストメンバー", MemberStatus::Failed));
    display.handle(&ProgressEvent::ServiceRetrying { service: Service::Yodel });
    assert_eq!(display.screen()[0], "Yodel (retrying)");
    display.handle(&ProgressEvent::ServiceStarted { service: Service::Yodel });
    assert!(display.screen().is_empty());
    assert_eq!(status_label(MemberStatus::Saving), "downloading");
}
