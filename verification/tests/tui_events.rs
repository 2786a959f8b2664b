use airc::config::Config;
use airc::tui::app::{App, MessageType};
use airc::tui::download::DownloadStatus;
use airc::tui::log_writer::{log_event, message_type_from_log_line, written_event};
use airc::tui::{
    apply_event, closing_line, confirm_sent, handle_input, is_quit_word, line_ends_session,
    matching_lines, waiting_notice, UiEvent,
};

fn app() -> App {
    App::new(Config::default())
}

fn contents(app: &App) -> Vec<(String, MessageType)> {
    app.messages.iter().map(|m| (m.content.clone(), m.message_type)).collect()
}

#[test]
fn test_book_list_replaces() {
    let mut a = app();
    a.book_list = vec!["old".to_string()];
    apply_event(&mut a, UiEvent::BookList(vec!["x".to_string(), "y".to_string()]));
    assert_eq!(a.book_list, vec!["x".to_string(), "y".to_string()]);
}

#[test]
fn test_user_list_join_and_part() {
    let mut a = app();
    apply_event(&mut a, UiEvent::UserList(vec!["alice".to_string()]));
    apply_event(&mut a, UiEvent::UserJoined("bob".to_string()));
    apply_event(&mut a, UiEvent::UserJoined("bob".to_string())); // dedup
    assert_eq!(a.user_list, vec!["alice".to_string(), "bob".to_string()]);
    apply_event(&mut a, UiEvent::UserLeft("alice".to_string()));
    assert_eq!(a.user_list, vec!["bob".to_string()]);
}

#[test]
fn test_download_lifecycle() {
    let mut a = app();
    apply_event(
        &mut a,
        UiEvent::DownloadStarted { filename: "f".to_string(), size: 100 },
    );
    assert_eq!(a.downloads[0].status, DownloadStatus::Starting);
    apply_event(
        &mut a,
        UiEvent::DownloadProgress { filename: "f".to_string(), received: 50 },
    );
    assert_eq!(a.downloads[0].status, DownloadStatus::InProgress);
    assert_eq!(a.downloads[0].progress, 50);
    apply_event(&mut a, UiEvent::DownloadCompleted("f".to_string()));
    assert_eq!(a.downloads[0].status, DownloadStatus::Completed);
}

#[test]
fn test_download_failed_sets_status_and_message() {
    let mut a = app();
    apply_event(
        &mut a,
        UiEvent::DownloadStarted { filename: "f".to_string(), size: 100 },
    );
    apply_event(
        &mut a,
        UiEvent::DownloadFailed { filename: "f".to_string(), error: "boom".to_string() },
    );
    assert_eq!(a.downloads[0].status, DownloadStatus::Failed("boom".to_string()));
    assert!(a.messages.iter().any(|m| m.content.contains("boom")));
}

#[test]
fn test_disconnected_requests_quit() {
    let mut a = app();
    apply_event(&mut a, UiEvent::Disconnected);
    assert!(a.should_quit);
    assert!(!a.connected);
}

#[test]
fn test_error_and_warn_map_to_error() {
    assert_eq!(message_type_from_log_line("2026 ERROR airc: boom"), MessageType::Error);
    assert_eq!(message_type_from_log_line("2026 WARN airc: careful"), MessageType::Error);
}

#[test]
fn test_debug_and_trace_map_to_debug() {
    assert_eq!(message_type_from_log_line("2026 DEBUG airc: detail"), MessageType::Debug);
    assert_eq!(message_type_from_log_line("2026 TRACE airc: noisy"), MessageType::Debug);
}

#[test]
fn test_info_is_default() {
    assert_eq!(message_type_from_log_line("2026 INFO airc: hello"), MessageType::Info);
}

#[test]
fn events_leave_messages() {
    let mut a = app();
    apply_event(&mut a, UiEvent::Received("line \r\n".to_string()));
    apply_event(&mut a, UiEvent::System("sys ".to_string()));
    apply_event(&mut a, UiEvent::Log(MessageType::Debug, "d".to_string()));
    apply_event(&mut a, UiEvent::DownloadExtracted("f.zip".to_string()));
    apply_event(&mut a, UiEvent::Connected);
    assert!(a.connected);
    apply_event(
        &mut a,
        UiEvent::DownloadFailed { filename: "f".to_string(), error: "e".to_string() },
    );
    apply_event(&mut a, UiEvent::Disconnected);
    assert_eq!(
        contents(&a),
        vec![
            ("line".to_string(), MessageType::Received),
            ("sys ".to_string(), MessageType::System),
            ("d".to_string(), MessageType::Debug),
            ("Extracted: f.zip".to_string(), MessageType::System),
            ("Connected".to_string(), MessageType::System),
            ("Download failed: f - e".to_string(), MessageType::Error),
            ("Disconnected from server".to_string(), MessageType::System),
        ]
    );
}

#[test]
fn extraction_marks_the_download() {
    let mut a = app();
    apply_event(&mut a, UiEvent::DownloadStarted { filename: "f".to_string(), size: 1 });
    apply_event(&mut a, UiEvent::DownloadExtracting("f".to_string()));
    assert_eq!(a.downloads[0].status, DownloadStatus::Extracting);
    assert!(a.messages.is_empty());
}

#[test]
fn events_keep_lists_distinct() {
    let mut a = app();
    for _ in 0..2 {
        for name in ["f", "g"] {
            apply_event(&mut a, UiEvent::DownloadStarted { filename: name.to_string(), size: 9 });
            apply_event(&mut a, UiEvent::UserJoined(name.to_string()));
        }
    }
    assert_eq!(a.downloads.len(), 2);
    assert_eq!(a.user_list, ["f", "g"]);
}

#[test]
fn local_searches_are_answered_with_messages() {
    let mut a = app();
    a.book_list = vec!["!b Rust".to_string(), "!b Go".to_string(), "!c trust".to_string()];
    assert!(handle_input(&mut a, "/ss rUst ".to_string()).is_none());
    assert_eq!(
        contents(&a),
        vec![
            ("/ss rUst ".to_string(), MessageType::Sent),
            ("0: !b Rust".to_string(), MessageType::System),
            ("2: !c trust".to_string(), MessageType::System),
        ]
    );
    assert!(handle_input(&mut a, "/ss zig".to_string()).is_none());
    assert_eq!(a.messages[4].content, "No results found for 'zig'");
    assert_eq!(matching_lines(&a.book_list, "").len(), 3);
}

#[test]
fn entries_are_requested_by_number() {
    let mut a = app();
    a.book_list = vec!["!b one".to_string(), "!b two".to_string()];
    let sent = handle_input(&mut a, "/1".to_string()).unwrap();
    assert_eq!(sent.line, "PRIVMSG #bookz :!b two\r\n");
    assert!(!sent.is_quit);
    assert!(handle_input(&mut a, "/2".to_string()).is_none());
    assert_eq!(a.messages[2].content, "Entry number 2 not found");
    assert_eq!(a.messages[2].message_type, MessageType::System);
}

#[test]
fn commands_are_sent_and_quit_ends_the_session() {
    let mut a = app();
    let sent = handle_input(&mut a, "/s rust".to_string()).unwrap();
    assert_eq!(sent.line, "PRIVMSG #bookz :@search rust\r\n");
    assert!(!sent.is_quit);
    confirm_sent(&mut a, sent.is_quit);
    assert!(!a.should_quit && !a.quit_sent);
    assert_eq!(closing_line(&a), Some("QUIT\r\n".to_string()));
    for quit in ["/q", "/quit bye", "quit :raw", "QuIt"] {
        assert!(handle_input(&mut a, quit.to_string()).unwrap().is_quit);
    }
    confirm_sent(&mut a, true);
    assert!(a.should_quit && a.quit_sent);
    assert_eq!(closing_line(&a), None);
}

#[test]
fn only_the_word_quit_ends_the_session() {
    let mut a = app();
    let sent = handle_input(&mut a, "/quitter".to_string()).unwrap();
    assert_eq!(sent.line, "quitter\r\n");
    assert!(!sent.is_quit);
    assert!(line_ends_session(" qUit :bye\r\n"));
    assert!(!line_ends_session("PRIVMSG #c :QUIT\r\n"));
    assert!(!line_ends_session("\r\n"));
    assert!(is_quit_word("QUIT"));
    assert!(!is_quit_word("quit"));
    assert!(!is_quit_word("QUITS"));
}

#[test]
fn the_level_of_a_log_line_decides_its_type() {
    for (line, expected) in [
        ("2026 INFO airc: RX ERROR :Closing link", MessageType::Info),
        ("2026 DEBUG airc: WARN", MessageType::Debug),
        ("2026  WARN airc: INFO", MessageType::Error),
        ("TRACE", MessageType::Debug),
        ("2026 ERRORS airc: x", MessageType::Info),
        ("no level at all", MessageType::Info),
        ("", MessageType::Info),
    ] {
        assert_eq!(message_type_from_log_line(line), expected);
    }
}

#[test]
fn pending_downloads_are_waited_for() {
    assert_eq!(waiting_notice(0), None);
    assert_eq!(
        waiting_notice(2),
        Some("Waiting for 2 in-flight download(s) to finish...".to_string())
    );
}

#[test]
fn log_lines_are_shown_unless_empty() {
    assert!(matches!(
        log_event(" WARN x \r\n"),
        Some(UiEvent::Log(MessageType::Error, s)) if s == " WARN x"
    ));
    assert!(log_event(" \n").is_none());
    assert!(matches!(
        written_event(b"INFO caf\xc3\xa9\n"),
        Some(UiEvent::Log(MessageType::Info, s)) if s == "INFO caf\u{e9}"
    ));
    assert!(matches!(
        written_event(b"DEBUG \xff"),
        Some(UiEvent::Log(MessageType::Debug, s)) if s == "DEBUG \u{fffd}"
    ));
    assert!(written_event(b"").is_none());
}
