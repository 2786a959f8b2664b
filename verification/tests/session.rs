use airc::clock::TimeOfDay;
use airc::config::Config;
use airc::error::AircError;
use airc::logger::{AppLogger, Level};
use airc::net::{after_failure, Retry};
use airc::session::{choose_identity, identity_with, task_ended};
use airc::tui::app::MessageType;
use airc::tui::UiEvent;
use airc::ui::{split_line, timestamp};

#[test]
fn a_configured_user_has_one_name() {
    let config = Config::default().merge_with_args(None, None, Some("reader".to_string()), None);
    let identity = choose_identity(&config);
    assert_eq!(identity.username, "reader");
    assert_eq!(identity.nickname, "reader");
    assert_eq!(identity.realname, "reader");
}

#[test]
fn other_users_get_a_number() {
    let fixed = identity_with(&None, 42);
    assert_eq!(fixed.username, "bworm42");
    assert_eq!(fixed.nickname, "bworm42");
    assert_eq!(fixed.realname, "Book Worm");
    let mut seen = Vec::new();
    for _ in 0..50 {
        let identity = choose_identity(&Config::default());
        let number: u32 = identity.nickname.strip_prefix("bworm").unwrap().parse().unwrap();
        assert!(number <= 99999);
        assert_eq!(identity.username, identity.nickname);
        seen.push(number);
    }
    seen.sort();
    seen.dedup();
    assert!(seen.len() > 1);
}

#[test]
fn tasks_report_their_end() {
    let event = task_ended("write", &AircError::ChannelSend);
    assert!(matches!(
        event,
        UiEvent::Log(MessageType::Error, s) if s == "write task ended: Channel send error"
    ));
}

#[test]
fn operations_are_retried_twice() {
    let e = AircError::Timeout("slow".to_string());
    match after_failure("DCC connection to a:1", 1, &e) {
        Retry::Wait { delay_ms, warning } => {
            assert_eq!(delay_ms, 1000);
            assert_eq!(
                warning,
                "DCC connection to a:1 attempt 1/3 failed: Connection timed out: slow. Retrying in 1000ms..."
            );
        }
        Retry::GiveUp(_) => panic!("too early"),
    }
    assert!(matches!(after_failure("x", 2, &e), Retry::Wait { delay_ms: 2000, .. }));
    match after_failure("x", 3, &e) {
        Retry::GiveUp(error) => assert_eq!(
            error.message(),
            "Connection error: x failed after 3 attempts: Connection timed out: slow"
        ),
        Retry::Wait { .. } => panic!("too late"),
    }
    assert!(matches!(after_failure("x", 9, &e), Retry::GiveUp(_)));
}

#[test]
fn traces_are_not_shown() {
    assert!(AppLogger.log(Level::Trace, "t".to_string()).is_none());
    assert!(!AppLogger.enabled(Level::Trace));
    assert_eq!(AppLogger::message_type(Level::Trace), MessageType::Debug);
    let cases = [
        (Level::Error, MessageType::Error),
        (Level::Warn, MessageType::Error),
        (Level::Info, MessageType::Info),
        (Level::Debug, MessageType::Debug),
    ];
    for (level, shown) in cases {
        let message = AppLogger.log(level, "line".to_string()).unwrap();
        assert_eq!(message.content, "line");
        assert_eq!(message.message_type, shown);
    }
}

#[test]
fn lines_are_parted_at_the_first_colon() {
    assert_eq!(split_line(":a PRIVMSG #c :hi :there"), (":a PRIVMSG #c", " :hi :there"));
    assert_eq!(split_line("no colon"), ("", "no colon"));
    assert_eq!(split_line("\u{e9} :x"), ("\u{e9}", " :x"));
    assert_eq!(split_line(""), ("", ""));
}

#[test]
fn clocks_show_two_digits() {
    let time = TimeOfDay::new(7, 5, 59).unwrap();
    assert_eq!(time.shown(), "07:05:59");
    assert_eq!(timestamp(&time), "[07:05:59] ");
    assert_eq!(TimeOfDay::new(23, 59, 0).unwrap().shown(), "23:59:00");
    assert!(TimeOfDay::new(24, 0, 0).is_none());
    assert!(TimeOfDay::new(0, 60, 0).is_none());
    assert!(TimeOfDay::new(0, 0, 60).is_none());
}

#[test]
fn the_time_now_is_on_the_clock() {
    let shown = TimeOfDay::now().shown();
    assert_eq!(shown.len(), 8);
    let parts: Vec<u32> = shown.split(':').map(|p| p.parse().unwrap()).collect();
    assert!(parts[0] < 24 && parts[1] < 60 && parts[2] < 60);
}
