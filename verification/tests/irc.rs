use airc::client::{
    classify_file, classify_path, is_final_message, line_received, parse_membership,
    parse_names_reply, user_list_event, Membership, Received,
};
use airc::commands::process_command;
use airc::irc::{
    channel_message, is_last_message, join_message, names_in, parse_dcc_send, process_irc_message,
    process_user_input, raw_line, registration, search_message, IrcMessage,
};
use airc::tui::UiEvent;

#[test]
fn pings_are_answered() {
    assert!(matches!(
        process_irc_message("PING :token 1\r\n").unwrap(),
        Some(IrcMessage::Ping(p)) if p == "PONG :token 1"
    ));
    assert!(matches!(
        process_irc_message("PINGPINPING").unwrap(),
        Some(IrcMessage::Ping(p)) if p == "PONGPINPONG"
    ));
}

#[test]
fn replies_with_names_list_the_users() {
    let r = process_irc_message(":irc 353 me = #bookz :@op +voice plain &~x\r\n").unwrap();
    assert!(matches!(
        r,
        Some(IrcMessage::UserList(users)) if users == ["op", "voice", "plain", "x"]
    ));
    assert!(process_irc_message("353 :only").unwrap().is_none());
    assert_eq!(names_in(" @@a\t+ b "), ["a", "", "b"]);
}

#[test]
fn offers_are_passed_on_with_their_size() {
    let r = process_irc_message(":b!u@h PRIVMSG me :\u{1}DCC SEND f.zip 16777216 99 807\u{1}");
    assert!(matches!(
        r.unwrap(),
        Some(IrcMessage::DccSend { filename, ip, port, size: 807 })
            if filename == "f.zip" && ip == "16777216" && port == "99"
    ));
    assert!(process_irc_message("DCC SEND nothing").unwrap().is_none());
    assert_eq!(
        process_irc_message("DCC SEND f 1 2 4294967296").unwrap_err().message(),
        "IRC protocol error: Invalid DCC size: number too large to fit in target type"
    );
}

#[test]
fn strict_offers_are_in_upper_case() {
    assert!(parse_dcc_send("dcc send f 1 2 3").unwrap().is_none());
    let info = parse_dcc_send("x DCC SEND a\tb 1 2 3 4").unwrap().unwrap();
    assert_eq!(info.filename, "a\tb");
    assert_eq!(info.ip, "1");
    assert_eq!(info.port, "2");
    assert_eq!(info.size, 3);
    let last = parse_dcc_send("DCC SEND a 1 2 3 DCC SEND b 4 5 6").unwrap().unwrap();
    assert_eq!(last.filename, "b");
}

#[test]
fn other_lines_are_books_or_messages() {
    assert!(matches!(
        process_irc_message(" :b!u@h PRIVMSG #c :!b Book \r\n").unwrap(),
        Some(IrcMessage::Book(b)) if b == ":b!u@h PRIVMSG #c :!b Book"
    ));
    assert!(matches!(
        process_irc_message("NOTICE hello\r\n").unwrap(),
        Some(IrcMessage::Message(m)) if m == "RX: NOTICE hello"
    ));
    assert!(matches!(
        process_irc_message("").unwrap(),
        Some(IrcMessage::Message(m)) if m == "RX: "
    ));
}

#[test]
fn typed_lines_become_lines_of_the_protocol() {
    let line = |input: &str| process_user_input(input, "#c");
    assert_eq!(line("hello"), "PRIVMSG #c :hello");
    assert_eq!(line(""), "PRIVMSG #c :");
    assert_eq!(line("/join"), "JOIN #c");
    assert_eq!(line("/join "), "JOIN #c");
    assert_eq!(line("/join  #d "), "JOIN #d");
    assert_eq!(line("/join   "), "JOIN #c");
    assert_eq!(line("/j"), "JOIN #c");
    assert_eq!(line("/j #d"), "JOIN #d");
    assert_eq!(line("/quit"), "QUIT");
    assert_eq!(line("/quit bye"), "QUIT :bye");
    assert_eq!(line("/q so long"), "QUIT :so long");
    assert_eq!(line("/q"), "QUIT");
    assert_eq!(line("/quitter"), "quitter");
    assert_eq!(line("/s term x"), "PRIVMSG #c :@search term x");
    assert_eq!(line("/search term"), "PRIVMSG #c :@search term");
    assert_eq!(line("/s\tterm"), "PRIVMSG #c :@search ");
    assert_eq!(line("/names #c"), "names #c");
    assert_eq!(line("/"), "");
    assert_eq!(line("/joined"), "joined");
}

#[test]
fn lines_to_the_server_have_their_form() {
    assert_eq!(raw_line("NICK a"), "NICK a\r\n");
    assert_eq!(join_message("#c"), "JOIN #c");
    assert_eq!(channel_message("#c", "hi"), "PRIVMSG #c :hi");
    assert_eq!(search_message("#c", "rust"), "PRIVMSG #c :@search rust");
    assert_eq!(
        registration("u", "n", "s", "Real Name"),
        ["CAP LS", "NICK n", "USER u n s :Real Name"]
    );
    assert!(is_last_message("QUIT :x\r\n"));
    assert!(!is_last_message("quit"));
}

#[test]
fn test_parse_names_reply() {
    let line = ":irc.example.com 353 mynick = #bookz :alice @bob +carol\r\n";
    assert_eq!(
        parse_names_reply(line),
        Some(vec!["alice".to_string(), "bob".to_string(), "carol".to_string()])
    );
    assert_eq!(parse_names_reply(":x PRIVMSG #c :hi"), None);
}

#[test]
fn test_parse_membership_join() {
    let line = ":alice!~a@host JOIN :#bookz\r\n";
    assert!(matches!(parse_membership(line), Some(Membership::Joined(n)) if n == "alice"));
}

#[test]
fn test_parse_membership_part_and_quit() {
    assert!(matches!(
        parse_membership(":bob!~b@host PART #bookz :bye\r\n"),
        Some(Membership::Left(n)) if n == "bob"
    ));
    assert!(matches!(
        parse_membership(":carol!~c@host QUIT :Ping timeout\r\n"),
        Some(Membership::Left(n)) if n == "carol"
    ));
}

#[test]
fn test_parse_membership_ignores_other() {
    assert!(parse_membership(":irc 353 mynick = #c :a b").is_none());
    assert!(parse_membership("PING :server").is_none());
}

#[test]
fn lists_without_names_are_no_lists() {
    assert_eq!(parse_names_reply(":s 353 n = #c :@ +"), None);
    assert_eq!(parse_names_reply(":s 353 n = #c"), None);
    assert_eq!(
        parse_names_reply(":s 353 n :a :b c"),
        Some(vec!["b".to_string(), "c".to_string()])
    );
    assert!(parse_membership(":!u@h JOIN #c").is_none());
    assert!(parse_membership(":nick").is_none());
    assert!(parse_membership("").is_none());
}

#[test]
fn lines_change_the_list_of_users() {
    assert!(matches!(
        user_list_event(":s 353 n = #c :a b"),
        Some(UiEvent::UserList(users)) if users == ["a", "b"]
    ));
    assert!(matches!(
        user_list_event(":a!u@h JOIN #c"),
        Some(UiEvent::UserJoined(n)) if n == "a"
    ));
    assert!(matches!(
        user_list_event(":a!u@h PART #c"),
        Some(UiEvent::UserLeft(n)) if n == "a"
    ));
    assert!(user_list_event(":a!u@h PRIVMSG #c :JOIN").is_none());
}

#[test]
fn writing_ends_with_quit_in_any_case() {
    assert!(is_final_message("QUIT\r\n"));
    assert!(is_final_message("quIt :bye\r\n"));
    assert!(!is_final_message("QUI"));
    assert!(!is_final_message("JOIN #c\r\n"));
    assert!(!is_final_message(" QUIT"));
    assert!(is_final_message("QUIT"));
    assert!(!is_final_message("quitter\r\n"));
    for command in ["/q", "/quit", "/q bye", "/quit so long"] {
        assert!(is_final_message(&process_command(command, "#c").unwrap()));
    }
}

#[test]
fn results_of_a_search_are_told_from_books() {
    assert!(matches!(
        classify_file("SearchBot_results_for_rust.txt.zip"),
        Received::Results
    ));
    assert!(matches!(
        classify_file("SearchBot_results.txt"),
        Received::File(UiEvent::System(s)) if s == "Downloaded file: SearchBot_results.txt"
    ));
    assert!(matches!(classify_file("book.zip"), Received::File(_)));
}

#[test]
fn received_files_are_told_by_their_names() {
    assert!(matches!(
        classify_path("dl/sub/SearchBot_results_for_rust.txt.zip"),
        Some(Received::Results)
    ));
    assert!(matches!(
        classify_path("SearchBot_results/book.zip"),
        Some(Received::File(UiEvent::System(s))) if s == "Downloaded file: book.zip"
    ));
    assert!(matches!(classify_path("book"), Some(Received::File(_))));
    assert!(classify_path("dl/..").is_none());
    assert!(classify_path("").is_none());
}

#[test]
fn lines_are_decoded() {
    assert_eq!(line_received(b"caf\xc3\xa9\r\n"), "caf\u{e9}\r\n");
    assert_eq!(line_received(b"a\xffb"), "a\u{fffd}b");
    assert_eq!(line_received(b""), "");
}
