use airc::commands::{
    contains_ignore_case, entry_digits, entry_number, local_search_term, process_command,
    search_term,
};

#[test]
fn test_search_regex() {
    assert!(search_term("/search rust programming").is_some());
    assert!(search_term("/s python").is_some());

    let caps1 = search_term("/search rust programming").unwrap();
    assert_eq!(caps1.as_str(), "rust programming");

    let caps2 = search_term("/s python").unwrap();
    assert_eq!(caps2.as_str(), "python");

    // Matches but captures the empty string.
    assert!(search_term("/search ").is_some());
    let caps3 = search_term("/search ").unwrap();
    assert_eq!(caps3.as_str(), "");

    assert!(!search_term("/se").is_some());
    assert!(!search_term("/search").is_some());
}

#[test]
fn test_entry_regex() {
    assert!(entry_digits("/123").is_some());
    assert!(entry_digits("/0").is_some());
    assert!(entry_digits("/999").is_some());

    let caps = entry_digits("/42").unwrap();
    assert_eq!(caps.as_str(), "42");

    assert!(!entry_digits("/abc").is_some());
    assert!(!entry_digits("123").is_some());
}

#[test]
fn test_process_command_join_and_quit() {
    assert_eq!(
        process_command("/join", "#bookz"),
        Some("JOIN #bookz\r\n".to_string())
    );
    assert_eq!(process_command("/q", "#bookz"), Some("QUIT\r\n".to_string()));
    assert_eq!(
        process_command("/quit bye now", "#bookz"),
        Some("QUIT :bye now\r\n".to_string())
    );
}

#[test]
fn test_process_command_search_and_raw() {
    assert_eq!(
        process_command("/s rust", "#bookz"),
        Some("PRIVMSG #bookz :@search rust\r\n".to_string())
    );
    assert_eq!(
        process_command("/whois bob", "#bookz"),
        Some("whois bob\r\n".to_string())
    );
}

#[test]
fn test_entry_number() {
    assert_eq!(entry_number("/5"), Some(5));
    assert_eq!(entry_number("/0"), Some(0));
    assert_eq!(entry_number("/abc"), None);
    assert_eq!(entry_number("5"), None);
}

#[test]
fn test_local_search_term() {
    assert_eq!(local_search_term("/ss async"), Some("async"));
    assert_eq!(local_search_term("/s async"), None);
    assert_eq!(local_search_term("hello"), None);
}

#[test]
fn search_takes_the_rest_of_its_line() {
    assert_eq!(search_term("/s one\ntwo"), Some("one".to_string()));
    assert_eq!(search_term("/s /search x"), Some("/search x".to_string()));
    assert_eq!(search_term("/search y\r"), Some("y\r".to_string()));
    assert_eq!(search_term("/S x"), None);
    assert_eq!(search_term("please /s one"), None);
    assert_eq!(search_term("x\n/s one"), None);
    assert_eq!(search_term("/sx /s y"), None);
}

#[test]
fn entries_of_other_scripts_are_digits_but_no_numbers() {
    assert_eq!(entry_digits("/\u{663}"), Some("\u{663}".to_string()));
    assert_eq!(entry_number("/\u{663}"), None);
    assert_eq!(entry_digits("/1\n"), None);
    assert_eq!(entry_digits("/"), None);
    assert_eq!(entry_digits("/\u{1d7ff}"), Some("\u{1d7ff}".to_string()));
    assert_eq!(entry_digits("/\u{b2}"), None);
}

#[test]
fn entry_number_stays_in_range() {
    let most = format!("/{}", usize::MAX);
    assert_eq!(entry_number(&most), Some(usize::MAX));
    assert_eq!(entry_number("/99999999999999999999999"), None);
    assert_eq!(entry_number("/007"), Some(7));
    assert_eq!(entry_number("/+7"), None);
}

#[test]
fn every_number_requests_its_entry() {
    for n in [0usize, 1, 9, 10, 12345] {
        assert_eq!(entry_number(&format!("/{}", n)), Some(n));
    }
}

#[test]
fn quit_takes_a_farewell() {
    assert_eq!(process_command("/q bye", "#c"), Some("QUIT :bye\r\n".to_string()));
    assert_eq!(process_command("/quit", "#c"), Some("QUIT\r\n".to_string()));
    assert_eq!(process_command("/quit ", "#c"), Some("QUIT\r\n".to_string()));
    assert_eq!(process_command("/quit\tbye", "#c"), Some("QUIT\r\n".to_string()));
    assert_eq!(process_command("/quit\n", "#c"), Some("QUIT\r\n".to_string()));
}

#[test]
fn other_commands_are_sent_raw() {
    let sent = |command: &str| process_command(command, "#bookz").unwrap();
    assert_eq!(sent("/quitter"), "quitter\r\n");
    assert_eq!(sent("/quitting now"), "quitting now\r\n");
    assert_eq!(sent("/quiet"), "quiet\r\n");
    assert_eq!(sent("/q\tbye"), "q\tbye\r\n");
    assert_eq!(sent("/query bob"), "query bob\r\n");
    assert_eq!(sent("/privmsg bob :try /s foo"), "privmsg bob :try /s foo\r\n");
    assert_eq!(sent("/notice bob :/search foo"), "notice bob :/search foo\r\n");
}

#[test]
fn raw_commands_lose_one_slash() {
    assert_eq!(process_command("//x ", "#c"), Some("/x\r\n".to_string()));
    assert_eq!(process_command("  names", "#c"), Some("names\r\n".to_string()));
    assert_eq!(process_command("", "#c"), Some("\r\n".to_string()));
    assert_eq!(process_command("/j", "#c"), Some("JOIN #c\r\n".to_string()));
}

#[test]
fn every_command_line_is_terminated() {
    for command in ["/j", "/q", "/q x", "/s y", "raw", ""] {
        assert!(process_command(command, "#c").unwrap().ends_with("\r\n"));
    }
}

#[test]
fn case_is_left_out_of_local_searches() {
    assert!(contains_ignore_case("The RUST Book", "rust b"));
    assert!(contains_ignore_case("anything", ""));
    assert!(contains_ignore_case("\u{c9}T\u{c9}", "\u{e9}t\u{e9}"));
    assert!(contains_ignore_case("\u{130}stanbul", "\u{130}"));
    assert!(!contains_ignore_case("abc", "abcd"));
    assert!(!contains_ignore_case("", "a"));
}

#[test]
fn an_exact_match_is_a_match_without_case() {
    let line = "!Bot \u{394}\u{3b9}\u{3ac}\u{3bb}\u{3bf}\u{3b3}\u{3bf}\u{3b9}.epub";
    for (start, _) in line.char_indices() {
        assert!(contains_ignore_case(line, &line[start..]));
    }
}

#[test]
fn local_search_terms_are_trimmed() {
    assert_eq!(local_search_term("/ss   two words \t"), Some("two words"));
    assert_eq!(local_search_term("/ss "), Some(""));
    assert_eq!(local_search_term("/ss"), None);
}
