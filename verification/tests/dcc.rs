use airc::dcc::{
    acknowledgement, announced_size, archive_events, check_filename, completed_event,
    connect_error, connect_label, connect_timeout_error, create_error, decode_dcc_ip_address,
    dotted_quad, extracted_path, extraction_events, file_path, parse_dcc_offer, path_lies_in,
    peer_address, plan_transfer, resolve_ip, safe_file_path, sanitize_filename, split_lines,
    stall_error, started_event, zip_error, Transfer, ZipStep, DCC_CHUNK_SIZE, MAX_FILE_SIZE_BYTES,
};
use airc::tui::UiEvent;

#[test]
fn test_decode_dcc_ip_address() {
    assert_eq!(decode_dcc_ip_address("2130706433").unwrap(), "127.0.0.1");
    assert_eq!(decode_dcc_ip_address("16777216").unwrap(), "1.0.0.0");
    assert_eq!(decode_dcc_ip_address("3232235777").unwrap(), "192.168.1.1");

    assert!(decode_dcc_ip_address("not_a_number").is_err());
    assert!(decode_dcc_ip_address("").is_err());
}

#[test]
fn test_dcc_send_regex() {
    // Valid DCC SEND messages (case insensitive)
    let msg1 = ":bot!user@host PRIVMSG nick :DCC SEND file.txt 2130706433 1234 5678";
    assert!(parse_dcc_offer(msg1).is_some());

    let caps1 = parse_dcc_offer(msg1).unwrap();
    assert!(!caps1.quoted);
    assert_eq!(caps1.filename.as_str(), "file.txt");
    assert_eq!(caps1.ip.as_str(), "2130706433");
    assert_eq!(caps1.port.as_str(), "1234");
    assert_eq!(caps1.size.as_str(), "5678");

    let msg2 = ":bot!user@host PRIVMSG nick :DCC Send file.zip 192 8080 1024";
    assert!(parse_dcc_offer(msg2).is_some());

    let msg3 = ":bot!user@host PRIVMSG nick :DCC SEND book.epub 3232235777 9999 123456";
    assert!(parse_dcc_offer(msg3).is_some());

    // Underscores and commas in the filename
    let msg4 = ":Bsk!~abc@177.243.138.6 PRIVMSG bworm9084 :DCC SEND Exceptional_C++_-_47_Engineering_Puzzles,_Programming_Problems,_and_Solutions.pdf 2985527814 10052 11717617";
    assert!(
        parse_dcc_offer(msg4).is_some(),
        "Real-world DCC SEND message should match"
    );

    let caps4 = parse_dcc_offer(msg4).unwrap();
    assert!(!caps4.quoted);
    assert_eq!(
        caps4.filename.as_str(),
        "Exceptional_C++_-_47_Engineering_Puzzles,_Programming_Problems,_and_Solutions.pdf"
    );
    assert_eq!(caps4.ip.as_str(), "2985527814");
    assert_eq!(caps4.port.as_str(), "10052");
    assert_eq!(caps4.size.as_str(), "11717617");

    // Invalid messages
    assert!(!parse_dcc_offer("PRIVMSG #channel :hello").is_some());
    assert!(!parse_dcc_offer("DCC SEND").is_some());

    // NOTICE messages (announcements) lack port and size
    let notice_msg = ":Bsk!~abc@177.243.138.6 NOTICE bworm9084 :DCC Send Exceptional C++ - 47 Engineering Puzzles, Programming Problems, and Solutions.pdf (177.243.138.6)";
    assert!(
        !parse_dcc_offer(notice_msg).is_some(),
        "NOTICE message should NOT match - it has filename with spaces and IP in parentheses, but no port/size"
    );
    assert!(
        parse_dcc_offer(notice_msg).is_none(),
        "NOTICE message should have no captures"
    );
}

#[test]
fn test_notice_vs_privmsg_dcc() {
    let notice = ":Bsk!~abc@177.243.138.6 NOTICE bworm9084 :DCC Send Exceptional C++ - 47 Engineering Puzzles, Programming Problems, and Solutions.pdf (177.243.138.6)";
    let privmsg = ":Bsk!~abc@177.243.138.6 PRIVMSG bworm9084 :DCC SEND Exceptional_C++_-_47_Engineering_Puzzles,_Programming_Problems,_and_Solutions.pdf 2985527814 10052 11717617";

    assert!(!parse_dcc_offer(notice).is_some(), "NOTICE is just an announcement");
    assert!(
        parse_dcc_offer(privmsg).is_some(),
        "PRIVMSG has actual transfer details"
    );

    // Both contain "DCC SEND" text
    assert!(notice.to_uppercase().contains("DCC SEND"));
    assert!(privmsg.to_uppercase().contains("DCC SEND"));

    // But only PRIVMSG matches the pattern
    assert!(parse_dcc_offer(notice).is_none());
    assert!(parse_dcc_offer(privmsg).is_some());
}

#[test]
fn test_dcc_with_ctcp_delimiters() {
    // The format that IRC servers send, with CTCP delimiters (\x01)
    let with_ctcp = ":SearchOok!ook@OokMP3.users.undernet.org PRIVMSG bworm55417 :\x01DCC SEND SearchBot_results_for__rust_program.txt.zip 1544743952 2044 807\x01\r\n";

    println!("Testing CTCP-wrapped DCC SEND: {:?}", with_ctcp);
    println!(
        "Line contains 'DCC SEND': {}",
        with_ctcp.to_uppercase().contains("DCC SEND")
    );
    println!("Regex matches: {}", parse_dcc_offer(with_ctcp).is_some());

    if let Some(caps) = parse_dcc_offer(with_ctcp) {
        println!("Captured filename: {:?}", caps.filename);
        println!("Captured ip: {:?}", caps.ip);
        println!("Captured port: {:?}", caps.port);
        println!("Captured size: {:?}", caps.size);
    } else {
        println!("NO CAPTURES!");
    }

    assert!(
        parse_dcc_offer(with_ctcp).is_some(),
        "Should match DCC SEND with CTCP delimiters"
    );

    let caps = parse_dcc_offer(with_ctcp).unwrap();
    assert!(!caps.quoted);
    assert_eq!(
        caps.filename.as_str(),
        "SearchBot_results_for__rust_program.txt.zip"
    );
    assert_eq!(caps.ip.as_str(), "1544743952");
    assert_eq!(caps.port.as_str(), "2044");
    assert_eq!(caps.size.as_str(), "807");
}

#[test]
fn test_dcc_send_quoted_filename_with_spaces() {
    let line = ":Oatmeal!Oatmeal@50.25.28.166 PRIVMSG bworm23183 :DCC SEND \"Brad Thor - (Scot Harvath 01) - The Lions of Lucerne.epub\" 840506534 3005 1272554";
    let caps = parse_dcc_offer(line).expect("quoted DCC SEND with spaces should match");
    assert!(caps.quoted);
    assert_eq!(
        caps.filename.as_str(),
        "Brad Thor - (Scot Harvath 01) - The Lions of Lucerne.epub"
    );
    assert_eq!(caps.ip.as_str(), "840506534");
    assert_eq!(caps.port.as_str(), "3005");
    assert_eq!(caps.size.as_str(), "1272554");
}

#[test]
fn test_dcc_send_quoted_filename_unicode() {
    let line = ":bot!u@h PRIVMSG me :DCC SEND \"Café Société.epub\" 2130706433 1234 5678";
    let caps = parse_dcc_offer(line).expect("unicode quoted DCC SEND should match");
    assert!(caps.quoted);
    assert_eq!(caps.filename.as_str(), "Café Société.epub");
    assert_eq!(caps.size.as_str(), "5678");
}

#[test]
fn the_last_offer_on_the_first_line_counts() {
    let one = parse_dcc_offer("dcc send a 1 2 3 DCC SEND b 4 5 6 tail").unwrap();
    assert_eq!(one.filename, "b");
    assert_eq!(one.size, "6");
    let first = parse_dcc_offer("x\nDCC SEND a 1 2 3\nDCC SEND b 4 5 6").unwrap();
    assert_eq!(first.filename, "a");
}

#[test]
fn quoted_and_bare_names_are_told_apart() {
    let bare = parse_dcc_offer("DCC SEND \"open 1 2 3").unwrap();
    assert!(!bare.quoted);
    assert_eq!(bare.filename, "\"open");
    let quoted = parse_dcc_offer("DCC SEND \"a\nb\" 1 2 34x").unwrap();
    assert!(quoted.quoted);
    assert_eq!(quoted.filename, "a\nb");
    assert_eq!(quoted.size, "34");
    assert!(parse_dcc_offer("DCC SEND \"\" 1 2 3").is_some());
    assert!(parse_dcc_offer("DCC SEND a  1 2 3").is_none());
    assert!(parse_dcc_offer("DCC SEND a\u{a0} 1 2 3").is_none());
}

#[test]
fn names_of_every_script_are_found() {
    for name in ["\u{65e5}\u{672c}.epub", "\u{645}\u{643}\u{62a}\u{628}\u{629}.pdf", "\u{1f4da}"] {
        let line = format!(":b PRIVMSG me :\u{1}DCC SEND {} 16777216 99 7\u{1}", name);
        assert_eq!(parse_dcc_offer(&line).unwrap().filename, name);
        let quoted = format!(":b PRIVMSG me :DCC SEND \"{} x\" 16777216 99 7", name);
        assert_eq!(parse_dcc_offer(&quoted).unwrap().filename, format!("{} x", name));
    }
}

#[test]
fn case_folding_and_digits_are_those_of_unicode() {
    assert!(parse_dcc_offer("dcc \u{17f}end a 1 2 3").is_some());
    let offer = parse_dcc_offer("DCC SEND a \u{661} 2 3").unwrap();
    assert_eq!(offer.ip, "\u{661}");
    assert!(parse_dcc_offer("DCC SEND a \u{2460} 2 3").is_none());
}

#[test]
fn a_line_without_the_words_offers_nothing() {
    assert!(parse_dcc_offer("SEND a 1 2 3").is_none());
    assert!(parse_dcc_offer("DCC  SEND a 1 2 3").is_none());
}

#[test]
fn addresses_are_dotted() {
    assert_eq!(dotted_quad(0), "0.0.0.0");
    assert_eq!(dotted_quad(u32::MAX), "255.255.255.255");
    assert_eq!(resolve_ip("2130706433"), "127.0.0.1");
    assert_eq!(resolve_ip("10.0.0.1"), "10.0.0.1");
    assert_eq!(resolve_ip("4294967296"), "4294967296");
    assert_eq!(
        decode_dcc_ip_address("4294967296").unwrap_err().message(),
        "Parse error: number too large to fit in target type"
    );
}

#[test]
fn different_addresses_have_different_dotted_forms() {
    let addresses = [0u32, 1, 10, 256, 2561, 65536, 0x0a01_0a01, 0x010a_010a, u32::MAX];
    for a in addresses {
        for b in addresses {
            assert_eq!(a == b, dotted_quad(a) == dotted_quad(b));
        }
    }
}

#[test]
fn names_are_refused_for_the_first_reason() {
    let why = |name: &str| sanitize_filename(name).unwrap_err().message();
    assert_eq!(why(""), "Filename is empty");
    assert_eq!(why(&"a".repeat(256)), "Filename too long (max 255 chars)");
    assert_eq!(why(&"\u{e9}".repeat(128)), "Filename too long (max 255 chars)");
    assert_eq!(why("a\0/"), "Filename contains null byte");
    assert_eq!(why("../x"), "Invalid filename (contains path separators): ../x");
    assert_eq!(why("a..b"), "Invalid filename (contains path separators): a..b");
    assert_eq!(why("a/b"), "Invalid filename (contains path separators): a/b");
    assert_eq!(why("a\\b"), "Invalid filename (contains path separators): a\\b");
    for c in ['<', '>', ':', '"', '|', '?', '*'] {
        let name = format!("a{}b", c);
        assert_eq!(why(&name), format!("Filename contains invalid characters: {}", name));
    }
    assert_eq!(why("con"), "Filename is a reserved name: con");
    assert_eq!(why("Lpt9.txt"), "Filename is a reserved name: Lpt9.txt");
}

#[test]
fn other_names_are_accepted() {
    for name in ["a", ".", ".hidden", "console", "com0", "a b", "\u{e9}t\u{e9}.epub"] {
        assert_eq!(sanitize_filename(name).unwrap(), name);
    }
    assert_eq!(sanitize_filename(&"a".repeat(255)).unwrap().len(), 255);
}

#[test]
fn the_upper_case_form_decides_what_is_reserved() {
    assert!(check_filename("x", "AUX.TXT").is_err());
    assert_eq!(check_filename("aux", "X").unwrap(), "aux");
}

#[test]
fn files_stay_in_the_download_directory() {
    let part = |s: &str| s.as_bytes().to_vec();
    let base = vec![part("/"), part("home"), part("dl")];
    let outside = vec![part("/"), part("home")];
    let beside = vec![part("/"), part("home"), part("dl2")];
    let deeper = vec![part("/"), part("home"), part("dl"), part("x")];
    assert!(path_lies_in(&deeper, &base));
    assert!(path_lies_in(&base, &base));
    assert!(!path_lies_in(&outside, &base));
    assert!(!path_lies_in(&beside, &base));
    let path = format!("dl{}f", std::path::MAIN_SEPARATOR);
    assert_eq!(safe_file_path("dl", "f", &base, &Some(base.clone())).unwrap(), path);
    assert_eq!(safe_file_path("dl", "f", &base, &None).unwrap(), path);
    assert_eq!(
        safe_file_path("dl", "f", &base, &Some(outside)).unwrap_err().message(),
        "Path traversal detected: f escapes dl"
    );
    assert_eq!(
        safe_file_path("dl", "", &base, &None).unwrap_err().message(),
        "Filename is empty"
    );
}

#[test]
fn files_lie_in_the_download_directory() {
    let name = "My Book (2020).epub";
    for directory in ["", "/", "dl", "dl/", "/a/b", "./x", "caf\u{e9}", ".."] {
        let path = file_path(directory, name).unwrap();
        assert_eq!(std::path::Path::new(&path), std::path::Path::new(directory).join(name));
        assert!(path.starts_with(directory) && path.ends_with(name));
        assert!(path.len() <= directory.len() + 1 + name.len());
    }
    assert_eq!(file_path("", "f").unwrap(), "f");
    assert_eq!(file_path("dl/", "f").unwrap(), "dl/f");
    for (refused, why) in [
        ("", "Filename is empty"),
        ("../f", sanitize_filename("../f").unwrap_err().message().as_str()),
        ("a/b", sanitize_filename("a/b").unwrap_err().message().as_str()),
        ("c:f", sanitize_filename("c:f").unwrap_err().message().as_str()),
    ] {
        assert_eq!(file_path("dl", refused).unwrap_err().message(), why);
    }
}

#[test]
fn sizes_are_limited() {
    assert_eq!(announced_size(" 807 ").unwrap(), 807);
    assert_eq!(announced_size("10737418240").unwrap(), MAX_FILE_SIZE_BYTES);
    assert_eq!(
        announced_size("10737418241").unwrap_err().message(),
        "File size 10737418241 bytes exceeds maximum allowed size of 10737418240 bytes"
    );
    assert_eq!(
        announced_size("x").unwrap_err().message(),
        "Invalid file size 'x': invalid digit found in string"
    );
    assert_eq!(
        announced_size("").unwrap_err().message(),
        "Invalid file size '': cannot parse integer from empty string"
    );
}

#[test]
fn peers_have_an_address_and_a_port() {
    assert_eq!(peer_address("2130706433", " 1234").unwrap(), "127.0.0.1:1234");
    assert_eq!(peer_address("host", "+7").unwrap(), "host:7");
    assert_eq!(
        peer_address("1", "65536").unwrap_err().message(),
        "Invalid port '65536': number too large to fit in target type"
    );
}

#[test]
fn a_transfer_is_announced_once_its_size_is_known() {
    let (started, plan) = plan_transfer("f", "2130706433", "99", "807");
    assert!(matches!(started, Some(UiEvent::DownloadStarted { size: 807, .. })));
    let plan = plan.ok().unwrap();
    assert_eq!(plan.address, "127.0.0.1:99");
    assert_eq!(plan.file_size, 807);
    let (started, plan) = plan_transfer("f", "1", "x", "807");
    assert!(started.is_some());
    assert_eq!(
        plan.err().unwrap().message(),
        "Invalid port 'x': invalid digit found in string"
    );
    let (started, plan) = plan_transfer("f", "1", "x", "y");
    assert!(started.is_none());
    assert_eq!(
        plan.err().unwrap().message(),
        "Invalid file size 'y': invalid digit found in string"
    );
    assert!(plan_transfer("f", "1", "2", "10737418241").0.is_none());
}

#[test]
fn failures_of_a_transfer_are_told() {
    assert_eq!(
        connect_timeout_error("1.2.3.4:5", 30).message(),
        "Connection timed out: DCC connection to 1.2.3.4:5 timed out after 30 seconds"
    );
    assert_eq!(
        connect_error("a:1", "refused").message(),
        "Connection error: Failed to connect to a:1: refused"
    );
    assert_eq!(connect_label("a:1"), "DCC connection to a:1");
    assert_eq!(create_error("p", "full").message(), "Failed to create file 'p': full");
    assert_eq!(stall_error(300).message(), "DCC transfer timed out after 300 seconds");
}

#[test]
fn acknowledgements_are_big_endian_and_wrap() {
    for total in [0u64, 1, 255, 256, 807, 0xdead_beef, 0x1_0000_0001, 10737418240] {
        assert_eq!(acknowledgement(total), (total as u32).to_be_bytes().to_vec());
    }
}

#[test]
fn a_transfer_reads_chunks_until_the_file_is_complete() {
    let size = DCC_CHUNK_SIZE as u64 + 10;
    let mut t = Transfer::new(size);
    assert_eq!(t.next_read(), Some(DCC_CHUNK_SIZE));
    let first = t.on_read("f", DCC_CHUNK_SIZE, 0).unwrap();
    assert_eq!(first.ack, (DCC_CHUNK_SIZE as u32).to_be_bytes().to_vec());
    assert!(matches!(
        first.progress,
        Some(UiEvent::DownloadProgress { ref filename, received })
            if filename == "f" && received == DCC_CHUNK_SIZE as u64
    ));
    assert_eq!(t.last_percent, 99);
    assert_eq!(t.next_read(), Some(10));
    let quiet = t.on_read("f", 3, 199).unwrap();
    assert!(quiet.progress.is_none());
    let late = t.on_read("f", 1, 200).unwrap();
    assert!(late.progress.is_some());
    let last = t.on_read("f", 6, 0).unwrap();
    assert!(last.progress.is_some());
    assert_eq!(t.last_percent, 100);
    assert_eq!(t.received, size);
    assert_eq!(t.next_read(), None);
}

#[test]
fn reads_add_up_to_the_file() {
    let mut t = Transfer::new(100000);
    let mut sum = 0usize;
    let mut step = 1usize;
    while let Some(most) = t.next_read() {
        let n = step.min(most);
        t.on_read("f", n, 0).unwrap();
        sum += n;
        step = step * 3 % 70001 + 1;
    }
    assert_eq!(sum, 100000);
    assert_eq!(t.received, 100000);
}

#[test]
fn a_closed_connection_is_an_error() {
    let mut t = Transfer::new(807);
    t.on_read("f", 7, 0).unwrap();
    assert_eq!(
        t.on_read("f", 0, 0).err().unwrap().message(),
        "Connection closed after 7 of 807 bytes"
    );
    assert_eq!(t.received, 7);
    assert_eq!(Transfer::new(0).next_read(), None);
}

#[test]
fn events_name_the_file() {
    assert!(matches!(
        started_event("f", 9),
        UiEvent::DownloadStarted { filename, size: 9 } if filename == "f"
    ));
    assert!(matches!(completed_event("f"), UiEvent::DownloadCompleted(f) if f == "f"));
}

#[test]
fn archives_are_extracted_beside_themselves() {
    assert_eq!(extracted_path("d/r.txt.zip").unwrap(), "d/r.txt");
    assert_eq!(extracted_path(".zip").unwrap(), "");
    assert_eq!(
        extracted_path("r.ZIP").unwrap_err().message(),
        "Filename doesn't end with .zip"
    );
}

#[test]
fn each_step_of_an_extraction_can_fail() {
    let say = |step| zip_error(step, "p", "w").message();
    assert_eq!(say(ZipStep::Open), "Failed to open zip file 'p': w");
    assert_eq!(say(ZipStep::Read), "Failed to read zip archive 'p': w");
    assert_eq!(say(ZipStep::First), "Failed to access first file in archive: w");
    assert_eq!(say(ZipStep::Create), "Failed to create output file 'p': w");
    assert_eq!(say(ZipStep::Extract), "Failed to extract file: w");
}

#[test]
fn lines_end_at_line_feeds() {
    assert_eq!(split_lines(""), Vec::<String>::new());
    for contents in ["a", "a\n", "a\r\nb", "\n\n", "\r", "a\rb\r\n\r\nc\r"] {
        let expected: Vec<String> = contents
            .split_inclusive('\n')
            .map(|l| match l.strip_suffix('\n') {
                Some(s) => s.strip_suffix('\r').unwrap_or(s).to_string(),
                None => l.to_string(),
            })
            .collect();
        assert_eq!(split_lines(contents), expected);
    }
}

#[test]
fn extractions_are_announced_by_the_name_of_the_archive() {
    for (path, shown) in [
        ("dl/sub/a.zip", "a.zip"),
        ("a.zip", "a.zip"),
        ("/a b.zip", "a b.zip"),
        ("dl/..", "dl/.."),
    ] {
        assert!(matches!(
            archive_events(path),
            (UiEvent::DownloadExtracting(f), UiEvent::DownloadExtracted(g))
                if f == shown && g == shown
        ));
    }
    assert!(matches!(
        extraction_events("x/y.zip", &Some("y.zip".to_string())),
        (UiEvent::DownloadExtracting(f), UiEvent::DownloadExtracted(g))
            if f == "y.zip" && g == "y.zip"
    ));
    assert!(matches!(
        extraction_events("x/", &None),
        (UiEvent::DownloadExtracting(f), UiEvent::DownloadExtracted(g)) if f == "x/" && g == "x/"
    ));
}
