use airc::commands::entry_number;
use airc::config::Config;
use airc::tui::app::{ActivePanel, App, MessageType, Rect};
use airc::tui::download::{DownloadProgress, DownloadStatus};
use airc::tui::render::{
    arrange, book_pane, download_pane, help_line, input_pane, message_pane,
    message_scrollbar_position, scrollbar_area, server_pane, user_pane, visible_numbered_books,
    Color,
};

fn app() -> App {
    App::new(Config::default())
}

fn area(height: u16) -> Rect {
    Rect { x: 1, y: 2, width: 30, height }
}

#[test]
fn test_message_scrollbar_position_orientation() {
    // 20 lines, 5 visible. Newest (scroll 0) sits at the bottom of the track.
    assert_eq!(message_scrollbar_position(20, 5, 0), 15);
    // Fully scrolled up (scroll == max_scroll 15) sits at the top.
    assert_eq!(message_scrollbar_position(20, 5, 15), 0);
    // Midway.
    assert_eq!(message_scrollbar_position(20, 5, 10), 5);
    // Content shorter than the viewport pins to the top.
    assert_eq!(message_scrollbar_position(3, 5, 0), 0);
}

#[test]
fn test_visible_numbered_books_uses_absolute_index() {
    let books = vec!["a".to_string(), "b".to_string(), "c".to_string()];
    assert_eq!(
        visible_numbered_books(&books, 0, 2),
        vec!["0: a".to_string(), "1: b".to_string()]
    );
    // Scrolled: numbers stay absolute so `/<n>` still selects the right entry.
    assert_eq!(
        visible_numbered_books(&books, 1, 2),
        vec!["1: b".to_string(), "2: c".to_string()]
    );
}

#[test]
fn test_progress_percent_half() {
    let mut d = DownloadProgress::new("a.txt".to_string(), 200);
    d.update_progress(100);
    assert_eq!(d.progress, 50);
    assert_eq!(d.status, DownloadStatus::InProgress);
}

#[test]
fn test_progress_percent_zero_size() {
    // A zero-size download must never divide by zero; percent stays 0.
    let mut d = DownloadProgress::new("empty".to_string(), 0);
    d.update_progress(0);
    assert_eq!(d.progress, 0);
}

#[test]
fn test_progress_clamps_over_100() {
    let mut d = DownloadProgress::new("a".to_string(), 100);
    d.update_progress(150);
    assert_eq!(d.progress, 100);
}

#[test]
fn test_mark_completed_sets_full() {
    let mut d = DownloadProgress::new("a".to_string(), 100);
    d.mark_completed();
    assert_eq!(d.progress, 100);
    assert_eq!(d.status, DownloadStatus::Completed);
}

#[test]
fn test_mark_failed_and_extracting() {
    let mut d = DownloadProgress::new("a".to_string(), 100);
    d.mark_failed("boom".to_string());
    assert_eq!(d.status, DownloadStatus::Failed("boom".to_string()));
    d.mark_extracting();
    assert_eq!(d.status, DownloadStatus::Extracting);
}

#[test]
fn gauges_round() {
    let mut d = DownloadProgress::new("a".to_string(), 1000);
    d.update_progress(994);
    assert_eq!(d.progress, 99);
    d.update_progress(995);
    assert_eq!(d.progress, 100);
    d.update_progress(5);
    assert_eq!(d.progress, 1);
}

#[test]
fn shown_numbers_request_their_books() {
    let books: Vec<String> = (0..30).map(|i| format!("book {}", i)).collect();
    for line in visible_numbered_books(&books, 7, 12) {
        let (number, book) = line.split_once(": ").unwrap();
        let n = entry_number(&format!("/{}", number)).unwrap();
        assert_eq!(books[n], book);
    }
    assert!(visible_numbered_books(&books, 30, 5).is_empty());
    assert!(visible_numbered_books(&books, 0, 0).is_empty());
}

#[test]
fn the_server_pane_tells_the_state() {
    let mut a = app();
    let pane = server_pane(&a);
    assert_eq!(pane.title, "Server: irc.undernet.org");
    assert_eq!(pane.items, ["Disconnected", "#bookz", "/j join", "/q quit"]);
    assert_eq!((pane.border, pane.color, pane.scrollbar), (Color::Blue, Color::Cyan, false));
    a.connected = true;
    assert_eq!(server_pane(&a).items[0], "Connected");
}

#[test]
fn lists_show_what_fits() {
    let mut a = app();
    a.book_list = (0..5).map(|i| format!("b{}", i)).collect();
    a.user_list = (0..5).map(|i| format!("u{}", i)).collect();
    a.book_scroll = 4;
    a.user_scroll = 1;
    a.active_panel = ActivePanel::Books;
    let books = book_pane(&mut a, area(5));
    assert_eq!(books.title, "Book list");
    assert_eq!(books.items, ["2: b2", "3: b3", "4: b4"]);
    assert_eq!(books.border, Color::LightBlue);
    assert!(books.scrollbar);
    let users = user_pane(&mut a, area(5));
    assert_eq!(users.title, "Users");
    assert_eq!(users.items, ["u1", "u2", "u3"]);
    assert_eq!((users.border, users.color), (Color::Red, Color::Red));
    a.active_panel = ActivePanel::Users;
    assert_eq!(book_pane(&mut a, area(5)).border, Color::LightYellow);
    assert_eq!(user_pane(&mut a, area(1)).items.len(), 0);
    let mut empty = app();
    assert!(!book_pane(&mut empty, area(5)).scrollbar);
    assert!(!user_pane(&mut empty, area(5)).scrollbar);
}

#[test]
fn the_newest_downloads_are_shown() {
    let mut a = app();
    let none = download_pane(&a, 0);
    assert_eq!(none.title, "No active downloads");
    assert_eq!((none.border, none.percent), (Color::DarkGray, None));
    for name in ["f", "g", "h", "i", "j"] {
        a.add_download(name.to_string(), 10);
    }
    a.complete_download("f");
    a.fail_download("g", "x".to_string());
    a.mark_download_extracting("h");
    a.update_download("i", 5);
    let shown: Vec<(String, Color, Option<u16>)> = (0..6)
        .map(|i| {
            let p = download_pane(&a, i);
            (p.title, p.border, p.percent)
        })
        .collect();
    assert_eq!(
        shown,
        vec![
            ("j (Starting)".to_string(), Color::Blue, Some(0)),
            ("i (In Progress)".to_string(), Color::Blue, Some(50)),
            ("h (Extracting)".to_string(), Color::Yellow, Some(0)),
            ("g (Failed)".to_string(), Color::Red, Some(0)),
            ("f (Completed)".to_string(), Color::Green, Some(100)),
            ("No active downloads".to_string(), Color::DarkGray, None),
        ]
    );
}

#[test]
fn the_message_pane_is_a_window() {
    let mut a = app();
    let empty = message_pane(&mut a, area(5));
    assert!(empty.lines.is_empty());
    assert!(!empty.scrollbar);
    for i in 0..10 {
        a.add_message_with_type(format!("m{}", i), MessageType::Received);
    }
    let newest = message_pane(&mut a, area(5));
    assert_eq!(newest.title, "Messages");
    assert_eq!(newest.border, Color::Magenta);
    assert_eq!(newest.lines.len(), 3);
    assert!(newest.lines[2].text.ends_with("] RX: m9"));
    assert_eq!(newest.lines[0].color, Color::Yellow);
    assert_eq!(a.max_scroll, 7);
    a.scroll_up(100);
    a.active_panel = ActivePanel::Messages;
    let oldest = message_pane(&mut a, area(5));
    assert_eq!(oldest.title, "Messages (\u{2191} 7/7)");
    assert_eq!(oldest.border, Color::LightBlue);
    assert!(oldest.lines[0].text.ends_with("m0"));
    assert_eq!(a.message_scroll_state.position, 0);
    assert_eq!(a.message_scroll_state.viewport_content_length, 3);
    let all = message_pane(&mut a, area(40));
    assert_eq!(all.lines.len(), 10);
    assert_eq!(a.message_scroll, 0);
}

#[test]
fn messages_have_the_colour_of_their_type() {
    let mut a = app();
    let cases = [
        (MessageType::Sent, Color::Green),
        (MessageType::Received, Color::Yellow),
        (MessageType::System, Color::White),
        (MessageType::Info, Color::Cyan),
        (MessageType::Debug, Color::Gray),
        (MessageType::Error, Color::Red),
    ];
    for (message_type, _) in cases {
        a.add_message_with_type("x".to_string(), message_type);
    }
    let pane = message_pane(&mut a, area(20));
    for (i, (_, color)) in cases.iter().enumerate() {
        assert_eq!(pane.lines[i].color, *color);
    }
}

#[test]
fn the_input_pane_has_a_cursor() {
    let mut a = app();
    a.input = "abc".to_string();
    a.cursor_position = 2;
    let pane = input_pane(&a, area(3));
    assert_eq!(pane.title, "Input");
    assert_eq!(pane.text, "abc");
    assert_eq!((pane.border, pane.color), (Color::LightBlue, Color::White));
    assert_eq!((pane.cursor_x, pane.cursor_y), (4, 3));
    a.active_panel = ActivePanel::Books;
    assert_eq!(input_pane(&a, area(3)).border, Color::Green);
    a.cursor_position = 65536;
    assert_eq!(input_pane(&a, area(3)).cursor_x, 5);
    a.input = "\u{e9}\u{1f4da}x".to_string();
    a.cursor_position = 6;
    assert_eq!(input_pane(&a, area(3)).cursor_x, 4);
    a.input = "x".repeat(65537);
    a.cursor_position = 65537;
    assert_eq!(input_pane(&a, area(3)).cursor_x, 3);
}

#[test]
fn scrollbars_lie_in_the_last_column() {
    let bar = scrollbar_area(area(5));
    assert_eq!(bar, Rect { x: 30, y: 3, width: 1, height: 3 });
    let thin = scrollbar_area(Rect { x: 4, y: 0, width: 0, height: 1 });
    assert_eq!(thin, Rect { x: 4, y: 1, width: 1, height: 0 });
}

#[test]
fn help_names_the_commands() {
    let line = help_line();
    let text: String = line.iter().map(|s| s.text.as_str()).collect();
    assert_eq!(
        text,
        "/j: join | /s query: search | /N: request | PgUp/PgDn/Home/End: scroll | /q or Ctrl+Q: quit"
    );
    let bold: Vec<&str> = line.iter().filter(|s| s.bold).map(|s| s.text.as_str()).collect();
    assert_eq!(bold, ["/j", "/s query", "/N", "PgUp/PgDn/Home/End", "/q", "Ctrl+Q"]);
}

#[test]
fn the_terminal_is_divided() {
    let size = Rect { x: 0, y: 0, width: 100, height: 44 };
    let panes = arrange(size);
    assert_eq!(panes.server, Rect { x: 0, y: 0, width: 10, height: 40 });
    assert_eq!(panes.users, Rect { x: 90, y: 0, width: 10, height: 40 });
    assert_eq!(panes.books, Rect { x: 10, y: 0, width: 80, height: 28 });
    assert_eq!(panes.first_download, Rect { x: 10, y: 28, width: 80, height: 3 });
    assert_eq!(panes.second_download, Rect { x: 10, y: 31, width: 80, height: 3 });
    assert_eq!(panes.messages, Rect { x: 10, y: 34, width: 80, height: 6 });
    assert_eq!(panes.input, Rect { x: 0, y: 40, width: 100, height: 3 });
    assert_eq!(panes.help, Rect { x: 0, y: 43, width: 100, height: 1 });
    let areas = panes.areas();
    assert_eq!(areas.message_area, panes.messages);
    assert_eq!(areas.book_area, panes.books);
    assert_eq!(areas.user_area, panes.users);
    assert_eq!(areas.input_area, panes.input);
}

/// `n` hundredths of a cell, rounded to cells.
fn cells(n: u32) -> u16 {
    ((n + 50) / 100) as u16
}

fn check_panes(size: Rect) {
    let p = arrange(size);
    let main = if size.height >= 5 { size.height - 4 } else { size.height.min(1) };
    let foot = size.height - main;
    let input = if foot <= 1 { foot } else { foot - 1 };
    assert_eq!(p.input, Rect { y: size.y + main, height: input, ..size });
    assert_eq!(p.help, Rect { y: size.y + main + input, height: foot - input, ..size });
    let (left, right) = (cells(10 * size.width as u32), cells(90 * size.width as u32));
    let column = |from: u16, to: u16| Rect {
        x: size.x + from,
        y: size.y,
        width: to - from,
        height: main,
    };
    assert_eq!(p.server, column(0, left));
    assert_eq!(p.users, column(right, size.width));
    let middle = column(left, right);
    let books = cells(70 * main as u32);
    assert_eq!(p.books, Rect { height: books, ..middle });
    let rest = Rect { y: middle.y + books, height: main - books, ..middle };
    let (first, both) = if rest.height >= 7 {
        (3, 6)
    } else {
        let shared = rest.height.saturating_sub(1);
        (cells(50 * shared as u32), shared)
    };
    assert_eq!(p.first_download, Rect { height: first, ..rest });
    assert_eq!(p.second_download, Rect { y: rest.y + first, height: both - first, ..rest });
    assert_eq!(p.messages, Rect { y: rest.y + both, height: rest.height - both, ..rest });
}

#[test]
fn a_usual_terminal_is_crowded_below_the_books() {
    let p = arrange(Rect { x: 0, y: 0, width: 80, height: 24 });
    assert_eq!(p.books, Rect { x: 8, y: 0, width: 64, height: 14 });
    assert_eq!(p.first_download, Rect { x: 8, y: 14, width: 64, height: 3 });
    assert_eq!(p.second_download, Rect { x: 8, y: 17, width: 64, height: 2 });
    assert_eq!(p.messages, Rect { x: 8, y: 19, width: 64, height: 1 });
    assert_eq!(p.input, Rect { x: 0, y: 20, width: 80, height: 3 });
    assert_eq!(p.help, Rect { x: 0, y: 23, width: 80, height: 1 });
}

#[test]
fn low_terminals_keep_a_row_for_the_main_part() {
    for (height, main, input, help) in
        [(0, 0, 0, 0), (1, 1, 0, 0), (2, 1, 1, 0), (3, 1, 1, 1), (4, 1, 2, 1), (5, 1, 3, 1)]
    {
        let p = arrange(Rect { x: 0, y: 0, width: 80, height });
        assert_eq!((p.server.height, p.input.height, p.help.height), (main, input, help));
    }
}

#[test]
fn terminals_of_every_height_are_divided_alike() {
    for height in 0..1500 {
        check_panes(Rect { x: 0, y: 0, width: 80, height });
    }
    for height in [20001, 40007, 65535] {
        check_panes(Rect { x: 0, y: 0, width: 80, height });
    }
}

#[test]
fn terminals_of_every_width_are_divided_alike() {
    for width in 0..1500 {
        check_panes(Rect { x: 0, y: 0, width, height: 50 });
    }
    for width in [20005, 40015, 65535] {
        check_panes(Rect { x: 0, y: 0, width, height: 24 });
    }
}

#[test]
fn panes_lie_where_the_terminal_lies() {
    for (x, y, width, height) in [(3, 7, 81, 43), (65000, 60000, 535, 5535), (1, 1, 5, 5)] {
        check_panes(Rect { x, y, width, height });
    }
    for y in (0..65500).step_by(1021) {
        for height in 0..30 {
            check_panes(Rect { x: 2, y, width: 40, height });
        }
    }
}

#[test]
fn terminals_end_where_coordinates_end() {
    let size = Rect { x: 65500, y: 65505, width: 100, height: 100 };
    let cut = Rect { x: 65500, y: 65505, width: 35, height: 30 };
    let (p, q) = (arrange(size), arrange(cut));
    assert_eq!((p.server, p.books, p.users), (q.server, q.books, q.users));
    assert_eq!((p.first_download, p.second_download), (q.first_download, q.second_download));
    assert_eq!(p.messages, q.messages);
    assert_eq!(p.input, Rect { width: 100, ..q.input });
    assert_eq!(p.help, Rect { width: 100, ..q.help });
}

#[test]
fn every_cell_lies_in_one_pane() {
    for (width, height) in [(80, 24), (7, 3), (33, 41), (1, 9)] {
        let p = arrange(Rect { x: 0, y: 0, width, height });
        let panes = [
            p.server,
            p.books,
            p.users,
            p.first_download,
            p.second_download,
            p.messages,
            p.input,
            p.help,
        ];
        for x in 0..width {
            for y in 0..height {
                assert_eq!(panes.iter().filter(|r| r.contains_point(x, y)).count(), 1);
            }
        }
    }
}
