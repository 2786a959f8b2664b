use airc::clock::TimeOfDay;
use airc::config::Config;
use airc::tui::app::{
    ActivePanel, App, Areas, Event, KeyCode, KeyEvent, KeyEventKind, Message, MessageType,
    MouseButton, MouseEvent, MouseEventKind, Rect, MAX_MESSAGE_HISTORY,
};

fn app() -> App {
    App::new(Config::default())
}

fn fill_messages(app: &mut App, n: usize) {
    for i in 0..n {
        app.add_message_with_type(format!("m{i}"), MessageType::System);
    }
}

fn key(code: KeyCode) -> KeyEvent {
    KeyEvent { code, control: false, kind: KeyEventKind::Press }
}

fn control(code: KeyCode) -> KeyEvent {
    KeyEvent { code, control: true, kind: KeyEventKind::Press }
}

fn mouse(kind: MouseEventKind, column: u16, row: u16) -> MouseEvent {
    MouseEvent { kind, column, row }
}

fn areas() -> Areas {
    let strip = |y: u16| Rect { x: 2, y, width: 10, height: 3 };
    Areas { message_area: strip(0), book_area: strip(3), user_area: strip(6), input_area: strip(9) }
}

#[test]
fn test_scroll_up_clamps_at_max() {
    let mut a = app();
    fill_messages(&mut a, 20);
    a.update_max_scroll(5); // 20 - 5 = 15
    a.scroll_up(100);
    assert_eq!(a.message_scroll, 15);
}

#[test]
fn test_scroll_down_clamps_at_zero() {
    let mut a = app();
    fill_messages(&mut a, 20);
    a.update_max_scroll(5);
    a.scroll_up(10);
    a.scroll_down(100);
    assert_eq!(a.message_scroll, 0);
}

#[test]
fn test_update_max_scroll_zero_when_content_fits() {
    let mut a = app();
    fill_messages(&mut a, 3);
    a.update_max_scroll(10);
    assert_eq!(a.max_scroll, 0);
}

#[test]
fn test_add_message_resets_scroll_to_bottom() {
    let mut a = app();
    fill_messages(&mut a, 20);
    a.update_max_scroll(5);
    a.scroll_up(5);
    assert_eq!(a.message_scroll, 5);
    a.add_message_with_type("new".to_string(), MessageType::System);
    assert_eq!(a.message_scroll, 0);
}

#[test]
fn test_add_user_dedups() {
    let mut a = app();
    a.add_user("alice".to_string());
    a.add_user("alice".to_string());
    assert_eq!(a.user_list, vec!["alice".to_string()]);
}

#[test]
fn test_remove_user() {
    let mut a = app();
    a.set_users(vec!["alice".to_string(), "bob".to_string()]);
    a.remove_user("alice");
    assert_eq!(a.user_list, vec!["bob".to_string()]);
}

#[test]
fn test_add_download_replaces_same_filename() {
    let mut a = app();
    a.add_download("f".to_string(), 100);
    a.update_download("f", 50);
    a.add_download("f".to_string(), 200); // restart same name
    assert_eq!(a.downloads.len(), 1);
    assert_eq!(a.downloads[0].total_size, 200);
    assert_eq!(a.downloads[0].current_size, 0);
}

#[test]
fn test_history_cap() {
    let mut a = app();
    fill_messages(&mut a, MAX_MESSAGE_HISTORY + 50);
    assert_eq!(a.messages.len(), MAX_MESSAGE_HISTORY);
}

#[test]
fn the_history_keeps_the_newest() {
    let mut a = app();
    fill_messages(&mut a, MAX_MESSAGE_HISTORY + 50);
    assert_eq!(a.messages[0].content, "m50");
    assert_eq!(a.messages[MAX_MESSAGE_HISTORY - 1].content, "m1049");
    assert_eq!(a.message_scroll_state.content_length, MAX_MESSAGE_HISTORY);
}

#[test]
fn messages_are_shown_with_time_and_type() {
    let types = [
        (MessageType::Sent, "TX"),
        (MessageType::Received, "RX"),
        (MessageType::System, "SYS"),
        (MessageType::Info, "INFO"),
        (MessageType::Debug, "DEBUG"),
        (MessageType::Error, "ERROR"),
    ];
    for (message_type, word) in types {
        let m = Message {
            content: "hi".to_string(),
            timestamp: TimeOfDay::new(1, 2, 3).unwrap(),
            message_type,
        };
        assert_eq!(m.formatted(), format!("[01:02:03] {}: hi", word));
    }
    let now = Message::new("x".to_string(), MessageType::Info).formatted();
    assert!(now.ends_with("] INFO: x"));
    assert_eq!(now.len(), "[00:00:00] INFO: x".len());
}

#[test]
fn rectangles_hold_their_cells() {
    let r = Rect { x: 2, y: 3, width: 4, height: 5 };
    assert!(r.contains_point(2, 3));
    assert!(r.contains_point(5, 7));
    assert!(!r.contains_point(6, 7));
    assert!(!r.contains_point(5, 8));
    assert!(!r.contains_point(1, 3));
    assert!(!r.contains_point(2, 2));
    assert!(!Rect { x: 0, y: 0, width: 0, height: 0 }.contains_point(0, 0));
}

#[test]
fn characters_come_in_at_the_cursor() {
    let mut a = app();
    for c in ['a', 'c'] {
        assert_eq!(a.handle_key_event(key(KeyCode::Char(c))), None);
    }
    a.handle_key_event(key(KeyCode::Left));
    a.handle_key_event(key(KeyCode::Char('b')));
    assert_eq!(a.input, "abc");
    assert_eq!(a.cursor_position, 2);
    a.handle_key_event(key(KeyCode::Delete));
    assert_eq!(a.input, "ab");
    a.handle_key_event(key(KeyCode::Delete));
    assert_eq!(a.input, "ab");
    a.handle_key_event(key(KeyCode::Backspace));
    assert_eq!(a.input, "a");
    a.handle_key_event(key(KeyCode::Backspace));
    a.handle_key_event(key(KeyCode::Backspace));
    assert_eq!(a.input, "");
    assert_eq!(a.cursor_position, 0);
}

#[test]
fn backspace_undoes_typing() {
    let mut a = app();
    a.input = "\u{e9}x".to_string();
    a.cursor_position = 2;
    a.handle_key_event(key(KeyCode::Char('q')));
    assert_eq!(a.input, "\u{e9}qx");
    a.handle_key_event(key(KeyCode::Backspace));
    assert_eq!(a.input, "\u{e9}x");
    assert_eq!(a.cursor_position, 2);
    a.handle_key_event(key(KeyCode::Char('\u{1f4da}')));
    assert_eq!(a.input, "\u{e9}\u{1f4da}x");
    assert_eq!(a.cursor_position, 6);
    a.handle_key_event(key(KeyCode::Backspace));
    assert_eq!(a.input, "\u{e9}x");
    assert_eq!(a.cursor_position, 2);
}

#[test]
fn the_cursor_moves_by_characters() {
    let mut a = app();
    a.handle_key_event(key(KeyCode::Char('\u{e9}')));
    a.handle_key_event(key(KeyCode::Char('a')));
    assert_eq!(a.input, "\u{e9}a");
    assert_eq!(a.cursor_position, 3);
    a.handle_key_event(key(KeyCode::Left));
    assert_eq!(a.cursor_position, 2);
    a.handle_key_event(key(KeyCode::Left));
    assert_eq!(a.cursor_position, 0);
    a.handle_key_event(key(KeyCode::Right));
    assert_eq!(a.cursor_position, 2);
    a.handle_key_event(key(KeyCode::Left));
    a.handle_key_event(key(KeyCode::Delete));
    assert_eq!(a.input, "a");
    assert_eq!(a.cursor_position, 0);
}

#[test]
fn a_cursor_inside_a_character_stands_before_it() {
    let mut a = app();
    a.input = "\u{e9}x".to_string();
    a.cursor_position = 1;
    a.handle_key_event(key(KeyCode::Char('q')));
    assert_eq!(a.input, "q\u{e9}x");
    assert_eq!(a.cursor_position, 1);
    a.cursor_position = usize::MAX;
    a.handle_key_event(key(KeyCode::Char('z')));
    assert_eq!(a.input, "q\u{e9}xz");
    assert_eq!(a.cursor_position, 5);
}

#[test]
fn the_cursor_stays_in_the_input() {
    let mut a = app();
    a.handle_key_event(key(KeyCode::Left));
    a.handle_key_event(key(KeyCode::Right));
    assert_eq!(a.cursor_position, 0);
    a.handle_key_event(key(KeyCode::Char('x')));
    a.handle_key_event(key(KeyCode::Right));
    assert_eq!(a.cursor_position, 1);
    a.handle_key_event(key(KeyCode::Left));
    a.handle_key_event(key(KeyCode::Right));
    assert_eq!(a.cursor_position, 1);
}

#[test]
fn enter_submits_the_input() {
    let mut a = app();
    fill_messages(&mut a, 20);
    a.update_max_scroll(5);
    assert_eq!(a.handle_key_event(key(KeyCode::Enter)), None);
    a.scroll_up(3);
    a.handle_key_event(key(KeyCode::Char('h')));
    assert_eq!(a.handle_key_event(key(KeyCode::Enter)), Some("h".to_string()));
    assert_eq!(a.input, "");
    assert_eq!(a.cursor_position, 0);
    assert_eq!(a.message_scroll, 0);
}

#[test]
fn keys_scroll_the_messages() {
    let mut a = app();
    fill_messages(&mut a, 20);
    a.update_max_scroll(12);
    a.handle_key_event(key(KeyCode::PageUp));
    assert_eq!(a.message_scroll, 5);
    a.handle_key_event(key(KeyCode::PageUp));
    assert_eq!(a.message_scroll, 8);
    a.handle_key_event(key(KeyCode::PageDown));
    assert_eq!(a.message_scroll, 3);
    a.handle_key_event(control(KeyCode::Up));
    assert_eq!(a.message_scroll, 4);
    a.handle_key_event(key(KeyCode::Up));
    assert_eq!(a.message_scroll, 4);
    a.handle_key_event(control(KeyCode::Down));
    assert_eq!(a.message_scroll, 3);
    a.handle_key_event(key(KeyCode::Down));
    assert_eq!(a.message_scroll, 3);
    a.handle_key_event(key(KeyCode::Home));
    assert_eq!(a.message_scroll, 8);
    assert_eq!(a.message_scroll_state.position, 8);
    a.handle_key_event(key(KeyCode::End));
    assert_eq!(a.message_scroll, 0);
    a.handle_key_event(key(KeyCode::Other));
    assert_eq!(a.message_scroll, 0);
}

#[test]
fn keys_scroll_the_active_pane() {
    let mut a = app();
    fill_messages(&mut a, 20);
    a.update_max_scroll(5);
    a.book_list = (0..10).map(|i| i.to_string()).collect();
    a.user_list = (0..4).map(|i| i.to_string()).collect();
    a.active_panel = ActivePanel::Books;
    a.handle_key_event(key(KeyCode::PageDown));
    assert_eq!((a.message_scroll, a.book_scroll, a.user_scroll), (0, 5, 0));
    a.handle_key_event(control(KeyCode::Down));
    assert_eq!(a.book_scroll, 6);
    a.handle_key_event(key(KeyCode::PageDown));
    assert_eq!(a.book_scroll, 9);
    a.handle_key_event(key(KeyCode::PageUp));
    a.handle_key_event(control(KeyCode::Up));
    assert_eq!((a.message_scroll, a.book_scroll, a.user_scroll), (0, 3, 0));
    a.active_panel = ActivePanel::Users;
    a.handle_key_event(key(KeyCode::PageDown));
    assert_eq!((a.message_scroll, a.book_scroll, a.user_scroll), (0, 3, 3));
    a.handle_key_event(control(KeyCode::Up));
    assert_eq!(a.user_scroll, 2);
    a.active_panel = ActivePanel::Messages;
    a.handle_key_event(key(KeyCode::PageUp));
    assert_eq!((a.message_scroll, a.book_scroll, a.user_scroll), (5, 3, 2));
    a.active_panel = ActivePanel::Input;
    a.handle_key_event(key(KeyCode::PageDown));
    assert_eq!((a.message_scroll, a.book_scroll, a.user_scroll), (0, 3, 2));
}

#[test]
fn scrolls_are_limited_for_every_amount() {
    let mut a = app();
    fill_messages(&mut a, 20);
    a.update_max_scroll(5);
    a.book_list = vec!["x".to_string(), "y".to_string()];
    a.user_list = vec!["u".to_string(), "v".to_string()];
    for _ in 0..2 {
        a.scroll_up(usize::MAX);
        a.scroll_books_down(usize::MAX);
        a.scroll_users_down(usize::MAX);
        assert_eq!((a.message_scroll, a.book_scroll, a.user_scroll), (15, 1, 1));
    }
    a.scroll_down(usize::MAX);
    a.scroll_books_up(usize::MAX);
    a.scroll_users_up(usize::MAX);
    assert_eq!((a.message_scroll, a.book_scroll, a.user_scroll), (0, 0, 0));
}

#[test]
fn control_q_quits() {
    let mut a = app();
    a.handle_key_event(key(KeyCode::Char('q')));
    assert!(!a.should_quit);
    a.handle_key_event(control(KeyCode::Char('q')));
    assert!(a.should_quit);
    assert_eq!(a.input, "q");
    a.handle_key_event(control(KeyCode::Char('c')));
    assert_eq!(a.input, "qc");
}

#[test]
fn clicks_choose_the_pane() {
    let mut a = app();
    let click = MouseEventKind::Down(MouseButton::Left);
    for (row, panel) in [
        (0, ActivePanel::Messages),
        (3, ActivePanel::Books),
        (6, ActivePanel::Users),
        (9, ActivePanel::Input),
    ] {
        a.handle_mouse_event(mouse(click, 2, row), &areas());
        assert_eq!(a.active_panel, panel);
    }
    a.handle_mouse_event(mouse(click, 2, 0), &areas());
    a.handle_mouse_event(mouse(click, 0, 5), &areas());
    assert_eq!(a.active_panel, ActivePanel::Messages);
    a.handle_mouse_event(mouse(MouseEventKind::Down(MouseButton::Right), 2, 9), &areas());
    assert_eq!(a.active_panel, ActivePanel::Messages);
}

#[test]
fn clicks_place_the_cursor() {
    let mut a = app();
    a.input = "abcd".to_string();
    let click = MouseEventKind::Down(MouseButton::Left);
    a.handle_mouse_event(mouse(click, 5, 10), &areas());
    assert_eq!(a.cursor_position, 2);
    a.handle_mouse_event(mouse(click, 2, 10), &areas());
    assert_eq!(a.cursor_position, 0);
    a.handle_mouse_event(mouse(click, 11, 10), &areas());
    assert_eq!(a.cursor_position, 4);
    a.input = "\u{e9}\u{1f4da}x".to_string();
    for (column, cursor) in [(3, 0), (4, 2), (5, 6), (6, 7), (9, 7)] {
        a.handle_mouse_event(mouse(click, column, 10), &areas());
        assert_eq!(a.cursor_position, cursor);
    }
}

#[test]
fn the_wheel_scrolls_the_active_pane() {
    let mut a = app();
    fill_messages(&mut a, 20);
    a.update_max_scroll(5);
    a.book_list = vec!["a".to_string(), "b".to_string()];
    a.user_list = vec!["u".to_string(), "v".to_string(), "w".to_string()];
    let down = mouse(MouseEventKind::ScrollDown, 0, 0);
    let up = mouse(MouseEventKind::ScrollUp, 0, 0);
    a.active_panel = ActivePanel::Messages;
    a.handle_mouse_event(up, &areas());
    a.handle_mouse_event(up, &areas());
    a.handle_mouse_event(down, &areas());
    assert_eq!(a.message_scroll, 1);
    a.active_panel = ActivePanel::Books;
    for _ in 0..5 {
        a.handle_mouse_event(down, &areas());
    }
    assert_eq!(a.book_scroll, 1);
    assert_eq!(a.book_scroll_state.position, 1);
    a.handle_mouse_event(up, &areas());
    assert_eq!(a.book_scroll, 0);
    a.active_panel = ActivePanel::Users;
    a.handle_mouse_event(down, &areas());
    a.handle_mouse_event(down, &areas());
    assert_eq!(a.user_scroll, 2);
    a.handle_mouse_event(up, &areas());
    assert_eq!(a.user_scroll, 1);
    a.active_panel = ActivePanel::Input;
    a.handle_mouse_event(up, &areas());
    a.handle_mouse_event(down, &areas());
    assert_eq!((a.message_scroll, a.book_scroll, a.user_scroll), (1, 0, 1));
}

#[test]
fn only_pressed_keys_count() {
    let mut a = app();
    for kind in [KeyEventKind::Release, KeyEventKind::Repeat] {
        let event = Event::Key(KeyEvent { code: KeyCode::Char('x'), control: false, kind });
        assert_eq!(a.handle_events(Some(event), &areas()), None);
    }
    assert_eq!(a.handle_events(None, &areas()), None);
    assert_eq!(a.handle_events(Some(Event::Other), &areas()), None);
    assert_eq!(a.input, "");
    a.handle_events(Some(Event::Key(key(KeyCode::Char('x')))), &areas());
    assert_eq!(a.input, "x");
    let submitted = a.handle_events(Some(Event::Key(key(KeyCode::Enter))), &areas());
    assert_eq!(submitted, Some("x".to_string()));
    let click = mouse(MouseEventKind::Down(MouseButton::Left), 3, 4);
    assert_eq!(a.handle_events(Some(Event::Mouse(click)), &areas()), None);
    assert_eq!(a.active_panel, ActivePanel::Books);
}

#[test]
fn lists_are_scrolled_within_their_length() {
    let mut a = app();
    a.book_list = (0..10).map(|i| i.to_string()).collect();
    a.user_list = (0..4).map(|i| i.to_string()).collect();
    a.scroll_books_down(7);
    assert_eq!(a.book_scroll, 7);
    a.update_book_scroll(6);
    assert_eq!(a.book_scroll, 4);
    assert_eq!(a.book_scroll_state.content_length, 10);
    a.scroll_books_down(100);
    assert_eq!(a.book_scroll, 9);
    a.scroll_books_up(100);
    assert_eq!(a.book_scroll, 0);
    a.scroll_users_down(2);
    a.update_user_scroll(9);
    assert_eq!(a.user_scroll, 0);
    a.scroll_users_down(9);
    assert_eq!(a.user_scroll, 3);
    a.scroll_users_up(1);
    assert_eq!(a.user_scroll_state.position, 2);
    let mut empty = app();
    empty.scroll_books_down(1);
    assert_eq!(empty.book_scroll, 0);
}

#[test]
fn downloads_of_other_files_stay() {
    let mut a = app();
    a.add_download("f".to_string(), 100);
    a.add_download("g".to_string(), 10);
    a.update_download("g", 5);
    a.complete_download("f");
    a.fail_download("none", "x".to_string());
    a.mark_download_extracting("none");
    assert_eq!(a.downloads.len(), 2);
    assert_eq!(a.downloads[0].progress, 100);
    assert_eq!(a.downloads[0].current_size, 0);
    assert_eq!(a.downloads[1].progress, 50);
}

#[test]
fn cells_can_be_compared_where_the_edges_fit() {
    let wide = Rect { x: 10, y: 0, width: u16::MAX, height: 1 };
    assert!(wide.can_compare(9, 0));
    assert!(!wide.can_compare(10, 0));
    let high = Rect { x: 0, y: 10, width: 5, height: u16::MAX };
    assert!(high.can_compare(0, 9));
    assert!(high.can_compare(5, 10));
    assert!(!high.can_compare(4, 10));
    let mut a = areas();
    assert!(a.can_compare(3, 10));
    a.input_area = wide;
    assert!(a.can_compare(11, 0));
    assert!(!a.can_compare(12, 20));
    a.message_area = wide;
    assert!(!a.can_compare(11, 0));
}
