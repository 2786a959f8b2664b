//! The terminal interface: its state, its events and what its panes show.
pub mod app;
pub mod download;
pub mod log_writer;
pub mod render;

use vstd::prelude::*;

use crate::casing;
use crate::casing::to_uppercase;
use crate::commands;
use crate::commands::{contains_ignore_case, entry_number, local_search_term, process_command};
use crate::number;
use crate::number::to_decimal;
use crate::text;
use crate::text::{glue2, glue3, glue4, glue5, same, split_whitespace, trim_end};
use crate::tui::app::{App, MessageType};
use crate::tui::download::{DownloadProgress, DownloadStatus};

verus! {

/// Milliseconds between two passes of the render loop.
pub const RENDER_TICK_MS: u64 = 16;

/// Seconds that the last line to the server may take when the client ends.
pub const WRITE_DRAIN_TIMEOUT_SECS: u64 = 2;

/// What the tasks of the client report to the interface.
#[derive(Debug, Clone)]
pub enum UiEvent {
    Received(String),
    System(String),
    Log(MessageType, String),
    BookList(Vec<String>),
    UserList(Vec<String>),
    UserJoined(String),
    UserLeft(String),
    DownloadStarted { filename: String, size: u64 },
    DownloadProgress { filename: String, received: u64 },
    DownloadCompleted(String),
    DownloadFailed { filename: String, error: String },
    DownloadExtracting(String),
    DownloadExtracted(String),
    Connected,
    Disconnected,
}

/// Whether `next` is `app` with the downloads `downloads` and nothing else changed.
pub open spec fn downloads_become(app: App, next: App, downloads: Seq<DownloadProgress>) -> bool {
    &&& next.downloads@ == downloads
    &&& next == (App { downloads: next.downloads, ..app })
}

/// Whether `next` is `app` after the event.
pub open spec fn applied(app: App, next: App, event: UiEvent) -> bool {
    match event {
        UiEvent::Received(line) => app.noted(
            next,
            seq![(text::right_trimmed(line@), MessageType::Received)],
        ),
        UiEvent::System(message) => app.noted(next, seq![(message@, MessageType::System)]),
        UiEvent::Log(message_type, message) => app.noted(next, seq![(message@, message_type)]),
        UiEvent::BookList(books) => next == (App { book_list: books, ..app }),
        UiEvent::UserList(users) => next == (App { user_list: users, ..app }),
        UiEvent::UserJoined(user) => {
            &&& next.user_list@ == app::users_with(app.user_list@, user)
            &&& next == (App { user_list: next.user_list, ..app })
        },
        UiEvent::UserLeft(user) => {
            &&& next.user_list@ == app::users_without(app.user_list@, user@)
            &&& next == (App { user_list: next.user_list, ..app })
        },
        UiEvent::DownloadStarted { filename, size } => downloads_become(
            app,
            next,
            app::with_started(
                app.downloads@,
                DownloadProgress {
                    filename,
                    progress: 0,
                    total_size: size,
                    current_size: 0,
                    status: DownloadStatus::Starting,
                },
            ),
        ),
        UiEvent::DownloadProgress { filename, received } => downloads_become(
            app,
            next,
            app::with_changed(
                app.downloads@,
                filename@,
                |d: DownloadProgress| d.updated(received),
            ),
        ),
        UiEvent::DownloadCompleted(filename) => downloads_become(
            app,
            next,
            app::with_changed(app.downloads@, filename@, |d: DownloadProgress| d.completed()),
        ),
        UiEvent::DownloadFailed { filename, error } => {
            &&& next.downloads@ == app::with_changed(
                app.downloads@,
                filename@,
                |d: DownloadProgress| d.failed(error),
            )
            &&& (App { downloads: next.downloads, ..app }).noted(
                next,
                seq![
                    (
                        "Download failed: "@ + filename@ + " - "@ + error@,
                        MessageType::Error,
                    ),
                ],
            )
        },
        UiEvent::DownloadExtracting(filename) => downloads_become(
            app,
            next,
            app::with_changed(app.downloads@, filename@, |d: DownloadProgress| d.extracting()),
        ),
        UiEvent::DownloadExtracted(filename) => app.noted(
            next,
            seq![("Extracted: "@ + filename@, MessageType::System)],
        ),
        UiEvent::Connected => (App { connected: true, ..app }).noted(
            next,
            seq![("Connected"@, MessageType::System)],
        ),
        UiEvent::Disconnected => (App { connected: false, should_quit: true, ..app }).noted(
            next,
            seq![("Disconnected from server"@, MessageType::System)],
        ),
    }
}

/// Brings the state up to date with an event.
pub fn apply_event(app: &mut App, event: UiEvent)
    ensures
        applied(*old(app), *final(app), event),
{
    match event {
        UiEvent::Received(line) => {
            app.add_message_with_type(trim_end(line.as_str()).to_owned(), MessageType::Received)
        },
        UiEvent::System(message) => app.add_message_with_type(message, MessageType::System),
        UiEvent::Log(message_type, message) => app.add_message_with_type(message, message_type),
        UiEvent::BookList(books) => {
            app.book_list = books;
        },
        UiEvent::UserList(users) => app.set_users(users),
        UiEvent::UserJoined(user) => app.add_user(user),
        UiEvent::UserLeft(user) => app.remove_user(user.as_str()),
        UiEvent::DownloadStarted { filename, size } => app.add_download(filename, size),
        UiEvent::DownloadProgress { filename, received } => {
            app.update_download(filename.as_str(), received)
        },
        UiEvent::DownloadCompleted(filename) => app.complete_download(filename.as_str()),
        UiEvent::DownloadFailed { filename, error } => {
            app.fail_download(filename.as_str(), error.clone());
            app.add_message_with_type(
                glue4("Download failed: ", filename.as_str(), " - ", error.as_str()),
                MessageType::Error,
            );
        },
        UiEvent::DownloadExtracting(filename) => app.mark_download_extracting(filename.as_str()),
        UiEvent::DownloadExtracted(filename) => {
            app.add_message_with_type(glue2("Extracted: ", filename.as_str()), MessageType::System)
        },
        UiEvent::Connected => {
            app.connected = true;
            app.add_message_with_type("Connected".to_owned(), MessageType::System);
        },
        UiEvent::Disconnected => {
            app.connected = false;
            app.should_quit = true;
            app.add_message_with_type("Disconnected from server".to_owned(), MessageType::System);
        },
    }
}

/// A line for the server, and whether sending it ends the session.
pub struct Outgoing {
    pub line: String,
    pub is_quit: bool,
}

/// The line of the book list with index `i`, as the messages show it.
pub open spec fn numbered(i: nat, line: Seq<char>) -> Seq<char> {
    number::decimal(i) + ": "@ + line
}

/// The lines of the book list that hold `term`, each with its index, as messages.
pub open spec fn matching(books: Seq<String>, term: Seq<char>) -> Seq<(Seq<char>, MessageType)>
    decreases books.len(),
{
    if books.len() == 0 {
        seq![]
    } else {
        let before = matching(books.drop_last(), term);
        if commands::contains_folded(books.last()@, term) {
            before.push((numbered((books.len() - 1) as nat, books.last()@), MessageType::System))
        } else {
            before
        }
    }
}

/// What the messages say of a search for `term` in the book list.
pub open spec fn search_report(books: Seq<String>, term: Seq<char>) -> Seq<
    (Seq<char>, MessageType),
> {
    if matching(books, term).len() == 0 {
        seq![("No results found for '"@ + term + "'"@, MessageType::System)]
    } else {
        matching(books, term)
    }
}

/// Whether a line to the server ends the session: its first word, in upper case, is `QUIT`.
pub open spec fn ends_session(line: Seq<char>) -> bool {
    text::words(line).len() > 0 && casing::uppercase(text::words(line)[0]) == "QUIT"@
}

/// The answer to a line that the user has submitted: what the messages say, and the line
/// for the server.
pub open spec fn answered(
    app: App,
    next: App,
    input: Seq<char>,
    sent: Option<Outgoing>,
) -> bool {
    let echo = seq![(input, MessageType::Sent)];
    if "/ss "@.is_prefix_of(input) {
        let term = text::trimmed(input.skip(4));
        app.noted(next, echo + search_report(app.book_list@, term)) && sent is None
    } else {
        match commands::requested_entry(input) {
            Some(n) => if n < app.book_list@.len() {
                &&& app.noted(next, echo)
                &&& sent matches Some(out)
                &&& out.line@ == "PRIVMSG "@ + app.current_channel@ + " :"@
                    + app.book_list@[n as int]@ + "\r\n"@
                &&& !out.is_quit
            } else {
                &&& app.noted(
                    next,
                    echo + seq![
                        (
                            "Entry number "@ + number::decimal(n) + " not found"@,
                            MessageType::System,
                        ),
                    ],
                )
                &&& sent is None
            },
            None => {
                &&& app.noted(next, echo)
                &&& sent matches Some(out)
                &&& out.line@ == commands::command_line(input, app.current_channel@)
                &&& out.is_quit == ends_session(out.line@)
            },
        }
    }
}

/// The lines of the book list that hold `term`, each with its index.
pub fn matching_lines(books: &Vec<String>, term: &str) -> (lines: Vec<String>)
    ensures
        lines@.map_values(|s: String| (s@, MessageType::System)) == matching(books@, term@),
{
    let mut lines: Vec<String> = Vec::new();
    let mut i: usize = 0;
    assert(books@.take(0) =~= Seq::empty());
    assert(lines@.map_values(|s: String| (s@, MessageType::System)) =~= matching(
        books@.take(0),
        term@,
    ));
    while i < books.len()
        invariant
            i <= books@.len(),
            lines@.map_values(|s: String| (s@, MessageType::System)) == matching(
                books@.take(i as int),
                term@,
            ),
        decreases books@.len() - i,
    {
        let ghost part = books@.take(i + 1);
        let ghost known = lines@;
        assert(part.drop_last() =~= books@.take(i as int));
        assert(part.last() == books@[i as int]);
        if contains_ignore_case(books[i].as_str(), term) {
            let line = glue3(to_decimal(i as u64).as_str(), ": ", books[i].as_str());
            lines.push(line);
            assert(lines@.map_values(|s: String| (s@, MessageType::System)) =~= known.map_values(
                |s: String| (s@, MessageType::System),
            ).push((line@, MessageType::System)));
        }
        i = i + 1;
    }
    assert(books@.take(i as int) =~= books@);
    lines
}

/// Shows a list of lines as messages of the system.
fn note_all(app: &mut App, lines: Vec<String>)
    ensures
        old(app).noted(
            *final(app),
            lines@.map_values(|s: String| (s@, MessageType::System)),
        ),
{
    let ghost all = lines@.map_values(|s: String| (s@, MessageType::System));
    let mut i: usize = 0;
    let ghost none = Seq::<app::Message>::empty();
    assert(app::entries(none) =~= all.take(0));
    assert(app.messages@ == app::grown(old(app).messages@, none));
    assert(old(app).noted(*app, all.take(0)));
    while i < lines.len()
        invariant
            all == lines@.map_values(|s: String| (s@, MessageType::System)),
            i <= lines@.len(),
            old(app).noted(*app, all.take(i as int)),
        decreases lines@.len() - i,
    {
        let ghost before = *app;
        let line = lines[i].clone();
        app.add_message_with_type(line, MessageType::System);
        proof {
            let one = seq![(line@, MessageType::System)];
            assert(all.take(i + 1) =~= all.take(i as int) + one);
            app::law_noted_in_sequence(*old(app), before, *app, all.take(i as int), one);
        }
        i = i + 1;
    }
    assert(all.take(i as int) =~= all);
}

/// Whether `upper`, the upper-case form of a word, is `QUIT`.
pub fn is_quit_word(upper: &str) -> (yes: bool)
    ensures
        yes == (upper@ == "QUIT"@),
{
    same(upper, "QUIT")
}

/// Whether a line to the server ends the session.
pub fn line_ends_session(line: &str) -> (yes: bool)
    ensures
        yes == ends_session(line@),
        text::words(line@).len() > 0 && vstd::utf8::is_ascii_chars(text::words(line@)[0]) ==> yes
            == (text::words(line@)[0].map_values(|c: char| casing::ascii_upper(c)) == "QUIT"@),
{
    let words = split_whitespace(line);
    assert(text::views(words@).len() == words@.len());
    if words.len() == 0 {
        return false;
    }
    assert(text::views(words@)[0] == words@[0]@);
    let upper = to_uppercase(words[0].as_str());
    is_quit_word(upper.as_str())
}

/// Echoes a line that the user has submitted and answers it: a search in the book list and
/// a request for an entry that is not there with messages, anything else with a line for
/// the server.
pub fn handle_input(app: &mut App, input: String) -> (sent: Option<Outgoing>)
    ensures
        answered(*old(app), *final(app), input@, sent),
        commands::is_quit(input@) ==> (sent matches Some(out) && out.is_quit),
        sent matches Some(out) ==> {
            let words = text::words(out.line@);
            words.len() > 0 && vstd::utf8::is_ascii_chars(words[0]) ==> out.is_quit
                == (words[0].map_values(|c: char| casing::ascii_upper(c)) == "QUIT"@)
        },
{
    let ghost echo = seq![(input@, MessageType::Sent)];
    app.add_message_with_type(input.clone(), MessageType::Sent);
    let ghost echoed = *app;
    proof {
        if commands::is_quit(input@) {
            lemma_quit_is_no_other_request(input@);
        }
    }
    if let Some(term) = local_search_term(input.as_str()) {
        let lines = matching_lines(&app.book_list, term);
        let ghost report = search_report(app.book_list@, term@);
        if lines.len() == 0 {
            app.add_message_with_type(
                glue3("No results found for '", term, "'"),
                MessageType::System,
            );
        } else {
            note_all(app, lines);
        }
        proof {
            app::law_noted_in_sequence(*old(app), echoed, *app, echo, report);
        }
        None
    } else if let Some(n) = entry_number(input.as_str()) {
        proof {
            lemma_requests_are_no_farewells(app.current_channel@);
        }
        if n < app.book_list.len() {
            Some(
                Outgoing {
                    line: glue5(
                        "PRIVMSG ",
                        app.current_channel.as_str(),
                        " :",
                        app.book_list[n].as_str(),
                        "\r\n",
                    ),
                    is_quit: false,
                },
            )
        } else {
            app.add_message_with_type(
                glue3("Entry number ", to_decimal(n as u64).as_str(), " not found"),
                MessageType::System,
            );
            proof {
                let second = seq![
                    (
                        "Entry number "@ + number::decimal(n as nat) + " not found"@,
                        MessageType::System,
                    ),
                ];
                app::law_noted_in_sequence(*old(app), echoed, *app, echo, second);
            }
            None
        }
    } else {
        match process_command(input.as_str(), app.current_channel.as_str()) {
            Some(line) => {
                let is_quit = line_ends_session(line.as_str());
                proof {
                    if commands::is_quit(input@) {
                        commands::law_quit_commands_send_quit(input@, app.current_channel@);
                        lemma_quit_in_upper_case();
                    }
                }
                Some(Outgoing { line, is_quit })
            },
            None => None,
        }
    }
}

proof fn lemma_requests_are_no_farewells(channel: Seq<char>)
    ensures
        forall|book: Seq<char>|
            ({
                let words = text::words(
                    #[trigger] ("PRIVMSG "@ + channel + " :"@ + book + "\r\n"@),
                );
                words.len() > 0 && words[0].map_values(|c: char| casing::ascii_upper(c))
                    != "QUIT"@
            }),
{
    assert forall|book: Seq<char>|
        ({
            let words = text::words(#[trigger] ("PRIVMSG "@ + channel + " :"@ + book + "\r\n"@));
            words.len() > 0 && words[0].map_values(|c: char| casing::ascii_upper(c)) != "QUIT"@
        }) by {
        lemma_request_is_no_farewell(
            channel + " :"@ + book + "\r\n"@,
            "PRIVMSG "@ + channel + " :"@ + book + "\r\n"@,
        );
    }
}

proof fn lemma_request_is_no_farewell(rest: Seq<char>, line: Seq<char>)
    requires
        line =~= "PRIVMSG "@ + rest,
    ensures
        text::words(line).len() > 0,
        text::words(line)[0].map_values(|c: char| casing::ascii_upper(c)) != "QUIT"@,
{
    reveal_strlit("PRIVMSG ");
    reveal_strlit("QUIT");
    let word = seq!['P', 'R', 'I', 'V', 'M', 'S', 'G'];
    text::lemma_first_word(word, seq![' '] + rest);
    assert(line =~= word + (seq![' '] + rest));
    assert(word.map_values(|c: char| casing::ascii_upper(c)).len() == 7);
    assert("QUIT"@.len() == 4);
}

proof fn lemma_quit_in_upper_case()
    ensures
        vstd::utf8::is_ascii_chars("QUIT"@),
        "QUIT"@.map_values(|c: char| casing::ascii_upper(c)) == "QUIT"@,
{
    reveal_strlit("QUIT");
    assert("QUIT"@.map_values(|c: char| casing::ascii_upper(c)) =~= "QUIT"@);
}

proof fn lemma_quit_is_no_other_request(input: Seq<char>)
    requires
        commands::is_quit(input),
    ensures
        !"/ss "@.is_prefix_of(input),
        commands::requested_entry(input) is None,
{
    reveal_strlit("/ss ");
    reveal_strlit("/quit");
    reveal_strlit("/q");
    reveal_strlit("/q ");
    assert(input.len() > 1 && input[1] == 'q') by {
        if "/quit"@.is_prefix_of(input) {
            assert(input[1] == "/quit"@[1]);
        } else if "/q "@.is_prefix_of(input) {
            assert(input[1] == "/q "@[1]);
        }
    }
    if "/ss "@.is_prefix_of(input) {
        assert(input[1] == "/ss "@[1]);
    }
    assert(input.drop_first()[0] == 'q');
    crate::pattern::lemma_is_decimal('q');
}

/// Takes note that a line has gone to the server: one that ends the session ends the
/// interface.
pub fn confirm_sent(app: &mut App, is_quit: bool)
    ensures
        *final(app) == if is_quit {
            App { should_quit: true, quit_sent: true, ..*old(app) }
        } else {
            *old(app)
        },
{
    if is_quit {
        app.should_quit = true;
        app.quit_sent = true;
    }
}

/// The line that tells the server of the end of the session, where none has been sent.
pub fn closing_line(app: &App) -> (line: Option<String>)
    ensures
        text::opt_view(line) == if app.quit_sent {
            None
        } else {
            Some("QUIT\r\n"@)
        },
{
    if app.quit_sent {
        None
    } else {
        Some("QUIT\r\n".to_owned())
    }
}

/// The notice that `pending` downloads are still under way, where there are any.
pub fn waiting_notice(pending: usize) -> (notice: Option<String>)
    ensures
        text::opt_view(notice) == if pending > 0 {
            Some(
                "Waiting for "@ + number::decimal(pending as nat)
                    + " in-flight download(s) to finish..."@,
            )
        } else {
            None
        },
{
    if pending > 0 {
        Some(
            glue3(
                "Waiting for ",
                to_decimal(pending as u64).as_str(),
                " in-flight download(s) to finish...",
            ),
        )
    } else {
        None
    }
}

/// Whether `line` reports one of the books that hold the term, with its index.
pub open spec fn reports_a_match(
    books: Seq<String>,
    term: Seq<char>,
    line: (Seq<char>, MessageType),
) -> bool {
    exists|i: int|
        0 <= i < books.len() && commands::contains_folded((#[trigger] books[i])@, term) && line == (
            numbered(i as nat, books[i]@),
            MessageType::System,
        )
}

/// A search in the book list reports every line that holds the term, with its index, and
/// no other line.
pub proof fn law_local_search_finds_all(books: Seq<String>, term: Seq<char>)
    ensures
        forall|i: int|
            0 <= i < books.len() && commands::contains_folded((#[trigger] books[i])@, term)
                ==> matching(books, term).contains(
                (numbered(i as nat, books[i]@), MessageType::System),
            ),
        forall|k: int|
            0 <= k < matching(books, term).len() ==> reports_a_match(
                books,
                term,
                #[trigger] matching(books, term)[k],
            ),
    decreases books.len(),
{
    if books.len() > 0 {
        let rest = books.drop_last();
        let last = books.len() - 1;
        let before = matching(rest, term);
        let all = matching(books, term);
        law_local_search_finds_all(rest, term);
        assert(books.last() == books[last]);
        assert forall|i: int|
            0 <= i < books.len() && commands::contains_folded(
                (#[trigger] books[i])@,
                term,
            ) implies all.contains((numbered(i as nat, books[i]@), MessageType::System)) by {
            let line = (numbered(i as nat, books[i]@), MessageType::System);
            if i < last {
                assert(rest[i] == books[i]);
                let k = choose|k: int| 0 <= k < before.len() && before[k] == line;
                assert(all[k] == line);
            } else {
                assert(all[all.len() - 1] == line);
            }
        }
        assert forall|k: int| 0 <= k < all.len() implies reports_a_match(
            books,
            term,
            #[trigger] all[k],
        ) by {
            if k < before.len() {
                assert(all[k] == before[k]);
                assert(reports_a_match(rest, term, before[k]));
                let i = choose|i: int|
                    0 <= i < rest.len() && commands::contains_folded((#[trigger] rest[i])@, term)
                        && before[k] == (numbered(i as nat, rest[i]@), MessageType::System);
                assert(books[i] == rest[i]);
            } else {
                assert(all[k] == (numbered(last as nat, books[last]@), MessageType::System));
            }
        }
    }
}

/// No event lets the history grow beyond its limit.
pub proof fn law_events_keep_history_limit(app: App, next: App, event: UiEvent)
    requires
        app.messages@.len() <= app::MAX_MESSAGE_HISTORY,
        applied(app, next, event),
    ensures
        next.messages@.len() <= app::MAX_MESSAGE_HISTORY,
{
    assert forall|start: App, lines: Seq<(Seq<char>, MessageType)>|
        start.messages@.len() <= app::MAX_MESSAGE_HISTORY && #[trigger] start.noted(
            next,
            lines,
        ) implies next.messages@.len() <= app::MAX_MESSAGE_HISTORY by {
        app::law_history_keeps_newest(start, next, lines);
    }
}

/// Whatever happens, each file keeps one gauge and no user is listed twice, as long as the
/// server does not list one twice itself.
pub proof fn law_events_keep_lists_distinct(app: App, next: App, event: UiEvent)
    requires
        app::distinct_files(app.downloads@),
        text::views(app.user_list@).no_duplicates(),
        event matches UiEvent::UserList(users) ==> text::views(users@).no_duplicates(),
        applied(app, next, event),
    ensures
        app::distinct_files(next.downloads@),
        text::views(next.user_list@).no_duplicates(),
{
    match event {
        UiEvent::UserJoined(user) => app::law_users_are_distinct(app.user_list@, user),
        UiEvent::UserLeft(user) => app::law_users_are_distinct(app.user_list@, user),
        UiEvent::DownloadStarted { filename, size } => {
            let fresh = DownloadProgress {
                filename,
                progress: 0,
                total_size: size,
                current_size: 0,
                status: DownloadStatus::Starting,
            };
            app::law_one_gauge_per_file(app.downloads@, fresh);
        },
        UiEvent::DownloadProgress { filename, received } => app::law_other_downloads_stay(
            app.downloads@,
            filename@,
            |d: DownloadProgress| d.updated(received),
        ),
        UiEvent::DownloadCompleted(filename) => app::law_other_downloads_stay(
            app.downloads@,
            filename@,
            |d: DownloadProgress| d.completed(),
        ),
        UiEvent::DownloadFailed { filename, error } => app::law_other_downloads_stay(
            app.downloads@,
            filename@,
            |d: DownloadProgress| d.failed(error),
        ),
        UiEvent::DownloadExtracting(filename) => app::law_other_downloads_stay(
            app.downloads@,
            filename@,
            |d: DownloadProgress| d.extracting(),
        ),
        _ => {},
    }
}

/// The number of a book in the list requests that book from the channel: the line that is
/// sent names the very book that the pane shows behind the number. A number behind the last
/// book is answered with a message, and nothing is sent.
pub proof fn law_number_requests_that_book(
    app: App,
    next: App,
    n: nat,
    sent: Option<Outgoing>,
)
    requires
        n <= usize::MAX,
        answered(app, next, seq!['/'] + number::decimal(n), sent),
    ensures
        n < app.book_list@.len() ==> {
            &&& sent matches Some(out)
            &&& out.line@ == "PRIVMSG "@ + app.current_channel@ + " :"@ + app.book_list@[n as int]@
                + "\r\n"@
            &&& !out.is_quit
            &&& app.noted(next, seq![(seq!['/'] + number::decimal(n), MessageType::Sent)])
        },
        n >= app.book_list@.len() ==> {
            &&& sent is None
            &&& app.noted(
                next,
                seq![
                    (seq!['/'] + number::decimal(n), MessageType::Sent),
                    ("Entry number "@ + number::decimal(n) + " not found"@, MessageType::System),
                ],
            )
        },
{
    let input = seq!['/'] + number::decimal(n);
    commands::law_entry_requested_by_number(n);
    reveal_strlit("/ss ");
    number::lemma_decimal(n);
    assert(input[1] == number::decimal(n)[0]);
    assert(number::is_digit(number::decimal(n)[0]));
    if "/ss "@.is_prefix_of(input) {
        assert(input[1] == "/ss "@[1]);
    }
    let echo = seq![(input, MessageType::Sent)];
    let note = ("Entry number "@ + number::decimal(n) + " not found"@, MessageType::System);
    assert(echo + seq![note] =~= seq![(input, MessageType::Sent), note]);
}

/// The numbers of the books that hold the term, in the order of the list: all of them, and
/// no other. A search in the list reports each with its number, in this order.
pub proof fn law_matches_are_reported_in_order(books: Seq<String>, term: Seq<char>) -> (found: Seq<
    int,
>)
    ensures
        forall|j: int| 0 <= j < found.len() ==> 0 <= (#[trigger] found[j]) < books.len(),
        forall|i: int, j: int|
            0 <= i < j < found.len() ==> #[trigger] found[i] < #[trigger] found[j],
        forall|i: int|
            0 <= i < books.len() ==> (found.contains(i) <==> commands::contains_folded(
                (#[trigger] books[i])@,
                term,
            )),
        matching(books, term) == Seq::new(
            found.len(),
            |j: int|
                (
                    number::decimal(found[j] as nat) + ": "@ + books[found[j]]@,
                    MessageType::System,
                ),
        ),
    decreases books.len(),
{
    if books.len() == 0 {
        let found = Seq::<int>::empty();
        assert(matching(books, term) =~= Seq::new(
            found.len(),
            |j: int|
                (
                    number::decimal(found[j] as nat) + ": "@ + books[found[j]]@,
                    MessageType::System,
                ),
        ));
        found
    } else {
        let rest = books.drop_last();
        let last = books.len() - 1;
        let before = law_matches_are_reported_in_order(rest, term);
        let found = if commands::contains_folded(books.last()@, term) {
            before.push(last)
        } else {
            before
        };
        assert forall|i: int| 0 <= i < books.len() implies (found.contains(i)
            <==> commands::contains_folded((#[trigger] books[i])@, term)) by {
            if i < last {
                assert(rest[i] == books[i]);
                if before.contains(i) {
                    let j = choose|j: int| 0 <= j < before.len() && before[j] == i;
                    assert(found[j] == i);
                }
                if found.contains(i) {
                    let j = choose|j: int| 0 <= j < found.len() && found[j] == i;
                    assert(before[j] == i);
                }
            } else {
                if commands::contains_folded(books.last()@, term) {
                    assert(found[before.len() as int] == last);
                } else if found.contains(last) {
                    let j = choose|j: int| 0 <= j < found.len() && found[j] == last;
                    assert(before[j] < rest.len());
                }
            }
        }
        assert forall|j: int| 0 <= j < before.len() implies rest[before[j]]
            == books[#[trigger] before[j]] by {
            assert(0 <= before[j] < rest.len());
        }
        assert(matching(books, term) =~= Seq::new(
            found.len(),
            |j: int|
                (
                    number::decimal(found[j] as nat) + ": "@ + books[found[j]]@,
                    MessageType::System,
                ),
        ));
        found
    }
}

/// After a local search for a term the messages hold, behind the command itself, a line for
/// every book that holds the term without regard to case, with its number, in the order of
/// the list, and no other line; where no book holds it they say so. Nothing is sent.
pub proof fn law_local_search_reports_every_match(
    app: App,
    next: App,
    typed: Seq<char>,
    sent: Option<Outgoing>,
) -> (found: Seq<int>)
    requires
        answered(app, next, "/ss "@ + typed, sent),
    ensures
        sent is None,
        forall|j: int| 0 <= j < found.len() ==> 0 <= (#[trigger] found[j]) < app.book_list@.len(),
        forall|i: int, j: int|
            0 <= i < j < found.len() ==> #[trigger] found[i] < #[trigger] found[j],
        forall|i: int|
            0 <= i < app.book_list@.len() ==> (found.contains(i) <==> commands::contains_folded(
                (#[trigger] app.book_list@[i])@,
                text::trimmed(typed),
            )),
        found.len() > 0 ==> app.noted(
            next,
            seq![("/ss "@ + typed, MessageType::Sent)] + Seq::new(
                found.len(),
                |j: int|
                    (
                        number::decimal(found[j] as nat) + ": "@ + app.book_list@[found[j]]@,
                        MessageType::System,
                    ),
            ),
        ),
        found.len() == 0 ==> app.noted(
            next,
            seq![
                ("/ss "@ + typed, MessageType::Sent),
                (
                    "No results found for '"@ + text::trimmed(typed) + "'"@,
                    MessageType::System,
                ),
            ],
        ),
{
    let input = "/ss "@ + typed;
    reveal_strlit("/ss ");
    assert(input.subrange(0, 4) =~= "/ss "@);
    assert("/ss "@.is_prefix_of(input));
    assert(input.skip(4) =~= typed);
    let term = text::trimmed(typed);
    let found = law_matches_are_reported_in_order(app.book_list@, term);
    let none = ("No results found for '"@ + term + "'"@, MessageType::System);
    assert(seq![(input, MessageType::Sent)] + seq![none] =~= seq![
        (input, MessageType::Sent),
        none,
    ]);
    found
}

/// Any other line that is submitted goes to the server as the command that it is, and the
/// messages show it; nothing else is reported.
pub proof fn law_other_input_is_a_command(
    app: App,
    next: App,
    input: Seq<char>,
    sent: Option<Outgoing>,
)
    requires
        answered(app, next, input, sent),
        !(input.len() >= 4 && input[0] == '/' && input[1] == 's' && input[2] == 's' && input[3]
            == ' '),
        input.len() < 2 || input[0] != '/' || (input[1] < '\u{660}' && !('0' <= input[1] <= '9')),
    ensures
        sent matches Some(out) && out.line@ == commands::command_line(input, app.current_channel@),
        app.noted(next, seq![(input, MessageType::Sent)]),
{
    reveal_strlit("/ss ");
    if "/ss "@.is_prefix_of(input) {
        assert(input[0] == "/ss "@[0] && input[1] == "/ss "@[1] && input[2] == "/ss "@[2]
            && input[3] == "/ss "@[3]);
    }
    if crate::pattern::is_entry(input) {
        assert(crate::pattern::is_decimal(input.drop_first()[0]));
        crate::pattern::lemma_is_decimal(input[1]);
    }
}

/// What is reported of the connection and of the log becomes a message, whole and of its
/// type. The lists are replaced by those that are reported; a user who comes or leaves is
/// added or taken out.
pub proof fn law_events_are_shown(app: App, next: App, event: UiEvent)
    requires
        applied(app, next, event),
    ensures
        match event {
            UiEvent::Received(line) => app.noted(
                next,
                seq![(text::right_trimmed(line@), MessageType::Received)],
            ),
            UiEvent::System(message) => app.noted(next, seq![(message@, MessageType::System)]),
            UiEvent::Log(kind, message) => app.noted(next, seq![(message@, kind)]),
            UiEvent::BookList(books) => {
                &&& next.book_list == books
                &&& next == (App { book_list: next.book_list, ..app })
            },
            UiEvent::UserList(users) => {
                &&& next.user_list == users
                &&& next == (App { user_list: next.user_list, ..app })
            },
            UiEvent::UserJoined(user) => {
                &&& text::views(next.user_list@) == if text::views(app.user_list@).contains(user@) {
                    text::views(app.user_list@)
                } else {
                    text::views(app.user_list@).push(user@)
                }
                &&& next == (App { user_list: next.user_list, ..app })
            },
            UiEvent::UserLeft(user) => {
                &&& next.user_list@ == app::users_without(app.user_list@, user@)
                &&& next == (App { user_list: next.user_list, ..app })
            },
            UiEvent::Connected => {
                &&& next.connected
                &&& (App { connected: true, ..app }).noted(
                    next,
                    seq![("Connected"@, MessageType::System)],
                )
                &&& next.messages@.len() > 0
                &&& next.messages@.last().content@ == "Connected"@
                &&& next.messages@.last().message_type == MessageType::System
            },
            UiEvent::Disconnected => {
                &&& !next.connected
                &&& next.should_quit
                &&& (App { connected: false, should_quit: true, ..app }).noted(
                    next,
                    seq![("Disconnected from server"@, MessageType::System)],
                )
                &&& next.messages@.len() > 0
                &&& next.messages@.last().content@ == "Disconnected from server"@
                &&& next.messages@.last().message_type == MessageType::System
            },
            UiEvent::DownloadExtracted(filename) => app.noted(
                next,
                seq![("Extracted: "@ + filename@, MessageType::System)],
            ),
            UiEvent::DownloadFailed { filename, error } => {
                &&& (App { downloads: next.downloads, ..app }).noted(
                    next,
                    seq![
                        (
                            "Download failed: "@ + filename@ + " - "@ + error@,
                            MessageType::Error,
                        ),
                    ],
                )
                &&& next.messages@.len() > 0
                &&& next.messages@.last().content@ == "Download failed: "@ + filename@ + " - "@
                    + error@
                &&& next.messages@.last().message_type == MessageType::Error
            },
            _ => next == (App { downloads: next.downloads, ..app }),
        },
{
    match event {
        UiEvent::UserJoined(user) => {
            assert(text::views(app.user_list@.push(user)) =~= text::views(app.user_list@).push(
                user@,
            ));
        },
        UiEvent::Connected => {
            lemma_last(
                App { connected: true, ..app },
                next,
                ("Connected"@, MessageType::System),
            );
        },
        UiEvent::Disconnected => {
            lemma_last(
                App { connected: false, should_quit: true, ..app },
                next,
                ("Disconnected from server"@, MessageType::System),
            );
        },
        UiEvent::DownloadFailed { filename, error } => {
            lemma_last(
                App { downloads: next.downloads, ..app },
                next,
                (
                    "Download failed: "@ + filename@ + " - "@ + error@,
                    MessageType::Error,
                ),
            );
        },
        _ => {},
    }
}

proof fn lemma_last(app: App, next: App, line: (Seq<char>, MessageType))
    requires
        app.noted(next, seq![line]),
    ensures
        next.messages@.len() > 0,
        next.messages@.last().content@ == line.0,
        next.messages@.last().message_type == line.1,
{
    let fresh = choose|fresh: Seq<app::Message>|
        app::entries(fresh) == seq![line] && next.messages@ == #[trigger] app::grown(
            app.messages@,
            fresh,
        );
    assert(app::entries(fresh).len() == fresh.len());
    assert(app::entries(fresh)[0] == fresh[0].entry());
    let whole = app::grown(app.messages@, fresh.drop_last()).push(fresh.last());
    assert(whole.last() == fresh[0]);
}

/// What is reported of a download changes the gauge of its file alone: it begins at nothing,
/// shows how many bytes have come, is full when the download is complete, and says when the
/// download failed or its archive is extracted.
pub proof fn law_events_change_the_gauge_of_the_file(
    app: App,
    next: App,
    event: UiEvent,
    before: Seq<DownloadProgress>,
    d: DownloadProgress,
    behind: Seq<DownloadProgress>,
)
    requires
        applied(app, next, event),
        app.downloads@ == before + seq![d] + behind,
        forall|i: int| 0 <= i < before.len() ==> (#[trigger] before[i]).filename@ != d.filename@,
    ensures
        match event {
            UiEvent::DownloadStarted { filename, size } => filename@ == d.filename@ ==> {
                &&& next.downloads@ == before + seq![next.downloads@[before.len() as int]] + behind
                &&& next.downloads@[before.len() as int] == (DownloadProgress {
                    filename,
                    progress: 0,
                    total_size: size,
                    current_size: 0,
                    status: DownloadStatus::Starting,
                })
            },
            UiEvent::DownloadProgress { filename, received } => filename@ == d.filename@ ==> {
                let now = next.downloads@[before.len() as int];
                &&& next.downloads@ == before + seq![now] + behind
                &&& now == (DownloadProgress {
                    progress: now.progress,
                    current_size: received,
                    status: DownloadStatus::InProgress,
                    ..d
                })
                &&& now.progress == d.updated(received).progress
            },
            UiEvent::DownloadCompleted(filename) => filename@ == d.filename@ ==> next.downloads@
                == before + seq![
                DownloadProgress { progress: 100, status: DownloadStatus::Completed, ..d },
            ] + behind,
            UiEvent::DownloadFailed { filename, error } => filename@ == d.filename@
                ==> next.downloads@ == before + seq![
                DownloadProgress { status: DownloadStatus::Failed(error), ..d },
            ] + behind,
            UiEvent::DownloadExtracting(filename) => filename@ == d.filename@ ==> next.downloads@
                == before + seq![
                DownloadProgress { status: DownloadStatus::Extracting, ..d },
            ] + behind,
            _ => next.downloads@ == app.downloads@,
        },
{
    match event {
        UiEvent::DownloadStarted { filename, size } => {
            let fresh = DownloadProgress {
                filename,
                progress: 0,
                total_size: size,
                current_size: 0,
                status: DownloadStatus::Starting,
            };
            if filename@ == d.filename@ {
                app::law_downloads_are_found_by_file(
                    before,
                    d,
                    behind,
                    fresh,
                    |x: DownloadProgress| x,
                );
                assert((before + seq![fresh] + behind)[before.len() as int] == fresh);
            }
        },
        UiEvent::DownloadProgress { filename, received } => {
            if filename@ == d.filename@ {
                let change = |x: DownloadProgress| x.updated(received);
                app::law_downloads_are_found_by_file(before, d, behind, d, change);
                assert((before + seq![change(d)] + behind)[before.len() as int] == change(d));
            }
        },
        UiEvent::DownloadCompleted(filename) => {
            if filename@ == d.filename@ {
                let change = |x: DownloadProgress| x.completed();
                app::law_downloads_are_found_by_file(before, d, behind, d, change);
            }
        },
        UiEvent::DownloadFailed { filename, error } => {
            if filename@ == d.filename@ {
                let change = |x: DownloadProgress| x.failed(error);
                app::law_downloads_are_found_by_file(before, d, behind, d, change);
            }
        },
        UiEvent::DownloadExtracting(filename) => {
            if filename@ == d.filename@ {
                let change = |x: DownloadProgress| x.extracting();
                app::law_downloads_are_found_by_file(before, d, behind, d, change);
            }
        },
        _ => {},
    }
}

/// What is reported of a download of a file that has no gauge begins one behind the others
/// if it says that the download starts, and changes no gauge otherwise.
pub proof fn law_events_of_unknown_files(app: App, next: App, event: UiEvent, filename: String)
    requires
        applied(app, next, event),
        forall|i: int|
            0 <= i < app.downloads@.len() ==> (#[trigger] app.downloads@[i]).filename@ != filename@,
        match event {
            UiEvent::DownloadStarted { filename: f, size: _ } => f == filename,
            UiEvent::DownloadProgress { filename: f, received: _ } => f == filename,
            UiEvent::DownloadCompleted(f) => f == filename,
            UiEvent::DownloadFailed { filename: f, error: _ } => f == filename,
            UiEvent::DownloadExtracting(f) => f == filename,
            _ => false,
        },
    ensures
        match event {
            UiEvent::DownloadStarted { filename: f, size } => next.downloads@
                == app.downloads@.push(
                DownloadProgress {
                    filename: f,
                    progress: 0,
                    total_size: size,
                    current_size: 0,
                    status: DownloadStatus::Starting,
                },
            ),
            _ => next.downloads@ == app.downloads@,
        },
{
    let fresh = DownloadProgress {
        filename,
        progress: 0,
        total_size: match event {
            UiEvent::DownloadStarted { filename: _, size } => size,
            _ => 0,
        },
        current_size: 0,
        status: DownloadStatus::Starting,
    };
    let change = match event {
        UiEvent::DownloadProgress { filename: _, received } => |x: DownloadProgress|
            x.updated(received),
        UiEvent::DownloadCompleted(_) => |x: DownloadProgress| x.completed(),
        UiEvent::DownloadFailed { filename: _, error } => |x: DownloadProgress| x.failed(error),
        _ => |x: DownloadProgress| x.extracting(),
    };
    app::law_downloads_are_found_by_file(app.downloads@, fresh, seq![], fresh, change);
}

/// Digits behind a slash request the book with the number that they stand for, leading zeros
/// or not; digits for a number beyond every list are sent as the command that they are.
pub proof fn law_digits_request_that_book(
    app: App,
    next: App,
    digits: Seq<char>,
    sent: Option<Outgoing>,
)
    requires
        digits.len() > 0,
        forall|i: int| 0 <= i < digits.len() ==> '0' <= #[trigger] digits[i] <= '9',
        answered(app, next, seq!['/'] + digits, sent),
    ensures
        ({
            let n = number::digits_value(digits);
            &&& n <= usize::MAX && n < app.book_list@.len() ==> {
                let book = app.book_list@[n as int]@;
                &&& sent matches Some(out)
                &&& out.line@ == "PRIVMSG "@ + app.current_channel@ + " :"@ + book + "\r\n"@
                &&& !out.is_quit
            }
            &&& n <= usize::MAX && n >= app.book_list@.len() ==> sent is None
            &&& n > usize::MAX ==> {
                &&& sent matches Some(out)
                &&& out.line@ == commands::command_line(seq!['/'] + digits, app.current_channel@)
            }
        }),
{
    let input = seq!['/'] + digits;
    reveal_strlit("/ss ");
    assert(input[1] == digits[0]);
    if "/ss "@.is_prefix_of(input) {
        assert(input[1] == "/ss "@[1]);
    }
    assert(input.drop_first() =~= digits);
    assert forall|i: int| 0 <= i < digits.len() implies crate::pattern::is_decimal(
        #[trigger] digits[i],
    ) by {
        crate::pattern::lemma_is_decimal(digits[i]);
    }
    assert(crate::pattern::is_entry(input));
    number::law_parsed_digits(digits, usize::MAX as nat);
}

}
