//! The state of the terminal interface: messages, panes, scrolling and input.
use vstd::prelude::*;

use crate::clock::TimeOfDay;
use crate::config::Config;
use crate::text;
use crate::text::{byte_len, chars_of, count_within, glue5, same, string_of};
use crate::tui::download::DownloadProgress;

verus! {

/// Messages kept before the oldest are dropped.
pub const MAX_MESSAGE_HISTORY: usize = 1000;

/// Lines moved per PageUp and PageDown.
pub const PAGE_SCROLL_AMOUNT: usize = 5;

#[derive(Clone, Copy, Debug, PartialEq, Eq, Structural)]
pub enum MessageType {
    Sent,
    Received,
    System,
    Info,
    Debug,
    Error,
}

impl MessageType {
    /// The word that stands before a message of this type.
    pub open spec fn prefix_text(self) -> Seq<char> {
        match self {
            MessageType::Sent => "TX"@,
            MessageType::Received => "RX"@,
            MessageType::System => "SYS"@,
            MessageType::Info => "INFO"@,
            MessageType::Debug => "DEBUG"@,
            MessageType::Error => "ERROR"@,
        }
    }

    /// The word that stands before a message of this type.
    pub fn prefix(self) -> (s: &'static str)
        ensures
            s@ == self.prefix_text(),
    {
        match self {
            MessageType::Sent => "TX",
            MessageType::Received => "RX",
            MessageType::System => "SYS",
            MessageType::Info => "INFO",
            MessageType::Debug => "DEBUG",
            MessageType::Error => "ERROR",
        }
    }
}

/// A line of the message pane.
#[derive(Clone, Debug)]
pub struct Message {
    pub content: String,
    pub timestamp: TimeOfDay,
    pub message_type: MessageType,
}

impl Message {
    /// A message with the time of day at which it came.
    pub fn new(content: String, message_type: MessageType) -> (m: Self)
        ensures
            m == (Message { content, timestamp: m.timestamp, message_type }),
            m.timestamp.hours() < 24,
            m.timestamp.minutes() < 60,
            m.timestamp.seconds() < 60,
    {
        Message { content, timestamp: TimeOfDay::now(), message_type }
    }

    /// The message as the pane shows it.
    pub open spec fn text(self) -> Seq<char> {
        "["@ + self.timestamp.text() + "] "@ + self.message_type.prefix_text() + ": "@
            + self.content@
    }

    /// The message as the pane shows it.
    pub fn formatted(&self) -> (s: String)
        ensures
            s@ == self.text(),
    {
        let mut s = glue5(
            "[",
            self.timestamp.shown().as_str(),
            "] ",
            self.message_type.prefix(),
            ": ",
        );
        s.append(self.content.as_str());
        s
    }

    /// What the message says and how.
    pub open spec fn entry(self) -> (Seq<char>, MessageType) {
        (self.content@, self.message_type)
    }
}

#[derive(Clone, Copy, Debug, PartialEq, Eq, Structural)]
pub enum ActivePanel {
    Messages,
    Books,
    Users,
    Input,
}

/// A rectangle of terminal cells.
#[derive(Clone, Copy, Debug, Default, PartialEq, Eq, Structural)]
pub struct Rect {
    pub x: u16,
    pub y: u16,
    pub width: u16,
    pub height: u16,
}

impl Rect {
    /// Whether the cell in column `x` and row `y` lies in the rectangle.
    pub open spec fn has(self, x: u16, y: u16) -> bool {
        self.x <= x < self.x + self.width && self.y <= y < self.y + self.height
    }

    /// Whether the edges that the cell is compared with are columns and rows: an edge is
    /// looked at only where the comparisons before it succeed.
    pub open spec fn comparable(self, x: u16, y: u16) -> bool {
        &&& x >= self.x ==> self.x + self.width <= u16::MAX
        &&& self.x <= x < self.x + self.width && y >= self.y ==> self.y + self.height <= u16::MAX
    }

    /// Whether the cell can be compared with the rectangle.
    pub fn can_compare(&self, x: u16, y: u16) -> (yes: bool)
        ensures
            yes == self.comparable(x, y),
    {
        if x < self.x {
            return true;
        }
        match self.x.checked_add(self.width) {
            None => false,
            Some(right) => x >= right || y < self.y || self.y.checked_add(self.height).is_some(),
        }
    }

    /// Whether the cell in column `x` and row `y` lies in the rectangle.
    pub fn contains_point(&self, x: u16, y: u16) -> (inside: bool)
        requires
            self.comparable(x, y),
        ensures
            inside == self.has(x, y),
    {
        x >= self.x && x < self.x + self.width && y >= self.y && y < self.y + self.height
    }
}

/// Pane rectangles captured while drawing, used to find the pane under the mouse.
#[derive(Clone, Copy, Debug, Default, PartialEq, Eq, Structural)]
pub struct Areas {
    pub message_area: Rect,
    pub book_area: Rect,
    pub user_area: Rect,
    pub input_area: Rect,
}

impl Areas {
    /// The pane in which the cell lies: of panes that overlap, the first of messages,
    /// books, users and input.
    pub open spec fn pane_at(self, x: u16, y: u16) -> Option<ActivePanel> {
        if self.message_area.has(x, y) {
            Some(ActivePanel::Messages)
        } else if self.book_area.has(x, y) {
            Some(ActivePanel::Books)
        } else if self.user_area.has(x, y) {
            Some(ActivePanel::Users)
        } else if self.input_area.has(x, y) {
            Some(ActivePanel::Input)
        } else {
            None
        }
    }

    /// Whether the cell can be compared with each pane up to the one it lies in.
    pub open spec fn comparable(self, x: u16, y: u16) -> bool {
        &&& self.message_area.comparable(x, y)
        &&& !self.message_area.has(x, y) ==> {
            &&& self.book_area.comparable(x, y)
            &&& !self.book_area.has(x, y) ==> {
                &&& self.user_area.comparable(x, y)
                &&& !self.user_area.has(x, y) ==> self.input_area.comparable(x, y)
            }
        }
    }

    /// Whether the cell can be compared with each pane up to the one it lies in.
    pub fn can_compare(&self, x: u16, y: u16) -> (yes: bool)
        ensures
            yes == self.comparable(x, y),
    {
        self.message_area.can_compare(x, y) && (self.message_area.contains_point(x, y)
            || self.book_area.can_compare(x, y) && (self.book_area.contains_point(x, y)
            || self.user_area.can_compare(x, y) && (self.user_area.contains_point(x, y)
            || self.input_area.can_compare(x, y))))
    }
}

/// What a scrollbar shows. A viewport length of zero stands for the length of the track.
#[derive(Clone, Copy, Debug, Default, PartialEq, Eq, Structural)]
pub struct ScrollbarState {
    pub content_length: usize,
    pub position: usize,
    pub viewport_content_length: usize,
}

impl ScrollbarState {
    pub fn new() -> (state: Self)
        ensures
            state == (ScrollbarState {
                content_length: 0,
                position: 0,
                viewport_content_length: 0,
            }),
    {
        ScrollbarState { content_length: 0, position: 0, viewport_content_length: 0 }
    }
}

/// A key of the keyboard.
#[derive(Clone, Copy, Debug, PartialEq, Eq, Structural)]
pub enum KeyCode {
    Char(char),
    Backspace,
    Delete,
    Enter,
    Left,
    Right,
    Up,
    Down,
    Home,
    End,
    PageUp,
    PageDown,
    Other,
}

#[derive(Clone, Copy, Debug, PartialEq, Eq, Structural)]
pub enum KeyEventKind {
    Press,
    Repeat,
    Release,
}

/// A key and whether the control key is held with it.
#[derive(Clone, Copy, Debug, PartialEq, Eq, Structural)]
pub struct KeyEvent {
    pub code: KeyCode,
    pub control: bool,
    pub kind: KeyEventKind,
}

#[derive(Clone, Copy, Debug, PartialEq, Eq, Structural)]
pub enum MouseButton {
    Left,
    Right,
    Middle,
}

#[derive(Clone, Copy, Debug, PartialEq, Eq, Structural)]
pub enum MouseEventKind {
    Down(MouseButton),
    ScrollDown,
    ScrollUp,
    Other,
}

#[derive(Clone, Copy, Debug, PartialEq, Eq, Structural)]
pub struct MouseEvent {
    pub kind: MouseEventKind,
    pub column: u16,
    pub row: u16,
}

/// What the terminal reports.
#[derive(Clone, Copy, Debug, PartialEq, Eq, Structural)]
pub enum Event {
    Key(KeyEvent),
    Mouse(MouseEvent),
    Other,
}

/// The state of the interface. `message_scroll` counts lines back from the newest, and
/// `cursor_position` counts bytes of the input.
pub struct App {
    pub should_quit: bool,
    pub quit_sent: bool,
    pub input: String,
    pub messages: Vec<Message>,
    pub book_list: Vec<String>,
    pub user_list: Vec<String>,
    pub cursor_position: usize,
    pub downloads: Vec<DownloadProgress>,
    pub current_channel: String,
    pub connected: bool,
    pub message_scroll: usize,
    pub max_scroll: usize,
    pub message_scroll_state: ScrollbarState,
    pub book_scroll: usize,
    pub book_scroll_state: ScrollbarState,
    pub user_scroll: usize,
    pub user_scroll_state: ScrollbarState,
    pub active_panel: ActivePanel,
    pub config: Config,
}

/// `a - b`, or zero where `b` is the greater one.
pub open spec fn less(a: nat, b: nat) -> nat {
    if a > b {
        (a - b) as nat
    } else {
        0
    }
}

pub open spec fn smaller(a: nat, b: nat) -> nat {
    if a < b {
        a
    } else {
        b
    }
}

/// A history that is over the limit, without its oldest item.
pub open spec fn capped<A>(s: Seq<A>) -> Seq<A> {
    if s.len() > MAX_MESSAGE_HISTORY {
        s.drop_first()
    } else {
        s
    }
}

/// The history `s` after the items `fresh` have come, one by one.
pub open spec fn grown<A>(s: Seq<A>, fresh: Seq<A>) -> Seq<A>
    decreases fresh.len(),
{
    if fresh.len() == 0 {
        s
    } else {
        capped(grown(s, fresh.drop_last()).push(fresh.last()))
    }
}

/// What the messages say.
pub open spec fn entries(messages: Seq<Message>) -> Seq<(Seq<char>, MessageType)> {
    messages.map_values(|m: Message| m.entry())
}

/// The users after `user` has come: a name that is there already is not added.
pub open spec fn users_with(users: Seq<String>, user: String) -> Seq<String> {
    if text::views(users).contains(user@) {
        users
    } else {
        users.push(user)
    }
}

/// The users after the one named `user` has gone.
pub open spec fn users_without(users: Seq<String>, user: Seq<char>) -> Seq<String> {
    users.filter(|u: String| u@ != user)
}

/// The index of the first download of the file `filename`, or the number of downloads.
pub open spec fn download_index(downloads: Seq<DownloadProgress>, filename: Seq<char>) -> int
    decreases downloads.len(),
{
    if downloads.len() == 0 || downloads[0].filename@ == filename {
        0
    } else {
        1 + download_index(downloads.drop_first(), filename)
    }
}

/// The downloads where the first one of the file `filename` has become what `change`
/// makes of it.
pub open spec fn with_changed(
    downloads: Seq<DownloadProgress>,
    filename: Seq<char>,
    change: spec_fn(DownloadProgress) -> DownloadProgress,
) -> Seq<DownloadProgress> {
    let i = download_index(downloads, filename);
    if i < downloads.len() {
        downloads.update(i, change(downloads[i]))
    } else {
        downloads
    }
}

/// The downloads after a download of the file of `fresh` has begun: it takes the place of
/// an earlier one of that file, or comes last.
pub open spec fn with_started(
    downloads: Seq<DownloadProgress>,
    fresh: DownloadProgress,
) -> Seq<DownloadProgress> {
    let i = download_index(downloads, fresh.filename@);
    if i < downloads.len() {
        downloads.update(i, fresh)
    } else {
        downloads.push(fresh)
    }
}

proof fn lemma_download_index(downloads: Seq<DownloadProgress>, filename: Seq<char>, i: int)
    requires
        0 <= i <= downloads.len(),
        forall|j: int| 0 <= j < i ==> (#[trigger] downloads[j]).filename@ != filename,
        i < downloads.len() ==> downloads[i].filename@ == filename,
    ensures
        download_index(downloads, filename) == i,
    decreases downloads.len(),
{
    if i > 0 {
        assert(downloads[0].filename@ != filename);
        let rest = downloads.drop_first();
        assert forall|j: int| 0 <= j < i - 1 implies (#[trigger] rest[j]).filename@ != filename by {
            assert(rest[j] == downloads[j + 1]);
        }
        lemma_download_index(rest, filename, i - 1);
    }
}

impl App {
    pub fn new(config: Config) -> (app: Self)
        ensures
            !app.should_quit,
            !app.quit_sent,
            app.input@ == ""@,
            app.messages@.len() == 0,
            app.book_list@.len() == 0,
            app.user_list@.len() == 0,
            app.cursor_position == 0,
            app.downloads@.len() == 0,
            app.current_channel == config.channel,
            !app.connected,
            app.message_scroll == 0,
            app.max_scroll == 0,
            app.message_scroll_state == (ScrollbarState {
                content_length: 0,
                position: 0,
                viewport_content_length: 0,
            }),
            app.book_scroll == 0,
            app.book_scroll_state == app.message_scroll_state,
            app.user_scroll == 0,
            app.user_scroll_state == app.message_scroll_state,
            app.active_panel == ActivePanel::Input,
            app.config == config,
    {
        proof {
            reveal_strlit("");
        }
        App {
            should_quit: false,
            quit_sent: false,
            input: String::new(),
            messages: Vec::new(),
            book_list: Vec::new(),
            user_list: Vec::new(),
            cursor_position: 0,
            downloads: Vec::new(),
            current_channel: config.channel.clone(),
            connected: false,
            message_scroll: 0,
            max_scroll: 0,
            message_scroll_state: ScrollbarState::new(),
            book_scroll: 0,
            book_scroll_state: ScrollbarState::new(),
            user_scroll: 0,
            user_scroll_state: ScrollbarState::new(),
            active_panel: ActivePanel::Input,
            config,
        }
    }

    /// The state with the message pane scrolled `lines` lines back.
    pub open spec fn scrolled(self, lines: usize) -> App {
        App {
            message_scroll: lines,
            message_scroll_state: ScrollbarState {
                content_length: self.messages.len(),
                position: lines,
                ..self.message_scroll_state
            },
            ..self
        }
    }

    /// Whether `next` is this state after messages that say `lines` have come, in this
    /// order, each of them scrolling the pane to the newest line.
    pub open spec fn noted(self, next: App, lines: Seq<(Seq<char>, MessageType)>) -> bool {
        &&& exists|fresh: Seq<Message>|
            entries(fresh) == lines && next.messages@ == #[trigger] grown(self.messages@, fresh)
        &&& next == if lines.len() == 0 {
            self
        } else {
            (App { messages: next.messages, ..self }).scrolled(0)
        }
    }

    /// Adds a message with the time at which it came and shows the newest line.
    pub fn add_message_with_type(&mut self, content: String, message_type: MessageType)
        ensures
            old(self).noted(*final(self), seq![(content@, message_type)]),
    {
        let message = Message::new(content, message_type);
        let ghost fresh = seq![message];
        let ghost lines = seq![(content@, message_type)];
        proof {
            assert(entries(fresh) =~= lines);
            assert(fresh.drop_last() =~= Seq::<Message>::empty());
            assert(grown(self.messages@, fresh.drop_last()) == self.messages@);
        }
        self.messages.push(message);
        if self.messages.len() > MAX_MESSAGE_HISTORY {
            self.messages.remove(0);
        }
        assert(self.messages@ =~= grown(old(self).messages@, fresh));
        self.scroll_to_bottom();
    }

    /// Adds a user who is not in the list yet.
    pub fn add_user(&mut self, user: String)
        ensures
            *final(self) == (App { user_list: final(self).user_list, ..*old(self) }),
            final(self).user_list@ == users_with(old(self).user_list@, user),
    {
        let mut i: usize = 0;
        while i < self.user_list.len()
            invariant
                *self == *old(self),
                i <= self.user_list@.len(),
                forall|j: int| 0 <= j < i ==> (#[trigger] self.user_list@[j])@ != user@,
            decreases self.user_list@.len() - i,
        {
            if self.user_list[i] == user {
                assert(text::views(self.user_list@)[i as int] == user@);
                return ;
            }
            i = i + 1;
        }
        assert(!text::views(self.user_list@).contains(user@));
        self.user_list.push(user);
    }

    /// Takes a user out of the list.
    pub fn remove_user(&mut self, user: &str)
        ensures
            *final(self) == (App { user_list: final(self).user_list, ..*old(self) }),
            final(self).user_list@ == users_without(old(self).user_list@, user@),
    {
        let mut kept: Vec<String> = Vec::new();
        let mut i: usize = 0;
        assert(self.user_list@.take(0) =~= Seq::empty());
        proof {
            reveal(Seq::filter);
        }
        while i < self.user_list.len()
            invariant
                *self == *old(self),
                i <= self.user_list@.len(),
                kept@ == users_without(self.user_list@.take(i as int), user@),
            decreases self.user_list@.len() - i,
        {
            let ghost part = self.user_list@.take(i + 1);
            proof {
                reveal(Seq::filter);
                assert(part.drop_last() =~= self.user_list@.take(i as int));
                assert(part.last() == self.user_list@[i as int]);
            }
            if !same(self.user_list[i].as_str(), user) {
                kept.push(self.user_list[i].clone());
            }
            i = i + 1;
        }
        assert(self.user_list@.take(i as int) =~= self.user_list@);
        self.user_list = kept;
    }

    /// Replaces the list of users.
    pub fn set_users(&mut self, users: Vec<String>)
        ensures
            *final(self) == (App { user_list: users, ..*old(self) }),
    {
        self.user_list = users;
    }

    /// The index of the first download of the file `filename`, or the number of downloads.
    fn find_download(&self, filename: &str) -> (i: usize)
        ensures
            i == download_index(self.downloads@, filename@),
            i <= self.downloads@.len(),
    {
        let mut i: usize = 0;
        while i < self.downloads.len()
            invariant
                i <= self.downloads@.len(),
                forall|j: int|
                    0 <= j < i ==> (#[trigger] self.downloads@[j]).filename@ != filename@,
            decreases self.downloads@.len() - i,
        {
            if same(self.downloads[i].filename.as_str(), filename) {
                proof {
                    lemma_download_index(self.downloads@, filename@, i as int);
                }
                return i;
            }
            i = i + 1;
        }
        proof {
            lemma_download_index(self.downloads@, filename@, i as int);
        }
        i
    }

    /// Starts a download, in the place of an earlier one of the same file.
    pub fn add_download(&mut self, filename: String, size: u64)
        ensures
            *final(self) == (App { downloads: final(self).downloads, ..*old(self) }),
            final(self).downloads@ == with_started(
                old(self).downloads@,
                DownloadProgress {
                    filename,
                    progress: 0,
                    total_size: size,
                    current_size: 0,
                    status: crate::tui::download::DownloadStatus::Starting,
                },
            ),
    {
        let i: usize = self.find_download(filename.as_str());
        if i < self.downloads.len() {
            self.downloads.set(i, DownloadProgress::new(filename, size));
        } else {
            self.downloads.push(DownloadProgress::new(filename, size));
        }
    }

    pub fn update_download(&mut self, filename: &str, current: u64)
        ensures
            *final(self) == (App { downloads: final(self).downloads, ..*old(self) }),
            final(self).downloads@ == with_changed(
                old(self).downloads@,
                filename@,
                |d: DownloadProgress| d.updated(current),
            ),
    {
        let i: usize = self.find_download(filename);
        if i < self.downloads.len() {
            self.downloads[i].update_progress(current);
        }
    }

    pub fn complete_download(&mut self, filename: &str)
        ensures
            *final(self) == (App { downloads: final(self).downloads, ..*old(self) }),
            final(self).downloads@ == with_changed(
                old(self).downloads@,
                filename@,
                |d: DownloadProgress| d.completed(),
            ),
    {
        let i: usize = self.find_download(filename);
        if i < self.downloads.len() {
            self.downloads[i].mark_completed();
        }
    }

    pub fn fail_download(&mut self, filename: &str, error: String)
        ensures
            *final(self) == (App { downloads: final(self).downloads, ..*old(self) }),
            final(self).downloads@ == with_changed(
                old(self).downloads@,
                filename@,
                |d: DownloadProgress| d.failed(error),
            ),
    {
        let i: usize = self.find_download(filename);
        if i < self.downloads.len() {
            self.downloads[i].mark_failed(error);
        }
    }

    pub fn mark_download_extracting(&mut self, filename: &str)
        ensures
            *final(self) == (App { downloads: final(self).downloads, ..*old(self) }),
            final(self).downloads@ == with_changed(
                old(self).downloads@,
                filename@,
                |d: DownloadProgress| d.extracting(),
            ),
    {
        let i: usize = self.find_download(filename);
        if i < self.downloads.len() {
            self.downloads[i].mark_extracting();
        }
    }

    /// Shows the newest line of the message pane.
    pub fn scroll_to_bottom(&mut self)
        ensures
            *final(self) == old(self).scrolled(0),
    {
        self.message_scroll = 0;
        self.update_message_scrollbar();
    }

    /// Sets how far the message pane can scroll, and brings the scroll within it.
    pub fn update_max_scroll(&mut self, viewport_height: usize)
        ensures
            *final(self) == (App {
                max_scroll: less(
                    old(self).messages@.len(),
                    viewport_height as nat,
                ) as usize,
                message_scroll: smaller(
                    old(self).message_scroll as nat,
                    less(old(self).messages@.len(), viewport_height as nat),
                ) as usize,
                ..*old(self)
            }),
    {
        self.max_scroll = self.messages.len().saturating_sub(viewport_height);
        if self.message_scroll > self.max_scroll {
            self.message_scroll = self.max_scroll;
        }
    }

    /// Scrolls the message pane back by `amount` lines, as far as it goes.
    pub fn scroll_up(&mut self, amount: usize)
        ensures
            *final(self) == old(self).scrolled(
                smaller(
                    (old(self).message_scroll + amount) as nat,
                    old(self).max_scroll as nat,
                ) as usize,
            ),
    {
        let lines: usize = self.message_scroll.saturating_add(amount);
        self.message_scroll = if lines < self.max_scroll {
            lines
        } else {
            self.max_scroll
        };
        self.update_message_scrollbar();
    }

    /// Scrolls the message pane forward by `amount` lines, as far as it goes.
    pub fn scroll_down(&mut self, amount: usize)
        ensures
            *final(self) == old(self).scrolled(
                less(old(self).message_scroll as nat, amount as nat) as usize,
            ),
    {
        self.message_scroll = self.message_scroll.saturating_sub(amount);
        self.update_message_scrollbar();
    }

    /// Brings the scrollbar of the message pane up to date.
    pub fn update_message_scrollbar(&mut self)
        ensures
            *final(self) == old(self).scrolled(old(self).message_scroll),
    {
        self.message_scroll_state.content_length = self.messages.len();
        self.message_scroll_state.position = self.message_scroll;
    }

    /// Brings the scroll of the book list within what `viewport_height` leaves to scroll.
    pub fn update_book_scroll(&mut self, viewport_height: usize)
        ensures
            *final(self) == (App {
                book_scroll: smaller(
                    old(self).book_scroll as nat,
                    less(old(self).book_list@.len(), viewport_height as nat),
                ) as usize,
                book_scroll_state: ScrollbarState {
                    content_length: old(self).book_list.len(),
                    ..old(self).book_scroll_state
                },
                ..*old(self)
            }),
    {
        let max_scroll: usize = self.book_list.len().saturating_sub(viewport_height);
        if self.book_scroll > max_scroll {
            self.book_scroll = max_scroll;
        }
        self.book_scroll_state.content_length = self.book_list.len();
    }

    /// The state with the book list scrolled `lines` lines down.
    pub open spec fn books_scrolled(self, lines: usize) -> App {
        App {
            book_scroll: lines,
            book_scroll_state: ScrollbarState { position: lines, ..self.book_scroll_state },
            ..self
        }
    }

    pub fn scroll_books_up(&mut self, amount: usize)
        ensures
            *final(self) == old(self).books_scrolled(
                less(old(self).book_scroll as nat, amount as nat) as usize,
            ),
    {
        self.book_scroll = self.book_scroll.saturating_sub(amount);
        self.book_scroll_state.position = self.book_scroll;
    }

    pub fn scroll_books_down(&mut self, amount: usize)
        ensures
            *final(self) == old(self).books_scrolled(
                smaller(
                    (old(self).book_scroll + amount) as nat,
                    less(old(self).book_list@.len(), 1),
                ) as usize,
            ),
    {
        let max_scroll: usize = self.book_list.len().saturating_sub(1);
        let lines: usize = self.book_scroll.saturating_add(amount);
        self.book_scroll = if lines < max_scroll {
            lines
        } else {
            max_scroll
        };
        self.book_scroll_state.position = self.book_scroll;
    }

    /// Brings the scroll of the user list within what `viewport_height` leaves to scroll.
    pub fn update_user_scroll(&mut self, viewport_height: usize)
        ensures
            *final(self) == (App {
                user_scroll: smaller(
                    old(self).user_scroll as nat,
                    less(old(self).user_list@.len(), viewport_height as nat),
                ) as usize,
                user_scroll_state: ScrollbarState {
                    content_length: old(self).user_list.len(),
                    ..old(self).user_scroll_state
                },
                ..*old(self)
            }),
    {
        let max_scroll: usize = self.user_list.len().saturating_sub(viewport_height);
        if self.user_scroll > max_scroll {
            self.user_scroll = max_scroll;
        }
        self.user_scroll_state.content_length = self.user_list.len();
    }

    /// The state with the user list scrolled `lines` lines down.
    pub open spec fn users_scrolled(self, lines: usize) -> App {
        App {
            user_scroll: lines,
            user_scroll_state: ScrollbarState { position: lines, ..self.user_scroll_state },
            ..self
        }
    }

    pub fn scroll_users_up(&mut self, amount: usize)
        ensures
            *final(self) == old(self).users_scrolled(
                less(old(self).user_scroll as nat, amount as nat) as usize,
            ),
    {
        self.user_scroll = self.user_scroll.saturating_sub(amount);
        self.user_scroll_state.position = self.user_scroll;
    }

    pub fn scroll_users_down(&mut self, amount: usize)
        ensures
            *final(self) == old(self).users_scrolled(
                smaller(
                    (old(self).user_scroll + amount) as nat,
                    less(old(self).user_list@.len(), 1),
                ) as usize,
            ),
    {
        let max_scroll: usize = self.user_list.len().saturating_sub(1);
        let lines: usize = self.user_scroll.saturating_add(amount);
        self.user_scroll = if lines < max_scroll {
            lines
        } else {
            max_scroll
        };
        self.user_scroll_state.position = self.user_scroll;
    }

    /// The state with the active pane scrolled back by `amount` lines, as far as it goes;
    /// while the input is active, that is the message pane.
    pub open spec fn pane_scrolled_up(self, amount: nat) -> App {
        match self.active_panel {
            ActivePanel::Books => self.books_scrolled(
                less(self.book_scroll as nat, amount) as usize,
            ),
            ActivePanel::Users => self.users_scrolled(
                less(self.user_scroll as nat, amount) as usize,
            ),
            _ => self.scrolled(
                smaller(self.message_scroll as nat + amount, self.max_scroll as nat) as usize,
            ),
        }
    }

    /// The state with the active pane scrolled forward by `amount` lines, as far as it goes;
    /// while the input is active, that is the message pane.
    pub open spec fn pane_scrolled_down(self, amount: nat) -> App {
        match self.active_panel {
            ActivePanel::Books => self.books_scrolled(
                smaller(
                    self.book_scroll as nat + amount,
                    less(self.book_list@.len(), 1),
                ) as usize,
            ),
            ActivePanel::Users => self.users_scrolled(
                smaller(
                    self.user_scroll as nat + amount,
                    less(self.user_list@.len(), 1),
                ) as usize,
            ),
            _ => self.scrolled(less(self.message_scroll as nat, amount) as usize),
        }
    }

    /// Scrolls the active pane back by `amount` lines, or the messages while the input is
    /// active.
    pub fn scroll_pane_up(&mut self, amount: usize)
        ensures
            *final(self) == old(self).pane_scrolled_up(amount as nat),
    {
        match self.active_panel {
            ActivePanel::Books => self.scroll_books_up(amount),
            ActivePanel::Users => self.scroll_users_up(amount),
            _ => self.scroll_up(amount),
        }
    }

    /// Scrolls the active pane forward by `amount` lines, or the messages while the input is
    /// active.
    pub fn scroll_pane_down(&mut self, amount: usize)
        ensures
            *final(self) == old(self).pane_scrolled_down(amount as nat),
    {
        match self.active_panel {
            ActivePanel::Books => self.scroll_books_down(amount),
            ActivePanel::Users => self.scroll_users_down(amount),
            _ => self.scroll_down(amount),
        }
    }

    /// The number of characters before the cursor.
    pub open spec fn cursor_index(self) -> int {
        text::chars_within(self.input@, self.cursor_position as int) as int
    }

    /// Whether `next` is this state with the input `input` and the cursor behind `k`
    /// characters of it.
    pub open spec fn edited(self, next: App, input: Seq<char>, k: int) -> bool {
        &&& next.input@ == input
        &&& next.cursor_position == text::byte_length(input.take(k))
        &&& next == (App {
            input: next.input,
            cursor_position: next.cursor_position,
            ..self
        })
    }

    /// Whether `next` is this state with the cursor behind `k` characters of the input.
    pub open spec fn moved(self, next: App, k: int) -> bool {
        &&& next.cursor_position == text::byte_length(self.input@.take(k))
        &&& next == (App { cursor_position: next.cursor_position, ..self })
    }

    /// Whether the key makes this state `next` and submits `line`.
    pub open spec fn keyed(self, next: App, line: Option<Seq<char>>, key: KeyEvent) -> bool {
        let input = self.input@;
        let k = self.cursor_index();
        match key.code {
            KeyCode::Char(c) => {
                &&& line is None
                &&& if c == 'q' && key.control {
                    next == (App { should_quit: true, ..self })
                } else {
                    self.edited(next, input.insert(k, c), k + 1)
                }
            },
            KeyCode::PageUp => line is None && next == self.pane_scrolled_up(
                PAGE_SCROLL_AMOUNT as nat,
            ),
            KeyCode::PageDown => line is None && next == self.pane_scrolled_down(
                PAGE_SCROLL_AMOUNT as nat,
            ),
            KeyCode::Up => line is None && next == if key.control {
                self.pane_scrolled_up(1)
            } else {
                self
            },
            KeyCode::Down => line is None && next == if key.control {
                self.pane_scrolled_down(1)
            } else {
                self
            },
            KeyCode::Home => line is None && next == self.scrolled(self.max_scroll),
            KeyCode::End => line is None && next == self.scrolled(0),
            KeyCode::Backspace => line is None && if k > 0 {
                self.edited(next, input.remove(k - 1), k - 1)
            } else {
                next == self
            },
            KeyCode::Delete => line is None && if k < input.len() {
                self.edited(next, input.remove(k), k)
            } else {
                next == self
            },
            KeyCode::Left => line is None && self.moved(
                next,
                if k > 0 {
                    k - 1
                } else {
                    0
                },
            ),
            KeyCode::Right => line is None && self.moved(
                next,
                if k < input.len() {
                    k + 1
                } else {
                    k
                },
            ),
            KeyCode::Enter => if input.len() == 0 {
                line is None && next == self
            } else {
                &&& line == Some(input)
                &&& next.input@.len() == 0
                &&& next == (App { input: next.input, cursor_position: 0, ..self }).scrolled(0)
            },
            KeyCode::Other => line is None && next == self,
        }
    }

    /// Puts the cursor behind `k` characters of the input, which are `chars`.
    fn place_cursor(&mut self, chars: &Vec<char>, k: usize)
        requires
            k <= chars@.len(),
        ensures
            *final(self) == (App { cursor_position: final(self).cursor_position, ..*old(self) }),
            final(self).cursor_position == text::byte_length(chars@.take(k as int)),
    {
        let head = string_of(chars, 0, k);
        assert(head@ =~= chars@.take(k as int));
        self.cursor_position = byte_len(head.as_str());
    }

    /// Makes `chars` the input, with the cursor behind `k` of them.
    fn set_input(&mut self, chars: &Vec<char>, k: usize)
        requires
            k <= chars@.len(),
        ensures
            old(self).edited(*final(self), chars@, k as int),
    {
        let input = string_of(chars, 0, chars.len());
        assert(input@ =~= chars@);
        self.input = input;
        self.place_cursor(chars, k);
    }

    /// Returns Some(line) when the user submits input with Enter.
    pub fn handle_key_event(&mut self, key: KeyEvent) -> (line: Option<String>)
        ensures
            old(self).keyed(*final(self), text::opt_view(line), key),
    {
        let mut chars = chars_of(self.input.as_str());
        let k: usize = count_within(&chars, self.cursor_position);
        match key.code {
            KeyCode::Char(c) => {
                if c == 'q' && key.control {
                    self.should_quit = true;
                } else {
                    chars.insert(k, c);
                    let total: usize = chars.len();
                    assert(k < total);
                    self.set_input(&chars, k + 1);
                }
                None
            },
            KeyCode::PageUp => {
                self.scroll_pane_up(PAGE_SCROLL_AMOUNT);
                None
            },
            KeyCode::PageDown => {
                self.scroll_pane_down(PAGE_SCROLL_AMOUNT);
                None
            },
            KeyCode::Up => {
                if key.control {
                    self.scroll_pane_up(1);
                }
                None
            },
            KeyCode::Down => {
                if key.control {
                    self.scroll_pane_down(1);
                }
                None
            },
            KeyCode::Home => {
                self.message_scroll = self.max_scroll;
                self.update_message_scrollbar();
                None
            },
            KeyCode::End => {
                self.scroll_to_bottom();
                None
            },
            KeyCode::Backspace => {
                if k > 0 {
                    chars.remove(k - 1);
                    self.set_input(&chars, k - 1);
                }
                None
            },
            KeyCode::Delete => {
                if k < chars.len() {
                    chars.remove(k);
                    self.set_input(&chars, k);
                }
                None
            },
            KeyCode::Left => {
                self.place_cursor(&chars, k.saturating_sub(1));
                None
            },
            KeyCode::Right => {
                if k < chars.len() {
                    self.place_cursor(&chars, k + 1);
                } else {
                    self.place_cursor(&chars, k);
                }
                None
            },
            KeyCode::Enter => {
                if self.input.as_str().is_empty() {
                    None
                } else {
                    let mut line = String::new();
                    std::mem::swap(&mut line, &mut self.input);
                    self.cursor_position = 0;
                    self.scroll_to_bottom();
                    Some(line)
                }
            },
            KeyCode::Other => None,
        }
    }

    /// Whether the cell of a click can be compared with the panes.
    pub open spec fn mouse_ready(self, event: MouseEvent, areas: Areas) -> bool {
        event.kind == MouseEventKind::Down(MouseButton::Left) ==> areas.comparable(
            event.column,
            event.row,
        )
    }

    /// The state after the mouse event: a click with the left button makes the pane under
    /// it the active one, and in the input places the cursor, a cell standing for a
    /// character; the wheel scrolls the active pane by a line.
    pub open spec fn moused(self, event: MouseEvent, areas: Areas) -> App {
        match event.kind {
            MouseEventKind::Down(MouseButton::Left) => match areas.pane_at(
                event.column,
                event.row,
            ) {
                Some(ActivePanel::Input) => App {
                    active_panel: ActivePanel::Input,
                    cursor_position: text::byte_length(
                        self.input@.take(
                            smaller(
                                less(event.column as nat, (areas.input_area.x + 1) as nat),
                                self.input@.len(),
                            ) as int,
                        ),
                    ) as usize,
                    ..self
                },
                Some(panel) => App { active_panel: panel, ..self },
                None => self,
            },
            MouseEventKind::ScrollDown => match self.active_panel {
                ActivePanel::Messages => self.scrolled(
                    less(self.message_scroll as nat, 1) as usize,
                ),
                ActivePanel::Books => self.books_scrolled(
                    smaller(
                        (self.book_scroll + 1) as nat,
                        less(self.book_list@.len(), 1),
                    ) as usize,
                ),
                ActivePanel::Users => self.users_scrolled(
                    smaller(
                        (self.user_scroll + 1) as nat,
                        less(self.user_list@.len(), 1),
                    ) as usize,
                ),
                ActivePanel::Input => self,
            },
            MouseEventKind::ScrollUp => match self.active_panel {
                ActivePanel::Messages => self.scrolled(
                    smaller((self.message_scroll + 1) as nat, self.max_scroll as nat) as usize,
                ),
                ActivePanel::Books => self.books_scrolled(
                    less(self.book_scroll as nat, 1) as usize,
                ),
                ActivePanel::Users => self.users_scrolled(
                    less(self.user_scroll as nat, 1) as usize,
                ),
                ActivePanel::Input => self,
            },
            _ => self,
        }
    }

    pub fn handle_mouse_event(&mut self, event: MouseEvent, areas: &Areas)
        requires
            old(self).mouse_ready(event, *areas),
        ensures
            *final(self) == old(self).moused(event, *areas),
    {
        match event.kind {
            MouseEventKind::Down(MouseButton::Left) => {
                if areas.message_area.contains_point(event.column, event.row) {
                    self.active_panel = ActivePanel::Messages;
                } else if areas.book_area.contains_point(event.column, event.row) {
                    self.active_panel = ActivePanel::Books;
                } else if areas.user_area.contains_point(event.column, event.row) {
                    self.active_panel = ActivePanel::Users;
                } else if areas.input_area.contains_point(event.column, event.row) {
                    self.active_panel = ActivePanel::Input;
                    let input_x: u16 = event.column.saturating_sub(areas.input_area.x + 1);
                    let chars = chars_of(self.input.as_str());
                    if (input_x as usize) < chars.len() {
                        self.place_cursor(&chars, input_x as usize);
                    } else {
                        self.place_cursor(&chars, chars.len());
                    }
                }
            },
            MouseEventKind::ScrollDown => match self.active_panel {
                ActivePanel::Messages => self.scroll_down(1),
                ActivePanel::Books => self.scroll_books_down(1),
                ActivePanel::Users => self.scroll_users_down(1),
                ActivePanel::Input => {},
            },
            MouseEventKind::ScrollUp => match self.active_panel {
                ActivePanel::Messages => self.scroll_up(1),
                ActivePanel::Books => self.scroll_books_up(1),
                ActivePanel::Users => self.scroll_users_up(1),
                ActivePanel::Input => {},
            },
            _ => {},
        }
    }

    /// Whether the event that the terminal reports can be handled.
    pub open spec fn event_ready(self, event: Option<Event>, areas: Areas) -> bool {
        match event {
            Some(Event::Mouse(mouse)) => self.mouse_ready(mouse, areas),
            _ => true,
        }
    }

    /// Handles what the terminal reports, if anything; returns a line that is submitted.
    pub fn handle_events(&mut self, event: Option<Event>, areas: &Areas) -> (line: Option<String>)
        requires
            old(self).event_ready(event, *areas),
        ensures
            match event {
                Some(Event::Key(key)) if key.kind == KeyEventKind::Press => old(self).keyed(
                    *final(self),
                    text::opt_view(line),
                    key,
                ),
                Some(Event::Mouse(mouse)) => line is None && *final(self) == old(self).moused(
                    mouse,
                    *areas,
                ),
                _ => line is None && *final(self) == *old(self),
            },
    {
        match event {
            Some(Event::Key(key)) => {
                if key.kind == KeyEventKind::Press {
                    self.handle_key_event(key)
                } else {
                    None
                }
            },
            Some(Event::Mouse(mouse)) => {
                self.handle_mouse_event(mouse, areas);
                None
            },
            _ => None,
        }
    }
}

/// The history holds the newest messages: all of them, or as many as the limit allows.
pub proof fn law_history_keeps_newest(app: App, next: App, lines: Seq<(Seq<char>, MessageType)>)
    requires
        app.messages@.len() <= MAX_MESSAGE_HISTORY,
        app.noted(next, lines),
    ensures
        next.messages@.len() <= MAX_MESSAGE_HISTORY,
        entries(next.messages@) == (entries(app.messages@) + lines).skip(
            less(app.messages@.len() + lines.len(), MAX_MESSAGE_HISTORY as nat) as int,
        ),
{
    let fresh = choose|fresh: Seq<Message>|
        entries(fresh) == lines && next.messages@ == #[trigger] grown(app.messages@, fresh);
    lemma_grown(app.messages@, fresh);
    assert(fresh.len() == lines.len());
    assert(entries(next.messages@) =~= (entries(app.messages@) + lines).skip(
        less(app.messages@.len() + lines.len(), MAX_MESSAGE_HISTORY as nat) as int,
    ));
}

proof fn lemma_grown<A>(s: Seq<A>, fresh: Seq<A>)
    requires
        s.len() <= MAX_MESSAGE_HISTORY,
    ensures
        grown(s, fresh) == (s + fresh).skip(
            less(s.len() + fresh.len(), MAX_MESSAGE_HISTORY as nat) as int,
        ),
    decreases fresh.len(),
{
    if fresh.len() == 0 {
        assert((s + fresh).skip(0) =~= s);
    } else {
        lemma_grown(s, fresh.drop_last());
        assert(grown(s, fresh) =~= (s + fresh).skip(
            less(s.len() + fresh.len(), MAX_MESSAGE_HISTORY as nat) as int,
        ));
    }
}

proof fn lemma_grown_twice<A>(s: Seq<A>, first: Seq<A>, second: Seq<A>)
    ensures
        grown(grown(s, first), second) == grown(s, first + second),
    decreases second.len(),
{
    if second.len() == 0 {
        assert(first + second =~= first);
    } else {
        lemma_grown_twice(s, first, second.drop_last());
        assert((first + second).drop_last() =~= first + second.drop_last());
        assert((first + second).last() == second.last());
    }
}

/// Messages that come in two batches are messages that come in one.
pub proof fn law_noted_in_sequence(
    app: App,
    middle: App,
    next: App,
    first: Seq<(Seq<char>, MessageType)>,
    second: Seq<(Seq<char>, MessageType)>,
)
    requires
        app.noted(middle, first),
        middle.noted(next, second),
    ensures
        app.noted(next, first + second),
{
    let a = choose|fresh: Seq<Message>|
        entries(fresh) == first && middle.messages@ == #[trigger] grown(app.messages@, fresh);
    let b = choose|fresh: Seq<Message>|
        entries(fresh) == second && next.messages@ == #[trigger] grown(middle.messages@, fresh);
    lemma_grown_twice(app.messages@, a, b);
    assert(entries(a + b) =~= first + second);
    if first.len() == 0 {
        assert(first + second =~= second);
    }
    if second.len() == 0 {
        assert(first + second =~= first);
    }
    assert(next.messages@ == grown(app.messages@, a + b));
}

/// No key scrolls a pane beyond its limit.
pub proof fn law_scroll_within_limit(
    app: App,
    next: App,
    line: Option<Seq<char>>,
    key: KeyEvent,
)
    requires
        app.message_scroll <= app.max_scroll,
        app.book_scroll <= less(app.book_list@.len(), 1),
        app.user_scroll <= less(app.user_list@.len(), 1),
        app.keyed(next, line, key),
    ensures
        next.message_scroll <= next.max_scroll,
        next.book_scroll <= less(next.book_list@.len(), 1),
        next.user_scroll <= less(next.user_list@.len(), 1),
{
    assert(app.book_list@.len() == app.book_list.len());
    assert(app.user_list@.len() == app.user_list.len());
}

/// The page keys scroll the pane that is active: with the book list or the users active
/// the messages stay where they are.
pub proof fn law_page_keys_scroll_the_active_pane(
    app: App,
    next: App,
    line: Option<Seq<char>>,
    key: KeyEvent,
)
    requires
        key.code == KeyCode::PageUp || key.code == KeyCode::PageDown,
        app.keyed(next, line, key),
    ensures
        line is None,
        app.active_panel == ActivePanel::Books ==> next == app.books_scrolled(next.book_scroll),
        app.active_panel == ActivePanel::Users ==> next == app.users_scrolled(next.user_scroll),
        app.active_panel == ActivePanel::Messages ==> next == app.scrolled(next.message_scroll),
        app.active_panel == ActivePanel::Books && key.code == KeyCode::PageDown && app.book_scroll
            + PAGE_SCROLL_AMOUNT < app.book_list@.len() ==> next.book_scroll == app.book_scroll
            + PAGE_SCROLL_AMOUNT,
{
    assert(app.book_list@.len() == app.book_list.len());
}

/// No turn of the wheel scrolls a pane beyond its limit.
pub proof fn law_wheel_stays_within_limits(app: App, event: MouseEvent, areas: Areas)
    requires
        app.message_scroll <= app.max_scroll,
        app.book_scroll <= less(app.book_list@.len(), 1),
        app.user_scroll <= less(app.user_list@.len(), 1),
    ensures
        ({
            let next = app.moused(event, areas);
            &&& next.message_scroll <= next.max_scroll
            &&& next.book_scroll <= less(next.book_list@.len(), 1)
            &&& next.user_scroll <= less(next.user_list@.len(), 1)
        }),
{
    assert(app.book_list@.len() == app.book_list.len());
    assert(app.user_list@.len() == app.user_list.len());
}

/// Whether the cursor stands between two characters of the input, or at its ends.
pub open spec fn cursor_in_input(app: App) -> bool {
    app.cursor_position == text::byte_length(app.input@.take(app.cursor_index()))
}

/// Every key leaves the cursor between two characters of the input or at its ends.
pub proof fn law_keys_keep_the_cursor_in_the_input(
    app: App,
    next: App,
    line: Option<Seq<char>>,
    key: KeyEvent,
)
    requires
        cursor_in_input(app),
        app.keyed(next, line, key),
    ensures
        cursor_in_input(next),
        next.cursor_position <= text::byte_length(next.input@),
{
    let k = app.cursor_index();
    text::lemma_chars_within_fit(app.input@, app.cursor_position as int);
    let at = match key.code {
        KeyCode::Char(c) => if c == 'q' && key.control {
            k
        } else {
            k + 1
        },
        KeyCode::Backspace => if k > 0 {
            k - 1
        } else {
            k
        },
        KeyCode::Left => if k > 0 {
            k - 1
        } else {
            0
        },
        KeyCode::Right => if k < app.input@.len() {
            k + 1
        } else {
            k
        },
        KeyCode::Enter => if app.input@.len() > 0 {
            0
        } else {
            k
        },
        _ => k,
    };
    if key.code == KeyCode::Enter && app.input@.len() > 0 {
        assert(next.input@.take(0) =~= Seq::empty());
    }
    assert(next.cursor_position == text::byte_length(next.input@.take(at)));
    text::lemma_chars_within(next.input@, at);
    text::lemma_byte_length(next.input@, at);
}

/// A click leaves the cursor between two characters of the input or at its ends.
pub proof fn law_clicks_keep_the_cursor_in_the_input(app: App, event: MouseEvent, areas: Areas)
    requires
        cursor_in_input(app),
    ensures
        cursor_in_input(app.moused(event, areas)),
{
    let at = smaller(
        less(event.column as nat, (areas.input_area.x + 1) as nat),
        app.input@.len(),
    ) as int;
    text::lemma_byte_length(app.input@, at);
    text::lemma_chars_within(app.input@, at);
}

/// Backspace takes back the character that was typed just before, whatever it is and
/// whatever the rest of the input is.
pub proof fn law_backspace_undoes_typing(app: App, typed: App, erased: App, c: char)
    requires
        cursor_in_input(app),
        app.keyed(
            typed,
            None,
            KeyEvent { code: KeyCode::Char(c), control: false, kind: KeyEventKind::Press },
        ),
        typed.keyed(
            erased,
            None,
            KeyEvent { code: KeyCode::Backspace, control: false, kind: KeyEventKind::Press },
        ),
    ensures
        erased.input@ == app.input@,
        erased.cursor_position == app.cursor_position,
        erased == (App { input: erased.input, ..app }),
{
    let s = app.input@;
    let k = app.cursor_index();
    text::lemma_chars_within_fit(s, app.cursor_position as int);
    let t = s.insert(k, c);
    text::lemma_chars_within(t, k + 1);
    assert(t.remove(k) =~= s);
}

/// The arrow keys never change the input, and neither does Backspace at its beginning or
/// Delete at its end.
pub proof fn law_input_stays(app: App, next: App, line: Option<Seq<char>>, key: KeyEvent)
    requires
        cursor_in_input(app),
        app.keyed(next, line, key),
    ensures
        key.code == KeyCode::Left || key.code == KeyCode::Right ==> next.input == app.input,
        key.code == KeyCode::Backspace && app.cursor_position == 0 ==> next == app,
        key.code == KeyCode::Delete && app.cursor_position == text::byte_length(app.input@) ==> next
            == app,
{
    let s = app.input@;
    let k = app.cursor_index();
    text::lemma_chars_within_fit(s, app.cursor_position as int);
    if key.code == KeyCode::Backspace && app.cursor_position == 0 {
        assert(s.take(0) =~= Seq::empty());
        text::lemma_chars_within(s, 0);
    }
    if key.code == KeyCode::Delete && app.cursor_position == text::byte_length(s) {
        assert(s.take(s.len() as int) =~= s);
        text::lemma_chars_within(s, s.len() as int);
    }
}

/// Whether the input is ASCII and the cursor stands in it or at its end.
pub open spec fn plain_input(app: App) -> bool {
    vstd::utf8::is_ascii_chars(app.input@) && app.cursor_position <= app.input@.len()
}

/// As long as the user types ASCII, what a key leaves is ASCII with the cursor in it: a
/// character comes in at the cursor, Backspace takes the one before it and Delete the one
/// behind it.
pub proof fn law_ascii_editing(app: App, next: App, line: Option<Seq<char>>, key: KeyEvent)
    requires
        plain_input(app),
        key.code matches KeyCode::Char(c) ==> c <= '\u{7f}',
        app.keyed(next, line, key),
    ensures
        plain_input(next),
        key.code matches KeyCode::Char(c) ==> (c != 'q' || !key.control) ==> {
            &&& next.input@ == app.input@.insert(app.cursor_position as int, c)
            &&& next.cursor_position == app.cursor_position + 1
        },
        key.code == KeyCode::Backspace && app.cursor_position > 0 ==> {
            &&& next.input@ == app.input@.remove(app.cursor_position - 1)
            &&& next.cursor_position == app.cursor_position - 1
        },
        key.code == KeyCode::Delete && app.cursor_position < app.input@.len() ==> {
            &&& next.input@ == app.input@.remove(app.cursor_position as int)
            &&& next.cursor_position == app.cursor_position
        },
        key.code == KeyCode::Left ==> next.cursor_position == less(app.cursor_position as nat, 1),
        key.code == KeyCode::Right ==> next.cursor_position == smaller(
            app.cursor_position as nat + 1,
            app.input@.len(),
        ),
{
    let s = app.input@;
    let n = app.cursor_position as int;
    text::lemma_ascii_bytes(s, n);
    let t = next.input@;
    assert(vstd::utf8::is_ascii_chars(t));
    if n > 0 && n - 1 <= t.len() {
        text::lemma_ascii_bytes(t, n - 1);
    }
    if n <= t.len() {
        text::lemma_ascii_bytes(t, n);
    }
    if n + 1 <= t.len() {
        text::lemma_ascii_bytes(t, n + 1);
    }
    assert(t.take(0) =~= Seq::empty());
}

/// The list of users holds no name twice, whoever comes or goes, and no one who has gone.
pub proof fn law_users_are_distinct(list: Seq<String>, user: String)
    requires
        text::views(list).no_duplicates(),
    ensures
        text::views(users_with(list, user)).no_duplicates(),
        text::views(users_with(list, user)).contains(user@),
        text::views(users_without(list, user@)).no_duplicates(),
        !text::views(users_without(list, user@)).contains(user@),
{
    let names = text::views(list);
    let more = text::views(users_with(list, user));
    if !names.contains(user@) {
        assert(more =~= names.push(user@));
        assert(more[names.len() as int] == user@);
    }
    lemma_users_without(list, user@);
}

/// Adding a user who is in the list changes nothing.
pub proof fn law_adding_a_user_twice(list: Seq<String>, user: String)
    ensures
        users_with(users_with(list, user), user) == users_with(list, user),
{
    let more = users_with(list, user);
    if !text::views(list).contains(user@) {
        assert(text::views(more)[list.len() as int] == user@);
    }
}

proof fn lemma_users_without(list: Seq<String>, user: Seq<char>)
    ensures
        forall|i: int|
            0 <= i < users_without(list, user).len() ==> {
                let name = (#[trigger] users_without(list, user)[i])@;
                name != user && text::views(list).contains(name)
            },
        text::views(list).no_duplicates() ==> text::views(
            users_without(list, user),
        ).no_duplicates(),
    decreases list.len(),
{
    reveal(Seq::filter);
    let kept = users_without(list, user);
    let names = text::views(list);
    if list.len() > 0 {
        let rest = list.drop_last();
        let fewer = users_without(rest, user);
        lemma_users_without(rest, user);
        assert forall|i: int| 0 <= i < kept.len() implies {
            let name = (#[trigger] kept[i])@;
            name != user && names.contains(name)
        } by {
            if i < fewer.len() {
                assert(kept[i] == fewer[i]);
                let k = choose|k: int| 0 <= k < rest.len() && text::views(rest)[k] == fewer[i]@;
                assert(names[k] == kept[i]@);
            } else {
                assert(names[list.len() - 1] == kept[i]@);
            }
        }
        if names.no_duplicates() {
            assert(text::views(rest) =~= names.drop_last());
            if list.last()@ != user {
                assert(text::views(kept) =~= text::views(fewer).push(list.last()@));
                assert forall|i: int| 0 <= i < fewer.len() implies fewer[i]@ != list.last()@ by {
                    let k = choose|k: int| 0 <= k < rest.len() && text::views(rest)[k] == fewer[i]@;
                    assert(names[k] == fewer[i]@);
                    assert(names[list.len() - 1] == list.last()@);
                }
            } else {
                assert(kept =~= fewer);
            }
        }
    }
}

/// Whether no two downloads are of the same file.
pub open spec fn distinct_files(downloads: Seq<DownloadProgress>) -> bool {
    forall|i: int, j: int|
        0 <= i < j < downloads.len() ==> (#[trigger] downloads[i]).filename@ != (
        #[trigger] downloads[j]).filename@
}

/// Each file has one gauge: a download that starts again takes the place of the earlier
/// one, and no other download changes.
pub proof fn law_one_gauge_per_file(downloads: Seq<DownloadProgress>, fresh: DownloadProgress)
    requires
        distinct_files(downloads),
    ensures
        distinct_files(with_started(downloads, fresh)),
        with_started(downloads, fresh).contains(fresh),
        forall|i: int|
            0 <= i < downloads.len() && (#[trigger] downloads[i]).filename@ != fresh.filename@
                ==> with_started(downloads, fresh)[i] == downloads[i],
{
    lemma_download_found(downloads, fresh.filename@);
    let next = with_started(downloads, fresh);
    let i = download_index(downloads, fresh.filename@);
    assert(next[i] == fresh);
}

/// A change of one download leaves the others, and the files, as they are.
pub proof fn law_other_downloads_stay(
    downloads: Seq<DownloadProgress>,
    filename: Seq<char>,
    change: spec_fn(DownloadProgress) -> DownloadProgress,
)
    requires
        distinct_files(downloads),
        forall|d: DownloadProgress| (#[trigger] change(d)).filename == d.filename,
    ensures
        distinct_files(with_changed(downloads, filename, change)),
        with_changed(downloads, filename, change).len() == downloads.len(),
        forall|i: int|
            0 <= i < downloads.len() ==> (#[trigger] with_changed(
                downloads,
                filename,
                change,
            )[i]) == if downloads[i].filename@ == filename {
                change(downloads[i])
            } else {
                downloads[i]
            },
{
    lemma_download_found(downloads, filename);
}

proof fn lemma_download_found(downloads: Seq<DownloadProgress>, filename: Seq<char>)
    ensures
        0 <= download_index(downloads, filename) <= downloads.len(),
        ({
            let i = download_index(downloads, filename);
            i < downloads.len() ==> downloads[i].filename@ == filename
        }),
        forall|j: int|
            0 <= j < download_index(downloads, filename) ==> (#[trigger] downloads[j]).filename@
                != filename,
    decreases downloads.len(),
{
    if downloads.len() > 0 && downloads[0].filename@ != filename {
        let rest = downloads.drop_first();
        lemma_download_found(rest, filename);
        assert forall|j: int| 0 <= j < download_index(downloads, filename) implies (
        #[trigger] downloads[j]).filename@ != filename by {
            if j > 0 {
                assert(rest[j - 1] == downloads[j]);
            }
        }
    }
}

/// Messages come in behind those that are there, each as it is, and of more than a thousand
/// the oldest go. The pane then shows the newest line; nothing else changes.
pub proof fn law_messages_are_kept(app: App, next: App, lines: Seq<(Seq<char>, MessageType)>)
    requires
        app.messages@.len() <= 1000,
        app.noted(next, lines),
    ensures
        ({
            let total = app.messages@.len() + lines.len();
            let gone = if total > 1000 {
                total - 1000
            } else {
                0
            };
            &&& next.messages@.len() == total - gone
            &&& forall|i: int|
                0 <= i < next.messages@.len() ==> if i + gone < app.messages@.len() {
                    #[trigger] next.messages@[i] == app.messages@[i + gone]
                } else {
                    let line = lines[i + gone - app.messages@.len()];
                    next.messages@[i].content@ == line.0 && next.messages@[i].message_type == line.1
                }
        }),
        lines.len() > 0 ==> next.message_scroll == 0,
        lines.len() == 0 ==> next == app,
        next == (App {
            messages: next.messages,
            message_scroll: next.message_scroll,
            message_scroll_state: next.message_scroll_state,
            ..app
        }),
{
    let fresh = choose|fresh: Seq<Message>|
        entries(fresh) == lines && next.messages@ == #[trigger] grown(app.messages@, fresh);
    lemma_grown(app.messages@, fresh);
    assert(fresh.len() == lines.len()) by {
        assert(entries(fresh).len() == fresh.len());
    }
    let all = app.messages@ + fresh;
    let total = app.messages@.len() + lines.len();
    let gone = less(total, MAX_MESSAGE_HISTORY as nat) as int;
    assert forall|i: int| 0 <= i < next.messages@.len() implies if i + gone
        < app.messages@.len() {
        #[trigger] next.messages@[i] == app.messages@[i + gone]
    } else {
        let line = lines[i + gone - app.messages@.len()];
        next.messages@[i].content@ == line.0 && next.messages@[i].message_type == line.1
    } by {
        assert(next.messages@[i] == all[i + gone]);
        if i + gone >= app.messages@.len() {
            let j = i + gone - app.messages@.len();
            assert(entries(fresh)[j] == fresh[j].entry());
        }
    }
}

/// A key changes nothing but the input and its cursor, the scroll of a pane and, with the
/// control key, whether the interface ends; only the enter key submits a line.
pub proof fn law_keys_change_only_their_part(
    app: App,
    next: App,
    line: Option<Seq<char>>,
    key: KeyEvent,
)
    requires
        app.keyed(next, line, key),
    ensures
        next == (App {
            should_quit: next.should_quit,
            input: next.input,
            cursor_position: next.cursor_position,
            message_scroll: next.message_scroll,
            message_scroll_state: next.message_scroll_state,
            book_scroll: next.book_scroll,
            book_scroll_state: next.book_scroll_state,
            user_scroll: next.user_scroll,
            user_scroll_state: next.user_scroll_state,
            ..app
        }),
        next.should_quit == (app.should_quit || key.code == KeyCode::Char('q') && key.control),
        line is Some <==> key.code == KeyCode::Enter && app.input@.len() > 0,
        line matches Some(l) ==> {
            &&& l == app.input@
            &&& next.input@.len() == 0
            &&& next.cursor_position == 0
            &&& next.message_scroll == 0
        },
        match key.code {
            KeyCode::Char(_) | KeyCode::Backspace | KeyCode::Delete | KeyCode::Left
            | KeyCode::Right => next == (App {
                should_quit: next.should_quit,
                input: next.input,
                cursor_position: next.cursor_position,
                ..app
            }),
            KeyCode::Enter => next.book_scroll == app.book_scroll && next.user_scroll
                == app.user_scroll && (line is None ==> next == app),
            KeyCode::Other => next == app,
            _ => next.input == app.input && next.cursor_position == app.cursor_position,
        },
{
}

/// Typing puts a character where the cursor stands and the cursor behind it. The backspace
/// key takes the character before the cursor away, the delete key the one behind it, and the
/// arrow keys move the cursor by a character, each as far as there are characters.
pub proof fn law_editing_happens_at_the_cursor(
    app: App,
    next: App,
    line: Option<Seq<char>>,
    key: KeyEvent,
    head: Seq<char>,
    tail: Seq<char>,
)
    requires
        app.input@ == head + tail,
        app.cursor_position == text::byte_length(head),
        app.keyed(next, line, key),
    ensures
        key.code matches KeyCode::Char(c) ==> if c == 'q' && key.control {
            next.input@ == head + tail && next.cursor_position == app.cursor_position
        } else {
            next.input@ == head + seq![c] + tail && next.cursor_position == text::byte_length(
                head + seq![c],
            )
        },
        key.code == KeyCode::Backspace && head.len() > 0 ==> next.input@ == head.drop_last() + tail
            && next.cursor_position == text::byte_length(head.drop_last()),
        key.code == KeyCode::Backspace && head.len() == 0 ==> next == app,
        key.code == KeyCode::Delete && tail.len() > 0 ==> next.input@ == head + tail.drop_first()
            && next.cursor_position == app.cursor_position,
        key.code == KeyCode::Delete && tail.len() == 0 ==> next == app,
        key.code == KeyCode::Left ==> next.input == app.input && next.cursor_position == if head.len()
            > 0 {
            text::byte_length(head.drop_last())
        } else {
            0
        },
        key.code == KeyCode::Right ==> next.input == app.input && next.cursor_position
            == if tail.len() > 0 {
            text::byte_length(head.push(tail[0]))
        } else {
            text::byte_length(head)
        },
{
    let k = head.len() as int;
    let input = app.input@;
    text::law_characters_of_a_head(head, tail);
    text::law_byte_length(head, tail, 'x');
    assert(app.cursor_index() == k);
    assert(input.take(k) =~= head);
    match key.code {
        KeyCode::Char(c) => {
            assert(input.insert(k, c) =~= head + seq![c] + tail);
            assert(input.insert(k, c).take(k + 1) =~= head + seq![c]);
        },
        KeyCode::Backspace => {
            if k > 0 {
                assert(input.remove(k - 1) =~= head.drop_last() + tail);
                assert(input.remove(k - 1).take(k - 1) =~= head.drop_last());
            }
        },
        KeyCode::Delete => {
            if k < input.len() {
                assert(input.remove(k) =~= head + tail.drop_first());
                assert(input.remove(k).take(k) =~= head);
            }
        },
        KeyCode::Left => {
            if k > 0 {
                assert(input.take(k - 1) =~= head.drop_last());
            } else {
                assert(input.take(0) =~= Seq::<char>::empty());
            }
        },
        KeyCode::Right => {
            if k < input.len() {
                assert(input.take(k + 1) =~= head.push(tail[0]));
            }
        },
        _ => {},
    }
}

/// The page keys scroll by five lines and the arrow keys with the control key by one: in the
/// messages back from the newest up to the limit, in a list down to its last entry and back
/// to its first. The home and end keys show the oldest and the newest messages.
pub proof fn law_scroll_keys_scroll(
    app: App,
    next: App,
    line: Option<Seq<char>>,
    key: KeyEvent,
)
    requires
        app.message_scroll <= app.max_scroll,
        app.book_list@.len() <= usize::MAX,
        app.user_list@.len() <= usize::MAX,
        app.keyed(next, line, key),
    ensures
        ({
            let amount: int = if key.code == KeyCode::PageUp || key.code == KeyCode::PageDown {
                5
            } else if key.control && (key.code == KeyCode::Up || key.code == KeyCode::Down) {
                1
            } else {
                0
            };
            let back = key.code == KeyCode::PageUp || key.code == KeyCode::Up;
            let scrolls = back || key.code == KeyCode::PageDown || key.code == KeyCode::Down;
            let messages = app.active_panel != ActivePanel::Books && app.active_panel
                != ActivePanel::Users;
            &&& scrolls && messages ==> {
                &&& next.book_scroll == app.book_scroll && next.user_scroll == app.user_scroll
                &&& back ==> {
                    ||| next.message_scroll == app.message_scroll + amount
                    ||| next.message_scroll == app.max_scroll && app.message_scroll + amount
                        > app.max_scroll
                }
                &&& !back ==> {
                    ||| next.message_scroll == app.message_scroll - amount
                    ||| next.message_scroll == 0 && app.message_scroll < amount
                }
                &&& amount > 0 ==> next.message_scroll_state.position == next.message_scroll
                    && next.message_scroll_state.content_length == app.messages@.len()
            }
            &&& scrolls && app.active_panel == ActivePanel::Books ==> {
                &&& next.message_scroll == app.message_scroll && next.user_scroll
                    == app.user_scroll
                &&& back ==> {
                    ||| next.book_scroll == app.book_scroll - amount
                    ||| next.book_scroll == 0 && app.book_scroll < amount
                }
                &&& !back ==> {
                    ||| next.book_scroll == app.book_scroll + amount
                    ||| next.book_scroll == app.book_list@.len() - 1 && app.book_scroll + amount
                        >= app.book_list@.len()
                    ||| next.book_scroll == 0 && app.book_list@.len() == 0
                }
                &&& amount > 0 ==> next.book_scroll_state.position == next.book_scroll
            }
            &&& scrolls && app.active_panel == ActivePanel::Users ==> {
                &&& next.message_scroll == app.message_scroll && next.book_scroll
                    == app.book_scroll
                &&& back ==> {
                    ||| next.user_scroll == app.user_scroll - amount
                    ||| next.user_scroll == 0 && app.user_scroll < amount
                }
                &&& !back ==> {
                    ||| next.user_scroll == app.user_scroll + amount
                    ||| next.user_scroll == app.user_list@.len() - 1 && app.user_scroll + amount
                        >= app.user_list@.len()
                    ||| next.user_scroll == 0 && app.user_list@.len() == 0
                }
                &&& amount > 0 ==> next.user_scroll_state.position == next.user_scroll
            }
            &&& key.code == KeyCode::Home ==> next.message_scroll == app.max_scroll
            &&& key.code == KeyCode::End ==> next.message_scroll == 0
            &&& key.code == KeyCode::Home || key.code == KeyCode::End ==> next.book_scroll
                == app.book_scroll && next.user_scroll == app.user_scroll
        }),
{
}

/// A click with the left button makes the pane active in whose rectangle it lies, and in the
/// input puts the cursor before the character in its column, or behind the last one. No
/// other button and no click beside the panes changes anything.
pub proof fn law_clicks_choose_the_pane(app: App, event: MouseEvent, areas: Areas)
    ensures
        ({
            let (x, y) = (event.column, event.row);
            let inside = |r: Rect|
                r.x <= x && x < r.x + r.width && r.y <= y && y < r.y + r.height;
            let next = app.moused(event, areas);
            let left = event.kind == MouseEventKind::Down(MouseButton::Left);
            let (m, b, u, i) = (
                inside(areas.message_area),
                inside(areas.book_area),
                inside(areas.user_area),
                inside(areas.input_area),
            );
            &&& left && m ==> next == (App { active_panel: ActivePanel::Messages, ..app })
            &&& left && b && !m ==> next == (App { active_panel: ActivePanel::Books, ..app })
            &&& left && u && !m && !b ==> next == (App { active_panel: ActivePanel::Users, ..app })
            &&& left && i && !m && !b && !u ==> next == (App {
                active_panel: ActivePanel::Input,
                cursor_position: next.cursor_position,
                ..app
            })
            &&& left && !m && !b && !u && !i ==> next == app
            &&& event.kind == MouseEventKind::Down(MouseButton::Right) || event.kind
                == MouseEventKind::Down(MouseButton::Middle) || event.kind == MouseEventKind::Other
                ==> next == app
        }),
{
}

/// The cursor goes before the character in the column of a click, counted from the first
/// column within the border.
pub proof fn law_clicks_place_the_cursor(
    app: App,
    event: MouseEvent,
    areas: Areas,
    head: Seq<char>,
    tail: Seq<char>,
)
    requires
        event.kind == MouseEventKind::Down(MouseButton::Left),
        areas.pane_at(event.column, event.row) == Some(ActivePanel::Input),
        app.input@ == head + tail,
        text::byte_length(app.input@) <= usize::MAX,
        event.column == areas.input_area.x + 1 + head.len() || (event.column
            > areas.input_area.x + 1 + head.len() && tail.len() == 0) || (event.column
            <= areas.input_area.x && head.len() == 0),
    ensures
        app.moused(event, areas).cursor_position == text::byte_length(head),
{
    let k = smaller(
        less(event.column as nat, (areas.input_area.x + 1) as nat),
        app.input@.len(),
    );
    assert(k == head.len());
    assert(app.input@.take(k as int) =~= head);
    text::law_byte_length(head, tail, 'x');
}

/// The wheel scrolls the active pane by one line, within its limits, and nothing while the
/// input is active.
pub proof fn law_wheel_scrolls_by_a_line(app: App, event: MouseEvent, areas: Areas)
    requires
        event.kind == MouseEventKind::ScrollDown || event.kind == MouseEventKind::ScrollUp,
        app.message_scroll <= app.max_scroll,
        app.book_list@.len() <= usize::MAX,
        app.user_list@.len() <= usize::MAX,
    ensures
        ({
            let next = app.moused(event, areas);
            let down = event.kind == MouseEventKind::ScrollDown;
            &&& app.active_panel == ActivePanel::Input ==> next == app
            &&& app.active_panel == ActivePanel::Messages ==> {
                &&& next == (App {
                    message_scroll: next.message_scroll,
                    message_scroll_state: next.message_scroll_state,
                    ..app
                })
                &&& down && app.message_scroll > 0 ==> next.message_scroll == app.message_scroll - 1
                &&& down && app.message_scroll == 0 ==> next.message_scroll == 0
                &&& !down && app.message_scroll < app.max_scroll ==> next.message_scroll
                    == app.message_scroll + 1
                &&& !down && app.message_scroll == app.max_scroll ==> next.message_scroll
                    == app.max_scroll
            }
            &&& app.active_panel == ActivePanel::Books ==> {
                &&& next == (App {
                    book_scroll: next.book_scroll,
                    book_scroll_state: next.book_scroll_state,
                    ..app
                })
                &&& next.book_scroll_state.position == next.book_scroll
                &&& down && app.book_scroll + 1 < app.book_list@.len() ==> next.book_scroll
                    == app.book_scroll + 1
                &&& down && app.book_scroll + 1 >= app.book_list@.len() && app.book_list@.len() > 0
                    ==> next.book_scroll == app.book_list@.len() - 1
                &&& !down && app.book_scroll > 0 ==> next.book_scroll == app.book_scroll - 1
                &&& !down && app.book_scroll == 0 ==> next.book_scroll == 0
            }
            &&& app.active_panel == ActivePanel::Users ==> {
                &&& next == (App {
                    user_scroll: next.user_scroll,
                    user_scroll_state: next.user_scroll_state,
                    ..app
                })
                &&& next.user_scroll_state.position == next.user_scroll
                &&& down && app.user_scroll + 1 < app.user_list@.len() ==> next.user_scroll
                    == app.user_scroll + 1
                &&& down && app.user_scroll + 1 >= app.user_list@.len() && app.user_list@.len() > 0
                    ==> next.user_scroll == app.user_list@.len() - 1
                &&& !down && app.user_scroll > 0 ==> next.user_scroll == app.user_scroll - 1
                &&& !down && app.user_scroll == 0 ==> next.user_scroll == 0
            }
        }),
{
}

/// Who comes is added behind the others, unless the name is there already. Who leaves is
/// taken out, and the others stay in their order.
pub proof fn law_users_come_and_leave(
    before: Seq<String>,
    behind: Seq<String>,
    user: String,
    other: String,
)
    requires
        forall|i: int| 0 <= i < before.len() ==> (#[trigger] before[i])@ != user@,
        forall|i: int| 0 <= i < behind.len() ==> (#[trigger] behind[i])@ != user@,
        other@ == user@,
    ensures
        users_with(before, user) == before.push(user),
        users_with(before + seq![other] + behind, user) == before + seq![other] + behind,
        users_without(before + seq![other] + behind, user@) == before + behind,
        users_without(before, user@) == before,
{
    let all = before + seq![other] + behind;
    assert(!text::views(before).contains(user@)) by {
        if text::views(before).contains(user@) {
            let i = choose|i: int|
                0 <= i < text::views(before).len() && text::views(before)[i] == user@;
            assert(before[i]@ == user@);
        }
    }
    assert(text::views(all)[before.len() as int] == user@);
    let keep = |u: String| u@ != user@;
    lemma_all_kept(before, user@);
    lemma_all_kept(behind, user@);
    lemma_kept_apart(before + seq![other], behind, user@);
    lemma_kept_apart(before, seq![other], user@);
    assert(users_without(seq![other], user@) =~= Seq::<String>::empty()) by {
        reveal(Seq::filter);
        assert(seq![other].drop_last() =~= Seq::<String>::empty());
        assert(Seq::<String>::empty().filter(keep) =~= Seq::<String>::empty());
    }
    assert(before + Seq::<String>::empty() =~= before);
}

proof fn lemma_all_kept(list: Seq<String>, user: Seq<char>)
    requires
        forall|i: int| 0 <= i < list.len() ==> (#[trigger] list[i])@ != user,
    ensures
        users_without(list, user) == list,
    decreases list.len(),
{
    reveal(Seq::filter);
    if list.len() > 0 {
        let fewer = list.drop_last();
        assert forall|i: int| 0 <= i < fewer.len() implies (#[trigger] fewer[i])@ != user by {
            assert(fewer[i] == list[i]);
        }
        lemma_all_kept(fewer, user);
        assert(list.last()@ != user);
        assert(fewer.push(list.last()) =~= list);
    }
}

proof fn lemma_kept_apart(a: Seq<String>, b: Seq<String>, user: Seq<char>)
    ensures
        users_without(a + b, user) == users_without(a, user) + users_without(b, user),
    decreases b.len(),
{
    reveal(Seq::filter);
    if b.len() == 0 {
        assert(a + b =~= a);
        assert(users_without(a, user) + users_without(b, user) =~= users_without(a, user));
    } else {
        lemma_kept_apart(a, b.drop_last(), user);
        assert((a + b).drop_last() =~= a + b.drop_last());
        assert((a + b).last() == b.last());
        assert(users_without(a + b, user) =~= users_without(a, user) + users_without(b, user));
    }
}

/// A download that begins is the last one, or takes the place of the first one of the same
/// file. A change to the download of a file changes the first one of that file, and the
/// others stay.
pub proof fn law_downloads_are_found_by_file(
    before: Seq<DownloadProgress>,
    found: DownloadProgress,
    behind: Seq<DownloadProgress>,
    fresh: DownloadProgress,
    change: spec_fn(DownloadProgress) -> DownloadProgress,
)
    requires
        found.filename@ == fresh.filename@,
        forall|i: int| 0 <= i < before.len() ==> (#[trigger] before[i]).filename@ != fresh.filename@,
    ensures
        with_started(before, fresh) == before.push(fresh),
        with_started(before + seq![found] + behind, fresh) == before + seq![fresh] + behind,
        with_changed(before, fresh.filename@, change) == before,
        with_changed(before + seq![found] + behind, fresh.filename@, change) == before + seq![
            change(found),
        ] + behind,
{
    let all = before + seq![found] + behind;
    let n = before.len() as int;
    lemma_download_index(before, fresh.filename@, n);
    assert forall|j: int| 0 <= j < n implies (#[trigger] all[j]).filename@ != fresh.filename@ by {
        assert(all[j] == before[j]);
    }
    lemma_download_index(all, fresh.filename@, n);
    assert(all.update(n, fresh) =~= before + seq![fresh] + behind);
    assert(all.update(n, change(found)) =~= before + seq![change(found)] + behind);
}

/// A message is shown with its time, its type and what it says.
pub proof fn law_messages_are_shown_whole(m: Message)
    ensures
        ("["@ + m.timestamp.text() + "] "@ + m.message_type.prefix_text()).is_prefix_of(m.text()),
        (": "@ + m.content@).is_suffix_of(m.text()),
        m.text().len() == 5 + m.timestamp.text().len() + m.message_type.prefix_text().len()
            + m.content@.len(),
{
    reveal_strlit("[");
    reveal_strlit("] ");
    reveal_strlit(": ");
    let s = m.text();
    let start = "["@ + m.timestamp.text() + "] "@ + m.message_type.prefix_text();
    let end = ": "@ + m.content@;
    assert(s.subrange(0, start.len() as int) =~= start);
    assert(s.subrange(s.len() - end.len(), s.len() as int) =~= end);
}

/// Scrolling a pane sets its scroll and the position of its scrollbar, and nothing else.
pub proof fn law_scrolling_sets_the_scroll(app: App, lines: usize)
    ensures
        ({
            let next = app.scrolled(lines);
            &&& next == (App {
                message_scroll: lines,
                message_scroll_state: next.message_scroll_state,
                ..app
            })
            &&& next.message_scroll_state.position == lines
            &&& next.message_scroll_state.content_length == app.messages.len()
            &&& next.message_scroll_state.viewport_content_length
                == app.message_scroll_state.viewport_content_length
        }),
        ({
            let next = app.books_scrolled(lines);
            &&& next == (App {
                book_scroll: lines,
                book_scroll_state: next.book_scroll_state,
                ..app
            })
            &&& next.book_scroll_state.position == lines
            &&& next.book_scroll_state.content_length == app.book_scroll_state.content_length
        }),
        ({
            let next = app.users_scrolled(lines);
            &&& next == (App {
                user_scroll: lines,
                user_scroll_state: next.user_scroll_state,
                ..app
            })
            &&& next.user_scroll_state.position == lines
            &&& next.user_scroll_state.content_length == app.user_scroll_state.content_length
        }),
{
}

/// What is left of an amount never falls below nothing, and the smaller of two is one of
/// them and above neither.
pub proof fn law_amounts_have_limits(a: nat, b: nat)
    ensures
        less(a, b) + smaller(a, b) == a,
        smaller(a, b) <= a && smaller(a, b) <= b,
        smaller(a, b) == a || smaller(a, b) == b,
{
}

/// A cell lies in a rectangle exactly where its column and row do.
pub proof fn law_cells_of_a_rectangle(r: Rect, x: u16, y: u16)
    ensures
        r.has(x, y) <==> r.x <= x && x < r.x + r.width && r.y <= y && y < r.y + r.height,
        r.x + r.width <= u16::MAX && r.y + r.height <= u16::MAX ==> r.comparable(x, y),
{
}

/// Everyone of the name who leaves is taken out, wherever in the list, and nobody else.
pub proof fn law_users_leave_one_by_one(a: Seq<String>, b: Seq<String>, u: String, user: Seq<char>)
    ensures
        users_without(a + b, user) == users_without(a, user) + users_without(b, user),
        u@ == user ==> users_without(seq![u], user).len() == 0,
        u@ != user ==> users_without(seq![u], user) == seq![u],
        users_without(Seq::empty(), user).len() == 0,
{
    lemma_kept_apart(a, b, user);
    reveal(Seq::filter);
    assert(seq![u].drop_last() =~= Seq::<String>::empty());
    let none = Seq::<String>::empty();
    assert(users_without(none, user) =~= none);
    let keep = |x: String| x@ != user;
    assert(seq![u].filter(keep) == if keep(u) {
        none.filter(keep).push(u)
    } else {
        none.filter(keep)
    });
    assert(u@ != user ==> users_without(seq![u], user) =~= seq![u]);
}

/// The cursor stands behind the characters whose bytes it counts.
pub proof fn law_cursor_counts_characters(app: App, head: Seq<char>, tail: Seq<char>)
    requires
        app.input@ == head + tail,
        app.cursor_position == text::byte_length(head),
    ensures
        app.cursor_index() == head.len(),
{
    text::law_characters_of_a_head(head, tail);
}

/// The active pane is scrolled by the amount that is asked for, as far as it goes, and no
/// other pane is; while the input is active, that is the message pane.
pub proof fn law_active_pane_is_scrolled(app: App, amount: nat)
    requires
        app.message_scroll <= app.max_scroll,
        app.book_list@.len() <= usize::MAX,
        app.user_list@.len() <= usize::MAX,
    ensures
        ({
            let up = app.pane_scrolled_up(amount);
            let down = app.pane_scrolled_down(amount);
            let (books, users) = (app.book_list@.len(), app.user_list@.len());
            &&& app.active_panel == ActivePanel::Books ==> {
                &&& up == app.books_scrolled(up.book_scroll)
                &&& down == app.books_scrolled(down.book_scroll)
                &&& up.book_scroll == app.book_scroll - amount || up.book_scroll == 0
                    && app.book_scroll < amount
                &&& app.book_scroll + amount < books ==> down.book_scroll == app.book_scroll
                    + amount
                &&& app.book_scroll + amount >= books && books > 0 ==> down.book_scroll == books - 1
            }
            &&& app.active_panel == ActivePanel::Users ==> {
                &&& up == app.users_scrolled(up.user_scroll)
                &&& down == app.users_scrolled(down.user_scroll)
                &&& up.user_scroll == app.user_scroll - amount || up.user_scroll == 0
                    && app.user_scroll < amount
                &&& app.user_scroll + amount < users ==> down.user_scroll == app.user_scroll
                    + amount
                &&& app.user_scroll + amount >= users && users > 0 ==> down.user_scroll == users - 1
            }
            &&& app.active_panel == ActivePanel::Messages || app.active_panel == ActivePanel::Input
                ==> {
                &&& up == app.scrolled(up.message_scroll)
                &&& down == app.scrolled(down.message_scroll)
                &&& app.message_scroll + amount <= app.max_scroll ==> up.message_scroll
                    == app.message_scroll + amount
                &&& app.message_scroll + amount > app.max_scroll ==> up.message_scroll
                    == app.max_scroll
                &&& down.message_scroll == app.message_scroll - amount || down.message_scroll == 0
                    && app.message_scroll < amount
            }
        }),
{
}

}
