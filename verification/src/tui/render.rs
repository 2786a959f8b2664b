//! What the panes of the terminal show and where they lie.
use ratatui::layout;
use vstd::prelude::*;

use crate::number;
use crate::number::to_decimal;
use crate::text;
use crate::text::{chars_of, count_within, glue2, glue3, glue4, glue5};
use crate::tui;
use crate::tui::app;
use crate::tui::app::{ActivePanel, App, Areas, Message, MessageType, Rect, ScrollbarState};
use crate::tui::download::{DownloadProgress, DownloadStatus};

verus! {

#[derive(Clone, Copy, Debug, PartialEq, Eq, Structural)]
pub enum Color {
    Blue,
    Cyan,
    DarkGray,
    Gray,
    Green,
    LightBlue,
    LightYellow,
    Magenta,
    Red,
    White,
    Yellow,
}

/// How much room a part of the terminal gets.
#[derive(Clone, Copy, Debug, PartialEq, Eq, Structural)]
pub enum Constraint {
    Min(u16),
    Length(u16),
    Percentage(u16),
}

/// The main part and the footer.
pub open spec fn row_constraints() -> Seq<Constraint> {
    seq![Constraint::Min(1), Constraint::Length(4)]
}

/// The server, the middle and the users.
pub open spec fn column_constraints() -> Seq<Constraint> {
    seq![Constraint::Percentage(10), Constraint::Percentage(80), Constraint::Percentage(10)]
}

/// The books and the rest.
pub open spec fn middle_constraints() -> Seq<Constraint> {
    seq![Constraint::Percentage(70), Constraint::Percentage(30)]
}

/// Two downloads and the messages.
pub open spec fn bottom_constraints() -> Seq<Constraint> {
    seq![Constraint::Length(3), Constraint::Length(3), Constraint::Min(1)]
}

/// The input and the help.
pub open spec fn footer_constraints() -> Seq<Constraint> {
    seq![Constraint::Length(3), Constraint::Length(1)]
}

/// The lists of constraints by which the terminal is divided.
pub open spec fn is_list(constraints: Seq<Constraint>) -> bool {
    ||| constraints == row_constraints()
    ||| constraints == column_constraints()
    ||| constraints == middle_constraints()
    ||| constraints == bottom_constraints()
    ||| constraints == footer_constraints()
}

/// The room that a constraint asks for in a length of `size`, in hundredths of a cell; one
/// for a least length asks for what the others leave.
pub open spec fn demand(constraint: Constraint, size: nat) -> nat {
    match constraint {
        Constraint::Min(_) => 0,
        Constraint::Length(n) => 100 * n as nat,
        Constraint::Percentage(p) => p as nat * size,
    }
}

/// The least length of a constraint for one, in hundredths of a cell.
pub open spec fn least(constraint: Constraint) -> nat {
    match constraint {
        Constraint::Min(n) => 100 * n as nat,
        _ => 0,
    }
}

/// What the first `i` of the constraints ask for together.
pub open spec fn demands(constraints: Seq<Constraint>, size: nat, i: nat) -> nat
    decreases i,
{
    if i == 0 {
        0
    } else {
        demands(constraints, size, (i - 1) as nat) + demand(constraints[i - 1], size)
    }
}

/// The least lengths of the first `i` of the constraints together.
pub open spec fn leasts(constraints: Seq<Constraint>, i: nat) -> nat
    decreases i,
{
    if i == 0 {
        0
    } else {
        leasts(constraints, (i - 1) as nat) + least(constraints[i - 1])
    }
}

/// How many of the first `i` of the constraints are for a least length.
pub open spec fn open_ended(constraints: Seq<Constraint>, i: nat) -> nat
    decreases i,
{
    if i == 0 {
        0
    } else {
        open_ended(constraints, (i - 1) as nat) + if constraints[i - 1] is Min {
            1nat
        } else {
            0
        }
    }
}

/// Whether a length of `size` has room for all that the constraints ask for, with at most
/// one of them for a least length.
pub open spec fn has_room(constraints: Seq<Constraint>, size: nat) -> bool {
    let n = constraints.len();
    &&& demands(constraints, size, n) + leasts(constraints, n) <= 100 * size
    &&& open_ended(constraints, n) <= 1
}

/// Where the part with index `i` begins, in hundredths of a cell, when there is no room for
/// all. A least length comes before a fixed one, so the main part keeps its row and so do
/// the messages; the footer and the downloads get what is left. Two parts of fixed length
/// that have to share are made as equal as their lengths allow: the downloads get a half
/// each, and the help gets its row where the input can have as much.
pub open spec fn crowded_start(constraints: Seq<Constraint>, size: nat, i: nat) -> nat {
    if i == 0 {
        0
    } else if i >= constraints.len() {
        100 * size
    } else if constraints == row_constraints() {
        100 * app::smaller(size, 1)
    } else if constraints == bottom_constraints() {
        if i == 1 {
            50 * app::less(size, 1)
        } else {
            100 * app::less(size, 1)
        }
    } else {
        (100 * size - app::smaller(100, 50 * size)) as nat
    }
}

/// Where the part with index `i` begins, in hundredths of a cell: the parts lie one behind
/// the other. Where there is room for all, each gets what it asks for and the one with a
/// least length takes what the others leave.
pub open spec fn part_start(constraints: Seq<Constraint>, size: nat, i: nat) -> nat {
    if !has_room(constraints, size) {
        crowded_start(constraints, size, i)
    } else if open_ended(constraints, i) > 0 {
        (demands(constraints, size, i) + 100 * size - demands(
            constraints,
            size,
            constraints.len(),
        )) as nat
    } else {
        demands(constraints, size, i)
    }
}

/// `n` hundredths in whole cells, halves rounded up.
pub open spec fn cells(n: nat) -> nat {
    (n + 50) / 100
}

/// The length of `area` that is divided. It ends where a coordinate can be no larger.
pub open spec fn extent(vertical: bool, area: Rect) -> nat {
    if vertical {
        (app::smaller((area.y + area.height) as nat, u16::MAX as nat) - area.y) as nat
    } else {
        (app::smaller((area.x + area.width) as nat, u16::MAX as nat) - area.x) as nat
    }
}

/// The part with index `i` of `area`, which is divided into parts one below the other or
/// side by side.
pub open spec fn part(vertical: bool, constraints: Seq<Constraint>, area: Rect, i: int) -> Rect {
    let size = extent(vertical, area);
    let start = cells(part_start(constraints, size, i as nat));
    let end = cells(part_start(constraints, size, (i + 1) as nat));
    if vertical {
        Rect { y: (area.y + start) as u16, height: (end - start) as u16, ..area }
    } else {
        Rect { x: (area.x + start) as u16, width: (end - start) as u16, ..area }
    }
}

/// The parts of `area`.
pub open spec fn parts(vertical: bool, constraints: Seq<Constraint>, area: Rect) -> Seq<Rect> {
    Seq::new(constraints.len(), |i: int| part(vertical, constraints, area, i))
}

/// `Layout::split` with the direction and the constraints given, for the lists by which the
/// terminal is divided: as many parts as there are constraints, each as high as `area` when
/// they lie side by side, or as wide when they lie one below the other. A part begins and
/// ends where the solver of the layout puts it, rounded to whole cells. For these lists the
/// solution that is best by the strengths of the layout is the only one, whether there is
/// room for all that the constraints ask for or not.
#[verifier::external_body]
fn split_area(vertical: bool, constraints: &Vec<Constraint>, area: Rect) -> (r: Vec<Rect>)
    requires
        is_list(constraints@),
    ensures
        r@ == parts(vertical, constraints@, area),
{
    let direction = if vertical { layout::Direction::Vertical } else { layout::Direction::Horizontal };
    let list = constraints.iter().map(|c| match c {
        Constraint::Min(n) => layout::Constraint::Min(*n),
        Constraint::Length(n) => layout::Constraint::Length(*n),
        Constraint::Percentage(n) => layout::Constraint::Percentage(*n),
    });
    let whole = layout::Rect { x: area.x, y: area.y, width: area.width, height: area.height };
    layout::Layout::default().direction(direction).constraints(list).split(whole).iter().map(
        |r| Rect { x: r.x, y: r.y, width: r.width, height: r.height },
    ).collect()
}

/// Where the panes lie.
#[derive(Clone, Copy, Debug, PartialEq, Eq, Structural)]
pub struct Panes {
    pub server: Rect,
    pub books: Rect,
    pub users: Rect,
    pub first_download: Rect,
    pub second_download: Rect,
    pub messages: Rect,
    pub input: Rect,
    pub help: Rect,
}

impl Panes {
    /// The panes that the mouse can hit.
    pub fn areas(&self) -> (areas: Areas)
        ensures
            areas == (Areas {
                message_area: self.messages,
                book_area: self.books,
                user_area: self.users,
                input_area: self.input,
            }),
    {
        Areas {
            message_area: self.messages,
            book_area: self.books,
            user_area: self.users,
            input_area: self.input,
        }
    }
}

/// The main part of the terminal and the footer below it.
pub open spec fn rows_of(size: Rect) -> Seq<Rect> {
    parts(true, row_constraints(), size)
}

/// The server, the middle and the users, side by side in the main part.
pub open spec fn columns_of(size: Rect) -> Seq<Rect> {
    parts(false, column_constraints(), rows_of(size)[0])
}

/// The books and what lies below them in the middle.
pub open spec fn middle_of(size: Rect) -> Seq<Rect> {
    parts(true, middle_constraints(), columns_of(size)[1])
}

/// Where the panes lie in a terminal of this size: below the books two downloads and the
/// messages, in the footer the input and the help.
pub open spec fn panes_of(size: Rect) -> Panes {
    let columns = columns_of(size);
    let middle = middle_of(size);
    let bottom = parts(true, bottom_constraints(), middle[1]);
    let footer = parts(true, footer_constraints(), rows_of(size)[1]);
    Panes {
        server: columns[0],
        books: middle[0],
        users: columns[2],
        first_download: bottom[0],
        second_download: bottom[1],
        messages: bottom[2],
        input: footer[0],
        help: footer[1],
    }
}

/// Where the panes lie in a terminal of this size.
pub fn arrange(size: Rect) -> (panes: Panes)
    ensures
        panes == panes_of(size),
{
    let row_list = vec![Constraint::Min(1), Constraint::Length(4)];
    assert(row_list@ =~= row_constraints());
    let rows = split_area(true, &row_list, size);
    let column_list = vec![
        Constraint::Percentage(10),
        Constraint::Percentage(80),
        Constraint::Percentage(10),
    ];
    assert(column_list@ =~= column_constraints());
    let columns = split_area(false, &column_list, rows[0]);
    let middle_list = vec![Constraint::Percentage(70), Constraint::Percentage(30)];
    assert(middle_list@ =~= middle_constraints());
    let middle = split_area(true, &middle_list, columns[1]);
    let bottom_list = vec![Constraint::Length(3), Constraint::Length(3), Constraint::Min(1)];
    assert(bottom_list@ =~= bottom_constraints());
    let bottom = split_area(true, &bottom_list, middle[1]);
    let footer_list = vec![Constraint::Length(3), Constraint::Length(1)];
    assert(footer_list@ =~= footer_constraints());
    let footer = split_area(true, &footer_list, rows[1]);
    Panes {
        server: columns[0],
        books: middle[0],
        users: columns[2],
        first_download: bottom[0],
        second_download: bottom[1],
        messages: bottom[2],
        input: footer[0],
        help: footer[1],
    }
}

/// How many rows of the terminal the main part has: all but four, and at least one.
pub open spec fn main_rows(height: nat) -> nat {
    if height >= 5 {
        (height - 4) as nat
    } else {
        app::smaller(height, 1)
    }
}

/// How many rows the input has in a footer of `rows` rows: all but the last, which the help
/// has, and the only one where there is one.
pub open spec fn input_rows(rows: nat) -> nat {
    if rows <= 1 {
        rows
    } else {
        (rows - 1) as nat
    }
}

/// Whether the panes lie in the terminal as they should, with `rest` below the books. The
/// main part keeps all rows of the terminal but the last four, which the input and the help
/// have, and at least one. In the main part the server has a tenth of the columns on the
/// left, the users have a tenth on the right, and of the middle the books have seven tenths
/// of the rows.
pub open spec fn placed(size: Rect, panes: Panes, rest: Rect) -> bool {
    let rows = main_rows(size.height as nat);
    let foot = (size.height - rows) as nat;
    let input = input_rows(foot);
    let left = cells(10 * size.width as nat);
    let right = cells(90 * size.width as nat);
    let books = cells(70 * rows);
    let middle = Rect {
        x: (size.x + left) as u16,
        y: size.y,
        width: (right - left) as u16,
        height: rows as u16,
    };
    &&& panes.input == (Rect { y: (size.y + rows) as u16, height: input as u16, ..size })
    &&& panes.help == (Rect {
        y: (size.y + rows + input) as u16,
        height: (foot - input) as u16,
        ..size
    })
    &&& panes.server == (Rect { width: left as u16, height: rows as u16, ..size })
    &&& panes.users == (Rect {
        x: (size.x + right) as u16,
        y: size.y,
        width: (size.width - right) as u16,
        height: rows as u16,
    })
    &&& panes.books == (Rect { height: books as u16, ..middle })
    &&& rest == (Rect {
        y: (size.y + books) as u16,
        height: (rows - books) as u16,
        ..middle
    })
}

/// The panes of every terminal lie as they should.
pub proof fn law_panes_of_a_terminal(size: Rect)
    requires
        size.x + size.width <= u16::MAX,
        size.y + size.height <= u16::MAX,
    ensures
        placed(size, panes_of(size), middle_of(size)[1]),
{
    lemma_rows(size);
    lemma_columns(rows_of(size)[0]);
    lemma_middle(columns_of(size)[1]);
    lemma_footer(rows_of(size)[1]);
}

proof fn lemma_rows(area: Rect)
    requires
        area.y + area.height <= u16::MAX,
    ensures
        ({
            let rows = main_rows(area.height as nat);
            let p = parts(true, row_constraints(), area);
            &&& p[0] == (Rect { height: rows as u16, ..area })
            &&& p[1] == (Rect {
                y: (area.y + rows) as u16,
                height: (area.height - rows) as u16,
                ..area
            })
        }),
{
    reveal_with_fuel(demands, 4);
    reveal_with_fuel(leasts, 4);
    reveal_with_fuel(open_ended, 4);
}

proof fn lemma_columns(area: Rect)
    requires
        area.x + area.width <= u16::MAX,
    ensures
        ({
            let left = cells(10 * area.width as nat);
            let right = cells(90 * area.width as nat);
            let p = parts(false, column_constraints(), area);
            &&& p[0] == (Rect { width: left as u16, ..area })
            &&& p[1] == (Rect {
                x: (area.x + left) as u16,
                width: (right - left) as u16,
                ..area
            })
            &&& p[2] == (Rect {
                x: (area.x + right) as u16,
                width: (area.width - right) as u16,
                ..area
            })
        }),
{
    reveal_with_fuel(demands, 4);
    reveal_with_fuel(leasts, 4);
    reveal_with_fuel(open_ended, 4);
    let list = column_constraints();
    let size = area.width as nat;
    assert(list.len() == 3);
    assert(demand(list[0], size) == 10 * size);
    assert(demand(list[1], size) == 80 * size);
    assert(demand(list[2], size) == 10 * size);
    assert(demands(list, size, 1) == 10 * size);
    assert(demands(list, size, 2) == 90 * size);
    assert(demands(list, size, 3) == 100 * size);
    assert(has_room(list, size));
}

proof fn lemma_middle(area: Rect)
    requires
        area.y + area.height <= u16::MAX,
    ensures
        ({
            let books = cells(70 * area.height as nat);
            let p = parts(true, middle_constraints(), area);
            &&& p[0] == (Rect { height: books as u16, ..area })
            &&& p[1] == (Rect {
                y: (area.y + books) as u16,
                height: (area.height - books) as u16,
                ..area
            })
        }),
{
    reveal_with_fuel(demands, 4);
    reveal_with_fuel(leasts, 4);
    reveal_with_fuel(open_ended, 4);
    let list = middle_constraints();
    let size = area.height as nat;
    assert(list.len() == 2);
    assert(demand(list[0], size) == 70 * size);
    assert(demand(list[1], size) == 30 * size);
    assert(demands(list, size, 1) == 70 * size);
    assert(demands(list, size, 2) == 100 * size);
    assert(has_room(list, size));
}

proof fn lemma_footer(area: Rect)
    requires
        area.y + area.height <= u16::MAX,
        area.height <= 4,
    ensures
        ({
            let input = input_rows(area.height as nat);
            let p = parts(true, footer_constraints(), area);
            &&& p[0] == (Rect { height: input as u16, ..area })
            &&& p[1] == (Rect {
                y: (area.y + input) as u16,
                height: (area.height - input) as u16,
                ..area
            })
        }),
{
    reveal_with_fuel(demands, 4);
    reveal_with_fuel(leasts, 4);
    reveal_with_fuel(open_ended, 4);
}

/// How many of `rows` rows below the books the first download has: three, or a half of what
/// the messages leave, rounded up.
pub open spec fn first_rows(rows: nat) -> nat {
    if rows >= 7 {
        3
    } else {
        cells(50 * app::less(rows, 1))
    }
}

/// How many of `rows` rows below the books the downloads have: six, or all but one.
pub open spec fn download_rows(rows: nat) -> nat {
    if rows >= 7 {
        6
    } else {
        app::less(rows, 1)
    }
}

/// Whether the downloads and the messages lie as they should in `rest`, the part below the
/// books: the downloads have three rows each and the messages have the others. Where that
/// would leave the messages none, they have one and the downloads share the others.
pub open spec fn stacked(rest: Rect, panes: Panes) -> bool {
    let first = first_rows(rest.height as nat);
    let both = download_rows(rest.height as nat);
    &&& panes.first_download == (Rect { height: first as u16, ..rest })
    &&& panes.second_download == (Rect {
        y: (rest.y + first) as u16,
        height: (both - first) as u16,
        ..rest
    })
    &&& panes.messages == (Rect {
        y: (rest.y + both) as u16,
        height: (rest.height - both) as u16,
        ..rest
    })
}

/// In every terminal the panes below the books lie as they should.
pub proof fn law_panes_below_the_books(size: Rect)
    requires
        size.x + size.width <= u16::MAX,
        size.y + size.height <= u16::MAX,
    ensures
        stacked(middle_of(size)[1], panes_of(size)),
{
    law_panes_of_a_terminal(size);
    lemma_bottom(middle_of(size)[1]);
}

proof fn lemma_bottom(area: Rect)
    requires
        area.y + area.height <= u16::MAX,
    ensures
        ({
            let first = first_rows(area.height as nat);
            let both = download_rows(area.height as nat);
            let p = parts(true, bottom_constraints(), area);
            &&& p[0] == (Rect { height: first as u16, ..area })
            &&& p[1] == (Rect {
                y: (area.y + first) as u16,
                height: (both - first) as u16,
                ..area
            })
            &&& p[2] == (Rect {
                y: (area.y + both) as u16,
                height: (area.height - both) as u16,
                ..area
            })
        }),
{
    reveal_with_fuel(demands, 4);
    reveal_with_fuel(leasts, 4);
    reveal_with_fuel(open_ended, 4);
}

/// A click anywhere can be told to lie in a pane or not.
pub proof fn law_panes_can_be_hit(size: Rect, areas: Areas, x: u16, y: u16)
    requires
        size.x + size.width <= u16::MAX,
        size.y + size.height <= u16::MAX,
        areas == (Areas {
            message_area: panes_of(size).messages,
            book_area: panes_of(size).books,
            user_area: panes_of(size).users,
            input_area: panes_of(size).input,
        }),
    ensures
        areas.comparable(x, y),
{
    law_panes_of_a_terminal(size);
    law_panes_below_the_books(size);
}

impl Panes {
    /// All panes.
    pub open spec fn list(self) -> Seq<Rect> {
        seq![
            self.server,
            self.books,
            self.users,
            self.first_download,
            self.second_download,
            self.messages,
            self.input,
            self.help,
        ]
    }
}

/// Whether the cell lies in one of the panes, and in no other.
pub open spec fn in_one(panes: Seq<Rect>, x: u16, y: u16) -> bool {
    &&& exists|i: int| 0 <= i < panes.len() && (#[trigger] panes[i]).has(x, y)
    &&& forall|i: int, j: int|
        0 <= i < panes.len() && 0 <= j < panes.len() && (#[trigger] panes[i]).has(x, y) && (
        #[trigger] panes[j]).has(x, y) ==> i == j
}

/// Every cell of the terminal lies in one pane, and in no other.
pub proof fn law_panes_share_the_terminal(size: Rect, x: u16, y: u16)
    requires
        size.x + size.width <= u16::MAX,
        size.y + size.height <= u16::MAX,
        size.has(x, y),
    ensures
        in_one(panes_of(size).list(), x, y),
{
    law_panes_of_a_terminal(size);
    law_panes_below_the_books(size);
    lemma_in_one(size, panes_of(size), middle_of(size)[1], x, y);
}

proof fn lemma_in_one(size: Rect, p: Panes, rest: Rect, x: u16, y: u16)
    requires
        size.x + size.width <= u16::MAX,
        size.y + size.height <= u16::MAX,
        size.has(x, y),
        placed(size, p, rest),
        stacked(rest, p),
    ensures
        in_one(p.list(), x, y),
{
    let k = lemma_cell(size, p, rest, x, y);
    lemma_hit(p.list(), x, y, k);
}

proof fn lemma_cell(size: Rect, p: Panes, rest: Rect, x: u16, y: u16) -> (k: int)
    requires
        size.x + size.width <= u16::MAX,
        size.y + size.height <= u16::MAX,
        size.has(x, y),
        placed(size, p, rest),
        stacked(rest, p),
    ensures
        0 <= k < 8,
        p.server.has(x, y) == (k == 0),
        p.books.has(x, y) == (k == 1),
        p.users.has(x, y) == (k == 2),
        p.first_download.has(x, y) == (k == 3),
        p.second_download.has(x, y) == (k == 4),
        p.messages.has(x, y) == (k == 5),
        p.input.has(x, y) == (k == 6),
        p.help.has(x, y) == (k == 7),
{
    let rows = main_rows(size.height as nat);
    let books = cells(70 * rows);
    let input = input_rows((size.height - rows) as nat);
    let left = x - size.x < cells(10 * size.width as nat);
    let right = x - size.x >= cells(90 * size.width as nat);
    let row = y - size.y;
    let first = books + first_rows(rest.height as nat);
    let both = books + download_rows(rest.height as nat);
    if row >= rows + input {
        7
    } else if row >= rows {
        6
    } else if left {
        0
    } else if right {
        2
    } else if row < books {
        1
    } else if row < first {
        3
    } else if row < both {
        4
    } else {
        5
    }
}

proof fn lemma_hit(list: Seq<Rect>, x: u16, y: u16, k: int)
    requires
        list.len() == 8,
        0 <= k < 8,
        list[0].has(x, y) == (k == 0),
        list[1].has(x, y) == (k == 1),
        list[2].has(x, y) == (k == 2),
        list[3].has(x, y) == (k == 3),
        list[4].has(x, y) == (k == 4),
        list[5].has(x, y) == (k == 5),
        list[6].has(x, y) == (k == 6),
        list[7].has(x, y) == (k == 7),
    ensures
        in_one(list, x, y),
{
    assert(list[k].has(x, y));
}

/// Where the scrollbar of a pane lies: in its last column, within its border.
pub fn scrollbar_area(area: Rect) -> (bar: Rect)
    requires
        area.x + app::less(area.width as nat, 1) <= u16::MAX,
        area.y + 1 <= u16::MAX,
    ensures
        bar.x == area.x + app::less(area.width as nat, 1),
        bar.y == area.y + 1,
        bar.width == 1,
        bar.height == app::less(area.height as nat, 2),
{
    Rect {
        x: area.x + area.width.saturating_sub(1),
        y: area.y + 1,
        width: 1,
        height: area.height.saturating_sub(2),
    }
}

/// A pane with a list of lines.
pub struct ListPane {
    pub title: String,
    pub border: Color,
    pub items: Vec<String>,
    pub color: Color,
    pub scrollbar: bool,
}

/// What the pane about the server shows.
pub fn server_pane(app: &App) -> (pane: ListPane)
    ensures
        pane.title@ == "Server: "@ + app.config.server@,
        pane.border == Color::Blue,
        text::views(pane.items@) == seq![
            if app.connected {
                "Connected"@
            } else {
                "Disconnected"@
            },
            app.current_channel@,
            "/j join"@,
            "/q quit"@,
        ],
        pane.color == Color::Cyan,
        !pane.scrollbar,
{
    let status = if app.connected {
        "Connected"
    } else {
        "Disconnected"
    };
    let mut items: Vec<String> = Vec::new();
    items.push(status.to_owned());
    items.push(app.current_channel.clone());
    items.push("/j join".to_owned());
    items.push("/q quit".to_owned());
    assert(text::views(items@) =~= seq![
        status@,
        app.current_channel@,
        "/j join"@,
        "/q quit"@,
    ]);
    ListPane {
        title: glue2("Server: ", app.config.server.as_str()),
        border: Color::Blue,
        items,
        color: Color::Cyan,
        scrollbar: false,
    }
}

/// The number of items that a pane shows of `total`, scrolled to `scroll`.
pub open spec fn shown_count(total: nat, scroll: nat, viewport: nat) -> nat {
    app::smaller(app::less(total, scroll), viewport)
}

/// The lines of the book list that the pane shows, each with its index.
pub open spec fn numbered_books(books: Seq<String>, scroll: nat, viewport: nat) -> Seq<Seq<char>> {
    Seq::new(
        shown_count(books.len(), scroll, viewport),
        |i: int| tui::numbered((scroll + i) as nat, books[scroll + i]@),
    )
}

/// The book-list lines as shown in the pane: each prefixed with its absolute
/// index so it matches the `/<n>` request command and stays correct while
/// the pane is scrolled.
pub fn visible_numbered_books(books: &[String], scroll: usize, viewport: usize) -> (lines: Vec<
    String,
>)
    ensures
        text::views(lines@) == numbered_books(books@, scroll as nat, viewport as nat),
{
    let ghost all = numbered_books(books@, scroll as nat, viewport as nat);
    let total: usize = books.len();
    let mut lines: Vec<String> = Vec::new();
    let mut i: usize = scroll;
    while i < total && lines.len() < viewport
        invariant
            total == books@.len(),
            all == numbered_books(books@, scroll as nat, viewport as nat),
            scroll <= i,
            i == scroll + lines@.len(),
            lines@.len() <= all.len(),
            text::views(lines@) == all.take(lines@.len() as int),
        decreases total - i,
    {
        let ghost known = text::views(lines@);
        let line = glue3(to_decimal(i as u64).as_str(), ": ", books[i].as_str());
        lines.push(line);
        proof {
            let k = i - scroll;
            assert(line@ == all[k]);
            assert(text::views(lines@) =~= known.push(line@));
            assert(all.take(k + 1) =~= all.take(k).push(all[k]));
        }
        i = i + 1;
    }
    assert(all.take(lines@.len() as int) =~= all);
    lines
}

/// The number before a line of the book list is the one that requests it.
pub proof fn law_shown_number_requests_the_book(books: Seq<String>, scroll: nat, viewport: nat, i: int)
    requires
        0 <= i < numbered_books(books, scroll, viewport).len(),
        books.len() <= usize::MAX,
    ensures
        numbered_books(books, scroll, viewport)[i] == tui::numbered(
            (scroll + i) as nat,
            books[scroll + i]@,
        ),
        crate::commands::requested_entry(seq!['/'] + number::decimal((scroll + i) as nat)) == Some(
            (scroll + i) as nat,
        ),
        scroll + i < books.len(),
{
    crate::commands::law_entry_requested_by_number((scroll + i) as nat);
}

/// The colour of the border of a pane: that of an active one, or its own.
pub open spec fn border_color(active: bool, own: Color) -> Color {
    if active {
        Color::LightBlue
    } else {
        own
    }
}

fn border(active: bool, own: Color) -> (color: Color)
    ensures
        color == border_color(active, own),
{
    if active {
        Color::LightBlue
    } else {
        own
    }
}

/// The number of lines within the border of a pane.
pub open spec fn viewport_of(area: Rect) -> nat {
    app::less(area.height as nat, 2)
}

/// What the pane with the book list shows, once its scroll fits.
pub fn book_pane(app: &mut App, area: Rect) -> (pane: ListPane)
    ensures
        *final(app) == (App {
            book_scroll: app::smaller(
                old(app).book_scroll as nat,
                app::less(old(app).book_list@.len(), viewport_of(area)),
            ) as usize,
            book_scroll_state: ScrollbarState {
                content_length: old(app).book_list.len(),
                ..old(app).book_scroll_state
            },
            ..*old(app)
        }),
        pane.title@ == "Book list"@,
        pane.border == border_color(
            old(app).active_panel == ActivePanel::Books,
            Color::LightYellow,
        ),
        text::views(pane.items@) == numbered_books(
            old(app).book_list@,
            final(app).book_scroll as nat,
            viewport_of(area),
        ),
        pane.color == Color::LightYellow,
        pane.scrollbar == (old(app).book_list@.len() > 0),
{
    let viewport: usize = (area.height as usize).saturating_sub(2);
    app.update_book_scroll(viewport);
    let items = visible_numbered_books(app.book_list.as_slice(), app.book_scroll, viewport);
    ListPane {
        title: "Book list".to_owned(),
        border: border(app.active_panel == ActivePanel::Books, Color::LightYellow),
        items,
        color: Color::LightYellow,
        scrollbar: app.book_list.len() > 0,
    }
}

/// The users that the pane shows.
pub open spec fn visible_users(users: Seq<String>, scroll: nat, viewport: nat) -> Seq<Seq<char>> {
    Seq::new(shown_count(users.len(), scroll, viewport), |i: int| users[scroll + i]@)
}

/// What the pane with the users shows, once its scroll fits.
pub fn user_pane(app: &mut App, area: Rect) -> (pane: ListPane)
    ensures
        *final(app) == (App {
            user_scroll: app::smaller(
                old(app).user_scroll as nat,
                app::less(old(app).user_list@.len(), viewport_of(area)),
            ) as usize,
            user_scroll_state: ScrollbarState {
                content_length: old(app).user_list.len(),
                ..old(app).user_scroll_state
            },
            ..*old(app)
        }),
        pane.title@ == "Users"@,
        pane.border == border_color(old(app).active_panel == ActivePanel::Users, Color::Red),
        text::views(pane.items@) == visible_users(
            old(app).user_list@,
            final(app).user_scroll as nat,
            viewport_of(area),
        ),
        pane.color == Color::Red,
        pane.scrollbar == (old(app).user_list@.len() > 0),
{
    let viewport: usize = (area.height as usize).saturating_sub(2);
    app.update_user_scroll(viewport);
    let ghost all = visible_users(app.user_list@, app.user_scroll as nat, viewport as nat);
    let total: usize = app.user_list.len();
    let mut items: Vec<String> = Vec::new();
    let mut i: usize = app.user_scroll;
    while i < total && items.len() < viewport
        invariant
            total == app.user_list@.len(),
            all == visible_users(app.user_list@, app.user_scroll as nat, viewport as nat),
            i == app.user_scroll + items@.len(),
            items@.len() <= all.len(),
            text::views(items@) == all.take(items@.len() as int),
        decreases total - i,
    {
        let ghost known = text::views(items@);
        let user = app.user_list[i].clone();
        items.push(user);
        proof {
            let k = i - app.user_scroll;
            assert(text::views(items@) =~= known.push(user@));
            assert(all.take(k + 1) =~= all.take(k).push(all[k]));
        }
        i = i + 1;
    }
    assert(all.take(items@.len() as int) =~= all);
    ListPane {
        title: "Users".to_owned(),
        border: border(app.active_panel == ActivePanel::Users, Color::Red),
        items,
        color: Color::Red,
        scrollbar: app.user_list.len() > 0,
    }
}

/// A pane with a gauge, or without one where there is no download.
pub struct GaugePane {
    pub title: String,
    pub border: Color,
    pub percent: Option<u16>,
}

/// The word for the status of a download.
pub open spec fn status_text(status: DownloadStatus) -> Seq<char> {
    match status {
        DownloadStatus::Starting => "Starting"@,
        DownloadStatus::InProgress => "In Progress"@,
        DownloadStatus::Completed => "Completed"@,
        DownloadStatus::Failed(_) => "Failed"@,
        DownloadStatus::Extracting => "Extracting"@,
    }
}

/// The colour of the border of a download.
pub open spec fn status_color(status: DownloadStatus) -> Color {
    match status {
        DownloadStatus::Completed => Color::Green,
        DownloadStatus::Failed(_) => Color::Red,
        DownloadStatus::Extracting => Color::Yellow,
        _ => Color::Blue,
    }
}

/// Whether `pane` shows the download with index `back` from the newest, if there is one.
pub open spec fn shows_download(
    downloads: Seq<DownloadProgress>,
    back: nat,
    pane: GaugePane,
) -> bool {
    if back < downloads.len() {
        let download = downloads[downloads.len() - 1 - back];
        &&& pane.title@ == download.filename@ + " ("@ + status_text(download.status) + ")"@
        &&& pane.border == status_color(download.status)
        &&& pane.percent == Some(download.progress)
    } else {
        &&& pane.title@ == "No active downloads"@
        &&& pane.border == Color::DarkGray
        &&& pane.percent is None
    }
}

/// What the pane for the download with index `back` from the newest shows.
pub fn download_pane(app: &App, back: usize) -> (pane: GaugePane)
    ensures
        shows_download(app.downloads@, back as nat, pane),
{
    if back < app.downloads.len() {
        let download = &app.downloads[app.downloads.len() - 1 - back];
        let status = match &download.status {
            DownloadStatus::Starting => "Starting",
            DownloadStatus::InProgress => "In Progress",
            DownloadStatus::Completed => "Completed",
            DownloadStatus::Failed(_) => "Failed",
            DownloadStatus::Extracting => "Extracting",
        };
        let color = match &download.status {
            DownloadStatus::Completed => Color::Green,
            DownloadStatus::Failed(_) => Color::Red,
            DownloadStatus::Extracting => Color::Yellow,
            _ => Color::Blue,
        };
        GaugePane {
            title: glue4(download.filename.as_str(), " (", status, ")"),
            border: color,
            percent: Some(download.progress),
        }
    } else {
        GaugePane {
            title: "No active downloads".to_owned(),
            border: Color::DarkGray,
            percent: None,
        }
    }
}

/// The first line that the message pane shows, where `scroll` counts lines back from the
/// newest.
pub open spec fn top_line(total: nat, viewport: nat, scroll: nat) -> nat {
    app::less(app::less(total, viewport), scroll)
}

/// Top-of-viewport line index for the message scrollbar. The message pane's
/// scroll counts up from the newest line (0 = bottom), so map it to a normal
/// top-down track position: newest → bottom, oldest → top.
pub fn message_scrollbar_position(total: usize, viewport: usize, scroll_from_bottom: usize) -> (p:
    usize)
    ensures
        p == top_line(total as nat, viewport as nat, scroll_from_bottom as nat),
{
    total.saturating_sub(viewport).saturating_sub(scroll_from_bottom)
}

/// The messages that the pane shows, from the first up to but without the second index.
pub open spec fn visible_range(total: nat, viewport: nat, scroll: nat) -> (nat, nat) {
    if total <= viewport {
        (0, total)
    } else {
        (app::less(app::less(total, scroll), viewport), app::less(total, scroll))
    }
}

/// The pane shows as many messages as fit; not scrolled it ends with the newest one,
/// scrolled as far as it goes it begins with the oldest one, and the scrollbar stands at
/// the first message that is shown.
pub proof fn law_message_pane_window(total: nat, viewport: nat, scroll: nat)
    requires
        scroll <= app::less(total, viewport),
    ensures
        ({
            let (start, end) = visible_range(total, viewport, scroll);
            &&& end - start == app::smaller(total, viewport)
            &&& scroll == 0 ==> end == total
            &&& scroll == app::less(total, viewport) ==> start == 0
            &&& start == top_line(total, viewport, scroll)
        }),
{
}

/// The colour of a message.
pub open spec fn type_color(message_type: MessageType) -> Color {
    match message_type {
        MessageType::Sent => Color::Green,
        MessageType::Received => Color::Yellow,
        MessageType::System => Color::White,
        MessageType::Info => Color::Cyan,
        MessageType::Debug => Color::Gray,
        MessageType::Error => Color::Red,
    }
}

fn message_color(message_type: MessageType) -> (color: Color)
    ensures
        color == type_color(message_type),
{
    match message_type {
        MessageType::Sent => Color::Green,
        MessageType::Received => Color::Yellow,
        MessageType::System => Color::White,
        MessageType::Info => Color::Cyan,
        MessageType::Debug => Color::Gray,
        MessageType::Error => Color::Red,
    }
}

/// A line in a colour.
pub struct StyledLine {
    pub text: String,
    pub color: Color,
}

/// The pane with the messages.
pub struct MessagePane {
    pub title: String,
    pub border: Color,
    pub lines: Vec<StyledLine>,
    pub scrollbar: bool,
}

/// The state once the message pane has been fitted to `area`: the scroll is within the
/// limit and the scrollbar up to date.
pub open spec fn messages_fitted(app: App, area: Rect) -> App {
    let total = app.messages@.len();
    let viewport = viewport_of(area);
    let scroll = app::smaller(app.message_scroll as nat, app::less(total, viewport));
    App {
        max_scroll: app::less(total, viewport) as usize,
        message_scroll: scroll as usize,
        message_scroll_state: ScrollbarState {
            content_length: app.messages.len(),
            position: top_line(total, viewport, scroll) as usize,
            viewport_content_length: viewport as usize,
        },
        ..app
    }
}

/// The title of the message pane, which says how far it is scrolled.
pub open spec fn message_title(scroll: nat, max_scroll: nat) -> Seq<char> {
    if scroll > 0 {
        "Messages (\u{2191} "@ + number::decimal(scroll) + "/"@ + number::decimal(max_scroll) + ")"@
    } else {
        "Messages"@
    }
}

/// Whether `lines` show the messages from `start` on.
pub open spec fn shows_messages(
    messages: Seq<Message>,
    start: int,
    end: int,
    lines: Seq<StyledLine>,
) -> bool {
    &&& lines.len() == end - start
    &&& forall|i: int|
        0 <= i < lines.len() ==> {
            let message = messages[start + i];
            (#[trigger] lines[i]).text@ == message.text() && lines[i].color == type_color(
                message.message_type,
            )
        }
}

/// What the pane with the messages shows, once its scroll fits.
pub fn message_pane(app: &mut App, area: Rect) -> (pane: MessagePane)
    ensures
        *final(app) == messages_fitted(*old(app), area),
        pane.title@ == message_title(
            final(app).message_scroll as nat,
            final(app).max_scroll as nat,
        ),
        pane.border == border_color(
            old(app).active_panel == ActivePanel::Messages,
            Color::Magenta,
        ),
        ({
            let (start, end) = visible_range(
                old(app).messages@.len(),
                viewport_of(area),
                final(app).message_scroll as nat,
            );
            shows_messages(old(app).messages@, start as int, end as int, pane.lines@)
        }),
        pane.scrollbar == (old(app).messages@.len() > 0),
{
    let viewport: usize = (area.height as usize).saturating_sub(2);
    app.update_max_scroll(viewport);
    let total: usize = app.messages.len();
    app.message_scroll_state.content_length = total;
    app.message_scroll_state.viewport_content_length = viewport;
    app.message_scroll_state.position = message_scrollbar_position(
        total,
        viewport,
        app.message_scroll,
    );
    let end: usize = if total <= viewport {
        total
    } else {
        total - app.message_scroll
    };
    let start: usize = if total <= viewport {
        0
    } else {
        end.saturating_sub(viewport)
    };
    let mut lines: Vec<StyledLine> = Vec::new();
    let mut i: usize = start;
    while i < end
        invariant
            start <= i <= end <= app.messages@.len(),
            shows_messages(app.messages@, start as int, i as int, lines@),
        decreases end - i,
    {
        let line = StyledLine {
            text: app.messages[i].formatted(),
            color: message_color(app.messages[i].message_type),
        };
        lines.push(line);
        i = i + 1;
    }
    let title = if app.message_scroll > 0 {
        glue5(
            "Messages (\u{2191} ",
            to_decimal(app.message_scroll as u64).as_str(),
            "/",
            to_decimal(app.max_scroll as u64).as_str(),
            ")",
        )
    } else {
        "Messages".to_owned()
    };
    MessagePane {
        title,
        border: border(app.active_panel == ActivePanel::Messages, Color::Magenta),
        lines,
        scrollbar: total > 0,
    }
}

/// The pane with the input and the cell of its cursor.
pub struct InputPane {
    pub title: String,
    pub border: Color,
    pub text: String,
    pub color: Color,
    pub cursor_x: u16,
    pub cursor_y: u16,
}

/// What the pane with the input shows. The cursor stands as many cells behind the border as
/// there are characters before it, of which number the low 16 bits count.
pub fn input_pane(app: &App, area: Rect) -> (pane: InputPane)
    requires
        area.x + 1 + app.cursor_index() % 65536 <= u16::MAX,
        area.y + 1 <= u16::MAX,
    ensures
        pane.title@ == "Input"@,
        pane.border == border_color(app.active_panel == ActivePanel::Input, Color::Green),
        pane.text@ == app.input@,
        pane.color == Color::White,
        pane.cursor_x == area.x + 1 + app.cursor_index() % 65536,
        pane.cursor_y == area.y + 1,
{
    let chars = chars_of(app.input.as_str());
    let column: u16 = (count_within(&chars, app.cursor_position) % 65536) as u16;
    InputPane {
        title: "Input".to_owned(),
        border: border(app.active_panel == ActivePanel::Input, Color::Green),
        text: app.input.clone(),
        color: Color::White,
        cursor_x: area.x + 1 + column,
        cursor_y: area.y + 1,
    }
}

/// A piece of the help line, bold where it is something to type.
pub struct HelpSpan {
    pub text: String,
    pub bold: bool,
}

/// The pieces of the help line, which are bold in turn.
pub open spec fn help_texts() -> Seq<Seq<char>> {
    seq![
        "/j"@,
        ": join | "@,
        "/s query"@,
        ": search | "@,
        "/N"@,
        ": request | "@,
        "PgUp/PgDn/Home/End"@,
        ": scroll | "@,
        "/q"@,
        " or "@,
        "Ctrl+Q"@,
        ": quit"@,
    ]
}

fn push_help(spans: &mut Vec<HelpSpan>, text: &str)
    ensures
        final(spans)@.len() == old(spans)@.len() + 1,
        final(spans)@.last().text@ == text@,
        final(spans)@.last().bold == (old(spans)@.len() % 2 == 0),
        forall|i: int| 0 <= i < old(spans)@.len() ==> final(spans)@[i] == old(spans)@[i],
{
    let bold = spans.len() % 2 == 0;
    spans.push(HelpSpan { text: text.to_owned(), bold });
}

/// The help line.
pub fn help_line() -> (spans: Vec<HelpSpan>)
    ensures
        spans@.len() == help_texts().len(),
        forall|i: int|
            0 <= i < spans@.len() ==> (#[trigger] spans@[i]).text@ == help_texts()[i]
                && spans@[i].bold == (i % 2 == 0),
{
    let mut spans: Vec<HelpSpan> = Vec::new();
    push_help(&mut spans, "/j");
    push_help(&mut spans, ": join | ");
    push_help(&mut spans, "/s query");
    push_help(&mut spans, ": search | ");
    push_help(&mut spans, "/N");
    push_help(&mut spans, ": request | ");
    push_help(&mut spans, "PgUp/PgDn/Home/End");
    push_help(&mut spans, ": scroll | ");
    push_help(&mut spans, "/q");
    push_help(&mut spans, " or ");
    push_help(&mut spans, "Ctrl+Q");
    push_help(&mut spans, ": quit");
    spans
}

/// The pane shows the books from the scroll on, as many as fit, each whole and behind its
/// number in the list.
pub proof fn law_books_are_shown_with_their_numbers(
    books: Seq<String>,
    scroll: nat,
    viewport: nat,
    i: int,
)
    ensures
        ({
            let shown = numbered_books(books, scroll, viewport);
            &&& shown.len() <= viewport
            &&& scroll + shown.len() <= books.len() || shown.len() == 0
            &&& shown.len() == viewport || scroll + shown.len() == books.len() || scroll
                >= books.len()
            &&& 0 <= i < shown.len() ==> shown[i] == number::decimal((scroll + i) as nat) + ": "@
                + books[scroll + i]@
        }),
{
}

/// The pane shows the users from the scroll on, as many as fit, each as in the list.
pub proof fn law_users_are_shown(users: Seq<String>, scroll: nat, viewport: nat, i: int)
    ensures
        ({
            let shown = visible_users(users, scroll, viewport);
            &&& shown.len() <= viewport
            &&& scroll + shown.len() <= users.len() || shown.len() == 0
            &&& shown.len() == viewport || scroll + shown.len() == users.len() || scroll
                >= users.len()
            &&& 0 <= i < shown.len() ==> shown[i] == users[scroll + i]@
        }),
{
}

/// Within the border of a pane lie all its rows but two.
pub proof fn law_borders_take_two_rows(area: Rect)
    ensures
        area.height >= 2 ==> viewport_of(area) == area.height - 2,
        area.height < 2 ==> viewport_of(area) == 0,
{
}

/// Once the message pane is fitted it can be scrolled as far as there are messages that do
/// not fit, and is not scrolled farther; nothing but its scroll changes.
pub proof fn law_message_scroll_is_fitted(app: App, area: Rect)
    requires
        app.messages@.len() <= usize::MAX,
    ensures
        ({
            let next = messages_fitted(app, area);
            let total = app.messages@.len() as int;
            let rows = if area.height >= 2 {
                area.height - 2
            } else {
                0
            };
            &&& next == (App {
                max_scroll: next.max_scroll,
                message_scroll: next.message_scroll,
                message_scroll_state: next.message_scroll_state,
                ..app
            })
            &&& total <= rows ==> next.max_scroll == 0
            &&& total > rows ==> next.max_scroll == total - rows
            &&& next.message_scroll <= next.max_scroll
            &&& next.message_scroll == app.message_scroll || next.message_scroll
                == next.max_scroll && app.message_scroll > next.max_scroll
            &&& next.message_scroll_state.position == next.max_scroll - next.message_scroll
            &&& next.message_scroll_state.viewport_content_length == rows
        }),
{
}

/// The lines of the message pane are the messages one after the other up to the newest that
/// the scroll shows: each is shown whole, and in the colour of its type.
pub proof fn law_messages_are_shown_in_order(
    messages: Seq<Message>,
    viewport: nat,
    scroll: nat,
    lines: Seq<StyledLine>,
)
    requires
        scroll <= app::less(messages.len(), viewport),
        ({
            let (start, end) = visible_range(messages.len(), viewport, scroll);
            shows_messages(messages, start as int, end as int, lines)
        }),
    ensures
        lines.len() == if messages.len() < viewport {
            messages.len()
        } else {
            viewport
        },
        forall|i: int|
            0 <= i < lines.len() ==> {
                let message = messages[messages.len() - scroll - lines.len() + i];
                (#[trigger] lines[i]).text@ == message.text() && lines[i].color
                    == match message.message_type {
                    MessageType::Sent => Color::Green,
                    MessageType::Received => Color::Yellow,
                    MessageType::System => Color::White,
                    MessageType::Info => Color::Cyan,
                    MessageType::Debug => Color::Gray,
                    MessageType::Error => Color::Red,
                }
            },
{
}

/// The panes for downloads show the newest and the one before it, each with its name, status
/// and percentage.
pub proof fn law_newest_downloads_are_shown(
    before: Seq<DownloadProgress>,
    older: DownloadProgress,
    newest: DownloadProgress,
    first: GaugePane,
    second: GaugePane,
    empty: GaugePane,
)
    requires
        shows_download(before.push(older).push(newest), 0, first),
        shows_download(before.push(older).push(newest), 1, second),
        shows_download(seq![newest], 1, empty),
    ensures
        first.percent == Some(newest.progress),
        second.percent == Some(older.progress),
        empty.percent is None,
        (newest.filename@ + " ("@).is_prefix_of(first.title@),
        (older.filename@ + " ("@).is_prefix_of(second.title@),
        newest.status == DownloadStatus::Completed ==> first.title@ == newest.filename@
            + " ("@ + "Completed"@ + ")"@ && first.border == Color::Green,
        newest.status is Failed ==> first.title@ == newest.filename@ + " ("@ + "Failed"@ + ")"@
            && first.border == Color::Red,
        newest.status == DownloadStatus::InProgress ==> first.title@ == newest.filename@
            + " ("@ + "In Progress"@ + ")"@ && first.border == Color::Blue,
        newest.status == DownloadStatus::Starting ==> first.title@ == newest.filename@
            + " ("@ + "Starting"@ + ")"@ && first.border == Color::Blue,
        newest.status == DownloadStatus::Extracting ==> first.title@ == newest.filename@
            + " ("@ + "Extracting"@ + ")"@ && first.border == Color::Yellow,
{
    let all = before.push(older).push(newest);
    assert(all[all.len() - 1] == newest);
    assert(all[all.len() - 2] == older);
    let a = newest.filename@ + " ("@;
    let b = older.filename@ + " ("@;
    assert(first.title@.subrange(0, a.len() as int) =~= a);
    assert(second.title@.subrange(0, b.len() as int) =~= b);
}

/// The title of the message pane says how far it is scrolled, and nothing where it is not.
pub proof fn law_titles_tell_the_scroll(scroll: nat, limit: nat)
    ensures
        message_title(0, limit) == "Messages"@,
        scroll > 0 ==> message_title(scroll, limit) == "Messages (\u{2191} "@ + number::decimal(
            scroll,
        ) + "/"@ + number::decimal(limit) + ")"@,
{
}

/// The border of the active pane has a colour of its own; that of every other pane has the
/// pane's.
pub proof fn law_active_pane_stands_out(own: Color)
    ensures
        border_color(true, own) == Color::LightBlue,
        border_color(false, own) == own,
{
}

/// The main part of a terminal has all rows but the last four, and at least one; the footer
/// has the others, the input above the help. In the main part the first tenth of the columns
/// is the server's and the last tenth the users', and between them the first seven tenths of
/// the rows are the books', each rounded to cells.
pub proof fn law_panes_lie_in_their_places(size: Rect)
    requires
        size.x + size.width <= u16::MAX,
        size.y + size.height <= u16::MAX,
    ensures
        ({
            let p = panes_of(size);
            let main = if size.height >= 5 {
                size.height - 4
            } else if size.height >= 1 {
                1
            } else {
                0
            };
            let foot = size.height - main;
            let left = (10 * size.width + 50) / 100;
            let right = (90 * size.width + 50) / 100;
            let books = (70 * main + 50) / 100;
            let rest = main - books;
            let input = if foot <= 1 {
                foot
            } else {
                foot - 1
            };
            let (first, both) = if rest >= 7 {
                (3int, 6int)
            } else if rest >= 1 {
                (rest / 2, rest - 1)
            } else {
                (0int, 0int)
            };
            &&& p.server.x == size.x && p.server.y == size.y && p.server.width == left
                && p.server.height == main
            &&& p.users.x == size.x + right && p.users.y == size.y && p.users.width == size.width
                - right && p.users.height == main
            &&& p.books.x == size.x + left && p.books.y == size.y && p.books.width == right - left
                && p.books.height == books
            &&& p.first_download.x == p.books.x && p.first_download.y == size.y + books
                && p.first_download.width == p.books.width && p.first_download.height == first
            &&& p.second_download.x == p.books.x && p.second_download.y == size.y + books + first
                && p.second_download.width == p.books.width && p.second_download.height == both
                - first
            &&& p.messages.x == p.books.x && p.messages.y == size.y + books + both
                && p.messages.width == p.books.width && p.messages.height == rest - both
            &&& p.input.x == size.x && p.input.y == size.y + main && p.input.width == size.width
                && p.input.height == input
            &&& p.help.x == size.x && p.help.y == size.y + main + input && p.help.width
                == size.width && p.help.height == foot - input
        }),
{
    law_panes_of_a_terminal(size);
    law_panes_below_the_books(size);
    lemma_places(size, panes_of(size), middle_of(size)[1]);
}

proof fn lemma_places(size: Rect, p: Panes, rest: Rect)
    requires
        size.x + size.width <= u16::MAX,
        size.y + size.height <= u16::MAX,
        placed(size, p, rest),
        stacked(rest, p),
    ensures
        ({
            let main = if size.height >= 5 {
                size.height - 4
            } else if size.height >= 1 {
                1
            } else {
                0
            };
            let foot = size.height - main;
            let left = (10 * size.width + 50) / 100;
            let right = (90 * size.width + 50) / 100;
            let books = (70 * main + 50) / 100;
            let rest = main - books;
            let input = if foot <= 1 {
                foot
            } else {
                foot - 1
            };
            let (first, both) = if rest >= 7 {
                (3int, 6int)
            } else if rest >= 1 {
                (rest / 2, rest - 1)
            } else {
                (0int, 0int)
            };
            &&& p.server.x == size.x && p.server.y == size.y && p.server.width == left
                && p.server.height == main
            &&& p.users.x == size.x + right && p.users.y == size.y && p.users.width == size.width
                - right && p.users.height == main
            &&& p.books.x == size.x + left && p.books.y == size.y && p.books.width == right - left
                && p.books.height == books
            &&& p.first_download.x == p.books.x && p.first_download.y == size.y + books
                && p.first_download.width == p.books.width && p.first_download.height == first
            &&& p.second_download.x == p.books.x && p.second_download.y == size.y + books + first
                && p.second_download.width == p.books.width && p.second_download.height == both
                - first
            &&& p.messages.x == p.books.x && p.messages.y == size.y + books + both
                && p.messages.width == p.books.width && p.messages.height == rest - both
            &&& p.input.x == size.x && p.input.y == size.y + main && p.input.width == size.width
                && p.input.height == input
            &&& p.help.x == size.x && p.help.y == size.y + main + input && p.help.width
                == size.width && p.help.height == foot - input
        }),
{
}

/// The scrollbar of the messages stands at the first one that is shown, and at the top where
/// all fit or the scroll goes back beyond the first.
pub proof fn law_scrollbar_stands_at_the_first_line(total: nat, viewport: nat, scroll: nat)
    ensures
        viewport + scroll <= total ==> top_line(total, viewport, scroll) == total - viewport
            - scroll,
        viewport + scroll > total ==> top_line(total, viewport, scroll) == 0,
{
}

/// The pane for the download that so many others came behind shows its name, status and
/// percentage, in the colour of the status; where there are not so many it shows that there
/// is none.
pub proof fn law_download_panes_show_their_download(
    before: Seq<DownloadProgress>,
    d: DownloadProgress,
    behind: Seq<DownloadProgress>,
    pane: GaugePane,
    back: nat,
    none: GaugePane,
)
    requires
        shows_download(before + seq![d] + behind, behind.len(), pane),
        back >= before.len(),
        shows_download(before, back, none),
    ensures
        pane.percent == Some(d.progress),
        pane.title@ == d.filename@ + " ("@ + match d.status {
            DownloadStatus::Starting => "Starting"@,
            DownloadStatus::InProgress => "In Progress"@,
            DownloadStatus::Completed => "Completed"@,
            DownloadStatus::Failed(_) => "Failed"@,
            DownloadStatus::Extracting => "Extracting"@,
        } + ")"@,
        pane.border == match d.status {
            DownloadStatus::Starting => Color::Blue,
            DownloadStatus::InProgress => Color::Blue,
            DownloadStatus::Completed => Color::Green,
            DownloadStatus::Failed(_) => Color::Red,
            DownloadStatus::Extracting => Color::Yellow,
        },
        none.percent is None && none.title@ == "No active downloads"@ && none.border
            == Color::DarkGray,
{
    let all = before + seq![d] + behind;
    assert(all[all.len() - 1 - behind.len()] == d);
}

}
