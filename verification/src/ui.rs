//! Where things are on the screen, and what they say.
//!
//! Drawing is the caller's. The arithmetic a click depends on is here, so that what
//! is drawn and what is hit cannot drift apart.

use ratatui::layout::{Constraint, Layout};
use vstd::prelude::*;
use crate::app::Tab;
use crate::library::{self, clock};
use crate::text::{self, decimal, holds_word, lowered};
use crate::time::Duration;

verus! {

/// A cell of the screen.
#[derive(Debug, Clone, Copy, PartialEq, Eq, Structural)]
pub struct Position {
    pub x: u16,
    pub y: u16,
}

/// An area of the screen.
#[derive(Debug, Clone, Copy, PartialEq, Eq, Structural)]
pub struct Rect {
    pub x: u16,
    pub y: u16,
    pub width: u16,
    pub height: u16,
}

impl Rect {
    /// No area at all.
    pub open spec fn none() -> Rect {
        Rect { x: 0, y: 0, width: 0, height: 0 }
    }

    /// The column after the last.
    pub open spec fn right_edge(self) -> int {
        if self.x + self.width <= u16::MAX {
            self.x + self.width
        } else {
            u16::MAX as int
        }
    }

    /// The row after the last.
    pub open spec fn bottom_edge(self) -> int {
        if self.y + self.height <= u16::MAX {
            self.y + self.height
        } else {
            u16::MAX as int
        }
    }

    /// `pos` lies in the area.
    pub open spec fn holds(self, pos: Position) -> bool {
        self.x <= pos.x < self.right_edge() && self.y <= pos.y < self.bottom_edge()
    }

    /// The area does not run past the last column or row there can be.
    pub open spec fn fits(self) -> bool {
        self.x + self.width <= u16::MAX && self.y + self.height <= u16::MAX
    }

    /// `other` lies within the area.
    pub open spec fn encloses(self, other: Rect) -> bool {
        &&& self.x <= other.x
        &&& self.y <= other.y
        &&& other.x + other.width <= self.x + self.width
        &&& other.y + other.height <= self.y + self.height
    }

    pub fn zero() -> (r: Rect)
        ensures
            r == Rect::none(),
    {
        Rect { x: 0, y: 0, width: 0, height: 0 }
    }

    pub fn right(self) -> (n: u16)
        ensures
            n == self.right_edge(),
    {
        self.x.saturating_add(self.width)
    }

    pub fn bottom(self) -> (n: u16)
        ensures
            n == self.bottom_edge(),
    {
        self.y.saturating_add(self.height)
    }

    /// True when `pos` lies in the area.
    pub fn contains(self, pos: Position) -> (b: bool)
        ensures
            b == self.holds(pos),
    {
        self.x <= pos.x && pos.x < self.right() && self.y <= pos.y && pos.y < self.bottom()
    }
}

// ---------------------------------------------------------------------------
// Cutting areas up
// ---------------------------------------------------------------------------

/// How long a part of an area is to be.
#[derive(Debug, Clone, Copy, PartialEq, Eq, Structural)]
pub enum Limit {
    /// This or more.
    Min(u16),
    Length(u16),
    /// Of the whole area.
    Percentage(u16),
}

/// `parts` is a way to cut `area` into rows, from the top, by `limits`.
pub uninterp spec fn cuts_down(area: Rect, limits: Seq<Limit>, parts: Seq<Rect>) -> bool;

/// `parts` is a way to cut `area` into columns, from the left, by `limits`.
pub uninterp spec fn cuts_across(area: Rect, limits: Seq<Limit>, parts: Seq<Rect>) -> bool;

/// `ratatui::layout::Layout::vertical`, split over `area`. Which of several ways that
/// suit the limits is taken is up to its solver. Whichever it is, there is a part to
/// every limit, as wide as the area and within it.
#[verifier::external_body]
fn down(area: Rect, limits: &Vec<Limit>) -> (parts: Vec<Rect>)
    requires
        area.fits(),
    ensures
        cuts_down(area, limits@, parts@),
        parts@.len() == limits@.len(),
        forall|i: int|
            0 <= i < parts@.len() ==> area.encloses(#[trigger] parts@[i]) && parts@[i].x == area.x
                && parts@[i].width == area.width,
{
    let limits = limits.iter().map(|limit| match limit {
        Limit::Min(n) => Constraint::Min(*n),
        Limit::Length(n) => Constraint::Length(*n),
        Limit::Percentage(n) => Constraint::Percentage(*n),
    });
    let whole = ratatui::layout::Rect::new(area.x, area.y, area.width, area.height);
    let parts = Layout::vertical(limits).split(whole);
    parts.iter().map(|r| Rect { x: r.x, y: r.y, width: r.width, height: r.height }).collect()
}

/// `ratatui::layout::Layout::horizontal`, split over `area`. Which of several ways
/// that suit the limits is taken is up to its solver. Whichever it is, there is a part
/// to every limit, as high as the area and within it.
#[verifier::external_body]
fn across(area: Rect, limits: &Vec<Limit>) -> (parts: Vec<Rect>)
    requires
        area.fits(),
    ensures
        cuts_across(area, limits@, parts@),
        parts@.len() == limits@.len(),
        forall|i: int|
            0 <= i < parts@.len() ==> area.encloses(#[trigger] parts@[i]) && parts@[i].y == area.y
                && parts@[i].height == area.height,
{
    let limits = limits.iter().map(|limit| match limit {
        Limit::Min(n) => Constraint::Min(*n),
        Limit::Length(n) => Constraint::Length(*n),
        Limit::Percentage(n) => Constraint::Percentage(*n),
    });
    let whole = ratatui::layout::Rect::new(area.x, area.y, area.width, area.height);
    let parts = Layout::horizontal(limits).split(whole);
    parts.iter().map(|r| Rect { x: r.x, y: r.y, width: r.width, height: r.height }).collect()
}

/// The screen: three panes side by side, and a line of help below them.
#[derive(Debug, Clone, Copy, PartialEq, Eq, Structural)]
pub struct Panes {
    pub main: Rect,
    pub help: Rect,
    pub left: Rect,
    pub middle: Rect,
    pub right: Rect,
}

impl Panes {
    /// These panes are a way to cut `screen` up.
    pub open spec fn cover(self, screen: Rect) -> bool {
        &&& cuts_down(screen, seq![Limit::Min(0), Limit::Length(1)], seq![self.main, self.help])
        &&& cuts_across(
            self.main,
            seq![Limit::Percentage(24), Limit::Percentage(44), Limit::Percentage(32)],
            seq![self.left, self.middle, self.right],
        )
        &&& screen.encloses(self.main)
        &&& screen.encloses(self.help)
        &&& self.main.encloses(self.left)
        &&& self.main.encloses(self.middle)
        &&& self.main.encloses(self.right)
    }

    pub fn of(screen: Rect) -> (p: Panes)
        requires
            screen.fits(),
        ensures
            p.cover(screen),
    {
        let rows = down(screen, &vec![Limit::Min(0), Limit::Length(1)]);
        let main = rows[0];
        let columns = across(
            main,
            &vec![Limit::Percentage(24), Limit::Percentage(44), Limit::Percentage(32)],
        );
        let p = Panes {
            main,
            help: rows[1],
            left: columns[0],
            middle: columns[1],
            right: columns[2],
        };
        proof {
            assert(rows@ =~= seq![p.main, p.help]);
            assert(columns@ =~= seq![p.left, p.middle, p.right]);
            assert(screen.encloses(rows@[0]) && screen.encloses(rows@[1]));
            assert(main.encloses(columns@[0]) && main.encloses(columns@[1]) && main.encloses(
                columns@[2],
            ));
        }
        p
    }
}

/// What a border one cell wide leaves of an area.
pub open spec fn interior(area: Rect) -> Rect {
    Rect {
        x: if area.width > 0 {
            (area.x + 1) as u16
        } else {
            area.x
        },
        y: if area.height > 0 {
            (area.y + 1) as u16
        } else {
            area.y
        },
        width: if area.width >= 2 {
            (area.width - 2) as u16
        } else {
            0
        },
        height: if area.height >= 2 {
            (area.height - 2) as u16
        } else {
            0
        },
    }
}

/// What a border one cell wide leaves of an area.
pub fn inside_border(area: Rect) -> (r: Rect)
    requires
        area.fits(),
    ensures
        r == interior(area),
        area.encloses(r),
{
    Rect {
        x: if area.width > 0 {
            area.x + 1
        } else {
            area.x
        },
        y: if area.height > 0 {
            area.y + 1
        } else {
            area.y
        },
        width: area.width.saturating_sub(2),
        height: area.height.saturating_sub(2),
    }
}

/// The pane of what is playing: the cover and the lines about the track in the middle
/// of what the controls leave, and the controls below.
#[derive(Debug, Clone, Copy, PartialEq, Eq, Structural)]
pub struct Playing {
    /// The gap above, the row the cover is centred in, the lines about the track, the
    /// gap below, and the controls.
    pub above: Rect,
    pub frame: Rect,
    pub info: Rect,
    pub below: Rect,
    pub controls: Rect,
    /// Exactly where the cover goes.
    pub art: Rect,
    pub progress: Rect,
    pub gap: Rect,
    pub buttons: Rect,
    /// The time, and the bar beside it.
    pub label: Rect,
    pub bar: Rect,
    pub prev: Rect,
    pub play: Rect,
    pub next: Rect,
}

impl Playing {
    /// These areas are a way to cut up a pane with a cover of `art` cells and a time
    /// of `label` columns.
    pub open spec fn cover(self, pane: Rect, art: (u16, u16), label: u16) -> bool {
        &&& cuts_down(
            interior(pane),
            seq![
                Limit::Min(0),
                Limit::Length(art.1),
                Limit::Length(3),
                Limit::Min(0),
                Limit::Length(5),
            ],
            seq![self.above, self.frame, self.info, self.below, self.controls],
        )
        &&& cuts_down(
            self.controls,
            seq![Limit::Length(1), Limit::Length(1), Limit::Length(3)],
            seq![self.progress, self.gap, self.buttons],
        )
        &&& cuts_across(
            self.progress,
            seq![Limit::Length(label), Limit::Min(0)],
            seq![self.label, self.bar],
        )
        &&& cuts_across(
            self.buttons,
            seq![Limit::Length(7), Limit::Min(7), Limit::Length(7)],
            seq![self.prev, self.play, self.next],
        )
        &&& self.art == centred(self.frame, art)
        &&& pane.encloses(self.art)
        &&& pane.encloses(self.info)
        &&& pane.encloses(self.label)
        &&& pane.encloses(self.bar)
        &&& pane.encloses(self.prev)
        &&& pane.encloses(self.play)
        &&& pane.encloses(self.next)
    }

    pub fn of(pane: Rect, art: (u16, u16), label: u16) -> (p: Playing)
        requires
            pane.fits(),
        ensures
            p.cover(pane, art, label),
    {
        let inner = inside_border(pane);
        let rows = down(
            inner,
            &vec![
                Limit::Min(0),
                Limit::Length(art.1),
                Limit::Length(3),
                Limit::Min(0),
                Limit::Length(5),
            ],
        );
        let controls = rows[4];
        assert(inner.encloses(rows@[4]));
        let lines = down(
            controls,
            &vec![Limit::Length(1), Limit::Length(1), Limit::Length(3)],
        );
        let progress = lines[0];
        let buttons = lines[2];
        assert(controls.encloses(lines@[0]) && controls.encloses(lines@[2]));
        let beside = across(progress, &vec![Limit::Length(label), Limit::Min(0)]);
        let keys = across(
            buttons,
            &vec![Limit::Length(7), Limit::Min(7), Limit::Length(7)],
        );
        let frame = rows[1];
        assert(inner.encloses(rows@[1]) && inner.encloses(rows@[2]));
        let p = Playing {
            above: rows[0],
            frame,
            info: rows[2],
            below: rows[3],
            controls,
            art: centre_in(frame, art),
            progress,
            gap: lines[1],
            buttons,
            label: beside[0],
            bar: beside[1],
            prev: keys[0],
            play: keys[1],
            next: keys[2],
        };
        proof {
            assert(rows@ =~= seq![p.above, p.frame, p.info, p.below, p.controls]);
            assert(lines@ =~= seq![p.progress, p.gap, p.buttons]);
            assert(beside@ =~= seq![p.label, p.bar]);
            assert(keys@ =~= seq![p.prev, p.play, p.next]);
            assert(progress.encloses(beside@[0]) && progress.encloses(beside@[1]));
            assert(buttons.encloses(keys@[0]) && buttons.encloses(keys@[1]) && buttons.encloses(
                keys@[2],
            ));
        }
        p
    }
}

/// Which row of a list a list starts at, and which one is highlighted.
#[derive(Debug, Clone, Copy, PartialEq, Eq, Structural)]
pub struct ListState {
    pub selected: Option<usize>,
    pub offset: usize,
}

impl ListState {
    /// Nothing highlighted, shown from the top.
    pub open spec fn fresh() -> ListState {
        ListState { selected: None, offset: 0 }
    }

    /// Shown from the top with one row highlighted.
    pub open spec fn on(row: usize) -> ListState {
        ListState { selected: Some(row), offset: 0 }
    }

    /// With another row highlighted. With none, it is shown from the top again.
    pub open spec fn with(self, row: Option<usize>) -> ListState {
        ListState {
            selected: row,
            offset: if row is None {
                0
            } else {
                self.offset
            },
        }
    }

    pub fn new(selected: Option<usize>) -> (s: ListState)
        ensures
            s == (ListState { selected, offset: 0 }),
    {
        ListState { selected, offset: 0 }
    }

    pub fn select(&mut self, row: Option<usize>)
        ensures
            *final(self) == old(self).with(row),
    {
        self.selected = row;
        if row.is_none() {
            self.offset = 0;
        }
    }
}

/// What is left of an area inside a border one cell wide; nothing when there is no room.
pub open spec fn inner(area: Rect) -> Rect {
    if area.width < 2 || area.height < 2 {
        Rect::none()
    } else {
        Rect {
            x: if area.x < u16::MAX {
                (area.x + 1) as u16
            } else {
                u16::MAX
            },
            y: if area.y < u16::MAX {
                (area.y + 1) as u16
            } else {
                u16::MAX
            },
            width: (area.width - 2) as u16,
            height: (area.height - 2) as u16,
        }
    }
}

/// The data rows of a bordered table with a one-line header.
pub open spec fn data_rows(pane: Rect) -> Rect {
    let i = inner(pane);
    Rect {
        y: if i.y < u16::MAX {
            (i.y + 1) as u16
        } else {
            u16::MAX
        },
        height: if i.height > 0 {
            (i.height - 1) as u16
        } else {
            0
        },
        ..i
    }
}

/// The data rows of a bordered table with a one-line header — what a click on a row
/// has to be tested against.
pub fn rows_area(pane: Rect) -> (r: Rect)
    ensures
        r == data_rows(pane),
{
    let i = if pane.width < 2 || pane.height < 2 {
        Rect::zero()
    } else {
        Rect {
            x: pane.x.saturating_add(1),
            y: pane.y.saturating_add(1),
            width: pane.width - 2,
            height: pane.height - 2,
        }
    };
    Rect {
        x: i.x,
        y: i.y.saturating_add(1),
        width: i.width,
        height: i.height.saturating_sub(1),
    }
}

/// The smaller of two lengths.
pub open spec fn shorter(a: u16, b: u16) -> u16 {
    if a <= b {
        a
    } else {
        b
    }
}

/// Half of what is left over.
pub open spec fn half_gap(outer: u16, inner: u16) -> int {
    if outer >= inner {
        (outer - inner) / 2
    } else {
        0
    }
}

/// A box of `size` in the middle of `area`, or all of it where it is too small.
pub open spec fn centred(area: Rect, size: (u16, u16)) -> Rect {
    Rect {
        x: (area.x + half_gap(area.width, size.0)) as u16,
        y: (area.y + half_gap(area.height, size.1)) as u16,
        width: shorter(size.0, area.width),
        height: shorter(size.1, area.height),
    }
}

/// Centre a box of `size` inside `area`.
pub fn centre_in(area: Rect, size: (u16, u16)) -> (r: Rect)
    requires
        area.fits(),
    ensures
        r == centred(area, size),
        area.encloses(r),
{
    let (width, height) = size;
    Rect {
        x: area.x + area.width.saturating_sub(width) / 2,
        y: area.y + area.height.saturating_sub(height) / 2,
        width: if width <= area.width {
            width
        } else {
            area.width
        },
        height: if height <= area.height {
            height
        } else {
            area.height
        },
    }
}

/// Where a floating input goes: wide enough for a URL, never wider than the screen,
/// and nowhere on a screen too small for it.
pub fn prompt_area(screen: Rect) -> (r: Option<Rect>)
    requires
        screen.fits(),
    ensures
        match r {
            None => screen.width < 4 || screen.height < 3,
            Some(a) => {
                let room = screen.width - 4;
                &&& screen.width >= 4 && screen.height >= 3
                &&& a.width == (if room < 1 {
                    1
                } else if room > 72 {
                    72
                } else {
                    room
                })
                &&& a.height == shorter(5, screen.height)
                &&& a.x == screen.x + (screen.width - a.width) / 2
                &&& a.y == screen.y + (screen.height - a.height) / 3
                &&& screen.encloses(a)
            },
        },
{
    if screen.width < 4 || screen.height < 3 {
        return None;
    }
    let room: u16 = screen.width - 4;
    let width: u16 = if room < 1 {
        1
    } else if room > 72 {
        72
    } else {
        room
    };
    let height: u16 = if screen.height < 5 {
        screen.height
    } else {
        5
    };
    Some(
        Rect {
            x: screen.x + (screen.width - width) / 2,
            y: screen.y + (screen.height - height) / 3,
            width,
            height,
        },
    )
}

/// Where the field and the hint of a floating input go, given where the input is.
pub fn prompt_parts(area: Rect) -> (r: (Rect, Rect))
    requires
        area.fits(),
    ensures
        cuts_down(interior(area), seq![Limit::Length(1), Limit::Min(0)], seq![r.0, r.1]),
        area.encloses(r.0),
        area.encloses(r.1),
{
    let inner = inside_border(area);
    let rows = down(inner, &vec![Limit::Length(1), Limit::Min(0)]);
    proof {
        assert(rows@ =~= seq![rows@[0], rows@[1]]);
        assert(inner.encloses(rows@[0]) && inner.encloses(rows@[1]));
    }
    (rows[0], rows[1])
}

/// The strip the tabs are drawn in: the top of the left pane, or of the two left ones
/// where they are drawn as one.
pub fn strip(tab: Tab, left: Rect, middle: Rect) -> (r: Rect)
    ensures
        r == strip_of(tab, left, middle),
        left.fits() ==> r.y == left.y && r.height == left.height && r.x == left.x,
{
    if tab == Tab::Radio {
        Rect {
            x: left.x,
            y: left.y,
            width: left.width.saturating_add(middle.width),
            height: left.height,
        }
    } else {
        left
    }
}

/// The strip the tabs are drawn in.
pub open spec fn strip_of(tab: Tab, left: Rect, middle: Rect) -> Rect {
    if tab == Tab::Radio {
        Rect {
            width: if left.width + middle.width <= u16::MAX {
                (left.width + middle.width) as u16
            } else {
                u16::MAX
            },
            ..left
        }
    } else {
        left
    }
}

/// Which place a tab has in the strip.
pub open spec fn tab_place(tab: Tab) -> int {
    match tab {
        Tab::Local => 0,
        Tab::Feeds => 1,
        Tab::Radio => 2,
    }
}

/// Where a tab is drawn in the top border of `pane`: one cell for the corner, each
/// label with its padding, and a separator between two. A pane too narrow for all of
/// them shows only the active one, so that no tab looks present but takes no clicks.
pub open spec fn tab_strip(pane: Rect, active: Tab, tab: Tab) -> Rect {
    let x = pane.x + 1;
    let limit = pane.right_edge() - 1;
    if x + 23 <= limit {
        Rect { x: (x + 8 * tab_place(tab)) as u16, y: pane.y, width: 7, height: 1 }
    } else if tab == active && x + 7 <= limit {
        Rect { x: x as u16, y: pane.y, width: 7, height: 1 }
    } else {
        Rect::none()
    }
}

/// Where a tab is drawn.
pub fn tab_area(pane: Rect, active: Tab, tab: Tab) -> (r: Rect)
    ensures
        r == tab_strip(pane, active, tab),
{
    let x: u32 = pane.x as u32 + 1;
    let right: u32 = pane.right() as u32;
    if x + 24 <= right {
        let at: u32 = match tab {
            Tab::Local => 0,
            Tab::Feeds => 1,
            Tab::Radio => 2,
        };
        Rect { x: (x + 8 * at) as u16, y: pane.y, width: 7, height: 1 }
    } else if tab == active && x + 8 <= right {
        Rect { x: x as u16, y: pane.y, width: 7, height: 1 }
    } else {
        Rect::zero()
    }
}

/// Every tab that is drawn lies in the top border of its pane, and no two overlap.
pub proof fn law_tabs_stay_in_their_border(pane: Rect, active: Tab, a: Tab, b: Tab, pos: Position)
    requires
        pane.fits(),
        a != b,
    ensures
        tab_strip(pane, active, a).width > 0 ==> pane.x < tab_strip(pane, active, a).x && tab_strip(
            pane,
            active,
            a,
        ).x + 7 < pane.x + pane.width,
        !(tab_strip(pane, active, a).holds(pos) && tab_strip(pane, active, b).holds(pos)),
{
}

/// The rows of the feed list.
pub open spec fn feed_rows(pane: Rect, feeds: u16) -> Rect {
    Rect { height: shorter(feeds, data_rows(pane).height), ..data_rows(pane) }
}

/// The button below the last feed.
pub open spec fn add_button(pane: Rect, feeds: u16) -> Rect {
    Rect { y: (data_rows(pane).y + feeds) as u16, height: 1, ..data_rows(pane) }
}

/// The mark in the last two columns of the highlighted feed.
pub open spec fn remove_mark(pane: Rect, selected: Option<usize>) -> Rect {
    let rows = data_rows(pane);
    match selected {
        Some(i) => if i < rows.height {
            Rect {
                x: if rows.right_edge() >= 2 {
                    (rows.right_edge() - 2) as u16
                } else {
                    0
                },
                y: (rows.y + i) as u16,
                width: 2,
                height: 1,
            }
        } else {
            Rect::none()
        },
        None => Rect::none(),
    }
}

/// The areas of the feed list: its rows, the button after the last of them, and the
/// mark in the last two columns of the highlighted one.
pub fn feed_areas(pane: Rect, feeds: u16, selected: Option<usize>) -> (r: (Rect, Rect, Rect))
    requires
        data_rows(pane).fits(),
        data_rows(pane).y + feeds <= u16::MAX,
    ensures
        r.0 == feed_rows(pane, feeds),
        r.1 == add_button(pane, feeds),
        r.2 == remove_mark(pane, selected),
{
    let rows = rows_area(pane);
    let list = Rect {
        x: rows.x,
        y: rows.y,
        width: rows.width,
        height: if feeds <= rows.height {
            feeds
        } else {
            rows.height
        },
    };
    let add = Rect { x: rows.x, y: rows.y + feeds, width: rows.width, height: 1 };
    let remove = match selected {
        Some(i) => if i < rows.height as usize {
            Rect {
                x: rows.right().saturating_sub(2),
                y: rows.y + i as u16,
                width: 2,
                height: 1,
            }
        } else {
            Rect::zero()
        },
        None => Rect::zero(),
    };
    (list, add, remove)
}

/// What the lines about the track and the controls leave of a pane for the cover.
pub open spec fn budget(inner: Rect) -> Rect {
    Rect {
        height: if inner.height >= 8 {
            (inner.height - 8) as u16
        } else {
            0
        },
        ..inner
    }
}

/// The rows a cover may have: what the track's lines and the controls leave of the
/// pane.
pub fn art_budget(inner: Rect) -> (r: Rect)
    ensures
        r == budget(inner),
{
    Rect {
        x: inner.x,
        y: inner.y,
        width: inner.width,
        height: inner.height.saturating_sub(8),
    }
}

/// Blank lines above a note of `lines` lines, two more for its heading, in `height`.
pub fn placeholder_top(height: u16, lines: usize) -> (r: usize)
    requires
        lines <= usize::MAX - 2,
    ensures
        r == (if height >= lines + 2 {
            (height - (lines + 2)) / 2
        } else {
            0
        }),
{
    (height as usize).saturating_sub(lines + 2) / 2
}

/// The title of the track pane.
pub fn tracks_title(tab: Tab, feed_loading: bool, tracks_loading: bool, count: usize) -> (r: String)
    ensures
        r@ == (if feed_loading {
            "Episodes — fetching…"@
        } else if tracks_loading {
            "Tracks — scanning…"@
        } else if tab == Tab::Feeds {
            "Episodes ("@ + decimal(count as nat) + ")"@
        } else {
            "Tracks ("@ + decimal(count as nat) + ")"@
        }),
{
    if feed_loading {
        return "Episodes — fetching…".to_owned();
    }
    if tracks_loading {
        return "Tracks — scanning…".to_owned();
    }
    let n = text::print(count as u64);
    if tab == Tab::Feeds {
        text::cat3("Episodes (", n.as_str(), ")")
    } else {
        text::cat3("Tracks (", n.as_str(), ")")
    }
}

/// The time beside the seek bar.
pub fn progress_label(playing: bool, position: Duration, total: Option<Duration>) -> (r: String)
    ensures
        r@ == (match total {
            Some(t) => if playing {
                clock(position) + " / "@ + clock(t) + " "@
            } else {
                "--:-- / --:-- "@
            },
            None => if playing {
                clock(position) + " "@
            } else {
                "--:-- / --:-- "@
            },
        }),
{
    if !playing {
        return "--:-- / --:-- ".to_owned();
    }
    let now = library::fmt_duration(position);
    match total {
        Some(t) => {
            let all = library::fmt_duration(t);
            text::cat4(now.as_str(), " / ", all.as_str(), " ")
        },
        None => text::cat2(now.as_str(), " "),
    }
}

/// What the big button says.
pub fn transport_label(playing: bool) -> (r: (&'static str, &'static str))
    ensures
        playing ==> r.0@ == "⏸"@ && r.1@ == "Pause"@,
        !playing ==> r.0@ == "▶"@ && r.1@ == "Play"@,
{
    if playing {
        ("⏸", "Pause")
    } else {
        ("▶", "Play")
    }
}

/// How many tracks a folder holds, as the folder pane shows it.
pub fn count_label(count: usize) -> (r: String)
    ensures
        r@ == decimal(count as nat) + " ♪"@,
{
    text::cat2(text::print(count as u64).as_str(), " ♪")
}

/// The breadcrumb under the folder pane, with a mark when there is a way back up.
pub fn here_label(here: &str, can_leave: bool) -> (r: String)
    ensures
        r@ == (if can_leave {
            " ⌫ "@ + here@ + " "@
        } else {
            " "@ + here@ + " "@
        }),
{
    if can_leave {
        text::cat3(" ⌫ ", here, " ")
    } else {
        text::cat3(" ", here, " ")
    }
}

/// How a terminal shows pictures.
#[derive(Debug, Clone, Copy, PartialEq, Eq, Structural)]
pub enum Graphics {
    Kitty,
    Iterm,
    Sixel,
    /// Two coloured halves to a cell, which every terminal has.
    Halfblocks,
}

/// How the terminal that goes by `names`, in small letters, shows pictures.
pub open spec fn graphics_of(names: Seq<char>) -> Graphics {
    if holds_word(names, "kitty"@) || holds_word(names, "ghostty"@) {
        Graphics::Kitty
    } else if holds_word(names, "wezterm"@) || holds_word(names, "iterm"@) || holds_word(
        names,
        "konsole"@,
    ) || holds_word(names, "mintty"@) {
        Graphics::Iterm
    } else if holds_word(names, "foot"@) || holds_word(names, "contour"@) || holds_word(
        names,
        "mlterm"@,
    ) || holds_word(names, "sixel"@) {
        Graphics::Sixel
    } else {
        Graphics::Halfblocks
    }
}

/// How a terminal shows pictures, from what the environment calls it. It is not asked:
/// one that never answers would leave a thread behind that takes every keystroke.
pub fn graphics(names: &str) -> (g: Graphics)
    ensures
        g == graphics_of(lowered(names@)),
{
    let lower = text::lower(names);
    let s = lower.as_str();
    if text::contains(s, "kitty") || text::contains(s, "ghostty") {
        Graphics::Kitty
    } else if text::contains(s, "wezterm") || text::contains(s, "iterm") || text::contains(
        s,
        "konsole",
    ) || text::contains(s, "mintty") {
        Graphics::Iterm
    } else if text::contains(s, "foot") || text::contains(s, "contour") || text::contains(
        s,
        "mlterm",
    ) || text::contains(s, "sixel") {
        Graphics::Sixel
    } else {
        Graphics::Halfblocks
    }
}

// ---------------------------------------------------------------------------
// What the places come to
// ---------------------------------------------------------------------------

/// A box in the middle of an area is as large as asked for, as far as there is room, and
/// as far from one side as from the other, to the cell.
pub proof fn law_a_centred_box_is_in_the_middle(area: Rect, size: (u16, u16))
    requires
        area.fits(),
    ensures
        ({
            let r = centred(area, size);
            let left = r.x - area.x;
            let right = area.x + area.width - (r.x + r.width);
            let above = r.y - area.y;
            let below = area.y + area.height - (r.y + r.height);
            &&& size.0 <= area.width ==> r.width == size.0
            &&& size.0 > area.width ==> r.width == area.width
            &&& size.1 <= area.height ==> r.height == size.1
            &&& size.1 > area.height ==> r.height == area.height
            &&& 0 <= left <= right <= left + 1
            &&& 0 <= above <= below <= above + 1
        }),
{
}

/// The tabs stand side by side in their order, with a cell between two, and in a pane
/// too narrow for all only the active one is there.
pub proof fn law_tabs_stand_side_by_side(pane: Rect, active: Tab, tab: Tab)
    requires
        pane.x + pane.width <= u16::MAX,
    ensures
        pane.width >= 25 ==> {
            let local = tab_strip(pane, active, Tab::Local);
            let feeds = tab_strip(pane, active, Tab::Feeds);
            let radio = tab_strip(pane, active, Tab::Radio);
            &&& local.x == pane.x + 1
            &&& feeds.x == local.x + local.width + 1
            &&& radio.x == feeds.x + feeds.width + 1
            &&& radio.x + radio.width < pane.x + pane.width
            &&& local.width == 7 && feeds.width == 7 && radio.width == 7
            &&& local.y == pane.y && feeds.y == pane.y && radio.y == pane.y
            &&& local.height == 1 && feeds.height == 1 && radio.height == 1
        },
        9 <= pane.width < 25 ==> {
            let shown = tab_strip(pane, active, active);
            &&& shown.x == pane.x + 1 && shown.width == 7 && shown.height == 1 && shown.y == pane.y
            &&& tab != active ==> tab_strip(pane, active, tab) == Rect::none()
        },
{
}

/// The rows of a table are inside its border and below its header.
pub proof fn law_rows_are_below_the_header(pane: Rect)
    requires
        pane.fits(),
        pane.width >= 2,
        pane.height >= 3,
    ensures
        data_rows(pane) == (Rect {
            x: (pane.x + 1) as u16,
            y: (pane.y + 2) as u16,
            width: (pane.width - 2) as u16,
            height: (pane.height - 3) as u16,
        }),
{
}

/// The button to add a feed is right below the last feed, and the mark that removes one
/// is at the end of its own row.
pub proof fn law_feeds_have_their_buttons(pane: Rect, feeds: u16, i: usize)
    requires
        pane.fits(),
        pane.width >= 4,
        pane.height >= 3,
        feeds < data_rows(pane).height,
        i < feeds,
    ensures
        ({
            let rows = feed_rows(pane, feeds);
            let add = add_button(pane, feeds);
            let mark = remove_mark(pane, Some(i));
            &&& rows.height == feeds
            &&& rows.y == pane.y + 2
            &&& add.y == rows.y + rows.height
            &&& add.height == 1 && add.x == rows.x && add.width == rows.width
            &&& mark.y == rows.y + i
            &&& mark.height == 1 && mark.width == 2
            &&& mark.x + mark.width == rows.x + rows.width
        }),
        remove_mark(pane, None) == Rect::none(),
{
}

/// The cover gets what the eight lines below it leave.
pub proof fn law_the_cover_gets_the_rest(inner: Rect)
    ensures
        inner.height >= 8 ==> budget(inner).height + 8 == inner.height,
        inner.height < 8 ==> budget(inner).height == 0,
        budget(inner).x == inner.x && budget(inner).y == inner.y && budget(inner).width
            == inner.width,
{
}

proof fn lemma_holds_word(a: Seq<char>, word: Seq<char>, b: Seq<char>)
    ensures
        holds_word(a + word + b, word),
{
    let s = a + word + b;
    let i = a.len() as int;
    assert(s.subrange(i, i + word.len()) =~= word);
}

/// A terminal shows pictures the best way its names promise, wherever the word stands in
/// them; one that promises nothing gets half blocks.
pub proof fn law_pictures_are_shown_as_the_terminal_can(a: Seq<char>, b: Seq<char>, n: Seq<char>)
    ensures
        graphics_of(a + "kitty"@ + b) == Graphics::Kitty,
        graphics_of(a + "ghostty"@ + b) == Graphics::Kitty,
        ({
            let best = holds_word(n, "kitty"@) || holds_word(n, "ghostty"@);
            let good = holds_word(n, "wezterm"@) || holds_word(n, "iterm"@) || holds_word(
                n,
                "konsole"@,
            ) || holds_word(n, "mintty"@);
            let fair = holds_word(n, "foot"@) || holds_word(n, "contour"@) || holds_word(
                n,
                "mlterm"@,
            ) || holds_word(n, "sixel"@);
            &&& graphics_of(n) == Graphics::Kitty <==> best
            &&& graphics_of(n) == Graphics::Iterm <==> good && !best
            &&& graphics_of(n) == Graphics::Sixel <==> fair && !good && !best
        }),
{
    lemma_holds_word(a, "kitty"@, b);
    lemma_holds_word(a, "ghostty"@, b);
}

/// A border takes one cell on each side.
pub proof fn law_a_border_takes_one_cell(area: Rect)
    requires
        area.fits(),
        area.width >= 2,
        area.height >= 2,
    ensures
        interior(area) == (Rect {
            x: (area.x + 1) as u16,
            y: (area.y + 1) as u16,
            width: (area.width - 2) as u16,
            height: (area.height - 2) as u16,
        }),
        inner(area) == interior(area),
        area.encloses(interior(area)),
{
}

} // verus!
