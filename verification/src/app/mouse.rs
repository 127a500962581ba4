//! The cursor and the mouse.

use vstd::prelude::*;
use crate::app::{tracks_of, feeds_of, App, AppV, Effect, Pane, Tab};
use crate::app::feeds::{move_by, moved_by};
use crate::remote::{self, has_scheme};
use crate::ui::{Position, Rect};

verus! {

/// The row of a list under `pos`, where `area` shows its rows from `offset` on.
pub open spec fn row_under(area: Rect, offset: usize, len: int, pos: Position) -> Option<usize> {
    let row = offset + (pos.y - area.y);
    if area.holds(pos) && row < len {
        Some(row as usize)
    } else {
        None
    }
}

fn row_in(area: Rect, offset: usize, len: usize, pos: Position) -> (r: Option<usize>)
    ensures
        r == row_under(area, offset, len as int, pos),
{
    if !area.contains(pos) {
        return None;
    }
    let down: usize = (pos.y - area.y) as usize;
    if offset < len && down < len - offset {
        Some(offset + down)
    } else {
        None
    }
}

impl AppV {
    /// Which table's rows sit under `pos`, if any.
    pub open spec fn pane_at(self, pos: Position) -> Option<Pane> {
        if self.areas.folder_rows.holds(pos) {
            Some(Pane::Folders)
        } else if self.areas.track_rows.holds(pos) {
            Some(Pane::Tracks)
        } else {
            None
        }
    }

    /// The row under `pos`, accounting for how far the table is scrolled.
    #[verifier::opaque]
    pub open spec fn row_at(self, pane: Pane, pos: Position) -> Option<usize> {
        match pane {
            Pane::Folders => row_under(
                self.areas.folder_rows,
                self.folder_state.offset,
                self.row_count(),
                pos,
            ),
            Pane::Tracks => row_under(
                self.areas.track_rows,
                self.track_state.offset,
                self.tracks.len() as int,
                pos,
            ),
        }
    }

    /// With another folder highlighted. That rescans it, so nothing is done when it is
    /// highlighted already.
    #[verifier::opaque]
    pub open spec fn folder_selected(self, row: usize) -> AppV {
        if row >= self.row_count() || self.folder_state.selected == Some(row) {
            self
        } else {
            AppV { folder_state: self.folder_state.with(Some(row)), ..self }.touched().reloading()
        }
    }

    pub open spec fn track_highlighted(self, row: usize) -> AppV {
        AppV { track_state: self.track_state.with(Some(row)), ..self }
    }

    /// Moved within the focused pane, whatever the tab puts there.
    #[verifier::opaque]
    pub open spec fn selection_moved(self, delta: int) -> AppV {
        if self.tab == Tab::Feeds && self.focus == Pane::Folders {
            self.feed_moved(delta)
        } else {
            match self.focus {
                Pane::Folders => {
                    let at = match self.folder_state.selected {
                        Some(i) => i as int,
                        None => 0,
                    };
                    AppV {
                        folder_state: self.folder_state.with(
                            Some(moved_by(at, delta, self.row_count())),
                        ),
                        ..self
                    }.reloading()
                },
                Pane::Tracks => self.tracks_scrolled(delta),
            }
        }
    }

    /// The highlight in the track list moved, and no further than its ends.
    pub open spec fn tracks_scrolled(self, delta: int) -> AppV {
        if self.tracks.len() == 0 {
            self
        } else {
            let at = match self.track_state.selected {
                Some(i) => i as int,
                None => 0,
            };
            self.track_highlighted(moved_by(at, delta, self.tracks.len() as int))
        }
    }

    /// Scrolled: the pane under the cursor, which need not be the focused one.
    #[verifier::opaque]
    pub open spec fn scrolled(self, pos: Position, delta: int) -> AppV {
        if self.areas.feed_rows.holds(pos) {
            self.feed_moved(delta)
        } else {
            match self.pane_at(pos) {
                Some(Pane::Folders) => {
                    let at = match self.folder_state.selected {
                        Some(i) => i as int,
                        None => 0,
                    };
                    self.folder_selected(moved_by(at, delta, self.row_count()))
                },
                Some(Pane::Tracks) => self.tracks_scrolled(delta),
                None => self.selection_moved(delta),
            }
        }
    }

    /// How far along the seek bar column `x` sits: so many parts of so many. The
    /// left-most cell is none of them and the right-most all, so that both ends of the
    /// track can be reached.
    pub open spec fn bar_part(self, x: u16) -> (u16, u16) {
        let bar = self.areas.seek_bar;
        if bar.width <= 1 {
            (0, 1)
        } else {
            let span = (bar.width - 1) as u16;
            if x <= bar.x {
                (0, span)
            } else if x - bar.x >= span {
                (span, span)
            } else {
                ((x - bar.x) as u16, span)
            }
        }
    }

    /// With a seek to the column `x` of the bar asked for, when the track has a length.
    pub open spec fn seeking_column(self, x: u16) -> AppV {
        if self.length() is Some {
            let (part, span) = self.bar_part(x);
            self.doing(Effect::SeekFraction(part, span))
        } else {
            self
        }
    }

    /// A drag along the seek bar. Only the row has to match: past either end pins to
    /// that end instead of stopping.
    pub open spec fn dragged(self, pos: Position) -> AppV {
        let bar = self.areas.seek_bar;
        if bar.width == 0 || pos.y < bar.y || pos.y >= bar.bottom_edge() {
            self
        } else {
            self.seeking_column(pos.x)
        }
    }

    #[verifier::opaque]
    pub open spec fn feed_clicked(self, pos: Position) -> AppV {
        let a = self.focused(Pane::Folders);
        let row = row_under(
            a.areas.feed_rows,
            a.feed_state.offset,
            a.feeds.len() as int,
            pos,
        );
        match row {
            Some(row) => if a.feed_state.selected == Some(row) {
                a
            } else {
                AppV { feed_state: a.feed_state.with(Some(row)), ..a }.feed_reloading()
            },
            None => a,
        }
    }

    /// Which of the three stars under the cover is at `pos`.
    pub open spec fn star_at(self, pos: Position) -> Option<u8> {
        if self.areas.star_one.holds(pos) {
            Some(1u8)
        } else if self.areas.star_two.holds(pos) {
            Some(2u8)
        } else if self.areas.star_three.holds(pos) {
            Some(3u8)
        } else {
            None
        }
    }

    /// The row and the star at `pos` in the track list, for a track on a server.
    pub open spec fn row_star_at(self, pos: Position) -> Option<(usize, u8)> {
        match (self.areas.track_star_x, self.row_at(Pane::Tracks, pos)) {
            (Some(x), Some(row)) => if x <= pos.x < x + 3 && has_scheme(
                self.tracks[row as int].path,
            ) {
                Some((row, (pos.x - x + 1) as u8))
            } else {
                None
            },
            _ => None,
        }
    }

    /// A second click on the same row, soon enough after the first.
    #[verifier::opaque]
    pub open spec fn is_repeat(self, pane: Pane, row: usize) -> bool {
        match self.last_click {
            Some((p, r, at)) => p == pane && r == row && self.clock.total() - at.total()
                < 400_000_000,
            None => false,
        }
    }

    /// A click on a row of the tables: one selects, two descend or play — so a single
    /// click never starts audio by accident.
    #[verifier::opaque]
    pub open spec fn row_clicked(self, pane: Pane, row: usize, repeat: bool) -> AppV {
        match pane {
            Pane::Folders => {
                let b = self.folder_selected(row);
                if b.on_server_row() {
                    b.server_prompted()
                } else if repeat {
                    b.entering()
                } else {
                    b
                }
            },
            Pane::Tracks => {
                let b = self.track_highlighted(row);
                if repeat {
                    b.playing_index(row)
                } else {
                    b
                }
            },
        }
    }

    /// A click on the tables. Empty space below the rows still moves focus.
    #[verifier::opaque]
    pub open spec fn pane_clicked(self, pos: Position) -> AppV {
        match self.pane_at(pos) {
            None => self,
            Some(pane) => match self.row_at(pane, pos) {
                None => self.focused(pane),
                Some(row) => AppV {
                    last_click: Some((pane, row, self.clock)),
                    focus: pane,
                    ..self
                }.row_clicked(pane, row, self.is_repeat(pane, row)),
            },
        }
    }

    /// A click on the stars, of what is playing or of a row, and on the tables below.
    #[verifier::opaque]
    pub open spec fn body_clicked(self, pos: Position) -> AppV {
        if self.star_at(pos) is Some && self.now_playing() is Some {
            self.rating(self.now_playing()->0, self.star_at(pos)->0)
        } else {
            match self.row_star_at(pos) {
                Some((row, star)) => self.focused(Pane::Tracks).track_highlighted(row).rating(
                    self.tracks[row as int],
                    star,
                ),
                None => self.pane_clicked(pos),
            }
        }
    }

    /// A left click. An open prompt owns the screen, and a click closes the key list
    /// and does nothing else.
    #[verifier::opaque]
    pub open spec fn clicked(self, pos: Position) -> AppV {
        let at = self.areas;
        if self.prompt is Some {
            self
        } else if self.show_keys {
            AppV { show_keys: false, ..self }
        } else if at.add.holds(pos) {
            self.feed_prompted()
        } else if at.remove.holds(pos) {
            self.feed_removed()
        } else if at.feed_rows.holds(pos) {
            self.feed_clicked(pos)
        } else if at.local_tab.holds(pos) {
            self.tab_selected(Tab::Local)
        } else if at.feeds_tab.holds(pos) {
            self.tab_selected(Tab::Feeds)
        } else if at.radio_tab.holds(pos) {
            self.tab_selected(Tab::Radio)
        } else if at.play.holds(pos) {
            self.toggled()
        } else if at.prev.holds(pos) {
            self.previous()
        } else if at.next.holds(pos) {
            self.next()
        } else if at.seek_bar.holds(pos) {
            self.seeking_column(pos.x)
        } else if at.shuffle.holds(pos) {
            self.shuffle_toggled()
        } else {
            self.body_clicked(pos)
        }
    }
}

impl App {
    pub fn focus_next(&mut self)
        ensures
            final(self)@ == old(self)@.focused(
                match old(self)@.focus {
                    Pane::Folders => Pane::Tracks,
                    Pane::Tracks => Pane::Folders,
                },
            ),
    {
        self.focus = match self.focus {
            Pane::Folders => Pane::Tracks,
            Pane::Tracks => Pane::Folders,
        };
    }

    /// Which table's rows sit under `pos`, if any.
    pub fn pane_at(&self, pos: Position) -> (r: Option<Pane>)
        ensures
            r == self@.pane_at(pos),
    {
        if self.areas.folder_rows.contains(pos) {
            Some(Pane::Folders)
        } else if self.areas.track_rows.contains(pos) {
            Some(Pane::Tracks)
        } else {
            None
        }
    }

    /// The row under `pos`, accounting for how far the table is scrolled.
    pub fn row_at(&self, pane: Pane, pos: Position) -> (r: Option<usize>)
        requires
            self@.wf(),
        ensures
            r == self@.row_at(pane, pos),
    {
        proof {
            reveal(tracks_of);
            reveal(AppV::row_at);
        }
        match pane {
            Pane::Folders => {
                let n: usize = self.folder_row_count();
                row_in(self.areas.folder_rows, self.folder_state.offset, n, pos)
            },
            Pane::Tracks => row_in(
                self.areas.track_rows,
                self.track_state.offset,
                self.tracks.len(),
                pos,
            ),
        }
    }

    /// Highlight a folder, and rescan it unless it was highlighted already.
    pub fn select_folder(&mut self, row: usize)
        requires
            old(self)@.wf(),
        ensures
            final(self)@ == old(self)@.folder_selected(row),
            final(self)@.wf(),
    {
        proof {
            reveal(AppV::folder_selected);
        }
        let ghost s = self@;
        let same = match self.folder_state.selected {
            Some(r) => r == row,
            None => false,
        };
        if row >= self.folder_row_count() || same {
            return;
        }
        self.folder_state.select(Some(row));
        self.touch_settings();
        assert(self@ == AppV { folder_state: s.folder_state.with(Some(row)), ..s }.touched());
        self.reload_tracks();
    }

    fn scroll_tracks(&mut self, delta: isize)
        ensures
            final(self)@ == old(self)@.tracks_scrolled(delta as int),
            final(self)@.browsing() == old(self)@.browsing(),
    {
        proof {
            reveal(tracks_of);
        }
        let n: usize = self.tracks.len();
        if n == 0 {
            return;
        }
        let at: usize = match self.track_state.selected {
            Some(i) => i,
            None => 0,
        };
        let next: usize = move_by(at, delta, n);
        self.track_state.select(Some(next));
    }

    /// Move within the focused pane.
    pub fn move_selection(&mut self, delta: isize)
        requires
            old(self)@.wf(),
        ensures
            final(self)@ == old(self)@.selection_moved(delta as int),
            final(self)@.wf(),
    {
        proof {
            reveal(AppV::selection_moved);
        }
        let ghost s = self@;
        if self.tab == Tab::Feeds && self.focus == Pane::Folders {
            self.move_feed_selection(delta);
            return;
        }
        match self.focus {
            Pane::Folders => {
                let n: usize = self.folder_row_count();
                let at: usize = match self.folder_state.selected {
                    Some(i) => i,
                    None => 0,
                };
                let next: usize = move_by(at, delta, n);
                self.folder_state.select(Some(next));
                assert(self@ == (AppV { folder_state: s.folder_state.with(Some(next)), ..s }));
                self.reload_tracks();
            },
            Pane::Tracks => {
                self.scroll_tracks(delta);
            },
        }
    }

    /// Scroll the pane under the cursor, which need not be the focused one.
    pub fn scroll(&mut self, pos: Position, delta: isize)
        requires
            old(self)@.wf(),
        ensures
            final(self)@ == old(self)@.scrolled(pos, delta as int),
            final(self)@.wf(),
    {
        proof {
            reveal(AppV::scrolled);
        }
        if self.areas.feed_rows.contains(pos) {
            self.move_feed_selection(delta);
            return;
        }
        match self.pane_at(pos) {
            Some(Pane::Folders) => {
                let n: usize = self.folder_row_count();
                let at: usize = match self.folder_state.selected {
                    Some(i) => i,
                    None => 0,
                };
                let next: usize = move_by(at, delta, n);
                self.select_folder(next);
            },
            Some(Pane::Tracks) => {
                self.scroll_tracks(delta);
            },
            None => {
                self.move_selection(delta);
            },
        }
    }

    /// How far along the seek bar column `x` sits.
    pub fn bar_fraction(&self, x: u16) -> (r: (u16, u16))
        ensures
            r == self@.bar_part(x),
    {
        let bar = self.areas.seek_bar;
        if bar.width <= 1 {
            return (0, 1);
        }
        let span: u16 = bar.width - 1;
        if x <= bar.x {
            (0, span)
        } else if x - bar.x >= span {
            (span, span)
        } else {
            (x - bar.x, span)
        }
    }

    fn seek_column(&mut self, x: u16)
        ensures
            final(self)@ == old(self)@.seeking_column(x),
            final(self)@.browsing() == old(self)@.browsing(),
    {
        let timed = match self.now_playing() {
            Some(t) => t.duration.is_some(),
            None => false,
        };
        if timed {
            let (part, span) = self.bar_fraction(x);
            self.act(Effect::SeekFraction(part, span));
        }
    }

    /// Drag on the seek bar: scrub without needing a fresh click each time.
    pub fn drag(&mut self, pos: Position)
        ensures
            final(self)@ == old(self)@.dragged(pos),
            final(self)@.browsing() == old(self)@.browsing(),
    {
        let bar = self.areas.seek_bar;
        if bar.width == 0 || pos.y < bar.y || pos.y >= bar.bottom() {
            return;
        }
        self.seek_column(pos.x);
    }

    fn click_feed(&mut self, pos: Position)
        ensures
            final(self)@ == old(self)@.feed_clicked(pos),
            final(self)@.browsing() == old(self)@.browsing(),
    {
        proof {
            reveal(AppV::feed_clicked);
            reveal(feeds_of);
        }
        let ghost s = self@;
        self.focus = Pane::Folders;
        let ghost a = s.focused(Pane::Folders);
        assert(self@ == a);
        let row = row_in(self.areas.feed_rows, self.feed_state.offset, self.feeds.len(), pos);
        if let Some(row) = row {
            let same = match self.feed_state.selected {
                Some(r) => r == row,
                None => false,
            };
            if !same {
                self.feed_state.select(Some(row));
                assert(self@ == (AppV { feed_state: a.feed_state.with(Some(row)), ..a }));
                self.reload_feed();
            }
        }
    }

    fn star_at(&self, pos: Position) -> (r: Option<u8>)
        ensures
            r == self@.star_at(pos),
    {
        if self.areas.star_one.contains(pos) {
            Some(1)
        } else if self.areas.star_two.contains(pos) {
            Some(2)
        } else if self.areas.star_three.contains(pos) {
            Some(3)
        } else {
            None
        }
    }

    fn row_star_at(&self, pos: Position) -> (r: Option<(usize, u8)>)
        requires
            self@.wf(),
        ensures
            r == self@.row_star_at(pos),
            r matches Some((row, _)) ==> row < self.tracks@.len(),
    {
        proof {
            reveal(tracks_of);
            reveal(AppV::row_at);
        }
        match (self.areas.track_star_x, self.row_at(Pane::Tracks, pos)) {
            (Some(x), Some(row)) => {
                assert(self@.tracks[row as int] == self.tracks@[row as int]@);
                if x <= pos.x && pos.x - x < 3 && remote::is_remote(
                    self.tracks[row].path.as_str(),
                ) {
                    Some((row, (pos.x - x + 1) as u8))
                } else {
                    None
                }
            },
            _ => None,
        }
    }

    fn is_repeat(&self, pane: Pane, row: usize) -> (b: bool)
        ensures
            b == self@.is_repeat(pane, row),
    {
        proof {
            reveal(AppV::is_repeat);
        }
        match self.last_click {
            Some((p, r, at)) => p == pane && r == row && self.clock.since(at) < 400_000_000,
            None => false,
        }
    }

    fn click_pane(&mut self, pos: Position)
        requires
            old(self)@.wf(),
        ensures
            final(self)@ == old(self)@.pane_clicked(pos),
            final(self)@.wf(),
    {
        proof {
            reveal(AppV::pane_clicked);
        }
        let ghost s = self@;
        let pane = match self.pane_at(pos) {
            Some(pane) => pane,
            None => {
                return;
            },
        };
        let row: usize = match self.row_at(pane, pos) {
            Some(row) => row,
            None => {
                self.focus = pane;
                return;
            },
        };
        let repeat = self.is_repeat(pane, row);
        self.last_click = Some((pane, row, self.clock));
        self.focus = pane;
        let ghost a = AppV { last_click: Some((pane, row, s.clock)), focus: pane, ..s };
        assert(self@ == a);
        self.click_row(pane, row, repeat);
    }

    fn click_row(&mut self, pane: Pane, row: usize, repeat: bool)
        requires
            old(self)@.wf(),
        ensures
            final(self)@ == old(self)@.row_clicked(pane, row, repeat),
            final(self)@.wf(),
    {
        proof {
            reveal(AppV::row_clicked);
        }
        let ghost a = self@;
        match pane {
            Pane::Folders => {
                self.select_folder(row);
                assert(self@ == a.folder_selected(row));
                // A button, so one click is enough.
                if self.on_server_row() {
                    self.open_add_server();
                } else if repeat {
                    self.enter_folder();
                }
            },
            Pane::Tracks => {
                self.track_state.select(Some(row));
                assert(self@ == a.track_highlighted(row));
                if repeat {
                    self.play_index(row);
                }
            },
        }
    }

    fn click_body(&mut self, pos: Position)
        requires
            old(self)@.wf(),
        ensures
            final(self)@ == old(self)@.body_clicked(pos),
            final(self)@.wf(),
    {
        proof {
            reveal(AppV::body_clicked);
            reveal(tracks_of);
        }
        let ghost s = self@;
        if let Some(star) = self.star_at(pos) {
            let playing = match self.now_playing() {
                Some(t) => Some(t.copy()),
                None => None,
            };
            if let Some(track) = playing {
                self.rate(&track, star);
                return;
            }
        }
        if let Some((row, star)) = self.row_star_at(pos) {
            let track = self.tracks[row].copy();
            assert(s.tracks[row as int] == track@);
            self.focus = Pane::Tracks;
            self.track_state.select(Some(row));
            assert(self@ == s.focused(Pane::Tracks).track_highlighted(row));
            self.rate(&track, star);
            return;
        }
        self.click_pane(pos);
    }

    /// Left click: focus the pane and select the row. A second click on the same row
    /// plays it, so a single click never starts audio by accident.
    pub fn click(&mut self, pos: Position)
        requires
            old(self)@.wf(),
        ensures
            final(self)@ == old(self)@.clicked(pos),
            final(self)@.wf(),
    {
        proof {
            reveal(AppV::clicked);
        }
        if self.prompt.is_some() {
            return;
        }
        if self.show_keys {
            self.show_keys = false;
            return;
        }
        if self.areas.add.contains(pos) {
            self.open_add_feed();
        } else if self.areas.remove.contains(pos) {
            self.remove_selected_feed();
        } else if self.areas.feed_rows.contains(pos) {
            self.click_feed(pos);
        } else if self.areas.local_tab.contains(pos) {
            self.select_tab(Tab::Local);
        } else if self.areas.feeds_tab.contains(pos) {
            self.select_tab(Tab::Feeds);
        } else if self.areas.radio_tab.contains(pos) {
            self.select_tab(Tab::Radio);
        } else if self.areas.play.contains(pos) {
            self.toggle_play();
        } else if self.areas.prev.contains(pos) {
            self.prev_track();
        } else if self.areas.next.contains(pos) {
            self.next_track();
        } else if self.areas.seek_bar.contains(pos) {
            self.seek_column(pos.x);
        } else if self.areas.shuffle.contains(pos) {
            self.toggle_shuffle();
        } else {
            self.click_body(pos);
        }
    }
}

} // verus!
