//! What is on the screen: where it goes, and what it says.

use vstd::prelude::*;
use crate::app::{feeds_of, folders_of, tracks_of, App, AppV, Areas, Pane, Tab};
use crate::library::{self, clock, FolderV, TrackV};
use crate::remote::{self, authority_in};
use crate::text::{self, decimal, right_aligned, views};
use crate::ui::{
    self, add_button, budget, data_rows, feed_rows, interior, remove_mark, strip_of, tab_strip,
    Panes, Playing, Rect,
};

verus! {

// ---------------------------------------------------------------------------
// Where it goes
// ---------------------------------------------------------------------------

impl AppV {
    /// Where everything is once the panes are drawn. What is not on screen is nowhere,
    /// or clicks would still land on it.
    #[verifier::opaque]
    pub open spec fn areas_in(self, panes: Panes) -> Areas {
        let strip = strip_of(self.tab, panes.left, panes.middle);
        let feeds = self.feeds.len() as u16;
        Areas {
            art: budget(interior(panes.right)),
            folder_rows: if self.tab == Tab::Local {
                data_rows(panes.left)
            } else {
                Rect::none()
            },
            track_rows: if self.tab == Tab::Radio {
                Rect::none()
            } else {
                data_rows(panes.middle)
            },
            feed_rows: if self.tab == Tab::Feeds {
                feed_rows(panes.left, feeds)
            } else {
                Rect::none()
            },
            add: if self.tab == Tab::Feeds {
                add_button(panes.left, feeds)
            } else {
                Rect::none()
            },
            remove: if self.tab == Tab::Feeds {
                remove_mark(panes.left, self.feed_state.selected)
            } else {
                Rect::none()
            },
            local_tab: tab_strip(strip, self.tab, Tab::Local),
            feeds_tab: tab_strip(strip, self.tab, Tab::Feeds),
            radio_tab: tab_strip(strip, self.tab, Tab::Radio),
            ..self.areas
        }
    }

    /// With the panes drawn.
    pub open spec fn panes_placed(self, panes: Panes) -> AppV {
        AppV { areas: self.areas_in(panes), ..self }
    }

    /// With the controls drawn.
    pub open spec fn controls_placed(self, playing: Playing) -> AppV {
        AppV {
            areas: Areas {
                prev: playing.prev,
                play: playing.play,
                next: playing.next,
                seek_bar: playing.bar,
                ..self.areas
            },
            ..self
        }
    }
}

impl App {
    /// Note where the panes are, so that a click can be tested against it.
    pub fn place_panes(&mut self, panes: &Panes)
        requires
            panes.left.fits(),
            panes.right.fits(),
            old(self)@.tab == Tab::Feeds ==> data_rows(panes.left).y + old(self)@.feeds.len()
                <= u16::MAX,
        ensures
            final(self)@ == old(self)@.panes_placed(*panes),
    {
        proof {
            reveal(AppV::areas_in);
            reveal(feeds_of);
        }
        let ghost a = self@;
        let tab = self.tab;
        self.areas.art = ui::art_budget(ui::inside_border(panes.right));
        self.areas.folder_rows = if tab == Tab::Local {
            ui::rows_area(panes.left)
        } else {
            Rect::zero()
        };
        self.areas.track_rows = if tab == Tab::Radio {
            Rect::zero()
        } else {
            ui::rows_area(panes.middle)
        };
        if tab == Tab::Feeds {
            let (rows, add, remove) = ui::feed_areas(
                panes.left,
                self.feeds.len() as u16,
                self.feed_state.selected,
            );
            self.areas.feed_rows = rows;
            self.areas.add = add;
            self.areas.remove = remove;
        } else {
            self.areas.feed_rows = Rect::zero();
            self.areas.add = Rect::zero();
            self.areas.remove = Rect::zero();
        }
        let strip = ui::strip(tab, panes.left, panes.middle);
        self.areas.local_tab = ui::tab_area(strip, tab, Tab::Local);
        self.areas.feeds_tab = ui::tab_area(strip, tab, Tab::Feeds);
        self.areas.radio_tab = ui::tab_area(strip, tab, Tab::Radio);
        assert(self.areas == a.areas_in(*panes));
    }

    /// Note where the controls are.
    pub fn place_controls(&mut self, playing: &Playing)
        ensures
            final(self)@ == old(self)@.controls_placed(*playing),
    {
        self.areas.prev = playing.prev;
        self.areas.play = playing.play;
        self.areas.next = playing.next;
        self.areas.seek_bar = playing.bar;
    }
}

// ---------------------------------------------------------------------------
// What it says
// ---------------------------------------------------------------------------

/// A line of a table with two columns.
#[derive(Debug, PartialEq, Eq)]
pub struct Line {
    pub name: String,
    /// At the right edge.
    pub note: String,
}

pub open spec fn lines_view(v: Seq<Line>) -> Seq<(Seq<char>, Seq<char>)> {
    Seq::new(v.len(), |i: int| (v[i].name@, v[i].note@))
}

/// A line of the track list.
#[derive(Debug, PartialEq, Eq)]
pub struct TrackLine {
    pub playing: bool,
    pub marker: &'static str,
    pub number: String,
    pub title: String,
    pub artist: String,
    pub time: String,
}

/// What a [`TrackLine`] holds.
pub ghost struct TrackLineV {
    pub playing: bool,
    pub marker: Seq<char>,
    pub number: Seq<char>,
    pub title: Seq<char>,
    pub artist: Seq<char>,
    pub time: Seq<char>,
}

impl View for TrackLine {
    type V = TrackLineV;

    open spec fn view(&self) -> TrackLineV {
        TrackLineV {
            playing: self.playing,
            marker: self.marker@,
            number: self.number@,
            title: self.title@,
            artist: self.artist@,
            time: self.time@,
        }
    }
}

/// A folder the way the folder pane shows it.
pub open spec fn folder_line(f: FolderV) -> (Seq<char>, Seq<char>) {
    (f.label + "/"@, decimal(f.count as nat) + " ♪"@)
}

/// The line of a track in the list, `i` from the top.
pub open spec fn track_line(t: TrackV, i: int, playing: bool) -> TrackLineV {
    TrackLineV {
        playing,
        marker: if playing {
            "▶"@
        } else {
            " "@
        },
        number: right_aligned(decimal((i + 1) as nat), 2),
        title: t.title,
        artist: t.artist,
        time: match t.duration {
            Some(d) => clock(d),
            None => "--:--"@,
        },
    }
}

impl AppV {
    /// What the server button says: the server's name, to change it, or that one can
    /// be added.
    pub open spec fn server_text(self) -> Seq<char> {
        match self.remote.server {
            Some(url) => match authority_in(url) {
                Some(name) => name,
                None => url,
            },
            None => "+ Add server"@,
        }
    }

    /// The lines of the folder pane: the way up, the folders, and the server button
    /// where there is one.
    pub open spec fn folder_lines(self) -> Seq<(Seq<char>, Seq<char>)> {
        let folders = Seq::new(self.folders.len(), |i: int| folder_line(self.folders[i]));
        seq![(".."@, ""@)] + folders + (if self.server_row() {
            seq![(self.server_text(), ""@)]
        } else {
            seq![]
        })
    }

    /// The lines of the track list.
    pub open spec fn track_lines(self) -> Seq<TrackLineV> {
        Seq::new(
            self.tracks.len(),
            |i: int| track_line(self.tracks[i], i, self.playing_row() == Some(i as usize)),
        )
    }

    /// The lines of the feed list, and the add button. The mark that removes a feed is
    /// only on the highlighted row of the focused pane: one target at a time.
    pub open spec fn feed_lines(self) -> Seq<(Seq<char>, Seq<char>)> {
        Seq::new(
            self.feeds.len(),
            |i: int|
                (
                    self.feeds[i].name,
                    if self.feed_state.selected == Some(i as usize) && self.focus == Pane::Folders {
                        "✕"@
                    } else {
                        ""@
                    },
                ),
        ).push(("+ Add feed"@, ""@))
    }

    /// What is said about the track that is playing.
    pub open spec fn info_lines(self) -> Seq<Seq<char>> {
        match self.now_playing() {
            Some(t) => seq![t.title, t.artist, t.album],
            None => seq!["Nothing playing"@, "pick a track and hit Enter"@],
        }
    }
}

impl App {
    /// The lines of the folder pane. The `..` row is one of them, so that a click on it
    /// hits the same row arithmetic as any folder.
    pub fn folder_lines(&self) -> (r: Vec<Line>)
        ensures
            lines_view(r@) == self@.folder_lines(),
    {
        proof {
            reveal(folders_of);
        }
        let mut r: Vec<Line> = Vec::new();
        r.push(Line { name: "..".to_owned(), note: "".to_owned() });
        let mut i: usize = 0;
        while i < self.folders.len()
            invariant
                i <= self.folders@.len(),
                r@.len() == i + 1,
                r@[0].name@ == ".."@ && r@[0].note@ == ""@,
                forall|k: int|
                    1 <= k <= i ==> ((#[trigger] r@[k]).name@, r@[k].note@) == folder_line(
                        self.folders@[k - 1]@,
                    ),
            decreases self.folders@.len() - i,
        {
            let f = &self.folders[i];
            r.push(
                Line {
                    name: text::cat2(f.label.as_str(), "/"),
                    note: ui::count_label(f.count),
                },
            );
            i = i + 1;
        }
        if self.shows_server_row() {
            let name = match &self.remote.server {
                Some(url) => match remote::authority_of(url.as_str()) {
                    Some(name) => name,
                    None => url.clone(),
                },
                None => "+ Add server".to_owned(),
            };
            r.push(Line { name, note: "".to_owned() });
        }
        assert(lines_view(r@) =~= self@.folder_lines());
        r
    }

    /// The lines of the track list.
    pub fn track_lines(&self) -> (r: Vec<TrackLine>)
        ensures
            r@.len() == self@.track_lines().len(),
            forall|i: int| 0 <= i < r@.len() ==> (#[trigger] r@[i])@ == self@.track_lines()[i],
    {
        proof {
            reveal(tracks_of);
        }
        let row = self.playing_row();
        let mut r: Vec<TrackLine> = Vec::new();
        let mut i: usize = 0;
        while i < self.tracks.len()
            invariant
                i <= self.tracks@.len(),
                row == self@.playing_row(),
                r@.len() == i,
                forall|k: int|
                    0 <= k < i ==> (#[trigger] r@[k])@ == track_line(
                        self.tracks@[k]@,
                        k,
                        row == Some(k as usize),
                    ),
            decreases self.tracks@.len() - i,
        {
            let t = &self.tracks[i];
            let playing = match row {
                Some(at) => at == i,
                None => false,
            };
            let number = text::print(i as u64 + 1);
            let line = TrackLine {
                playing,
                marker: if playing {
                    "▶"
                } else {
                    " "
                },
                number: text::align_right(number.as_str(), 2),
                title: t.title.clone(),
                artist: t.artist.clone(),
                time: match t.duration {
                    Some(d) => library::fmt_duration(d),
                    None => "--:--".to_owned(),
                },
            };
            assert(line@ == track_line(t@, i as int, row == Some(i)));
            r.push(line);
            i = i + 1;
        }
        r
    }

    /// The lines of the feed list, and the add button as its last row, so that it
    /// scrolls with them.
    pub fn feed_lines(&self) -> (r: Vec<Line>)
        ensures
            lines_view(r@) == self@.feed_lines(),
    {
        proof {
            reveal(feeds_of);
        }
        let focused = self.focus == Pane::Folders;
        let mut r: Vec<Line> = Vec::new();
        let mut i: usize = 0;
        while i < self.feeds.len()
            invariant
                i <= self.feeds@.len(),
                focused == (self.focus == Pane::Folders),
                r@.len() == i,
                forall|k: int|
                    0 <= k < i ==> (#[trigger] r@[k]).name@ == self.feeds@[k]@.name && r@[k].note@
                        == (if self.feed_state.selected == Some(k as usize) && focused {
                        "✕"@
                    } else {
                        ""@
                    }),
            decreases self.feeds@.len() - i,
        {
            let marked = match self.feed_state.selected {
                Some(at) => at == i && focused,
                None => false,
            };
            let note = if marked {
                "✕"
            } else {
                ""
            };
            r.push(Line { name: self.feeds[i].name.clone(), note: note.to_owned() });
            i = i + 1;
        }
        r.push(Line { name: "+ Add feed".to_owned(), note: "".to_owned() });
        assert(lines_view(r@) =~= self@.feed_lines());
        r
    }

    /// What is said about the track that is playing, one line under the other.
    pub fn info_lines(&self) -> (r: Vec<String>)
        ensures
            views(r@) == self@.info_lines(),
    {
        let mut r: Vec<String> = Vec::new();
        match self.now_playing() {
            Some(t) => {
                r.push(t.title.clone());
                r.push(t.artist.clone());
                r.push(t.album.clone());
            },
            None => {
                r.push("Nothing playing".to_owned());
                r.push("pick a track and hit Enter".to_owned());
            },
        }
        assert(views(r@) =~= self@.info_lines());
        r
    }

    /// The line below the feed list.
    pub fn feeds_note(&self) -> (r: String)
        ensures
            r@ == " a add · d remove · "@ + decimal(self@.feeds.len()) + " feeds "@,
    {
        proof {
            reveal(feeds_of);
        }
        let n: usize = self.feeds.len();
        text::cat3(" a add · d remove · ", text::print(n as u64).as_str(), " feeds ")
    }
}

/// What stands in for a cover.
pub fn cover_caption(pending: bool) -> (r: &'static str)
    ensures
        r@ == (if pending {
            "loading…"@
        } else {
            "no cover"@
        }),
{
    if pending {
        "loading…"
    } else {
        "no cover"
    }
}

/// The keys in the line of help, and what each does. Terse, so that the line survives
/// a narrow terminal.
pub open spec fn help_text() -> Seq<(Seq<char>, Seq<char>)> {
    seq![
        ("Tab"@, "pane"@),
        ("↑↓"@, "move"@),
        ("⏎"@, "open"@),
        ("⌫"@, "up"@),
        ("Space"@, "pause"@),
        ("n/p"@, "track"@),
        ("[/]"@, "seek"@),
        ("+/-"@, "vol"@),
        ("1-3"@, "source"@),
        ("q"@, "quit"@),
    ]
}

/// The keys in the line of help, and what each does.
pub fn help_keys() -> (r: Vec<(&'static str, &'static str)>)
    ensures
        Seq::new(r@.len(), |i: int| (r@[i].0@, r@[i].1@)) == help_text(),
{
    let r: Vec<(&'static str, &'static str)> = vec![
        ("Tab", "pane"),
        ("↑↓", "move"),
        ("⏎", "open"),
        ("⌫", "up"),
        ("Space", "pause"),
        ("n/p", "track"),
        ("[/]", "seek"),
        ("+/-", "vol"),
        ("1-3", "source"),
        ("q", "quit"),
    ];
    assert(Seq::new(r@.len(), |i: int| (r@[i].0@, r@[i].1@)) =~= help_text());
    r
}

// ---------------------------------------------------------------------------
// Laws
// ---------------------------------------------------------------------------

/// The folder pane has a line to every row that the cursor and the mouse know, and the
/// line of a row is that of the folder it opens.
pub proof fn law_rows_and_lines_agree(a: AppV, row: int)
    requires
        0 <= row < a.row_count(),
    ensures
        a.folder_lines().len() == a.row_count(),
        1 <= row <= a.folders.len() ==> a.folder_lines()[row] == folder_line(a.folders[row - 1]),
        row == 0 ==> a.folder_lines()[row] == (".."@, ""@),
        row == a.folders.len() + 1 ==> a.folder_lines()[row] == (a.server_text(), ""@),
{
}

/// Nothing that is off the screen takes a click: the panes of the other sources are
/// nowhere.
pub proof fn law_hidden_panes_are_nowhere(a: AppV, panes: Panes)
    ensures
        a.tab != Tab::Local ==> a.panes_placed(panes).areas.folder_rows == Rect::none(),
        a.tab == Tab::Radio ==> a.panes_placed(panes).areas.track_rows == Rect::none(),
        a.tab != Tab::Feeds ==> a.panes_placed(panes).areas.feed_rows == Rect::none()
            && a.panes_placed(panes).areas.add == Rect::none()
            && a.panes_placed(panes).areas.remove == Rect::none(),
{
    reveal(AppV::areas_in);
}

/// What a source does not show cannot be clicked: folders belong to the local library,
/// feeds to the feeds, and the radio shows no tracks.
pub proof fn law_only_what_is_shown_can_be_clicked(s: AppV, panes: Panes, pos: ui::Position)
    ensures
        ({
            let at = s.areas_in(panes);
            &&& s.tab != Tab::Local ==> !at.folder_rows.holds(pos)
            &&& s.tab == Tab::Local ==> at.folder_rows == data_rows(panes.left)
            &&& s.tab != Tab::Feeds ==> !at.feed_rows.holds(pos) && !at.add.holds(pos)
                && !at.remove.holds(pos)
            &&& s.tab == Tab::Radio ==> !at.track_rows.holds(pos)
            &&& s.tab != Tab::Radio ==> at.track_rows == data_rows(panes.middle)
        }),
{
    reveal(AppV::areas_in);
}

/// The folder pane has a line for each of its rows: the way up, the folders as they are
/// listed, and the server where it is offered.
pub proof fn law_folder_lines_are_its_rows(s: AppV, i: int)
    requires
        0 <= i < s.folders.len(),
    ensures
        s.folder_lines().len() == s.row_count(),
        s.folder_lines()[0] == (".."@, ""@),
        s.folder_lines()[i + 1] == (
            s.folders[i].label + "/"@,
            decimal(s.folders[i].count as nat) + " ♪"@,
        ),
{
}

/// A line of the track list says what its track is, counted from one, and only the
/// playing one is marked.
pub proof fn law_track_lines_say_their_track(s: AppV, i: int)
    requires
        0 <= i < s.tracks.len() <= usize::MAX,
    ensures
        ({
            let line = s.track_lines()[i];
            &&& s.track_lines().len() == s.tracks.len()
            &&& line.title == s.tracks[i].title
            &&& line.artist == s.tracks[i].artist
            &&& line.playing == (s.playing_row() == Some(i as usize))
            &&& i >= 9 ==> line.number == decimal((i + 1) as nat)
            &&& s.tracks[i].duration matches Some(d) ==> line.time == clock(d)
        }),
{
    let n = (i + 1) as nat;
    if i >= 9 {
        crate::text::lemma_decimal(n / 10);
        assert(decimal(n).len() >= 2);
    }
}

/// The tabs can be clicked where they are drawn, in the order they stand, over the folder
/// pane, and over two panes where those are one.
pub proof fn law_tabs_are_clicked_where_they_stand(s: AppV, panes: Panes)
    requires
        panes.left.x + panes.left.width + panes.middle.width <= u16::MAX,
        panes.left.width >= 25,
    ensures
        ({
            let at = s.areas_in(panes);
            &&& at.local_tab.x == panes.left.x + 1
            &&& at.feeds_tab.x == at.local_tab.x + 8
            &&& at.radio_tab.x == at.feeds_tab.x + 8
            &&& at.local_tab.width == 7 && at.feeds_tab.width == 7 && at.radio_tab.width == 7
            &&& at.local_tab.y == panes.left.y && at.feeds_tab.y == panes.left.y && at.radio_tab.y
                == panes.left.y
        }),
{
    reveal(AppV::areas_in);
    let strip = strip_of(s.tab, panes.left, panes.middle);
    ui::law_tabs_stand_side_by_side(strip, s.tab, s.tab);
}

/// The controls can be clicked where they are drawn, each in its own place.
pub proof fn law_controls_are_clicked_where_they_are(s: AppV, playing: Playing)
    ensures
        ({
            let t = s.controls_placed(playing);
            &&& t.areas.prev == playing.prev
            &&& t.areas.play == playing.play
            &&& t.areas.next == playing.next
            &&& t.areas.seek_bar == playing.bar
            &&& t.areas.folder_rows == s.areas.folder_rows
            &&& t.areas.track_rows == s.areas.track_rows
        }),
{
}

} // verus!
