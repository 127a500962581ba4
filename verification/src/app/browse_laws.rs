//! What walking the library comes to: where the cursor is, what is listed, and what
//! the mouse and the prompts make of it.

use vstd::prelude::*;
use crate::app::feeds::{moved_by, newest_fetch};
use crate::app::laws::law_listing_does_not_disturb_playback;
use crate::app::listing::{newest_listed, ListedV};
use crate::app::mouse::row_under;
use crate::app::playback_laws::law_a_remembered_track_is_found;
use crate::app::prompts::{destination, is_plain_name, is_plain_path, renamed};
use crate::app::session::{feed_place, on_server_if_moved, restoring_from, Present};
use crate::app::transfer::{without, MoveV, StepV};
use crate::app::{
    AppV,
    AskV,
    Effect,
    Pane,
    PromptKindV,
    PromptV,
    RestoringV,
    Tab,
    Transfer,
    Why,
};
use crate::config::{host, is_url_text, FeedV, RemoteV, SettingsV};
use crate::feed::ChannelV;
use crate::library::{
    feed_tracks,
    folder_place,
    folder_towards,
    is_merge,
    label_of,
    law_both_sides_are_shown_once,
    law_the_first_match_is_found,
    FolderV,
};
use crate::paths::{
    self,
    inside,
    is_entry,
    law_entries_lie_in_their_folder,
    lemma_rfind_is,
    parent,
    same_path,
    within,
};
use crate::remote::{
    has_scheme,
    is_authority,
    kept_address,
    law_addresses_lead_back,
    place,
    SentV,
};
use crate::server::{are_entries, law_a_request_path_leads_back};
use crate::text::{
    joined,
    law_joined_pieces_come_apart,
    law_pieces_are_joined_in_order,
    law_texts_come_apart_at_every_separator,
    pieces,
    stripped,
    stripped_start,
    trimmed,
};
use crate::time::Duration;
use crate::ui::{Position, Rect};

verus! {

/// The first row leads back up and the others each to a folder, in the order they are
/// listed; what is listed beside them is the folder under the cursor.
pub proof fn law_rows_name_their_folders(s: AppV, row: usize)
    requires
        s.folder_state.selected == Some(row),
    ensures
        row == 0 ==> s.selected_folder() is None && s.listing_dir() == s.cwd && s.on_up_row(),
        1 <= row <= s.folders.len() ==> {
            &&& s.selected_folder() == Some(s.folders[row - 1])
            &&& s.listing_dir() == s.folders[row - 1].path
            &&& !s.on_up_row()
        },
        row > s.folders.len() ==> s.selected_folder() is None && (row > 0 ==> s.listing_dir()
            == s.cwd),
        s.row_count() == s.folders.len() + (if same_path(s.cwd, s.root) && !has_scheme(s.root) {
            2int
        } else {
            1
        }),
{
}

/// Enter on a folder asks for what is in it; on the first row it asks for the folder one
/// came from, and at the top goes over to the tracks; on the last row of the library's
/// own folder it asks for a server.
pub proof fn law_enter_leads_where_the_cursor_points(s: AppV, row: usize)
    requires
        s.folder_state.selected == Some(row),
        s.folders.len() + 2 <= usize::MAX,
        s.tab == Tab::Local,
    ensures
        1 <= row <= s.folders.len() ==> s.entering_selected() == (AppV {
            asking: AskV::List { dir: s.folders[row - 1].path, why: Why::Enter },
            ..s
        }),
        row == 0 && s.trail.len() > 0 ==> s.entering_selected() == (AppV {
            asking: AskV::List { dir: s.trail.last().0, why: Why::Leave },
            ..s
        }),
        row == 0 && s.trail.len() == 0 ==> s.entering_selected() == (AppV {
            focus: Pane::Tracks,
            ..s
        }),
        row == s.folders.len() + 1 && same_path(s.cwd, s.root) && !has_scheme(s.root) ==> {
            let t = s.entering_selected();
            t.prompt matches Some(p) && p.kind == PromptKindV::Server && p.input.len() == 0
                && t.asking == s.asking
        },
{
    reveal(AppV::entering_selected);
    reveal(AppV::entering);
    reveal(AppV::leaving);
    reveal(AppV::server_prompted);
}

/// A folder that is entered is where one is, its folders on screen and the cursor on the
/// first of them, with the way back remembered. One without folders only hands over to
/// its tracks, and one that cannot be read says why.
pub proof fn law_an_entered_folder_is_shown(
    s: AppV,
    dir: Seq<char>,
    rows: Seq<FolderV>,
    why: Seq<char>,
    row: usize,
)
    requires
        s.asking == (AskV::List { dir, why: Why::Enter }),
        s.resume is None,
        s.folder_state.selected == Some(row),
    ensures
        rows.len() > 0 ==> ({
            let t = s.folders_arrived(Ok(rows));
            &&& t.cwd == dir
            &&& t.folders == rows
            &&& t.folder_state.selected == Some(1usize)
            &&& t.listing_dir() == rows[0].path
            &&& t.trail == s.trail.push((s.cwd, row))
            &&& t.asking == AskV::Nothing
            &&& t.tracks_dir matches Some(d) && same_path(d, rows[0].path)
        }),
        rows.len() == 0 ==> s.folders_arrived(Ok(rows)) == (AppV {
            asking: AskV::Nothing,
            focus: Pane::Tracks,
            ..s
        }),
        s.folders_arrived(Err(why)) == (AppV {
            asking: AskV::Nothing,
            status: "error: "@ + why,
            ..s
        }),
{
    reveal(AppV::folders_arrived);
    reveal(AppV::entered);
    let a = AppV { asking: AskV::Nothing, ..s };
    let b = AppV {
        trail: a.trail.push((a.cwd, row)),
        cwd: dir,
        folders: rows,
        folder_state: crate::ui::ListState::on(1),
        ..a.touched()
    };
    law_listing_does_not_disturb_playback(b);
    law_the_list_follows_the_cursor(b);
}

/// The tracks on screen are those of the folder under the cursor: at once when it is
/// remembered as it is, and otherwise as soon as they have been read. Nothing is read
/// again for the folder that is listed already.
pub proof fn law_the_list_follows_the_cursor(s: AppV)
    requires
        s.resume is None,
    ensures
        ({
            let t = s.reloading();
            let dir = s.listing_dir();
            let listed = s.tracks_dir matches Some(d) && same_path(d, dir);
            &&& t.tracks_dir matches Some(d) && same_path(d, dir)
            &&& listed ==> t == s
            &&& !listed ==> match s.at_hand(dir) {
                Some(tracks) => {
                    &&& t.tracks == tracks
                    &&& !t.tracks_loading
                    &&& t.effects == s.effects
                    &&& tracks.len() > 0 ==> t.track_state.selected == Some(0usize)
                    &&& tracks.len() == 0 ==> t.track_state.selected is None
                },
                None => {
                    &&& t.tracks == s.tracks
                    &&& t.tracks_loading
                    &&& t.effects == s.effects.push(Effect::Scan)
                    &&& t.scan_generation != s.scan_generation
                },
            }
        }),
{
    reveal(AppV::reloading);
    reveal(AppV::showing);
    reveal(AppV::resuming);
}

/// What has been read of the folder that is waited for is shown, the first track
/// highlighted; what could not be read says why, and leaves the list empty.
pub proof fn law_a_finished_scan_is_shown(s: AppV, replies: Seq<(u64, ListedV)>)
    requires
        s.resume is None,
        replies.len() > 0,
        replies.last().0 == s.scan_generation,
        s.tracks_dir == Some(replies.last().1.dir),
    ensures
        ({
            let t = s.scanned(replies);
            &&& !t.tracks_loading
            &&& t.effects == s.effects
            &&& t.queue == s.queue
            &&& match replies.last().1.tracks {
                Ok(tracks) => {
                    &&& t.tracks == tracks
                    &&& t.tracks_dir == s.tracks_dir
                    &&& t.status == s.status
                    &&& tracks.len() > 0 ==> t.track_state.selected == Some(0usize)
                    &&& tracks.len() == 0 ==> t.track_state.selected is None
                },
                Err(why) => {
                    &&& t.tracks.len() == 0
                    &&& t.tracks_dir is None
                    &&& t.status == "error: "@ + why
                },
            }
        }),
{
    reveal(AppV::scanned);
    reveal(AppV::showing);
    reveal(AppV::resuming);
    assert(newest_listed(replies, s.scan_generation) == Some(replies.last().1));
}

/// When the library's own folder is listed anew, the cursor stays on the folder it was
/// on, wherever that went, and goes to the first row that is left when it has gone.
pub proof fn law_the_cursor_stays_on_its_folder(s: AppV, row: usize, rows: Seq<FolderV>, k: int)
    requires
        s.resume is None,
        s.folder_state.selected == Some(row),
        1 <= row <= s.folders.len(),
        rows.len() < usize::MAX,
        0 <= k <= rows.len(),
        k < rows.len() ==> same_path(rows[k].path, s.folders[row - 1].path),
        forall|j: int|
            0 <= j < k ==> !same_path((#[trigger] rows[j]).path, s.folders[row - 1].path),
    ensures
        s.relisted(rows).folders == rows,
        k < rows.len() ==> s.relisted(rows).folder_state.selected == Some((k + 1) as usize),
        k == rows.len() > 0 ==> s.relisted(rows).folder_state.selected == Some(1usize),
        rows.len() == 0 ==> s.relisted(rows).folder_state.selected == Some(0usize),
{
    reveal(AppV::relisted);
    let path = s.folders[row - 1].path;
    law_the_first_match_is_found(rows, seq![], path);
    let at = folder_place(rows, path) as int;
    if at < k {
        assert(same_path(rows[at].path, path));
    }
    assert(at == k);
    let to = if rows.len() == 0 {
        0int
    } else if k < rows.len() {
        k + 1
    } else {
        1
    };
    law_listing_does_not_disturb_playback(
        AppV { folders: rows, folder_state: crate::ui::ListState::on(to as usize), ..s },
    );
}

/// When a folder is listed anew after a change in it, the cursor keeps its row for as
/// long as there is one, and nothing that was remembered is relied on.
pub proof fn law_the_cursor_keeps_its_row(s: AppV, row: usize, rows: Seq<FolderV>)
    requires
        s.resume is None,
        s.folder_state.selected == Some(row),
        rows.len() + 2 <= usize::MAX,
    ensures
        s.refreshing().memo.len() == 0,
        s.refreshing().tracks_dir is None,
        s.refreshing().asking == (AskV::List { dir: s.cwd, why: Why::Refresh }),
        ({
            let t = s.refreshed(rows);
            &&& t.folders == rows
            &&& row < t.row_count() ==> t.folder_state.selected == Some(row)
            &&& row >= t.row_count() ==> t.folder_state.selected == Some(
                (t.row_count() - 1) as usize,
            )
        }),
{
    reveal(AppV::refreshing);
    reveal(AppV::refreshed);
    let a = AppV { folders: rows, ..s };
    let b = AppV {
        folder_state: crate::ui::ListState::on(
            crate::app::browse::lesser(row as int, a.row_count() - 1),
        ),
        ..a
    };
    law_listing_does_not_disturb_playback(b);
}

/// The pane's title leads from the library's name down to where one is.
pub proof fn law_the_title_leads_down(s: AppV, name: Seq<char>, inner: Seq<char>)
    requires
        !has_scheme(s.root),
        s.root.len() > 0,
        is_entry(name),
        is_entry(inner),
        !has_scheme(within(s.root, name)),
        !has_scheme(within(within(s.root, name), inner)),
    ensures
        (AppV { cwd: s.root, ..s }).breadcrumb() == label_of(s.root),
        (AppV { cwd: within(s.root, name), ..s }).breadcrumb() == label_of(s.root) + " / "@ + name,
        (AppV { cwd: within(within(s.root, name), inner), ..s }).breadcrumb() == label_of(s.root)
            + " / "@ + name + " / "@ + inner,
{
    reveal(paths::comps);
    let a = within(s.root, name);
    let b = within(a, inner);
    law_entries_lie_in_their_folder(s.root, name);
    law_entries_lie_in_their_folder(a, inner);
    let c = paths::comps(s.root);
    assert(c.take(c.len() as int) =~= c);
    assert(c.skip(c.len() as int) =~= seq![]);
    assert(paths::comps(b) == c.push(name).push(inner));
    assert(c.push(name).push(inner).take(c.len() as int) =~= c);
    assert(c.push(name).push(inner).skip(c.len() as int) =~= seq![name, inner]);
    assert(seq![name].drop_last() =~= seq![]);
    assert(seq![name, inner].drop_last() =~= seq![name]);
    reveal_with_fuel(joined, 3);
    assert(joined(seq![name], " / "@) =~= name);
    assert(joined(seq![name, inner], " / "@) =~= name + " / "@ + inner);
    assert(label_of(s.root) + " / "@ + (name + " / "@ + inner) =~= label_of(s.root) + " / "@ + name
        + " / "@ + inner);
}

/// A step of the cursor is as long as it says, and stops at the ends of the list.
pub proof fn law_the_cursor_moves_by_rows(at: int, delta: int, len: int)
    requires
        0 <= at < len <= usize::MAX,
    ensures
        0 <= at + delta < len ==> moved_by(at, delta, len) == at + delta,
        at + delta < 0 ==> moved_by(at, delta, len) == 0,
        at + delta >= len ==> moved_by(at, delta, len) == len - 1,
        0 <= at + delta < len ==> moved_by(moved_by(at, delta, len) as int, -delta, len) == at,
{
}

/// The arrow keys move the cursor of the pane that is focused, and no other.
pub proof fn law_the_arrows_move_the_focused_pane(s: AppV, delta: int)
    requires
        s.resume is None,
        s.tracks.len() <= usize::MAX,
        s.folders.len() + 2 <= usize::MAX,
    ensures
        s.focus == Pane::Tracks ==> {
            let t = s.selection_moved(delta);
            &&& t.folder_state == s.folder_state
            &&& t.feed_state == s.feed_state
            &&& t.tracks == s.tracks
            &&& match s.track_state.selected {
                Some(i) => i < s.tracks.len() && 0 <= i + delta < s.tracks.len() ==> {
                    t.track_state.selected == Some((i + delta) as usize)
                },
                None => true,
            }
        },
        s.focus == Pane::Folders && s.tab == Tab::Local ==> {
            let t = s.selection_moved(delta);
            &&& t.feed_state == s.feed_state
            &&& match s.folder_state.selected {
                Some(i) => 0 <= i + delta < s.row_count() ==> {
                    &&& t.folder_state.selected == Some((i + delta) as usize)
                    &&& t.folders == s.folders
                    &&& t.cwd == s.cwd
                },
                None => true,
            }
        },
{
    reveal(AppV::selection_moved);
    if s.focus == Pane::Folders && s.tab == Tab::Local {
        let at = match s.folder_state.selected {
            Some(i) => i as int,
            None => 0,
        };
        let b = AppV {
            folder_state: s.folder_state.with(Some(moved_by(at, delta, s.row_count()))),
            ..s
        };
        law_listing_does_not_disturb_playback(b);
        reveal(AppV::reloading);
        reveal(AppV::showing);
        reveal(AppV::resuming);
    }
}

// ---------------------------------------------------------------------------

/// Where the bar is clicked is where the track goes: the first cell is its start, the
/// last its end, and each cell between is one part further.
pub proof fn law_the_bar_reaches_both_ends(s: AppV, x: u16)
    requires
        s.areas.seek_bar.width > 1,
        s.areas.seek_bar.x + s.areas.seek_bar.width <= u16::MAX,
    ensures
        ({
            let bar = s.areas.seek_bar;
            let (part, span) = s.bar_part(x);
            &&& span == bar.width - 1
            &&& part <= span
            &&& x <= bar.x ==> part == 0
            &&& x >= bar.x + bar.width - 1 ==> part == span
            &&& bar.x <= x < bar.x + bar.width ==> part == x - bar.x
        }),
{
}

/// A click or a drag along the bar seeks in a track whose length is known, to the place
/// under the mouse; past an end of the bar it stays at that end, and off its row there
/// is nothing to drag.
pub proof fn law_dragging_seeks(s: AppV, pos: Position, i: int, total: Duration)
    requires
        s.plays(i),
        s.queue[i].duration == Some(total),
        s.areas.seek_bar.width > 1,
        s.areas.seek_bar.x + s.areas.seek_bar.width <= u16::MAX,
        s.areas.seek_bar.y + s.areas.seek_bar.height <= u16::MAX,
    ensures
        ({
            let bar = s.areas.seek_bar;
            let on = bar.y <= pos.y < bar.y + bar.height;
            let t = s.dragged(pos);
            &&& !on ==> t == s
            &&& on ==> {
                &&& t.effects.len() == s.effects.len() + 1
                &&& t.effects.last() matches Effect::SeekFraction(part, span) && {
                    &&& span == bar.width - 1
                    &&& pos.x <= bar.x ==> part == 0
                    &&& pos.x >= bar.x + bar.width - 1 ==> part == span
                    &&& bar.x <= pos.x < bar.x + bar.width ==> part == pos.x - bar.x
                }
                &&& t == (AppV { effects: t.effects, ..s })
            }
        }),
{
}

/// A row is found where it is drawn: as far below the top of its list as it is past the
/// row the list is scrolled to, and nowhere else.
pub proof fn law_rows_are_where_they_are_drawn(
    area: Rect,
    offset: usize,
    len: int,
    pos: Position,
    row: usize,
)
    requires
        area.holds(pos),
        len <= usize::MAX,
    ensures
        row_under(area, offset, len, pos) == Some(row) <==> row < len && row - offset == pos.y
            - area.y,
        forall|other: Position|
            area.holds(other) && other.y == pos.y ==> #[trigger] row_under(area, offset, len, other)
                == row_under(area, offset, len, pos),
{
}

/// A second click on a track soon after the first plays it; one that comes later only
/// highlights it again.
pub proof fn law_a_double_click_plays(s: AppV, pos: Position, row: usize, later: Duration)
    requires
        s.pane_at(pos) == Some(Pane::Tracks),
        s.row_at(Pane::Tracks, pos) == Some(row),
        s.last_click is None,
    ensures
        ({
            let once = s.pane_clicked(pos);
            let twice = (AppV { clock: later, ..once }).pane_clicked(pos);
            let waited = later.total() - s.clock.total();
            &&& once.track_state.selected == Some(row)
            &&& once.focus == Pane::Tracks
            &&& once.queue == s.queue
            &&& once.effects == s.effects
            &&& waited < 400_000_000 ==> twice == (AppV {
                last_click: Some((Pane::Tracks, row, later)),
                clock: later,
                ..once
            }).playing_index(row)
            &&& waited >= 400_000_000 ==> twice.queue == s.queue && twice.effects == s.effects
                && twice.track_state.selected == Some(row)
        }),
{
    reveal(AppV::pane_clicked);
    reveal(AppV::row_clicked);
    reveal(AppV::is_repeat);
    reveal(AppV::row_at);
}

/// A click on a folder highlights it and lists its tracks, and a second soon after goes
/// into it.
pub proof fn law_a_double_click_enters(s: AppV, pos: Position, row: usize)
    requires
        s.pane_at(pos) == Some(Pane::Folders),
        s.row_at(Pane::Folders, pos) == Some(row),
        1 <= row <= s.folders.len(),
        s.folders.len() + 2 <= usize::MAX,
        s.resume is None,
    ensures
        ({
            let t = s.pane_clicked(pos);
            &&& t.focus == Pane::Folders
            &&& t.last_click == Some((Pane::Folders, row, s.clock))
            &&& t.folder_state.selected == Some(row)
            &&& t.prompt == s.prompt
            &&& (s.last_click matches Some((p, r, at)) && p == Pane::Folders && r == row
                && s.clock.total() - at.total() < 400_000_000) ==> t.asking == (AskV::List {
                dir: s.folders[row - 1].path,
                why: Why::Enter,
            })
            &&& s.last_click is None ==> t.asking == s.asking
        }),
{
    reveal(AppV::pane_clicked);
    reveal(AppV::row_clicked);
    reveal(AppV::is_repeat);
    reveal(AppV::folder_selected);
    reveal(AppV::entering);
    reveal(AppV::reloading);
    reveal(AppV::showing);
    reveal(AppV::resuming);
    reveal(AppV::row_at);
}

/// The stars beside a track of the server can be clicked, each for as many as it stands
/// from the left, and so can those under the cover.
pub proof fn law_stars_can_be_clicked(s: AppV, pos: Position, row: usize, x: u16, k: u8)
    requires
        s.areas.track_star_x == Some(x),
        s.row_at(Pane::Tracks, pos) == Some(row),
        row < s.tracks.len(),
        1 <= k <= 3,
        pos.x == x + k - 1,
        s.star_at(pos) is None,
    ensures
        has_scheme(s.tracks[row as int].path) ==> {
            let t = s.body_clicked(pos);
            &&& t.asking == (AskV::Rate {
                path: s.tracks[row as int].path,
                title: s.tracks[row as int].title,
                stars: if s.tracks[row as int].stars == Some(k) {
                    None
                } else {
                    Some(k)
                },
            })
            &&& t.track_state.selected == Some(row)
            &&& t.focus == Pane::Tracks
            &&& t.effects == s.effects
        },
        !has_scheme(s.tracks[row as int].path) ==> s.body_clicked(pos) == s.pane_clicked(pos),
{
    reveal(AppV::body_clicked);
    reveal(AppV::rating);
}

/// A click on one of the three stars under the cover asks for as many for what plays.
pub proof fn law_the_cover_stars_rate_what_plays(s: AppV, pos: Position, i: int)
    requires
        s.plays(i),
        has_scheme(s.queue[i].path),
        s.queue[i].stars is None,
    ensures
        ({
            let stars = |n: u8|
                AskV::Rate {
                    path: s.queue[i].path,
                    title: s.queue[i].title,
                    stars: Some(n),
                };
            let one = s.areas.star_one.holds(pos);
            let two = s.areas.star_two.holds(pos);
            let three = s.areas.star_three.holds(pos);
            &&& one ==> s.body_clicked(pos).asking == stars(1)
            &&& !one && two ==> s.body_clicked(pos).asking == stars(2)
            &&& !one && !two && three ==> s.body_clicked(pos).asking == stars(3)
        }),
{
    reveal(AppV::body_clicked);
    reveal(AppV::rating);
}

impl AppV {
    /// Nothing is in front of the player's controls.
    pub open spec fn is_clear(self) -> bool {
        self.prompt is None && !self.show_keys
    }

    /// None of the places to the left of the controls is at `pos`.
    pub open spec fn off_the_lists(self, pos: Position) -> bool {
        let at = self.areas;
        !at.add.holds(pos) && !at.remove.holds(pos) && !at.feed_rows.holds(pos)
            && !at.local_tab.holds(pos) && !at.feeds_tab.holds(pos) && !at.radio_tab.holds(pos)
    }
}

/// The controls do what they show: the middle one pauses and goes on, the outer two go
/// back and on through the queue, the bar seeks, and shuffle is turned over.
pub proof fn law_the_controls_do_what_they_show(s: AppV, pos: Position, i: int)
    requires
        s.is_clear(),
        s.off_the_lists(pos),
        s.plays(i),
    ensures
        ({
            let at = s.areas;
            let play = at.play.holds(pos);
            let back = at.prev.holds(pos);
            let on = at.next.holds(pos);
            let bar = at.seek_bar.holds(pos);
            let t = s.clicked(pos);
            &&& play ==> t.effects == s.effects.push(Effect::Toggle) && t.queue_pos == s.queue_pos
            &&& !play && back ==> t == s.previous()
            &&& !play && !back && on ==> t == s.next()
            &&& !play && !back && !on && bar ==> t == s.dragged(pos)
            &&& !play && !back && !on && !bar && at.shuffle.holds(pos) ==> t == s.shuffle_toggled()
        }),
{
    reveal(AppV::clicked);
    reveal(AppV::toggled);
}

/// A click on a source goes over to it, and closes the list of keys when that is open.
pub proof fn law_a_click_on_a_source_shows_it(s: AppV, pos: Position)
    requires
        s.prompt is None,
        s.resume is None,
        !s.areas.add.holds(pos) && !s.areas.remove.holds(pos) && !s.areas.feed_rows.holds(pos),
    ensures
        s.show_keys ==> s.clicked(pos) == (AppV { show_keys: false, ..s }),
        !s.show_keys ==> {
            let at = s.areas;
            let local = at.local_tab.holds(pos);
            let feeds = at.feeds_tab.holds(pos);
            &&& local ==> s.clicked(pos).tab == Tab::Local
            &&& !local && feeds ==> s.clicked(pos).tab == Tab::Feeds
            &&& !local && !feeds && at.radio_tab.holds(pos) ==> s.clicked(pos).tab == Tab::Radio
        },
{
    reveal(AppV::clicked);
    reveal(AppV::tab_selected);
    reveal(AppV::feed_reloading);
    law_listing_does_not_disturb_playback(
        (AppV { tab: Tab::Local, tracks_dir: None, ..s }).touched(),
    );
}

// ---------------------------------------------------------------------------

/// What is typed goes to the end of the field, and a letter that is erased was never
/// typed. A key that changes the field changes nothing else.
pub proof fn law_typing_can_be_undone(s: AppV, p: PromptV, key: char)
    requires
        s.prompt == Some(p),
        !(p.kind is Delete),
    ensures
        s.prompt_keyed(key) == (AppV {
            prompt: Some(PromptV { input: p.input.push(key), ..p }),
            ..s
        }),
        s.prompt_keyed(key).prompt_erased() == s,
        p.input.len() == 0 ==> s.prompt_erased() == s,
        p.input.len() > 0 ==> s.prompt_erased().prompt_keyed(p.input.last()) == s,
{
    reveal(AppV::prompt_keyed);
    reveal(AppV::prompt_erased);
    assert(p.input.push(key).drop_last() =~= p.input);
    if p.input.len() > 0 {
        assert(p.input.drop_last().push(p.input.last()) =~= p.input);
    }
}

/// Deleting goes ahead on `y` with exactly what was asked about, for anything inside the
/// library or on the server.
pub proof fn law_y_deletes_what_was_asked_about(s: AppV, p: PromptV, target: Seq<char>)
    requires
        s.prompt == Some(p),
        p.kind == PromptKindV::Delete(target),
        has_scheme(target) || (inside(target, s.root) && !same_path(target, s.root)),
    ensures
        s.prompt_keyed('y') == (AppV { prompt: None, asking: AskV::Delete { target }, ..s }),
        s.prompt_keyed('Y') == s.prompt_keyed('y'),
{
    reveal(AppV::prompt_keyed);
    reveal(AppV::deleting);
}

/// What the editing keys act on is what is highlighted in the focused pane, and each
/// opens its own prompt on it.
pub proof fn law_editing_acts_on_the_highlight(s: AppV, row: usize)
    requires
        s.tab == Tab::Local,
    ensures
        s.focus == Pane::Folders && s.folder_state.selected == Some(row) && 1 <= row
            <= s.folders.len() ==> {
            let f = s.folders[row - 1];
            &&& s.rename_prompted().prompt matches Some(p) && p.kind == PromptKindV::Rename(f.path)
                && p.input == f.label
            &&& s.delete_prompted().prompt matches Some(p) && p.kind == PromptKindV::Delete(f.path)
                && p.input.len() == 0
            &&& s.library_path(f.path) matches Some(path) ==> (s.relocate_prompted().prompt matches
                Some(p) && p.kind == PromptKindV::Relocate(f.path) && p.input == path)
        },
        s.focus == Pane::Tracks && s.track_state.selected == Some(row) && row < s.tracks.len() ==> {
            let t = s.tracks[row as int];
            &&& s.rename_prompted().prompt matches Some(p) && p.kind == PromptKindV::Rename(t.path)
                && p.input == label_of(t.path)
            &&& s.delete_prompted().prompt matches Some(p) && p.kind == PromptKindV::Delete(t.path)
            &&& s.library_path(t.path) matches Some(path) ==> (s.relocate_prompted().prompt matches
                Some(p) && p.kind == PromptKindV::Relocate(t.path) && p.input == path)
        },
{
    reveal(AppV::rename_prompted);
    reveal(AppV::delete_prompted);
    reveal(AppV::relocate_prompted);
}

/// A new name takes the place of the old one and leaves the folder it is in alone.
pub proof fn law_renaming_stays_in_the_folder(dir: Seq<char>, old: Seq<char>, name: Seq<char>)
    requires
        !old.contains('/'),
    ensures
        renamed(dir + "/"@ + old, name) == dir + "/"@ + name,
        renamed(old, name) == name,
{
    reveal_strlit("/");
    let path = dir + "/"@ + old;
    assert forall|i: int| 0 <= i < old.len() implies #[trigger] old[i] != '/' by {
        assert(old.contains(old[i]));
    }
    assert forall|i: int| dir.len() < i < path.len() implies #[trigger] path[i] != '/' by {
        assert(path[i] == old[i - dir.len() - 1]);
    }
    lemma_rfind_is(path, '/', dir.len() as int);
    assert(path.take(dir.len() as int) =~= dir);
    paths::lemma_rfind(old, '/');
}

/// A new name that is a name is asked for in the place of the old one. Once it is done
/// the prompt closes and the folder is listed anew; refused, what was typed stays, with
/// the reason under it. A name that leads elsewhere is never asked for.
pub proof fn law_a_rename_is_asked_for(
    s: AppV,
    p: PromptV,
    target: Seq<char>,
    path: Seq<char>,
    refusal: Option<Seq<char>>,
    why: Seq<char>,
)
    requires
        s.prompt == Some(p),
        p.kind == PromptKindV::Rename(target),
        s.library_path(target) == Some(path),
    ensures
        ({
            let name = trimmed(p.input);
            let asked = s.submitted(refusal);
            &&& is_plain_name(name) ==> {
                &&& asked.asking matches AskV::Change { target: what, to, done } && what == target
                    && to == renamed(path, name) && done == "renamed to "@ + name
                &&& asked.prompt == s.prompt
                &&& asked.changed(None).prompt is None
                &&& asked.changed(None).status == "renamed to "@ + name
                &&& asked.changed(None).asking == (AskV::List { dir: s.cwd, why: Why::Refresh })
                &&& asked.changed(Some(why)).prompt == Some(PromptV { hint: why, ..p })
                &&& asked.changed(Some(why)).asking == AskV::Nothing
            }
            &&& name.len() == 0 || name.contains('/') ==> {
                &&& asked.asking == s.asking
                &&& asked.prompt matches Some(q) && q.input == p.input && q.kind == p.kind
            }
        }),
{
    reveal(AppV::submitted);
    reveal(AppV::rename_submitted);
    reveal(AppV::changed);
    reveal(AppV::refreshing);
}

/// What was deleted is named, and the folder is listed anew either way.
pub proof fn law_a_deletion_is_reported(s: AppV, target: Seq<char>, failure: Option<Seq<char>>)
    requires
        s.asking == (AskV::Delete { target }),
    ensures
        ({
            let t = s.deleted(failure);
            &&& t.asking == (AskV::List { dir: s.cwd, why: Why::Refresh })
            &&& t.memo.len() == 0
            &&& t.status == match failure {
                None => "deleted "@ + label_of(target),
                Some(why) => "could not delete "@ + label_of(target) + ": "@ + why,
            }
        }),
{
    reveal(AppV::deleted);
    reveal(AppV::after_delete);
    reveal(AppV::refreshing);
}

/// A server that answers is kept and written down at once, with its token. One that does
/// not is kept all the same on a second Enter, and on no first one.
pub proof fn law_a_server_is_added_when_it_answers(
    s: AppV,
    p: PromptV,
    server: Seq<char>,
    token: Option<Seq<char>>,
    why: Seq<char>,
)
    requires
        s.prompt == Some(p),
        p.kind == PromptKindV::Server,
        p.retry is None,
        trimmed(p.input).len() > 0,
        kept_address(p.input) == Ok::<(Seq<char>, Option<Seq<char>>), Seq<char>>((server, token)),
        s.settings_file is Some,
    ensures
        ({
            let asked = s.submitted(None);
            let added = asked.server_answered(None);
            let warned = asked.server_answered(Some(why));
            let again = warned.submitted(None);
            &&& asked.asking == (AskV::Reach { server, token })
            &&& asked.remote == s.remote
            &&& added.remote == (RemoteV { server: Some(server), token })
            &&& added.prompt is None
            &&& added.effects == s.effects.push(Effect::SaveSettings)
            &&& added.memo.len() == 0
            &&& warned.remote == s.remote
            &&& warned.effects == s.effects
            &&& warned.prompt matches Some(q) && q.input == p.input && q.hint == why
                + " · Enter again to add it anyway"@
            &&& again.remote == (RemoteV { server: Some(server), token })
            &&& again.prompt is None
            &&& again.effects == s.effects.push(Effect::SaveSettings)
        }),
        s.submitted(Some(why)).remote == s.remote,
        s.submitted(Some(why)).asking == s.asking,
        s.submitted(Some(why)).prompt == Some(PromptV { hint: why, ..p }),
{
    reveal(AppV::submitted);
    reveal(AppV::server_submitted);
    reveal(AppV::server_answered);
    reveal(AppV::server_accepted);
    reveal(AppV::writing_settings);
    reveal(AppV::relisting);
}

// ---------------------------------------------------------------------------

/// A feed that is typed in is added at the end, under its host's name, highlighted, and
/// fetched; one that is no address, or listed already, is not, and what was typed stays.
pub proof fn law_a_typed_feed_is_added(s: AppV, p: PromptV, refusal: Option<Seq<char>>)
    requires
        s.prompt == Some(p),
        p.kind == PromptKindV::Feed,
        s.feeds.len() < usize::MAX,
        s.feeds_file is Some,
    ensures
        ({
            let url = trimmed(p.input);
            let t = s.submitted(refusal);
            let known = exists|i: int| 0 <= i < s.feeds.len() && (#[trigger] s.feeds[i]).url == url;
            &&& url.len() == 0 ==> t == (AppV { prompt: None, ..s })
            &&& url.len() > 0 && (!is_url_text(url) || known) ==> {
                &&& t.feeds == s.feeds
                &&& t.effects == s.effects
                &&& t.prompt matches Some(q) && q.input == p.input && q.kind == p.kind
            }
            &&& url.len() > 0 && is_url_text(url) && !known ==> {
                &&& t.feeds.len() == s.feeds.len() + 1
                &&& t.feeds.drop_last() == s.feeds
                &&& t.feeds.last().url == url
                &&& t.feeds.last().name == host(url)
                &&& t.feed_state.selected == Some(s.feeds.len() as usize)
                &&& t.prompt is None
                &&& t.fetched_url == Some(url)
                &&& s.fetched_url != Some(url) ==> t.effects == s.effects.push(
                    Effect::SaveFeeds,
                ).push(Effect::Fetch)
            }
        }),
{
    reveal(AppV::submitted);
    reveal(AppV::feed_submitted);
    reveal(AppV::feeds_persisted);
    reveal(AppV::feed_reloading);
    let url = trimmed(p.input);
    law_a_feed_is_found_by_its_address(s.feeds, url);
    assert(s.feeds.push(FeedV { name: host(url), url }).drop_last() =~= s.feeds);
}

/// A feed is found by its address, the first that has it.
pub proof fn law_a_feed_is_found_by_its_address(feeds: Seq<FeedV>, url: Seq<char>)
    ensures
        feed_place(feeds, url) <= feeds.len(),
        feed_place(feeds, url) < feeds.len() ==> feeds[feed_place(feeds, url) as int].url == url,
        forall|i: int| 0 <= i < feed_place(feeds, url) ==> (#[trigger] feeds[i]).url != url,
    decreases feeds.len(),
{
    if feeds.len() > 0 && feeds[0].url != url {
        let rest = feeds.skip(1);
        law_a_feed_is_found_by_its_address(rest, url);
        assert forall|i: int| 0 <= i < feed_place(feeds, url) implies (#[trigger] feeds[i]).url
            != url by {
            if i > 0 {
                assert(rest[i - 1] == feeds[i]);
            }
        }
    }
}

/// Removing a feed takes out the highlighted one and no other, and the cursor stays in
/// its place, or on the last that is left.
pub proof fn law_the_highlighted_feed_is_removed(s: AppV, i: usize)
    requires
        s.feed_state.selected == Some(i),
        i < s.feeds.len() <= usize::MAX,
        s.feeds_file is Some,
    ensures
        ({
            let t = s.feed_removed();
            &&& t.feeds.len() == s.feeds.len() - 1
            &&& forall|k: int| 0 <= k < i ==> #[trigger] t.feeds[k] == s.feeds[k]
            &&& forall|k: int| i <= k < t.feeds.len() ==> #[trigger] t.feeds[k] == s.feeds[k + 1]
            &&& t.status == "removed "@ + s.feeds[i as int].name
            &&& t.effects.len() > s.effects.len()
            &&& t.effects[s.effects.len() as int] == Effect::SaveFeeds
            &&& t.feed_state.selected == (if t.feeds.len() == 0 {
                None
            } else if i < t.feeds.len() {
                Some(i)
            } else {
                Some((t.feeds.len() - 1) as usize)
            })
        }),
{
    reveal(AppV::feed_removed);
    reveal(AppV::feeds_persisted);
    reveal(AppV::feed_reloading);
}

/// A highlighted feed's episodes are fetched, unless they are on screen already.
pub proof fn law_the_highlighted_feed_is_fetched(s: AppV, i: usize)
    requires
        s.feed_state.selected == Some(i),
        i < s.feeds.len(),
    ensures
        s.feed_reloading().fetched_url == Some(s.feeds[i as int].url),
        s.fetched_url == Some(s.feeds[i as int].url) ==> s.feed_reloading() == s,
        s.fetched_url != Some(s.feeds[i as int].url) ==> {
            let t = s.feed_reloading();
            &&& t.effects == s.effects.push(Effect::Fetch)
            &&& t.feed_loading
            &&& t.tracks.len() == 0
            &&& t.fetch_generation != s.fetch_generation
        },
{
    reveal(AppV::feed_reloading);
}

/// The episodes that were fetched are on screen, one track for each, and a feed that
/// still goes by its host takes its channel's name; a name that was given is kept. A
/// fetch that failed says why and shows nothing.
pub proof fn law_a_fetched_feed_is_shown(
    s: AppV,
    replies: Seq<(u64, Result<ChannelV, Seq<char>>)>,
    i: usize,
)
    requires
        s.resume is None,
        s.feed_state.selected == Some(i),
        i < s.feeds.len(),
        replies.len() > 0,
        replies.last().0 == s.fetch_generation,
    ensures
        ({
            let t = s.feed_fetched(replies);
            let f = s.feeds[i as int];
            &&& !t.feed_loading
            &&& t.queue == s.queue
            &&& t.feeds.len() == s.feeds.len()
            &&& forall|k: int|
                0 <= k < s.feeds.len() ==> (#[trigger] t.feeds[k]).url == s.feeds[k].url && (k != i
                    ==> t.feeds[k].name == s.feeds[k].name)
            &&& match replies.last().1 {
                Ok(channel) => {
                    &&& t.tracks == feed_tracks(channel)
                    &&& t.tracks.len() == channel.episodes.len()
                    &&& t.feeds[i as int].name == (if f.name == host(f.url) && channel.title.len()
                        > 0 {
                        channel.title
                    } else {
                        f.name
                    })
                },
                Err(why) => {
                    &&& t.tracks.len() == 0
                    &&& t.status == "feed failed: "@ + why
                    &&& t.feeds == s.feeds
                },
            }
        }),
{
    reveal(AppV::feed_fetched);
    reveal(AppV::title_adopted);
    reveal(AppV::feeds_persisted);
    reveal(AppV::showing);
    reveal(AppV::resuming);
    assert(newest_fetch(replies, s.fetch_generation) == Some(replies.last().1));
}

/// Moving among the feeds moves by rows and fetches the feed it comes to.
pub proof fn law_moving_among_feeds_fetches(s: AppV, i: usize, delta: int)
    requires
        s.feed_state.selected == Some(i),
        i < s.feeds.len() <= usize::MAX,
        delta != 0,
        0 <= i + delta < s.feeds.len(),
    ensures
        s.feed_moved(delta).feed_state.selected == Some((i + delta) as usize),
        s.feed_moved(delta).fetched_url == Some(s.feeds[i + delta].url),
        s.tab == Tab::Feeds && s.focus == Pane::Folders ==> s.selection_moved(delta)
            == s.feed_moved(delta),
{
    reveal(AppV::feed_moved);
    reveal(AppV::feed_reloading);
    reveal(AppV::selection_moved);
}

// ---------------------------------------------------------------------------

/// A session is written as it is: the source, the folder and the row, the feed, and what
/// plays with the folder it came from.
pub proof fn law_a_session_says_where_one_was(s: AppV, position: Seq<Seq<char>>)
    ensures
        ({
            let w = s.session(position);
            &&& w.tab matches Some(key) && Tab::keyed(key) == Some(s.tab)
            &&& w.folder == Some(s.cwd)
            &&& w.position == position
            &&& match s.folder_state.selected {
                Some(row) if 1 <= row <= s.folders.len() => w.selected == Some(
                    s.folders[row - 1].path,
                ),
                _ => w.selected == Some(s.cwd),
            }
            &&& match s.feed_state.selected {
                Some(i) if i < s.feeds.len() => w.feed == Some(s.feeds[i as int].url),
                _ => w.feed is None,
            }
            &&& match s.queue_pos {
                Some(i) if i < s.queue.len() => w.track == Some(s.queue[i as int].path) && w.queue
                    == s.queue_dir && w.playing == !s.audio.paused,
                _ => w.track is None && w.queue is None,
            }
        }),
{
    reveal_strlit("local");
    reveal_strlit("feeds");
    reveal_strlit("radio");
    assert("local"@[0] != "feeds"@[0]);
    assert("local"@[0] != "radio"@[0]);
    assert("feeds"@[0] != "radio"@[0]);
}

/// A session that is put back leads to what was playing, in the folder that holds it, or
/// to where one was when nothing played; on the same track, at the same place.
pub proof fn law_a_session_leads_back(
    s: AppV,
    position: Seq<Seq<char>>,
    at: Duration,
    present: Present,
)
    requires
        present.folder && present.selected && present.queue && present.track,
    ensures
        ({
            let w = s.session(position);
            let r = restoring_from(s.root, s.remote, w, at, present);
            &&& r.tab == w.tab
            &&& r.feed == w.feed
            &&& r.cwd == s.root
            &&& r.trail.len() == 0
            &&& match s.queue_pos {
                Some(i) if i < s.queue.len() => {
                    &&& r.resume matches Some(x) && x.track == s.queue[i as int].path && x.position
                        == at && x.playing == !s.audio.paused
                    &&& match s.queue_dir {
                        Some(q) if !same_path(q, s.root) && parent(q) is Some => r.folder == parent(
                            q,
                        ) && r.selected == Some(q),
                        _ => r.folder == Some(s.cwd) && r.selected == Some(s.listing_dir()),
                    }
                },
                _ => r.resume is None && r.folder == Some(s.cwd) && r.selected == Some(
                    s.listing_dir(),
                ),
            }
        }),
{
}

/// What was moved to the server is found there, under the name it had here; what is still
/// here, is elsewhere, or has no server to be on stays as it was.
pub proof fn law_what_was_moved_is_found_on_the_server(
    root: Seq<char>,
    server: Seq<char>,
    name: Seq<char>,
    path: Seq<char>,
)
    requires
        root.len() > 0,
        is_entry(name),
    ensures
        !has_scheme(within(root, name)) ==> on_server_if_moved(
            root,
            Some(server),
            within(root, name),
            false,
        ) == server + "/"@ + name,
        on_server_if_moved(root, Some(server), path, true) == path,
        on_server_if_moved(root, None, path, false) == path,
        has_scheme(path) || !inside(path, root) ==> on_server_if_moved(
            root,
            Some(server),
            path,
            false,
        ) == path,
{
    law_entries_lie_in_their_folder(root, name);
    assert(joined(seq![name], paths::slash()) == name);
}

/// The feed and the source of a session are put back where they still exist.
pub proof fn law_a_session_is_put_back(s: AppV, r: RestoringV, i: int, tab: Tab)
    requires
        0 <= i < s.feeds.len() <= usize::MAX,
        r.feed == Some(s.feeds[i].url),
        forall|k: int| 0 <= k < i ==> (#[trigger] s.feeds[k]).url != s.feeds[i].url,
        r.tab == Some(tab.key_text()),
    ensures
        ({
            let t = s.session_put(r);
            &&& t.feed_state.selected == Some(i as usize)
            &&& t.tab == tab
            &&& t.resume == r.resume
            &&& t.restoring is None
            &&& t.queue == s.queue
        }),
{
    reveal(AppV::session_put);
    law_a_session_says_where_one_was(AppV { tab, ..s }, seq![]);
    law_a_feed_is_found_by_its_address(s.feeds, s.feeds[i].url);
    let at = feed_place(s.feeds, s.feeds[i].url) as int;
    if at < i {
        assert(s.feeds[at].url == s.feeds[i].url);
    }
}

/// A session's folder is looked for from the library's own down, and only inside the
/// library or on the server; once it is reached, the row that was highlighted is again.
pub proof fn law_a_session_descends(s: AppV, r: RestoringV, rows: Seq<FolderV>, k: int)
    requires
        s.restoring == Some(r),
        r.folder is Some,
        0 <= k < rows.len(),
        rows.len() + 2 <= usize::MAX,
        r.selected == Some(rows[k].path),
        !same_path(rows[k].path, r.cwd),
        forall|j: int| 0 <= j < k ==> !same_path((#[trigger] rows[j]).path, rows[k].path),
    ensures
        inside(r.folder->0, s.root) || has_scheme(r.folder->0) ==> s.descending() == (AppV {
            asking: AskV::List { dir: s.root, why: Why::Descend },
            ..s
        }),
        ({
            let t = s.settled(r, rows);
            &&& t.cwd == r.cwd
            &&& t.folders == rows
            &&& t.trail == r.trail
            &&& t.folder_state.selected == Some((k + 1) as usize)
            &&& t.listing_dir() == rows[k].path
        }),
{
    reveal(AppV::descending);
    reveal(AppV::settled);
    law_the_first_match_is_found(rows, seq![], rows[k].path);
    let at = folder_place(rows, rows[k].path) as int;
    if at < k {
        assert(same_path(rows[at].path, rows[k].path));
    }
    assert(at == k);
}

// ---------------------------------------------------------------------------

/// Forgetting a file takes out every line with its name and leaves the rest, in order.
pub proof fn law_only_the_named_file_leaves(
    sending: Seq<(Seq<char>, u64)>,
    name: Seq<char>,
    other: Seq<char>,
    size: u64,
)
    ensures
        forall|i: int|
            0 <= i < without(sending, name).len() ==> (#[trigger] without(sending, name)[i]).0
                != name,
        without(sending.push((name, size)), name) == without(sending, name),
        other != name ==> without(sending.push((other, size)), name) == without(
            sending,
            name,
        ).push((other, size)),
        (forall|i: int| 0 <= i < sending.len() ==> (#[trigger] sending[i]).0 != name) ==> without(
            sending,
            name,
        ) == sending,
    decreases sending.len(),
{
    assert(sending.push((name, size)).drop_last() =~= sending);
    assert(sending.push((other, size)).drop_last() =~= sending);
    if sending.len() > 0 {
        let rest = sending.drop_last();
        law_only_the_named_file_leaves(rest, name, other, size);
        if forall|i: int| 0 <= i < sending.len() ==> (#[trigger] sending[i]).0 != name {
            assert forall|i: int| 0 <= i < rest.len() implies (#[trigger] rest[i]).0 != name by {
                assert(rest[i] == sending[i]);
            }
            assert(sending.last() == sending[sending.len() - 1]);
            assert(rest.push(sending.last()) =~= sending);
        }
    }
}

/// A file is shown while it is sent and by its name inside the folder being moved; done
/// or failed, it leaves, and what the server had already is counted without being sent.
pub proof fn law_a_file_is_shown_while_it_is_sent(
    m: MoveV,
    rest: Seq<char>,
    size: u64,
    index: usize,
    sent: SentV,
)
    requires
        rest.len() > 0,
        rest[0] != '/',
        sent.remote == m.base + "/"@ + rest,
        forall|i: int| 0 <= i < m.sending.len() ==> (#[trigger] m.sending[i]).0 != rest,
        m.skipped_bytes + sent.size <= u64::MAX,
    ensures
        ({
            let a = m.after(StepV::Start { remote: sent.remote, size });
            let done = a.after(StepV::Done { index, sent });
            let failed = a.after(StepV::Failed { remote: sent.remote });
            &&& m.name_of(sent.remote) == rest
            &&& a.sending == m.sending.push((rest, size))
            &&& done.sending == m.sending
            &&& done.done_files == index
            &&& done.skipped_bytes == m.skipped_bytes + (if sent.skipped {
                sent.size as int
            } else {
                0
            })
            &&& failed == m
        }),
{
    reveal_strlit("/");
    let remote = sent.remote;
    assert(remote.take(m.base.len() as int) =~= m.base);
    let tail = remote.skip(m.base.len() as int);
    assert(tail =~= "/"@ + rest);
    assert(tail[0] == '/');
    assert(tail.skip(1) =~= rest);
    assert(stripped_start(tail, '/') == stripped_start(rest, '/'));
    assert(stripped_start(rest, '/') == rest);
    assert(m.name_of(remote) == rest);
    law_only_the_named_file_leaves(m.sending, rest, rest, size);
    let a = m.after(StepV::Start { remote, size });
    assert(a.name_of(remote) == m.name_of(remote));
    assert(a.sending == m.sending.push((rest, size)));
    assert(without(a.sending, rest) == m.sending);
}

/// A folder of the library goes to the same place on the server, once there is a server
/// and no other folder is on its way.
pub proof fn law_a_folder_moves_to_its_place_on_the_server(
    s: AppV,
    row: usize,
    name: Seq<char>,
    why: Seq<char>,
)
    requires
        s.folder_state.selected == Some(row),
        1 <= row <= s.folders.len(),
        s.root.len() > 0,
        !has_scheme(s.root),
        is_entry(name),
        s.folders[row - 1].path == within(s.root, name),
        !has_scheme(within(s.root, name)),
    ensures
        s.remote.server is Some && !s.is_moving() ==> {
            let t = s.selected_moved(None);
            &&& t.moving == Some((within(s.root, name), name))
            &&& t.effects == s.effects.push(Effect::Move)
            &&& t.is_moving()
            &&& t.status == "moving "@ + name + "…"@
            &&& s.selected_moved(Some(why)) == s.saying("error: "@ + why)
        },
        s.remote.server is None ==> s.selected_moved(None) == s.saying("no server yet: a adds one"@),
        s.remote.server is Some && s.is_moving() ==> s.selected_moved(None) == s.saying(
            "a move is already running"@,
        ),
{
    reveal(AppV::selected_moved);
    reveal(AppV::move_started);
    law_entries_lie_in_their_folder(s.root, name);
    assert(joined(seq![name], paths::slash()) == name);
}

/// What is on the server already does not go there again.
pub proof fn law_what_is_on_the_server_stays(s: AppV, row: usize)
    requires
        s.folder_state.selected == Some(row),
        1 <= row <= s.folders.len(),
        has_scheme(s.folders[row - 1].path),
        s.remote.server is Some,
        !s.is_moving(),
    ensures
        s.selected_moved(None) == s.saying(s.folders[row - 1].label + " is already on the server"@),
{
    reveal(AppV::selected_moved);
}

/// A move that is over says so once, and the library is listed as it now is.
pub proof fn law_a_finished_move_is_told_once(s: AppV, t: Transfer, message: Seq<char>)
    requires
        s.transfer == Some(t),
        !t.settled,
    ensures
        ({
            let u = s.move_polled(Some(message));
            &&& u.status == message
            &&& !u.is_moving()
            &&& u.memo.len() == 0
            &&& u.asking == (AskV::List { dir: s.cwd, why: Why::Refresh })
            &&& u.move_polled(Some(message)) == u
        }),
        s.move_polled(None) == s,
        s.log_toggled().log_toggled() == s,
        s.log_toggled().transfer matches Some(u) && u.visible == !t.visible && u.settled
            == t.settled,
        s.log_hidden().transfer matches Some(u) && !u.visible,
{
    reveal(AppV::move_polled);
    reveal(AppV::refreshing);
    reveal(AppV::log_toggled);
}

// ---------------------------------------------------------------------------

/// A path from the top of the library names what it leads to: a local path by the entries
/// below the library's folder, and an address by its path on the server.
pub proof fn law_library_paths_start_at_the_top(
    s: AppV,
    name: Seq<char>,
    inner: Seq<char>,
    authority: Seq<char>,
    path: Seq<char>,
)
    requires
        s.root.len() > 0,
        is_entry(name),
        is_entry(inner),
        is_authority(authority),
    ensures
        !has_scheme(within(s.root, name)) ==> s.library_path(within(s.root, name)) == Some(name),
        !has_scheme(within(within(s.root, name), inner)) ==> s.library_path(
            within(within(s.root, name), inner),
        ) == Some(name + "/"@ + inner),
        s.library_path(place(authority, path)) == Some(stripped(path, '/')),
{
    let a = within(s.root, name);
    law_entries_lie_in_their_folder(s.root, name);
    law_entries_lie_in_their_folder(a, inner);
    law_addresses_lead_back(authority, path);
    let c = paths::comps(s.root);
    assert(c.push(name).push(inner).take(c.len() as int) =~= c);
    assert(c.push(name).push(inner).skip(c.len() as int) =~= seq![name] + seq![inner]);
    law_pieces_are_joined_in_order(seq![name], seq![inner], paths::slash(), name);
    law_pieces_are_joined_in_order(seq![name], seq![inner], paths::slash(), inner);
    reveal_strlit("/");
    assert("/"@ =~= paths::slash());
}

/// Something that is moved goes where the typed path leads from the top of the library,
/// entry by entry; a path that climbs is not asked for.
pub proof fn law_a_new_place_is_in_the_library(
    s: AppV,
    p: PromptV,
    target: Seq<char>,
    parts: Seq<Seq<char>>,
    refusal: Option<Seq<char>>,
)
    requires
        s.prompt == Some(p),
        p.kind == PromptKindV::Relocate(target),
        parts.len() > 0,
        are_entries(parts),
        stripped(trimmed(p.input), '/') == joined(parts, paths::slash()),
        s.root.len() > 0,
    ensures
        ({
            let to = joined(parts, paths::slash());
            let t = s.submitted(refusal);
            &&& t.asking == (AskV::Change { target, to, done: "moved to /"@ + to })
            &&& t.prompt == s.prompt
            &&& paths::comps(destination(s.root, to)) == paths::comps(s.root) + parts
            &&& inside(destination(s.root, to), s.root)
        }),
{
    reveal(AppV::submitted);
    reveal(AppV::relocate_submitted);
    let to = joined(parts, paths::slash());
    assert forall|i: int| 0 <= i < parts.len() implies !(#[trigger] parts[i]).contains('/') by {
        assert(is_entry(parts[i]));
    }
    law_joined_pieces_come_apart(parts, '/');
    law_a_request_path_leads_back(s.root, parts);
    assert forall|i: int| 0 <= i < pieces(to, '/').len() implies (#[trigger] pieces(to, '/')[i]).len()
        > 0 && pieces(to, '/')[i] != paths::dot() && pieces(to, '/')[i] != paths::dots() by {
        assert(is_entry(parts[i]));
    }
    assert(is_entry(parts[0]));
    assert(to.len() > 0) by {
        if parts.len() > 1 {
            assert(to == parts[0] + paths::slash() + joined(parts.skip(1), paths::slash()));
        }
    }
}

/// A path that climbs is no new place.
pub proof fn law_no_new_place_climbs(a: Seq<char>, b: Seq<char>)
    ensures
        !is_plain_path(a + seq!['/'] + paths::dots() + seq!['/'] + b),
        !is_plain_path(a + seq!['/'] + seq!['/'] + b),
        !is_plain_path(seq![]),
{
    let up = paths::dots();
    let none = Seq::<char>::empty();
    law_texts_come_apart_at_every_separator(up, '/', none);
    law_texts_come_apart_at_every_separator(none, '/', none);
    law_texts_come_apart_at_every_separator(a, '/', up);
    law_texts_come_apart_at_every_separator(a + seq!['/'] + up, '/', b);
    law_texts_come_apart_at_every_separator(a, '/', none);
    law_texts_come_apart_at_every_separator(a + seq!['/'] + none, '/', b);
    assert(!up.contains('/'));
    assert(!none.contains('/'));
    let n = pieces(a, '/').len() as int;
    let x = a + seq!['/'] + up + seq!['/'] + b;
    assert(pieces(x, '/')[n] == up);
    let y = a + seq!['/'] + none + seq!['/'] + b;
    assert(y =~= a + seq!['/'] + seq!['/'] + b);
    assert(pieces(y, '/')[n] == none);
}

/// A click on a feed highlights it and fetches its episodes, unless it is highlighted
/// already.
pub proof fn law_a_clicked_feed_is_fetched(s: AppV, pos: Position, row: usize)
    requires
        s.is_clear(),
        !s.areas.add.holds(pos) && !s.areas.remove.holds(pos),
        s.areas.feed_rows.holds(pos),
        row < s.feeds.len() <= usize::MAX,
        row == s.feed_state.offset + (pos.y - s.areas.feed_rows.y),
    ensures
        s.clicked(pos).focus == Pane::Folders,
        s.clicked(pos).feed_state.selected == Some(row),
        s.feed_state.selected != Some(row) ==> s.clicked(pos).fetched_url == Some(
            s.feeds[row as int].url,
        ),
        s.clicked(pos).queue == s.queue,
{
    reveal(AppV::clicked);
    reveal(AppV::feed_clicked);
    reveal(AppV::feed_reloading);
}

/// A source that is gone over to shows its own list: the local one that of the folder
/// under the cursor, and the feeds that of the highlighted one.
pub proof fn law_each_source_shows_its_own_list(s: AppV, i: usize)
    requires
        s.resume is None,
        s.tab == Tab::Radio,
    ensures
        s.tab_selected(Tab::Local).tab == Tab::Local,
        s.tab_selected(Tab::Local).tracks_dir matches Some(d) && same_path(d, s.listing_dir()),
        s.tab_selected(Tab::Feeds).tab == Tab::Feeds,
        s.feed_state.selected == Some(i) && i < s.feeds.len() ==> {
            &&& s.tab_selected(Tab::Feeds).fetched_url == Some(s.feeds[i as int].url)
            &&& s.tab_selected(Tab::Feeds).effects == s.effects.push(Effect::Fetch)
        },
        s.tab_selected(Tab::Radio) == s,
{
    reveal(AppV::tab_selected);
    reveal(AppV::feed_reloading);
    let a = (AppV { tab: Tab::Local, tracks_dir: None, ..s }).touched();
    law_the_list_follows_the_cursor(a);
    law_listing_does_not_disturb_playback(a);
}

/// At the top of a local library the server's folders are listed beside the local ones,
/// and nowhere else. A server that cannot be reached costs only its own folders, and says
/// why.
pub proof fn law_the_server_joins_at_the_top(
    s: AppV,
    dir: Seq<char>,
    why: Why,
    here: Seq<FolderV>,
    there: Seq<FolderV>,
    rows: Result<Seq<FolderV>, Seq<char>>,
    failure: Seq<char>,
)
    requires
        s.asking == (AskV::List { dir, why }),
        here.len() + there.len() <= usize::MAX,
    ensures
        ({
            let local = Ok::<Seq<FolderV>, Seq<char>>(here);
            let served = Some(Ok::<Seq<FolderV>, Seq<char>>(there));
            let failed = Some(Err::<Seq<FolderV>, Seq<char>>(failure));
            let top = s.remote.server is Some && !has_scheme(s.root) && same_path(dir, s.root);
            &&& top && s.is_listing(local, served, rows) ==> (rows matches Ok(all) && forall|f: FolderV|
                #[trigger]
                all.contains(f) <==> here.contains(f) || (there.contains(f) && forall|i: int|
                    0 <= i < here.len() ==> (#[trigger] here[i]).label != f.label))
            &&& !top ==> (s.is_listing(local, served, rows) <==> rows == local)
            &&& s.is_listing(local, failed, rows) <==> rows == local
            &&& s.is_listing(local, None, rows) <==> rows == local
            &&& top ==> s.server_heard(local, failed) == s.saying("server: "@ + failure)
            &&& !top ==> s.server_heard(local, failed) == s
            &&& s.server_heard(local, served) == s
        }),
{
    if s.wants_server() {
        if let Ok(all) = rows {
            if is_merge(here, there, all) {
                law_both_sides_are_shown_once(here, there, all);
            }
        }
    }
}

/// A session that is put back brings its server and its shuffle, and looks for its folder
/// from the library's own down; at the top, the server's folders are listed first. What
/// plays is not touched by any of it.
pub proof fn law_a_restored_session_looks_for_its_folder(
    s: AppV,
    settings: SettingsV,
    refusal: Option<Seq<char>>,
    position: Duration,
    present: Present,
    folder: Seq<char>,
)
    requires
        settings.session.folder == Some(folder),
        settings.session.track is None,
        present.folder,
        inside(folder, s.root),
    ensures
        ({
            let t = s.restored(settings, refusal, position, present);
            &&& t.remote == settings.remote
            &&& t.shuffle == settings.shuffle
            &&& t.restoring matches Some(r) && r.folder == Some(folder) && r.tab
                == settings.session.tab && r.feed == settings.session.feed && r.resume is None
            &&& t.queue == s.queue
            &&& t.effects == s.effects
            &&& settings.remote.server is None || refusal is Some ==> t.asking == (AskV::List {
                dir: s.root,
                why: Why::Descend,
            })
            &&& settings.remote.server is Some && refusal is None && same_path(s.cwd, s.root)
                ==> t.asking == (AskV::List { dir: s.root, why: Why::Relist })
            &&& settings.remote.server is Some ==> (refusal matches Some(why) ==> t.status
                == "server: "@ + why)
        }),
{
    reveal(AppV::restored);
    reveal(AppV::descending);
    reveal(AppV::relisting);
}

/// A player that has just been started is at its library's top, with nothing playing and
/// nothing to be heard, on the first folder there is.
pub proof fn law_a_player_starts_quietly(
    root: Seq<char>,
    rows: Seq<FolderV>,
    loose: bool,
    feeds: Seq<FeedV>,
    seed: u64,
    clock: Duration,
)
    requires
        rows.len() > 0,
    ensures
        ({
            let s = AppV::fresh(root, Ok(rows), loose, feeds, None, None, seed, clock);
            &&& s.root == root
            &&& s.cwd == root
            &&& s.folders == rows
            &&& s.feeds == feeds
            &&& s.listing_dir() == rows[0].path
            &&& s.queue_pos is None
            &&& s.queue.len() == 0
            &&& s.effects.len() == 0
            &&& s.tab == Tab::Local
            &&& !s.shuffle
            &&& s.rng != 0
            &&& s.prompt is None
            &&& !s.should_quit
        }),
{
    assert(seed | 1 != 0) by (bit_vector);
}

/// What is where it should be is what was sent and what was there, and never more than
/// there is.
pub proof fn law_progress_counts_what_is_there(m: MoveV, uploaded: u64)
    ensures
        uploaded + m.skipped_bytes <= m.bytes ==> m.bytes_done(uploaded) == uploaded
            + m.skipped_bytes,
        uploaded + m.skipped_bytes > m.bytes ==> m.bytes_done(uploaded) == m.bytes,
{
}

/// What is said about what plays is its title, its artist and its album.
pub proof fn law_what_plays_is_named(s: AppV, i: int)
    requires
        s.plays(i),
    ensures
        s.info_lines() == seq![s.queue[i].title, s.queue[i].artist, s.queue[i].album],
{
}

/// Another folder that is highlighted has its tracks listed; the one that is highlighted
/// already is left alone.
pub proof fn law_a_highlighted_folder_is_listed(s: AppV, row: usize)
    requires
        s.resume is None,
        row < s.row_count(),
    ensures
        s.folder_state.selected == Some(row) ==> s.folder_selected(row) == s,
        s.folder_state.selected != Some(row) ==> {
            let t = s.folder_selected(row);
            &&& t.folder_state.selected == Some(row)
            &&& t.listing_dir() == (if 1 <= row <= s.folders.len() {
                s.folders[row - 1].path
            } else {
                s.cwd
            })
            &&& t.tracks_dir matches Some(d) && same_path(d, t.listing_dir())
            &&& t.settings_dirty == Some(s.clock)
        },
{
    reveal(AppV::folder_selected);
    let a = (AppV { folder_state: s.folder_state.with(Some(row)), ..s }).touched();
    law_listing_does_not_disturb_playback(a);
    law_the_list_follows_the_cursor(a);
    reveal(AppV::reloading);
    reveal(AppV::showing);
    reveal(AppV::resuming);
}

/// On the way down the row that was taken is remembered with the folder it was taken in,
/// so that leaving leads back the same way.
pub proof fn law_the_way_down_is_remembered(s: AppV, rows: Seq<FolderV>, r: RestoringV, k: int)
    requires
        s.restoring == Some(r),
        r.folder is Some,
        !same_path(r.cwd, r.folder->0),
        rows.len() < usize::MAX,
        0 <= k < rows.len(),
        k == folder_towards(rows, r.folder->0),
    ensures
        ({
            let t = s.descended(rows);
            &&& t.asking == (AskV::List { dir: rows[k].path, why: Why::Descend })
            &&& t.restoring matches Some(q) && q.cwd == rows[k].path && q.trail == r.trail.push(
                (r.cwd, (k + 1) as usize),
            ) && q.folder == r.folder && q.selected == r.selected && q.resume == r.resume
            &&& t.folders == s.folders
            &&& t.cwd == s.cwd
        }),
{
    reveal(AppV::descended);
}

/// A session whose tracks are on screen already goes on playing at once.
pub proof fn law_a_session_on_screen_goes_on(s: AppV, r: RestoringV, i: int)
    requires
        s.restoring == Some(r),
        r.tab is None,
        r.feed is None,
        s.tab == Tab::Local,
        s.tracks_dir matches Some(d) && same_path(d, s.listing_dir()),
        !s.tracks_loading,
        !s.feed_loading,
        r.resume is Some,
        0 <= i < s.tracks.len() <= usize::MAX,
        s.tracks[i].path == r.resume->0.track,
        forall|j: int| 0 <= j < i ==> (#[trigger] s.tracks[j]).path != r.resume->0.track,
    ensures
        ({
            let t = s.session_restored();
            &&& t.starts(s, i)
            &&& t.queue == s.tracks
            &&& t.resume is None
            &&& t.restoring is None
            &&& t.resume_playing == r.resume->0.playing
        }),
{
    reveal(AppV::session_restored);
    reveal(AppV::session_put);
    reveal(AppV::reloading);
    let c = s.session_put(r);
    assert(c.listing_dir() == s.listing_dir());
    assert(c.reloading() == c);
    law_a_remembered_track_is_found(c, i);
    reveal(AppV::resuming);
    reveal(AppV::playing_index);
    reveal(AppV::reshuffled);
    reveal(AppV::starting);
    reveal(AppV::resume_kept_for);
    reveal(AppV::opening_stream);
    reveal(AppV::cover_wanted);
}

/// What arrives is taken for what it was asked for.
pub proof fn law_folders_arrive_where_they_were_asked_for(
    s: AppV,
    dir: Seq<char>,
    rows: Seq<FolderV>,
    why: Seq<char>,
)
    ensures
        ({
            let a = AppV { asking: AskV::Nothing, ..s };
            let asked = |w: Why| AppV { asking: AskV::List { dir, why: w }, ..s };
            let got = Ok::<Seq<FolderV>, Seq<char>>(rows);
            let failed = Err::<Seq<FolderV>, Seq<char>>(why);
            let none = Seq::<FolderV>::empty();
            &&& asked(Why::Leave).folders_arrived(got) == a.left(got)
            &&& asked(Why::After).folders_arrived(got) == a.after_listed(dir, got)
            &&& asked(Why::Refresh).folders_arrived(got) == a.refreshed(rows)
            &&& asked(Why::Refresh).folders_arrived(failed) == a.refreshed(none)
            &&& asked(Why::Descend).folders_arrived(got) == a.descended(rows)
            &&& a.relisted(rows).restoring is None ==> asked(Why::Relist).folders_arrived(got)
                == a.relisted(rows)
            &&& a.relisted(rows).restoring is Some ==> asked(Why::Relist).folders_arrived(got)
                == a.relisted(rows).descending()
            &&& a.folders_arrived(got) == a
        }),
        same_path(s.cwd, s.root) ==> s.relisting() == (AppV {
            asking: AskV::List { dir: s.root, why: Why::Relist },
            ..s
        }),
        !same_path(s.cwd, s.root) ==> s.relisting() == s,
{
    reveal(AppV::folders_arrived);
    reveal(AppV::relisting);
}

} // verus!
