//! What holds of the player as a whole.

use vstd::prelude::*;
use crate::app::playback::{newest_opened, OpenedV};
use crate::app::listing::{newest_listed, ListedV};
use crate::app::feeds::moved_by;
use crate::app::{AppV, AskV, Audio, Effect, Pane, PromptV, RestoringV, Tab, Why};
use crate::library::{folder_place, folder_towards, lemma_folder_towards, FolderV, TrackV};
use crate::memo::{recalled, restarred};
use crate::order::is_permutation;
use crate::paths::{inside, same_path};
use crate::queue::{law_shuffling_is_a_permutation, next_of, previous_of};
use crate::remote::has_scheme;
use crate::time::Duration;
use crate::ui::{ListState, Position};

verus! {

/// The part of the state that playing changes and browsing does not.
pub ghost struct PlayingV {
    pub queue: Seq<TrackV>,
    pub queue_pos: Option<usize>,
    pub queue_dir: Option<Seq<char>>,
    pub opening: Option<Seq<char>>,
    pub following_into: Option<Seq<char>>,
    pub shuffle: bool,
    pub shuffle_order: Seq<usize>,
    pub rng: u64,
    pub resume_at: Option<(Seq<char>, Duration)>,
    pub resume_playing: bool,
    pub audio: Audio,
}

/// Something that makes the audio do something else.
pub open spec fn is_audible(effect: Effect) -> bool {
    match effect {
        Effect::PlayStream
        | Effect::Stop
        | Effect::Pause
        | Effect::Play
        | Effect::Toggle
        | Effect::Seek(_)
        | Effect::SeekFraction(_, _)
        | Effect::SeekPosition(_)
        | Effect::Open
        | Effect::Follow(_) => true,
        _ => false,
    }
}

/// What was to be done still is, and nothing that can be heard was added.
pub open spec fn is_silent(before: Seq<Effect>, after: Seq<Effect>) -> bool {
    &&& before.len() <= after.len()
    &&& after.take(before.len() as int) == before
    &&& forall|i: int| before.len() <= i < after.len() ==> !is_audible(#[trigger] after[i])
}

impl AppV {
    pub open spec fn playing(self) -> PlayingV {
        PlayingV {
            queue: self.queue,
            queue_pos: self.queue_pos,
            queue_dir: self.queue_dir,
            opening: self.opening,
            following_into: self.following_into,
            shuffle: self.shuffle,
            shuffle_order: self.shuffle_order,
            rng: self.rng,
            resume_at: self.resume_at,
            resume_playing: self.resume_playing,
            audio: self.audio,
        }
    }

    /// What plays goes on as it was: the queue, the place in it, and the audio.
    pub open spec fn undisturbed(self, after: AppV) -> bool {
        &&& after.playing() == self.playing()
        &&& is_silent(self.effects, after.effects)
        &&& after.resume == self.resume
    }
}

proof fn lemma_silent_same(e: Seq<Effect>)
    ensures
        is_silent(e, e),
{
    assert(e.take(e.len() as int) =~= e);
}

proof fn lemma_silent_push(e: Seq<Effect>, effect: Effect)
    requires
        !is_audible(effect),
    ensures
        is_silent(e, e.push(effect)),
{
    assert(e.push(effect).take(e.len() as int) =~= e);
}

/// Listing something else on screen touches neither what plays nor where browsing is,
/// once a remembered track has had its one chance.
pub proof fn law_listing_does_not_disturb_playback(s: AppV)
    requires
        s.resume is None,
    ensures
        s.undisturbed(s.reloading()),
        s.reloading().browsing() == s.browsing(),
        s.reloading().asking == s.asking,
        s.reloading().tab == s.tab,
        s.reloading().restoring == s.restoring,
        s.reloading().prompt == s.prompt,
{
    reveal(AppV::reloading);
    reveal(AppV::showing);
    reveal(AppV::resuming);
    lemma_silent_same(s.effects);
    lemma_silent_push(s.effects, Effect::Scan);
}

proof fn lemma_feed_reloading(s: AppV)
    ensures
        s.undisturbed(s.feed_reloading()),
        s.feed_reloading().browsing() == s.browsing(),
        s.feed_reloading().asking == s.asking,
        s.feed_reloading().prompt == s.prompt,
{
    reveal(AppV::feed_reloading);
    lemma_silent_same(s.effects);
    lemma_silent_push(s.effects, Effect::Fetch);
}

/// Switching sources never interrupts playback.
pub proof fn law_switching_tabs_keeps_the_music(s: AppV, tab: Tab)
    requires
        s.resume is None,
    ensures
        s.undisturbed(s.tab_selected(tab)),
        s.tab_selected(tab).now_playing() == s.now_playing(),
        s.tab_selected(tab).asking == s.asking,
{
    reveal(AppV::tab_selected);
    lemma_silent_same(s.effects);
    if s.tab != tab {
        let a = AppV { tab, ..s }.touched();
        match tab {
            Tab::Local => {
                law_listing_does_not_disturb_playback(AppV { tracks_dir: None, ..a });
            },
            Tab::Feeds => {
                lemma_feed_reloading(AppV { fetched_url: None, ..a });
            },
            Tab::Radio => {},
        }
    }
}

/// Moving the cursor over folders never interrupts playback.
pub proof fn law_browsing_keeps_the_music(s: AppV, row: usize)
    requires
        s.resume is None,
    ensures
        s.undisturbed(s.folder_selected(row)),
        s.folder_selected(row).now_playing() == s.now_playing(),
        s.folder_selected(row).asking == s.asking,
{
    reveal(AppV::folder_selected);
    lemma_silent_same(s.effects);
    law_listing_does_not_disturb_playback(
        AppV { folder_state: s.folder_state.with(Some(row)), ..s }.touched(),
    );
}

/// Entering and leaving folders never interrupts playback.
pub proof fn law_walking_the_tree_keeps_the_music(
    s: AppV,
    dir: Seq<char>,
    rows: Result<Seq<FolderV>, Seq<char>>,
)
    requires
        s.resume is None,
    ensures
        s.undisturbed(s.entered(dir, rows)),
        s.undisturbed(s.left(rows)),
{
    reveal(AppV::entered);
    reveal(AppV::left);
    lemma_silent_same(s.effects);
    if let Ok(r) = rows {
        let row = match s.folder_state.selected {
            Some(row) => row,
            None => 0,
        };
        law_listing_does_not_disturb_playback(
            AppV {
                trail: s.trail.push((s.cwd, row)),
                cwd: dir,
                folders: r,
                folder_state: ListState::on(1),
                ..s.touched()
            },
        );
        if s.trail.len() > 0 {
            let (parent, selected) = s.trail.last();
            let a = AppV {
                trail: s.trail.drop_last(),
                cwd: parent,
                folders: r,
                ..s.touched()
            };
            law_listing_does_not_disturb_playback(
                AppV {
                    folder_state: ListState::on(
                        crate::app::browse::lesser(selected as int, a.row_count() - 1),
                    ),
                    ..a
                },
            );
        }
    }
}

/// Stepping back up undoes stepping down: the same folder, the same list, the same
/// row.
pub proof fn law_leaving_undoes_entering(s: AppV, dir: Seq<char>, rows: Seq<FolderV>, row: usize)
    requires
        s.resume is None,
        rows.len() > 0,
        s.folder_state.selected == Some(row),
        row < s.row_count(),
    ensures
        ({
            let inside = s.entered(dir, Ok(rows));
            let back = inside.left(Ok(s.folders));
            &&& inside.cwd == dir
            &&& inside.folders == rows
            &&& back.cwd == s.cwd
            &&& back.trail == s.trail
            &&& back.folders == s.folders
            &&& back.folder_state.selected == Some(row)
        }),
{
    reveal(AppV::entered);
    reveal(AppV::left);
    let a = AppV {
        trail: s.trail.push((s.cwd, row)),
        cwd: dir,
        folders: rows,
        folder_state: ListState::on(1),
        ..s.touched()
    };
    law_listing_does_not_disturb_playback(a);
    let inside = s.entered(dir, Ok(rows));
    assert(inside == a.reloading());
    assert(inside.trail.drop_last() =~= s.trail);
    let b = AppV { trail: s.trail, cwd: s.cwd, folders: s.folders, ..inside.touched() };
    law_listing_does_not_disturb_playback(
        AppV {
            folder_state: ListState::on(
                crate::app::browse::lesser(row as int, b.row_count() - 1),
            ),
            ..b
        },
    );
}

/// The way up from where the player is leads to the root, and no further.
pub open spec fn is_rooted(
    root: Seq<char>,
    cwd: Seq<char>,
    trail: Seq<(Seq<char>, usize)>,
) -> bool {
    if trail.len() == 0 {
        cwd == root
    } else {
        trail[0].0 == root
    }
}

/// Browsing never climbs above the root: every step down and every step up keeps the
/// way up leading to it, and at the root there is none.
pub proof fn law_browsing_never_climbs_above_the_root(
    s: AppV,
    dir: Seq<char>,
    rows: Result<Seq<FolderV>, Seq<char>>,
)
    requires
        s.resume is None,
        is_rooted(s.root, s.cwd, s.trail),
    ensures
        ({
            let t = s.entered(dir, rows);
            is_rooted(t.root, t.cwd, t.trail) && t.root == s.root
        }),
        ({
            let t = s.left(rows);
            is_rooted(t.root, t.cwd, t.trail) && t.root == s.root
        }),
        same_path(s.cwd, s.root) && s.trail.len() == 0 ==> s.leaving() == s,
{
    reveal(AppV::entered);
    reveal(AppV::left);
    reveal(AppV::leaving);
    if let Ok(r) = rows {
        let row = match s.folder_state.selected {
            Some(row) => row,
            None => 0,
        };
        let a = AppV {
            trail: s.trail.push((s.cwd, row)),
            cwd: dir,
            folders: r,
            folder_state: ListState::on(1),
            ..s.touched()
        };
        law_listing_does_not_disturb_playback(a);
        if s.trail.len() > 0 {
            assert(a.trail[0] == s.trail[0]);
            let (parent, selected) = s.trail.last();
            let b = AppV {
                trail: s.trail.drop_last(),
                cwd: parent,
                folders: r,
                ..s.touched()
            };
            if s.trail.len() > 1 {
                assert(b.trail[0] == s.trail[0]);
            }
            law_listing_does_not_disturb_playback(
                AppV {
                    folder_state: ListState::on(
                        crate::app::browse::lesser(selected as int, b.row_count() - 1),
                    ),
                    ..b
                },
            );
        }
    }
}

/// The order followed while shuffling is a permutation of the queue.
pub open spec fn is_ordered(s: AppV) -> bool {
    s.shuffle && s.queue.len() > 0 ==> is_permutation(s.shuffle_order, s.queue.len())
}

proof fn lemma_starting_keeps_order(s: AppV, index: usize)
    ensures
        s.starting(index).queue == s.queue,
        s.starting(index).shuffle == s.shuffle,
        s.starting(index).shuffle_order == s.shuffle_order,
        s.starting(index).rng == s.rng,
        s.starting(index).queue_dir == s.queue_dir,
        s.starting(index).track_state == s.track_state,
        s.starting(index).tracks == s.tracks,
        s.starting(index).resume == s.resume,
{
    reveal(AppV::starting);
    reveal(AppV::resume_kept_for);
    reveal(AppV::opening_stream);
    reveal(AppV::cover_wanted);
}

/// Starting a track while shuffling puts it at the head of an order that holds the
/// whole queue once.
pub proof fn law_a_started_queue_is_shuffled_whole(s: AppV, index: usize)
    requires
        index < s.tracks.len() <= usize::MAX,
    ensures
        is_ordered(s.playing_index(index)),
        s.playing_index(index).queue == s.tracks,
        s.shuffle ==> s.playing_index(index).shuffle_order[0] == index,
{
    reveal(AppV::playing_index);
    reveal(AppV::reshuffled);
    let a = AppV {
        queue: s.tracks,
        queue_dir: if s.tab == Tab::Local {
            s.tracks_dir
        } else {
            None
        },
        ..s
    };
    let b = if a.shuffle {
        a.reshuffled(Some(index))
    } else {
        a
    };
    law_shuffling_is_a_permutation(s.tracks.len(), Some(index), s.rng);
    lemma_starting_keeps_order(b, index);
}

/// Turning shuffle on or off changes the order and not what is playing; turned on,
/// what is playing heads the new order, which holds the whole queue once.
pub proof fn law_toggling_shuffle_keeps_the_track(s: AppV)
    requires
        s.queue.len() <= usize::MAX,
    ensures
        s.shuffle_toggled().now_playing() == s.now_playing(),
        s.shuffle_toggled().queue == s.queue,
        s.shuffle_toggled().queue_pos == s.queue_pos,
        s.shuffle_toggled().effects == s.effects,
        is_ordered(s.shuffle_toggled()),
        !s.shuffle && s.now_playing() is Some ==> s.shuffle_toggled().shuffle_order[0]
            == s.queue_pos->0,
{
    reveal(AppV::shuffle_toggled);
    reveal(AppV::reshuffled);
    law_shuffling_is_a_permutation(s.queue.len(), s.queue_pos, s.rng);
}

/// Every list there is fits the machine.
pub open spec fn is_countable(s: AppV) -> bool {
    &&& s.tracks.len() <= usize::MAX
    &&& s.queue.len() <= usize::MAX
    &&& forall|i: int| 0 <= i < s.memo.len() ==> (#[trigger] s.memo[i]).tracks.len() <= usize::MAX
}

proof fn lemma_showing_keeps_order(s: AppV, tracks: Seq<TrackV>)
    requires
        is_ordered(s),
        tracks.len() <= usize::MAX,
    ensures
        is_ordered(s.showing(tracks)),
{
    reveal(AppV::showing);
    reveal(AppV::resuming);
    let a = AppV {
        tracks,
        track_state: if tracks.len() > 0 {
            ListState::on(0)
        } else {
            ListState::fresh()
        },
        ..s
    };
    if let Some(r) = a.resume {
        let at = crate::library::track_named(a.tracks, r.track);
        if at < a.tracks.len() {
            let b = AppV {
                resume_at: Some(
                    (r.track, crate::app::playback::resume_place(r, a.tracks[at as int].duration)),
                ),
                resume_playing: r.playing,
                resume: None,
                ..a
            };
            law_a_started_queue_is_shuffled_whole(b, at as usize);
        }
    }
}

proof fn lemma_reloading_keeps_order(s: AppV)
    requires
        is_ordered(s),
        is_countable(s),
    ensures
        is_ordered(s.reloading()),
{
    reveal(AppV::reloading);
    let dir = s.listing_dir();
    let a = AppV { tracks_dir: Some(dir), ..s };
    if let Some(tracks) = a.at_hand(dir) {
        reveal(recalled);
        lemma_showing_keeps_order(AppV { tracks_loading: false, ..a }, tracks);
    }
}

/// Whatever is played next, back, stopped, rated or run on into, the order followed
/// while shuffling stays a permutation of the queue.
pub proof fn law_the_order_always_holds_the_queue(
    s: AppV,
    dir: Seq<char>,
    tracks: Seq<TrackV>,
    failure: Option<Seq<char>>,
)
    requires
        is_ordered(s),
        is_countable(s),
        tracks.len() <= usize::MAX,
    ensures
        is_ordered(s.next()),
        is_ordered(s.previous()),
        is_ordered(s.stopped()),
        is_ordered(s.rated(failure)),
        is_ordered(s.reloading()),
        is_ordered(s.playing_folder(dir, tracks)),
{
    reveal(AppV::stopped);
    reveal(AppV::ended);
    reveal(AppV::looking_after);
    reveal(AppV::following_on);
    assert(is_ordered(s.following_on()));
    assert(is_ordered(s.next())) by {
        reveal(AppV::next);
        reveal(AppV::playing_selected);
        if let Some(current) = s.queue_pos {
            if let Some(n) = next_of(s.shuffle, s.shuffle_order, s.queue.len(), current) {
                lemma_starting_keeps_order(s, n);
            }
        } else if let Some(index) = s.track_state.selected {
            if index < s.tracks.len() {
                law_a_started_queue_is_shuffled_whole(s, index);
            } else {
                reveal(AppV::playing_index);
            }
        }
    }
    assert(is_ordered(s.previous())) by {
        reveal(AppV::previous);
        if let Some(current) = s.queue_pos {
            if let Some(n) = previous_of(s.shuffle, s.shuffle_order, current) {
                lemma_starting_keeps_order(s, n);
            }
        }
    }
    assert(is_ordered(s.rated(failure))) by {
        reveal(AppV::rated);
        reveal(restarred);
    }
    lemma_reloading_keeps_order(s);
    assert(is_ordered(s.playing_folder(dir, tracks))) by {
        reveal(AppV::playing_folder);
        let a = AppV { queue_dir: Some(dir), queue: tracks, ..s };
        if tracks.len() > 0 {
            reveal(AppV::reshuffled);
            law_shuffling_is_a_permutation(tracks.len(), None, s.rng);
            let b = if a.shuffle {
                a.reshuffled(None)
            } else {
                a
            };
            assert(is_ordered(b));
            let first = if a.shuffle {
                b.shuffle_order[0]
            } else {
                0
            };
            let c = AppV {
                folder_state: b.folder_state.with(
                    Some((folder_place(b.folders, dir) + 1) as usize),
                ),
                ..b
            };
            lemma_reloading_keeps_order(c);
            lemma_starting_keeps_order(c.reloading(), first);
            lemma_starting_keeps_order(b, first);
        }
    }
}

/// A restored track is started by the first listing that arrives or not at all.
pub proof fn law_a_session_resumes_once(s: AppV, tracks: Seq<TrackV>)
    ensures
        s.showing(tracks).resume is None,
{
    reveal(AppV::showing);
    reveal(AppV::resuming);
    let a = AppV {
        tracks,
        track_state: if tracks.len() > 0 {
            ListState::on(0)
        } else {
            ListState::fresh()
        },
        ..s
    };
    if let Some(r) = a.resume {
        let at = crate::library::track_named(a.tracks, r.track);
        if at < a.tracks.len() {
            let b = AppV {
                resume_at: Some(
                    (r.track, crate::app::playback::resume_place(r, a.tracks[at as int].duration)),
                ),
                resume_playing: r.playing,
                resume: None,
                ..a
            };
            reveal(AppV::playing_index);
            reveal(AppV::reshuffled);
            let c = AppV {
                queue: b.tracks,
                queue_dir: if b.tab == Tab::Local {
                    b.tracks_dir
                } else {
                    None
                },
                ..b
            };
            let d = if c.shuffle {
                c.reshuffled(Some(at as usize))
            } else {
                c
            };
            lemma_starting_keeps_order(d, at as usize);
        }
    }
}

/// A scan that answers an older request changes nothing, and one for a folder that was
/// left changes nothing on screen.
pub proof fn law_late_scans_are_not_shown(s: AppV, replies: Seq<(u64, ListedV)>)
    ensures
        newest_listed(replies, s.scan_generation) is None ==> s.scanned(replies) == s,
        newest_listed(replies, s.scan_generation) matches Some(l) ==> !(
        s.tracks_dir matches Some(d) && same_path(d, l.dir)) ==> {
            let t = s.scanned(replies);
            &&& t.tracks == s.tracks
            &&& t.tracks_dir == s.tracks_dir
            &&& t.status == s.status
            &&& t.track_state == s.track_state
            &&& t.playing() == s.playing()
            &&& t.effects == s.effects
        },
{
    reveal(AppV::scanned);
}

/// A stream that lands after something else was asked for, or after a stop, does not
/// start playing.
pub proof fn law_late_streams_stay_silent(s: AppV, replies: Seq<OpenedV>)
    requires
        newest_opened(replies, s.open_generation) matches Some(reply) ==> s.opening != Some(
            reply.url,
        ),
    ensures
        s.stream_opened(replies) == s,
{
    reveal(AppV::stream_opened);
}

/// Stopping lets go of everything that could start playing later.
pub proof fn law_stopping_lets_go(s: AppV, replies: Seq<OpenedV>)
    ensures
        s.stopped().stream_opened(replies) == s.stopped(),
        s.stopped().ticked() == s.stopped(),
        s.stopped().now_playing() is None,
{
    reveal(AppV::stopped);
    reveal(AppV::stream_opened);
    reveal(AppV::ticked);
}

/// The silence of a stream that is still opening is never taken for the end of a
/// track.
pub proof fn law_an_opening_stream_is_not_skipped(s: AppV)
    requires
        s.opening is Some || s.following_into is Some,
    ensures
        s.ticked() == s,
{
    reveal(AppV::ticked);
}

/// An open prompt owns the screen: no click acts behind it.
pub proof fn law_a_prompt_owns_the_screen(s: AppV, pos: Position)
    requires
        s.prompt is Some,
    ensures
        s.clicked(pos) == s,
{
    reveal(AppV::clicked);
}

/// While deleting is being confirmed, Enter does nothing, and no key but `y` does
/// anything.
pub proof fn law_only_y_deletes(s: AppV, p: PromptV, key: char, refusal: Option<Seq<char>>)
    requires
        s.prompt == Some(p),
        p.kind is Delete,
        key != 'y',
        key != 'Y',
    ensures
        s.submitted(refusal) == s,
        s.prompt_keyed(key) == s,
{
    reveal(AppV::submitted);
    reveal(AppV::prompt_keyed);
}

/// Nothing is ever deleted on this disk but what lies inside the library, and never
/// the library itself.
pub proof fn law_the_library_itself_is_never_deleted(s: AppV, target: Seq<char>)
    requires
        s.asking is Nothing,
    ensures
        s.deleting(target).asking is Delete ==> has_scheme(target) || (inside(target, s.root)
            && !same_path(target, s.root)),
{
    reveal(AppV::deleting);
    reveal(AppV::after_delete);
    reveal(AppV::refreshing);
}

/// A single click in the track list selects and starts nothing.
pub proof fn law_a_single_click_never_plays(s: AppV, row: usize)
    ensures
        ({
            let t = s.row_clicked(Pane::Tracks, row, false);
            &&& t.track_state.selected == Some(row)
            &&& t.effects == s.effects
            &&& t.asking == s.asking
            &&& t.playing() == s.playing()
        }),
{
    reveal(AppV::row_clicked);
}

/// Scrolling past an end leaves nothing owed: the next step the other way moves at
/// once.
pub proof fn law_scrolling_past_the_end_leaves_nothing_owed(at: int, delta: int, len: int)
    requires
        0 <= at < len <= usize::MAX,
        len >= 2,
    ensures
        moved_by(at, delta, len) < len,
        at + delta >= len - 1 ==> moved_by(moved_by(at, delta, len) as int, -1, len) == len - 2,
        at + delta <= 0 ==> moved_by(moved_by(at, delta, len) as int, 1, len) == 1,
{
}

/// The wheel moves the pane under the cursor, focused or not: over the track list it
/// leaves the folders alone, and it never moves the focus.
pub proof fn law_the_wheel_moves_what_is_under_it(s: AppV, pos: Position, delta: int)
    requires
        !s.areas.feed_rows.holds(pos),
        s.pane_at(pos) == Some(Pane::Tracks),
    ensures
        s.scrolled(pos, delta).folder_state == s.folder_state,
        s.scrolled(pos, delta).focus == s.focus,
        s.tracks.len() > 0 ==> s.scrolled(pos, delta).track_state.selected == Some(
            moved_by(
                match s.track_state.selected {
                    Some(i) => i as int,
                    None => 0,
                },
                delta,
                s.tracks.len() as int,
            ),
        ),
{
    reveal(AppV::scrolled);
}

/// Removing a feed leaves the cursor on one that is there, or on none when there are
/// none left, and takes away no other.
pub proof fn law_the_cursor_stays_among_the_feeds(s: AppV)
    requires
        s.feed_state.selected matches Some(i) && i < s.feeds.len(),
    ensures
        s.feed_removed().feeds == s.feeds.remove(s.feed_state.selected->0 as int),
        match s.feed_removed().feed_state.selected {
            Some(i) => i < s.feed_removed().feeds.len(),
            None => s.feed_removed().feeds.len() == 0,
        },
{
    reveal(AppV::feed_removed);
    reveal(AppV::feed_reloading);
    reveal(AppV::feeds_persisted);
}

/// A picture never sits under another album's title: asking for a cover clears the old
/// one, unless it belongs to the same folder.
pub proof fn law_a_stale_cover_is_cleared(s: AppV, path: Seq<char>)
    requires
        s.cover_at_hand(path) is None,
    ensures
        !s.cover_wanted(path).cover.shown,
        s.cover_wanted(path).cover.file is None,
        s.cover_wanted(path).cover.pending,
{
    reveal(AppV::cover_wanted);
}

/// A second click on the same star takes the stars away again.
pub proof fn law_the_same_star_twice_is_none(track: TrackV, n: u8)
    requires
        1 <= n <= 3,
        track.stars != Some(n),
    ensures
        AppV::stars_after(track, n) == Some(n),
        AppV::stars_after(TrackV { stars: Some(n), ..track }, n) is None,
{
}

/// On the way back down to a remembered folder, every step leads towards it.
pub proof fn law_restoring_leads_to_the_folder(s: AppV, rows: Seq<FolderV>, r: RestoringV)
    requires
        s.restoring == Some(r),
        r.folder is Some,
        !same_path(r.cwd, r.folder->0),
        is_rooted(s.root, r.cwd, r.trail),
        folder_towards(rows, r.folder->0) < rows.len(),
    ensures
        ({
            let t = s.descended(rows);
            &&& t.restoring matches Some(next) && inside(r.folder->0, next.cwd) && is_rooted(
                s.root,
                next.cwd,
                next.trail,
            )
            &&& t.asking matches AskV::List { dir, why } && why == Why::Descend
        }),
{
    reveal(AppV::descended);
    lemma_folder_towards(rows, r.folder->0);
    let at = folder_towards(rows, r.folder->0) as int;
    let trail = r.trail.push((r.cwd, (at + 1) as usize));
    if r.trail.len() > 0 {
        assert(trail[0] == r.trail[0]);
    }
}

} // verus!
