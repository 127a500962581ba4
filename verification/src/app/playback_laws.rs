//! What playing comes to: what is heard, when, and from where.

use vstd::prelude::*;
use crate::app::playback::{newest_cover, newest_opened, resume_place, CoverReplyV, OpenedV};
use crate::app::listing::{newest_listed, ListedV};
use crate::app::laws::law_listing_does_not_disturb_playback;
use crate::app::{bumped, AppV, AskV, Effect, Tab, Why};
use crate::library::{
    clock,
    folder_place,
    law_the_first_match_is_found,
    track_named,
    FolderV,
    TrackV,
};
use crate::media::Command;
use crate::memo::{memo_restarred, recalled, remembering, restarred};
use crate::order::is_permutation;
use crate::paths::{inside, parent, same_path};
use crate::queue::{
    law_a_shuffle_follows_the_generator,
    law_shuffling_is_a_permutation,
    law_the_first_number_fills_the_last_place,
    lemma_place_is,
    nth_state,
    xorshift,
};
use crate::remote::has_scheme;
use crate::text::{after_prefix, stripped, stripped_start};
use crate::time::{law_a_nudge_is_exact, Duration};

verus! {

/// The place among `n` that the next number of the generator points at.
pub open spec fn drawn(rng: u64, n: nat) -> usize {
    (xorshift(rng) as int % n as int) as usize
}

impl AppV {
    /// The track at `i` of the queue is what is playing.
    pub open spec fn plays(self, i: int) -> bool {
        &&& 0 <= i < self.queue.len()
        &&& self.queue_pos matches Some(at) && at == i
    }

    /// The track at `i` of the queue is being started, from the state `before`: a local
    /// file is asked for, and a stream is opened in place of what was heard.
    pub open spec fn starts(self, before: AppV, i: int) -> bool {
        &&& 0 <= i < self.queue.len()
        &&& match self.queue[i].url {
            None => {
                &&& self.asking matches AskV::Start { index } && index == i
                &&& self.queue_pos == before.queue_pos
            },
            Some(url) => {
                &&& self.plays(i)
                &&& self.opening == Some(url)
                &&& self.open_generation != before.open_generation
                &&& self.status == "opening "@ + self.queue[i].title
                &&& self.effects.len() >= 3
                &&& self.effects.skip(self.effects.len() - 3) == seq![
                    Effect::Stop,
                    Effect::Open,
                    Effect::Cover,
                ]
            },
        }
    }
}

/// A nudge of the track that is playing asks for the place exactly as many seconds on,
/// or back, for as long as that is in the track, and otherwise for the end it ran into.
/// A media key does the same, and nothing is asked for of a track without a length.
pub proof fn law_a_nudge_moves_the_playhead(s: AppV, delta: i64, i: int)
    requires
        s.plays(i),
    ensures
        match s.queue[i].duration {
            Some(total) => total.nanos < 1_000_000_000 ==> {
                let t = s.seeking_by(delta);
                let to = s.audio.position.total() + delta * 1_000_000_000;
                &&& t.effects.len() == s.effects.len() + 1
                &&& t.effects.drop_last() == s.effects
                &&& t.effects.last() matches Effect::Seek(d) && {
                    &&& d.nanos < 1_000_000_000
                    &&& 0 <= to <= total.total() ==> d.total() == to
                    &&& to < 0 ==> d.total() == 0
                    &&& to > total.total() ==> d.total() == total.total()
                    &&& t.status == "seek "@ + clock(d)
                }
                &&& t == (AppV { effects: t.effects, status: t.status, ..s })
            },
            None => s.seeking_by(delta) == s,
        },
        s.commanded(Command::SeekBy(delta)) == s.seeking_by(delta),
{
    reveal(AppV::seeking_by);
    reveal(AppV::sought);
    reveal(AppV::commanded);
    if let Some(total) = s.queue[i].duration {
        if total.nanos < 1_000_000_000 {
            law_a_nudge_is_exact(s.audio.position, delta as int, total);
            assert(s.seeking_by(delta).effects.drop_last() =~= s.effects);
        }
    }
}

/// With nothing playing there is nothing to seek in.
pub proof fn law_silence_has_no_playhead(s: AppV, delta: i64, at: Duration)
    requires
        s.queue_pos is None,
    ensures
        s.seeking_by(delta) == s,
        s.commanded(Command::SetPosition(at)) == s,
        s.previous() == s,
{
    reveal(AppV::seeking_by);
    reveal(AppV::commanded);
    reveal(AppV::previous);
}

/// The media keys do what their names say: play and pause each change only what is the
/// other way round, stop stops, and a place is sought as it was given.
pub proof fn law_media_keys(s: AppV, at: Duration, i: int)
    requires
        s.plays(i),
    ensures
        s.commanded(Command::Toggle).effects == s.effects.push(Effect::Toggle),
        s.commanded(Command::Play).effects == (if s.audio.paused {
            s.effects.push(Effect::Toggle)
        } else {
            s.effects
        }),
        s.commanded(Command::Pause).effects == (if s.audio.paused {
            s.effects
        } else {
            s.effects.push(Effect::Toggle)
        }),
        s.commanded(Command::Play).playing() == s.playing(),
        s.commanded(Command::Pause).playing() == s.playing(),
        s.commanded(Command::Toggle).playing() == s.playing(),
        s.commanded(Command::Stop).queue_pos is None,
        s.commanded(Command::Stop).effects == s.effects.push(Effect::Stop),
        s.commanded(Command::Next) == s.next(),
        s.commanded(Command::Previous) == s.previous(),
        s.commanded(Command::SetPosition(at)).effects == (if s.queue[i].duration is Some {
            s.effects.push(Effect::SeekPosition(at))
        } else {
            s.effects
        }),
{
    reveal(AppV::commanded);
    reveal(AppV::toggled);
    reveal(AppV::stopped);
}

proof fn lemma_starting(s: AppV, index: usize)
    requires
        index < s.queue.len(),
    ensures
        s.starting(index).starts(s, index as int),
        s.starting(index).queue == s.queue,
        s.starting(index).queue_dir == s.queue_dir,
        s.starting(index).shuffle == s.shuffle,
        s.starting(index).shuffle_order == s.shuffle_order,
        s.starting(index).rng == s.rng,
        s.starting(index).tracks == s.tracks,
        s.starting(index).audio == s.audio,
        s.starting(index).memo == s.memo,
        s.starting(index).folder_state == s.folder_state,
        s.starting(index).following_into == s.following_into,
        s.queue[index as int].url is Some ==> s.starting(index).open_generation == bumped(
            s.open_generation,
        ),
        s.starting(index).resume_at == (if s.resume_at matches Some((p, _)) && p
            == s.queue[index as int].path {
            s.resume_at
        } else {
            None
        }),
{
    reveal(AppV::starting);
    reveal(AppV::resume_kept_for);
    reveal(AppV::opening_stream);
    reveal(AppV::cover_wanted);
    let t = s.starting(index);
    if s.queue[index as int].url is Some {
        assert(t.effects =~= s.effects.push(Effect::Stop).push(Effect::Open).push(Effect::Cover));
        assert(t.effects.skip(t.effects.len() - 3) =~= seq![
            Effect::Stop,
            Effect::Open,
            Effect::Cover,
        ]);
    }
}

/// Picking a row plays that row's track, out of the list that is on screen, in the order
/// it is listed or in one drawn anew from the generator.
pub proof fn law_a_picked_row_is_played(s: AppV, index: usize)
    requires
        index < s.tracks.len() <= usize::MAX,
    ensures
        ({
            let t = s.playing_index(index);
            &&& t.starts(s, index as int)
            &&& t.queue == s.tracks
            &&& t.queue_dir == (if s.tab == Tab::Local {
                s.tracks_dir
            } else {
                None
            })
            &&& t.shuffle == s.shuffle
            &&& !s.shuffle ==> t.shuffle_order == s.shuffle_order && t.rng == s.rng
            &&& s.shuffle ==> is_permutation(t.shuffle_order, s.tracks.len())
                && t.shuffle_order[0] == index
            &&& s.shuffle && s.tracks.len() >= 2 && drawn(s.rng, s.tracks.len()) != index
                ==> t.shuffle_order.last() == drawn(s.rng, s.tracks.len())
            &&& s.shuffle ==> t.rng == nth_state(s.rng, (s.tracks.len() - 1) as nat)
        }),
        s.track_state.selected == Some(index) ==> s.playing_selected() == s.playing_index(index),
        s.track_state.selected == Some(index) && s.queue_pos is None ==> {
            &&& s.toggled() == s.playing_index(index)
            &&& s.next() == s.playing_index(index)
            &&& s.commanded(Command::Play) == s.playing_index(index)
        },
        s.track_state.selected is None ==> s.playing_selected() == s,
{
    reveal(AppV::playing_index);
    reveal(AppV::playing_selected);
    reveal(AppV::reshuffled);
    reveal(AppV::toggled);
    reveal(AppV::next);
    reveal(AppV::commanded);
    let n = s.tracks.len();
    let a = AppV {
        queue: s.tracks,
        queue_dir: if s.tab == Tab::Local {
            s.tracks_dir
        } else {
            None
        },
        ..s
    };
    let b = if a.shuffle {
        a.reshuffled(Some(index))
    } else {
        a
    };
    lemma_starting(b, index);
    if s.shuffle {
        law_shuffling_is_a_permutation(n, Some(index), s.rng);
        law_a_shuffle_follows_the_generator(n, s.rng);
        if n >= 2 && drawn(s.rng, n) != index {
            law_the_first_number_fills_the_last_place(n, Some(index), s.rng);
        }
    }
}

/// Turning shuffle on draws an order from the generator, and turning it off forgets it.
pub proof fn law_shuffle_draws_an_order(s: AppV)
    requires
        s.queue.len() <= usize::MAX,
    ensures
        s.shuffle_toggled().shuffle == !s.shuffle,
        s.shuffle_toggled().settings_dirty == Some(s.clock),
        !s.shuffle ==> is_permutation(s.shuffle_toggled().shuffle_order, s.queue.len()),
        !s.shuffle && s.queue.len() >= 2 && s.queue_pos != Some(drawn(s.rng, s.queue.len()))
            ==> s.shuffle_toggled().shuffle_order.last() == drawn(s.rng, s.queue.len()),
        !s.shuffle && s.queue.len() >= 1 ==> s.shuffle_toggled().rng == nth_state(
            s.rng,
            (s.queue.len() - 1) as nat,
        ),
        s.shuffle ==> s.shuffle_toggled().shuffle_order.len() == 0 && s.shuffle_toggled().rng
            == s.rng,
{
    reveal(AppV::shuffle_toggled);
    reveal(AppV::reshuffled);
    law_shuffling_is_a_permutation(s.queue.len(), s.queue_pos, s.rng);
    law_a_shuffle_follows_the_generator(s.queue.len(), s.rng);
    if s.queue.len() >= 2 && s.queue_pos != Some(drawn(s.rng, s.queue.len())) {
        law_the_first_number_fills_the_last_place(s.queue.len(), s.queue_pos, s.rng);
    }
}

/// The next track is the one listed after what is playing, and the one before it is
/// listed before; while shuffling, both go by the order that was drawn. Before the first
/// there is nothing.
pub proof fn law_next_and_previous_walk_the_queue(s: AppV, i: int, k: int)
    requires
        s.plays(i),
        s.queue.len() <= usize::MAX,
        s.shuffle ==> is_permutation(s.shuffle_order, s.queue.len()) && 0 <= k < s.queue.len()
            && s.shuffle_order[k] == i,
    ensures
        !s.shuffle && i + 1 < s.queue.len() ==> s.next().starts(s, i + 1) && s.next().queue
            == s.queue,
        !s.shuffle && i > 0 ==> s.previous().starts(s, i - 1) && s.previous().queue == s.queue,
        !s.shuffle && i == 0 ==> s.previous() == s,
        s.shuffle && k + 1 < s.queue.len() ==> s.next().starts(s, s.shuffle_order[k + 1] as int)
            && s.next().queue == s.queue && s.next().shuffle_order == s.shuffle_order,
        s.shuffle && k > 0 ==> s.previous().starts(s, s.shuffle_order[k - 1] as int)
            && s.previous().queue == s.queue && s.previous().shuffle_order == s.shuffle_order,
        s.shuffle && k == 0 ==> s.previous() == s,
{
    reveal(AppV::next);
    reveal(AppV::previous);
    if s.shuffle {
        lemma_place_is(s.shuffle_order, k);
        if k + 1 < s.queue.len() {
            lemma_starting(s, s.shuffle_order[k + 1]);
        }
        if k > 0 {
            lemma_starting(s, s.shuffle_order[k - 1]);
        }
    } else {
        if i + 1 < s.queue.len() {
            lemma_starting(s, (i + 1) as usize);
        }
        if i > 0 {
            lemma_starting(s, (i - 1) as usize);
        }
    }
}

impl AppV {
    /// What is playing is the last of the queue, in the order that is followed.
    pub open spec fn plays_the_last(self) -> bool {
        self.queue_pos matches Some(at) && at < self.queue.len() && if self.shuffle {
            self.shuffle_order.len() == self.queue.len() && is_permutation(
                self.shuffle_order,
                self.queue.len(),
            ) && self.shuffle_order.last() == at
        } else {
            at == self.queue.len() - 1
        }
    }

    /// Playback has come to its end, from the state `before`.
    pub open spec fn has_ended(self, before: AppV) -> bool {
        &&& self.queue_pos is None
        &&& self.opening is None
        &&& self.following_into is None
        &&& self.after is None
        &&& self.status == "end of queue"@
        &&& self.effects == before.effects.push(Effect::Stop)
    }
}

/// After the last track of a folder, the folder it is listed in is read, to find the one
/// that comes next. A queue from nowhere, and the library's own folder, end there.
pub proof fn law_a_finished_queue_runs_on(s: AppV, p: Seq<char>)
    requires
        s.plays_the_last(),
        s.after is None,
    ensures
        match s.queue_dir {
            None => s.next().has_ended(s),
            Some(dir) => {
                &&& same_path(dir, s.root) ==> s.next().has_ended(s)
                &&& !same_path(dir, s.root) && s.parent_in(dir) == Some(p) ==> s.next() == (AppV {
                    after: Some(dir),
                    asking: AskV::List { dir: p, why: Why::After },
                    ..s
                })
                &&& s.parent_in(dir) is None ==> s.next().has_ended(s)
            },
        },
{
    reveal(AppV::next);
    reveal(AppV::following_on);
    reveal(AppV::looking_after);
    reveal(AppV::ended);
    reveal(AppV::stopped);
    if s.shuffle {
        lemma_place_is(s.shuffle_order, s.queue.len() - 1);
    }
}

/// A track that has played out gives way to the next, and nothing else does: not one
/// that is paused, still sounding, or on its way.
pub proof fn law_a_drained_track_gives_way(s: AppV)
    ensures
        s.queue_pos is Some && s.opening is None && s.following_into is None && s.audio.finished
            && !s.audio.paused ==> s.ticked() == s.next(),
        s.queue_pos is None || s.opening is Some || s.following_into is Some || !s.audio.finished
            || s.audio.paused ==> s.ticked() == s,
{
    reveal(AppV::ticked);
}

/// A local folder is listed in the folder above it, for as long as that is in the
/// library; a folder at the top of the server is listed in the library's own.
pub proof fn law_a_folder_is_listed_above(s: AppV, dir: Seq<char>, p: Seq<char>)
    ensures
        !has_scheme(dir) && parent(dir) == Some(p) ==> s.parent_in(dir) == (if inside(p, s.root)
            || has_scheme(p) {
            Some(p)
        } else {
            None
        }),
        parent(dir) is None && !has_scheme(dir) ==> s.parent_in(dir) is None,
{
}

/// A folder at the top of the server is listed in the library's own.
pub proof fn law_the_server_is_listed_at_the_top(s: AppV, server: Seq<char>, name: Seq<char>)
    requires
        s.remote.server == Some(server),
        has_scheme(server + "/"@ + name),
        !has_scheme(s.root),
        !name.contains('/'),
    ensures
        s.parent_in(server + "/"@ + name) == Some(s.root),
{
    let dir = server + "/"@ + name;
    reveal_strlit("/");
    assert(dir.take(server.len() as int) =~= server);
    let rest = dir.skip(server.len() as int);
    assert(rest =~= "/"@ + name);
    assert(after_prefix(dir, server) == Some(rest));
    assert(rest[0] == '/');
    assert(rest.skip(1) =~= name);
    assert(name.len() > 0 ==> name.contains(name[0]) && name.contains(name.last()));
    assert(stripped_start(rest, '/') == stripped_start(name, '/'));
    assert(stripped_start(name, '/') == name);
    assert(stripped(rest, '/') == name);
}

/// The folder that follows the one just played is the next row of the listing; it is
/// taken from memory when it is remembered as it is, and read otherwise. After the last
/// row the search goes on above, and a row that has gone ends it.
pub proof fn law_the_next_folder_follows(
    s: AppV,
    dir: Seq<char>,
    listed: Seq<char>,
    rows: Seq<FolderV>,
    i: int,
)
    requires
        s.after == Some(dir),
        0 <= i < rows.len(),
        same_path(rows[i].path, dir),
        forall|j: int| 0 <= j < i ==> !same_path((#[trigger] rows[j]).path, dir),
    ensures
        i + 1 < rows.len() ==> ({
            let next = rows[i + 1];
            let t = s.after_listed(listed, Ok(rows));
            let met = AppV { after: None, effects: s.effects.push(Effect::Stop), ..s }.saying(
                "on to "@ + next.label,
            );
            match recalled(s.memo, next) {
                Some(tracks) => t == met.playing_folder(next.path, tracks),
                None => {
                    &&& t.following_into == Some(next.path)
                    &&& t.effects == s.effects.push(Effect::Stop).push(Effect::Follow(next.stamp()))
                    &&& t.follow_generation != s.follow_generation
                    &&& t.status == "on to "@ + next.label
                    &&& t.after is None
                    &&& t.queue == s.queue
                    &&& t.queue_pos == s.queue_pos
                },
            }
        }),
        i + 1 == rows.len() && same_path(listed, s.root) ==> s.after_listed(
            listed,
            Ok(rows),
        ).has_ended(s),
        i + 1 == rows.len() && !same_path(listed, s.root) ==> match s.parent_in(listed) {
            Some(p) => s.after_listed(listed, Ok(rows)) == (AppV {
                after: Some(listed),
                asking: AskV::List { dir: p, why: Why::After },
                ..s
            }),
            None => s.after_listed(listed, Ok(rows)).has_ended(s),
        },
{
    reveal(AppV::after_listed);
    reveal(AppV::following_to);
    reveal(AppV::looking_after);
    reveal(AppV::ended);
    reveal(AppV::stopped);
    law_the_first_match_is_found(rows, seq![], dir);
    let at = folder_place(rows, dir) as int;
    if at < i {
        assert(same_path(rows[at].path, dir));
    }
    assert(at == i);
}

/// A folder that cannot be listed, or no longer holds the one just played, ends playback.
pub proof fn law_a_lost_place_ends_playback(
    s: AppV,
    dir: Seq<char>,
    listed: Seq<char>,
    rows: Seq<FolderV>,
    why: Seq<char>,
)
    requires
        s.after == Some(dir),
        forall|j: int| 0 <= j < rows.len() ==> !same_path((#[trigger] rows[j]).path, dir),
    ensures
        s.after_listed(listed, Ok(rows)).has_ended(s),
        s.after_listed(listed, Err(why)).has_ended(s),
{
    reveal(AppV::after_listed);
    reveal(AppV::ended);
    reveal(AppV::stopped);
    law_the_first_match_is_found(rows, seq![], dir);
    let at = folder_place(rows, dir) as int;
    if at < rows.len() {
        assert(same_path(rows[at].path, dir));
    }
}

/// A folder that playback runs on into becomes the queue and is started from the top, or
/// from the head of an order drawn for it, and the cursor goes along when it was on the
/// folder that was played. An empty one is passed over.
pub proof fn law_a_folder_is_played_from_the_top(s: AppV, dir: Seq<char>, tracks: Seq<TrackV>)
    requires
        s.resume is None,
        tracks.len() <= usize::MAX,
    ensures
        tracks.len() > 0 ==> ({
            let t = s.playing_folder(dir, tracks);
            &&& t.queue == tracks
            &&& t.queue_dir == Some(dir)
            &&& t.following_into == s.following_into
            &&& t.shuffle == s.shuffle
            &&& !s.shuffle ==> t.starts(s, 0)
            &&& s.shuffle ==> is_permutation(t.shuffle_order, tracks.len()) && t.starts(
                s,
                t.shuffle_order[0] as int,
            )
            &&& s.shuffle && tracks.len() >= 2 ==> t.shuffle_order.last() == drawn(
                s.rng,
                tracks.len(),
            )
            &&& s.shuffle ==> t.rng == nth_state(s.rng, (tracks.len() - 1) as nat)
            &&& s.tab == Tab::Local && (s.queue_dir matches Some(f) && s.selected_folder() matches
                Some(row) && same_path(row.path, f)) && folder_place(s.folders, dir)
                < s.folders.len() <= usize::MAX - 1 ==> t.folder_state.selected == Some(
                (folder_place(s.folders, dir) + 1) as usize,
            )
            &&& s.tab != Tab::Local || s.queue_dir is None || s.selected_folder() is None
                ==> t.folder_state == s.folder_state
        }),
        tracks.len() == 0 ==> s.playing_folder(dir, tracks) == (AppV {
            queue_dir: Some(dir),
            queue: tracks,
            ..s
        }).looking_after(dir),
{
    reveal(AppV::playing_folder);
    reveal(AppV::following_on);
    reveal(AppV::reshuffled);
    if tracks.len() > 0 {
        let finished = s.queue_dir;
        let a = AppV { queue_dir: Some(dir), queue: tracks, ..s };
        let b = if a.shuffle {
            a.reshuffled(None)
        } else {
            a
        };
        let moved = b.tab == Tab::Local && (finished matches Some(f) && (b.selected_folder() matches
            Some(row) && same_path(row.path, f))) && folder_place(b.folders, dir) < b.folders.len();
        let d = AppV {
            folder_state: b.folder_state.with(Some((folder_place(b.folders, dir) + 1) as usize)),
            ..b
        };
        law_listing_does_not_disturb_playback(d);
        let c = if moved {
            d.reloading()
        } else {
            b
        };
        law_shuffling_is_a_permutation(tracks.len(), None, s.rng);
        law_a_shuffle_follows_the_generator(tracks.len(), s.rng);
        if tracks.len() >= 2 {
            law_the_first_number_fills_the_last_place(tracks.len(), None, s.rng);
        }
        let first = if s.shuffle {
            b.shuffle_order[0]
        } else {
            0
        };
        assert(c.queue == tracks && c.queue_pos == s.queue_pos);
        lemma_starting(c, first);
        if moved {
            reveal(AppV::reloading);
            reveal(AppV::showing);
            reveal(AppV::resuming);
        }
    }
}

/// The folder playback was running on into is played as soon as it has been read, and one
/// that cannot be read stops playback and says why.
pub proof fn law_a_followed_folder_is_played(s: AppV, replies: Seq<(u64, ListedV)>)
    requires
        s.resume is None,
        replies.len() > 0,
        replies.last().0 == s.follow_generation,
        s.following_into == Some(replies.last().1.dir),
    ensures
        match replies.last().1.tracks {
            Ok(tracks) => 0 < tracks.len() <= usize::MAX ==> {
                let t = s.followed(replies);
                &&& t.queue == tracks
                &&& t.queue_dir == Some(replies.last().1.dir)
                &&& t.following_into is None
                &&& !s.shuffle ==> t.starts(s, 0)
                &&& s.shuffle ==> t.starts(s, t.shuffle_order[0] as int)
            },
            Err(why) => {
                &&& s.followed(replies).queue_pos is None
                &&& s.followed(replies).following_into is None
                &&& s.followed(replies).status == "error: "@ + why
                &&& s.followed(replies).effects == s.effects.push(Effect::Stop)
            },
        },
{
    reveal(AppV::followed);
    reveal(AppV::stopped);
    let l = replies.last().1;
    assert(newest_listed(replies, s.follow_generation) == Some(l));
    if let Ok(tracks) = l.tracks {
        if 0 < tracks.len() <= usize::MAX {
            let a = AppV {
                memo: crate::app::listing::remembering_all(s.memo, l.found),
                following_into: None,
                ..s
            };
            let c = match l.stamp {
                Some(stamp) => AppV { memo: remembering(a.memo, l.dir, stamp, tracks), ..a },
                None => a,
            };
            law_a_folder_is_played_from_the_top(c, l.dir, tracks);
        }
    }
}

/// A local file that plays is what is playing, with its cover asked for; one that does
/// not leaves everything as it was and says why.
pub proof fn law_a_file_that_plays_is_playing(s: AppV, index: usize, why: Seq<char>)
    requires
        s.asking == (AskV::Start { index }),
        index < s.queue.len(),
    ensures
        ({
            let t = s.file_started(None);
            &&& t.plays(index as int)
            &&& t.queue == s.queue
            &&& t.asking == AskV::Nothing
            &&& t.opening is None
            &&& t.cover.pending
            &&& t.settings_dirty == Some(s.clock)
            &&& s.resume_at is None ==> t.effects == s.effects.push(Effect::Cover) && t.status
                == "playing "@ + s.queue[index as int].title
        }),
        s.file_started(Some(why)) == (AppV {
            asking: AskV::Nothing,
            status: "error: "@ + why,
            ..s
        }),
{
    reveal(AppV::file_started);
    reveal(AppV::cover_wanted);
    reveal(AppV::resume_applied);
}

/// A restored track is held quiet until its playhead is in place: it is paused, and
/// sought, and goes on playing once the seek is answered, if it was playing. One that
/// starts from the top plays at once or stays paused.
pub proof fn law_a_restored_track_waits_for_its_place(
    s: AppV,
    index: usize,
    at: Duration,
    failure: Option<Seq<char>>,
)
    requires
        s.asking == (AskV::Start { index }),
        index < s.queue.len(),
        s.resume_at == Some((s.queue[index as int].path, at)),
    ensures
        ({
            let t = s.file_started(None);
            let heard = t.seek_answered(failure);
            &&& t.resume_at is None
            &&& at.total() > 0 ==> {
                &&& t.effects == s.effects.push(Effect::Cover).push(Effect::Pause).push(
                    Effect::Seek(at),
                )
                &&& t.resume_playing == s.resume_playing
                &&& heard.effects == (if s.resume_playing {
                    t.effects.push(Effect::Play)
                } else {
                    t.effects
                })
                &&& !heard.resume_playing
            }
            &&& at.total() == 0 ==> {
                &&& t.effects == (if s.resume_playing {
                    s.effects.push(Effect::Cover)
                } else {
                    s.effects.push(Effect::Cover).push(Effect::Pause)
                })
                &&& !t.resume_playing
            }
            &&& t.status == s.queue[index as int].title + (if s.resume_playing {
                " — resumed at "@
            } else {
                " — paused at "@
            }) + clock(at)
        }),
{
    reveal(AppV::file_started);
    reveal(AppV::cover_wanted);
    reveal(AppV::resume_applied);
    reveal(AppV::seek_answered);
}

/// A seek that fails says why; a seek that does not says nothing. Without a restored
/// track waiting, neither makes a sound.
pub proof fn law_a_failed_seek_is_reported(s: AppV, why: Seq<char>)
    requires
        !s.resume_playing,
    ensures
        s.seek_answered(None) == s,
        s.seek_answered(Some(why)) == s.saying("seek failed: "@ + why),
{
    reveal(AppV::seek_answered);
}

/// A stream that has opened is played, and one that could not be opened is let go of with
/// its reason; a later request makes an earlier reply no matter.
pub proof fn law_an_opened_stream_is_played(s: AppV, replies: Seq<OpenedV>, i: int)
    requires
        s.plays(i),
        replies.len() > 0,
        replies.last().generation == s.open_generation,
        s.opening == Some(replies.last().url),
    ensures
        ({
            let t = s.stream_opened(replies);
            &&& t.opening is None
            &&& t.queue == s.queue
            &&& match replies.last().failure {
                None => {
                    &&& t.plays(i)
                    &&& s.resume_at is None ==> t.effects == s.effects.push(Effect::PlayStream)
                        && t.status == "playing "@ + s.queue[i].title
                },
                Some(why) => {
                    &&& t.queue_pos is None
                    &&& t.effects == s.effects
                    &&& t.status == "error: "@ + why
                    &&& t.resume_at is None
                },
            }
        }),
{
    reveal(AppV::stream_opened);
    reveal(AppV::resume_applied);
    assert(newest_opened(replies, s.open_generation) == Some(replies.last()));
}

/// A remembered track is played where it was left, if this listing holds it: at the
/// first row with its path, from its place, or from the top when it is no longer that
/// long. It gets one chance.
pub proof fn law_a_remembered_track_is_found(s: AppV, i: int)
    requires
        s.resume is Some,
        0 <= i < s.tracks.len() <= usize::MAX,
        s.tracks[i].path == s.resume->0.track,
        forall|j: int| 0 <= j < i ==> (#[trigger] s.tracks[j]).path != s.resume->0.track,
    ensures
        ({
            let r = s.resume->0;
            let t = s.resuming();
            &&& t.starts(s, i)
            &&& t.queue == s.tracks
            &&& t.resume is None
            &&& t.track_state.selected == Some(i as usize)
            &&& t.resume_playing == r.playing
            &&& t.resume_at matches Some((path, at)) && path == r.track && match s.tracks[i].duration {
                Some(total) => if r.position.total() < total.total() {
                    at == r.position
                } else {
                    at.total() == 0
                },
                None => at == r.position,
            }
        }),
{
    reveal(AppV::resuming);
    reveal(AppV::playing_index);
    reveal(AppV::reshuffled);
    let r = s.resume->0;
    law_the_first_match_is_found(seq![], s.tracks, r.track);
    let at = track_named(s.tracks, r.track) as int;
    if at < i {
        assert(s.tracks[at].path == r.track);
    }
    assert(at == i);
    let b = AppV {
        resume: None,
        resume_at: Some((r.track, resume_place(r, s.tracks[i].duration))),
        resume_playing: r.playing,
        ..s
    };
    law_a_picked_row_is_played(b, i as usize);
    let c = AppV {
        queue: b.tracks,
        queue_dir: if b.tab == Tab::Local {
            b.tracks_dir
        } else {
            None
        },
        ..b
    };
    let d = if c.shuffle {
        c.reshuffled(Some(i as usize))
    } else {
        c
    };
    lemma_starting(d, i as usize);
    reveal(AppV::starting);
    reveal(AppV::resume_kept_for);
    reveal(AppV::opening_stream);
    reveal(AppV::cover_wanted);
}

/// What the system is told is what is playing, to the second; it is told once, and again
/// only when something changed.
pub proof fn law_the_system_is_told_what_plays(s: AppV)
    ensures
        ({
            let t = s.publishing();
            &&& t.publishing() == t
            &&& t.effects == (if t.published == s.published {
                s.effects
            } else {
                s.effects.push(Effect::Publish)
            })
            &&& t.published matches Some(n) && match s.queue_pos {
                Some(i) => i < s.queue.len() ==> {
                    let track = s.queue[i as int];
                    &&& n.title == track.title
                    &&& n.artist == track.artist
                    &&& n.album == track.album
                    &&& n.duration == track.duration
                    &&& n.elapsed.secs == s.audio.position.secs
                    &&& n.elapsed.nanos == 0
                    &&& n.playing == !s.audio.paused
                    &&& n.cover == s.cover.file
                },
                None => n.title.len() == 0 && !n.playing && n.duration is None,
            }
        }),
{
    reveal(AppV::publishing);
}

/// A star given to a track of the server is asked of the server, and the star it already
/// has is taken away; a local track has none to give.
pub proof fn law_a_star_is_asked_for(s: AppV, track: TrackV, n: u8)
    requires
        1 <= n <= 3,
    ensures
        has_scheme(track.path) ==> s.rating(track, n) == (AppV {
            asking: AskV::Rate {
                path: track.path,
                title: track.title,
                stars: if track.stars == Some(n) {
                    None
                } else {
                    Some(n)
                },
            },
            ..s
        }),
        !has_scheme(track.path) ==> s.rating(track, n) == s.saying(
            "stars are for tracks on the server"@,
        ),
{
    reveal(AppV::rating);
}

/// Stars go round: none, one, two, three, and none again.
pub proof fn law_stars_go_round(s: AppV, i: int)
    requires
        s.plays(i),
        has_scheme(s.queue[i].path),
        s.queue[i].stars matches Some(n) ==> 1 <= n <= 3,
    ensures
        s.rating_cycled().asking == (AskV::Rate {
            path: s.queue[i].path,
            title: s.queue[i].title,
            stars: match s.queue[i].stars {
                None => Some(1u8),
                Some(n) => if n == 3 {
                    None
                } else {
                    Some((n + 1) as u8)
                },
            },
        }),
{
    reveal(AppV::rating_cycled);
    reveal(AppV::rating);
}

/// Once the server has taken the stars every copy of the track shows them, on screen and
/// in the queue, and nothing else about any track changes; refused, nothing does.
pub proof fn law_every_copy_shows_its_stars(
    s: AppV,
    path: Seq<char>,
    title: Seq<char>,
    stars: Option<u8>,
    why: Seq<char>,
)
    requires
        s.asking == (AskV::Rate { path, title, stars }),
    ensures
        ({
            let t = s.rated(None);
            &&& t.tracks.len() == s.tracks.len()
            &&& t.queue.len() == s.queue.len()
            &&& forall|i: int|
                0 <= i < s.tracks.len() ==> #[trigger] t.tracks[i] == (TrackV {
                    stars: if same_path(s.tracks[i].path, path) {
                        stars
                    } else {
                        s.tracks[i].stars
                    },
                    ..s.tracks[i]
                })
            &&& forall|i: int|
                0 <= i < s.queue.len() ==> #[trigger] t.queue[i] == (TrackV {
                    stars: if same_path(s.queue[i].path, path) {
                        stars
                    } else {
                        s.queue[i].stars
                    },
                    ..s.queue[i]
                })
            &&& t.queue_pos == s.queue_pos
            &&& t.effects == s.effects
            &&& t.asking == AskV::Nothing
            &&& stars is None ==> t.status == "no stars for "@ + title
            &&& stars matches Some(n) ==> n <= 3 ==> {
                &&& t.status.len() == 4 + title.len()
                &&& forall|i: int| 0 <= i < n ==> #[trigger] t.status[i] == '★'
                &&& forall|i: int| n <= i < 3 ==> #[trigger] t.status[i] == '☆'
                &&& t.status.skip(4) == title
            }
        }),
        s.rated(Some(why)) == (AppV { asking: AskV::Nothing, status: "stars: "@ + why, ..s }),
{
    reveal(AppV::rated);
    reveal(restarred);
    reveal(memo_restarred);
    reveal_strlit(" ");
    if let Some(n) = stars {
        if n <= 3 {
            assert(s.rated(None).status.skip(4) =~= title);
        }
    }
}

/// A cover that has been loaded is shown, and the album's next track shows it at once
/// while its own is looked for; one that could not be found shows nothing.
pub proof fn law_a_loaded_cover_is_shown(s: AppV, replies: Seq<CoverReplyV>)
    requires
        replies.len() > 0,
        replies.last().generation == s.cover.generation,
    ensures
        ({
            let t = s.cover_loaded(replies);
            let reply = replies.last();
            &&& !t.cover.pending
            &&& t.cover.file == reply.file
            &&& t.cover.shown == (reply.size is Some)
            &&& t.effects == s.effects
            &&& match reply.size {
                Some((w, h)) => {
                    &&& w > 0 && h > 0 ==> t.cover.size == Some((w, h))
                    &&& t.cover.size matches Some((x, y)) && x > 0 && y > 0
                },
                None => t.cover.size is None && t.cover.memo is None,
            }
        }),
{
    reveal(AppV::cover_loaded);
    assert(newest_cover(replies, s.cover.generation) == Some(replies.last()));
}

/// The picture at hand is kept on screen for another track of the same album, at the same
/// size, and for no other; either way the track's own cover is asked for.
pub proof fn law_an_album_shares_its_cover(
    s: AppV,
    replies: Seq<CoverReplyV>,
    i: int,
    dir: Seq<char>,
    other: Seq<char>,
)
    requires
        replies.len() > 0,
        replies.last().generation == s.cover.generation,
        replies.last().size is Some,
        s.plays(i),
        parent(s.queue[i].path) == Some(dir),
        s.cover.requested == s.art_box(),
    ensures
        ({
            let t = s.cover_loaded(replies);
            let u = t.cover_wanted(other);
            &&& u.cover.pending
            &&& u.cover.generation != t.cover.generation
            &&& u.cover.requested == s.art_box()
            &&& u.effects == t.effects.push(Effect::Cover)
            &&& match parent(other) {
                Some(p) => u.cover.shown == same_path(dir, p),
                None => !u.cover.shown,
            }
            &&& u.cover.shown ==> u.cover.size == t.cover.size
        }),
{
    reveal(AppV::cover_loaded);
    reveal(AppV::cover_wanted);
    assert(newest_cover(replies, s.cover.generation) == Some(replies.last()));
}

/// The art is asked for at the size of its pane in pixels.
pub proof fn law_the_art_fits_its_pane(s: AppV)
    requires
        s.areas.art.width > 0,
        s.areas.art.height > 0,
        s.areas.cell_width > 0,
        s.areas.cell_height > 0,
    ensures
        s.art_box() == (
            (s.areas.art.width * s.areas.cell_width) as u32,
            (s.areas.art.height * s.areas.cell_height) as u32,
        ),
{
    assert(s.areas.art.width * s.areas.cell_width > 0) by (nonlinear_arith)
        requires
            s.areas.art.width > 0,
            s.areas.cell_width > 0,
    ;
    assert(s.areas.art.height * s.areas.cell_height > 0) by (nonlinear_arith)
        requires
            s.areas.art.height > 0,
            s.areas.cell_height > 0,
    ;
}

/// A pane that changed size by more than a nudge has its cover asked for anew, once
/// nothing is pending; a nudge changes nothing.
pub proof fn law_a_resized_pane_gets_its_cover(s: AppV, i: int)
    requires
        s.plays(i),
    ensures
        ({
            let (w, h) = s.art_box();
            let (x, y) = s.cover.requested;
            let far = w >= x + 16 || x >= w + 16 || h >= y + 16 || y >= h + 16;
            &&& far && !s.cover.pending && (x != 0 || y != 0) ==> {
                &&& s.cover_resized().effects == s.effects.push(Effect::Cover)
                &&& s.cover_resized().cover.requested == (w, h)
                &&& s.cover_resized().cover.pending
            }
            &&& !far || s.cover.pending ==> s.cover_resized() == s
        }),
{
    reveal(AppV::cover_resized);
    reveal(AppV::cover_wanted);
}

/// What is owed a write is written once it has been left alone for four tenths of a
/// second, or at once when that is asked for; what is not owed one is not written.
pub proof fn law_settings_are_written_when_they_settle(s: AppV)
    requires
        s.settings_file is Some,
    ensures
        s.saving_settings(true).effects == s.effects.push(Effect::SaveSettings),
        s.saving_settings(true).settings_dirty is None,
        s.saving_settings(true).saved_position == s.audio.position,
        s.settings_dirty is None ==> s.saving_settings(false) == s,
        match s.settings_dirty {
            Some(since) => {
                let waited = s.clock.total() - since.total();
                &&& waited >= 400_000_000 ==> s.saving_settings(false) == s.saving_settings(true)
                &&& waited < 400_000_000 ==> s.saving_settings(false) == s
            },
            None => true,
        },
        s.touched().settings_dirty == Some(s.clock),
{
    reveal(AppV::saving_settings);
    reveal(AppV::writing_settings);
}

/// The playhead is written once it has moved a second, either way, and only while
/// something plays.
pub proof fn law_the_playhead_is_written_once_a_second(s: AppV)
    requires
        s.settings_file is Some,
        s.settings_dirty is None,
    ensures
        ({
            let apart = s.audio.position.total() - s.saved_position.total();
            let moved = apart >= 1_000_000_000 || -apart >= 1_000_000_000;
            &&& s.queue_pos is Some && !s.audio.paused && moved ==> {
                &&& s.position_saved().effects == s.effects.push(Effect::SaveSettings)
                &&& s.position_saved().saved_position == s.audio.position
                &&& s.position_saved().position_saved() == s.position_saved()
            }
            &&& s.queue_pos is None || s.audio.paused || !moved ==> s.position_saved() == s
        }),
{
    reveal(AppV::position_saved);
    reveal(AppV::saving_settings);
    reveal(AppV::writing_settings);
}

/// The row of the playing track is the first on screen with its path; there is none when
/// it is not listed, or nothing plays.
pub proof fn law_the_playing_row_holds_the_track(s: AppV)
    requires
        s.tracks.len() <= usize::MAX,
    ensures
        match s.playing_row() {
            Some(row) => {
                &&& row < s.tracks.len()
                &&& s.queue_pos is Some
                &&& same_path(s.tracks[row as int].path, s.queue[s.queue_pos->0 as int].path)
                &&& forall|j: int|
                    0 <= j < row ==> !same_path(
                        (#[trigger] s.tracks[j]).path,
                        s.queue[s.queue_pos->0 as int].path,
                    )
            },
            None => s.queue_pos matches Some(i) && i < s.queue.len() ==> forall|j: int|
                0 <= j < s.tracks.len() ==> !same_path(
                    (#[trigger] s.tracks[j]).path,
                    s.queue[s.queue_pos->0 as int].path,
                ),
        },
{
    if let Some(t) = s.now_playing() {
        law_the_first_match_is_found(seq![], s.tracks, t.path);
    }
}

/// A restored place belongs to its own track: starting that one keeps it, and starting
/// any other forgets it.
pub proof fn law_another_track_forgets_the_place(
    s: AppV,
    index: usize,
    path: Seq<char>,
    at: Duration,
)
    requires
        index < s.queue.len(),
        s.resume_at == Some((path, at)),
    ensures
        s.queue[index as int].path == path ==> s.starting(index).resume_at == s.resume_at
            && s.starting(index).resume_playing == s.resume_playing,
        s.queue[index as int].path != path ==> s.starting(index).resume_at is None
            && !s.starting(index).resume_playing,
{
    reveal(AppV::starting);
    reveal(AppV::resume_kept_for);
    reveal(AppV::opening_stream);
    reveal(AppV::cover_wanted);
}

} // verus!
