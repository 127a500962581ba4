//! Playing: the queue, what comes next, and the cover that goes with it.

use vstd::prelude::*;
use crate::app::{
    folders_of, memo_of, tracks_of, bump, bumped, given, repeated, stars_text, App, AppV, Ask,
    AskV, Cover, CoverMemo, CoverMemoV, CoverV, Effect, Resume, ResumeV, Tab, Why,
};
use crate::feed::copy_opt;
use crate::library::{
    self, clock, copy_tracks, find_folder, find_named, find_track, folder_place, folders_view,
    track_named, track_place, tracks_view, Folder, FolderV, Track, TrackV,
};
use crate::media::{Command, NowPlaying, NowPlayingV};
use crate::memo::{self, memo_restarred, recalled, restarred};
use crate::paths::{self, inside, parent, same_path};
use crate::queue::{self, next_of, previous_of, shuffled, shuffled_rng};
use crate::remote::{self, has_scheme};
use crate::text::{self, after_prefix, opt_view, stripped};
use crate::time::Duration;

verus! {

/// At least one, for a size in pixels.
pub open spec fn at_least_one(size: (u32, u32)) -> (u32, u32) {
    (
        if size.0 == 0 {
            1
        } else {
            size.0
        },
        if size.1 == 0 {
            1
        } else {
            size.1
        },
    )
}

/// Where to put the playhead for a remembered track. Past the end of one that has
/// become shorter, or simply finished last time, it starts again.
pub open spec fn resume_place(resume: ResumeV, duration: Option<Duration>) -> Duration {
    match duration {
        Some(total) => if resume.position.total() >= total.total() {
            Duration::nothing()
        } else {
            resume.position
        },
        None => resume.position,
    }
}

/// Where to put the playhead for a remembered track.
pub fn resume_point(resume: &Resume, duration: Option<Duration>) -> (d: Duration)
    ensures
        d == resume_place(resume@, duration),
{
    match duration {
        Some(total) => if resume.position.is_less(total) {
            resume.position
        } else {
            Duration::zero()
        },
        None => resume.position,
    }
}

/// A stream that finished opening, or could not be.
#[derive(Debug)]
pub struct Opened {
    pub generation: u64,
    pub url: String,
    pub result: Result<(), String>,
}

/// What an [`Opened`] holds.
pub ghost struct OpenedV {
    pub generation: u64,
    pub url: Seq<char>,
    pub failure: Option<Seq<char>>,
}

impl View for Opened {
    type V = OpenedV;

    open spec fn view(&self) -> OpenedV {
        OpenedV {
            generation: self.generation,
            url: self.url@,
            failure: match self.result {
                Ok(_) => None,
                Err(why) => Some(why@),
            },
        }
    }
}

pub open spec fn opened_view(v: Seq<Opened>) -> Seq<OpenedV> {
    Seq::new(v.len(), |i: int| v[i]@)
}

/// The last of the replies that answers the newest request.
pub open spec fn newest_opened(replies: Seq<OpenedV>, generation: u64) -> Option<OpenedV>
    decreases replies.len(),
{
    if replies.len() == 0 {
        None
    } else if replies.last().generation == generation {
        Some(replies.last())
    } else {
        newest_opened(replies.drop_last(), generation)
    }
}

/// A cover that was loaded: the size of its picture, if it has one, and the file it
/// was kept in.
#[derive(Debug)]
pub struct CoverReply {
    pub generation: u64,
    pub size: Option<(u32, u32)>,
    pub file: Option<String>,
}

/// What a [`CoverReply`] holds.
pub ghost struct CoverReplyV {
    pub generation: u64,
    pub size: Option<(u32, u32)>,
    pub file: Option<Seq<char>>,
}

impl View for CoverReply {
    type V = CoverReplyV;

    open spec fn view(&self) -> CoverReplyV {
        CoverReplyV {
            generation: self.generation,
            size: self.size,
            file: opt_view(self.file),
        }
    }
}

pub open spec fn cover_replies_view(v: Seq<CoverReply>) -> Seq<CoverReplyV> {
    Seq::new(v.len(), |i: int| v[i]@)
}

/// The last of the replies that answers the newest request.
pub open spec fn newest_cover(replies: Seq<CoverReplyV>, generation: u64) -> Option<CoverReplyV>
    decreases replies.len(),
{
    if replies.len() == 0 {
        None
    } else if replies.last().generation == generation {
        Some(replies.last())
    } else {
        newest_cover(replies.drop_last(), generation)
    }
}

impl AppV {
    pub open spec fn now_playing(self) -> Option<TrackV> {
        match self.queue_pos {
            Some(i) => if i < self.queue.len() {
                Some(self.queue[i as int])
            } else {
                None
            },
            None => None,
        }
    }

    /// Row in the *visible* list of the playing track; nothing when it is not there.
    pub open spec fn playing_row(self) -> Option<usize> {
        match self.now_playing() {
            Some(t) => {
                let at = track_place(self.tracks, t.path);
                if at < self.tracks.len() {
                    Some(at as usize)
                } else {
                    None
                }
            },
            None => None,
        }
    }

    /// The pixel box the art will occupy; a stand-in before anything was drawn.
    pub open spec fn art_box(self) -> (u32, u32) {
        let cw = if self.areas.cell_width == 0 {
            1
        } else {
            self.areas.cell_width as int
        };
        let ch = if self.areas.cell_height == 0 {
            1
        } else {
            self.areas.cell_height as int
        };
        let w = self.areas.art.width * cw;
        let h = self.areas.art.height * ch;
        if w == 0 || h == 0 {
            (512, 512)
        } else {
            (w as u32, h as u32)
        }
    }

    /// The picture at hand, when it belongs to the album and the box asked for.
    pub open spec fn cover_at_hand(self, path: Seq<char>) -> Option<CoverMemoV> {
        match (self.cover.memo, parent(path)) {
            (Some(m), Some(dir)) => if same_path(m.dir, dir) && m.box_px == self.art_box() {
                Some(m)
            } else {
                None
            },
            _ => None,
        }
    }

    /// With the cover of `path` asked for. The old picture is cleared at once, unless
    /// it is the same album's.
    #[verifier::opaque]
    pub open spec fn cover_wanted(self, path: Seq<char>) -> AppV {
        let c = self.cover;
        let shown = match self.cover_at_hand(path) {
            Some(m) => CoverV { shown: true, size: Some(at_least_one(m.size)), ..c },
            None => CoverV { shown: false, size: None, file: None, ..c },
        };
        AppV {
            cover: CoverV {
                pending: true,
                generation: bumped(c.generation),
                requested: self.art_box(),
                ..shown
            },
            ..self
        }.doing(Effect::Cover)
    }

    /// With the playhead put where a restored track left off. It is held quiet until
    /// the seek has been answered, even when it is going to play.
    #[verifier::opaque]
    pub open spec fn resume_applied(self) -> AppV {
        match self.resume_at {
            None => self,
            Some((_, at)) => {
                let playing = self.resume_playing;
                let title = match self.now_playing() {
                    Some(t) => t.title,
                    None => seq![],
                };
                let a = AppV { resume_at: None, ..self };
                let b = if at.total() > 0 {
                    a.doing(Effect::Pause).doing(Effect::Seek(at))
                } else if !playing {
                    AppV { resume_playing: false, ..a }.doing(Effect::Pause)
                } else {
                    AppV { resume_playing: false, ..a }
                };
                b.saying(
                    title + (if playing {
                        " — resumed at "@
                    } else {
                        " — paused at "@
                    }) + clock(at),
                )
            },
        }
    }

    /// A restored position belongs to one track. Starting any other one means the
    /// session has moved on.
    #[verifier::opaque]
    pub open spec fn resume_kept_for(self, path: Seq<char>) -> AppV {
        match self.resume_at {
            Some((wanted, _)) => if wanted != path {
                AppV { resume_at: None, resume_playing: false, ..self }
            } else {
                self
            },
            None => self,
        }
    }

    /// With a stream being opened for `index` of the queue.
    #[verifier::opaque]
    pub open spec fn opening_stream(
        self,
        index: usize,
        path: Seq<char>,
        title: Seq<char>,
        url: Seq<char>,
    ) -> AppV {
        let b = AppV {
            queue_pos: Some(index),
            opening: Some(url),
            open_generation: bumped(self.open_generation),
            ..self.doing(Effect::Stop)
        };
        b.doing(Effect::Open).saying("opening "@ + title).cover_wanted(path).touched()
    }

    /// With the track at `index` of the queue started: a local file is tried at once,
    /// and a stream is opened first, the old track stopping now rather than playing on
    /// under the new title.
    #[verifier::opaque]
    pub open spec fn starting(self, index: usize) -> AppV {
        if index >= self.queue.len() {
            self
        } else {
            let t = self.queue[index as int];
            let a = self.resume_kept_for(t.path);
            match t.url {
                None => AppV { asking: AskV::Start { index }, ..a },
                Some(url) => a.opening_stream(index, t.path, t.title, url),
            }
        }
    }

    /// Once it is known whether the local file plays.
    #[verifier::opaque]
    pub open spec fn file_started(self, failure: Option<Seq<char>>) -> AppV {
        match self.asking {
            AskV::Start { index } => {
                let a = AppV { asking: AskV::Nothing, ..self };
                if index >= self.queue.len() {
                    a
                } else {
                    match failure {
                        Some(why) => a.saying("error: "@ + why),
                        None => {
                            let t = self.queue[index as int];
                            AppV {
                                opening: None,
                                queue_pos: Some(index),
                                status: "playing "@ + t.title,
                                ..a
                            }.cover_wanted(t.path).resume_applied().touched()
                        },
                    }
                }
            },
            _ => self,
        }
    }

    /// With a fresh order for the queue, `head` first when it is given.
    #[verifier::opaque]
    pub open spec fn reshuffled(self, head: Option<usize>) -> AppV {
        AppV {
            shuffle_order: shuffled(self.queue.len(), head, self.rng),
            rng: shuffled_rng(self.queue.len(), self.rng),
            ..self
        }
    }

    /// With `index` of the visible list started, and that list adopted as the queue.
    #[verifier::opaque]
    pub open spec fn playing_index(self, index: usize) -> AppV {
        if index >= self.tracks.len() {
            self
        } else {
            let a = AppV {
                queue: self.tracks,
                queue_dir: if self.tab == Tab::Local {
                    self.tracks_dir
                } else {
                    None
                },
                ..self
            };
            let b = if a.shuffle {
                a.reshuffled(Some(index))
            } else {
                a
            };
            b.starting(index)
        }
    }

    #[verifier::opaque]
    pub open spec fn playing_selected(self) -> AppV {
        match self.track_state.selected {
            Some(index) => self.playing_index(index),
            None => self,
        }
    }

    /// With the remembered track started, if this listing is the one that holds it.
    /// One shot either way.
    #[verifier::opaque]
    pub open spec fn resuming(self) -> AppV {
        match self.resume {
            None => self,
            Some(r) => {
                let a = AppV { resume: None, ..self };
                let at = track_named(self.tracks, r.track);
                if at >= self.tracks.len() {
                    a
                } else {
                    let index = at as usize;
                    let place = resume_place(r, self.tracks[at as int].duration);
                    let b = AppV {
                        resume_at: Some((r.track, place)),
                        resume_playing: r.playing,
                        ..a
                    }.playing_index(index);
                    AppV { track_state: b.track_state.with(Some(index)), ..b }
                }
            },
        }
    }

    /// Stopped, with a stream still opening let go of: it would otherwise land later
    /// and start playing on its own.
    #[verifier::opaque]
    pub open spec fn stopped(self) -> AppV {
        AppV {
            opening: None,
            following_into: None,
            queue_pos: None,
            resume_at: None,
            resume_playing: false,
            ..self.doing(Effect::Stop)
        }
    }

    #[verifier::opaque]
    pub open spec fn ended(self) -> AppV {
        self.stopped().saying("end of queue"@)
    }

    /// The folder `dir` is listed in. A server's top-level folders sit among the local
    /// ones, so their parent is the local root, not the server's own.
    pub open spec fn parent_in(self, dir: Seq<char>) -> Option<Seq<char>> {
        if !has_scheme(self.root) && has_scheme(dir) && (self.remote.server matches Some(server)
            && (after_prefix(dir, server) matches Some(rest) && !stripped(rest, '/').contains(
            '/',
        ))) {
            Some(self.root)
        } else {
            match parent(dir) {
                Some(p) => if inside(p, self.root) || has_scheme(p) {
                    Some(p)
                } else {
                    None
                },
                None => None,
            }
        }
    }

    /// Looking for the folder after `dir`: in the folder it is listed in, and nowhere
    /// once that is the top.
    #[verifier::opaque]
    pub open spec fn looking_after(self, dir: Seq<char>) -> AppV {
        if same_path(dir, self.root) {
            AppV { after: None, ..self }.ended()
        } else {
            match self.parent_in(dir) {
                None => AppV { after: None, ..self }.ended(),
                Some(p) => AppV {
                    after: Some(dir),
                    asking: AskV::List { dir: p, why: Why::After },
                    ..self
                },
            }
        }
    }

    /// The queue is used up: on into the folder after the one it came from, climbing
    /// out when that was the last one.
    #[verifier::opaque]
    pub open spec fn following_on(self) -> AppV {
        match self.queue_dir {
            None => self.ended(),
            Some(dir) => self.looking_after(dir),
        }
    }

    /// With `dir` made the queue and started from the top — or from wherever shuffle
    /// says — the cursor moving along when it was on the folder just finished.
    #[verifier::opaque]
    pub open spec fn playing_folder(self, dir: Seq<char>, tracks: Seq<TrackV>) -> AppV {
        let finished = self.queue_dir;
        let a = AppV { queue_dir: Some(dir), queue: tracks, ..self };
        if tracks.len() == 0 {
            a.following_on()
        } else {
            let b = if a.shuffle {
                a.reshuffled(None)
            } else {
                a
            };
            let first = if a.shuffle {
                b.shuffle_order[0]
            } else {
                0
            };
            let moved = b.tab == Tab::Local && (finished matches Some(f) && (
            b.selected_folder() matches Some(s) && same_path(s.path, f))) && folder_place(
                b.folders,
                dir,
            ) < b.folders.len();
            let c = if moved {
                AppV {
                    folder_state: b.folder_state.with(
                        Some((folder_place(b.folders, dir) + 1) as usize),
                    ),
                    ..b
                }.reloading()
            } else {
                b
            };
            c.starting(first)
        }
    }

    /// On into `folder`, at once when it is remembered.
    #[verifier::opaque]
    pub open spec fn following_to(self, folder: FolderV) -> AppV {
        match recalled(self.memo, folder) {
            Some(tracks) => self.playing_folder(folder.path, tracks),
            None => AppV {
                following_into: Some(folder.path),
                follow_generation: bumped(self.follow_generation),
                ..self
            }.doing(Effect::Follow(folder.stamp())),
        }
    }

    /// The folder that holds the one just played has been listed.
    #[verifier::opaque]
    pub open spec fn after_listed(
        self,
        listed: Seq<char>,
        rows: Result<Seq<FolderV>, Seq<char>>,
    ) -> AppV {
        match self.after {
            None => self,
            Some(dir) => {
                let a = AppV { after: None, ..self };
                match rows {
                    Err(_) => a.ended(),
                    Ok(rows) => {
                        let at = folder_place(rows, dir) as int;
                        if at >= rows.len() {
                            a.ended()
                        } else if at + 1 < rows.len() {
                            let next = rows[at + 1];
                            a.doing(Effect::Stop).saying("on to "@ + next.label).following_to(
                                next,
                            )
                        } else {
                            a.looking_after(listed)
                        }
                    },
                }
            },
        }
    }

    #[verifier::opaque]
    pub open spec fn next(self) -> AppV {
        match self.queue_pos {
            Some(current) => match next_of(
                self.shuffle,
                self.shuffle_order,
                self.queue.len(),
                current,
            ) {
                Some(n) => self.starting(n),
                None => self.following_on(),
            },
            None => self.playing_selected(),
        }
    }

    #[verifier::opaque]
    pub open spec fn previous(self) -> AppV {
        match self.queue_pos {
            Some(current) => match previous_of(self.shuffle, self.shuffle_order, current) {
                Some(n) => self.starting(n),
                None => self,
            },
            None => self,
        }
    }

    #[verifier::opaque]
    pub open spec fn toggled(self) -> AppV {
        if self.queue_pos is None {
            self.playing_selected()
        } else {
            self.doing(Effect::Toggle)
        }
    }

    /// With a stream that finished opening picked up. The generation alone cannot say
    /// whether it is still the track waited for; only the URL can.
    #[verifier::opaque]
    pub open spec fn stream_opened(self, replies: Seq<OpenedV>) -> AppV {
        match newest_opened(replies, self.open_generation) {
            None => self,
            Some(reply) => if self.opening != Some(reply.url) {
                self
            } else {
                let a = AppV { opening: None, ..self };
                match reply.failure {
                    None => {
                        let title = match a.now_playing() {
                            Some(t) => t.title,
                            None => seq![],
                        };
                        a.doing(Effect::PlayStream).saying("playing "@ + title).resume_applied()
                    },
                    Some(why) => AppV {
                        queue_pos: None,
                        resume_at: None,
                        resume_playing: false,
                        ..a
                    }.saying("error: "@ + why),
                }
            },
        }
    }

    /// With a finished cover picked up.
    #[verifier::opaque]
    pub open spec fn cover_loaded(self, replies: Seq<CoverReplyV>) -> AppV {
        match newest_cover(replies, self.cover.generation) {
            None => self,
            Some(reply) => {
                let c = CoverV { pending: false, file: reply.file, ..self.cover };
                AppV {
                    cover: match reply.size {
                        Some(size) => CoverV {
                            size: Some(at_least_one(size)),
                            shown: true,
                            memo: match self.now_playing() {
                                Some(t) => match parent(t.path) {
                                    Some(dir) => Some(
                                        CoverMemoV { dir, box_px: c.requested, size },
                                    ),
                                    None => c.memo,
                                },
                                None => c.memo,
                            },
                            ..c
                        },
                        None => CoverV { size: None, shown: false, memo: None, ..c },
                    },
                    ..self
                }
            },
        }
    }

    /// With the cover asked for anew when the pane changed size by more than a nudge.
    #[verifier::opaque]
    pub open spec fn cover_resized(self) -> AppV {
        let (w, h) = self.art_box();
        let (had_w, had_h) = self.cover.requested;
        let near = -16 < w - had_w < 16 && -16 < h - had_h < 16;
        if self.cover.pending || (had_w == 0 && had_h == 0) || near {
            self
        } else {
            match self.now_playing() {
                Some(t) => self.cover_wanted(t.path),
                None => self,
            }
        }
    }

    #[verifier::opaque]
    pub open spec fn shuffle_toggled(self) -> AppV {
        let a = AppV { shuffle: !self.shuffle, ..self }.touched();
        if a.shuffle {
            a.reshuffled(a.queue_pos).saying("shuffle on"@)
        } else {
            AppV { shuffle_order: seq![], ..a }.saying("shuffle off"@)
        }
    }

    /// The stars a click on star `n` of a track leaves it with.
    pub open spec fn stars_after(track: TrackV, n: u8) -> Option<u8> {
        let s = if n < 1 {
            1u8
        } else if n > 3 {
            3u8
        } else {
            n
        };
        if track.stars == Some(s) {
            None
        } else {
            Some(s)
        }
    }

    /// With a track given this many stars — or none, when it already has exactly that
    /// many. Only a track on a server has stars.
    #[verifier::opaque]
    pub open spec fn rating(self, track: TrackV, n: u8) -> AppV {
        if !has_scheme(track.path) {
            self.saying("stars are for tracks on the server"@)
        } else {
            AppV {
                asking: AskV::Rate {
                    path: track.path,
                    title: track.title,
                    stars: AppV::stars_after(track, n),
                },
                ..self
            }
        }
    }

    /// Every copy of the track agrees, once the server has taken the stars.
    #[verifier::opaque]
    pub open spec fn rated(self, failure: Option<Seq<char>>) -> AppV {
        match self.asking {
            AskV::Rate { path, title, stars } => {
                let a = AppV { asking: AskV::Nothing, ..self };
                match failure {
                    Some(why) => a.saying("stars: "@ + why),
                    None => AppV {
                        tracks: restarred(a.tracks, path, stars),
                        queue: restarred(a.queue, path, stars),
                        memo: memo_restarred(a.memo, path, stars),
                        status: match stars {
                            Some(_) => repeated('★', given(stars)) + repeated(
                                '☆',
                                (3 - given(stars)) as nat,
                            ) + " "@ + title,
                            None => "no stars for "@ + title,
                        },
                        ..a
                    },
                }
            },
            _ => self,
        }
    }

    /// One star more for what is playing, round to none after three.
    #[verifier::opaque]
    pub open spec fn rating_cycled(self) -> AppV {
        match self.now_playing() {
            None => self,
            Some(t) => match t.stars {
                Some(n) => if n >= 3 {
                    self.rating(t, 3)
                } else {
                    self.rating(t, (n + 1) as u8)
                },
                None => self.rating(t, 1),
            },
        }
    }

    #[verifier::opaque]
    pub open spec fn writing_settings(self) -> AppV {
        let a = AppV { settings_dirty: None, ..self };
        if self.settings_file is None {
            a
        } else {
            AppV { saved_position: self.audio.position, ..a }.doing(Effect::SaveSettings)
        }
    }

    /// The settings are written out if they are owed and have settled for long enough
    /// that a key repeat writes once, at the end of the burst.
    #[verifier::opaque]
    pub open spec fn saving_settings(self, force: bool) -> AppV {
        if force {
            self.writing_settings()
        } else {
            match self.settings_dirty {
                None => self,
                Some(changed) => if self.clock.total() - changed.total() < 400_000_000 {
                    self
                } else {
                    self.writing_settings()
                },
            }
        }
    }

    /// The playhead is written out once a second while it moves.
    #[verifier::opaque]
    pub open spec fn position_saved(self) -> AppV {
        let drift = self.audio.position.total() - self.saved_position.total();
        let a = if self.queue_pos is Some && !self.audio.paused && (drift >= 1_000_000_000 || drift
            <= -1_000_000_000) {
            self.writing_settings()
        } else {
            self
        };
        a.saving_settings(false)
    }

    /// On to the next track once the current one has drained. A stream still opening
    /// has nothing queued either, and that silence must not read as a track that
    /// finished.
    #[verifier::opaque]
    pub open spec fn ticked(self) -> AppV {
        if self.queue_pos is Some && self.opening is None && self.following_into is None
            && self.audio.finished && !self.audio.paused {
            self.next()
        } else {
            self
        }
    }

    pub open spec fn length(self) -> Option<Duration> {
        match self.now_playing() {
            Some(t) => t.duration,
            None => None,
        }
    }

    #[verifier::opaque]
    pub open spec fn commanded(self, command: Command) -> AppV {
        match command {
            Command::Toggle => self.toggled(),
            Command::Play => if self.queue_pos is None {
                self.playing_selected()
            } else if self.audio.paused {
                self.doing(Effect::Toggle)
            } else {
                self
            },
            Command::Pause => if !self.audio.paused {
                self.doing(Effect::Toggle)
            } else {
                self
            },
            Command::Stop => self.stopped(),
            Command::Next => self.next(),
            Command::Previous => self.previous(),
            Command::SeekBy(delta) => self.seeking_by(delta),
            Command::SetPosition(at) => if self.length() is Some {
                self.doing(Effect::SeekPosition(at))
            } else {
                self
            },
        }
    }

    /// Moved along the track by `delta` seconds, and no further than its ends.
    #[verifier::opaque]
    pub open spec fn seeking_by(self, delta: i64) -> AppV {
        match self.length() {
            Some(total) => self.sought(self.audio.position.nudged(delta as int, total)),
            None => self,
        }
    }

    /// What there is to tell the system. Rounded off to the second, or a publish once
    /// a second would never match.
    pub open spec fn news(self) -> NowPlayingV {
        match self.now_playing() {
            Some(t) => NowPlayingV {
                title: t.title,
                artist: t.artist,
                album: t.album,
                duration: t.duration,
                elapsed: Duration { secs: self.audio.position.secs, nanos: 0 },
                playing: !self.audio.paused,
                cover: self.cover.file,
            },
            None => NowPlayingV::nothing(),
        }
    }

    #[verifier::opaque]
    pub open spec fn publishing(self) -> AppV {
        if self.published == Some(self.news()) {
            self
        } else {
            AppV { published: Some(self.news()), ..self.doing(Effect::Publish) }
        }
    }

    /// The answer to a seek. A restored track was held quiet until its playhead was in
    /// the right place; it is let go on a failed seek too.
    #[verifier::opaque]
    pub open spec fn seek_answered(self, failure: Option<Seq<char>>) -> AppV {
        let a = match failure {
            Some(why) => self.saying("seek failed: "@ + why),
            None => self,
        };
        if a.resume_playing {
            AppV { resume_playing: false, ..a }.doing(Effect::Play)
        } else {
            a
        }
    }

    #[verifier::opaque]
    pub open spec fn sought(self, target: Duration) -> AppV {
        self.doing(Effect::Seek(target)).saying("seek "@ + clock(target))
    }
}

// ---------------------------------------------------------------------------

impl App {
    pub fn now_playing(&self) -> (r: Option<&Track>)
        ensures
            match r {
                Some(t) => self@.now_playing() == Some(t@),
                None => self@.now_playing() is None,
            },
    {
        proof {
            reveal(tracks_of);
        }
        match self.queue_pos {
            Some(i) => if i < self.queue.len() {
                Some(&self.queue[i])
            } else {
                None
            },
            None => None,
        }
    }

    /// Row in the visible list of the playing track, for the marker.
    pub fn playing_row(&self) -> (r: Option<usize>)
        ensures
            r == self@.playing_row(),
    {
        proof {
            reveal(tracks_of);
        }
        match self.now_playing() {
            Some(t) => find_track(&self.tracks, t.path.as_str()),
            None => None,
        }
    }

    pub fn is_playing_something(&self) -> (b: bool)
        ensures
            b == (self@.queue_pos is Some),
    {
        self.queue_pos.is_some()
    }

    /// True while a stream is being opened.
    pub fn is_opening(&self) -> (b: bool)
        ensures
            b == (self@.opening is Some),
    {
        self.opening.is_some()
    }

    /// The pixel box the art will occupy.
    pub fn art_box_px(&self) -> (r: (u32, u32))
        ensures
            r == self@.art_box(),
    {
        let cw: u32 = if self.areas.cell_width == 0 {
            1
        } else {
            self.areas.cell_width as u32
        };
        let ch: u32 = if self.areas.cell_height == 0 {
            1
        } else {
            self.areas.cell_height as u32
        };
        let aw: u32 = self.areas.art.width as u32;
        let ah: u32 = self.areas.art.height as u32;
        proof {
            assert(0 <= aw * cw <= 65535 * 65535) by (nonlinear_arith)
                requires
                    0 <= aw <= 65535,
                    0 <= cw <= 65535,
            ;
            assert(0 <= ah * ch <= 65535 * 65535) by (nonlinear_arith)
                requires
                    0 <= ah <= 65535,
                    0 <= ch <= 65535,
            ;
        }
        let w: u32 = aw * cw;
        let h: u32 = ah * ch;
        if w == 0 || h == 0 {
            (512, 512)
        } else {
            (w, h)
        }
    }

    fn cover_at_hand(&self, path: &str) -> (r: Option<(u32, u32)>)
        ensures
            match r {
                Some(size) => self@.cover_at_hand(path@) matches Some(m) && m.size == size,
                None => self@.cover_at_hand(path@) is None,
            },
    {
        let (w, h) = self.art_box_px();
        match (&self.cover.memo, paths::parent_of(path)) {
            (Some(m), Some(dir)) => if paths::same(m.dir.as_str(), dir.as_str()) && m.box_px.0 == w
                && m.box_px.1 == h {
                assert(m@.box_px == self@.art_box());
                Some(m.size)
            } else {
                None
            },
            _ => None,
        }
    }

    /// Ask for the cover and carry on. The old cover is cleared at once so a stale
    /// picture never sits under a new track's title.
    pub fn request_cover(&mut self, path: &str)
        ensures
            final(self)@ == old(self)@.cover_wanted(path@),
            final(self)@.browsing() == old(self)@.browsing(),
    {
        proof {
            reveal(AppV::cover_wanted);
        }
        let ghost s = self@;
        let box_px = self.art_box_px();
        match self.cover_at_hand(path) {
            Some(size) => {
                let w: u32 = if size.0 == 0 {
                    1
                } else {
                    size.0
                };
                let h: u32 = if size.1 == 0 {
                    1
                } else {
                    size.1
                };
                self.cover.shown = true;
                self.cover.size = Some((w, h));
            },
            None => {
                self.cover.shown = false;
                self.cover.size = None;
                self.cover.file = None;
            },
        }
        self.cover.pending = true;
        self.cover.generation = bump(self.cover.generation);
        self.cover.requested = box_px;
        proof {
            let c = s.cover;
            let shown = match s.cover_at_hand(path@) {
                Some(m) => CoverV { shown: true, size: Some(at_least_one(m.size)), ..c },
                None => CoverV { shown: false, size: None, file: None, ..c },
            };
            assert(self@.cover == (CoverV {
                pending: true,
                generation: bumped(c.generation),
                requested: s.art_box(),
                ..shown
            }));
            assert(self@ == (AppV { cover: self@.cover, ..s }));
        }
        self.act(Effect::Cover);
    }

    fn playing_title(&self) -> (r: String)
        ensures
            r@ == (match self@.now_playing() {
                Some(t) => t.title,
                None => seq![],
            }),
    {
        match self.now_playing() {
            Some(t) => t.title.clone(),
            None => {
                let r = String::new();
                assert(r@ =~= seq![]);
                r
            },
        }
    }

    /// Put the playhead where the restored track left off, and leave it playing or
    /// paused the way it was.
    pub fn apply_resume_position(&mut self)
        ensures
            final(self)@ == old(self)@.resume_applied(),
            final(self)@.browsing() == old(self)@.browsing(),
    {
        proof {
            reveal(AppV::resume_applied);
        }
        let at = match &self.resume_at {
            None => {
                return;
            },
            Some((_, at)) => *at,
        };
        let ghost s = self@;
        let ghost a = AppV { resume_at: None, ..s };
        let title = self.playing_title();
        self.resume_at = None;
        assert(self@ == a);
        let playing: bool = self.resume_playing;
        if Duration::zero().is_less(at) {
            self.act(Effect::Pause);
            self.act(Effect::Seek(at));
            assert(self@ == a.doing(Effect::Pause).doing(Effect::Seek(at)));
        } else {
            // Nothing to wait for at the start of a track.
            self.resume_playing = false;
            assert(self@ == (AppV { resume_playing: false, ..a }));
            if !playing {
                self.act(Effect::Pause);
                assert(self@ == AppV { resume_playing: false, ..a }.doing(Effect::Pause));
            }
        }
        let place = library::fmt_duration(at);
        let line = if playing {
            text::cat3(title.as_str(), " — resumed at ", place.as_str())
        } else {
            text::cat3(title.as_str(), " — paused at ", place.as_str())
        };
        self.say(line);
    }

    /// Start the track at `index` of the queue.
    pub fn play_queue_index(&mut self, index: usize)
        ensures
            final(self)@ == old(self)@.starting(index),
            final(self)@.browsing() == old(self)@.browsing(),
    {
        proof {
            reveal(tracks_of);
            reveal(AppV::starting);
        }
        if index >= self.queue.len() {
            return;
        }
        let path = self.queue[index].path.clone();
        let title = self.queue[index].title.clone();
        let url = copy_opt(&self.queue[index].url);
        let ghost t = self@.queue[index as int];
        assert(t.path == path@ && t.title == title@ && t.url == opt_view(url));
        let stale = match &self.resume_at {
            Some((wanted, _)) => !text::same(wanted.as_str(), path.as_str()),
            None => false,
        };
        if stale {
            self.resume_at = None;
            self.resume_playing = false;
        }
        let ghost a = old(self)@.resume_kept_for(t.path);
        proof {
            reveal(AppV::resume_kept_for);
            assert(self@ == a);
        }
        match url {
            None => {
                self.asking = Ask::Start { index };
                assert(self@ == (AppV { asking: AskV::Start { index }, ..a }));
            },
            Some(url) => {
                self.open_stream(index, path.as_str(), title.as_str(), url);
            },
        }
    }

    fn open_stream(&mut self, index: usize, path: &str, title: &str, url: String)
        ensures
            final(self)@ == old(self)@.opening_stream(index, path@, title@, url@),
            final(self)@.browsing() == old(self)@.browsing(),
    {
        proof {
            reveal(AppV::opening_stream);
        }
        let ghost a = self@;
        let ghost u = url@;
        self.act(Effect::Stop);
        assert(self@ == a.doing(Effect::Stop));
        self.queue_pos = Some(index);
        self.opening = Some(url);
        self.open_generation = bump(self.open_generation);
        let ghost b = AppV {
            queue_pos: Some(index),
            opening: Some(u),
            open_generation: bumped(a.open_generation),
            ..a.doing(Effect::Stop)
        };
        assert(self@ == b);
        self.act(Effect::Open);
        assert(self@ == b.doing(Effect::Open));
        self.say(text::cat2("opening ", title));
        assert(self@ == b.doing(Effect::Open).saying("opening "@ + title@));
        self.request_cover(path);
        self.touch_settings();
    }

    /// The local file that was to be started plays, or does not.
    pub fn file_started(&mut self, result: Result<(), String>)
        ensures
            final(self)@ == old(self)@.file_started(
                match result {
                    Ok(_) => None,
                    Err(why) => Some(why@),
                },
            ),
            final(self)@.browsing() == old(self)@.browsing(),
    {
        proof {
            reveal(tracks_of);
            reveal(AppV::file_started);
        }
        let index = match &self.asking {
            Ask::Start { index } => *index,
            _ => {
                return;
            },
        };
        let ghost s = self@;
        let ghost a = AppV { asking: AskV::Nothing, ..s };
        self.asking = Ask::Nothing;
        assert(self@ == a);
        if index >= self.queue.len() {
            return;
        }
        match result {
            Ok(_) => {
                let path = self.queue[index].path.clone();
                let title = self.queue[index].title.clone();
                assert(s.queue[index as int].path == path@);
                assert(s.queue[index as int].title == title@);
                self.opening = None;
                self.queue_pos = Some(index);
                self.say(text::cat2("playing ", title.as_str()));
                let ghost b = AppV {
                    opening: None,
                    queue_pos: Some(index),
                    status: "playing "@ + title@,
                    ..a
                };
                assert(self@ == b);
                self.request_cover(path.as_str());
                assert(self@ == b.cover_wanted(path@));
                self.apply_resume_position();
                assert(self@ == b.cover_wanted(path@).resume_applied());
                self.touch_settings();
            },
            Err(why) => {
                self.say(text::cat2("error: ", why.as_str()));
            },
        }
    }

    /// A fresh permutation of the queue, `head` first when it is given.
    pub fn reshuffle_from(&mut self, head: Option<usize>)
        ensures
            final(self)@ == old(self)@.reshuffled(head),
            final(self)@.browsing() == old(self)@.browsing(),
    {
        proof {
            reveal(tracks_of);
            reveal(AppV::reshuffled);
        }
        let n: usize = self.queue.len();
        let mut rng = self.rng;
        self.shuffle_order = queue::reshuffle(n, head, &mut rng);
        self.rng = rng;
    }

    /// Start `index` of the visible list, and adopt that list as the queue so browsing
    /// elsewhere afterwards cannot derail next and previous.
    pub fn play_index(&mut self, index: usize)
        ensures
            final(self)@ == old(self)@.playing_index(index),
            final(self)@.browsing() == old(self)@.browsing(),
    {
        proof {
            reveal(tracks_of);
            reveal(AppV::playing_index);
        }
        if index >= self.tracks.len() {
            return;
        }
        self.queue = copy_tracks(&self.tracks);
        self.queue_dir = match self.tab {
            Tab::Local => copy_opt(&self.tracks_dir),
            _ => None,
        };
        if self.shuffle {
            self.reshuffle_from(Some(index));
        }
        self.play_queue_index(index);
    }

    pub fn play_selected_track(&mut self)
        ensures
            final(self)@ == old(self)@.playing_selected(),
            final(self)@.browsing() == old(self)@.browsing(),
    {
        proof {
            reveal(AppV::playing_selected);
        }
        if let Some(index) = self.track_state.selected {
            self.play_index(index);
        }
    }

    /// Start the remembered track, if this listing is the one that holds it.
    ///
    /// One shot either way: keeping it alive would mean that browsing into that folder
    /// an hour later would suddenly start playing on its own.
    pub fn try_resume(&mut self)
        ensures
            final(self)@ == old(self)@.resuming(),
            final(self)@.browsing() == old(self)@.browsing(),
    {
        proof {
            reveal(tracks_of);
            reveal(AppV::resuming);
        }
        let ghost s = self@;
        let resume = match self.resume.take() {
            None => {
                assert(self@ == s);
                return;
            },
            Some(resume) => resume,
        };
        let ghost r = resume@;
        let ghost a = AppV { resume: None, ..s };
        assert(self@ == a);
        let index: usize = match find_named(&self.tracks, resume.track.as_str()) {
            None => {
                return;
            },
            Some(index) => index,
        };
        assert(s.tracks[index as int] == self.tracks@[index as int]@);
        let at = resume_point(&resume, self.tracks[index].duration);
        self.resume_at = Some((resume.track, at));
        self.resume_playing = resume.playing;
        let ghost b = AppV { resume_at: Some((r.track, at)), resume_playing: r.playing, ..a };
        assert(self@ == b);
        self.play_index(index);
        let ghost c = b.playing_index(index);
        assert(self@ == c);
        self.track_state.select(Some(index));
        assert(self@ == (AppV { track_state: c.track_state.with(Some(index)), ..c }));
    }

    /// Stop, and let go of a stream still opening.
    pub fn stop_playback(&mut self)
        ensures
            final(self)@ == old(self)@.stopped(),
            final(self)@.browsing() == old(self)@.browsing(),
    {
        proof {
            reveal(AppV::stopped);
        }
        let ghost s = self@;
        self.act(Effect::Stop);
        assert(self@ == s.doing(Effect::Stop));
        self.opening = None;
        self.following_into = None;
        self.queue_pos = None;
        self.resume_at = None;
        self.resume_playing = false;
    }

    fn end_of_queue(&mut self)
        ensures
            final(self)@ == old(self)@.ended(),
            final(self)@.browsing() == old(self)@.browsing(),
    {
        proof {
            reveal(AppV::ended);
        }
        self.stop_playback();
        self.say("end of queue".to_owned());
    }

    /// The folder `dir` is listed in.
    pub fn parent_of(&self, dir: &str) -> (r: Option<String>)
        ensures
            opt_view(r) == self@.parent_in(dir@),
    {
        if !remote::is_remote(self.root.as_str()) && remote::is_remote(dir) {
            if let Some(server) = &self.remote.server {
                if let Some(rest) = text::strip_prefix(dir, server.as_str()) {
                    if !text::contains_char(text::strip(rest, '/'), '/') {
                        return Some(self.root.clone());
                    }
                }
            }
        }
        match paths::parent_of(dir) {
            Some(p) => if paths::is_inside(p.as_str(), self.root.as_str()) || remote::is_remote(
                p.as_str(),
            ) {
                Some(p)
            } else {
                None
            },
            None => None,
        }
    }

    /// Look for the folder listed after `dir`, or after its parent in the grandparent,
    /// and so on up to the root.
    fn look_after(&mut self, dir: &str)
        ensures
            final(self)@ == old(self)@.looking_after(dir@),
            final(self)@.browsing() == old(self)@.browsing(),
    {
        proof {
            reveal(AppV::looking_after);
        }
        if paths::same(dir, self.root.as_str()) {
            self.after = None;
            self.end_of_queue();
            return;
        }
        match self.parent_of(dir) {
            None => {
                self.after = None;
                self.end_of_queue();
            },
            Some(p) => {
                self.after = Some(dir.to_owned());
                self.asking = Ask::List { dir: p, why: Why::After };
            },
        }
    }

    /// The queue is used up: go on into the folder after the one it came from.
    pub fn follow_on(&mut self)
        ensures
            final(self)@ == old(self)@.following_on(),
            final(self)@.browsing() == old(self)@.browsing(),
    {
        proof {
            reveal(AppV::following_on);
        }
        match copy_opt(&self.queue_dir) {
            None => {
                self.end_of_queue();
            },
            Some(dir) => {
                self.look_after(dir.as_str());
            },
        }
    }

    /// Make `dir` the queue and start it.
    pub fn play_folder(&mut self, dir: &str, tracks: Vec<Track>)
        requires
            old(self)@.wf(),
        ensures
            final(self)@ == old(self)@.playing_folder(dir@, tracks_view(tracks@)),
            final(self)@.wf(),
    {
        proof {
            reveal(tracks_of);
            reveal(folders_of);
            reveal(AppV::playing_folder);
        }
        let ghost s = self@;
        let ghost tv = tracks_view(tracks@);
        let finished = copy_opt(&self.queue_dir);
        self.queue_dir = Some(dir.to_owned());
        self.queue = tracks;
        let ghost a = AppV { queue_dir: Some(dir@), queue: tv, ..s };
        assert(self@ == a);
        let n: usize = self.queue.len();
        if n == 0 {
            // Nothing playable after all; the count said otherwise. Keep going.
            self.follow_on();
            return;
        }
        let mut first: usize = 0;
        let ghost b = if a.shuffle {
            a.reshuffled(None)
        } else {
            a
        };
        if self.shuffle {
            self.reshuffle_from(None);
            assert(self@ == b);
            proof {
                reveal(AppV::reshuffled);
                assert(tv.len() == n);
                queue::law_shuffling_is_a_permutation(tv.len(), None, a.rng);
                assert(self.shuffle_order@ == shuffled(tv.len(), None, a.rng));
            }
            first = self.shuffle_order[0];
        }
        assert(self@ == b);
        assert(b.folders == s.folders && b.memo == s.memo);
        let beside = match (&finished, self.selected_folder()) {
            (Some(f), Some(s)) => self.tab == Tab::Local && paths::same(s.path.as_str(), f.as_str()),
            _ => false,
        };
        if beside {
            if let Some(index) = find_folder(&self.folders, dir) {
                self.folder_state.select(Some(index + 1));
                assert(self@ == (AppV {
                    folder_state: b.folder_state.with(Some((index + 1) as usize)),
                    ..b
                }));
                self.reload_tracks();
            }
        }
        self.play_queue_index(first);
    }

    /// Go on into `folder`.
    pub fn follow_into(&mut self, folder: &Folder)
        requires
            old(self)@.wf(),
        ensures
            final(self)@ == old(self)@.following_to(folder@),
            final(self)@.wf(),
    {
        proof {
            reveal(memo_of);
            reveal(AppV::following_to);
        }
        match self.memo.recall(folder) {
            Some(tracks) => {
                self.play_folder(folder.path.as_str(), tracks);
            },
            None => {
                self.following_into = Some(folder.path.clone());
                self.follow_generation = bump(self.follow_generation);
                self.act(Effect::Follow(folder.stamp()));
            },
        }
    }

    /// The folder that holds the one just played has been listed.
    pub fn after_listed(&mut self, listed: &str, rows: Result<Vec<Folder>, String>)
        requires
            old(self)@.wf(),
        ensures
            final(self)@ == old(self)@.after_listed(listed@, rows_view(rows)),
            final(self)@.wf(),
    {
        proof {
            reveal(AppV::after_listed);
        }
        let ghost s = self@;
        let dir = match self.after.take() {
            None => {
                assert(self@ == s);
                return;
            },
            Some(dir) => dir,
        };
        let ghost a = AppV { after: None, ..s };
        assert(self@ == a);
        let rows = match rows {
            Err(_) => {
                self.end_of_queue();
                return;
            },
            Ok(rows) => rows,
        };
        let n: usize = rows.len();
        match find_folder(&rows, dir.as_str()) {
            None => {
                self.end_of_queue();
            },
            Some(at) => {
                if at + 1 < n {
                    let next = &rows[at + 1];
                    assert(folders_view(rows@)[at + 1] == next@);
                    self.act(Effect::Stop);
                    self.say(text::cat2("on to ", next.label.as_str()));
                    assert(self@ == a.doing(Effect::Stop).saying("on to "@ + next@.label));
                    self.follow_into(next);
                } else {
                    self.look_after(listed);
                }
            },
        }
    }

    pub fn next_track(&mut self)
        ensures
            final(self)@ == old(self)@.next(),
            final(self)@.browsing() == old(self)@.browsing(),
    {
        proof {
            reveal(tracks_of);
            reveal(AppV::next);
        }
        match self.queue_pos {
            Some(current) => {
                let n: usize = self.queue.len();
                match queue::following(self.shuffle, &self.shuffle_order, n, current) {
                    Some(next) => {
                        self.play_queue_index(next);
                    },
                    None => {
                        self.follow_on();
                    },
                }
            },
            // Nothing queued yet: start from whatever is on screen.
            None => {
                self.play_selected_track();
            },
        }
    }

    pub fn prev_track(&mut self)
        ensures
            final(self)@ == old(self)@.previous(),
            final(self)@.browsing() == old(self)@.browsing(),
    {
        proof {
            reveal(AppV::previous);
        }
        if let Some(current) = self.queue_pos {
            if let Some(previous) = queue::preceding(self.shuffle, &self.shuffle_order, current) {
                self.play_queue_index(previous);
            }
        }
    }

    pub fn toggle_play(&mut self)
        ensures
            final(self)@ == old(self)@.toggled(),
            final(self)@.browsing() == old(self)@.browsing(),
    {
        proof {
            reveal(AppV::toggled);
        }
        if self.queue_pos.is_none() {
            self.play_selected_track();
        } else {
            self.act(Effect::Toggle);
        }
    }

    /// Pick up a stream that finished opening.
    pub fn poll_open(&mut self, replies: &Vec<Opened>)
        ensures
            final(self)@ == old(self)@.stream_opened(opened_view(replies@)),
            final(self)@.browsing() == old(self)@.browsing(),
    {
        proof {
            reveal(AppV::stream_opened);
        }
        let generation: u64 = self.open_generation;
        let ghost all = opened_view(replies@);
        let mut n: usize = replies.len();
        assert(all.take(n as int) =~= all);
        while n > 0 && replies[n - 1].generation != generation
            invariant
                n <= replies@.len(),
                all == opened_view(replies@),
                newest_opened(all, generation) == newest_opened(all.take(n as int), generation),
            decreases n,
        {
            assert(all.take(n as int).last() == replies@[n - 1]@);
            assert(all.take(n as int).drop_last() =~= all.take(n - 1));
            n = n - 1;
        }
        if n == 0 {
            return;
        }
        let reply = &replies[n - 1];
        assert(all.take(n as int).last() == reply@);
        let wanted = match &self.opening {
            Some(url) => text::same(url.as_str(), reply.url.as_str()),
            None => false,
        };
        if !wanted {
            return;
        }
        let ghost s = self@;
        let ghost a = AppV { opening: None, ..s };
        self.opening = None;
        assert(self@ == a);
        match &reply.result {
            Ok(_) => {
                let title = self.playing_title();
                self.act(Effect::PlayStream);
                self.say(text::cat2("playing ", title.as_str()));
                assert(self@ == a.doing(Effect::PlayStream).saying("playing "@ + title@));
                self.apply_resume_position();
            },
            Err(why) => {
                self.queue_pos = None;
                self.resume_at = None;
                self.resume_playing = false;
                assert(self@ == (AppV {
                    queue_pos: None,
                    resume_at: None,
                    resume_playing: false,
                    ..a
                }));
                self.say(text::cat2("error: ", why.as_str()));
            },
        }
    }

    /// Pick up finished covers, keeping only the newest reply.
    pub fn poll_cover(&mut self, replies: &Vec<CoverReply>)
        ensures
            final(self)@ == old(self)@.cover_loaded(cover_replies_view(replies@)),
    {
        proof {
            reveal(AppV::cover_loaded);
        }
        let generation: u64 = self.cover.generation;
        let ghost all = cover_replies_view(replies@);
        let mut n: usize = replies.len();
        assert(all.take(n as int) =~= all);
        while n > 0 && replies[n - 1].generation != generation
            invariant
                n <= replies@.len(),
                all == cover_replies_view(replies@),
                newest_cover(all, generation) == newest_cover(all.take(n as int), generation),
            decreases n,
        {
            assert(all.take(n as int).last() == replies@[n - 1]@);
            assert(all.take(n as int).drop_last() =~= all.take(n - 1));
            n = n - 1;
        }
        if n == 0 {
            return;
        }
        let reply = &replies[n - 1];
        assert(all.take(n as int).last() == reply@);
        let ghost s = self@;
        let ghost c = CoverV { pending: false, file: reply@.file, ..s.cover };
        // Keep it, so the rest of the album needs no loading at all.
        let dir = match self.now_playing() {
            Some(t) => paths::parent_of(t.path.as_str()),
            None => None,
        };
        self.cover.pending = false;
        self.cover.file = copy_opt(&reply.file);
        assert(self@ == (AppV { cover: c, ..s }));
        match reply.size {
            Some(size) => {
                let w: u32 = if size.0 == 0 {
                    1
                } else {
                    size.0
                };
                let h: u32 = if size.1 == 0 {
                    1
                } else {
                    size.1
                };
                self.cover.size = Some((w, h));
                if let Some(dir) = dir {
                    self.cover.memo = Some(
                        CoverMemo { dir, box_px: self.cover.requested, size },
                    );
                }
                self.cover.shown = true;
                assert(self@ == (AppV { cover: self@.cover, ..s }));
            },
            None => {
                self.cover.size = None;
                self.cover.shown = false;
                self.cover.memo = None;
                assert(self@ == (AppV { cover: self@.cover, ..s }));
            },
        }
    }

    /// Ask for the cover again after the pane changed size. A small threshold keeps a
    /// one-column nudge from restarting the work.
    pub fn refresh_cover_for_resize(&mut self)
        ensures
            final(self)@ == old(self)@.cover_resized(),
    {
        proof {
            reveal(AppV::cover_resized);
        }
        let (want_w, want_h) = self.art_box_px();
        let (had_w, had_h) = self.cover.requested;
        if self.cover.pending || (had_w == 0 && had_h == 0) {
            return;
        }
        let dw: u32 = if want_w >= had_w {
            want_w - had_w
        } else {
            had_w - want_w
        };
        let dh: u32 = if want_h >= had_h {
            want_h - had_h
        } else {
            had_h - want_h
        };
        if dw < 16 && dh < 16 {
            return;
        }
        let path = match self.now_playing() {
            Some(t) => t.path.clone(),
            None => {
                return;
            },
        };
        self.request_cover(path.as_str());
    }

    /// Turn shuffling on or off. Turning it on scrambles the rest of the queue but
    /// leaves the current track playing: it is the order that changes, not what you
    /// are listening to.
    pub fn toggle_shuffle(&mut self)
        ensures
            final(self)@ == old(self)@.shuffle_toggled(),
            final(self)@.browsing() == old(self)@.browsing(),
    {
        proof {
            reveal(AppV::shuffle_toggled);
        }
        let ghost s = self@;
        let ghost a = AppV { shuffle: !s.shuffle, ..s }.touched();
        self.shuffle = !self.shuffle;
        self.touch_settings();
        assert(self@ == a);
        if self.shuffle {
            self.reshuffle_from(self.queue_pos);
            assert(self@ == a.reshuffled(a.queue_pos));
            self.say("shuffle on".to_owned());
        } else {
            self.shuffle_order = Vec::new();
            assert(self.shuffle_order@ =~= seq![]);
            assert(self@ == (AppV { shuffle_order: seq![], ..a }));
            self.say("shuffle off".to_owned());
        }
    }

    /// Give `track` this many stars — or take them away, when it already has exactly
    /// that many, the way a second click on the same star undoes it.
    pub fn rate(&mut self, track: &Track, stars: u8)
        ensures
            final(self)@ == old(self)@.rating(track@, stars),
            final(self)@.browsing() == old(self)@.browsing(),
    {
        proof {
            reveal(AppV::rating);
        }
        if !remote::is_remote(track.path.as_str()) {
            self.say("stars are for tracks on the server".to_owned());
            return;
        }
        let n: u8 = if stars < 1 {
            1
        } else if stars > 3 {
            3
        } else {
            stars
        };
        let has = match track.stars {
            Some(m) => m == n,
            None => false,
        };
        let stars = if has {
            None
        } else {
            Some(n)
        };
        self.asking = Ask::Rate { path: track.path.clone(), title: track.title.clone(), stars };
    }

    /// The server took the stars, or did not.
    pub fn rated(&mut self, result: Result<(), String>)
        requires
            old(self)@.wf(),
            old(self)@.asking matches AskV::Rate { path, title, stars } ==> given(stars) <= 3,
        ensures
            final(self)@ == old(self)@.rated(
                match result {
                    Ok(_) => None,
                    Err(why) => Some(why@),
                },
            ),
            final(self)@.wf(),
    {
        proof {
            reveal(tracks_of);
            reveal(memo_of);
            reveal(AppV::rated);
        }
        let (path, title, stars) = match &self.asking {
            Ask::Rate { path, title, stars } => (path.clone(), title.clone(), *stars),
            _ => {
                return;
            },
        };
        let ghost s = self@;
        let ghost a = AppV { asking: AskV::Nothing, ..s };
        self.asking = Ask::Nothing;
        assert(self@ == a);
        match result {
            Err(why) => {
                self.say(text::cat2("stars: ", why.as_str()));
            },
            Ok(_) => {
                memo::restar(&mut self.tracks, path.as_str(), stars);
                memo::restar(&mut self.queue, path.as_str(), stars);
                self.memo.restar(path.as_str(), stars);
                assert(self@ == (AppV {
                    tracks: restarred(a.tracks, path@, stars),
                    queue: restarred(a.queue, path@, stars),
                    memo: memo_restarred(a.memo, path@, stars),
                    ..a
                }));
                let line = match stars {
                    Some(_) => {
                        let drawn = stars_text(stars);
                        text::cat3(drawn.as_str(), " ", title.as_str())
                    },
                    None => text::cat2("no stars for ", title.as_str()),
                };
                self.say(line);
            },
        }
    }

    /// One star more for what is playing, round to none after three.
    pub fn cycle_rating(&mut self)
        ensures
            final(self)@ == old(self)@.rating_cycled(),
    {
        proof {
            reveal(AppV::rating_cycled);
        }
        let track = match self.now_playing() {
            Some(t) => t.copy(),
            None => {
                return;
            },
        };
        match track.stars {
            Some(n) => {
                if n >= 3 {
                    self.rate(&track, 3);
                } else {
                    self.rate(&track, n + 1);
                }
            },
            None => {
                self.rate(&track, 1);
            },
        }
    }

    /// Put the session on disk. Unconditional; the callers decide.
    pub fn write_settings(&mut self)
        ensures
            final(self)@ == old(self)@.writing_settings(),
            final(self)@.browsing() == old(self)@.browsing(),
    {
        proof {
            reveal(AppV::writing_settings);
        }
        self.settings_dirty = None;
        if self.settings_file.is_none() {
            return;
        }
        self.saved_position = self.audio.position;
        self.act(Effect::SaveSettings);
    }

    /// Write the settings out if they are owed and have settled. `force` skips the
    /// wait, for the way out.
    pub fn save_settings(&mut self, force: bool)
        ensures
            final(self)@ == old(self)@.saving_settings(force),
    {
        proof {
            reveal(AppV::saving_settings);
        }
        if !force {
            match self.settings_dirty {
                None => {
                    return;
                },
                Some(changed) => {
                    if self.clock.since(changed) < 400_000_000 {
                        return;
                    }
                },
            }
        }
        self.write_settings();
    }

    /// Advance automatically when the current source has drained.
    pub fn tick(&mut self)
        ensures
            final(self)@ == old(self)@.ticked(),
            final(self)@.browsing() == old(self)@.browsing(),
    {
        proof {
            reveal(AppV::ticked);
        }
        if self.queue_pos.is_some() && self.opening.is_none() && self.following_into.is_none()
            && self.audio.finished && !self.audio.paused {
            self.next_track();
        }
    }

    /// Write the playhead out once a second while it moves, and anything else that is
    /// owed. The second half of a tick, once the first is settled.
    pub fn save_position(&mut self)
        ensures
            final(self)@ == old(self)@.position_saved(),
    {
        proof {
            reveal(AppV::position_saved);
        }
        if self.queue_pos.is_some() && !self.audio.paused && self.audio.position.apart(
            self.saved_position,
        ) >= 1_000_000_000 {
            self.write_settings();
        }
        self.save_settings(false);
    }

    /// How long the track that is playing is, as far as that is known.
    fn length(&self) -> (d: Option<Duration>)
        ensures
            d == self@.length(),
    {
        match self.now_playing() {
            Some(t) => t.duration,
            None => None,
        }
    }

    /// Nudge the playhead by `delta` seconds, clamped to the track.
    pub fn seek_by(&mut self, delta: i64)
        ensures
            final(self)@ == old(self)@.seeking_by(delta),
            final(self)@.browsing() == old(self)@.browsing(),
    {
        proof {
            reveal(AppV::seeking_by);
        }
        if let Some(total) = self.length() {
            let target = self.audio.position.nudge(delta, total);
            self.sought(target);
        }
    }

    /// A place in the track has been worked out: go there.
    pub fn sought(&mut self, target: Duration)
        ensures
            final(self)@ == old(self)@.sought(target),
            final(self)@.browsing() == old(self)@.browsing(),
    {
        proof {
            reveal(AppV::sought);
        }
        self.act(Effect::Seek(target));
        let place = library::fmt_duration(target);
        self.say(text::cat2("seek ", place.as_str()));
    }

    /// Act on a media key, a headphone button or the system's panel.
    pub fn media_command(&mut self, command: Command)
        ensures
            final(self)@ == old(self)@.commanded(command),
            final(self)@.browsing() == old(self)@.browsing(),
    {
        proof {
            reveal(AppV::commanded);
        }
        match command {
            Command::Toggle => self.toggle_play(),
            Command::Play => {
                if self.queue_pos.is_none() {
                    self.play_selected_track();
                } else if self.audio.paused {
                    self.act(Effect::Toggle);
                }
            },
            Command::Pause => {
                if !self.audio.paused {
                    self.act(Effect::Toggle);
                }
            },
            Command::Stop => self.stop_playback(),
            Command::Next => self.next_track(),
            Command::Previous => self.prev_track(),
            Command::SeekBy(delta) => self.seek_by(delta),
            Command::SetPosition(at) => {
                if self.length().is_some() {
                    self.act(Effect::SeekPosition(at));
                }
            },
        }
    }

    /// Tell the system what is playing, when that has changed.
    pub fn publish_now_playing(&mut self)
        ensures
            final(self)@ == old(self)@.publishing(),
    {
        proof {
            reveal(AppV::publishing);
        }
        let now = match self.now_playing() {
            Some(t) => NowPlaying {
                title: t.title.clone(),
                artist: t.artist.clone(),
                album: t.album.clone(),
                duration: t.duration,
                elapsed: Duration::from_secs(self.audio.position.as_secs()),
                playing: !self.audio.paused,
                cover: copy_opt(&self.cover.file),
            },
            None => NowPlaying::nothing(),
        };
        assert(now@ == self@.news());
        if let Some(last) = &self.published {
            if last.same(&now) {
                return;
            }
        }
        let ghost s = self@;
        self.act(Effect::Publish);
        assert(self@ == s.doing(Effect::Publish));
        self.published = Some(now);
    }

    /// Pick up the answer to a seek.
    pub fn poll_seek(&mut self, result: Result<(), String>)
        ensures
            final(self)@ == old(self)@.seek_answered(
                match result {
                    Ok(_) => None,
                    Err(why) => Some(why@),
                },
            ),
    {
        proof {
            reveal(AppV::seek_answered);
        }
        if let Err(why) = result {
            self.say(text::cat2("seek failed: ", why.as_str()));
        }
        if self.resume_playing {
            self.resume_playing = false;
            self.act(Effect::Play);
        }
    }
}

/// What an answer about folders holds.
pub open spec fn rows_view(rows: Result<Vec<Folder>, String>) -> Result<Seq<FolderV>, Seq<char>> {
    match rows {
        Ok(rows) => Ok(folders_view(rows@)),
        Err(why) => Err(why@),
    }
}

} // verus!
