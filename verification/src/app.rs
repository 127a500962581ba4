//! The player: all of its state, and what every key, click and arrival does to it.
//!
//! Nothing here draws, waits or touches a disk. What has to happen outside is left in
//! [`App::effects`], to be carried out in order; what has to be found out before the
//! player can go on is in [`App::asking`], to be answered at once. What the player
//! needs to know of the outside — the time, and how the audio is doing — is put into
//! [`App::clock`] and [`App::audio`] before it is told of an event.
//!
//! [`AppV`] is the same state as a mathematical value, and each operation has a
//! function on it that says what the operation does.

use vstd::prelude::*;
use crate::config::{feeds_view, Feed, FeedV, Remote, RemoteV};
use crate::library::{self, folders_view, tracks_view, Folder, FolderV, Stamp, Track, TrackV};
use crate::media::{NowPlaying, NowPlayingV};
use crate::memo::{is_memo, Memo, RememberedV};
use crate::queue::Rng;
use crate::remote;
use crate::text::{self, opt_view, views};
use crate::time::Duration;
use crate::ui::{ListState, Rect};

pub mod browse;
pub mod browse_laws;
pub mod feeds;
pub mod laws;
pub mod listing;
pub mod mouse;
pub mod playback;
pub mod playback_laws;
pub mod prompts;
pub mod screen;
pub mod session;
pub mod transfer;

verus! {

/// The panes of the browser.
#[derive(Debug, Clone, Copy, PartialEq, Eq, Structural)]
pub enum Pane {
    Folders,
    Tracks,
}

/// Where music comes from.
#[derive(Debug, Clone, Copy, PartialEq, Eq, Structural)]
pub enum Tab {
    Local,
    Feeds,
    Radio,
}

impl Tab {
    pub open spec fn key_text(self) -> Seq<char> {
        match self {
            Tab::Local => "local"@,
            Tab::Feeds => "feeds"@,
            Tab::Radio => "radio"@,
        }
    }

    pub open spec fn label_text(self) -> Seq<char> {
        match self {
            Tab::Local => "Local"@,
            Tab::Feeds => "Feeds"@,
            Tab::Radio => "Radio"@,
        }
    }

    /// The tab written so, if there is one.
    pub open spec fn keyed(key: Seq<char>) -> Option<Tab> {
        if key == "local"@ {
            Some(Tab::Local)
        } else if key == "feeds"@ {
            Some(Tab::Feeds)
        } else if key == "radio"@ {
            Some(Tab::Radio)
        } else {
            None
        }
    }

    /// How the tab is written in the settings. Not the label: that is on screen and
    /// can be reworded, while this is on disk and has to keep meaning the same.
    pub fn key(self) -> (r: &'static str)
        ensures
            r@ == self.key_text(),
    {
        match self {
            Tab::Local => "local",
            Tab::Feeds => "feeds",
            Tab::Radio => "radio",
        }
    }

    pub fn from_key(key: &str) -> (r: Option<Tab>)
        ensures
            r == Tab::keyed(key@),
    {
        if text::same(key, "local") {
            Some(Tab::Local)
        } else if text::same(key, "feeds") {
            Some(Tab::Feeds)
        } else if text::same(key, "radio") {
            Some(Tab::Radio)
        } else {
            None
        }
    }

    pub fn label(self) -> (r: &'static str)
        ensures
            r@ == self.label_text(),
    {
        match self {
            Tab::Local => "Local",
            Tab::Feeds => "Feeds",
            Tab::Radio => "Radio",
        }
    }

    /// Shown in place of the pane while a source is still a plan.
    pub open spec fn placeholder_text(self) -> Seq<Seq<char>> {
        match self {
            Tab::Local => seq![],
            Tab::Feeds => seq!["pick a feed on the left"@],
            Tab::Radio => seq!["not built yet"@, ""@, "see PLAN.md"@],
        }
    }

    /// Shown in place of the pane while a source is still a plan.
    pub fn placeholder(self) -> (r: Vec<String>)
        ensures
            views(r@) == self.placeholder_text(),
    {
        let mut r: Vec<String> = Vec::new();
        match self {
            Tab::Local => {},
            Tab::Feeds => {
                r.push("pick a feed on the left".to_owned());
            },
            Tab::Radio => {
                r.push("not built yet".to_owned());
                r.push("".to_owned());
                r.push("see PLAN.md".to_owned());
            },
        }
        assert(views(r@) =~= self.placeholder_text());
        r
    }
}

/// What a tab is written as is read back as that tab.
pub proof fn law_tabs_are_read_back(tab: Tab)
    ensures
        Tab::keyed(tab.key_text()) == Some(tab),
{
    reveal_strlit("local");
    reveal_strlit("feeds");
    reveal_strlit("radio");
    assert("local"@[0] == 'l' && "feeds"@[0] == 'f' && "radio"@[0] == 'r');
}

/// A character over and over.
pub open spec fn repeated(c: char, n: nat) -> Seq<char> {
    Seq::new(n, |i: int| c)
}

/// How many stars were given, none counting as zero.
pub open spec fn given(stars: Option<u8>) -> nat {
    match stars {
        Some(n) => n as nat,
        None => 0,
    }
}

/// Stars as they are drawn: filled for what was given, hollow for the rest.
pub fn stars_text(stars: Option<u8>) -> (r: String)
    requires
        given(stars) <= 3,
    ensures
        r@ == repeated('★', given(stars)) + repeated('☆', (3 - given(stars)) as nat),
{
    let n: u8 = match stars {
        Some(n) => n,
        None => 0,
    };
    let mut r = String::new();
    let mut i: u8 = 0;
    while i < n
        invariant
            i <= n,
            r@ == repeated('★', i as nat),
        decreases n - i,
    {
        r.push('★');
        i = i + 1;
        assert(r@ =~= repeated('★', i as nat));
    }
    let mut k: u8 = 0;
    let ghost filled = r@;
    assert(r@ =~= filled + repeated('☆', 0));
    while k < 3 - n
        invariant
            n <= 3,
            k <= 3 - n,
            r@ == filled + repeated('☆', k as nat),
        decreases 3 - k,
    {
        r.push('☆');
        k = k + 1;
        assert(r@ =~= filled + repeated('☆', k as nat));
    }
    r
}

/// One line of a move's log: something that went wrong, or how it ended. Files that
/// arrived are not listed; the bar counts them.
#[derive(Debug, PartialEq, Eq)]
pub enum LogLine {
    Failed(String),
    Note(String),
}

/// A floating one-line input, kept as state so that the rest goes on behind it.
#[derive(Debug)]
pub struct Prompt {
    pub kind: PromptKind,
    pub title: String,
    pub input: String,
    /// Shown under the field: usage, or why the last attempt was refused.
    pub hint: String,
    /// An input that already failed a check the user may overrule: Enter on it again
    /// goes ahead anyway.
    pub retry: Option<String>,
}

/// What Enter in the prompt does.
#[derive(Debug, PartialEq, Eq)]
pub enum PromptKind {
    Feed,
    Server,
    /// A new name for this folder or track, in the same place.
    Rename(String),
    /// A new path for this folder or track, from the top of its library.
    Relocate(String),
    /// Waiting for `y` before deleting this folder or track.
    Delete(String),
}

/// What a [`PromptKind`] holds.
pub ghost enum PromptKindV {
    Feed,
    Server,
    Rename(Seq<char>),
    Relocate(Seq<char>),
    Delete(Seq<char>),
}

impl View for PromptKind {
    type V = PromptKindV;

    open spec fn view(&self) -> PromptKindV {
        match self {
            PromptKind::Feed => PromptKindV::Feed,
            PromptKind::Server => PromptKindV::Server,
            PromptKind::Rename(t) => PromptKindV::Rename(t@),
            PromptKind::Relocate(t) => PromptKindV::Relocate(t@),
            PromptKind::Delete(t) => PromptKindV::Delete(t@),
        }
    }
}

/// What a [`Prompt`] holds.
pub ghost struct PromptV {
    pub kind: PromptKindV,
    pub title: Seq<char>,
    pub input: Seq<char>,
    pub hint: Seq<char>,
    pub retry: Option<Seq<char>>,
}

impl View for Prompt {
    type V = PromptV;

    open spec fn view(&self) -> PromptV {
        PromptV {
            kind: self.kind@,
            title: self.title@,
            input: self.input@,
            hint: self.hint@,
            retry: opt_view(self.retry),
        }
    }
}

/// What was playing when the player was last closed, waiting for a listing to appear
/// that contains it.
#[derive(Debug)]
pub struct Resume {
    /// Identity of the track, the way a track carries it: a path, or a URL.
    pub track: String,
    pub position: Duration,
    /// Whether it was playing rather than paused.
    pub playing: bool,
}

/// What a [`Resume`] holds.
pub ghost struct ResumeV {
    pub track: Seq<char>,
    pub position: Duration,
    pub playing: bool,
}

impl View for Resume {
    type V = ResumeV;

    open spec fn view(&self) -> ResumeV {
        ResumeV { track: self.track@, position: self.position, playing: self.playing }
    }
}

/// A move to the server, and whether its log is on screen.
#[derive(Debug, Clone, Copy, PartialEq, Eq, Structural)]
pub struct Transfer {
    pub visible: bool,
    /// The library has been listed again after it finished.
    pub settled: bool,
}

/// How the audio is doing.
#[derive(Debug, Clone, Copy, PartialEq, Eq, Structural)]
pub struct Audio {
    pub paused: bool,
    /// What was queued has been played to its end.
    pub finished: bool,
    pub position: Duration,
}

/// The picture of an album kept at hand: the folder and the box it belongs to, and
/// its size as drawn.
#[derive(Debug)]
pub struct CoverMemo {
    pub dir: String,
    pub box_px: (u32, u32),
    pub size: (u32, u32),
}

/// The cover on screen.
#[derive(Debug)]
pub struct Cover {
    /// True while there is a picture to draw.
    pub shown: bool,
    /// Its size in pixels as it will be drawn.
    pub size: Option<(u32, u32)>,
    /// True between asking for a cover and getting an answer.
    pub pending: bool,
    /// Where the scaled cover landed on disk.
    pub file: Option<String>,
    pub memo: Option<CoverMemo>,
    /// Changed on every request, so late replies can be recognised and dropped.
    pub generation: u64,
    /// Box of the last request, to notice when the pane changes size.
    pub requested: (u32, u32),
}

/// What a [`CoverMemo`] holds.
pub ghost struct CoverMemoV {
    pub dir: Seq<char>,
    pub box_px: (u32, u32),
    pub size: (u32, u32),
}

/// What a [`Cover`] holds.
pub ghost struct CoverV {
    pub shown: bool,
    pub size: Option<(u32, u32)>,
    pub pending: bool,
    pub file: Option<Seq<char>>,
    pub memo: Option<CoverMemoV>,
    pub generation: u64,
    pub requested: (u32, u32),
}

impl View for CoverMemo {
    type V = CoverMemoV;

    open spec fn view(&self) -> CoverMemoV {
        CoverMemoV { dir: self.dir@, box_px: self.box_px, size: self.size }
    }
}

impl View for Cover {
    type V = CoverV;

    open spec fn view(&self) -> CoverV {
        CoverV {
            shown: self.shown,
            size: self.size,
            pending: self.pending,
            file: opt_view(self.file),
            memo: match self.memo {
                Some(m) => Some(m@),
                None => None,
            },
            generation: self.generation,
            requested: self.requested,
        }
    }
}

/// Where things landed on the screen, noted while drawing so that a click can be
/// tested against it. The rows of a table are its data rows only: no border, no
/// header.
#[derive(Debug, Clone, Copy, PartialEq, Eq, Structural)]
pub struct Areas {
    pub play: Rect,
    pub prev: Rect,
    pub next: Rect,
    /// The bar itself, not the time beside it.
    pub seek_bar: Rect,
    pub shuffle: Rect,
    pub folder_rows: Rect,
    pub track_rows: Rect,
    pub feed_rows: Rect,
    pub local_tab: Rect,
    pub feeds_tab: Rect,
    pub radio_tab: Rect,
    /// The add button below the feeds, and the mark that removes the highlighted one.
    pub add: Rect,
    pub remove: Rect,
    /// The three stars under the cover.
    pub star_one: Rect,
    pub star_two: Rect,
    pub star_three: Rect,
    /// The column of the first star in the track list.
    pub track_star_x: Option<u16>,
    /// Largest box the art could occupy, in cells.
    pub art: Rect,
    /// The size of a cell in pixels.
    pub cell_width: u16,
    pub cell_height: u16,
}

impl Areas {
    /// Nothing drawn yet.
    pub open spec fn blank() -> Areas {
        Areas {
            play: Rect::none(),
            prev: Rect::none(),
            next: Rect::none(),
            seek_bar: Rect::none(),
            shuffle: Rect::none(),
            folder_rows: Rect::none(),
            track_rows: Rect::none(),
            feed_rows: Rect::none(),
            local_tab: Rect::none(),
            feeds_tab: Rect::none(),
            radio_tab: Rect::none(),
            add: Rect::none(),
            remove: Rect::none(),
            star_one: Rect::none(),
            star_two: Rect::none(),
            star_three: Rect::none(),
            track_star_x: None,
            art: Rect::none(),
            cell_width: 0,
            cell_height: 0,
        }
    }

    pub fn new() -> (a: Areas)
        ensures
            a == Areas::blank(),
    {
        Areas {
            play: Rect::zero(),
            prev: Rect::zero(),
            next: Rect::zero(),
            seek_bar: Rect::zero(),
            shuffle: Rect::zero(),
            folder_rows: Rect::zero(),
            track_rows: Rect::zero(),
            feed_rows: Rect::zero(),
            local_tab: Rect::zero(),
            feeds_tab: Rect::zero(),
            radio_tab: Rect::zero(),
            add: Rect::zero(),
            remove: Rect::zero(),
            star_one: Rect::zero(),
            star_two: Rect::zero(),
            star_three: Rect::zero(),
            track_star_x: None,
            art: Rect::zero(),
            cell_width: 0,
            cell_height: 0,
        }
    }
}

/// Something to be done outside, of which nothing comes back at once. What it needs
/// beyond its own fields is in the state: the request of a worker goes with the
/// generation that was just set for it.
#[derive(Debug, Clone, Copy, PartialEq, Eq, Structural)]
pub enum Effect {
    /// List [`App::tracks_dir`], as [`App::scan_listing`] says.
    Scan,
    /// List [`App::following_into`], which looked like this in its parent.
    Follow(Stamp),
    /// Open the stream [`App::opening`].
    Open,
    /// Fetch the feed [`App::fetched_url`].
    Fetch,
    /// Load the cover of what is playing.
    Cover,
    /// Play the stream that was opened.
    PlayStream,
    Stop,
    Pause,
    Play,
    Toggle,
    Seek(Duration),
    /// Seek to this many of that many parts of the track.
    SeekFraction(u16, u16),
    /// Seek to this place in the track, as far as the track goes.
    SeekPosition(Duration),
    SaveSettings,
    SaveFeeds,
    /// Pass [`App::published`] on to the system.
    Publish,
    /// Move the folder [`App::moving`] to the server.
    Move,
}

/// Why a folder is being listed.
#[derive(Debug, Clone, Copy, PartialEq, Eq, Structural)]
pub enum Why {
    /// To descend into it.
    Enter,
    /// To climb back out to it.
    Leave,
    /// To take in another server's folders.
    Relist,
    /// Because something in it changed.
    Refresh,
    /// On the way down to where the last session was.
    Descend,
    /// To find what comes after the folder that was played.
    After,
}

/// Something that has to be found out before the player can go on.
#[derive(Debug)]
pub enum Ask {
    Nothing,
    /// The folders of `dir`; answered with [`App::folders_listed`].
    List { dir: String, why: Why },
    /// Whether the local file at this place of the queue plays; answered with
    /// [`App::file_started`].
    Start { index: usize },
    /// Whether this server answers; answered with [`App::server_answered`].
    Reach { server: String, token: Option<String> },
    /// Whether `target` could be moved to `to`; answered with [`App::changed`].
    Change { target: String, to: String, done: String },
    /// Whether `target` could be deleted; answered with [`App::deleted`].
    Delete { target: String },
    /// Whether the server took these stars; answered with [`App::rated`].
    Rate { path: String, title: String, stars: Option<u8> },
}

/// What an [`Ask`] holds.
pub ghost enum AskV {
    Nothing,
    List { dir: Seq<char>, why: Why },
    Start { index: usize },
    Reach { server: Seq<char>, token: Option<Seq<char>> },
    Change { target: Seq<char>, to: Seq<char>, done: Seq<char> },
    Delete { target: Seq<char> },
    Rate { path: Seq<char>, title: Seq<char>, stars: Option<u8> },
}

impl View for Ask {
    type V = AskV;

    open spec fn view(&self) -> AskV {
        match self {
            Ask::Nothing => AskV::Nothing,
            Ask::List { dir, why } => AskV::List { dir: dir@, why: *why },
            Ask::Start { index } => AskV::Start { index: *index },
            Ask::Reach { server, token } => AskV::Reach {
                server: server@,
                token: opt_view(*token),
            },
            Ask::Change { target, to, done } => AskV::Change {
                target: target@,
                to: to@,
                done: done@,
            },
            Ask::Delete { target } => AskV::Delete { target: target@ },
            Ask::Rate { path, title, stars } => AskV::Rate {
                path: path@,
                title: title@,
                stars: *stars,
            },
        }
    }
}

/// A session on its way back, while the folders it names are looked up.
#[derive(Debug)]
pub struct Restoring {
    pub folder: Option<String>,
    pub selected: Option<String>,
    pub feed: Option<String>,
    pub tab: Option<String>,
    pub resume: Option<Resume>,
    /// How far down the way to `folder` has been found.
    pub cwd: String,
    pub trail: Vec<(String, usize)>,
}

/// What a [`Restoring`] holds.
pub ghost struct RestoringV {
    pub folder: Option<Seq<char>>,
    pub selected: Option<Seq<char>>,
    pub feed: Option<Seq<char>>,
    pub tab: Option<Seq<char>>,
    pub resume: Option<ResumeV>,
    pub cwd: Seq<char>,
    pub trail: Seq<(Seq<char>, usize)>,
}

pub open spec fn trail_view(v: Seq<(String, usize)>) -> Seq<(Seq<char>, usize)> {
    Seq::new(v.len(), |i: int| (v[i].0@, v[i].1))
}

impl View for Restoring {
    type V = RestoringV;

    open spec fn view(&self) -> RestoringV {
        RestoringV {
            folder: opt_view(self.folder),
            selected: opt_view(self.selected),
            feed: opt_view(self.feed),
            tab: opt_view(self.tab),
            resume: match self.resume {
                Some(r) => Some(r@),
                None => None,
            },
            cwd: self.cwd@,
            trail: trail_view(self.trail@),
        }
    }
}

/// All of the player's state.
#[derive(Debug)]
pub struct App {
    pub root: String,
    /// Which source is on screen.
    pub tab: Tab,
    /// Directory the left pane is listing. Never climbs above `root`.
    pub cwd: String,
    /// Subdirectories of `cwd`. A cursor here drives the track list.
    pub folders: Vec<Folder>,
    /// Selection to restore when stepping back up, per directory left behind.
    pub trail: Vec<(String, usize)>,
    pub tracks: Vec<Track>,
    pub folder_state: ListState,
    pub track_state: ListState,
    pub focus: Pane,
    /// Snapshot of the listing taken when playback started, plus where in it we are,
    /// so that browsing cannot derail what comes next.
    pub queue: Vec<Track>,
    pub queue_pos: Option<usize>,
    /// The folder the queue was listed from. `None` for a feed.
    pub queue_dir: Option<String>,
    /// Directory whose tracks are listed, and whether they are still being read.
    pub tracks_dir: Option<String>,
    pub tracks_loading: bool,
    pub scan_generation: u64,
    pub follow_generation: u64,
    /// The folder being listed for playback to run on into.
    pub following_into: Option<String>,
    /// The folder that was played to its end, while its successor is looked for.
    pub after: Option<String>,
    pub open_generation: u64,
    /// The URL being opened, if any.
    pub opening: Option<String>,
    /// Recently listed directories.
    pub memo: Memo,
    pub cover: Cover,
    pub audio: Audio,
    /// Play the queue in a scrambled order rather than in listing order.
    pub shuffle: bool,
    /// The order followed while shuffling: a permutation of the queue.
    pub shuffle_order: Vec<usize>,
    pub rng: Rng,
    /// Where the settings are written.
    pub settings_file: Option<String>,
    /// The server whose folders are listed beside the local ones at the root, and its
    /// token.
    pub remote: Remote,
    pub transfer: Option<Transfer>,
    /// The folder on its way to the server: where it is, and where it goes.
    pub moving: Option<(String, String)>,
    /// When the session last changed, if it has not been written out yet.
    pub settings_dirty: Option<Duration>,
    /// The playhead as last written.
    pub saved_position: Duration,
    /// The track the last session was on, until the first listing has had a chance to
    /// contain it.
    pub resume: Option<Resume>,
    /// Where to put the playhead once that track is queued, and which track it is.
    pub resume_at: Option<(String, Duration)>,
    /// Set while a restored track is held quiet waiting for its seek to land.
    pub resume_playing: bool,
    pub restoring: Option<Restoring>,
    pub areas: Areas,
    pub feeds: Vec<Feed>,
    pub feed_state: ListState,
    /// Where the feed list is written.
    pub feeds_file: Option<String>,
    /// Open input, drawn over everything else.
    pub prompt: Option<Prompt>,
    pub fetch_generation: u64,
    /// The feed whose episodes are listed, and whether it is still arriving.
    pub fetched_url: Option<String>,
    pub feed_loading: bool,
    /// Pane, row and time of the last left click, for double clicks.
    pub last_click: Option<(Pane, usize, Duration)>,
    /// Last state handed to the system, so only a real change is published.
    pub published: Option<NowPlaying>,
    pub status: String,
    pub should_quit: bool,
    /// The key list, drawn over everything until the next key.
    pub show_keys: bool,
    /// The time, as of the event being handled.
    pub clock: Duration,
    pub asking: Ask,
    pub effects: Vec<Effect>,
}

/// What an [`App`] holds.
pub ghost struct AppV {
    pub root: Seq<char>,
    pub tab: Tab,
    pub cwd: Seq<char>,
    pub folders: Seq<FolderV>,
    pub trail: Seq<(Seq<char>, usize)>,
    pub tracks: Seq<TrackV>,
    pub folder_state: ListState,
    pub track_state: ListState,
    pub focus: Pane,
    pub queue: Seq<TrackV>,
    pub queue_pos: Option<usize>,
    pub queue_dir: Option<Seq<char>>,
    pub tracks_dir: Option<Seq<char>>,
    pub tracks_loading: bool,
    pub scan_generation: u64,
    pub follow_generation: u64,
    pub following_into: Option<Seq<char>>,
    pub after: Option<Seq<char>>,
    pub open_generation: u64,
    pub opening: Option<Seq<char>>,
    pub memo: Seq<RememberedV>,
    pub cover: CoverV,
    pub audio: Audio,
    pub shuffle: bool,
    pub shuffle_order: Seq<usize>,
    pub rng: u64,
    pub settings_file: Option<Seq<char>>,
    pub remote: RemoteV,
    pub transfer: Option<Transfer>,
    pub moving: Option<(Seq<char>, Seq<char>)>,
    pub settings_dirty: Option<Duration>,
    pub saved_position: Duration,
    pub resume: Option<ResumeV>,
    pub resume_at: Option<(Seq<char>, Duration)>,
    pub resume_playing: bool,
    pub restoring: Option<RestoringV>,
    pub areas: Areas,
    pub feeds: Seq<FeedV>,
    pub feed_state: ListState,
    pub feeds_file: Option<Seq<char>>,
    pub prompt: Option<PromptV>,
    pub fetch_generation: u64,
    pub fetched_url: Option<Seq<char>>,
    pub feed_loading: bool,
    pub last_click: Option<(Pane, usize, Duration)>,
    pub published: Option<NowPlayingV>,
    pub status: Seq<char>,
    pub should_quit: bool,
    pub show_keys: bool,
    pub clock: Duration,
    pub asking: AskV,
    pub effects: Seq<Effect>,
}

/// The folders of the player.
#[verifier::opaque]
pub open spec fn folders_of(v: Seq<Folder>) -> Seq<FolderV> {
    folders_view(v)
}

/// A listing of the player.
#[verifier::opaque]
pub open spec fn tracks_of(v: Seq<Track>) -> Seq<TrackV> {
    tracks_view(v)
}

/// The feeds of the player.
#[verifier::opaque]
pub open spec fn feeds_of(v: Seq<Feed>) -> Seq<FeedV> {
    feeds_view(v)
}

/// The way down to where the player is.
#[verifier::opaque]
pub open spec fn trail_of(v: Seq<(String, usize)>) -> Seq<(Seq<char>, usize)> {
    trail_view(v)
}

/// What the player remembers.
#[verifier::opaque]
pub open spec fn memo_of(memo: Memo) -> Seq<RememberedV> {
    memo@
}

impl View for App {
    type V = AppV;

    open spec fn view(&self) -> AppV {
        AppV {
            root: self.root@,
            tab: self.tab,
            cwd: self.cwd@,
            folders: folders_of(self.folders@),
            trail: trail_of(self.trail@),
            tracks: tracks_of(self.tracks@),
            folder_state: self.folder_state,
            track_state: self.track_state,
            focus: self.focus,
            queue: tracks_of(self.queue@),
            queue_pos: self.queue_pos,
            queue_dir: opt_view(self.queue_dir),
            tracks_dir: opt_view(self.tracks_dir),
            tracks_loading: self.tracks_loading,
            scan_generation: self.scan_generation,
            follow_generation: self.follow_generation,
            following_into: opt_view(self.following_into),
            after: opt_view(self.after),
            open_generation: self.open_generation,
            opening: opt_view(self.opening),
            memo: memo_of(self.memo),
            cover: self.cover@,
            audio: self.audio,
            shuffle: self.shuffle,
            shuffle_order: self.shuffle_order@,
            rng: self.rng.state,
            settings_file: opt_view(self.settings_file),
            remote: self.remote@,
            transfer: self.transfer,
            moving: match self.moving {
                Some((from, to)) => Some((from@, to@)),
                None => None,
            },
            settings_dirty: self.settings_dirty,
            saved_position: self.saved_position,
            resume: match self.resume {
                Some(r) => Some(r@),
                None => None,
            },
            resume_at: match self.resume_at {
                Some((track, at)) => Some((track@, at)),
                None => None,
            },
            resume_playing: self.resume_playing,
            restoring: match self.restoring {
                Some(r) => Some(r@),
                None => None,
            },
            areas: self.areas,
            feeds: feeds_of(self.feeds@),
            feed_state: self.feed_state,
            feeds_file: opt_view(self.feeds_file),
            prompt: match self.prompt {
                Some(p) => Some(p@),
                None => None,
            },
            fetch_generation: self.fetch_generation,
            fetched_url: opt_view(self.fetched_url),
            feed_loading: self.feed_loading,
            last_click: self.last_click,
            published: match self.published {
                Some(n) => Some(n@),
                None => None,
            },
            status: self.status@,
            should_quit: self.should_quit,
            show_keys: self.show_keys,
            clock: self.clock,
            asking: self.asking@,
            effects: self.effects@,
        }
    }
}

/// The number after this one, round to zero.
pub open spec fn bumped(generation: u64) -> u64 {
    if generation == u64::MAX {
        0
    } else {
        (generation + 1) as u64
    }
}

/// The part of the state that browsing changes and playing does not.
pub ghost struct BrowsingV {
    pub root: Seq<char>,
    pub cwd: Seq<char>,
    pub folders: Seq<FolderV>,
    pub trail: Seq<(Seq<char>, usize)>,
    pub folder_state: ListState,
    pub memo: Seq<RememberedV>,
    pub remote: RemoteV,
}

impl AppV {
    pub open spec fn browsing(self) -> BrowsingV {
        BrowsingV {
            root: self.root,
            cwd: self.cwd,
            folders: self.folders,
            trail: self.trail,
            folder_state: self.folder_state,
            memo: self.memo,
            remote: self.remote,
        }
    }

    /// There is room for the rows of the folder pane, and the memo is one.
    pub open spec fn wf(self) -> bool {
        &&& self.folders.len() <= usize::MAX - 2
        &&& is_memo(self.memo)
    }

    /// With something more to be done.
    pub open spec fn doing(self, effect: Effect) -> AppV {
        AppV { effects: self.effects.push(effect), ..self }
    }

    /// With the session owed a write.
    pub open spec fn touched(self) -> AppV {
        AppV { settings_dirty: Some(self.clock), ..self }
    }

    pub open spec fn saying(self, status: Seq<char>) -> AppV {
        AppV { status, ..self }
    }
}

impl App {
    /// Note that the session has moved on and is owed a write.
    pub fn touch_settings(&mut self)
        ensures
            final(self)@ == old(self)@.touched(),
    {
        self.settings_dirty = Some(self.clock);
    }

    pub fn act(&mut self, effect: Effect)
        ensures
            final(self)@ == old(self)@.doing(effect),
    {
        self.effects.push(effect);
    }

    pub fn say(&mut self, status: String)
        ensures
            final(self)@ == old(self)@.saying(status@),
    {
        self.status = status;
    }

    /// What is to be done outside, in order.
    pub fn take_effects(&mut self) -> (r: Vec<Effect>)
        ensures
            r@ == old(self)@.effects,
            final(self)@ == (AppV { effects: Seq::<Effect>::empty(), ..old(self)@ }),
    {
        let mut r: Vec<Effect> = Vec::new();
        let ghost was = self.effects@;
        r.append(&mut self.effects);
        assert(r@ =~= was);
        assert(self.effects@ =~= Seq::<Effect>::empty());
        r
    }
}

/// The next generation.
pub fn bump(generation: u64) -> (r: u64)
    ensures
        r == bumped(generation),
{
    if generation == u64::MAX {
        0
    } else {
        generation + 1
    }
}

} // verus!
