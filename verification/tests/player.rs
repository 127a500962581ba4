//! The player driven the way its loop drives it, over a music folder, a server and an
//! audio device that exist only in memory.

use tuneterm::app::listing::{Listed, Listing};
use tuneterm::app::playback::{CoverReply, Opened};
use tuneterm::app::prompts::{check_change, destination_of};
use tuneterm::app::screen::{cover_caption, help_keys};
use tuneterm::app::session::Present;
use tuneterm::app::transfer::{Move, Step};
use tuneterm::app::{
    stars_text, App, Ask, Audio, Effect, LogLine, Pane, PromptKind, Tab, Transfer,
};
use tuneterm::config::{self, Feed, Remote, Session, Settings};
use tuneterm::feed::{Channel, Episode};
use tuneterm::library::{self, Entry, Folder, Tagged, Track};
use tuneterm::media::Command;
use tuneterm::remote::{self, ListedFolder, ListedTrack, Parcel, Pushed, Stat};
use tuneterm::time::Duration;
use tuneterm::ui::{progress_label, ListState, Panes, Playing, Position, Rect};

const ROOT: &str = "/music";
const SERVED: &str = "/served";
const SERVER: &str = "tuneterm://127.0.0.1:7700";

/// Unroutable on purpose: these tests are about the list and the input, not about
/// fetching.
const TEST_FEED: &str = "https://tuneterm.invalid/feed.xml";

struct World {
    app: App,
    /// Files on this disk, with when they were written.
    files: Vec<(String, u64)>,
    /// Files the server has, below `/served`, and the stars given to them.
    served: Vec<(String, u64)>,
    stars: Vec<(String, u8)>,
    reachable: bool,
    /// Milliseconds since the start.
    time: u64,
    paused: bool,
    sounding: Option<String>,
    position: Duration,
    seeks: Vec<Duration>,
    scan: Option<(u64, Listing)>,
    follow: Option<(u64, Listing)>,
    settings_text: Option<String>,
    feeds_text: Option<String>,
    effects: Vec<Effect>,
    moved: Option<Move>,
}

fn two_albums() -> Vec<(String, u64)> {
    let mut files = Vec::new();
    for (album, tracks) in [("Alpha", 3), ("Beta", 2), ("Artist/Early", 2), ("Artist/Late", 4)] {
        for i in 1..=tracks {
            files.push((format!("{ROOT}/{album}/{i:02} song.wav"), 10));
        }
    }
    files
}

fn join(base: &str, rest: &str) -> String {
    format!("{base}/{rest}")
}

/// The tree below `dir`, from a flat list of files.
fn tree(files: &[(String, u64)], dir: &str) -> Vec<Entry> {
    let mut dirs: Vec<String> = Vec::new();
    let mut out = Vec::new();
    let prefix = format!("{dir}/");
    for (path, time) in files {
        let Some(rest) = path.strip_prefix(&prefix) else { continue };
        match rest.split_once('/') {
            None => out.push(Entry::File { path: path.clone(), time: *time }),
            Some((name, _)) => {
                let sub = join(dir, name);
                if !dirs.contains(&sub) {
                    dirs.push(sub);
                }
            }
        }
    }
    for sub in dirs {
        let entries = tree(files, &sub);
        out.push(Entry::Dir { path: sub, time: 1, entries });
    }
    out
}

fn local_track(path: &str) -> Track {
    let tagged = Tagged { duration: Duration::from_secs(2), tag: None };
    library::read_track(path.to_string(), Some(tagged))
}

impl World {
    fn with_files(root: &str, files: Vec<(String, u64)>, served: Vec<(String, u64)>) -> World {
        let listed = if remote::is_remote(root) {
            Ok(served_folders(&served, root))
        } else {
            Ok(library::list_subdirs(&tree(&files, root)))
        };
        let loose = !library::flat_paths(&tree(&files, root)).is_empty();
        let mut app = App::new(
            root.to_string(),
            listed,
            loose,
            vec![config::default_feed()],
            Some("/config/feeds.txt".to_string()),
            Some("/config/settings.txt".to_string()),
            12345,
            Duration::zero(),
        );
        app.areas.cell_width = 10;
        app.areas.cell_height = 20;
        let mut world = World {
            app,
            files,
            served,
            stars: Vec::new(),
            reachable: true,
            time: 0,
            paused: false,
            sounding: None,
            position: Duration::zero(),
            seeks: Vec::new(),
            scan: None,
            follow: None,
            settings_text: None,
            feeds_text: None,
            effects: Vec::new(),
            moved: None,
        };
        world.settle();
        world
    }

    /// Straight out of `App::new`, with the first scan still in flight.
    fn raw() -> World {
        World::with_files(ROOT, two_albums(), Vec::new())
    }

    /// Ready to assert on: the first listing has already landed.
    fn new() -> World {
        let mut world = World::raw();
        world.wait_for_tracks();
        world
    }

    fn path(&self, rel: &str) -> String {
        join(ROOT, rel)
    }

    fn act<T>(&mut self, f: impl FnOnce(&mut App) -> T) -> T {
        self.sync();
        let out = f(&mut self.app);
        self.settle();
        out
    }

    fn sync(&mut self) {
        self.app.clock = Duration::from_millis(self.time);
        self.app.audio = Audio {
            paused: self.paused,
            finished: self.sounding.is_none(),
            position: self.position,
        };
    }

    fn subdirs(&self, dir: &str) -> Result<Vec<Folder>, String> {
        if remote::is_remote(dir) {
            if !self.reachable {
                return Err("server unreachable: refused".to_string());
            }
            Ok(served_folders(&self.served, dir))
        } else {
            Ok(library::list_subdirs(&tree(&self.files, dir)))
        }
    }

    fn tracks(&self, dir: &str) -> Result<Vec<Track>, String> {
        if remote::is_remote(dir) {
            if !self.reachable {
                return Err("server unreachable: refused".to_string());
            }
            let top = join(SERVED, &remote::path_of(dir));
            let paths = library::deep_paths(&tree(&self.served, &top));
            let server = remote::Server::open(dir).unwrap();
            let listed: Vec<ListedTrack> = paths
                .iter()
                .map(|path| {
                    let rel = path.strip_prefix("/served/").unwrap().to_string();
                    let stars = self.stars.iter().rev().find(|(p, _)| *p == rel);
                    ListedTrack {
                        title: rel.clone(),
                        stars: stars.map_or(0, |(_, n)| *n),
                        path: rel,
                        artist: "far".to_string(),
                        album: "away".to_string(),
                        duration_ms: Some(2000),
                        size: 0,
                    }
                })
                .collect();
            Ok(server.tracks(&listed))
        } else {
            let paths = library::deep_paths(&tree(&self.files, dir));
            Ok(paths.iter().map(|path| local_track(path)).collect())
        }
    }

    fn run(&self, listing: Listing) -> Listed {
        if listing.parts.is_empty() {
            let own = self.tracks(&listing.dir);
            return listing.run(own, &Vec::new());
        }
        let paths = library::flat_paths(&tree(&self.files, &listing.dir));
        let own = Ok(paths.iter().map(|path| local_track(path)).collect());
        let read: Vec<Option<Vec<Track>>> = listing
            .parts
            .iter()
            .map(|part| match part.known {
                Some(_) => None,
                None => self.tracks(&part.path).ok(),
            })
            .collect();
        listing.run(own, &read)
    }

    /// Carry out everything that was asked for, the way the loop does.
    fn settle(&mut self) {
        loop {
            let effects = self.app.take_effects();
            let nothing = effects.is_empty();
            for effect in effects {
                self.perform(effect);
            }
            self.sync();
            if !self.answer() && nothing {
                return;
            }
        }
    }

    fn perform(&mut self, effect: Effect) {
        self.effects.push(effect);
        match effect {
            Effect::Scan => {
                let listing = self.app.scan_listing().expect("something to scan");
                self.scan = Some((self.app.scan_generation, listing));
            }
            Effect::Follow(stamp) => {
                let dir = self.app.following_into.as_ref().expect("a folder to follow").clone();
                let listing = Listing { dir, stamp: Some(stamp), parts: Vec::new() };
                self.follow = Some((self.app.follow_generation, listing));
            }
            Effect::Stop => {
                self.sounding = None;
                self.position = Duration::zero();
            }
            Effect::PlayStream => {
                self.sounding = self.app.now_playing().map(|t| t.path.clone());
                self.paused = false;
                self.position = Duration::zero();
            }
            Effect::Pause => self.paused = true,
            Effect::Play => self.paused = false,
            Effect::Toggle => self.paused = !self.paused,
            Effect::Seek(at) => self.seeks.push(at),
            Effect::SeekFraction(part, span) => {
                let total = self.app.now_playing().unwrap().duration.unwrap();
                let nanos = total.as_nanos() * u128::from(part) / u128::from(span);
                let millis = (nanos / 1_000_000) as u64;
                self.app.sought(Duration::from_millis(millis));
            }
            Effect::SaveSettings => {
                let millis = (self.position.as_nanos() / 1_000_000) as u64;
                let position = if millis > 0 {
                    vec![format!("{:.1}", millis as f64 / 1000.0)]
                } else {
                    Vec::new()
                };
                let settings = self.app.settings("1.000".to_string(), position);
                self.settings_text = Some(config::settings_text(&settings));
            }
            Effect::SaveFeeds => self.feeds_text = Some(config::feeds_text(&self.app.feeds)),
            _ => {}
        }
    }

    /// Answer what is being asked. False when nothing is.
    fn answer(&mut self) -> bool {
        enum Reply {
            Folders(Result<Vec<Folder>, String>, Option<Result<Vec<Folder>, String>>),
            Started(Result<(), String>),
            Reached(Result<(), String>),
            Changed(Result<(), String>),
            Deleted(Result<(), String>),
            Rated,
        }
        let reply = match &self.app.asking {
            Ask::Nothing => return false,
            Ask::List { dir, .. } => {
                let server = self.app.remote.server.as_ref().filter(|_| self.app.wants_server());
                Reply::Folders(self.subdirs(dir), server.map(|s| self.subdirs(s)))
            }
            Ask::Start { index } => {
                let path = self.app.queue[*index].path.clone();
                if self.files.iter().any(|(p, _)| *p == path) {
                    self.sounding = Some(path);
                    self.paused = false;
                    self.position = Duration::zero();
                    Reply::Started(Ok(()))
                } else {
                    Reply::Started(Err(format!("{path}: no such file")))
                }
            }
            Ask::Reach { .. } => Reply::Reached(if self.reachable {
                Ok(())
            } else {
                Err("server unreachable: refused".to_string())
            }),
            Ask::Change { target, to, .. } if remote::is_remote(target) => {
                let from = join(SERVED, &remote::path_of(target));
                for (path, _) in &mut self.served {
                    if let Some(rest) = path.strip_prefix(&from) {
                        *path = format!("{SERVED}/{to}{rest}");
                    }
                }
                Reply::Changed(Ok(()))
            }
            Ask::Delete { target } if remote::is_remote(target) => {
                let inside = format!("{}/", join(SERVED, &remote::path_of(target)));
                self.served.retain(|(p, _)| !p.starts_with(&inside));
                Reply::Deleted(Ok(()))
            }
            Ask::Change { target, to, .. } => {
                let dest = destination_of(&self.app.root, to);
                let there = self
                    .files
                    .iter()
                    .any(|(p, _)| *p == dest || p.starts_with(&format!("{dest}/")));
                let checked = check_change(target, &dest, to, there);
                if checked.is_ok() {
                    let inside = format!("{target}/");
                    for (path, _) in &mut self.files {
                        if path == target {
                            *path = dest.clone();
                        } else if let Some(rest) = path.strip_prefix(&inside) {
                            *path = join(&dest, rest);
                        }
                    }
                }
                Reply::Changed(checked)
            }
            Ask::Delete { target } => {
                let inside = format!("{target}/");
                self.files.retain(|(p, _)| p != target && !p.starts_with(&inside));
                Reply::Deleted(Ok(()))
            }
            Ask::Rate { path, stars, .. } => {
                self.stars.push((remote::path_of(path), stars.unwrap_or(0)));
                Reply::Rated
            }
        };
        match reply {
            Reply::Folders(local, server) => self.app.folders_listed(local, server),
            Reply::Started(result) => self.app.file_started(result),
            Reply::Reached(result) => self.app.server_answered(result),
            Reply::Changed(result) => self.app.changed(result),
            Reply::Deleted(result) => self.app.deleted(result),
            Reply::Rated => self.app.rated(Ok(())),
        }
        true
    }

    /// Let the pending scan land.
    fn wait_for_tracks(&mut self) {
        if let Some((generation, listing)) = self.scan.take() {
            let listed = self.run(listing);
            self.act(|app| app.poll_tracks(vec![(generation, listed)]));
        }
    }

    /// Let the folder playback is running on into be listed.
    fn wait_for_follow(&mut self) {
        if let Some((generation, listing)) = self.follow.take() {
            let listed = self.run(listing);
            self.act(|app| app.poll_follow(vec![(generation, listed)]));
        }
    }

    fn wait_for_open(&mut self) {
        let generation = self.app.open_generation;
        let url = self.app.opening.clone().expect("a stream to open");
        self.act(|app| app.poll_open(&vec![Opened { generation, url, result: Ok(()) }]));
    }

    /// Answer the seek that was asked for.
    fn settle_seek(&mut self) {
        if let Some(at) = self.seeks.pop() {
            self.position = at;
            self.act(|app| app.poll_seek(Ok(())));
        }
    }

    fn folder_row(&self, name: &str) -> usize {
        let index = self.app.folders.iter().position(|f| f.label == name);
        index.expect("a folder of that name") + 1
    }

    fn labels(&self) -> Vec<&str> {
        self.app.folders.iter().map(|f| f.label.as_str()).collect()
    }

    fn playing(&self) -> Option<String> {
        self.app.now_playing().map(|t| t.path.clone())
    }

    fn select(&mut self, row: usize) {
        self.app.folder_state.select(Some(row));
        self.act(|app| app.reload_tracks());
        self.wait_for_tracks();
    }

    fn click(&mut self, x: u16, y: u16) {
        self.act(|app| app.click(Position { x, y }));
    }

    fn type_in(&mut self, text: &str) {
        for c in text.chars() {
            self.act(|app| app.prompt_key(c));
        }
    }

    fn restore(&mut self, settings: Settings, position: Duration) {
        let here = |path: &Option<String>| {
            path.as_ref().is_some_and(|p| {
                p == ROOT
                    || self
                        .files
                        .iter()
                        .any(|(f, _)| f == p || f.starts_with(&format!("{p}/")))
            })
        };
        let present = Present {
            folder: here(&settings.session.folder),
            selected: here(&settings.session.selected),
            queue: here(&settings.session.queue),
            track: here(&settings.session.track),
        };
        self.act(|app| app.restore(settings, position, present));
    }
}

fn served_folders(served: &[(String, u64)], url: &str) -> Vec<Folder> {
    let rel = remote::path_of(url);
    let top = if rel.is_empty() { SERVED.to_string() } else { join(SERVED, &rel) };
    let server = remote::Server::open(url).unwrap();
    let listed: Vec<ListedFolder> = library::list_subdirs(&tree(served, &top))
        .iter()
        .map(|f| ListedFolder {
            name: f.label.clone(),
            path: f.path.strip_prefix("/served/").unwrap().to_string(),
            count: f.count as u32,
            newest: f.newest,
        })
        .collect();
    server.folders(&listed)
}

fn served_two() -> Vec<(String, u64)> {
    vec![
        ("/served/Gamma/01 far.wav".to_string(), 7),
        ("/served/Alpha/01 there.wav".to_string(), 7),
    ]
}

/// Rows as the renderer would report them: 10 wide.
fn rows(x: u16, y: u16, height: u16) -> Rect {
    Rect { x, y, width: 10, height }
}

fn rect(x: u16, y: u16, width: u16, height: u16) -> Rect {
    Rect { x, y, width, height }
}

fn blank_session() -> Session {
    Settings::new().session
}

fn with_session(session: Session) -> Settings {
    let mut settings = Settings::new();
    settings.session = session;
    settings
}

fn remote_track(url: &str) -> Track {
    Track {
        path: url.to_string(),
        title: "episode".to_string(),
        artist: "feed".to_string(),
        album: "feed".to_string(),
        duration: None,
        url: Some(url.to_string()),
        art_url: None,
        stars: None,
    }
}

fn feeds_world() -> World {
    let mut w = World::new();
    w.app.feeds = vec![Feed { name: "test".to_string(), url: TEST_FEED.to_string() }];
    w.app.feed_state.select(Some(0));
    w.act(|app| app.select_tab(Tab::Feeds));
    w
}

// ---------------------------------------------------------------------------
// Browsing
// ---------------------------------------------------------------------------

#[test]
fn lists_one_level_with_recursive_counts() {
    let w = World::new();
    let seen: Vec<(&str, usize)> =
        w.app.folders.iter().map(|f| (f.label.as_str(), f.count)).collect();
    assert_eq!(
        seen,
        vec![("Alpha", 3), ("Artist", 6), ("Beta", 2)],
        "counts must include subfolders"
    );
    assert_eq!(w.app.tracks.len(), 3, "the highlighted folder is listed");
    assert_eq!(w.app.status, "3 folders");
}

#[test]
fn the_listing_is_recursive() {
    let mut w = World::new();
    w.select(2); // Artist/, which holds no files itself
    assert_eq!(w.app.tracks.len(), 6, "both albums of the artist");
}

#[test]
fn server_folders_sit_beside_local_ones() {
    let mut w = World::with_files(ROOT, two_albums(), served_two());
    w.wait_for_tracks();
    w.act(|app| app.open_add_server());
    w.type_in("k@127.0.0.1:7700");
    w.act(|app| app.submit_prompt());
    assert!(w.app.prompt.is_none(), "{}", w.app.status);

    // Alpha is in both: shown once, as the local one.
    assert_eq!(w.labels(), ["Alpha", "Artist", "Beta", "Gamma"]);
    let marked: Vec<_> = w
        .app
        .folders
        .iter()
        .filter(|f| w.app.can_move(f))
        .map(|f| f.label.as_str())
        .collect();
    assert_eq!(marked, ["Alpha", "Artist", "Beta"], "local ones are marked");
    assert!(w.app.folders.iter().all(|f| f.newest > 0), "every folder has a time");

    // Kept, with the token apart from the address.
    let saved = config::parse_settings(w.settings_text.as_ref().unwrap()).remote;
    assert_eq!(saved.server.as_deref(), Some(SERVER));
    assert_eq!(saved.token.as_deref(), Some("k"));

    let row = w.folder_row("Gamma");
    w.act(|app| app.select_folder(row));
    w.act(|app| app.enter_folder());
    w.wait_for_tracks();
    assert_eq!(w.app.tracks.len(), 1, "a leaf lists its own tracks");
    assert_eq!(w.app.focus, Pane::Tracks, "a leaf moves focus instead");
    w.act(|app| app.play_index(0));
    w.wait_for_open();
    assert!(w.app.status.starts_with("playing"), "{}", w.app.status);
    assert_eq!(w.playing(), Some(format!("{SERVER}/Gamma/01 far.wav")));
}

#[test]
fn moving_a_folder_puts_it_on_the_server_and_takes_it_off_here() {
    let mut w = World::new();
    w.app.settings_file = None;
    w.app.remote =
        Remote { server: Some(SERVER.to_string()), token: Some("k".to_string()) };
    let row = w.folder_row("Beta");
    w.app.folder_state.select(Some(row));
    w.act(|app| app.move_selected());
    assert!(w.app.prompt.is_none(), "no question asked");
    assert!(w.app.is_moving());
    let (local, rel) = w.app.moving.as_ref().expect("something to move").clone();
    assert_eq!((local.as_str(), rel.as_str()), ("/music/Beta", "Beta"));

    // What the sending thread reports.
    let mut state = Move::new("Beta", SERVER, &rel);
    let found = remote::walk(&local, &tree(&w.files, &local)).unwrap();
    let parcels = remote::parcels(&found, &rel);
    let mut pushed = Pushed::start(parcels.len());
    state.report(&Step::Plan { files: parcels.len(), bytes: 200 });
    while let Some(next) = pushed.next(&parcels) {
        let parcel = &parcels[next];
        state.report(&Step::Start { remote: parcel.remote.clone(), size: 100 });
        let there = Stat { exists: false, is_dir: false, size: 0 };
        let sent = remote::confirm(remote::weigh(parcel, 100, there), 100);
        w.served.push((join(SERVED, &parcel.remote), 9));
        pushed.record(parcel, sent);
        let sent = remote::weigh(parcel, 100, there);
        state.report(&Step::Done { index: next + 1, sent });
    }
    let gone = pushed.removable();
    w.files.retain(|(p, _)| !gone.contains(p));
    state.end("Beta", &pushed.error, Ok(gone.len()), pushed.done.len(), pushed.total);
    let finished = state.finished.clone();
    w.act(|app| app.poll_move(finished));
    assert!(!w.app.is_moving());

    assert!(w.app.status.starts_with("moved Beta"), "{}", w.app.status);
    assert_eq!((state.done_files, state.files), (2, 2));
    assert_eq!(state.bytes_done(200), state.bytes);
    assert!(state.finished.is_some() && state.sending.is_empty());
    assert_eq!(
        state.log,
        [LogLine::Note("deleted 2 files here".to_string())],
        "files that arrived are not listed, only how it ended"
    );
    assert!(w.act(|app| app.hide_transfer_log()), "Escape closes the log first");
    assert!(!w.act(|app| app.hide_transfer_log()), "and then it is Escape again");
    assert!(!w.files.iter().any(|(p, _)| p.starts_with("/music/Beta/")));
    for name in ["01 song.wav", "02 song.wav"] {
        assert!(w.served.iter().any(|(p, _)| *p == format!("/served/Beta/{name}")));
    }
    let beta = w.app.folders.iter().find(|f| f.label == "Beta").expect("from the server");
    assert!(library::remote_url(&beta.path).is_some());
    assert!(!w.app.can_move(beta));

    // A server folder is not offered for a move.
    let row = w.folder_row("Beta");
    w.app.folder_state.select(Some(row));
    w.act(|app| app.move_selected());
    assert!(!w.app.is_moving(), "a server folder is not moved");
    w.moved = Some(state);
    assert!(w.moved.is_some());
}

#[test]
fn a_playing_track_comes_back_playing_with_a_server_added() {
    for reachable in [true, false] {
        let mut w = World::with_files(ROOT, two_albums(), Vec::new());
        w.reachable = reachable;
        w.app.settings_file = None;
        let track = w.path("Beta/02 song.wav");
        let mut settings = with_session(Session {
            tab: Some("local".to_string()),
            folder: Some(ROOT.to_string()),
            selected: Some(w.path("Beta")),
            track: Some(track.clone()),
            playing: true,
            ..blank_session()
        });
        settings.remote.server = Some("tuneterm://127.0.0.1:1".to_string());
        w.restore(settings, Duration::from_millis(500));
        w.wait_for_tracks();
        w.settle_seek();
        assert_eq!(w.playing(), Some(track), "reachable={reachable}: {}", w.app.status);
        assert!(!w.paused, "reachable={reachable}: came back paused");
    }
}

#[test]
fn a_track_moved_to_the_server_comes_back_from_there() {
    let mut files = two_albums();
    files.retain(|(p, _)| !p.starts_with("/music/Beta/"));
    let served = vec![
        ("/served/Beta/01 song.wav".to_string(), 9),
        ("/served/Beta/02 song.wav".to_string(), 9),
    ];
    let mut w = World::with_files(ROOT, files, served);
    w.app.settings_file = None;
    let mut settings = with_session(Session {
        tab: Some("local".to_string()),
        folder: Some(ROOT.to_string()),
        selected: Some(w.path("Beta")),
        track: Some(w.path("Beta/02 song.wav")),
        playing: true,
        ..blank_session()
    });
    settings.remote.server = Some(SERVER.to_string());
    w.restore(settings, Duration::from_millis(500));
    w.wait_for_tracks();
    w.wait_for_open();
    w.settle_seek();
    assert_eq!(
        w.app.selected_folder().map(|f| f.path.clone()),
        Some(format!("{SERVER}/Beta")),
        "the highlight followed the folder to the server"
    );
    assert_eq!(w.playing(), Some(format!("{SERVER}/Beta/02 song.wav")), "{}", w.app.status);
    assert!(!w.paused, "came back paused: {}", w.app.status);
}

#[test]
fn local_things_are_renamed_moved_and_deleted() {
    let mut w = World::new();
    fn enter(w: &mut World, text: &str) {
        if let Some(prompt) = w.app.prompt.as_mut() {
            prompt.input.clear();
        }
        w.type_in(text);
        w.act(|app| app.submit_prompt());
    }

    let row = w.folder_row("Beta");
    w.act(|app| app.select_folder(row));
    w.wait_for_tracks();
    w.act(|app| app.ask_rename());
    assert_eq!(w.app.prompt.as_ref().map(|p| p.input.as_str()), Some("Beta"));
    enter(&mut w, "Gamma");
    assert!(w.app.prompt.is_none());
    assert!(w.files.iter().any(|(p, _)| p.starts_with("/music/Gamma/")));
    assert!(!w.files.iter().any(|(p, _)| p.starts_with("/music/Beta/")));
    w.wait_for_tracks();

    // A track, from the right pane, into another folder that does not exist yet.
    let row = w.folder_row("Gamma");
    w.act(|app| app.select_folder(row));
    w.wait_for_tracks();
    w.app.focus = Pane::Tracks;
    w.app.track_state.select(Some(0));
    w.act(|app| app.ask_relocate());
    assert_eq!(w.app.prompt.as_ref().map(|p| p.input.as_str()), Some("Gamma/01 song.wav"));
    enter(&mut w, "Singles/01 song.wav");
    assert!(w.files.iter().any(|(p, _)| p == "/music/Singles/01 song.wav"));
    w.wait_for_tracks();

    // Onto something that exists: refused, field kept open.
    w.app.track_state.select(Some(0));
    w.act(|app| app.ask_relocate());
    enter(&mut w, "Alpha/01 song.wav");
    assert!(w.app.prompt.as_ref().is_some_and(|p| p.hint.contains("exists")));
    w.act(|app| app.cancel_prompt());

    // Delete waits for `y`: Enter and any other key do nothing.
    w.app.focus = Pane::Folders;
    let row = w.folder_row("Gamma");
    w.act(|app| app.select_folder(row));
    w.act(|app| app.ask_delete());
    w.act(|app| app.submit_prompt());
    w.act(|app| app.prompt_key('n'));
    assert!(w.files.iter().any(|(p, _)| p.starts_with("/music/Gamma/")), "deleted without a y");
    w.act(|app| app.prompt_key('y'));
    assert!(w.app.prompt.is_none());
    assert!(!w.files.iter().any(|(p, _)| p.starts_with("/music/Gamma/")), "{}", w.app.status);
}

#[test]
fn a_restart_goes_back_to_what_was_playing_not_to_the_cursor() {
    let mut w = World::new();
    let row = w.folder_row("Artist");
    w.act(|app| app.select_folder(row));
    w.wait_for_tracks();
    w.act(|app| app.enter_folder());
    w.wait_for_tracks();
    let row = w.folder_row("Late");
    w.act(|app| app.select_folder(row));
    w.wait_for_tracks();
    w.act(|app| app.play_index(1));
    let track = w.playing().expect("playing");

    // Wander: up to the root, onto another album.
    w.act(|app| app.leave_folder());
    let row = w.folder_row("Beta");
    w.act(|app| app.select_folder(row));
    w.wait_for_tracks();
    w.act(|app| app.save_settings(true));
    let text = w.settings_text.take().unwrap();

    let mut after = World::raw();
    after.restore(config::parse_settings(&text), Duration::zero());
    after.wait_for_tracks();
    after.settle_seek();
    assert_eq!(after.app.cwd, after.path("Artist"), "the folder that holds the album");
    assert_eq!(
        after.app.selected_folder().map(|f| f.label.as_str()),
        Some("Late"),
        "the cursor is on the album, not inside it"
    );
    assert!(after.app.can_leave(), "the way back up to the root is there");
    assert_eq!(after.playing(), Some(track));
    assert!(!after.paused, "{}", after.app.status);
}

#[test]
fn a_server_address_is_checked_before_it_is_kept() {
    let mut w = World::new();
    w.app.settings_file = None;
    w.reachable = false;

    w.act(|app| app.open_add_server());
    w.type_in("simple_token&192.168.0.200:7700");
    w.act(|app| app.submit_prompt());
    let hint = w.app.prompt.as_ref().map(|p| p.hint.clone()).expect("kept open");
    assert!(hint.contains('@'), "{hint}");
    assert_eq!(w.app.remote.server, None);
    w.act(|app| app.cancel_prompt());

    // Nothing answers: refused at once, kept open to fix.
    w.act(|app| app.open_add_server());
    w.type_in("tok@127.0.0.1:1");
    w.act(|app| app.submit_prompt());
    let hint = w.app.prompt.as_ref().map(|p| p.hint.clone()).expect("kept open");
    assert!(hint.contains("anyway"), "{hint}");
    assert_eq!(w.app.remote.server, None);
    w.act(|app| app.submit_prompt());
    assert!(w.app.prompt.is_none(), "a second Enter adds it anyway");
    assert_eq!(w.app.remote.server.as_deref(), Some("tuneterm://127.0.0.1:1"));
    assert_eq!(w.app.remote.token.as_deref(), Some("tok"));
}

#[test]
fn the_server_button_opens_the_field() {
    let mut w = World::new();
    let button = w.app.folder_row_count() - 1;
    w.app.folder_state.select(Some(button));
    assert!(w.app.on_server_row());
    w.act(|app| app.enter_selected());
    assert!(matches!(w.app.prompt.as_ref().map(|p| &p.kind), Some(PromptKind::Server)));
    w.act(|app| app.cancel_prompt());

    w.app.folder_state.select(Some(0));
    w.app.areas.folder_rows = rows(0, 1, 10);
    w.click(2, 1 + button as u16);
    assert!(
        matches!(w.app.prompt.as_ref().map(|p| &p.kind), Some(PromptKind::Server)),
        "one click is enough for a button"
    );
}

#[test]
fn a_server_as_the_root_browses_like_a_folder() {
    let served: Vec<(String, u64)> = two_albums()
        .iter()
        .map(|(p, t)| (p.replace(ROOT, SERVED), *t))
        .collect();
    let mut w = World::with_files(SERVER, Vec::new(), served);
    w.wait_for_tracks();
    assert_eq!(w.labels(), ["Alpha", "Artist", "Beta"]);
    assert_eq!(w.app.here(), "127.0.0.1:7700");

    let row = w.folder_row("Artist");
    w.app.folder_state.select(Some(row));
    w.act(|app| app.enter_folder());
    w.wait_for_tracks();
    assert_eq!(w.app.cwd, format!("{SERVER}/Artist"));
    assert_eq!(w.app.here(), "127.0.0.1:7700 / Artist");
    assert_eq!(w.app.tracks.len(), 2, "the first album, Early, is listed");

    w.act(|app| app.leave_folder());
    assert_eq!(w.app.selected_folder().map(|f| f.label.as_str()), Some("Artist"));
}

#[test]
fn enter_descends_and_backspace_returns_to_the_same_row() {
    let mut w = World::new();
    w.select(2); // Artist/
    w.act(|app| app.enter_folder());
    w.wait_for_tracks();
    assert_eq!(w.app.cwd, w.path("Artist"));
    assert_eq!(w.labels(), vec!["Early", "Late"]);
    assert_eq!(w.app.tracks.len(), 2, "Early is highlighted");
    assert!(w.app.can_leave());
    assert_eq!(w.app.here(), "music / Artist");

    w.act(|app| app.leave_folder());
    w.wait_for_tracks();
    assert_eq!(w.app.cwd, ROOT);
    assert_eq!(w.app.folder_state.selected, Some(2), "row restored");
    assert!(!w.app.can_leave(), "the root is the floor");
}

#[test]
fn the_up_row_shifts_folder_indices() {
    let mut w = World::new();
    assert!(w.app.shows_up_row());
    assert!(w.app.shows_server_row());
    assert_eq!(w.app.folder_row_count(), w.app.folders.len() + 2);
    assert!(w.app.folder_at(w.app.folders.len() + 1).is_none(), "the last row is the button");
    assert!(w.app.folder_at(0).is_none(), "row 0 is `..`, not a folder");
    assert_eq!(w.app.folder_at(1).map(|f| f.label.as_str()), Some("Alpha"));
    assert_eq!(w.app.folder_state.selected, Some(1), "starts on the first folder");
    assert!(!w.app.on_up_row());

    w.select(2); // Artist/
    w.act(|app| app.enter_folder());
    w.wait_for_tracks();
    assert!(w.app.shows_up_row());
    assert!(!w.app.shows_server_row(), "the button is only at the root");
    assert_eq!(w.app.folder_row_count(), w.app.folders.len() + 1);
    assert!(w.app.folder_at(0).is_none(), "row 0 is `..`, not a folder");
    assert_eq!(w.app.folder_at(1).map(|f| f.label.as_str()), Some("Early"));
    assert_eq!(w.app.folder_state.selected, Some(1), "on the first folder, not on `..`");
    assert!(!w.app.on_up_row());
}

#[test]
fn enter_on_the_up_row_climbs() {
    let mut w = World::new();
    w.select(2);
    w.act(|app| app.enter_folder());
    w.wait_for_tracks();
    assert_eq!(w.app.cwd, w.path("Artist"));

    w.app.folder_state.select(Some(0)); // `..`
    assert!(w.app.on_up_row());
    w.act(|app| app.enter_folder());
    w.wait_for_tracks();
    assert_eq!(w.app.cwd, ROOT, "Enter on `..` went up");
}

#[test]
fn the_up_row_lists_the_current_folder() {
    let mut w = World::new();
    w.select(2); // Artist/
    w.act(|app| app.enter_folder());
    w.wait_for_tracks();

    w.act(|app| app.select_folder(0)); // `..`
    w.wait_for_tracks();
    assert_eq!(w.app.listing_dir(), w.path("Artist"));
    assert_eq!(w.app.tracks.len(), 6, "both albums of the artist");
}

#[test]
fn double_clicking_a_folder_descends() {
    let mut w = World::new();
    w.app.areas.folder_rows = rows(0, 1, 10);
    w.time = 1000;
    w.click(2, 3); // row 2 == Artist/
    w.wait_for_tracks();
    assert_eq!(w.app.cwd, ROOT, "one click must not descend");

    w.time += 100;
    w.click(2, 3);
    w.wait_for_tracks();
    assert_eq!(w.app.cwd, w.path("Artist"), "two clicks descend");
}

#[test]
fn two_slow_clicks_do_not_descend() {
    let mut w = World::new();
    w.app.areas.folder_rows = rows(0, 1, 10);
    w.time = 1000;
    w.click(2, 2);
    w.time += 2000;
    w.click(2, 2);
    w.wait_for_tracks();
    assert_eq!(w.app.cwd, ROOT);
}

#[test]
fn the_double_click_window_is_four_hundred_milliseconds() {
    for (gap, descends) in [(399, true), (400, false)] {
        let mut w = World::new();
        w.app.areas.folder_rows = rows(0, 1, 10);
        w.time = 1000;
        w.click(2, 3);
        w.time += gap;
        w.click(2, 3);
        assert_eq!(w.app.can_leave(), descends, "{gap} ms");
    }
}

#[test]
fn double_clicking_the_up_row_climbs() {
    let mut w = World::new();
    w.app.areas.folder_rows = rows(0, 1, 10);
    w.select(2);
    w.act(|app| app.enter_folder());
    w.wait_for_tracks();
    assert_eq!(w.app.cwd, w.path("Artist"));

    w.time = 5000;
    w.click(2, 1); // row 0 == `..`
    w.time += 100;
    w.click(2, 1);
    w.wait_for_tracks();
    assert_eq!(w.app.cwd, ROOT);
}

#[test]
fn entering_a_leaf_moves_focus_instead() {
    let mut w = World::new();
    w.select(1); // Alpha/, files only
    w.act(|app| app.enter_folder());
    assert_eq!(w.app.cwd, ROOT, "did not descend");
    assert_eq!(w.app.focus, Pane::Tracks);
}

#[test]
fn leaving_the_root_does_nothing() {
    let mut w = World::new();
    w.act(|app| app.leave_folder());
    assert_eq!(w.app.cwd, ROOT);
}

#[test]
fn browsing_does_not_hijack_the_queue() {
    let mut w = World::new();
    w.act(|app| app.play_index(0));
    let started = w.playing();
    assert!(started.is_some(), "playback failed: {}", w.app.status);

    // Wander off to a different folder entirely.
    w.select(2);
    assert_eq!(w.app.tracks.len(), 6, "now listing the artist");
    assert_eq!(w.playing(), started, "still the same track");
    assert_eq!(w.app.playing_row(), None, "not visible in this listing");

    w.act(|app| app.next_track());
    let next = w.playing().expect("next failed");
    assert!(next.starts_with("/music/Alpha/"), "next left the queue: {next:?}");
}

#[test]
fn a_changed_folder_is_not_served_from_memory() {
    fn in_and_out_of_artist(w: &mut World) {
        w.act(|app| app.select_folder(2));
        w.wait_for_tracks();
        w.act(|app| app.enter_folder());
        w.wait_for_tracks();
        w.act(|app| app.leave_folder());
        w.wait_for_tracks();
    }
    let mut w = World::new(); // Alpha is listed, and remembered
    assert_eq!(w.app.tracks.len(), 3);

    w.files.push(("/music/Alpha/04 new.wav".to_string(), 11));
    in_and_out_of_artist(&mut w);
    w.act(|app| app.select_folder(1));
    assert!(w.app.tracks_loading, "Alpha grew, yet came from the memo");
    w.wait_for_tracks();
    assert_eq!(w.app.tracks.len(), 4);

    // Same count, newer file.
    w.files[0].1 = 99;
    in_and_out_of_artist(&mut w);
    w.act(|app| app.select_folder(1));
    assert!(w.app.tracks_loading, "a rewritten file went unnoticed");
    w.wait_for_tracks();

    // And unchanged, it is remembered again.
    in_and_out_of_artist(&mut w);
    w.act(|app| app.select_folder(1));
    assert!(!w.app.tracks_loading, "an unchanged folder was read again");
}

#[test]
fn revisiting_a_folder_is_served_from_memory() {
    let mut w = World::new();
    w.select(2);
    w.app.folder_state.select(Some(1));
    w.act(|app| app.reload_tracks());
    assert!(!w.app.tracks_loading, "Alpha should have been remembered");
    assert_eq!(w.app.tracks.len(), 3);
}

#[test]
fn a_scan_in_flight_cannot_land_on_the_folder_moved_to() {
    let mut w = World::new(); // Alpha is listed, and now remembered
    w.act(|app| app.select_folder(2)); // Artist/, the scan is in flight
    w.act(|app| app.select_folder(1)); // straight back, served from the memo
    assert_eq!(w.app.tracks.len(), 3, "Alpha, from the memo");
    w.wait_for_tracks();
    assert_eq!(w.app.tracks.len(), 3, "Artist's scan landed on Alpha");

    // And the memo still has to answer for the right folders.
    w.act(|app| app.select_folder(2));
    w.wait_for_tracks();
    assert_eq!(w.app.tracks.len(), 6, "Artist");
    w.act(|app| app.select_folder(1));
    w.wait_for_tracks();
    assert_eq!(w.app.tracks.len(), 3, "Alpha, remembered as Artist's tracks");
}

#[test]
fn the_memo_never_outgrows_its_limit() {
    let mut files = Vec::new();
    for i in 0..300 {
        files.push((format!("{ROOT}/F{i:03}/a.wav"), 1));
    }
    let mut w = World::with_files(ROOT, files, Vec::new());
    for row in 1..=300 {
        w.act(|app| app.select_folder(row));
        w.wait_for_tracks();
    }
    assert_eq!(w.app.memo.entries.len(), 256);
    assert_eq!(w.app.memo.entries[0].dir, "/music/F044");
}

// ---------------------------------------------------------------------------
// Playing
// ---------------------------------------------------------------------------

#[test]
fn starting_a_remote_track_returns_at_once() {
    let mut w = World::new();
    w.app.queue = vec![remote_track("http://127.0.0.1:9/never.mp3")];
    w.act(|app| app.play_queue_index(0));
    assert!(w.app.is_opening(), "the open should still be in flight");
    assert!(w.app.status.starts_with("opening"), "{}", w.app.status);
}

#[test]
fn a_stream_still_opening_is_not_a_finished_track() {
    let mut w = World::new();
    w.app.queue = vec![
        remote_track("http://127.0.0.1:9/one.mp3"),
        remote_track("http://127.0.0.1:9/two.mp3"),
    ];
    w.act(|app| app.play_queue_index(0));
    assert!(w.sounding.is_none(), "nothing is playing yet");
    for _ in 0..5 {
        w.act(|app| app.tick());
    }
    assert_eq!(w.app.queue_pos, Some(0), "tick walked off a track still opening");
}

#[test]
fn stopping_abandons_a_stream_that_is_still_opening() {
    let mut w = World::new();
    w.app.queue = vec![remote_track("http://127.0.0.1:9/one.mp3")];
    w.act(|app| app.play_queue_index(0));
    assert!(w.app.is_opening());
    w.act(|app| app.stop_playback());
    assert!(!w.app.is_opening(), "the open outlived the stop");
    assert_eq!(w.app.queue_pos, None);

    // And one that lands afterwards stays silent.
    let late = Opened {
        generation: w.app.open_generation,
        url: "http://127.0.0.1:9/one.mp3".to_string(),
        result: Ok(()),
    };
    w.act(|app| app.poll_open(&vec![late]));
    assert!(w.sounding.is_none());
}

#[test]
fn a_stream_that_fails_says_why() {
    let mut w = World::new();
    w.app.queue = vec![remote_track("http://127.0.0.1:9/one.mp3")];
    w.act(|app| app.play_queue_index(0));
    let failed = Opened {
        generation: w.app.open_generation,
        url: "http://127.0.0.1:9/one.mp3".to_string(),
        result: Err("refused".to_string()),
    };
    w.act(|app| app.poll_open(&vec![failed]));
    assert_eq!(w.app.status, "error: refused");
    assert_eq!(w.app.queue_pos, None);
}

#[test]
fn a_file_that_does_not_play_says_why() {
    let mut w = World::new();
    w.files.clear();
    w.act(|app| app.play_index(0));
    assert_eq!(w.app.status, "error: /music/Alpha/01 song.wav: no such file");
    assert!(!w.app.is_playing_something());
}

#[test]
fn clicking_a_track_row_selects_it_without_playing() {
    let mut w = World::new();
    w.app.areas.track_rows = rows(30, 1, 10);
    w.click(32, 3);
    assert_eq!(w.app.focus, Pane::Tracks, "focus follows the click");
    assert_eq!(w.app.track_state.selected, Some(2), "third row");
    assert!(!w.app.is_playing_something(), "one click must not start audio");
    w.time += 100;
    w.click(32, 3);
    assert_eq!(w.app.queue_pos, Some(2), "two clicks play");
}

#[test]
fn clicking_a_folder_row_switches_album() {
    let mut w = World::new();
    w.app.areas.folder_rows = rows(0, 1, 10);
    w.click(2, 3);
    w.wait_for_tracks();
    assert_eq!(w.app.focus, Pane::Folders);
    assert_eq!(w.app.folder_state.selected, Some(2), "third row");
    assert_eq!(w.app.tracks.len(), 6, "listed recursively");
}

#[test]
fn clicking_empty_space_only_moves_focus() {
    let mut w = World::new();
    w.app.areas.track_rows = rows(30, 1, 10);
    w.app.track_state.select(Some(0));
    w.click(32, 9);
    assert_eq!(w.app.focus, Pane::Tracks);
    assert_eq!(w.app.track_state.selected, Some(0), "selection unchanged");
}

#[test]
fn scroll_targets_the_pane_under_the_cursor_not_the_focused_one() {
    let mut w = World::new();
    w.app.areas.folder_rows = rows(0, 1, 10);
    w.app.areas.track_rows = rows(30, 1, 10);
    w.app.focus = Pane::Folders;
    w.act(|app| app.scroll(Position { x: 32, y: 2 }, 1));
    w.wait_for_tracks();
    assert_eq!(w.app.track_state.selected, Some(1), "tracks scrolled");
    assert_eq!(w.app.folder_state.selected, Some(1), "focused pane untouched");
}

fn fraction(w: &World, x: u16) -> f32 {
    let (part, span) = w.app.bar_fraction(x);
    f32::from(part) / f32::from(span)
}

#[test]
fn seek_bar_maps_ends_to_zero_and_one() {
    let mut w = World::new();
    w.app.areas.seek_bar = rect(20, 5, 11, 1);
    assert_eq!(fraction(&w, 20), 0.0, "left edge");
    assert_eq!(fraction(&w, 30), 1.0, "right edge");
    assert_eq!(fraction(&w, 25), 0.5, "middle");
}

#[test]
fn seek_bar_clamps_out_of_range_columns() {
    let mut w = World::new();
    w.app.areas.seek_bar = rect(20, 5, 11, 1);
    assert_eq!(fraction(&w, 0), 0.0, "left of the bar");
    assert_eq!(fraction(&w, 999), 1.0, "right of the bar");
}

#[test]
fn degenerate_seek_bar_does_not_divide_by_zero() {
    let mut w = World::new();
    w.app.areas.seek_bar = rect(4, 4, 1, 1);
    assert_eq!(fraction(&w, 4), 0.0);
}

#[test]
fn clicking_the_seek_bar_moves_the_playhead() {
    let mut w = World::new();
    w.act(|app| app.play_index(0));
    assert!(w.app.is_playing_something(), "playback failed: {}", w.app.status);
    w.app.areas.seek_bar = rect(0, 30, 11, 1);
    // Middle of the bar on a 2 s track.
    w.click(5, 30);
    w.settle_seek();
    assert!(w.effects.contains(&Effect::SeekFraction(5, 10)));
    assert_eq!(w.position, Duration::from_secs(1));
    assert_eq!(w.app.status, "seek 0:01");
}

#[test]
fn dragging_past_an_end_pins_to_it() {
    let mut w = World::new();
    w.act(|app| app.play_index(0));
    w.app.areas.seek_bar = rect(10, 30, 11, 1);
    w.act(|app| app.drag(Position { x: 200, y: 30 }));
    assert!(w.effects.contains(&Effect::SeekFraction(10, 10)));
    w.act(|app| app.drag(Position { x: 0, y: 30 }));
    assert!(w.effects.contains(&Effect::SeekFraction(0, 10)));
    let before = w.effects.len();
    w.act(|app| app.drag(Position { x: 12, y: 29 }));
    assert_eq!(w.effects.len(), before, "another row is not the bar");
}

#[test]
fn seek_by_clamps_to_the_track() {
    let mut w = World::new();
    w.act(|app| app.play_index(0));
    assert!(w.app.is_playing_something(), "playback failed: {}", w.app.status);

    w.position = Duration::from_millis(1500);
    w.act(|app| app.seek_by(-600)); // far before the start
    w.settle_seek();
    assert!(w.position.is_less(Duration::from_millis(500)), "{:?}", w.position);
    assert_eq!(w.position, Duration::zero());

    w.act(|app| app.seek_by(600)); // far past the 2 s end
    w.settle_seek();
    assert!(!w.position.is_less(Duration::from_millis(1500)), "{:?}", w.position);
    assert_eq!(w.position, Duration::from_secs(2));

    w.position = Duration::from_millis(250);
    w.act(|app| app.seek_by(1));
    w.settle_seek();
    assert_eq!(w.position, Duration::from_millis(1250));
    assert_eq!(w.app.status, "seek 0:01");
}

#[test]
fn a_session_is_saved_and_put_back() {
    let mut before = World::new();
    let row = before.folder_row("Artist");
    before.act(|app| app.select_folder(row));
    before.wait_for_tracks();
    before.act(|app| app.enter_folder());
    before.wait_for_tracks();
    let cwd = before.app.cwd.clone();
    let listing = before.app.listing_dir();
    assert_eq!(cwd, before.path("Artist"), "did not descend");
    before.act(|app| app.play_index(0));
    let track = before.playing().expect("playing");
    before.position = Duration::from_secs(1);
    before.act(|app| app.toggle_play());
    before.act(|app| app.save_settings(true));
    let settings = config::parse_settings(before.settings_text.as_ref().unwrap());
    assert_eq!(settings.session.position, ["1.0"]);

    let mut after = World::new();
    assert_eq!(after.app.cwd, ROOT);
    assert!(!after.app.is_playing_something());
    after.restore(settings, Duration::from_secs(1));
    after.wait_for_tracks();
    assert_eq!(after.app.cwd, cwd, "did not come back to the folder");
    assert_eq!(after.app.listing_dir(), listing, "lost the highlighted row");
    assert!(after.app.can_leave(), "the trail was not rebuilt, Backspace is dead");
    assert_eq!(after.playing(), Some(track), "did not come back: {}", after.app.status);
    assert!(after.paused, "a restored track must not start itself");
    after.settle_seek();
    assert_eq!(after.position, Duration::from_secs(1));
    assert!(after.paused);
}

#[test]
fn a_track_that_was_paused_comes_back_paused() {
    let mut before = World::new();
    before.act(|app| app.play_index(0));
    before.act(|app| app.toggle_play());
    assert!(before.paused, "did not pause");
    before.act(|app| app.save_settings(true));
    let settings = config::parse_settings(before.settings_text.as_ref().unwrap());
    assert!(!settings.session.playing);

    let mut after = World::new();
    after.restore(settings, Duration::zero());
    after.wait_for_tracks();
    after.settle_seek();
    assert!(after.app.is_playing_something(), "{}", after.app.status);
    assert!(after.paused, "started itself: {}", after.app.status);
}

#[test]
fn a_restored_track_is_only_let_go_once_the_playhead_has_moved() {
    let mut w = World::new();
    let session = Session {
        folder: Some(w.path("Alpha")),
        track: Some(w.path("Alpha/01 song.wav")),
        playing: true,
        ..blank_session()
    };
    w.restore(with_session(session), Duration::from_millis(900));
    w.wait_for_tracks();
    assert!(w.paused, "played before it had seeked");
    w.settle_seek();
    assert!(!w.paused, "never let go: {}", w.app.status);
    assert_eq!(w.position, Duration::from_millis(900));
    assert_eq!(w.app.status, "01 song — resumed at 0:00");
}

#[test]
fn a_track_restored_at_the_start_needs_no_seek_to_begin() {
    let mut w = World::new();
    let session = Session {
        folder: Some(w.path("Alpha")),
        track: Some(w.path("Alpha/01 song.wav")),
        playing: true,
        ..blank_session()
    };
    w.restore(with_session(session), Duration::zero());
    w.wait_for_tracks();
    assert!(w.app.is_playing_something());
    assert!(!w.paused, "waiting on a seek it never asked for");
}

#[test]
fn a_folder_outside_the_root_is_ignored() {
    let mut w = World::new();
    let session = Session { folder: Some("/somewhere/else".to_string()), ..blank_session() };
    w.restore(with_session(session), Duration::zero());
    assert_eq!(w.app.cwd, ROOT, "walked out of the root");
    assert!(!w.app.can_leave());
}

#[test]
fn a_deleted_folder_restores_as_far_as_it_can() {
    let mut w = World::new();
    let session = Session { folder: Some(w.path("Artist/Gone")), ..blank_session() };
    w.restore(with_session(session), Duration::zero());
    assert_eq!(w.app.cwd, w.path("Artist"), "{}", w.app.status);
}

#[test]
fn the_tab_and_feed_come_back() {
    let mut w = World::new();
    w.app.feeds = vec![
        Feed { name: "first".to_string(), url: "https://example.com/a.xml".to_string() },
        Feed { name: "second".to_string(), url: TEST_FEED.to_string() },
    ];
    let session = Session {
        tab: Some("feeds".to_string()),
        feed: Some(TEST_FEED.to_string()),
        ..blank_session()
    };
    w.restore(with_session(session), Duration::zero());
    assert_eq!(w.app.tab, Tab::Feeds);
    assert_eq!(w.app.selected_feed().map(|f| f.url.as_str()), Some(TEST_FEED));
}

#[test]
fn a_feed_that_is_gone_leaves_the_cursor_alone() {
    let mut w = World::new();
    let first = w.app.feeds.first().map(|f| f.url.clone());
    let session = Session {
        tab: Some("feeds".to_string()),
        feed: Some("https://example.com/deleted.xml".to_string()),
        ..blank_session()
    };
    w.restore(with_session(session), Duration::zero());
    assert_eq!(w.app.selected_feed().map(|f| f.url.clone()), first);
}

#[test]
fn the_resume_does_not_lie_in_wait() {
    let mut w = World::new();
    // A track that is not in the folder the player opens on.
    let session = Session { track: Some(w.path("Beta/01 song.wav")), ..blank_session() };
    w.restore(with_session(session), Duration::from_secs(1));
    w.wait_for_tracks();
    assert!(!w.app.is_playing_something(), "resumed the wrong folder");

    // Now browse to where that track actually is: still nothing must start.
    let row = w.folder_row("Beta");
    w.act(|app| app.select_folder(row));
    w.wait_for_tracks();
    assert!(!w.app.is_playing_something(), "started by itself: {}", w.app.status);
}

#[test]
fn a_position_past_the_end_starts_the_track_over() {
    let mut w = World::new();
    let session = Session {
        folder: Some(w.path("Alpha")),
        track: Some(w.path("Alpha/01 song.wav")),
        ..blank_session()
    };
    // The tracks are 2s long.
    w.restore(with_session(session), Duration::from_secs(600));
    w.wait_for_tracks();
    assert!(w.app.is_playing_something(), "{}", w.app.status);
    assert!(w.seeks.is_empty());
    assert_eq!(w.position, Duration::zero());
}

#[test]
fn an_empty_session_changes_nothing() {
    let mut w = World::new();
    w.restore(Settings::new(), Duration::zero());
    w.wait_for_tracks();
    assert_eq!(w.app.cwd, ROOT);
    assert_eq!(w.app.tab, Tab::Local);
    assert!(!w.app.shuffle);
    assert!(!w.app.is_playing_something());
}

#[test]
fn shuffle_survives_a_restart() {
    let mut before = World::new();
    before.act(|app| app.toggle_shuffle());
    before.act(|app| app.save_settings(true));
    let settings = config::parse_settings(before.settings_text.as_ref().unwrap());
    let mut after = World::new();
    after.restore(settings, Duration::zero());
    assert!(after.app.shuffle);
}

#[test]
fn quitting_records_where_the_playhead_actually_got_to() {
    let mut w = World::new();
    w.act(|app| app.play_index(0));
    w.act(|app| app.save_settings(true));
    let early = config::parse_settings(w.settings_text.as_ref().unwrap()).session.position;
    assert!(early.is_empty());
    w.position = Duration::from_millis(1100);
    w.act(|app| app.save_settings(true));
    let saved = config::parse_settings(w.settings_text.as_ref().unwrap()).session.position;
    assert_eq!(saved, ["1.1"]);
}

#[test]
fn playing_on_its_own_earns_a_write() {
    let mut w = World::new();
    w.act(|app| app.play_index(0));
    w.act(|app| app.save_settings(true));
    w.settings_text = None;

    // Short of a second is not worth a write; past it is.
    w.position = Duration::from_millis(999);
    w.act(|app| app.tick());
    w.act(|app| app.save_position());
    assert!(w.settings_text.is_none());
    w.position = Duration::from_millis(1200);
    w.act(|app| app.tick());
    w.act(|app| app.save_position());
    let saved = config::parse_settings(w.settings_text.as_ref().unwrap()).session.position;
    assert_eq!(saved, ["1.2"], "a moving playhead owes a write and nobody noticed");
}

#[test]
fn an_idle_pass_writes_nothing() {
    let mut w = World::new();
    w.act(|app| app.tick());
    w.act(|app| app.save_position());
    w.act(|app| app.save_settings(false));
    assert!(w.settings_text.is_none(), "wrote with nothing to say");

    // Quitting is not an idle pass.
    w.act(|app| app.save_settings(true));
    assert!(w.settings_text.is_some(), "quitting recorded nothing");
}

#[test]
fn a_write_waits_until_the_session_has_settled() {
    let mut w = World::new();
    w.time = 1000;
    w.act(|app| app.toggle_shuffle());
    w.time = 1399;
    w.act(|app| app.save_settings(false));
    assert!(w.settings_text.is_none(), "wrote before it had settled");
    w.time = 1400;
    w.act(|app| app.save_settings(false));
    assert!(w.settings_text.is_some());
}

#[test]
fn shuffle_plays_the_whole_queue_exactly_once() {
    let mut w = World::new();
    w.act(|app| app.select_folder(2)); // Artist
    w.wait_for_tracks();
    let total = w.app.tracks.len();
    assert!(total >= 4, "need a few tracks to shuffle, got {total}");
    w.act(|app| app.toggle_shuffle());
    w.act(|app| app.play_index(0));

    let mut heard = vec![w.app.queue_pos.expect("playing")];
    for _ in 1..total {
        w.act(|app| app.next_track());
        heard.push(w.app.queue_pos.expect("still playing"));
    }
    // Used up, so on into the next folder rather than round this one again.
    w.act(|app| app.next_track());
    assert_eq!(w.app.following_into, Some(w.path("Beta")));

    let mut seen = heard.clone();
    seen.sort_unstable();
    seen.dedup();
    assert_eq!(seen.len(), total, "a track was repeated or skipped: {heard:?}");
    assert_eq!(heard[0], 0, "the track you started stays the one playing");
}

#[test]
fn the_whole_library_takes_in_the_server() {
    let mut w = World::with_files(ROOT, two_albums(), served_two());
    w.wait_for_tracks();
    w.act(|app| app.open_add_server());
    w.type_in("k@127.0.0.1:7700");
    w.act(|app| app.submit_prompt());
    w.wait_for_tracks();
    assert!(w.app.memo.entries.iter().any(|m| m.dir == "/music/Alpha"), "Alpha was listed");

    w.act(|app| app.select_folder(0));
    w.wait_for_tracks();
    let far = format!("{SERVER}/Gamma/01 far.wav");
    let there = format!("{SERVER}/Alpha/01 there.wav");
    assert_eq!(w.app.tracks.len(), 12, "eleven here and Gamma's one");
    assert_eq!(w.app.tracks.last().map(|t| &t.path), Some(&far), "in folder order");
    assert!(!w.app.tracks.iter().any(|t| t.path == there), "Alpha is the local one");
    assert!(
        w.app.memo.entries.iter().any(|m| m.dir == "/music/Artist"),
        "folders listed on the way are remembered"
    );
}

#[test]
fn stars_are_kept_on_the_server_and_seen_by_every_player() {
    let served = vec![
        ("/served/Gamma/01 far.wav".to_string(), 7),
        ("/served/Gamma/02 near.wav".to_string(), 7),
    ];
    let mut w = World::with_files(ROOT, two_albums(), served);
    w.wait_for_tracks();
    w.act(|app| app.open_add_server());
    w.type_in("k@127.0.0.1:7700");
    w.act(|app| app.submit_prompt());
    w.wait_for_tracks();
    let row = w.folder_row("Gamma");
    w.act(|app| app.select_folder(row));
    w.wait_for_tracks();
    assert_eq!(w.app.tracks[0].stars, None);

    // Two stars for the playing track, clicked under the cover.
    w.act(|app| app.play_index(0));
    w.wait_for_open();
    w.app.areas.star_one = rect(10, 20, 2, 1);
    w.app.areas.star_two = rect(12, 20, 2, 1);
    w.app.areas.star_three = rect(14, 20, 2, 1);
    w.click(13, 20);
    assert_eq!(w.app.now_playing().and_then(|t| t.stars), Some(2), "{}", w.app.status);
    assert_eq!(w.app.tracks[0].stars, Some(2), "the list agrees");
    assert_eq!(w.app.status, "★★☆ Gamma/01 far.wav");

    // Three for the second track, clicked in its row of the list.
    w.app.areas.track_rows = rows(30, 1, 10);
    w.app.areas.track_star_x = Some(35);
    w.click(37, 2);
    assert_eq!(w.app.tracks[1].stars, Some(3), "{}", w.app.status);
    let far = w.tracks(&format!("{SERVER}/Gamma")).unwrap();
    let stars: Vec<_> = far.iter().map(|t| t.stars).collect();
    assert_eq!(stars, [Some(2), Some(3)]);

    // The same star again takes them away.
    w.click(13, 20);
    assert_eq!(w.app.now_playing().and_then(|t| t.stars), None);
}

#[test]
fn a_local_track_takes_no_stars() {
    let mut w = World::new();
    w.act(|app| app.play_index(0));
    w.act(|app| app.cycle_rating());
    assert_eq!(w.app.now_playing().and_then(|t| t.stars), None);
    assert_eq!(w.app.status, "stars are for tracks on the server");
}

#[test]
fn stars_are_drawn_filled_and_hollow() {
    assert_eq!(stars_text(None), "☆☆☆");
    assert_eq!(stars_text(Some(2)), "★★☆");
    assert_eq!(stars_text(Some(3)), "★★★");
}

#[test]
fn the_up_row_at_the_root_lists_everything() {
    let mut w = World::new();
    w.act(|app| app.select_folder(0));
    w.wait_for_tracks();
    assert_eq!(w.app.listing_dir(), ROOT);
    assert_eq!(w.app.tracks.len(), 11, "Alpha, both albums of Artist, Beta");

    // Enter there has nowhere to climb to, so it goes to the tracks.
    w.act(|app| app.enter_folder());
    assert_eq!(w.app.cwd, ROOT);
    assert_eq!(w.app.focus, Pane::Tracks);
}

#[test]
fn a_finished_folder_runs_on_into_the_next() {
    let mut w = World::new(); // on Alpha, three tracks
    w.act(|app| app.play_index(2));
    w.act(|app| app.next_track());
    w.wait_for_follow();
    let playing = w.playing().expect("stopped at the end of Alpha");
    assert!(playing.starts_with("/music/Artist/Early/"), "{playing:?}");
    assert_eq!(w.app.selected_folder().map(|f| f.label.as_str()), Some("Artist"));
}

#[test]
fn running_on_climbs_out_and_stops_at_the_end() {
    let mut w = World::new();
    w.act(|app| app.select_folder(2)); // Artist/
    w.wait_for_tracks();
    w.act(|app| app.enter_folder()); // on Early
    w.wait_for_tracks();

    w.act(|app| app.play_index(1)); // Early's last
    w.act(|app| app.next_track());
    w.wait_for_follow();
    let playing = w.playing().expect("stopped after Early");
    assert!(playing.starts_with("/music/Artist/Late/"), "{playing:?}");

    w.app.queue_pos = Some(w.app.queue.len() - 1); // Late's last
    w.act(|app| app.next_track());
    w.wait_for_follow();
    let playing = w.playing().expect("stopped after Artist");
    assert!(playing.starts_with("/music/Beta/"), "{playing:?}");

    w.app.queue_pos = Some(w.app.queue.len() - 1); // Beta's last, and the library's
    w.act(|app| app.next_track());
    assert!(!w.app.is_playing_something());
    assert_eq!(w.app.status, "end of queue");
}

#[test]
fn the_shuffle_actually_shuffles() {
    const N: usize = 200;
    let mut w = World::new();
    w.app.queue = (0..N).map(|_| w.app.tracks[0].copy()).collect();
    w.act(|app| app.reshuffle_from(None));
    let order = w.app.shuffle_order.clone();
    assert_ne!(order, (0..N).collect::<Vec<_>>(), "the listing order came back untouched");
    let mut sorted = order;
    sorted.sort_unstable();
    assert_eq!(sorted, (0..N).collect::<Vec<_>>(), "not a permutation");
}

#[test]
fn shuffle_walks_backwards_the_way_it_came() {
    let mut w = World::new();
    w.act(|app| app.toggle_shuffle());
    w.act(|app| app.play_index(0));
    w.act(|app| app.next_track());
    let second = w.app.queue_pos.expect("advanced");
    w.act(|app| app.next_track());
    w.act(|app| app.prev_track());
    assert_eq!(w.app.queue_pos, Some(second));
    w.act(|app| app.prev_track());
    assert_eq!(w.app.queue_pos, Some(0), "back to where it started");
}

#[test]
fn turning_shuffle_on_does_not_interrupt_the_track() {
    let mut w = World::new();
    w.act(|app| app.play_index(1));
    let playing = w.playing();
    w.act(|app| app.toggle_shuffle());
    assert!(w.app.shuffle);
    assert_eq!(w.playing(), playing);
    assert_eq!(w.app.queue_pos, Some(1));

    // And off again leaves the listing order intact.
    w.act(|app| app.toggle_shuffle());
    assert!(!w.app.shuffle);
    w.act(|app| app.next_track());
    assert_eq!(w.app.queue_pos, Some(2));
}

#[test]
fn clicking_the_shuffle_button_toggles_it() {
    let mut w = World::new();
    w.app.areas.shuffle = rect(40, 31, 12, 1);
    w.click(45, 31);
    assert!(w.app.shuffle, "{}", w.app.status);
    w.click(45, 31);
    assert!(!w.app.shuffle, "{}", w.app.status);
}

#[test]
fn seeking_without_playback_is_harmless() {
    let mut w = World::new();
    w.app.areas.seek_bar = rect(0, 30, 11, 1);
    w.click(5, 30);
    w.act(|app| app.seek_by(10));
    assert!(!w.app.is_playing_something());
    assert!(!w.effects.iter().any(|e| matches!(e, Effect::Seek(_) | Effect::SeekFraction(_, _))));
}

#[test]
fn transport_buttons_route_by_area() {
    let mut w = World::new();
    w.app.areas.prev = rect(0, 20, 7, 3);
    w.app.areas.play = rect(7, 20, 10, 3);
    w.app.areas.next = rect(17, 20, 7, 3);
    w.app.areas.track_rows = rect(30, 1, 10, 10);

    // Next with nothing playing starts at the top of the folder.
    w.click(20, 21);
    assert_eq!(w.app.playing_row(), Some(0), "next started playback");
    w.click(20, 21);
    assert_eq!(w.app.playing_row(), Some(1), "next advanced");
    w.click(3, 21);
    assert_eq!(w.app.playing_row(), Some(0), "prev went back");
    assert_eq!(w.app.focus, Pane::Folders, "focus unchanged by transport");
}

#[test]
fn media_commands_do_what_they_say() {
    let mut w = World::new();
    w.act(|app| app.media_command(Command::Play));
    assert_eq!(w.app.queue_pos, Some(0), "play starts what is highlighted");
    w.act(|app| app.media_command(Command::Pause));
    assert!(w.paused);
    w.act(|app| app.media_command(Command::Pause));
    assert!(w.paused, "pausing twice is pausing once");
    w.act(|app| app.media_command(Command::Play));
    assert!(!w.paused);
    w.act(|app| app.media_command(Command::Next));
    assert_eq!(w.app.queue_pos, Some(1));
    w.act(|app| app.media_command(Command::Previous));
    assert_eq!(w.app.queue_pos, Some(0));
    w.act(|app| app.media_command(Command::Toggle));
    assert!(w.paused);
    w.act(|app| app.media_command(Command::SeekBy(-5)));
    assert!(w.effects.contains(&Effect::Seek(Duration::zero())));
    let at = Duration::from_secs(1);
    w.act(|app| app.media_command(Command::SetPosition(at)));
    assert!(w.effects.contains(&Effect::SeekPosition(at)));
    w.act(|app| app.media_command(Command::Stop));
    assert!(!w.app.is_playing_something());
}

#[test]
fn only_news_is_published() {
    let mut w = World::new();
    w.act(|app| app.publish_now_playing());
    assert_eq!(w.effects.iter().filter(|e| **e == Effect::Publish).count(), 1);
    w.act(|app| app.publish_now_playing());
    assert_eq!(w.effects.iter().filter(|e| **e == Effect::Publish).count(), 1);
    w.act(|app| app.play_index(0));
    w.position = Duration::from_millis(1999);
    w.act(|app| app.publish_now_playing());
    let now = w.app.published.as_ref().unwrap();
    assert_eq!(now.title, "01 song");
    assert_eq!(now.elapsed, Duration::from_secs(1), "rounded off to the second");
    assert!(now.playing);
}

// ---------------------------------------------------------------------------
// Covers
// ---------------------------------------------------------------------------

fn cover(w: &mut World, size: Option<(u32, u32)>) {
    let generation = w.app.cover.generation;
    w.act(|app| app.poll_cover(&vec![CoverReply { generation, size, file: None }]));
}

#[test]
fn playing_does_not_wait_for_the_cover() {
    let mut w = World::new();
    w.app.areas.art = rect(0, 0, 30, 15);
    w.act(|app| app.play_index(0));
    assert!(w.app.is_playing_something(), "playback started: {}", w.app.status);
    assert!(w.app.cover.pending, "cover handed to the worker, not awaited");
    assert!(!w.app.cover.shown, "nothing drawn yet");
    assert_eq!(w.app.cover.requested, (300, 300));
}

#[test]
fn rapid_switching_keeps_one_request_and_the_right_answer() {
    let mut w = World::new();
    w.app.areas.art = rect(0, 0, 30, 15);
    for _ in 0..12 {
        w.act(|app| app.next_track());
        w.wait_for_follow();
    }
    let landed_on = w.app.playing_row();

    // A late answer to an earlier request is not the answer.
    let stale = w.app.cover.generation - 1;
    let late = CoverReply { generation: stale, size: Some((9, 9)), file: None };
    w.act(|app| app.poll_cover(&vec![late]));
    assert!(w.app.cover.pending);
    cover(&mut w, None);
    assert_eq!(w.app.playing_row(), landed_on, "playback did not move on its own");
    assert!(!w.app.cover.pending, "worker never answered");
    assert!(!w.app.cover.shown);
}

#[test]
fn a_resized_pane_refetches_but_a_nudge_does_not() {
    let mut w = World::new();
    w.app.areas.art = rect(0, 0, 30, 15);
    w.act(|app| app.play_index(0));
    cover(&mut w, None);

    // One column at 10 px per cell is inside the 16 px slack.
    w.app.areas.art = rect(0, 0, 31, 15);
    w.act(|app| app.refresh_cover_for_resize());
    assert!(!w.app.cover.pending, "a one-column nudge must not refetch");

    w.app.areas.art = rect(0, 0, 10, 5);
    w.act(|app| app.refresh_cover_for_resize());
    assert!(w.app.cover.pending, "shrinking must refetch");
    cover(&mut w, None);

    w.app.areas.art = rect(0, 0, 90, 45);
    w.act(|app| app.refresh_cover_for_resize());
    assert!(w.app.cover.pending, "growing must refetch");
}

#[test]
fn an_album_keeps_its_picture_from_track_to_track() {
    let mut w = World::new();
    w.app.areas.art = rect(0, 0, 30, 15);
    w.act(|app| app.play_index(0));
    cover(&mut w, Some((300, 280)));
    assert!(w.app.cover.shown);
    w.act(|app| app.next_track());
    assert!(w.app.cover.shown, "the same album");
    assert_eq!(w.app.cover.size, Some((300, 280)));
    w.select(3); // Beta
    w.act(|app| app.play_index(0));
    assert!(!w.app.cover.shown, "another album");
}

// ---------------------------------------------------------------------------
// Scrolling, tabs, feeds
// ---------------------------------------------------------------------------

#[test]
fn a_scroll_burst_leaves_nothing_owed() {
    let mut w = World::new();
    w.app.areas.folder_rows = rows(0, 1, 10);
    // The server button is the last row at the root.
    let last = w.app.folder_row_count() - 1;
    for _ in 0..200 {
        w.act(|app| app.scroll(Position { x: 2, y: 2 }, 1));
    }
    assert_eq!(w.app.folder_state.selected, Some(last), "pinned to the end");
    w.act(|app| app.scroll(Position { x: 2, y: 2 }, -1));
    assert_eq!(w.app.folder_state.selected, Some(last - 1), "one event back is one row back");
}

#[test]
fn a_track_scroll_burst_leaves_nothing_owed() {
    let mut w = World::new();
    w.app.areas.track_rows = rows(30, 1, 10);
    let last = w.app.tracks.len() - 1;
    for _ in 0..200 {
        w.act(|app| app.scroll(Position { x: 32, y: 2 }, 1));
    }
    assert_eq!(w.app.track_state.selected, Some(last));
    for _ in 0..2 {
        w.act(|app| app.scroll(Position { x: 32, y: 2 }, -1));
    }
    assert_eq!(w.app.track_state.selected, Some(last - 2));
}

#[test]
fn scrolling_an_empty_list_is_harmless() {
    let mut w = World::with_files(ROOT, Vec::new(), Vec::new());
    assert_eq!(w.app.status, "no audio found under /music");
    w.app.areas.folder_rows = rows(0, 1, 10);
    w.app.areas.track_rows = rows(30, 1, 10);
    w.act(|app| app.scroll(Position { x: 2, y: 2 }, 1));
    w.act(|app| app.scroll(Position { x: 32, y: 2 }, -1));
    assert!(w.app.folders.is_empty() && w.app.tracks.is_empty());
}

#[test]
fn clicking_a_tab_switches_source() {
    let mut w = World::new();
    // One strip per tab, laid out as the renderer would.
    w.app.areas.local_tab = rect(1, 0, 7, 1);
    w.app.areas.feeds_tab = rect(9, 0, 7, 1);
    w.app.areas.radio_tab = rect(17, 0, 7, 1);
    assert_eq!(w.app.tab, Tab::Local, "local by default");
    for (x, tab) in [(2, Tab::Local), (10, Tab::Feeds), (18, Tab::Radio)] {
        w.click(x, 0);
        assert_eq!(w.app.tab, tab, "clicking {tab:?}");
    }
}

#[test]
fn switching_tabs_keeps_playing() {
    let mut w = World::new();
    w.act(|app| app.play_index(0));
    let playing = w.playing();
    assert!(playing.is_some(), "playback failed: {}", w.app.status);
    for tab in [Tab::Local, Tab::Feeds, Tab::Radio] {
        w.act(|app| app.select_tab(tab));
        assert_eq!(w.playing(), playing, "playback survives {tab:?}");
        assert!(w.app.is_playing_something(), "{tab:?}");
        assert!(w.sounding.is_some());
    }
}

#[test]
fn a_hidden_pane_takes_no_clicks() {
    let mut w = World::new();
    let before = w.app.folder_state.selected;
    w.app.areas.folder_rows = Rect::zero();
    w.app.areas.track_rows = Rect::zero();
    w.click(2, 3);
    w.click(32, 3);
    assert_eq!(w.app.folder_state.selected, before, "selection untouched");
    assert!(!w.app.is_playing_something());
}

#[test]
fn adding_a_feed_through_the_prompt_persists_it() {
    let mut w = feeds_world();
    w.app.areas.add = rect(0, 4, 18, 1);
    w.click(3, 4);
    assert!(w.app.prompt.is_some(), "the button opens the field");
    for ch in "https://example.com/p.xml".chars() {
        assert!(w.act(|app| app.prompt_key(ch)), "keys go to the field");
    }
    w.act(|app| app.submit_prompt());
    assert!(w.app.prompt.is_none(), "closed on success");
    assert_eq!(w.app.feeds.len(), 2);
    assert_eq!(w.app.feeds[1].url, "https://example.com/p.xml");
    assert_eq!(w.app.feeds[1].name, "example.com", "named after its host");
    assert_eq!(w.app.feed_state.selected, Some(1), "cursor follows the new entry");
    let saved = config::parse(w.feeds_text.as_ref().unwrap());
    assert_eq!(saved, w.app.feeds, "written to disk");
}

#[test]
fn a_bad_url_keeps_the_field_open_with_a_reason() {
    let mut w = feeds_world();
    w.act(|app| app.open_add_feed());
    w.type_in("example.com/p.xml");
    w.act(|app| app.submit_prompt());
    let prompt = w.app.prompt.as_ref().expect("still open");
    assert!(prompt.hint.contains("http"), "says why: {}", prompt.hint);
    assert_eq!(prompt.input, "example.com/p.xml", "input kept");
    assert_eq!(w.app.feeds.len(), 1, "nothing added");
}

#[test]
fn a_duplicate_is_refused_without_losing_the_list() {
    let mut w = feeds_world();
    w.act(|app| app.open_add_feed());
    w.type_in(TEST_FEED);
    w.act(|app| app.submit_prompt());
    assert!(w.app.prompt.as_ref().unwrap().hint.contains("already"));
    assert_eq!(w.app.feeds.len(), 1);
}

#[test]
fn escape_cancels_without_adding() {
    let mut w = feeds_world();
    w.act(|app| app.open_add_feed());
    w.type_in("https://example.com/x.xml");
    w.act(|app| app.cancel_prompt());
    assert!(w.app.prompt.is_none());
    assert_eq!(w.app.feeds.len(), 1);
}

#[test]
fn submitting_nothing_closes_the_field() {
    let mut w = feeds_world();
    w.act(|app| app.open_add_feed());
    w.act(|app| app.submit_prompt());
    assert!(w.app.prompt.is_none());
    assert_eq!(w.app.feeds.len(), 1);
}

#[test]
fn backspace_edits_the_field() {
    let mut w = feeds_world();
    w.act(|app| app.open_add_feed());
    w.type_in("abc");
    w.act(|app| app.prompt_backspace());
    assert_eq!(w.app.prompt.as_ref().unwrap().input, "ab");
    w.act(|app| app.prompt_backspace());
    w.act(|app| app.prompt_backspace());
    w.act(|app| app.prompt_backspace()); // one too many
    assert_eq!(w.app.prompt.as_ref().unwrap().input, "");
}

#[test]
fn an_open_field_swallows_clicks() {
    let mut w = feeds_world();
    w.app.areas.local_tab = rect(1, 0, 7, 1);
    w.act(|app| app.open_add_feed());
    w.click(3, 0);
    assert_eq!(w.app.tab, Tab::Feeds, "the tab click did not go through");
    assert!(w.app.prompt.is_some(), "and the field is still open");
}

#[test]
fn removing_a_feed_persists_and_moves_the_cursor() {
    let mut w = feeds_world();
    w.app.feeds.push(Feed {
        name: "example.com".to_string(),
        url: "https://example.com/p.xml".to_string(),
    });
    w.app.feed_state.select(Some(1));
    w.act(|app| app.remove_selected_feed());
    assert_eq!(w.app.feeds.len(), 1);
    assert_eq!(w.app.feed_state.selected, Some(0), "cursor stayed in range");
    assert_eq!(config::parse(w.feeds_text.as_ref().unwrap()), w.app.feeds);

    w.act(|app| app.remove_selected_feed());
    assert!(w.app.feeds.is_empty());
    assert_eq!(w.app.feed_state.selected, None, "nothing left to point at");
}

#[test]
fn feeds_are_not_saved_without_a_place_for_them() {
    let mut w = feeds_world();
    w.app.feeds_file = None;
    w.act(|app| app.remove_selected_feed());
    assert_eq!(w.app.status, "no config directory: feeds not saved");
    assert!(w.feeds_text.is_none());
}

#[test]
fn focus_decides_which_list_the_arrows_move() {
    let mut w = feeds_world();
    w.app.feeds.push(Feed {
        name: "example.com".to_string(),
        url: "https://example.com/p.xml".to_string(),
    });
    w.app.feed_state.select(Some(0));
    w.app.focus = Pane::Folders;
    w.act(|app| app.move_selection(1));
    assert_eq!(w.app.feed_state.selected, Some(1), "feed list moved");

    // Changing feed clears the episode list, so stand one in afterwards.
    w.app.tracks = World::new().app.tracks;
    assert!(w.app.tracks.len() >= 3, "need episodes to move through");
    w.app.track_state.select(Some(0));
    w.app.focus = Pane::Tracks;
    w.act(|app| app.move_selection(1));
    assert_eq!(w.app.track_state.selected, Some(1), "episodes moved");
    assert_eq!(w.app.feed_state.selected, Some(1), "feed list untouched");

    w.act(|app| app.focus_next());
    assert_eq!(w.app.focus, Pane::Folders);
    w.act(|app| app.move_selection(-1));
    assert_eq!(w.app.feed_state.selected, Some(0));
}

#[test]
fn enter_moves_from_the_feed_to_its_episodes() {
    let mut w = feeds_world();
    w.app.focus = Pane::Folders;
    w.act(|app| app.enter_selected());
    assert_eq!(w.app.focus, Pane::Tracks);
}

#[test]
fn clicking_a_feed_row_takes_focus() {
    let mut w = feeds_world();
    w.app.areas.feed_rows = rows(0, 1, 10);
    w.app.areas.track_rows = rows(30, 1, 10);
    w.app.focus = Pane::Tracks;
    w.click(2, 1);
    assert_eq!(w.app.focus, Pane::Folders);
}

fn episode(title: &str, url: &str) -> Episode {
    Episode {
        title: title.to_string(),
        author: String::new(),
        url: url.to_string(),
        duration: None,
        art_url: None,
    }
}

fn archive() -> Channel {
    Channel {
        title: "Archive".to_string(),
        episodes: vec![
            episode("Episode 3", "https://example.com/3.mp3"),
            episode("Episode 2", "https://example.com/2.mp3"),
            episode("Episode 1", "https://example.com/1.mp3"),
        ],
    }
}

#[test]
fn episodes_are_listed_oldest_first() {
    let tracks = library::tracks_from_feed(&archive());
    let titles: Vec<&str> = tracks.iter().map(|t| t.title.as_str()).collect();
    assert_eq!(titles, vec!["Episode 1", "Episode 2", "Episode 3"]);
    assert_eq!(tracks[0].artist, "Archive", "the channel stands in for an author");
}

#[test]
fn a_fetched_feed_fills_the_list() {
    let mut w = feeds_world();
    let generation = w.app.fetch_generation;
    assert!(w.app.feed_loading);
    w.act(|app| app.poll_feed(&vec![(generation, Ok(archive()))]));
    assert!(!w.app.feed_loading);
    assert_eq!(w.app.tracks.len(), 3);
    assert_eq!(w.app.status, "Archive: 3 episodes");
    w.act(|app| app.poll_feed(&vec![(generation + 1, Err("gone".to_string()))]));
    assert_eq!(w.app.tracks.len(), 3, "a reply nobody asked for");
    w.act(|app| app.poll_feed(&vec![(generation, Err("gone".to_string()))]));
    assert_eq!(w.app.status, "feed failed: gone");
    assert!(w.app.tracks.is_empty());
}

#[test]
fn a_fetched_feed_takes_its_channel_name() {
    let mut w = feeds_world();
    w.app.feeds[0].name = config::host_of(TEST_FEED); // as adding it leaves it
    w.act(|app| app.adopt_channel_title("Music For Programming"));
    assert_eq!(w.app.feeds[0].name, "Music For Programming");
    assert_eq!(
        config::parse(w.feeds_text.as_ref().unwrap())[0].name,
        "Music For Programming",
        "and it is remembered"
    );
}

#[test]
fn a_chosen_name_is_not_overwritten() {
    let mut w = feeds_world();
    w.app.feeds[0].name = "My Mixes".to_string();
    w.act(|app| app.adopt_channel_title("Something Else"));
    assert_eq!(w.app.feeds[0].name, "My Mixes");
}

#[test]
fn click_outside_panes_is_ignored() {
    let mut w = World::new();
    w.app.areas.folder_rows = rows(0, 1, 10);
    w.app.areas.track_rows = rows(30, 1, 10);
    w.click(200, 200);
    assert_eq!(w.app.focus, Pane::Folders, "unchanged");
    assert!(!w.app.is_playing_something());
}

#[test]
fn a_click_closes_the_key_list_and_nothing_else() {
    let mut w = World::new();
    w.app.show_keys = true;
    w.app.areas.shuffle = rect(40, 31, 12, 1);
    w.click(45, 31);
    assert!(!w.app.show_keys);
    assert!(!w.app.shuffle);
}

// ---------------------------------------------------------------------------
// Refusals
// ---------------------------------------------------------------------------

#[test]
fn a_name_with_a_slash_is_refused() {
    let mut w = World::new();
    for bad in ["a/b", "..", ".", "  ", "a\\b"] {
        w.act(|app| app.ask_rename());
        w.app.prompt.as_mut().unwrap().input = bad.to_string();
        w.act(|app| app.submit_prompt());
        let hint = &w.app.prompt.as_ref().unwrap().hint;
        assert_eq!(hint, "a name, without / — to put it elsewhere, use m", "{bad:?}");
    }
}

#[test]
fn a_path_that_climbs_is_refused() {
    let mut w = World::new();
    for bad in ["..", "a/../b", "a//b", "/", ""] {
        w.act(|app| app.ask_relocate());
        w.app.prompt.as_mut().unwrap().input = bad.to_string();
        w.act(|app| app.submit_prompt());
        let hint = &w.app.prompt.as_ref().unwrap().hint;
        assert_eq!(hint, "a path like Artist/Album, from the top of the library", "{bad:?}");
    }
}

#[test]
fn a_folder_does_not_go_into_itself() {
    let mut w = World::new();
    w.act(|app| app.ask_relocate());
    w.app.prompt.as_mut().unwrap().input = "Alpha/Inside".to_string();
    w.act(|app| app.submit_prompt());
    let hint = &w.app.prompt.as_ref().unwrap().hint;
    assert_eq!(hint, "cannot move a folder into itself");
}

#[test]
fn the_library_itself_is_not_deleted() {
    let mut w = World::new();
    let files = w.files.len();
    w.act(|app| app.delete(ROOT));
    assert_eq!(
        w.app.status,
        "could not delete music: refusing to delete the library itself"
    );
    assert_eq!(w.files.len(), files);
}

#[test]
fn a_server_that_does_not_answer_leaves_the_local_folders_standing() {
    let mut w = World::new();
    w.app.remote = Remote { server: Some(SERVER.to_string()), token: None };
    w.reachable = false;
    w.act(|app| app.relist_root());
    assert_eq!(w.labels(), ["Alpha", "Artist", "Beta"]);
    assert_eq!(w.app.status, "server: server unreachable: refused");
}

#[test]
fn a_move_needs_a_server() {
    let mut w = World::new();
    w.act(|app| app.move_selected());
    assert_eq!(w.app.status, "no server yet: a adds one");
    w.act(|app| app.toggle_transfer_log());
    assert_eq!(w.app.status, "nothing has been moved yet");
}

#[test]
fn a_move_that_stops_says_how_far_it_got() {
    let mut m = Move::new("Beta", "tuneterm://nas", "Beta");
    assert_eq!(m.title, "Beta → nas:7700");
    assert_eq!(m.name("Beta/01.wav"), "01.wav");
    assert_eq!(m.name("Beta"), "Beta");
    m.end("Beta", &Some("/Beta/02.wav: gone".to_string()), Ok(1), 1, 2);
    assert!(m.failed);
    assert_eq!(m.finished.as_deref(), Some("move stopped after 1 of 2 files"));
    assert_eq!(m.log.len(), 2);

    let mut m = Move::new("Beta", "tuneterm://nas", "Beta");
    m.end("Beta", &Some("refused".to_string()), Ok(0), 0, 2);
    assert_eq!(m.finished.as_deref(), Some("move failed; nothing was deleted"));

    let mut m = Move::new("Beta", "tuneterm://nas", "Beta");
    m.end("Beta", &None, Err("busy".to_string()), 2, 2);
    assert!(m.failed);
    assert_eq!(m.finished.as_deref(), Some("uploaded, but could not delete here: busy"));
}

#[test]
fn the_log_of_a_move_is_bounded() {
    let mut m = Move::new("Beta", "tuneterm://nas", "Beta");
    for i in 0..600 {
        m.note(LogLine::Note(format!("{i}")));
    }
    assert_eq!(m.log.len(), 500);
    assert_eq!(m.log[0], LogLine::Note("100".to_string()));

    // One that grew past it some other way is cut back at once.
    m.log = (0..700).map(|i| LogLine::Note(format!("{i}"))).collect();
    m.note(LogLine::Failed("last".to_string()));
    assert_eq!(m.log.len(), 500);
    assert_eq!(m.log[0], LogLine::Note("201".to_string()));
    assert_eq!(m.log[499], LogLine::Failed("last".to_string()));
}

#[test]
fn selecting_nothing_shows_a_list_from_the_top() {
    let mut state = ListState::new(Some(4));
    state.offset = 3;
    state.select(Some(5));
    assert_eq!(state.offset, 3);
    state.select(None);
    assert_eq!(state.offset, 0);
}

#[test]
fn a_parcel_knows_both_ends() {
    let found = remote::walk("/music/Artist", &tree(&two_albums(), "/music/Artist")).unwrap();
    let parcels: Vec<Parcel> = remote::parcels(&found, "/Artist/");
    assert_eq!(parcels.len(), 6);
    assert_eq!(parcels[0].local, "/music/Artist/Early/01 song.wav");
    assert_eq!(parcels[0].remote, "Artist/Early/01 song.wav");
}

// ---------------------------------------------------------------------------
// The screen
// ---------------------------------------------------------------------------

fn draw(w: &mut World) -> Playing {
    let panes = Panes::of(rect(0, 0, 110, 32));
    w.app.place_panes(&panes);
    let art = w.app.areas.art;
    let playing = Playing::of(panes.right, (art.width, art.height), 14);
    w.app.place_controls(&playing);
    playing
}

/// The play button must land somewhere clickable.
#[test]
fn control_areas_are_recorded() {
    let mut w = World::new();
    draw(&mut w);
    for (name, area) in [
        ("play", w.app.areas.play),
        ("prev", w.app.areas.prev),
        ("next", w.app.areas.next),
        ("seek", w.app.areas.seek_bar),
    ] {
        assert!(area.width > 0 && area.height > 0, "{name} not laid out");
    }
}

#[test]
fn renders_all_three_panes() {
    let mut w = World::new();
    let names: Vec<(String, String)> =
        w.app.folder_lines().into_iter().map(|l| (l.name, l.note)).collect();
    let line = |name: &str, note: &str| (name.to_string(), note.to_string());
    assert_eq!(
        names,
        [
            line("..", ""),
            line("Alpha/", "3 ♪"),
            line("Artist/", "6 ♪"),
            line("Beta/", "2 ♪"),
            line("+ Add server", ""),
        ]
    );
    assert_eq!(names.len(), w.app.folder_row_count());

    assert_eq!(w.app.info_lines()[0], "Nothing playing");
    w.act(|app| app.play_index(1));
    let lines = w.app.track_lines();
    assert_eq!(lines.len(), 3);
    assert_eq!((lines[0].marker, lines[1].marker), (" ", "▶"));
    assert_eq!((lines[1].number.as_str(), lines[1].title.as_str()), (" 2", "02 song"));
    assert_eq!(lines[1].time, "0:02");
    assert!(lines[1].playing && !lines[0].playing);
    assert_eq!(w.app.info_lines()[0], "02 song");
    assert!(help_keys().contains(&("q", "quit")));
    assert!(help_keys().contains(&("⏎", "open")));
    assert_eq!(cover_caption(true), "loading…");
    assert_eq!(cover_caption(false), "no cover");
    assert_eq!(
        progress_label(true, Duration::from_secs(1), Some(Duration::from_secs(2))),
        "0:01 / 0:02 "
    );
}

#[test]
fn what_is_drawn_is_what_is_clicked() {
    let mut w = World::new();
    draw(&mut w);
    let rows = w.app.areas.folder_rows;
    w.click(rows.x + 1, rows.y + 2);
    assert_eq!(w.app.selected_folder().map(|f| f.label.as_str()), Some("Artist"));
    let feeds = w.app.areas.feeds_tab;
    w.click(feeds.x, feeds.y);
    assert_eq!(w.app.tab, Tab::Feeds);

    // The folder rows are gone with their pane.
    draw(&mut w);
    assert_eq!(w.app.areas.folder_rows, Rect::zero());
    assert_eq!(w.app.areas.feed_rows.height, 1);
    let lines = w.app.feed_lines();
    assert_eq!(lines.len(), 2);
    assert_eq!(lines[0].note, "✕");
    assert_eq!(lines[1].name, "+ Add feed");
    assert_eq!(w.app.feeds_note(), " a add · d remove · 1 feeds ");
    let add = w.app.areas.add;
    w.click(add.x, add.y);
    assert!(w.app.prompt.is_some());
    w.act(|app| app.cancel_prompt());
    let remove = w.app.areas.remove;
    w.click(remove.x, remove.y);
    assert!(w.app.feeds.is_empty());

    w.act(|app| app.select_tab(Tab::Radio));
    draw(&mut w);
    assert_eq!(w.app.areas.track_rows, Rect::zero());
    assert!(w.app.areas.local_tab.width > 0);
}

#[test]
fn the_log_panel_shows_what_is_on_its_way() {
    let mut w = World::new();
    let mut m = Move::new("Beta", "tuneterm://nas", "Beta");
    assert!(w.app.transfer_view(&m, 0, &Vec::new()).is_none(), "nothing to show");
    w.app.transfer = Some(Transfer { visible: true, settled: false });
    m.report(&Step::Plan { files: 2, bytes: 300 });
    m.report(&Step::Start { remote: "Beta/01.wav".to_string(), size: 100 });
    let view = w.app.transfer_view(&m, 120, &vec![150]).unwrap();
    assert_eq!(view.sending, [("01.wav".to_string(), 100, 100)]);
    assert_eq!((view.bytes_done, view.bytes, view.left), (120, 300, Some(180)));
    m.end("Beta", &None, Ok(2), 2, 2);
    let view = w.app.transfer_view(&m, 300, &Vec::new()).unwrap();
    assert_eq!(view.left, None);
    assert!(view.sending.is_empty() && !view.failed);
    assert_eq!(view.finished.as_deref(), Some("moved Beta to the server: 2 files"));
}

#[test]
fn tabs_are_saved_by_name() {
    for tab in [Tab::Local, Tab::Feeds, Tab::Radio] {
        assert_eq!(Tab::from_key(tab.key()), Some(tab));
    }
    assert_eq!(Tab::from_key("elsewhere"), None);
    assert_eq!(Tab::Radio.placeholder(), ["not built yet", "", "see PLAN.md"]);
}

#[test]
fn what_could_not_be_saved_is_said() {
    let mut w = World::new();
    w.act(|app| app.settings_unsaved("disk full"));
    assert_eq!(w.app.status, "could not save settings: disk full");
    w.act(|app| app.feeds_unsaved("disk full"));
    assert_eq!(w.app.status, "could not save feeds: disk full");
    w.app.transfer = Some(Transfer { visible: true, settled: false });
    w.act(|app| app.move_unstarted("no threads left"));
    assert_eq!(w.app.status, "error: no threads left");
    assert!(!w.app.is_moving());
}

#[test]
fn server_things_are_renamed_and_deleted() {
    let mut w = World::with_files(ROOT, two_albums(), served_two());
    w.wait_for_tracks();
    w.act(|app| app.open_add_server());
    w.type_in("k@127.0.0.1:7700");
    w.act(|app| app.submit_prompt());
    w.wait_for_tracks();

    let row = w.folder_row("Gamma");
    w.act(|app| app.select_folder(row));
    w.wait_for_tracks();
    w.act(|app| app.ask_rename());
    assert_eq!(w.app.prompt.as_ref().map(|p| p.input.as_str()), Some("Gamma"));
    if let Some(prompt) = w.app.prompt.as_mut() {
        prompt.input = "Delta".to_string();
    }
    w.act(|app| app.submit_prompt());
    assert!(w.app.prompt.is_none(), "{}", w.app.status);
    assert!(w.served.iter().any(|(p, _)| p == "/served/Delta/01 far.wav"));
    assert!(w.labels().contains(&"Delta"), "{:?}", w.labels());

    let row = w.folder_row("Delta");
    w.act(|app| app.select_folder(row));
    w.act(|app| app.ask_delete());
    w.act(|app| app.prompt_key('y'));
    assert!(w.app.prompt.is_none());
    assert!(!w.served.iter().any(|(p, _)| p.starts_with("/served/Delta/")), "{}", w.app.status);
    assert!(!w.labels().contains(&"Delta"));
}
