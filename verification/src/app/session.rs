//! Starting, and putting the player back where the last session left it.

use vstd::prelude::*;
use crate::app::{
    feeds_of, folders_of, memo_of, tracks_of, trail_of, trail_view, App, AppV, Areas, Ask, AskV,
    Audio, Cover, CoverV, Pane, Restoring, RestoringV, Resume, ResumeV, Tab, Why,
};
use crate::app::browse::lesser;
use crate::app::playback::rows_view;
use crate::config::{
    feeds_view, Feed, FeedV, Remote, RemoteV, Session, SessionV, Settings, SettingsV,
};
use crate::feed::copy_opt;
use crate::library::{
    self, find_folder, find_towards, folder_place, folder_towards, folders_view, Folder, FolderV,
};
use crate::memo::{is_memo, Memo};
use crate::paths::{self, below, inside, parent, same_path, slash};
use crate::queue::Rng;
use crate::remote::{self, connection, endpoint_refusal, has_scheme, uri_of, Server};
use crate::text::{self, decimal, joined, opt_view, views};
use crate::time::Duration;
use crate::ui::ListState;

verus! {

/// Which of the places a session names are still on this disk.
#[derive(Debug, Clone, Copy, PartialEq, Eq, Structural)]
pub struct Present {
    pub folder: bool,
    pub selected: bool,
    pub queue: bool,
    pub track: bool,
}

/// Where the feed at `url` is; the length when it is not listed.
pub open spec fn feed_place(feeds: Seq<FeedV>, url: Seq<char>) -> nat
    decreases feeds.len(),
{
    if feeds.len() == 0 || feeds[0].url == url {
        0
    } else {
        1 + feed_place(feeds.skip(1), url)
    }
}

/// Where the feed at `url` is.
pub fn find_feed(feeds: &Vec<Feed>, url: &str) -> (r: Option<usize>)
    ensures
        match r {
            Some(i) => i < feeds@.len() && i == feed_place(feeds_view(feeds@), url@),
            None => feed_place(feeds_view(feeds@), url@) == feeds@.len(),
        },
{
    let ghost all = feeds_view(feeds@);
    let mut i: usize = 0;
    assert(all.skip(0) =~= all);
    while i < feeds.len()
        invariant
            i <= feeds@.len(),
            all == feeds_view(feeds@),
            feed_place(all, url@) == i + feed_place(all.skip(i as int), url@),
        decreases feeds@.len() - i,
    {
        assert(all.skip(i as int)[0] == feeds@[i as int]@);
        if text::same(feeds[i].url.as_str(), url) {
            return Some(i);
        }
        assert(all.skip(i as int).skip(1) =~= all.skip(i as int + 1));
        i = i + 1;
    }
    assert(all.skip(i as int).len() == 0);
    None
}

/// Where a local path went if it was moved to the server: the same place under the
/// server's address. Unchanged if it is still here, is not in this library, or there
/// is no server.
pub open spec fn on_server_if_moved(
    root: Seq<char>,
    server: Option<Seq<char>>,
    path: Seq<char>,
    present: bool,
) -> Seq<char> {
    match server {
        None => path,
        Some(server) => if present || has_scheme(path) {
            path
        } else {
            match below(path, root) {
                None => path,
                Some(rest) => {
                    let rel = joined(rest, slash());
                    if rel.len() == 0 {
                        path
                    } else {
                        server + "/"@ + rel
                    }
                },
            }
        },
    }
}

/// The same for a path that may not be there.
pub open spec fn moved(
    root: Seq<char>,
    server: Option<Seq<char>>,
    path: Option<Seq<char>>,
    present: bool,
) -> Option<Seq<char>> {
    match path {
        Some(p) => Some(on_server_if_moved(root, server, p, present)),
        None => None,
    }
}

fn if_moved(root: &str, remote: &Remote, path: Option<String>, present: bool) -> (r: Option<String>)
    ensures
        opt_view(r) == moved(root@, remote@.server, opt_view(path), present),
{
    let path = match path {
        Some(path) => path,
        None => {
            return None;
        },
    };
    let server = match &remote.server {
        Some(server) => server,
        None => {
            return Some(path);
        },
    };
    if present || remote::is_remote(path.as_str()) {
        return Some(path);
    }
    match paths::relative(path.as_str(), root) {
        None => Some(path),
        Some(rel) => {
            if rel.as_str().is_empty() {
                Some(path)
            } else {
                Some(text::cat3(server.as_str(), "/", rel.as_str()))
            }
        },
    }
}

/// What a session asks to be put back, with everything that went to the server found
/// there.
///
/// Back to what was playing, not to wherever the cursor had wandered: the queue's
/// folder, highlighted in the folder that holds it. Tracks lying loose in the root
/// have no row of their own, so there the cursor goes back where it was.
pub open spec fn restoring_from(
    root: Seq<char>,
    remote: RemoteV,
    session: SessionV,
    position: Duration,
    present: Present,
) -> RestoringV {
    let folder = moved(root, remote.server, session.folder, present.folder);
    let selected = moved(root, remote.server, session.selected, present.selected);
    let queue = moved(root, remote.server, session.queue, present.queue);
    let track = moved(root, remote.server, session.track, present.track);
    let to_queue = track is Some && (queue matches Some(q) && !same_path(q, root) && parent(
        q,
    ) is Some);
    RestoringV {
        folder: if to_queue {
            parent(queue->0)
        } else {
            folder
        },
        selected: if to_queue {
            queue
        } else {
            selected
        },
        feed: session.feed,
        tab: session.tab,
        resume: match track {
            Some(t) => Some(ResumeV { track: t, position, playing: session.playing }),
            None => None,
        },
        cwd: root,
        trail: seq![],
    }
}

impl AppV {
    /// Put back where the last session left off. Everything in it is a hint: each step
    /// checks, and anything that no longer holds is dropped rather than reported.
    #[verifier::opaque]
    pub open spec fn restored(
        self,
        settings: SettingsV,
        refusal: Option<Seq<char>>,
        position: Duration,
        present: Present,
    ) -> AppV {
        let a = AppV {
            remote: settings.remote,
            shuffle: settings.shuffle,
            restoring: Some(
                restoring_from(self.root, settings.remote, settings.session, position, present),
            ),
            ..self
        };
        match (settings.remote.server, refusal) {
            (Some(_), Some(why)) => a.saying("server: "@ + why).descending(),
            (Some(_), None) => if same_path(a.cwd, a.root) {
                a.relisting()
            } else {
                a.descending()
            },
            (None, _) => a.descending(),
        }
    }

    /// On the way back down to the folder that was listed — only ever inside the root
    /// or on the server: a remembered path from a different library has no business
    /// overriding what this run is browsing.
    #[verifier::opaque]
    pub open spec fn descending(self) -> AppV {
        match self.restoring {
            None => self,
            Some(r) => match r.folder {
                Some(folder) => if inside(folder, self.root) || has_scheme(folder) {
                    self.asking_for(self.root, Why::Descend)
                } else {
                    self.session_restored()
                },
                None => self.session_restored(),
            },
        }
    }

    /// One level of the way down has been listed: on into the row that leads towards
    /// the folder, or no further when it has gone.
    #[verifier::opaque]
    pub open spec fn descended(self, rows: Seq<FolderV>) -> AppV {
        match self.restoring {
            None => self,
            Some(r) => match r.folder {
                None => self,
                Some(folder) => {
                    let at = folder_towards(rows, folder) as int;
                    if !same_path(r.cwd, folder) && at < rows.len() {
                        AppV {
                            restoring: Some(
                                RestoringV {
                                    cwd: rows[at].path,
                                    trail: r.trail.push((r.cwd, (at + 1) as usize)),
                                    ..r
                                },
                            ),
                            ..self
                        }.asking_for(rows[at].path, Why::Descend)
                    } else {
                        self.settled(r, rows).session_restored()
                    }
                },
            },
        }
    }

    /// In the deepest folder that still exists, on the row that was highlighted there,
    /// and on the first real row when it has gone.
    #[verifier::opaque]
    pub open spec fn settled(self, r: RestoringV, rows: Seq<FolderV>) -> AppV {
        let a = AppV { cwd: r.cwd, trail: r.trail, folders: rows, ..self };
        let first = if rows.len() > 0 {
            1int
        } else {
            0
        };
        let row = match r.selected {
            Some(p) => if same_path(p, r.cwd) {
                0
            } else {
                let at = folder_place(rows, p) as int;
                if at < rows.len() {
                    at + 1
                } else {
                    first
                }
            },
            None => first,
        };
        AppV { folder_state: ListState::on(lesser(row, a.row_count() - 1)), ..a }
    }

    /// With the feed, the tab and what was playing put back.
    #[verifier::opaque]
    pub open spec fn session_put(self, r: RestoringV) -> AppV {
        let at = match r.feed {
            Some(url) => feed_place(self.feeds, url),
            None => self.feeds.len(),
        };
        AppV {
            restoring: None,
            feed_state: if at < self.feeds.len() {
                self.feed_state.with(Some(at as usize))
            } else {
                self.feed_state
            },
            tab: match r.tab {
                Some(key) => match Tab::keyed(key) {
                    Some(tab) => tab,
                    None => self.tab,
                },
                None => self.tab,
            },
            resume: r.resume,
            ..self
        }
    }

    /// The rest of the session. Whichever tab it is on fills its own list, and only
    /// that one.
    #[verifier::opaque]
    pub open spec fn session_restored(self) -> AppV {
        match self.restoring {
            None => self,
            Some(r) => {
                let c = self.session_put(r);
                let d = match c.tab {
                    Tab::Local => c.reloading(),
                    Tab::Feeds => c.feed_reloading(),
                    Tab::Radio => c,
                };
                if !d.tracks_loading && !d.feed_loading {
                    d.resuming()
                } else {
                    d
                }
            },
        }
    }

    /// What there is to write about the session.
    pub open spec fn session(self, position: Seq<Seq<char>>) -> SessionV {
        SessionV {
            tab: Some(self.tab.key_text()),
            folder: Some(self.cwd),
            selected: Some(self.listing_dir()),
            feed: match self.selected_feed() {
                Some(f) => Some(f.url),
                None => None,
            },
            track: match self.now_playing() {
                Some(t) => Some(t.path),
                None => None,
            },
            queue: match self.now_playing() {
                Some(_) => self.queue_dir,
                None => None,
            },
            position,
            playing: self.queue_pos is Some && !self.audio.paused,
        }
    }

    /// A player that has just been started on `root`.
    pub open spec fn fresh(
        root: Seq<char>,
        listed: Result<Seq<FolderV>, Seq<char>>,
        loose: bool,
        feeds: Seq<FeedV>,
        feeds_file: Option<Seq<char>>,
        settings_file: Option<Seq<char>>,
        seed: u64,
        clock: Duration,
    ) -> AppV {
        let folders = match listed {
            Ok(rows) => rows,
            Err(_) => seq![],
        };
        let status = match listed {
            Err(why) => "error: "@ + why,
            Ok(rows) => if rows.len() == 0 && !has_scheme(root) && !loose {
                "no audio found under "@ + root
            } else {
                decimal(rows.len()) + " folders"@
            },
        };
        AppV {
            root,
            tab: Tab::Local,
            cwd: root,
            folders,
            trail: seq![],
            tracks: seq![],
            folder_state: ListState::on(
                if folders.len() > 0 {
                    1
                } else {
                    0
                },
            ),
            track_state: ListState::fresh(),
            focus: Pane::Folders,
            queue: seq![],
            queue_pos: None,
            queue_dir: None,
            tracks_dir: None,
            tracks_loading: false,
            scan_generation: 0,
            follow_generation: 0,
            following_into: None,
            after: None,
            open_generation: 0,
            opening: None,
            memo: seq![],
            cover: CoverV {
                shown: false,
                size: None,
                pending: false,
                file: None,
                memo: None,
                generation: 0,
                requested: (0, 0),
            },
            audio: Audio { paused: false, finished: true, position: Duration::nothing() },
            shuffle: false,
            shuffle_order: seq![],
            rng: seed | 1,
            settings_file,
            remote: RemoteV { server: None, token: None },
            transfer: None,
            moving: None,
            settings_dirty: None,
            saved_position: Duration::nothing(),
            resume: None,
            resume_at: None,
            resume_playing: false,
            restoring: None,
            areas: Areas::blank(),
            feeds,
            feed_state: ListState::on(0),
            feeds_file,
            prompt: None,
            fetch_generation: 0,
            fetched_url: None,
            feed_loading: false,
            last_click: None,
            published: None,
            status,
            should_quit: false,
            show_keys: false,
            clock,
            asking: AskV::Nothing,
            effects: seq![],
        }
    }
}

impl Restoring {
    pub fn copy(&self) -> (r: Restoring)
        ensures
            r@ == self@,
    {
        let resume = match &self.resume {
            Some(x) => Some(
                Resume { track: x.track.clone(), position: x.position, playing: x.playing },
            ),
            None => None,
        };
        Restoring {
            folder: copy_opt(&self.folder),
            selected: copy_opt(&self.selected),
            feed: copy_opt(&self.feed),
            tab: copy_opt(&self.tab),
            resume,
            cwd: self.cwd.clone(),
            trail: copy_trail(&self.trail),
        }
    }
}

impl App {
    /// A player on `root`, given what is there: its folders, and whether any audio lies
    /// loose beside them. The cursor starts on the first folder rather than on `..`,
    /// which at the root would read the whole library before anything was asked of it.
    pub fn new(
        root: String,
        listed: Result<Vec<Folder>, String>,
        loose: bool,
        feeds: Vec<Feed>,
        feeds_file: Option<String>,
        settings_file: Option<String>,
        seed: u64,
        clock: Duration,
    ) -> (app: App)
        requires
            listed matches Ok(rows) ==> rows@.len() <= usize::MAX - 2,
        ensures
            app@.wf(),
            app@ == AppV::fresh(
                root@,
                rows_view(listed),
                loose,
                feeds_view(feeds@),
                opt_view(feeds_file),
                opt_view(settings_file),
                seed,
                clock,
            ).reloading(),
    {
        let ghost lv = rows_view(listed);
        let ghost want = AppV::fresh(
            root@,
            lv,
            loose,
            feeds_view(feeds@),
            opt_view(feeds_file),
            opt_view(settings_file),
            seed,
            clock,
        );
        let (folders, status) = match listed {
            Ok(rows) => {
                let n: usize = rows.len();
                let status = if n == 0 && !remote::is_remote(root.as_str()) && !loose {
                    text::cat2("no audio found under ", root.as_str())
                } else {
                    let count = text::print(n as u64);
                    text::cat2(count.as_str(), " folders")
                };
                (rows, status)
            },
            Err(why) => {
                let none: Vec<Folder> = Vec::new();
                assert(folders_view(none@) =~= seq![]);
                (none, text::cat2("error: ", why.as_str()))
            },
        };
        let row: usize = if folders.len() > 0 {
            1
        } else {
            0
        };
        let rng = Rng::new(seed);
        let mut app = App {
            cwd: root.clone(),
            root,
            tab: Tab::Local,
            folders,
            trail: Vec::new(),
            tracks: Vec::new(),
            folder_state: ListState::new(Some(row)),
            track_state: ListState::new(None),
            focus: Pane::Folders,
            queue: Vec::new(),
            queue_pos: None,
            queue_dir: None,
            tracks_dir: None,
            tracks_loading: false,
            scan_generation: 0,
            follow_generation: 0,
            following_into: None,
            after: None,
            open_generation: 0,
            opening: None,
            memo: Memo::new(),
            cover: Cover {
                shown: false,
                size: None,
                pending: false,
                file: None,
                memo: None,
                generation: 0,
                requested: (0, 0),
            },
            audio: Audio { paused: false, finished: true, position: Duration::zero() },
            shuffle: false,
            shuffle_order: Vec::new(),
            rng,
            settings_file,
            remote: Remote::none(),
            transfer: None,
            moving: None,
            settings_dirty: None,
            saved_position: Duration::zero(),
            resume: None,
            resume_at: None,
            resume_playing: false,
            restoring: None,
            areas: Areas::new(),
            feeds,
            feed_state: ListState::new(Some(0)),
            feeds_file,
            prompt: None,
            fetch_generation: 0,
            fetched_url: None,
            feed_loading: false,
            last_click: None,
            published: None,
            status,
            should_quit: false,
            show_keys: false,
            clock,
            asking: Ask::Nothing,
            effects: Vec::new(),
        };
        proof {
            reveal(folders_of);
            reveal(tracks_of);
            reveal(feeds_of);
            reveal(trail_of);
            reveal(memo_of);
            reveal(is_memo);
            assert(app@.trail =~= want.trail);
            assert(app@.tracks =~= want.tracks);
            assert(app@.queue =~= want.queue);
            assert(app@.memo =~= want.memo);
            assert(app@.shuffle_order =~= want.shuffle_order);
            assert(app@.effects =~= want.effects);
            assert(app@ == want);
        }
        app.reload_tracks();
        app
    }

    /// Put the player back where the last session left it: what the settings hold, the
    /// playhead they come to, and which of the places they name are still there.
    ///
    /// A step the caller takes rather than something [`App::new`] does for itself, so
    /// that building a player never depends on what is in the user's files.
    pub fn restore(&mut self, settings: Settings, position: Duration, present: Present)
        requires
            old(self)@.wf(),
        ensures
            final(self)@.wf(),
            final(self)@ == old(self)@.restored(
                settings@,
                match settings@.remote.server {
                    Some(server) => match connection(
                        server,
                        settings@.remote.token,
                        endpoint_refusal(uri_of(server)),
                    ) {
                        Ok(_) => None,
                        Err(why) => Some(why),
                    },
                    None => None,
                },
                position,
                present,
            ),
    {
        let refusal = match &settings.remote.server {
            Some(server) => {
                let token = match &settings.remote.token {
                    Some(token) => Some(token.as_str()),
                    None => None,
                };
                match Server::connect(server.as_str(), token) {
                    Ok(_) => None,
                    Err(why) => Some(why),
                }
            },
            None => None,
        };
        self.restore_given(settings, refusal, position, present);
    }

    /// The same, given why the server cannot be connected to, if it cannot.
    pub fn restore_given(
        &mut self,
        settings: Settings,
        refusal: Option<String>,
        position: Duration,
        present: Present,
    )
        requires
            old(self)@.wf(),
        ensures
            final(self)@.wf(),
            final(self)@ == old(self)@.restored(
                settings@,
                opt_view(refusal),
                position,
                present,
            ),
    {
        proof {
            reveal(AppV::restored);
        }
        let ghost s = self@;
        let ghost sv = settings@;
        let session = settings.session;
        let remote = settings.remote;
        let root = self.root.clone();
        let mut folder = if_moved(root.as_str(), &remote, session.folder, present.folder);
        let mut selected = if_moved(root.as_str(), &remote, session.selected, present.selected);
        let queue = if_moved(root.as_str(), &remote, session.queue, present.queue);
        let track = if_moved(root.as_str(), &remote, session.track, present.track);
        if track.is_some() {
            if let Some(q) = queue {
                if !paths::same(q.as_str(), root.as_str()) {
                    if let Some(p) = paths::parent_of(q.as_str()) {
                        folder = Some(p);
                        selected = Some(q);
                    }
                }
            }
        }
        let resume = match track {
            Some(track) => Some(Resume { track, position, playing: session.playing }),
            None => None,
        };
        let restoring = Restoring {
            folder,
            selected,
            feed: session.feed,
            tab: session.tab,
            resume,
            cwd: root,
            trail: Vec::new(),
        };
        let ghost rv = restoring_from(s.root, sv.remote, sv.session, position, present);
        proof {
            assert(restoring@.trail =~= rv.trail);
            assert(restoring@ == rv);
        }
        let served = remote.server.is_some();
        self.remote = remote;
        self.shuffle = settings.shuffle;
        self.restoring = Some(restoring);
        let ghost a = AppV {
            remote: sv.remote,
            shuffle: sv.shuffle,
            restoring: Some(rv),
            ..s
        };
        assert(self@ == a);
        if served {
            match refusal {
                Some(why) => {
                    self.say(text::cat2("server: ", why.as_str()));
                    assert(self@ == a.saying("server: "@ + why@));
                    self.descend();
                },
                None => {
                    if paths::same(self.cwd.as_str(), self.root.as_str()) {
                        self.relist_root();
                    } else {
                        self.descend();
                    }
                },
            }
        } else {
            self.descend();
        }
    }

    /// Start back down towards the folder that was listed.
    pub fn descend(&mut self)
        requires
            old(self)@.wf(),
        ensures
            final(self)@ == old(self)@.descending(),
            final(self)@.wf(),
    {
        proof {
            reveal(AppV::descending);
        }
        let allowed = match &self.restoring {
            None => {
                return;
            },
            Some(r) => match &r.folder {
                Some(folder) => paths::is_inside(folder.as_str(), self.root.as_str())
                    || remote::is_remote(folder.as_str()),
                None => false,
            },
        };
        if allowed {
            let root = self.root.clone();
            self.asking = Ask::List { dir: root, why: Why::Descend };
        } else {
            self.finish_restore();
        }
    }

    /// One level of the way down has been listed.
    pub fn descended(&mut self, rows: Vec<Folder>)
        requires
            old(self)@.wf(),
            rows@.len() <= usize::MAX - 2,
        ensures
            final(self)@ == old(self)@.descended(folders_view(rows@)),
            final(self)@.wf(),
    {
        proof {
            reveal(AppV::descended);
        }
        let ghost s = self@;
        let ghost rv = folders_view(rows@);
        let r = match &self.restoring {
            None => {
                return;
            },
            Some(r) => r.copy(),
        };
        let ghost was = r@;
        let folder = match &r.folder {
            None => {
                return;
            },
            Some(folder) => folder.clone(),
        };
        if !paths::same(r.cwd.as_str(), folder.as_str()) {
            if let Some(at) = find_towards(&rows, folder.as_str()) {
                let next = rows[at].path.clone();
                assert(rv[at as int].path == next@);
                let mut r = r;
                let ghost t0 = trail_view(r.trail@);
                // The row, not the index: every level carries a `..`.
                r.trail.push((r.cwd.clone(), at + 1));
                r.cwd = next.clone();
                proof {
                    assert(trail_view(r.trail@) =~= t0.push((was.cwd, (at + 1) as usize)));
                    assert(r@ == (RestoringV {
                        cwd: next@,
                        trail: was.trail.push((was.cwd, (at + 1) as usize)),
                        ..was
                    }));
                }
                let ghost now = r@;
                self.restoring = Some(r);
                assert(self@ == (AppV { restoring: Some(now), ..s }));
                self.asking = Ask::List { dir: next, why: Why::Descend };
                return;
            }
        }
        self.settle(&r, rows);
        self.finish_restore();
    }

    fn settle(&mut self, r: &Restoring, rows: Vec<Folder>)
        requires
            old(self)@.wf(),
            rows@.len() <= usize::MAX - 2,
        ensures
            final(self)@ == old(self)@.settled(r@, folders_view(rows@)),
            final(self)@.wf(),
            final(self)@.restoring == old(self)@.restoring,
    {
        proof {
            reveal(AppV::settled);
            reveal(trail_of);
            reveal(folders_of);
        }
        let ghost s = self@;
        let ghost rv = folders_view(rows@);
        let first: usize = if rows.len() > 0 {
            1
        } else {
            0
        };
        // `..` lists the folder itself, so that is the row that was on it.
        let row: usize = match &r.selected {
            Some(p) => if paths::same(p.as_str(), r.cwd.as_str()) {
                0
            } else {
                match find_folder(&rows, p.as_str()) {
                    Some(at) => at + 1,
                    None => first,
                }
            },
            None => first,
        };
        self.cwd = r.cwd.clone();
        self.trail = copy_trail(&r.trail);
        self.folders = rows;
        let ghost a = AppV { cwd: r@.cwd, trail: r@.trail, folders: rv, ..s };
        assert(self@ == a);
        let n: usize = self.folder_row_count();
        let row: usize = if row <= n - 1 {
            row
        } else {
            n - 1
        };
        self.folder_state = ListState::new(Some(row));
    }

    fn put_session(&mut self, r: Restoring)
        ensures
            final(self)@ == old(self)@.session_put(r@),
            final(self)@.browsing() == old(self)@.browsing(),
    {
        proof {
            reveal(AppV::session_put);
            reveal(feeds_of);
        }
        self.restoring = None;
        if let Some(url) = &r.feed {
            if let Some(at) = find_feed(&self.feeds, url.as_str()) {
                self.feed_state.select(Some(at));
            }
        }
        if let Some(key) = &r.tab {
            if let Some(tab) = Tab::from_key(key.as_str()) {
                self.tab = tab;
            }
        }
        self.resume = r.resume;
    }

    fn finish_restore(&mut self)
        requires
            old(self)@.wf(),
        ensures
            final(self)@ == old(self)@.session_restored(),
            final(self)@.wf(),
    {
        proof {
            reveal(AppV::session_restored);
        }
        let ghost s = self@;
        let r = match &self.restoring {
            None => {
                return;
            },
            Some(r) => r.copy(),
        };
        let ghost c = s.session_put(r@);
        self.put_session(r);
        assert(self@ == c);
        match self.tab {
            Tab::Local => {
                self.reload_tracks();
                assert(self@ == c.reloading());
            },
            Tab::Feeds => {
                self.reload_feed();
                assert(self@ == c.feed_reloading());
            },
            Tab::Radio => {},
        }
        // Reloading is skipped when the listing wanted is the one already on screen.
        // That leaves nothing that would spend the resume, and one that is never spent
        // goes off later, when browsing happens to walk past its track.
        if !self.tracks_loading && !self.feed_loading {
            self.try_resume();
        }
    }

    /// The settings to write, given the volume and the playhead as they are written.
    pub fn settings(&self, volume: String, position: Vec<String>) -> (r: Settings)
        ensures
            r@ == (SettingsV {
                volume: seq![volume@],
                shuffle: self@.shuffle,
                session: self@.session(views(position@)),
                remote: self@.remote,
            }),
    {
        let playing = self.now_playing();
        let track = match playing {
            Some(t) => Some(t.path.clone()),
            None => None,
        };
        let queue = match playing {
            Some(_) => copy_opt(&self.queue_dir),
            None => None,
        };
        let feed = match self.selected_feed() {
            Some(f) => Some(f.url.clone()),
            None => None,
        };
        let mut volumes: Vec<String> = Vec::new();
        volumes.push(volume);
        assert(views(volumes@) =~= seq![volume@]);
        Settings {
            volume: volumes,
            shuffle: self.shuffle,
            session: Session {
                tab: Some(self.tab.key().to_owned()),
                folder: Some(self.cwd.clone()),
                selected: Some(self.listing_dir()),
                feed,
                track,
                queue,
                position,
                playing: self.queue_pos.is_some() && !self.audio.paused,
            },
            remote: self.remote.copy(),
        }
    }

    /// The settings could not be written.
    pub fn settings_unsaved(&mut self, why: &str)
        ensures
            final(self)@ == old(self)@.saying("could not save settings: "@ + why@),
    {
        self.say(text::cat2("could not save settings: ", why));
    }
}

/// A copy of the way down.
pub fn copy_trail(v: &Vec<(String, usize)>) -> (r: Vec<(String, usize)>)
    ensures
        trail_view(r@) == trail_view(v@),
{
    let mut r: Vec<(String, usize)> = Vec::new();
    let mut i: usize = 0;
    while i < v.len()
        invariant
            i <= v@.len(),
            r@.len() == i,
            forall|k: int| 0 <= k < i ==> (#[trigger] r@[k]).0@ == v@[k].0@ && r@[k].1 == v@[k].1,
        decreases v@.len() - i,
    {
        r.push((v[i].0.clone(), v[i].1));
        i = i + 1;
    }
    assert(trail_view(r@) =~= trail_view(v@));
    r
}

} // verus!
