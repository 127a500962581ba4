//! The folder pane: rows, the way down and the way back up.

use vstd::prelude::*;
use crate::app::{folders_of, memo_of, trail_of, trail_view, App, AppV, Ask, AskV, Pane, Tab, Why};
use crate::app::playback::rows_view;
use crate::library::{
    self, find_folder, folder_place, folders_view, is_merge, label_of, lemma_unlisted, Folder,
    FolderV,
};
use crate::memo::is_memo;
use crate::paths::{self, below, inside, same_path};
use crate::remote::{self, authority_in, has_scheme, path_in};
use crate::text::{self, joined, pieces};
use crate::ui::ListState;

verus! {

/// The smaller of two rows.
pub open spec fn lesser(a: int, b: int) -> usize {
    if a <= b {
        a as usize
    } else {
        b as usize
    }
}

/// What a server's answer about its folders holds, where it was asked.
pub open spec fn answer_view(answer: Option<Result<Vec<Folder>, String>>) -> Option<
    Result<Seq<FolderV>, Seq<char>>,
> {
    match answer {
        Some(a) => Some(rows_view(a)),
        None => None,
    }
}

/// The folders an answer gives, none where it failed.
pub open spec fn rows_or_none(rows: Result<Seq<FolderV>, Seq<char>>) -> Seq<FolderV> {
    match rows {
        Ok(rows) => rows,
        Err(_) => seq![],
    }
}

impl AppV {
    /// The folder pane ends in the server button: only at the root of a local library,
    /// which is where the server's folders appear.
    pub open spec fn server_row(self) -> bool {
        same_path(self.cwd, self.root) && !has_scheme(self.root)
    }

    /// Rows in the folder pane, `..` included.
    pub open spec fn row_count(self) -> int {
        self.folders.len() + 1 + (if self.server_row() {
            1int
        } else {
            0
        })
    }

    pub open spec fn on_server_row(self) -> bool {
        self.server_row() && self.folder_state.selected == Some((self.row_count() - 1) as usize)
    }

    pub open spec fn on_up_row(self) -> bool {
        self.folder_state.selected == Some(0usize)
    }

    /// The folder a row points at; none for the `..` row.
    pub open spec fn folder_at(self, row: usize) -> Option<FolderV> {
        if 1 <= row <= self.folders.len() {
            Some(self.folders[row - 1])
        } else {
            None
        }
    }

    pub open spec fn selected_folder(self) -> Option<FolderV> {
        match self.folder_state.selected {
            Some(row) => self.folder_at(row),
            None => None,
        }
    }

    /// The directory whose tracks the right pane shows.
    pub open spec fn listing_dir(self) -> Seq<char> {
        match self.selected_folder() {
            Some(f) => f.path,
            None => self.cwd,
        }
    }

    pub open spec fn focused(self, pane: Pane) -> AppV {
        AppV { focus: pane, ..self }
    }

    pub open spec fn asking_for(self, dir: Seq<char>, why: Why) -> AppV {
        AppV { asking: AskV::List { dir, why }, ..self }
    }

    /// What Enter does in the folder pane: down into a folder, back out on `..`, and
    /// the server's prompt on its button.
    #[verifier::opaque]
    pub open spec fn entering(self) -> AppV {
        if self.on_up_row() {
            if self.trail.len() > 0 {
                self.leaving()
            } else {
                self.focused(Pane::Tracks)
            }
        } else if self.on_server_row() {
            self.server_prompted()
        } else {
            match self.selected_folder() {
                Some(f) => self.asking_for(f.path, Why::Enter),
                None => self,
            }
        }
    }

    /// What Enter does in the left pane, whichever tab is showing.
    #[verifier::opaque]
    pub open spec fn entering_selected(self) -> AppV {
        match self.tab {
            Tab::Feeds => self.focused(Pane::Tracks),
            _ => self.entering(),
        }
    }

    #[verifier::opaque]
    pub open spec fn leaving(self) -> AppV {
        if self.trail.len() == 0 {
            self
        } else {
            self.asking_for(self.trail.last().0, Why::Leave)
        }
    }

    /// The folder to descend into has been listed. A leaf has nothing to descend into;
    /// the right pane already shows it.
    #[verifier::opaque]
    pub open spec fn entered(self, dir: Seq<char>, rows: Result<Seq<FolderV>, Seq<char>>) -> AppV {
        match rows {
            Err(why) => self.saying("error: "@ + why),
            Ok(rows) => if rows.len() == 0 {
                self.focused(Pane::Tracks)
            } else {
                let row = match self.folder_state.selected {
                    Some(row) => row,
                    None => 0,
                };
                AppV {
                    trail: self.trail.push((self.cwd, row)),
                    cwd: dir,
                    folders: rows,
                    folder_state: ListState::on(1),
                    ..self.touched()
                }.reloading()
            },
        }
    }

    /// The folder to climb out to has been listed: back on the row it was left from,
    /// as far as the list allows.
    #[verifier::opaque]
    pub open spec fn left(self, rows: Result<Seq<FolderV>, Seq<char>>) -> AppV {
        match rows {
            Err(why) => self.saying("error: "@ + why),
            Ok(rows) => if self.trail.len() == 0 {
                self
            } else {
                let (parent, selected) = self.trail.last();
                let a = AppV {
                    trail: self.trail.drop_last(),
                    cwd: parent,
                    folders: rows,
                    ..self.touched()
                };
                AppV {
                    folder_state: ListState::on(lesser(selected as int, a.row_count() - 1)),
                    ..a
                }.reloading()
            },
        }
    }

    /// List the root again, keeping the cursor where it was as far as it can.
    #[verifier::opaque]
    pub open spec fn relisting(self) -> AppV {
        if same_path(self.cwd, self.root) {
            self.asking_for(self.root, Why::Relist)
        } else {
            self
        }
    }

    #[verifier::opaque]
    pub open spec fn relisted(self, rows: Seq<FolderV>) -> AppV {
        let base = if rows.len() > 0 {
            1int
        } else {
            0
        };
        let row = if self.on_up_row() {
            0
        } else {
            match self.selected_folder() {
                Some(f) => {
                    let at = folder_place(rows, f.path) as int;
                    if at < rows.len() {
                        at + base
                    } else {
                        base
                    }
                },
                None => base,
            }
        };
        AppV { folders: rows, folder_state: ListState::on(row as usize), ..self }.reloading()
    }

    /// List the folder on screen again after something in it changed. Nothing
    /// remembered about it still holds.
    #[verifier::opaque]
    pub open spec fn refreshing(self) -> AppV {
        AppV { memo: seq![], tracks_dir: None, ..self }.asking_for(self.cwd, Why::Refresh)
    }

    /// The cursor stays on the same row as far as the new list allows.
    #[verifier::opaque]
    pub open spec fn refreshed(self, rows: Seq<FolderV>) -> AppV {
        let selected = match self.folder_state.selected {
            Some(row) => row as int,
            None => 0,
        };
        let a = AppV { folders: rows, ..self };
        AppV { folder_state: ListState::on(lesser(selected, a.row_count() - 1)), ..a }.reloading()
    }

    /// The folders that were asked for have arrived.
    #[verifier::opaque]
    pub open spec fn folders_arrived(self, rows: Result<Seq<FolderV>, Seq<char>>) -> AppV {
        match self.asking {
            AskV::List { dir, why } => {
                let a = AppV { asking: AskV::Nothing, ..self };
                match why {
                    Why::Enter => a.entered(dir, rows),
                    Why::Leave => a.left(rows),
                    Why::Relist => {
                        let b = a.relisted(rows_or_none(rows));
                        if b.restoring is Some {
                            b.descending()
                        } else {
                            b
                        }
                    },
                    Why::Refresh => a.refreshed(rows_or_none(rows)),
                    Why::Descend => a.descended(rows_or_none(rows)),
                    Why::After => a.after_listed(dir, rows),
                }
            },
            _ => self,
        }
    }

    /// The server's folders belong beside those asked for: at the root of a local
    /// library with a server.
    pub open spec fn wants_server(self) -> bool {
        &&& self.remote.server is Some
        &&& !has_scheme(self.root)
        &&& self.asking matches AskV::List { dir, why } && same_path(dir, self.root)
    }

    /// What the listing says about the server. One that cannot be reached leaves the
    /// local folders standing, and the reason in the status line.
    pub open spec fn server_heard(
        self,
        local: Result<Seq<FolderV>, Seq<char>>,
        server: Option<Result<Seq<FolderV>, Seq<char>>>,
    ) -> AppV {
        if local is Ok && self.wants_server() {
            match server {
                Some(Err(why)) => self.saying("server: "@ + why),
                _ => self,
            }
        } else {
            self
        }
    }

    /// `rows` is what the two answers come to together.
    pub open spec fn is_listing(
        self,
        local: Result<Seq<FolderV>, Seq<char>>,
        server: Option<Result<Seq<FolderV>, Seq<char>>>,
        rows: Result<Seq<FolderV>, Seq<char>>,
    ) -> bool {
        match (local, server) {
            (Ok(here), Some(Ok(there))) => if self.wants_server() {
                rows matches Ok(all) && is_merge(here, there, all)
            } else {
                rows == local
            },
            _ => rows == local,
        }
    }

    /// True for a local folder that could be moved to the server.
    pub open spec fn movable(self, folder: FolderV) -> bool {
        &&& self.remote.server is Some
        &&& !has_scheme(folder.path)
        &&& !has_scheme(self.root)
        &&& inside(folder.path, self.root)
    }

    /// Breadcrumb for the pane title: the root's name plus the way down.
    pub open spec fn breadcrumb(self) -> Seq<char> {
        let root_name = if has_scheme(self.root) {
            match authority_in(self.root) {
                Some(a) => a,
                None => seq![],
            }
        } else {
            label_of(self.root)
        };
        if !same_path(self.cwd, self.root) && has_scheme(self.cwd) {
            let path = joined(pieces(path_in(self.cwd), '/'), " / "@);
            if has_scheme(self.root) {
                root_name + " / "@ + path
            } else {
                root_name + " / "@ + path + " ☁"@
            }
        } else {
            match below(self.cwd, self.root) {
                Some(rest) => if rest.len() == 0 {
                    root_name
                } else {
                    root_name + " / "@ + joined(rest, " / "@)
                },
                None => self.cwd,
            }
        }
    }
}

impl App {
    /// True when row 0 of the folder pane is the `..` entry, which is always: at the
    /// root it climbs nowhere, and lists the whole library.
    pub fn shows_up_row(&self) -> (b: bool)
        ensures
            b,
    {
        true
    }

    /// True when the folder pane ends in the server button.
    pub fn shows_server_row(&self) -> (b: bool)
        ensures
            b == self@.server_row(),
    {
        paths::same(self.cwd.as_str(), self.root.as_str()) && !remote::is_remote(
            self.root.as_str(),
        )
    }

    /// Rows in the folder pane, `..` included.
    pub fn folder_row_count(&self) -> (n: usize)
        requires
            self@.wf(),
        ensures
            n == self@.row_count(),
    {
        proof {
            reveal(folders_of);
        }
        if self.shows_server_row() {
            self.folders.len() + 2
        } else {
            self.folders.len() + 1
        }
    }

    /// True when the cursor is on the server button.
    pub fn on_server_row(&self) -> (b: bool)
        requires
            self@.wf(),
        ensures
            b == self@.on_server_row(),
    {
        match self.folder_state.selected {
            Some(row) => self.shows_server_row() && row == self.folder_row_count() - 1,
            None => false,
        }
    }

    /// True when the cursor is on `..`.
    pub fn on_up_row(&self) -> (b: bool)
        ensures
            b == self@.on_up_row(),
    {
        match self.folder_state.selected {
            Some(row) => row == 0,
            None => false,
        }
    }

    /// The folder a row points at. `None` for the `..` row.
    pub fn folder_at(&self, row: usize) -> (r: Option<&Folder>)
        ensures
            match r {
                Some(f) => self@.folder_at(row) == Some(f@),
                None => self@.folder_at(row) is None,
            },
    {
        proof {
            reveal(folders_of);
        }
        if row >= 1 && row - 1 < self.folders.len() {
            assert(self@.folders[row - 1] == self.folders@[row - 1]@);
            Some(&self.folders[row - 1])
        } else {
            None
        }
    }

    pub fn selected_folder(&self) -> (r: Option<&Folder>)
        ensures
            match r {
                Some(f) => self@.selected_folder() == Some(f@),
                None => self@.selected_folder() is None,
            },
    {
        match self.folder_state.selected {
            Some(row) => self.folder_at(row),
            None => None,
        }
    }

    /// The directory whose tracks the right pane shows: the highlighted subfolder, or
    /// the current one on `..` or with nothing selected.
    pub fn listing_dir(&self) -> (r: String)
        ensures
            r@ == self@.listing_dir(),
    {
        match self.selected_folder() {
            Some(f) => f.path.clone(),
            None => self.cwd.clone(),
        }
    }

    pub fn can_leave(&self) -> (b: bool)
        ensures
            b == (self@.trail.len() > 0),
    {
        proof {
            reveal(trail_of);
        }
        self.trail.len() > 0
    }

    /// True for a local folder that could be moved to the server.
    pub fn can_move(&self, folder: &Folder) -> (b: bool)
        ensures
            b == self@.movable(folder@),
    {
        self.remote.server.is_some() && !remote::is_remote(folder.path.as_str())
            && !remote::is_remote(self.root.as_str()) && paths::is_inside(
            folder.path.as_str(),
            self.root.as_str(),
        )
    }

    /// Breadcrumb for the pane title: the root's name plus the way down.
    pub fn here(&self) -> (r: String)
        ensures
            r@ == self@.breadcrumb(),
    {
        let far = remote::is_remote(self.root.as_str());
        let root_name = if far {
            match remote::authority_of(self.root.as_str()) {
                Some(a) => a,
                None => {
                    let none = String::new();
                    assert(none@ =~= seq![]);
                    none
                },
            }
        } else {
            library::file_name(self.root.as_str())
        };
        if !paths::same(self.cwd.as_str(), self.root.as_str()) && remote::is_remote(
            self.cwd.as_str(),
        ) {
            let path = remote::path_of(self.cwd.as_str());
            let parts = text::split(path.as_str(), '/');
            assert(text::views(parts@).skip(0) =~= text::views(parts@));
            let path = paths::join_with(&parts, 0, " / ");
            if far {
                return text::cat3(root_name.as_str(), " / ", path.as_str());
            }
            return text::cat4(root_name.as_str(), " / ", path.as_str(), " ☁");
        }
        if paths::is_inside(self.cwd.as_str(), self.root.as_str()) {
            let whole = paths::parts(self.cwd.as_str());
            let top = paths::parts(self.root.as_str());
            assert(text::views(whole@).len() == whole@.len());
            assert(text::views(top@).len() == top@.len());
            if whole.len() == top.len() {
                return root_name;
            }
            let rest = paths::join_with(&whole, top.len(), " / ");
            return text::cat3(root_name.as_str(), " / ", rest.as_str());
        }
        self.cwd.clone()
    }

    fn ask_for(&mut self, dir: String, why: Why)
        ensures
            final(self)@ == old(self)@.asking_for(dir@, why),
    {
        self.asking = Ask::List { dir, why };
    }

    /// What Enter does in the left pane, whichever tab is showing.
    pub fn enter_selected(&mut self)
        requires
            old(self)@.wf(),
        ensures
            final(self)@ == old(self)@.entering_selected(),
            final(self)@.browsing() == old(self)@.browsing(),
    {
        proof {
            reveal(AppV::entering_selected);
        }
        match self.tab {
            // A feed has nothing to descend into; its episodes are already listed.
            Tab::Feeds => {
                self.focus = Pane::Tracks;
            },
            _ => {
                self.enter_folder();
            },
        }
    }

    /// Descend into the highlighted folder, or back out when `..` is highlighted.
    pub fn enter_folder(&mut self)
        requires
            old(self)@.wf(),
        ensures
            final(self)@ == old(self)@.entering(),
            final(self)@.browsing() == old(self)@.browsing(),
    {
        proof {
            reveal(AppV::entering);
        }
        if self.on_up_row() {
            // `..` at the root has nowhere to climb: what it lists is the point.
            if self.can_leave() {
                self.leave_folder();
            } else {
                self.focus = Pane::Tracks;
            }
            return;
        }
        if self.on_server_row() {
            self.open_add_server();
            return;
        }
        let target = match self.selected_folder() {
            Some(f) => f.path.clone(),
            None => {
                return;
            },
        };
        self.ask_for(target, Why::Enter);
    }

    /// Step back up. Stops at the root.
    pub fn leave_folder(&mut self)
        ensures
            final(self)@ == old(self)@.leaving(),
            final(self)@.browsing() == old(self)@.browsing(),
    {
        proof {
            reveal(AppV::leaving);
            reveal(trail_of);
        }
        let n: usize = self.trail.len();
        if n == 0 {
            return;
        }
        let parent = self.trail[n - 1].0.clone();
        assert(self@.trail.last().0 == parent@);
        self.ask_for(parent, Why::Leave);
    }

    fn entered(&mut self, dir: &str, rows: Result<Vec<Folder>, String>)
        requires
            old(self)@.wf(),
            rows matches Ok(r) ==> r@.len() <= usize::MAX - 2,
        ensures
            final(self)@ == old(self)@.entered(dir@, rows_view(rows)),
            final(self)@.wf(),
    {
        proof {
            reveal(AppV::entered);
            reveal(trail_of);
            reveal(folders_of);
        }
        let ghost s = self@;
        let rows = match rows {
            Err(why) => {
                self.say(text::cat2("error: ", why.as_str()));
                return;
            },
            Ok(rows) => rows,
        };
        if rows.len() == 0 {
            self.focus = Pane::Tracks;
            return;
        }
        let row: usize = match self.folder_state.selected {
            Some(row) => row,
            None => 0,
        };
        let ghost rv = folders_view(rows@);
        let cwd = self.cwd.clone();
        self.touch_settings();
        assert(self@ == s.touched());
        let ghost t0 = trail_view(self.trail@);
        self.trail.push((cwd, row));
        assert(trail_view(self.trail@) =~= t0.push((s.cwd, row)));
        self.cwd = dir.to_owned();
        self.folders = rows;
        // Land on the first real folder, not on `..`.
        self.folder_state = ListState::new(Some(1));
        let ghost a = AppV {
            trail: s.trail.push((s.cwd, row)),
            cwd: dir@,
            folders: rv,
            folder_state: ListState::on(1),
            ..s.touched()
        };
        assert(self@ == a);
        self.reload_tracks();
    }

    fn left(&mut self, rows: Result<Vec<Folder>, String>)
        requires
            old(self)@.wf(),
            rows matches Ok(r) ==> r@.len() <= usize::MAX - 2,
        ensures
            final(self)@ == old(self)@.left(rows_view(rows)),
            final(self)@.wf(),
    {
        proof {
            reveal(AppV::left);
            reveal(trail_of);
            reveal(folders_of);
        }
        let ghost s = self@;
        let rows = match rows {
            Err(why) => {
                self.say(text::cat2("error: ", why.as_str()));
                return;
            },
            Ok(rows) => rows,
        };
        if self.trail.len() == 0 {
            return;
        }
        let ghost rv = folders_view(rows@);
        self.touch_settings();
        assert(self@ == s.touched());
        let ghost t0 = self.trail@;
        assert(trail_view(t0) == s.trail);
        let (parent, selected) = match self.trail.pop() {
            Some(last) => last,
            None => {
                return;
            },
        };
        proof {
            assert(s.trail.last() == (parent@, selected));
            assert(trail_view(self.trail@) =~= s.trail.drop_last());
        }
        let ghost pv = parent@;
        self.cwd = parent;
        self.folders = rows;
        let ghost a = AppV {
            trail: s.trail.drop_last(),
            cwd: pv,
            folders: rv,
            ..s.touched()
        };
        assert(self@ == a);
        let rows: usize = self.folder_row_count();
        let row: usize = if selected <= rows - 1 {
            selected
        } else {
            rows - 1
        };
        self.folder_state = ListState::new(Some(row));
        assert(self@ == (AppV {
            folder_state: ListState::on(lesser(selected as int, a.row_count() - 1)),
            ..a
        }));
        self.reload_tracks();
    }

    /// List the root again, keeping the cursor where it was as far as it can.
    pub fn relist_root(&mut self)
        ensures
            final(self)@ == old(self)@.relisting(),
            final(self)@.browsing() == old(self)@.browsing(),
    {
        proof {
            reveal(AppV::relisting);
        }
        if paths::same(self.cwd.as_str(), self.root.as_str()) {
            let root = self.root.clone();
            self.ask_for(root, Why::Relist);
        }
    }

    fn relisted(&mut self, rows: Vec<Folder>)
        requires
            old(self)@.wf(),
            rows@.len() <= usize::MAX - 2,
        ensures
            final(self)@ == old(self)@.relisted(folders_view(rows@)),
            final(self)@.wf(),
    {
        proof {
            reveal(AppV::relisted);
            reveal(folders_of);
        }
        let ghost s = self@;
        let ghost rv = folders_view(rows@);
        let base: usize = if rows.len() > 0 {
            1
        } else {
            0
        };
        let row: usize = if self.on_up_row() {
            0
        } else {
            match self.selected_folder() {
                Some(f) => match find_folder(&rows, f.path.as_str()) {
                    Some(at) => at + base,
                    None => base,
                },
                None => base,
            }
        };
        self.folders = rows;
        self.folder_state = ListState::new(Some(row));
        assert(self@ == (AppV { folders: rv, folder_state: ListState::on(row), ..s }));
        self.reload_tracks();
    }

    /// List the folder on screen again after something in it changed.
    pub fn refresh_listing(&mut self)
        requires
            old(self)@.wf(),
        ensures
            final(self)@ == old(self)@.refreshing(),
            final(self)@.wf(),
    {
        proof {
            reveal(AppV::refreshing);
            reveal(memo_of);
            reveal(is_memo);
        }
        let ghost s = self@;
        self.memo.clear();
        self.tracks_dir = None;
        assert(self@ == (AppV { memo: seq![], tracks_dir: None, ..s }));
        let cwd = self.cwd.clone();
        self.ask_for(cwd, Why::Refresh);
    }

    fn refreshed(&mut self, rows: Vec<Folder>)
        requires
            old(self)@.wf(),
            rows@.len() <= usize::MAX - 2,
        ensures
            final(self)@ == old(self)@.refreshed(folders_view(rows@)),
            final(self)@.wf(),
    {
        proof {
            reveal(AppV::refreshed);
            reveal(folders_of);
        }
        let ghost s = self@;
        let ghost rv = folders_view(rows@);
        let selected: usize = match self.folder_state.selected {
            Some(row) => row,
            None => 0,
        };
        self.folders = rows;
        let ghost a = AppV { folders: rv, ..s };
        assert(self@ == a);
        let rows: usize = self.folder_row_count();
        let row: usize = if selected <= rows - 1 {
            selected
        } else {
            rows - 1
        };
        self.folder_state = ListState::new(Some(row));
        assert(self@ == (AppV {
            folder_state: ListState::on(lesser(selected as int, a.row_count() - 1)),
            ..a
        }));
        self.reload_tracks();
    }

    fn rows_arrived(&mut self, rows: Result<Vec<Folder>, String>)
        requires
            old(self)@.wf(),
            rows matches Ok(r) ==> r@.len() <= usize::MAX - 2,
        ensures
            final(self)@ == old(self)@.folders_arrived(rows_view(rows)),
            final(self)@.wf(),
    {
        proof {
            reveal(AppV::folders_arrived);
        }
        let ghost s = self@;
        let (dir, why) = match &self.asking {
            Ask::List { dir, why } => (dir.clone(), *why),
            _ => {
                return;
            },
        };
        self.asking = Ask::Nothing;
        let ghost a = AppV { asking: AskV::Nothing, ..s };
        assert(self@ == a);
        match why {
            Why::Enter => {
                self.entered(dir.as_str(), rows);
            },
            Why::Leave => {
                self.left(rows);
            },
            Why::Relist => {
                let found = folders_or_none(rows);
                let ghost b = a.relisted(folders_view(found@));
                self.relisted(found);
                assert(self@ == b);
                if self.restoring.is_some() {
                    self.descend();
                }
            },
            Why::Refresh => {
                let found = folders_or_none(rows);
                self.refreshed(found);
            },
            Why::Descend => {
                let found = folders_or_none(rows);
                self.descended(found);
            },
            Why::After => {
                self.after_listed(dir.as_str(), rows);
            },
        }
    }

    /// True when the server's folders belong beside those asked for.
    pub fn wants_server(&self) -> (b: bool)
        ensures
            b == self@.wants_server(),
    {
        match &self.asking {
            Ask::List { dir, why } => self.remote.server.is_some() && !remote::is_remote(
                self.root.as_str(),
            ) && paths::same(dir.as_str(), self.root.as_str()),
            _ => false,
        }
    }

    /// The folders that were asked for: those of the directory itself, and the server's
    /// where they belong beside them.
    pub fn folders_listed(
        &mut self,
        local: Result<Vec<Folder>, String>,
        server: Option<Result<Vec<Folder>, String>>,
    )
        requires
            old(self)@.wf(),
            local matches Ok(here) ==> here@.len() <= usize::MAX - 2 && (
            server matches Some(Ok(there)) ==> here@.len() + there@.len() <= usize::MAX - 2),
        ensures
            final(self)@.wf(),
            ({
                let said = answer_view(server);
                exists|rows: Result<Seq<FolderV>, Seq<char>>| #[trigger]
                    old(self)@.is_listing(rows_view(local), said, rows) && final(self)@
                        == old(self)@.server_heard(rows_view(local), said).folders_arrived(rows)
            }),
    {
        let ghost s = self@;
        let ghost lv = rows_view(local);
        let ghost said = answer_view(server);
        let wants = self.wants_server();
        let here = match local {
            Err(why) => {
                let ghost rows = lv;
                assert(s.is_listing(lv, said, rows));
                self.rows_arrived(Err(why));
                return;
            },
            Ok(here) => here,
        };
        if !wants {
            assert(s.is_listing(lv, said, lv));
            self.rows_arrived(Ok(here));
            return;
        }
        match server {
            None => {
                assert(s.is_listing(lv, said, lv));
                self.rows_arrived(Ok(here));
            },
            Some(Err(why)) => {
                self.say(text::cat2("server: ", why.as_str()));
                assert(self@ == s.server_heard(lv, said));
                assert(s.is_listing(lv, said, lv));
                self.rows_arrived(Ok(here));
            },
            Some(Ok(there)) => {
                let ghost (h, t) = (folders_view(here@), folders_view(there@));
                let rows = library::merge(here, &there);
                proof {
                    lemma_unlisted(h, t);
                    let all: Result<Seq<FolderV>, Seq<char>> = Ok(folders_view(rows@));
                    assert(s.is_listing(lv, said, all));
                    assert(folders_view(rows@).len() == rows@.len());
                }
                self.rows_arrived(Ok(rows));
            },
        }
    }
}

fn folders_or_none(rows: Result<Vec<Folder>, String>) -> (r: Vec<Folder>)
    ensures
        folders_view(r@) == rows_or_none(rows_view(rows)),
        rows matches Ok(v) ==> r@ == v@,
        rows is Err ==> r@.len() == 0,
{
    match rows {
        Ok(rows) => rows,
        Err(_) => {
            let none: Vec<Folder> = Vec::new();
            assert(folders_view(none@) =~= seq![]);
            none
        },
    }
}

} // verus!
