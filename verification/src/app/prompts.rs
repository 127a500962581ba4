//! The floating input: adding feeds and servers, renaming, moving and deleting.

use vstd::prelude::*;
use crate::app::{
    feeds_of, memo_of, tracks_of, App, AppV, Ask, AskV, Pane, Prompt, PromptKind, PromptKindV,
    PromptV, Tab, Why,
};
use crate::app::session::{feed_place, find_feed};
use crate::config::{self, feeds_view, host, is_url_text, Feed, FeedV, Remote, RemoteV};
use crate::feed::copy_opt;
use crate::library::{self, label_of};
use crate::memo::is_memo;
use crate::paths::{self, below, dot, dots, inside, rfind, same_path, slash};
use crate::remote::{
    self, authority_in, connection, endpoint_refusal, has_scheme, kept_address, path_in, uri_of,
    Server,
};
use crate::server::{extend, extended};
use crate::text::{self, joined, opt_view, pieces, stripped, trimmed, views};

verus! {

/// What an outcome failed with, if it did.
pub open spec fn failure_of(r: Result<(), String>) -> Option<Seq<char>> {
    match r {
        Ok(_) => None,
        Err(why) => Some(why@),
    }
}

/// Why a server, and the token kept for it, cannot be connected to.
pub open spec fn refused(server: Seq<char>, token: Option<Seq<char>>) -> Option<Seq<char>> {
    match connection(server, token, endpoint_refusal(uri_of(server))) {
        Ok(_) => None,
        Err(why) => Some(why),
    }
}

/// Why a server cannot be connected to.
pub fn refusal(server: &str, token: &Option<String>) -> (r: Option<String>)
    ensures
        opt_view(r) == refused(server@, opt_view(*token)),
{
    let kept = match token {
        Some(t) => Some(t.as_str()),
        None => None,
    };
    match Server::connect(server, kept) {
        Ok(_) => None,
        Err(why) => Some(why),
    }
}

/// A name that stays where it is: not empty, no separator, and not a way to say here
/// or up.
pub open spec fn is_plain_name(name: Seq<char>) -> bool {
    name.len() > 0 && !name.contains('/') && !name.contains('\\') && name != dot() && name
        != dots()
}

/// A path of such names.
pub open spec fn is_plain_path(path: Seq<char>) -> bool {
    path.len() > 0 && forall|i: int|
        0 <= i < pieces(path, '/').len() ==> (#[trigger] pieces(path, '/')[i]).len() > 0 && pieces(
            path,
            '/',
        )[i] != dot() && pieces(path, '/')[i] != dots()
}

/// `path` with its last part replaced by `name`.
pub open spec fn renamed(path: Seq<char>, name: Seq<char>) -> Seq<char> {
    let at = rfind(path, '/');
    if at >= 0 {
        path.take(at) + "/"@ + name
    } else {
        name
    }
}

/// Where a path from the top of the library leads.
pub open spec fn destination(root: Seq<char>, to: Seq<char>) -> Seq<char> {
    extended(root, pieces(to, '/'))
}

/// Where a path from the top of the library leads.
pub fn destination_of(root: &str, to: &str) -> (r: String)
    ensures
        r@ == destination(root@, to@),
{
    let parts = text::split(to, '/');
    extend(root, &parts)
}

/// Whether something local may become `to`: never over what is there already, and no
/// folder into itself.
pub fn check_change(target: &str, dest: &str, to: &str, exists: bool) -> (r: Result<(), String>)
    ensures
        match r {
            Ok(_) => !exists && !inside(dest@, target@),
            Err(why) => if exists {
                why@ == "/"@ + to@ + " already exists"@
            } else {
                inside(dest@, target@) && why@ == "cannot move a folder into itself"@
            },
        },
{
    if exists {
        Err(text::cat3("/", to, " already exists"))
    } else if paths::is_inside(dest, target) {
        Err("cannot move a folder into itself".to_owned())
    } else {
        Ok(())
    }
}

fn plain_name(name: &str) -> (b: bool)
    ensures
        b == is_plain_name(name@),
{
    let v = text::chars_of(name);
    let is_dot: bool = v.len() == 1 && v[0] == '.';
    let is_dots: bool = v.len() == 2 && v[0] == '.' && v[1] == '.';
    proof {
        if is_dot {
            assert(name@ =~= dot());
        }
        if is_dots {
            assert(name@ =~= dots());
        }
    }
    v.len() > 0 && !text::contains_char(name, '/') && !text::contains_char(name, '\\') && !is_dot
        && !is_dots
}

fn plain_path(path: &str) -> (b: bool)
    ensures
        b == is_plain_path(path@),
{
    if path.is_empty() {
        return false;
    }
    let parts = text::split(path, '/');
    let ghost all = pieces(path@, '/');
    let mut i: usize = 0;
    while i < parts.len()
        invariant
            i <= parts@.len(),
            all == views(parts@),
            all == pieces(path@, '/'),
            forall|k: int|
                0 <= k < i ==> (#[trigger] all[k]).len() > 0 && all[k] != dot() && all[k]
                    != dots(),
        decreases parts@.len() - i,
    {
        let v = text::chars_of(parts[i].as_str());
        let is_dot: bool = v.len() == 1 && v[0] == '.';
        let is_dots: bool = v.len() == 2 && v[0] == '.' && v[1] == '.';
        proof {
            assert(all[i as int] == v@);
            if is_dot {
                assert(v@ =~= dot());
            }
            if is_dots {
                assert(v@ =~= dots());
            }
        }
        if v.len() == 0 || is_dot || is_dots {
            assert(!is_plain_path(path@));
            return false;
        }
        i = i + 1;
    }
    assert(all.len() == parts@.len());
    true
}

impl PromptV {
    /// A prompt that has just been opened.
    pub open spec fn opened(
        kind: PromptKindV,
        title: Seq<char>,
        input: Seq<char>,
        hint: Seq<char>,
    ) -> PromptV {
        PromptV { kind, title, input, hint, retry: None }
    }
}

impl AppV {
    pub open spec fn prompting(self, prompt: PromptV) -> AppV {
        AppV { prompt: Some(prompt), ..self }
    }

    pub open spec fn unprompted(self) -> AppV {
        AppV { prompt: None, ..self }
    }

    /// With another hint under the field, where there is one.
    pub open spec fn hinted(self, hint: Seq<char>) -> AppV {
        match self.prompt {
            Some(p) => AppV { prompt: Some(PromptV { hint, ..p }), ..self },
            None => self,
        }
    }

    pub open spec fn feed_prompted(self) -> AppV {
        self.prompting(
            PromptV::opened(
                PromptKindV::Feed,
                "Add feed"@,
                seq![],
                "paste an RSS URL · Enter to add · Esc to cancel"@,
            ),
        )
    }

    #[verifier::opaque]
    pub open spec fn server_prompted(self) -> AppV {
        let current = match self.remote.server {
            Some(server) => authority_in(server),
            None => None,
        };
        let hint = match current {
            Some(name) => "now "@ + name
                + ". Type a new address — e.g. nas:7700, or with its token: TOKEN@nas:7700 · Esc keeps it"@,
            None =>
                "server address — e.g. nas:7700, or with its token: TOKEN@nas:7700 · Enter adds · Esc cancels"@,
        };
        self.prompting(PromptV::opened(PromptKindV::Server, "Add server"@, seq![], hint))
    }

    /// What renaming, moving and deleting act on: the highlighted folder in the left
    /// pane, or the highlighted track in the right one. Its path, and what to call it.
    pub open spec fn edit_target(self) -> Option<(Seq<char>, Seq<char>)> {
        if self.tab != Tab::Local {
            None
        } else {
            match self.focus {
                Pane::Folders => match self.selected_folder() {
                    Some(f) => Some((f.path, f.label)),
                    None => None,
                },
                Pane::Tracks => match self.track_state.selected {
                    Some(i) => if i < self.tracks.len() {
                        let path = self.tracks[i as int].path;
                        Some((path, label_of(path)))
                    } else {
                        None
                    },
                    None => None,
                },
            }
        }
    }

    /// A path from the top of its library: the local root, or the server's folder.
    pub open spec fn library_path(self, target: Seq<char>) -> Option<Seq<char>> {
        if has_scheme(target) {
            Some(path_in(target))
        } else {
            match below(target, self.root) {
                Some(rest) => Some(joined(rest, slash())),
                None => None,
            }
        }
    }

    #[verifier::opaque]
    pub open spec fn rename_prompted(self) -> AppV {
        match self.edit_target() {
            Some((target, name)) => self.prompting(
                PromptV::opened(
                    PromptKindV::Rename(target),
                    "Rename"@,
                    name,
                    "new name · Enter renames · Esc cancels"@,
                ),
            ),
            None => self,
        }
    }

    #[verifier::opaque]
    pub open spec fn relocate_prompted(self) -> AppV {
        match self.edit_target() {
            Some((target, _)) => match self.library_path(target) {
                Some(path) => self.prompting(
                    PromptV::opened(
                        PromptKindV::Relocate(target),
                        "Move to"@,
                        path,
                        "path from the top of the library, folders are made as needed · Enter · Esc"@,
                    ),
                ),
                None => self,
            },
            None => self,
        }
    }

    #[verifier::opaque]
    pub open spec fn delete_prompted(self) -> AppV {
        match self.edit_target() {
            Some((target, name)) => self.prompting(
                PromptV::opened(
                    PromptKindV::Delete(target),
                    "Delete"@,
                    seq![],
                    "delete "@ + name + (if has_scheme(target) {
                        " on the server"@
                    } else {
                        " here"@
                    }) + ", for good? y deletes · Esc keeps it"@,
                ),
            ),
            None => self,
        }
    }

    /// Something was deleted, or could not be; either way the folder is listed again.
    #[verifier::opaque]
    pub open spec fn after_delete(self, target: Seq<char>, failure: Option<Seq<char>>) -> AppV {
        let name = label_of(target);
        self.saying(
            match failure {
                None => "deleted "@ + name,
                Some(why) => "could not delete "@ + name + ": "@ + why,
            },
        ).refreshing()
    }

    /// Deleting never touches the library itself — only ever something inside it.
    #[verifier::opaque]
    pub open spec fn deleting(self, target: Seq<char>) -> AppV {
        if !has_scheme(target) && (same_path(target, self.root) || !inside(target, self.root)) {
            self.after_delete(target, Some("refusing to delete the library itself"@))
        } else {
            AppV { asking: AskV::Delete { target }, ..self }
        }
    }

    #[verifier::opaque]
    pub open spec fn deleted(self, failure: Option<Seq<char>>) -> AppV {
        match self.asking {
            AskV::Delete { target } => AppV { asking: AskV::Nothing, ..self }.after_delete(
                target,
                failure,
            ),
            _ => self,
        }
    }

    /// A key in the open prompt. Deleting asks one question, answered with one key:
    /// nothing typed there is text, and nothing but `y` goes ahead.
    #[verifier::opaque]
    pub open spec fn prompt_keyed(self, key: char) -> AppV {
        match self.prompt {
            None => self,
            Some(p) => match p.kind {
                PromptKindV::Delete(target) => if key == 'y' || key == 'Y' {
                    self.unprompted().deleting(target)
                } else {
                    self
                },
                _ => self.prompting(PromptV { input: p.input.push(key), ..p }),
            },
        }
    }

    #[verifier::opaque]
    pub open spec fn prompt_erased(self) -> AppV {
        match self.prompt {
            None => self,
            Some(p) => if p.input.len() == 0 {
                self
            } else {
                self.prompting(PromptV { input: p.input.drop_last(), ..p })
            },
        }
    }

    /// The typed feed is taken into the list. The prompt stays open with a reason when
    /// it is not usable: closing on a typo would throw away what was pasted.
    #[verifier::opaque]
    pub open spec fn feed_submitted(self, input: Seq<char>) -> AppV {
        let url = trimmed(input);
        if url.len() == 0 {
            self.unprompted()
        } else if !is_url_text(url) {
            self.hinted("needs to start with http:// or https://"@)
        } else if feed_place(self.feeds, url) < self.feeds.len() {
            self.hinted("already in the list"@)
        } else {
            AppV {
                feeds: self.feeds.push(FeedV { name: host(url), url }),
                feed_state: self.feed_state.with(Some(self.feeds.len() as usize)),
                prompt: None,
                ..self
            }.feeds_persisted().feed_reloading()
        }
    }

    /// A server that is to be kept. Written now rather than on the usual delay: this is
    /// something the user typed. The root's listing now takes in a different server.
    #[verifier::opaque]
    pub open spec fn server_accepted(self, server: Seq<char>, token: Option<Seq<char>>) -> AppV {
        let a = AppV {
            prompt: None,
            status: "server "@ + match authority_in(server) {
                Some(name) => name,
                None => seq![],
            },
            remote: RemoteV { server: Some(server), token },
            ..self
        }.writing_settings();
        AppV { memo: seq![], tracks_dir: None, ..a }.relisting()
    }

    /// The typed server is checked and tried. One that is only switched off can still
    /// be added, on a second Enter.
    #[verifier::opaque]
    pub open spec fn server_submitted(
        self,
        input: Seq<char>,
        retry: Option<Seq<char>>,
        refusal: Option<Seq<char>>,
    ) -> AppV {
        if trimmed(input).len() == 0 {
            self.unprompted()
        } else {
            match kept_address(input) {
                Err(why) => self.hinted(why),
                Ok((server, token)) => match refusal {
                    Some(why) => self.hinted(why),
                    None => if retry == Some(input) {
                        self.server_accepted(server, token)
                    } else {
                        AppV { asking: AskV::Reach { server, token }, ..self }
                    },
                },
            }
        }
    }

    #[verifier::opaque]
    pub open spec fn server_answered(self, failure: Option<Seq<char>>) -> AppV {
        match self.asking {
            AskV::Reach { server, token } => {
                let a = AppV { asking: AskV::Nothing, ..self };
                match (failure, a.prompt) {
                    (Some(why), Some(p)) => a.prompting(
                        PromptV {
                            hint: why + " · Enter again to add it anyway"@,
                            retry: Some(p.input),
                            ..p
                        },
                    ),
                    (Some(_), None) => a,
                    (None, _) => a.server_accepted(server, token),
                }
            },
            _ => self,
        }
    }

    pub open spec fn changing(self, target: Seq<char>, to: Seq<char>, done: Seq<char>) -> AppV {
        AppV { asking: AskV::Change { target, to, done }, ..self }
    }

    #[verifier::opaque]
    pub open spec fn rename_submitted(self, target: Seq<char>, input: Seq<char>) -> AppV {
        let name = trimmed(input);
        if !is_plain_name(name) {
            self.hinted("a name, without / — to put it elsewhere, use m"@)
        } else {
            match self.library_path(target) {
                None => self,
                Some(path) => self.changing(target, renamed(path, name), "renamed to "@ + name),
            }
        }
    }

    #[verifier::opaque]
    pub open spec fn relocate_submitted(self, target: Seq<char>, input: Seq<char>) -> AppV {
        let to = stripped(trimmed(input), '/');
        if !is_plain_path(to) {
            self.hinted("a path like Artist/Album, from the top of the library"@)
        } else {
            self.changing(target, to, "moved to /"@ + to)
        }
    }

    /// Something was renamed or moved — or was not, and the prompt is kept open, so a
    /// typo can be fixed rather than typed again.
    #[verifier::opaque]
    pub open spec fn changed(self, failure: Option<Seq<char>>) -> AppV {
        match self.asking {
            AskV::Change { target, to, done } => {
                let a = AppV { asking: AskV::Nothing, ..self };
                match failure {
                    None => AppV { prompt: None, status: done, ..a }.refreshing(),
                    Some(why) => a.hinted(why),
                }
            },
            _ => self,
        }
    }

    /// Why the server typed into the prompt cannot be connected to.
    pub open spec fn typed_refusal(input: Seq<char>) -> Option<Seq<char>> {
        match kept_address(input) {
            Ok((server, token)) => refused(server, token),
            Err(_) => None,
        }
    }

    /// Enter in the prompt.
    #[verifier::opaque]
    pub open spec fn submitted(self, refusal: Option<Seq<char>>) -> AppV {
        match self.prompt {
            None => self,
            Some(p) => match p.kind {
                PromptKindV::Server => self.server_submitted(p.input, p.retry, refusal),
                PromptKindV::Rename(target) => self.rename_submitted(target, p.input),
                PromptKindV::Relocate(target) => self.relocate_submitted(target, p.input),
                // Only `y` deletes; Enter is not an answer.
                PromptKindV::Delete(_) => self,
                PromptKindV::Feed => self.feed_submitted(p.input),
            },
        }
    }
}

fn new_prompt(kind: PromptKind, title: &str, input: String, hint: String) -> (p: Prompt)
    ensures
        p@ == PromptV::opened(kind@, title@, input@, hint@),
{
    Prompt { kind, title: title.to_owned(), input, hint, retry: None }
}

fn empty_input() -> (s: String)
    ensures
        s@ == Seq::<char>::empty(),
{
    String::new()
}

impl App {
    fn hint(&mut self, hint: String)
        ensures
            final(self)@ == old(self)@.hinted(hint@),
            final(self)@.browsing() == old(self)@.browsing(),
    {
        if let Some(p) = self.prompt.take() {
            self.prompt = Some(Prompt { hint, ..p });
        }
    }

    pub fn open_add_feed(&mut self)
        ensures
            final(self)@ == old(self)@.feed_prompted(),
            final(self)@.browsing() == old(self)@.browsing(),
    {
        let p = new_prompt(
            PromptKind::Feed,
            "Add feed",
            empty_input(),
            "paste an RSS URL · Enter to add · Esc to cancel".to_owned(),
        );
        self.prompt = Some(p);
    }

    pub fn open_add_server(&mut self)
        ensures
            final(self)@ == old(self)@.server_prompted(),
            final(self)@.browsing() == old(self)@.browsing(),
    {
        proof {
            reveal(AppV::server_prompted);
        }
        let current = match &self.remote.server {
            Some(server) => remote::authority_of(server.as_str()),
            None => None,
        };
        let hint = match current {
            Some(name) => text::cat3(
                "now ",
                name.as_str(),
                ". Type a new address — e.g. nas:7700, or with its token: TOKEN@nas:7700 · Esc keeps it",
            ),
            None =>
                "server address — e.g. nas:7700, or with its token: TOKEN@nas:7700 · Enter adds · Esc cancels".to_owned(),
        };
        let p = new_prompt(PromptKind::Server, "Add server", empty_input(), hint);
        self.prompt = Some(p);
    }

    pub fn cancel_prompt(&mut self)
        ensures
            final(self)@ == old(self)@.unprompted(),
    {
        self.prompt = None;
    }

    /// What renaming, moving and deleting act on.
    pub fn edit_target(&self) -> (r: Option<(String, String)>)
        ensures
            match r {
                Some((path, name)) => self@.edit_target() == Some((path@, name@)),
                None => self@.edit_target() is None,
            },
    {
        proof {
            reveal(tracks_of);
        }
        if self.tab != Tab::Local {
            return None;
        }
        match self.focus {
            Pane::Folders => match self.selected_folder() {
                Some(f) => Some((f.path.clone(), f.label.clone())),
                None => None,
            },
            Pane::Tracks => match self.track_state.selected {
                Some(i) => if i < self.tracks.len() {
                    assert(self@.tracks[i as int] == self.tracks@[i as int]@);
                    let path = self.tracks[i].path.clone();
                    let name = library::file_name(path.as_str());
                    Some((path, name))
                } else {
                    None
                },
                None => None,
            },
        }
    }

    /// The path of `target` from the top of its library.
    pub fn library_path(&self, target: &str) -> (r: Option<String>)
        ensures
            opt_view(r) == self@.library_path(target@),
    {
        if remote::is_remote(target) {
            Some(remote::path_of(target))
        } else {
            paths::relative(target, self.root.as_str())
        }
    }

    /// A new name for the highlighted folder or track.
    pub fn ask_rename(&mut self)
        ensures
            final(self)@ == old(self)@.rename_prompted(),
            final(self)@.browsing() == old(self)@.browsing(),
    {
        proof {
            reveal(AppV::rename_prompted);
        }
        if let Some((target, name)) = self.edit_target() {
            let p = new_prompt(
                PromptKind::Rename(target),
                "Rename",
                name,
                "new name · Enter renames · Esc cancels".to_owned(),
            );
            self.prompt = Some(p);
        }
    }

    /// A new place for the highlighted folder or track, as a path from the top of its
    /// library.
    pub fn ask_relocate(&mut self)
        ensures
            final(self)@ == old(self)@.relocate_prompted(),
            final(self)@.browsing() == old(self)@.browsing(),
    {
        proof {
            reveal(AppV::relocate_prompted);
        }
        if let Some((target, name)) = self.edit_target() {
            if let Some(path) = self.library_path(target.as_str()) {
                let p = new_prompt(
                    PromptKind::Relocate(target),
                    "Move to",
                    path,
                    "path from the top of the library, folders are made as needed · Enter · Esc".to_owned(),
                );
                self.prompt = Some(p);
            }
        }
    }

    /// Delete the highlighted folder or track, once `y` confirms it.
    pub fn ask_delete(&mut self)
        ensures
            final(self)@ == old(self)@.delete_prompted(),
            final(self)@.browsing() == old(self)@.browsing(),
    {
        proof {
            reveal(AppV::delete_prompted);
        }
        if let Some((target, name)) = self.edit_target() {
            let place = if remote::is_remote(target.as_str()) {
                " on the server"
            } else {
                " here"
            };
            let hint = text::cat4(
                "delete ",
                name.as_str(),
                place,
                ", for good? y deletes · Esc keeps it",
            );
            let p = new_prompt(PromptKind::Delete(target), "Delete", empty_input(), hint);
            self.prompt = Some(p);
        }
    }

    fn after_delete(&mut self, target: &str, result: Result<(), String>)
        requires
            old(self)@.wf(),
        ensures
            final(self)@ == old(self)@.after_delete(target@, failure_of(result)),
            final(self)@.wf(),
    {
        proof {
            reveal(AppV::after_delete);
        }
        let name = library::file_name(target);
        let line = match result {
            Ok(_) => text::cat2("deleted ", name.as_str()),
            Err(why) => text::cat4("could not delete ", name.as_str(), ": ", why.as_str()),
        };
        self.say(line);
        self.refresh_listing();
    }

    /// Delete `target`, unless it is the library itself.
    pub fn delete(&mut self, target: &str)
        requires
            old(self)@.wf(),
        ensures
            final(self)@ == old(self)@.deleting(target@),
            final(self)@.wf(),
    {
        proof {
            reveal(AppV::deleting);
        }
        if !remote::is_remote(target) && (paths::same(target, self.root.as_str())
            || !paths::is_inside(target, self.root.as_str())) {
            self.after_delete(target, Err("refusing to delete the library itself".to_owned()));
        } else {
            self.asking = Ask::Delete { target: target.to_owned() };
        }
    }

    /// What was to be deleted is gone, or is not.
    pub fn deleted(&mut self, result: Result<(), String>)
        requires
            old(self)@.wf(),
        ensures
            final(self)@ == old(self)@.deleted(failure_of(result)),
            final(self)@.wf(),
    {
        proof {
            reveal(AppV::deleted);
        }
        let ghost s = self@;
        let target = match &self.asking {
            Ask::Delete { target } => target.clone(),
            _ => {
                return;
            },
        };
        self.asking = Ask::Nothing;
        assert(self@ == (AppV { asking: AskV::Nothing, ..s }));
        self.after_delete(target.as_str(), result);
    }

    /// Feed a keystroke to the open input. Returns whether it was consumed, so the
    /// caller knows not to also treat it as a shortcut.
    pub fn prompt_key(&mut self, key: char) -> (consumed: bool)
        requires
            old(self)@.wf(),
        ensures
            final(self)@ == old(self)@.prompt_keyed(key),
            final(self)@.wf(),
            consumed == (old(self)@.prompt is Some),
    {
        proof {
            reveal(AppV::prompt_keyed);
        }
        let ghost s = self@;
        match self.prompt.take() {
            None => {
                assert(self@ == s);
                false
            },
            Some(p) => {
                let ghost pv = p@;
                match p.kind {
                    PromptKind::Delete(target) => {
                        if key == 'y' || key == 'Y' {
                            assert(self@ == s.unprompted());
                            self.delete(target.as_str());
                        } else {
                            self.prompt = Some(Prompt { kind: PromptKind::Delete(target), ..p });
                            assert(self@ == s);
                        }
                    },
                    kind => {
                        let mut input = p.input;
                        input.push(key);
                        self.prompt = Some(
                            Prompt {
                                kind,
                                input,
                                title: p.title,
                                hint: p.hint,
                                retry: p.retry,
                            },
                        );
                    },
                }
                true
            },
        }
    }

    pub fn prompt_backspace(&mut self)
        ensures
            final(self)@ == old(self)@.prompt_erased(),
            final(self)@.browsing() == old(self)@.browsing(),
    {
        proof {
            reveal(AppV::prompt_erased);
        }
        let ghost s = self@;
        if let Some(p) = self.prompt.take() {
            let v = text::chars_of(p.input.as_str());
            let n: usize = v.len();
            if n == 0 {
                self.prompt = Some(p);
                assert(self@ == s);
            } else {
                let input = text::string_of(&v, 0, n - 1);
                assert(input@ =~= v@.drop_last());
                self.prompt = Some(Prompt { input, ..p });
            }
        }
    }

    fn submit_feed(&mut self, input: &str)
        ensures
            final(self)@ == old(self)@.feed_submitted(input@),
            final(self)@.browsing() == old(self)@.browsing(),
    {
        proof {
            reveal(AppV::feed_submitted);
            reveal(feeds_of);
        }
        let ghost s = self@;
        let url = text::trim(input);
        if url.is_empty() {
            self.prompt = None;
            return;
        }
        if !config::is_url(url) {
            self.hint("needs to start with http:// or https://".to_owned());
            return;
        }
        if find_feed(&self.feeds, url).is_some() {
            self.hint("already in the list".to_owned());
            return;
        }
        let feed = Feed { name: config::host_of(url), url: url.to_owned() };
        let ghost fv = feed@;
        let ghost f0 = feeds_view(self.feeds@);
        let n: usize = self.feeds.len();
        self.feeds.push(feed);
        assert(feeds_view(self.feeds@) =~= f0.push(fv));
        self.feed_state.select(Some(n));
        self.prompt = None;
        let ghost a = AppV {
            feeds: s.feeds.push(fv),
            feed_state: s.feed_state.with(Some(n)),
            prompt: None,
            ..s
        };
        assert(self@ == a);
        self.persist_feeds();
        assert(self@ == a.feeds_persisted());
        self.reload_feed();
    }

    fn accept_server(&mut self, server: String, token: Option<String>)
        requires
            old(self)@.wf(),
        ensures
            final(self)@ == old(self)@.server_accepted(server@, opt_view(token)),
            final(self)@.wf(),
    {
        proof {
            reveal(AppV::server_accepted);
            reveal(AppV::writing_settings);
            reveal(memo_of);
            reveal(is_memo);
        }
        let ghost s = self@;
        let ghost sv = server@;
        let ghost tv = opt_view(token);
        let name = match remote::authority_of(server.as_str()) {
            Some(name) => name,
            None => empty_input(),
        };
        assert(Seq::<char>::empty() =~= seq![]);
        self.prompt = None;
        self.status = text::cat2("server ", name.as_str());
        self.remote = Remote { server: Some(server), token };
        let ghost a0 = AppV {
            prompt: None,
            status: "server "@ + match authority_in(sv) {
                Some(name) => name,
                None => seq![],
            },
            remote: RemoteV { server: Some(sv), token: tv },
            ..s
        };
        assert(self@ == a0);
        self.write_settings();
        let ghost a = a0.writing_settings();
        assert(self@ == a);
        self.memo.clear();
        self.tracks_dir = None;
        assert(self@ == (AppV { memo: seq![], tracks_dir: None, ..a }));
        self.relist_root();
    }

    fn submit_server(&mut self, input: &str, retry: &Option<String>, refusal: Option<String>)
        requires
            old(self)@.wf(),
        ensures
            final(self)@ == old(self)@.server_submitted(
                input@,
                opt_view(*retry),
                opt_view(refusal),
            ),
            final(self)@.wf(),
    {
        proof {
            reveal(AppV::server_submitted);
        }
        if text::trim(input).is_empty() {
            self.prompt = None;
            return;
        }
        match remote::split_address(input) {
            Err(why) => {
                self.hint(why);
            },
            Ok((server, token)) => {
                match refusal {
                    Some(why) => {
                        self.hint(why);
                    },
                    None => {
                        let again = match retry {
                            Some(r) => text::same(r.as_str(), input),
                            None => false,
                        };
                        if again {
                            self.accept_server(server, token);
                        } else {
                            // Try it now, while the address is still in the field to fix.
                            self.asking = Ask::Reach { server, token };
                        }
                    },
                }
            },
        }
    }

    /// The server that was tried answered, or did not.
    pub fn server_answered(&mut self, result: Result<(), String>)
        requires
            old(self)@.wf(),
        ensures
            final(self)@ == old(self)@.server_answered(failure_of(result)),
            final(self)@.wf(),
    {
        proof {
            reveal(AppV::server_answered);
        }
        let ghost s = self@;
        let (server, token) = match &self.asking {
            Ask::Reach { server, token } => (server.clone(), copy_opt(token)),
            _ => {
                return;
            },
        };
        self.asking = Ask::Nothing;
        let ghost a = AppV { asking: AskV::Nothing, ..s };
        assert(self@ == a);
        match result {
            Ok(_) => {
                self.accept_server(server, token);
            },
            Err(why) => {
                if let Some(p) = self.prompt.take() {
                    let retry = Some(p.input.clone());
                    let hint = text::cat2(why.as_str(), " · Enter again to add it anyway");
                    self.prompt = Some(
                        Prompt { kind: p.kind, title: p.title, input: p.input, hint, retry },
                    );
                }
            },
        }
    }

    fn submit_rename(&mut self, target: &str, input: &str)
        ensures
            final(self)@ == old(self)@.rename_submitted(target@, input@),
            final(self)@.browsing() == old(self)@.browsing(),
    {
        proof {
            reveal(AppV::rename_submitted);
        }
        let name = text::trim(input);
        if !plain_name(name) {
            self.hint("a name, without / — to put it elsewhere, use m".to_owned());
            return;
        }
        if let Some(path) = self.library_path(target) {
            let to = match paths::split_last(path.as_str(), '/') {
                Some((parent, _)) => text::cat3(parent.as_str(), "/", name),
                None => name.to_owned(),
            };
            assert(to@ == renamed(path@, name@));
            let done = text::cat2("renamed to ", name);
            self.asking = Ask::Change { target: target.to_owned(), to, done };
        }
    }

    fn submit_relocate(&mut self, target: &str, input: &str)
        ensures
            final(self)@ == old(self)@.relocate_submitted(target@, input@),
            final(self)@.browsing() == old(self)@.browsing(),
    {
        proof {
            reveal(AppV::relocate_submitted);
        }
        let to = text::strip(text::trim(input), '/');
        if !plain_path(to) {
            self.hint("a path like Artist/Album, from the top of the library".to_owned());
            return;
        }
        let done = text::cat2("moved to /", to);
        self.asking = Ask::Change { target: target.to_owned(), to: to.to_owned(), done };
    }

    /// What was to be renamed or moved has been, or has not.
    pub fn changed(&mut self, result: Result<(), String>)
        requires
            old(self)@.wf(),
        ensures
            final(self)@ == old(self)@.changed(failure_of(result)),
            final(self)@.wf(),
    {
        proof {
            reveal(AppV::changed);
        }
        let ghost s = self@;
        let done = match &self.asking {
            Ask::Change { target, to, done } => done.clone(),
            _ => {
                return;
            },
        };
        self.asking = Ask::Nothing;
        let ghost a = AppV { asking: AskV::Nothing, ..s };
        assert(self@ == a);
        match result {
            Ok(_) => {
                let ghost dv = done@;
                self.prompt = None;
                self.status = done;
                assert(self@ == (AppV { prompt: None, status: dv, ..a }));
                self.refresh_listing();
            },
            Err(why) => {
                self.hint(why);
            },
        }
    }

    /// Enter in the prompt.
    pub fn submit_prompt(&mut self)
        requires
            old(self)@.wf(),
        ensures
            final(self)@.wf(),
            final(self)@ == old(self)@.submitted(
                match old(self)@.prompt {
                    Some(p) => if p.kind is Server {
                        AppV::typed_refusal(p.input)
                    } else {
                        None
                    },
                    None => None,
                },
            ),
    {
        let refusal = match &self.prompt {
            Some(p) => match &p.kind {
                PromptKind::Server => match remote::split_address(p.input.as_str()) {
                    Ok((server, token)) => refusal(server.as_str(), &token),
                    Err(_) => None,
                },
                _ => None,
            },
            None => None,
        };
        self.submit_given(refusal);
    }

    /// The same, given why the server that was typed cannot be connected to.
    pub fn submit_given(&mut self, refusal: Option<String>)
        requires
            old(self)@.wf(),
        ensures
            final(self)@ == old(self)@.submitted(opt_view(refusal)),
            final(self)@.wf(),
    {
        proof {
            reveal(AppV::submitted);
        }
        let (input, retry) = match &self.prompt {
            None => {
                return;
            },
            Some(p) => (p.input.clone(), copy_opt(&p.retry)),
        };
        let kind = match &self.prompt {
            None => {
                return;
            },
            Some(p) => copy_kind(&p.kind),
        };
        match kind {
            PromptKind::Server => {
                self.submit_server(input.as_str(), &retry, refusal);
            },
            PromptKind::Rename(target) => {
                self.submit_rename(target.as_str(), input.as_str());
            },
            PromptKind::Relocate(target) => {
                self.submit_relocate(target.as_str(), input.as_str());
            },
            PromptKind::Delete(_) => {},
            PromptKind::Feed => {
                self.submit_feed(input.as_str());
            },
        }
    }
}

fn copy_kind(kind: &PromptKind) -> (r: PromptKind)
    ensures
        r@ == kind@,
{
    match kind {
        PromptKind::Feed => PromptKind::Feed,
        PromptKind::Server => PromptKind::Server,
        PromptKind::Rename(t) => PromptKind::Rename(t.clone()),
        PromptKind::Relocate(t) => PromptKind::Relocate(t.clone()),
        PromptKind::Delete(t) => PromptKind::Delete(t.clone()),
    }
}

} // verus!
