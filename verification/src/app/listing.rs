//! The track pane: what it lists, and what is remembered of it.

use vstd::prelude::*;
use crate::app::{folders_of, memo_of, tracks_of, bump, bumped, App, AppV, Effect};
use crate::library::{
    append_tracks, copy_tracks, find_folder, folder_place, tracks_view, FolderV, Stamp, Track, TrackV,
};
use crate::memo::{
    self, is_memo, law_the_memo_is_bounded, memo_view, recalled, remembering, Remembered,
    RememberedV,
};
use crate::paths::{self, same_path};
use crate::remote::{self, has_scheme};
use crate::text;
use crate::ui::ListState;

verus! {

/// A folder of a listing, and its tracks where they are known already.
#[derive(Debug)]
pub struct Part {
    pub path: String,
    pub stamp: Stamp,
    pub known: Option<Vec<Track>>,
}

/// What a [`Part`] holds.
pub ghost struct PartV {
    pub path: Seq<char>,
    pub stamp: Stamp,
    pub known: Option<Seq<TrackV>>,
}

impl View for Part {
    type V = PartV;

    open spec fn view(&self) -> PartV {
        PartV {
            path: self.path@,
            stamp: self.stamp,
            known: match self.known {
                Some(t) => Some(tracks_view(t@)),
                None => None,
            },
        }
    }
}

pub open spec fn parts_view(v: Seq<Part>) -> Seq<PartV> {
    Seq::new(v.len(), |i: int| v[i]@)
}

/// A folder to list, and — for `..`, which lists the folder being browsed — its
/// folders one by one, with the tracks of those already read and unchanged since. So
/// listing everything costs only the folders never looked at or changed since.
#[derive(Debug)]
pub struct Listing {
    pub dir: String,
    /// How `dir` looked in its parent's list, to file the answer under. `None` for a
    /// listing that is not remembered.
    pub stamp: Option<Stamp>,
    pub parts: Vec<Part>,
}

/// What a [`Listing`] holds.
pub ghost struct ListingV {
    pub dir: Seq<char>,
    pub stamp: Option<Stamp>,
    pub parts: Seq<PartV>,
}

impl View for Listing {
    type V = ListingV;

    open spec fn view(&self) -> ListingV {
        ListingV { dir: self.dir@, stamp: self.stamp, parts: parts_view(self.parts@) }
    }
}

/// What a [`Listing`] came back with: the tracks, and the folders it had to read on
/// the way, for the memo.
#[derive(Debug)]
pub struct Listed {
    pub dir: String,
    pub stamp: Option<Stamp>,
    pub tracks: Result<Vec<Track>, String>,
    pub found: Vec<Remembered>,
}

/// What a [`Listed`] holds.
pub ghost struct ListedV {
    pub dir: Seq<char>,
    pub stamp: Option<Stamp>,
    pub tracks: Result<Seq<TrackV>, Seq<char>>,
    pub found: Seq<RememberedV>,
}

impl View for Listed {
    type V = ListedV;

    open spec fn view(&self) -> ListedV {
        ListedV {
            dir: self.dir@,
            stamp: self.stamp,
            tracks: match self.tracks {
                Ok(t) => Ok(tracks_view(t@)),
                Err(why) => Err(why@),
            },
            found: memo_view(self.found@),
        }
    }
}

/// What an optional listing holds.
pub open spec fn opt_tracks(o: Option<Vec<Track>>) -> Option<Seq<TrackV>> {
    match o {
        Some(t) => Some(tracks_view(t@)),
        None => None,
    }
}

/// The tracks of the first `n` parts: those known, and those that could be read. A
/// server that stopped answering costs its own folders only.
pub open spec fn parts_tracks(
    parts: Seq<PartV>,
    read: Seq<Option<Seq<TrackV>>>,
    n: nat,
) -> Seq<TrackV>
    decreases n,
{
    if n == 0 {
        seq![]
    } else {
        let k = n - 1;
        parts_tracks(parts, read, k as nat) + match parts[k].known {
            Some(t) => t,
            None => if k < read.len() && read[k] is Some {
                read[k]->0
            } else {
                seq![]
            },
        }
    }
}

/// The folders that had to be read.
pub open spec fn parts_found(
    parts: Seq<PartV>,
    read: Seq<Option<Seq<TrackV>>>,
    n: nat,
) -> Seq<RememberedV>
    decreases n,
{
    if n == 0 {
        seq![]
    } else {
        let k = n - 1;
        let rest = parts_found(parts, read, k as nat);
        if parts[k].known is None && k < read.len() && read[k] is Some {
            rest.push(
                RememberedV { dir: parts[k].path, stamp: parts[k].stamp, tracks: read[k]->0 },
            )
        } else {
            rest
        }
    }
}

pub open spec fn reads_view(read: Seq<Option<Vec<Track>>>) -> Seq<Option<Seq<TrackV>>> {
    Seq::new(read.len(), |i: int| opt_tracks(read[i]))
}

impl ListingV {
    /// What a listing comes to. `own` is what was read of the folder: all of it for a
    /// listing without parts, and its own files otherwise.
    pub open spec fn outcome(
        self,
        own: Result<Seq<TrackV>, Seq<char>>,
        read: Seq<Option<Seq<TrackV>>>,
    ) -> ListedV {
        if self.parts.len() == 0 {
            ListedV { dir: self.dir, stamp: self.stamp, tracks: own, found: seq![] }
        } else {
            let first = match own {
                Ok(t) => t,
                Err(_) => seq![],
            };
            ListedV {
                dir: self.dir,
                stamp: self.stamp,
                tracks: Ok(first + parts_tracks(self.parts, read, self.parts.len())),
                found: parts_found(self.parts, read, self.parts.len()),
            }
        }
    }
}

impl Listing {
    /// Put a listing together from what was read.
    pub fn run(self, own: Result<Vec<Track>, String>, read: &Vec<Option<Vec<Track>>>) -> (r: Listed)
        ensures
            r@ == self@.outcome(
                match own {
                    Ok(t) => Ok(tracks_view(t@)),
                    Err(why) => Err(why@),
                },
                reads_view(read@),
            ),
    {
        let mut found: Vec<Remembered> = Vec::new();
        assert(memo_view(found@) =~= seq![]);
        if self.parts.len() == 0 {
            return Listed { dir: self.dir, stamp: self.stamp, tracks: own, found };
        }
        // The folder's own files first.
        let mut tracks: Vec<Track> = match own {
            Ok(t) => t,
            Err(_) => {
                let none: Vec<Track> = Vec::new();
                assert(tracks_view(none@) =~= seq![]);
                none
            },
        };
        let ghost first = tracks_view(tracks@);
        let ghost parts = parts_view(self.parts@);
        let ghost reads = reads_view(read@);
        let mut i: usize = 0;
        assert(first + parts_tracks(parts, reads, 0) =~= first);
        while i < self.parts.len()
            invariant
                i <= self.parts@.len(),
                parts == parts_view(self.parts@),
                reads == reads_view(read@),
                tracks_view(tracks@) == first + parts_tracks(parts, reads, i as nat),
                memo_view(found@) == parts_found(parts, reads, i as nat),
            decreases self.parts@.len() - i,
        {
            let part = &self.parts[i];
            let ghost was = tracks_view(tracks@);
            let ghost kept = memo_view(found@);
            assert(parts[i as int] == part@);
            assert(was + seq![] =~= was);
            match &part.known {
                Some(known) => {
                    append_tracks(&mut tracks, known);
                    assert(tracks_view(tracks@) =~= first + parts_tracks(
                        parts,
                        reads,
                        (i + 1) as nat,
                    ));
                },
                None => {
                    if i < read.len() {
                        if let Some(listed) = &read[i] {
                            assert(reads[i as int] == Some(tracks_view(listed@)));
                            append_tracks(&mut tracks, listed);
                            let entry = Remembered {
                                dir: part.path.clone(),
                                stamp: part.stamp,
                                tracks: copy_tracks(listed),
                            };
                            let ghost ev = entry@;
                            found.push(entry);
                            proof {
                                assert(memo_view(found@) =~= kept.push(ev));
                                assert(tracks_view(tracks@) =~= first + parts_tracks(
                                    parts,
                                    reads,
                                    (i + 1) as nat,
                                ));
                            }
                        } else {
                            assert(reads[i as int] is None);
                            assert(parts_tracks(parts, reads, (i + 1) as nat) =~= parts_tracks(
                                parts,
                                reads,
                                i as nat,
                            ));
                        }
                    } else {
                        assert(parts_tracks(parts, reads, (i + 1) as nat) =~= parts_tracks(
                            parts,
                            reads,
                            i as nat,
                        ));
                    }
                },
            }
            i = i + 1;
        }
        Listed { dir: self.dir, stamp: self.stamp, tracks: Ok(tracks), found }
    }
}

/// The last of the replies that answers the newest request.
pub open spec fn newest_listed(replies: Seq<(u64, ListedV)>, generation: u64) -> Option<ListedV>
    decreases replies.len(),
{
    if replies.len() == 0 {
        None
    } else if replies.last().0 == generation {
        Some(replies.last().1)
    } else {
        newest_listed(replies.drop_last(), generation)
    }
}

pub open spec fn replies_view(v: Seq<(u64, Listed)>) -> Seq<(u64, ListedV)> {
    Seq::new(v.len(), |i: int| (v[i].0, v[i].1@))
}

/// With several folders read anew.
pub open spec fn remembering_all(memo: Seq<RememberedV>, found: Seq<RememberedV>) -> Seq<
    RememberedV,
>
    decreases found.len(),
{
    if found.len() == 0 {
        memo
    } else {
        let f = found.last();
        remembering(remembering_all(memo, found.drop_last()), f.dir, f.stamp, f.tracks)
    }
}

/// The newest of the replies to `generation`, taken out of them.
pub fn take_newest(replies: Vec<(u64, Listed)>, generation: u64) -> (r: Option<Listed>)
    ensures
        match r {
            Some(listed) => newest_listed(replies_view(replies@), generation) == Some(listed@),
            None => newest_listed(replies_view(replies@), generation) is None,
        },
{
    let ghost all = replies_view(replies@);
    let mut rest = replies;
    assert(replies_view(rest@) =~= all);
    loop
        invariant
            newest_listed(all, generation) == newest_listed(replies_view(rest@), generation),
            all == replies_view(replies@),
        decreases rest@.len(),
    {
        let ghost was = rest@;
        match rest.pop() {
            None => {
                assert(replies_view(was).len() == 0);
                return None;
            },
            Some((got, listed)) => {
                proof {
                    assert(replies_view(was).last() == (got, listed@));
                    assert(replies_view(was).drop_last() =~= replies_view(rest@));
                }
                if got == generation {
                    return Some(listed);
                }
            },
        }
    }
}

impl AppV {
    /// What to ask for to list `dir`. For `..` on a local folder that is every folder
    /// on screen — at the root, the server's among them — and what is still good of
    /// each. A server's own folder lists itself whole in one call.
    pub open spec fn listing(self, dir: Seq<char>) -> ListingV {
        if same_path(dir, self.cwd) && !has_scheme(self.cwd) {
            ListingV {
                dir,
                stamp: None,
                parts: Seq::new(
                    self.folders.len(),
                    |i: int|
                        PartV {
                            path: self.folders[i].path,
                            stamp: self.folders[i].stamp(),
                            known: recalled(self.memo, self.folders[i]),
                        },
                ),
            }
        } else {
            let at = folder_place(self.folders, dir);
            ListingV {
                dir,
                stamp: if at < self.folders.len() {
                    Some(self.folders[at as int].stamp())
                } else {
                    None
                },
                parts: seq![],
            }
        }
    }

    /// With `tracks` on screen.
    #[verifier::opaque]
    pub open spec fn showing(self, tracks: Seq<TrackV>) -> AppV {
        AppV {
            tracks,
            track_state: if tracks.len() > 0 {
                ListState::on(0)
            } else {
                ListState::fresh()
            },
            ..self
        }.resuming()
    }

    /// What is remembered of the folder at `dir`, if it is listed and unchanged.
    pub open spec fn at_hand(self, dir: Seq<char>) -> Option<Seq<TrackV>> {
        let at = folder_place(self.folders, dir);
        if at < self.folders.len() {
            recalled(self.memo, self.folders[at as int])
        } else {
            None
        }
    }

    /// With the tracks of whatever the cursor points at asked for, or shown at once
    /// when they are remembered.
    #[verifier::opaque]
    pub open spec fn reloading(self) -> AppV {
        let dir = self.listing_dir();
        if self.tracks_dir matches Some(d) && same_path(d, dir) {
            self
        } else {
            let a = AppV { tracks_dir: Some(dir), ..self };
            match a.at_hand(dir) {
                Some(tracks) => AppV { tracks_loading: false, ..a }.showing(tracks),
                None => AppV {
                    tracks_loading: true,
                    scan_generation: bumped(a.scan_generation),
                    ..a
                }.doing(Effect::Scan),
            }
        }
    }

    /// With a finished scan picked up. The generation can still match a folder that
    /// was left: only the directory says whose tracks these are.
    #[verifier::opaque]
    pub open spec fn scanned(self, replies: Seq<(u64, ListedV)>) -> AppV {
        match newest_listed(replies, self.scan_generation) {
            None => self,
            Some(l) => {
                let a = AppV { memo: remembering_all(self.memo, l.found), ..self };
                if !(self.tracks_dir matches Some(d) && same_path(d, l.dir)) {
                    a
                } else {
                    let b = AppV { tracks_loading: false, ..a };
                    match l.tracks {
                        Ok(tracks) => {
                            let c = match l.stamp {
                                Some(stamp) => AppV {
                                    memo: remembering(b.memo, l.dir, stamp, tracks),
                                    ..b
                                },
                                None => b,
                            };
                            c.showing(tracks)
                        },
                        Err(why) => AppV { tracks_dir: None, ..b }.saying(
                            "error: "@ + why,
                        ).showing(seq![]),
                    }
                }
            },
        }
    }

    /// With the folder playback is running on into picked up.
    #[verifier::opaque]
    pub open spec fn followed(self, replies: Seq<(u64, ListedV)>) -> AppV {
        match newest_listed(replies, self.follow_generation) {
            None => self,
            Some(l) => {
                let a = AppV { memo: remembering_all(self.memo, l.found), ..self };
                if !(self.following_into matches Some(d) && same_path(d, l.dir)) {
                    a
                } else {
                    let b = AppV { following_into: None, ..a };
                    match l.tracks {
                        Ok(tracks) => {
                            let c = match l.stamp {
                                Some(stamp) => AppV {
                                    memo: remembering(b.memo, l.dir, stamp, tracks),
                                    ..b
                                },
                                None => b,
                            };
                            c.playing_folder(l.dir, tracks)
                        },
                        Err(why) => b.stopped().saying("error: "@ + why),
                    }
                }
            },
        }
    }
}

impl App {
    /// What to ask a worker for to list `dir`.
    pub fn listing(&self, dir: &str) -> (r: Listing)
        ensures
            r@ == self@.listing(dir@),
    {
        proof {
            reveal(folders_of);
            reveal(memo_of);
        }
        let mut parts: Vec<Part> = Vec::new();
        if paths::same(dir, self.cwd.as_str()) && !remote::is_remote(self.cwd.as_str()) {
            let mut i: usize = 0;
            let ghost want = self@.listing(dir@).parts;
            while i < self.folders.len()
                invariant
                    i <= self.folders@.len(),
                    want.len() == self.folders@.len(),
                    want == self@.listing(dir@).parts,
                    same_path(dir@, self@.cwd) && !has_scheme(self@.cwd),
                    parts@.len() == i,
                    forall|k: int| 0 <= k < i ==> (#[trigger] parts@[k])@ == want[k],
                decreases self.folders@.len() - i,
            {
                proof {
                    reveal(folders_of);
                    reveal(memo_of);
                }
                let f = &self.folders[i];
                let part = Part { path: f.path.clone(), stamp: f.stamp(), known: self.memo.recall(f) };
                assert(self@.folders[i as int] == f@);
                assert(part@ == want[i as int]);
                parts.push(part);
                i = i + 1;
            }
            assert(parts_view(parts@) =~= want);
            return Listing { dir: dir.to_owned(), stamp: None, parts };
        }
        assert(parts_view(parts@) =~= seq![]);
        let stamp = match find_folder(&self.folders, dir) {
            Some(at) => {
                assert(self@.folders[at as int] == self.folders@[at as int]@);
                Some(self.folders[at].stamp())
            },
            None => None,
        };
        Listing { dir: dir.to_owned(), stamp, parts }
    }

    /// The listing that goes with [`Effect::Scan`].
    pub fn scan_listing(&self) -> (r: Option<Listing>)
        ensures
            match r {
                Some(l) => self@.tracks_dir matches Some(d) && l@ == self@.listing(d),
                None => self@.tracks_dir is None,
            },
    {
        match &self.tracks_dir {
            Some(dir) => Some(self.listing(dir.as_str())),
            None => None,
        }
    }

    /// Put `tracks` on screen.
    pub fn show_tracks(&mut self, tracks: Vec<Track>)
        ensures
            final(self)@ == old(self)@.showing(tracks_view(tracks@)),
            final(self)@.browsing() == old(self)@.browsing(),
    {
        proof {
            reveal(tracks_of);
            reveal(AppV::showing);
        }
        self.tracks = tracks;
        self.track_state = ListState::new(None);
        if self.tracks.len() > 0 {
            self.track_state.select(Some(0));
        }
        self.try_resume();
    }

    /// Ask for the tracks of whatever the cursor points at. Served from the memo when
    /// possible, otherwise handed to a worker.
    pub fn reload_tracks(&mut self)
        requires
            old(self)@.wf(),
        ensures
            final(self)@ == old(self)@.reloading(),
            final(self)@.wf(),
            final(self)@.folders == old(self)@.folders,
    {
        proof {
            reveal(folders_of);
            reveal(memo_of);
            reveal(AppV::reloading);
        }
        let dir = self.listing_dir();
        if let Some(d) = &self.tracks_dir {
            if paths::same(d.as_str(), dir.as_str()) {
                return;
            }
        }
        self.tracks_dir = Some(dir.clone());
        let cached = match find_folder(&self.folders, dir.as_str()) {
            Some(at) => {
                assert(self@.folders[at as int] == self.folders@[at as int]@);
                self.memo.recall(&self.folders[at])
            },
            None => None,
        };
        match cached {
            Some(tracks) => {
                // Whatever scan was running is for the folder just left, and nothing
                // will clear the flag for it: this listing is already complete.
                self.tracks_loading = false;
                self.show_tracks(tracks);
            },
            None => {
                self.tracks_loading = true;
                self.scan_generation = bump(self.scan_generation);
                self.act(Effect::Scan);
            },
        }
    }

    fn remember(&mut self, dir: &str, stamp: Stamp, tracks: Vec<Track>)
        requires
            old(self)@.wf(),
        ensures
            final(self)@ == (AppV {
                memo: remembering(old(self)@.memo, dir@, stamp, tracks_view(tracks@)),
                ..old(self)@
            }),
            final(self)@.wf(),
    {
        proof {
            reveal(memo_of);
        }
        proof {
            reveal(is_memo);
            law_the_memo_is_bounded(self.memo@, dir@, stamp, tracks_view(tracks@));
        }
        self.memo.remember(dir, stamp, tracks);
    }

    fn remember_all(&mut self, found: &Vec<Remembered>)
        requires
            old(self)@.wf(),
        ensures
            final(self)@ == (AppV {
                memo: remembering_all(old(self)@.memo, memo_view(found@)),
                ..old(self)@
            }),
            final(self)@.wf(),
    {
        let ghost all = memo_view(found@);
        let ghost before = self@;
        let mut i: usize = 0;
        assert(all.take(0) =~= seq![]);
        while i < found.len()
            invariant
                i <= found@.len(),
                all == memo_view(found@),
                self@ == (AppV { memo: remembering_all(before.memo, all.take(i as int)), ..before }),
                self@.wf(),
            decreases found@.len() - i,
        {
            let f = &found[i];
            proof {
                let t = all.take(i as int + 1);
                assert(t.drop_last() =~= all.take(i as int));
                assert(t.last() == f@);
            }
            self.remember(f.dir.as_str(), f.stamp, copy_tracks(&f.tracks));
            i = i + 1;
        }
        assert(all.take(i as int) =~= all);
    }

    /// Pick up a finished scan.
    pub fn poll_tracks(&mut self, replies: Vec<(u64, Listed)>)
        requires
            old(self)@.wf(),
        ensures
            final(self)@ == old(self)@.scanned(replies_view(replies@)),
            final(self)@.wf(),
    {
        proof {
            reveal(AppV::scanned);
        }
        let listed = match take_newest(replies, self.scan_generation) {
            None => {
                return;
            },
            Some(listed) => listed,
        };
        let ghost s = self@;
        let ghost l = listed@;
        self.remember_all(&listed.found);
        let ghost a = AppV { memo: remembering_all(s.memo, l.found), ..s };
        assert(self@ == a);
        let wanted = match &self.tracks_dir {
            Some(d) => paths::same(d.as_str(), listed.dir.as_str()),
            None => false,
        };
        if !wanted {
            return;
        }
        self.tracks_loading = false;
        let ghost b = AppV { tracks_loading: false, ..a };
        assert(self@ == b);
        match listed.tracks {
            Ok(tracks) => {
                if let Some(stamp) = listed.stamp {
                    self.remember(listed.dir.as_str(), stamp, copy_tracks(&tracks));
                    assert(self@ == (AppV {
                        memo: remembering(b.memo, l.dir, stamp, tracks_view(tracks@)),
                        ..b
                    }));
                }
                self.show_tracks(tracks);
            },
            // Not remembered, so moving back onto the folder asks again.
            Err(why) => {
                self.tracks_dir = None;
                self.say(text::cat2("error: ", why.as_str()));
                assert(self@ == AppV { tracks_dir: None, ..b }.saying("error: "@ + why@));
                let none: Vec<Track> = Vec::new();
                assert(tracks_view(none@) =~= seq![]);
                self.show_tracks(none);
            },
        }
    }

    /// Pick up the folder playback is running on into.
    pub fn poll_follow(&mut self, replies: Vec<(u64, Listed)>)
        requires
            old(self)@.wf(),
        ensures
            final(self)@ == old(self)@.followed(replies_view(replies@)),
            final(self)@.wf(),
    {
        proof {
            reveal(AppV::followed);
        }
        let listed = match take_newest(replies, self.follow_generation) {
            None => {
                return;
            },
            Some(listed) => listed,
        };
        let ghost s = self@;
        let ghost l = listed@;
        self.remember_all(&listed.found);
        let ghost a = AppV { memo: remembering_all(s.memo, l.found), ..s };
        assert(self@ == a);
        // Stopped, or something else started, while it was being listed.
        let wanted = match &self.following_into {
            Some(d) => paths::same(d.as_str(), listed.dir.as_str()),
            None => false,
        };
        if !wanted {
            return;
        }
        self.following_into = None;
        let ghost b = AppV { following_into: None, ..a };
        assert(self@ == b);
        match listed.tracks {
            Ok(tracks) => {
                if let Some(stamp) = listed.stamp {
                    self.remember(listed.dir.as_str(), stamp, copy_tracks(&tracks));
                    assert(self@ == (AppV {
                        memo: remembering(b.memo, l.dir, stamp, tracks_view(tracks@)),
                        ..b
                    }));
                }
                self.play_folder(listed.dir.as_str(), tracks);
            },
            Err(why) => {
                self.stop_playback();
                self.say(text::cat2("error: ", why.as_str()));
            },
        }
    }
}

// ---------------------------------------------------------------------------

/// Of several replies to one request the last counts, and replies to others do not.
pub proof fn law_the_last_reply_counts(
    replies: Seq<(u64, ListedV)>,
    generation: u64,
    other: u64,
    l: ListedV,
)
    ensures
        newest_listed(replies.push((generation, l)), generation) == Some(l),
        other != generation ==> newest_listed(replies.push((other, l)), generation)
            == newest_listed(replies, generation),
        newest_listed(seq![], generation) is None,
{
    assert(replies.push((generation, l)).drop_last() =~= replies);
    assert(replies.push((other, l)).drop_last() =~= replies);
}

/// The tracks of a folder with parts are its own, and then those of each part in turn:
/// as they are remembered, or as they were read, and none of one that could not be.
pub proof fn law_parts_are_listed_in_turn(
    listing: ListingV,
    own: Seq<TrackV>,
    read: Seq<Option<Seq<TrackV>>>,
    k: int,
)
    requires
        0 <= k < listing.parts.len(),
        read.len() == listing.parts.len(),
    ensures
        ({
            let before = parts_tracks(listing.parts, read, k as nat);
            let part = match listing.parts[k].known {
                Some(known) => known,
                None => match read[k] {
                    Some(tracks) => tracks,
                    None => seq![],
                },
            };
            let all = listing.outcome(Ok(own), read);
            &&& all.dir == listing.dir
            &&& all.tracks matches Ok(tracks) && {
                &&& tracks.len() >= own.len() + before.len() + part.len()
                &&& tracks.take(own.len() as int) == own
                &&& tracks.subrange(
                    (own.len() + before.len()) as int,
                    (own.len() + before.len() + part.len()) as int,
                ) == part
            }
        }),
{
    let n = listing.parts.len();
    let before = parts_tracks(listing.parts, read, k as nat);
    let upto = parts_tracks(listing.parts, read, (k + 1) as nat);
    let all = parts_tracks(listing.parts, read, n);
    let part = match listing.parts[k].known {
        Some(known) => known,
        None => match read[k] {
            Some(tracks) => tracks,
            None => seq![],
        },
    };
    assert(upto == before + part);
    lemma_parts_grow(listing.parts, read, (k + 1) as nat, n);
    let whole = own + all;
    assert(whole.take(own.len() as int) =~= own);
    assert forall|i: int| 0 <= i < part.len() implies whole[own.len() + before.len() + i]
        == #[trigger] part[i] by {
        assert(upto[before.len() + i] == part[i]);
        assert(all.take(upto.len() as int)[before.len() + i] == all[before.len() + i]);
    }
    assert(whole.subrange(
        (own.len() + before.len()) as int,
        (own.len() + before.len() + part.len()) as int,
    ) =~= part);
}

proof fn lemma_parts_grow(parts: Seq<PartV>, read: Seq<Option<Seq<TrackV>>>, k: nat, n: nat)
    requires
        k <= n,
    ensures
        parts_tracks(parts, read, k).len() <= parts_tracks(parts, read, n).len(),
        parts_tracks(parts, read, n).take(parts_tracks(parts, read, k).len() as int)
            == parts_tracks(parts, read, k),
    decreases n,
{
    let a = parts_tracks(parts, read, k);
    if k == n {
        assert(a.take(a.len() as int) =~= a);
    } else {
        let m = (n - 1) as nat;
        lemma_parts_grow(parts, read, k, m);
        let b = parts_tracks(parts, read, m);
        let c = parts_tracks(parts, read, n);
        assert(c.take(b.len() as int) =~= b);
        assert(c.take(a.len() as int) =~= b.take(a.len() as int));
    }
}

/// A folder is listed by itself, as it looked in its list; the first row lists everything
/// on screen, each folder with what is remembered of it as it looks now.
pub proof fn law_what_is_asked_for_is_what_is_shown(s: AppV, i: int)
    requires
        0 <= i < s.folders.len(),
    ensures
        !has_scheme(s.cwd) ==> {
            let all = s.listing(s.cwd);
            &&& all.dir == s.cwd
            &&& all.parts.len() == s.folders.len()
            &&& all.parts[i].path == s.folders[i].path
            &&& all.parts[i].stamp == s.folders[i].stamp()
            &&& all.parts[i].known == recalled(s.memo, s.folders[i])
        },
        !same_path(s.folders[i].path, s.cwd) && (forall|j: int|
            0 <= j < i ==> !same_path((#[trigger] s.folders[j]).path, s.folders[i].path)) ==> {
            let one = s.listing(s.folders[i].path);
            &&& one.dir == s.folders[i].path
            &&& one.parts.len() == 0
            &&& one.stamp == Some(s.folders[i].stamp())
        },
{
    let path = s.folders[i].path;
    crate::library::law_the_first_match_is_found(s.folders, seq![], path);
    let at = folder_place(s.folders, path) as int;
    if at < i {
        assert(same_path(s.folders[at].path, path));
    }
}

/// Every part that had to be read, and could be, is found: with the tracks that were read
/// of it, as it looked in its list. What was remembered already is not found again.
pub proof fn law_what_was_read_is_found(
    parts: Seq<PartV>,
    read: Seq<Option<Seq<TrackV>>>,
    n: nat,
    k: int,
)
    requires
        n <= parts.len(),
        n <= read.len(),
        0 <= k < n,
    ensures
        parts[k].known is None && read[k] is Some ==> parts_found(parts, read, n).contains(
            RememberedV { dir: parts[k].path, stamp: parts[k].stamp, tracks: read[k]->0 },
        ),
        parts_found(parts, read, n).len() <= n,
        forall|e: RememberedV| #[trigger]
            parts_found(parts, read, n).contains(e) ==> exists|j: int|
                0 <= j < n && (#[trigger] parts[j]).known is None && parts[j].path == e.dir
                    && parts[j].stamp == e.stamp && read[j] == Some(e.tracks),
    decreases n,
{
    let m = n - 1;
    let rest = parts_found(parts, read, m as nat);
    let all = parts_found(parts, read, n);
    if m > 0 {
        law_what_was_read_is_found(
            parts,
            read,
            m as nat,
            if k < m {
                k
            } else {
                0
            },
        );
    }
    let here = parts[m].known is None && read[m] is Some;
    let e = RememberedV { dir: parts[m].path, stamp: parts[m].stamp, tracks: read[m]->0 };
    if here {
        assert(all == rest.push(e));
        assert(all[rest.len() as int] == e);
        if k < m && parts[k].known is None && read[k] is Some {
            let f = RememberedV { dir: parts[k].path, stamp: parts[k].stamp, tracks: read[k]->0 };
            let j = choose|j: int| 0 <= j < rest.len() && rest[j] == f;
            assert(all[j] == f);
        }
    }
    assert forall|f: RememberedV| #[trigger] all.contains(f) implies exists|j: int|
        0 <= j < n && (#[trigger] parts[j]).known is None && parts[j].path == f.dir
            && parts[j].stamp == f.stamp && read[j] == Some(f.tracks) by {
        let at = choose|at: int| 0 <= at < all.len() && all[at] == f;
        if here && at == rest.len() {
            assert(parts[m].path == f.dir);
        } else {
            assert(rest[at] == f);
            assert(rest.contains(f));
            assert(m > 0);
        }
    }
}

/// What was found is remembered, the last of it in any case.
pub proof fn law_what_was_found_is_remembered(
    memo: Seq<RememberedV>,
    found: Seq<RememberedV>,
    folder: FolderV,
    tracks: Seq<TrackV>,
)
    requires
        is_memo(memo),
    ensures
        is_memo(remembering_all(memo, found)),
        recalled(
            remembering_all(
                memo,
                found.push(RememberedV { dir: folder.path, stamp: folder.stamp(), tracks }),
            ),
            folder,
        ) == Some(tracks),
        remembering_all(memo, seq![]) == memo,
    decreases found.len(),
{
    let e = RememberedV { dir: folder.path, stamp: folder.stamp(), tracks };
    assert(found.push(e).drop_last() =~= found);
    if found.len() > 0 {
        law_what_was_found_is_remembered(memo, found.drop_last(), folder, tracks);
        let f = found.last();
        law_the_memo_is_bounded(
            remembering_all(memo, found.drop_last()),
            f.dir,
            f.stamp,
            f.tracks,
        );
    }
    crate::memo::law_what_is_read_is_recalled(remembering_all(memo, found), folder, tracks);
}

} // verus!
