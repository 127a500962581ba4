//! One music folder, served to others.
//!
//! The server holds no index and no database: what a client browses is always what
//! is on disk right now.
//!
//! # Paths
//!
//! Every path arrives relative to the music folder and is checked twice before it
//! touches the disk: lexically (no `..`, nothing absolute), and then against the real
//! file system, so a link inside the folder cannot be used to reach outside it.
//!
//! # Changes
//!
//! Upload, remove and move need a token. A server started without one is read-only.

use vstd::prelude::*;
use vstd::utf8::encode_utf8_decode_utf8;
use crate::library::{arranged, sorts, Folder, FolderV, Track, TrackV};
use crate::order;
use crate::paths::{self, comps, dot, dots, inside, same_path, slash, within};
use crate::ratings::{is_latest, stars_of, Ratings};
use crate::remote::{carried, served_track, Code, ListedFolder, ListedTrack, Message, Stat, Status};
use crate::text::{self, decimal, joined, pieces, stripped, views};
use crate::time::Duration;

verus! {

/// The largest message either side will accept.
pub const MAX_MESSAGE: usize = 67108864;

/// Size of each piece of a file on the wire, both ways.
pub const CHUNK: usize = 262144;

/// Where a server listens unless told otherwise.
pub const DEFAULT_PORT: u16 = 7700;

impl Status {
    pub open spec fn says(self, code: Code, message: Seq<char>) -> bool {
        self.code == code && self.message@ == message
    }

    /// A status with what there is to say about it.
    pub fn new(code: Code, message: &str) -> (s: Status)
        ensures
            s.says(code, message@),
    {
        Status { code, message: message.to_owned() }
    }
}

/// Two byte strings are equal, found out in a time that does not tell where they
/// differ.
pub fn constant_time_eq(a: &[u8], b: &[u8]) -> (r: bool)
    ensures
        r == (a@ == b@),
{
    if a.len() != b.len() {
        return false;
    }
    let mut acc: u8 = 0;
    let mut i: usize = 0;
    while i < a.len()
        invariant
            i <= a@.len(),
            a@.len() == b@.len(),
            (acc == 0) == (forall|k: int| 0 <= k < i ==> #[trigger] a@[k] == b@[k]),
        decreases a@.len() - i,
    {
        let x: u8 = a[i];
        let y: u8 = b[i];
        let next: u8 = acc | (x ^ y);
        proof {
            assert((acc | (x ^ y)) == 0 <==> acc == 0 && x == y) by (bit_vector);
            if next == 0 {
                assert forall|k: int| 0 <= k < i + 1 implies #[trigger] a@[k] == b@[k] by {}
            } else if forall|k: int| 0 <= k < i + 1 ==> #[trigger] a@[k] == b@[k] {
                assert(a@[i as int] == b@[i as int]);
            }
        }
        acc = next;
        i = i + 1;
    }
    proof {
        if acc == 0 {
            assert(a@ =~= b@);
        }
    }
    acc == 0
}

/// The header that lets a call through.
pub open spec fn bearer(token: Seq<char>) -> Seq<char> {
    "Bearer "@ + token
}

/// Let a call through, given the server's token and the header that came with the
/// call. A server without a token lets everyone in.
pub fn check_token(token: &Option<String>, given: Option<&str>) -> (r: Result<(), Status>)
    ensures
        ({
            let welcome = match token {
                None => true,
                Some(t) => given matches Some(g) && g@ == bearer(t@),
            };
            match r {
                Ok(_) => welcome,
                Err(s) => !welcome && s.says(Code::Unauthenticated, "wrong or missing token"@),
            }
        }),
{
    match token {
        None => Ok(()),
        Some(t) => {
            let expected = text::cat2("Bearer ", t.as_str());
            proof {
                if let Some(g) = given {
                    encode_utf8_decode_utf8(g@);
                }
                encode_utf8_decode_utf8(expected@);
            }
            match given {
                Some(g) => if constant_time_eq(g.as_bytes(), expected.as_str().as_bytes()) {
                    Ok(())
                } else {
                    Err(Status::new(Code::Unauthenticated, "wrong or missing token"))
                },
                None => Err(Status::new(Code::Unauthenticated, "wrong or missing token")),
            }
        },
    }
}

// ---------------------------------------------------------------------------
// Paths
// ---------------------------------------------------------------------------

/// The pieces of a request path that are not empty.
pub open spec fn filled_pieces(all: Seq<Seq<char>>) -> Seq<Seq<char>>
    decreases all.len(),
{
    if all.len() == 0 {
        seq![]
    } else if all.last().len() == 0 {
        filled_pieces(all.drop_last())
    } else {
        filled_pieces(all.drop_last()).push(all.last())
    }
}

/// A part that names an entry of a directory, and nothing else.
pub open spec fn is_plain(part: Seq<char>) -> bool {
    part.len() > 0 && part != dot() && part != dots() && !part.contains('/')
}

/// The parts of a request path.
pub open spec fn lexical_parts(rel: Seq<char>) -> Seq<Seq<char>> {
    filled_pieces(pieces(rel, '/'))
}

/// No part of a request path climbs or stays where it is.
pub open spec fn is_lexical(rel: Seq<char>) -> bool {
    forall|i: int|
        0 <= i < lexical_parts(rel).len() ==> (#[trigger] lexical_parts(rel)[i]) != dot()
            && lexical_parts(rel)[i] != dots()
}

/// Reject anything that could climb out of the root before the file system is even
/// asked. The empty path is the root itself.
pub fn lexical(rel: &str) -> (r: Result<Vec<String>, Status>)
    ensures
        match r {
            Ok(parts) => is_lexical(rel@) && views(parts@) == lexical_parts(rel@),
            Err(s) => !is_lexical(rel@) && s.says(Code::InvalidArgument, "bad path: "@ + rel@),
        },
{
    let all = text::split(rel, '/');
    let ghost every = pieces(rel@, '/');
    let mut out: Vec<String> = Vec::new();
    let mut i: usize = 0;
    proof {
        assert(every.take(0) =~= seq![]);
        assert(views(out@) =~= seq![]);
    }
    while i < all.len()
        invariant
            i <= all@.len(),
            every == views(all@),
            every == pieces(rel@, '/'),
            views(out@) == filled_pieces(every.take(i as int)),
            forall|k: int|
                0 <= k < views(out@).len() ==> (#[trigger] views(out@)[k]) != dot()
                    && views(out@)[k] != dots(),
        decreases all@.len() - i,
    {
        let ghost was = views(out@);
        proof {
            let t = every.take(i as int + 1);
            assert(t.drop_last() =~= every.take(i as int));
            assert(t.last() == all@[i as int]@);
        }
        let v = text::chars_of(all[i].as_str());
        if v.len() > 0 {
            let bad: bool = (v.len() == 1 && v[0] == '.') || (v.len() == 2 && v[0] == '.' && v[1]
                == '.');
            proof {
                if v@.len() == 1 && v@[0] == '.' {
                    assert(v@ =~= dot());
                }
                if v@.len() == 2 && v@[0] == '.' && v@[1] == '.' {
                    assert(v@ =~= dots());
                }
                assert(dot()[0] == '.');
                assert(dots()[0] == '.' && dots()[1] == '.');
            }
            if bad {
                proof {
                    lemma_filled_prefix(every, i as int + 1);
                    let n = was.len() as int;
                    assert(filled_pieces(every.take(i as int + 1)) == was.push(v@));
                    assert(lexical_parts(rel@)[n] == v@);
                }
                return Err(
                    Status::new(Code::InvalidArgument, text::cat2("bad path: ", rel).as_str()),
                );
            }
            out.push(all[i].clone());
            proof {
                assert(views(out@) =~= was.push(v@));
                assert forall|k: int| 0 <= k < views(out@).len() implies (
                #[trigger] views(out@)[k]) != dot() && views(out@)[k] != dots() by {
                    if k < was.len() {
                        assert(views(out@)[k] == was[k]);
                    }
                }
            }
        }
        i = i + 1;
    }
    assert(every.take(i as int) =~= every);
    Ok(out)
}

proof fn lemma_filled_prefix(all: Seq<Seq<char>>, k: int)
    requires
        0 <= k <= all.len(),
    ensures
        filled_pieces(all.take(k)).len() <= filled_pieces(all).len(),
        forall|i: int|
            0 <= i < filled_pieces(all.take(k)).len() ==> filled_pieces(all.take(k))[i]
                == #[trigger] filled_pieces(all)[i],
    decreases all.len() - k,
{
    if k == all.len() {
        assert(all.take(k) =~= all);
    } else {
        lemma_filled_prefix(all, k + 1);
        let t = all.take(k + 1);
        assert(t.drop_last() =~= all.take(k));
        let a = filled_pieces(all.take(k));
        let b = filled_pieces(t);
        assert forall|i: int| 0 <= i < a.len() implies a[i] == #[trigger] filled_pieces(
            all,
        )[i] by {
            assert(a[i] == b[i]);
        }
    }
}

proof fn lemma_pieces_hold_no_separator(s: Seq<char>, c: char)
    ensures
        forall|i: int| 0 <= i < pieces(s, c).len() ==> !(#[trigger] pieces(s, c)[i]).contains(c),
    decreases s.len(),
{
    text::lemma_find(s, c);
    let at = text::find(s, c) as int;
    if at < s.len() {
        lemma_pieces_hold_no_separator(s.skip(at + 1), c);
        let rest = pieces(s.skip(at + 1), c);
        let all = pieces(s, c);
        assert forall|i: int| 0 <= i < all.len() implies !(#[trigger] all[i]).contains(c) by {
            if i == 0 {
                assert(all[0] == s.take(at));
                assert forall|k: int| 0 <= k < at implies #[trigger] s.take(at)[k] != c by {
                    assert(s.take(at)[k] == s[k]);
                }
            } else {
                assert(all[i] == rest[i - 1]);
            }
        }
    } else {
        assert forall|k: int| 0 <= k < s.len() implies #[trigger] s[k] != c by {}
    }
}

proof fn lemma_filled_are_pieces(all: Seq<Seq<char>>)
    ensures
        forall|i: int|
            0 <= i < filled_pieces(all).len() ==> (#[trigger] filled_pieces(all)[i]).len() > 0
                && all.contains(filled_pieces(all)[i]),
    decreases all.len(),
{
    if all.len() > 0 {
        let rest = all.drop_last();
        lemma_filled_are_pieces(rest);
        let f = filled_pieces(all);
        let g = filled_pieces(rest);
        assert forall|i: int| 0 <= i < f.len() implies (#[trigger] f[i]).len() > 0
            && all.contains(f[i]) by {
            if i < g.len() {
                assert(f[i] == g[i]);
                let k = choose|k: int| 0 <= k < rest.len() && rest[k] == g[i];
                assert(all[k] == f[i]);
            } else {
                assert(f[i] == all[all.len() - 1]);
            }
        }
    }
}

/// A request path that is let through names entries only: nothing in it climbs out
/// of the folder it starts from.
pub proof fn law_lexical_paths_stay_inside(rel: Seq<char>)
    requires
        is_lexical(rel),
    ensures
        forall|i: int|
            0 <= i < lexical_parts(rel).len() ==> is_plain(#[trigger] lexical_parts(rel)[i]),
{
    lemma_pieces_hold_no_separator(rel, '/');
    lemma_filled_are_pieces(pieces(rel, '/'));
    let parts = lexical_parts(rel);
    assert forall|i: int| 0 <= i < parts.len() implies is_plain(#[trigger] parts[i]) by {
        assert(pieces(rel, '/').contains(parts[i]));
        let k = choose|k: int| 0 <= k < pieces(rel, '/').len() && pieces(rel, '/')[k] == parts[i];
        assert(!pieces(rel, '/')[k].contains('/'));
    }
}

/// A path with more parts at its end.
pub open spec fn extended(base: Seq<char>, parts: Seq<Seq<char>>) -> Seq<char>
    decreases parts.len(),
{
    if parts.len() == 0 {
        base
    } else {
        within(extended(base, parts.drop_last()), parts.last())
    }
}

/// A path with more parts at its end.
pub fn extend(base: &str, parts: &Vec<String>) -> (r: String)
    ensures
        r@ == extended(base@, views(parts@)),
{
    let ghost all = views(parts@);
    let mut r = base.to_owned();
    let mut i: usize = 0;
    assert(all.take(0) =~= seq![]);
    while i < parts.len()
        invariant
            i <= parts@.len(),
            all == views(parts@),
            r@ == extended(base@, all.take(i as int)),
        decreases parts@.len() - i,
    {
        r = paths::join(r.as_str(), parts[i].as_str());
        i = i + 1;
        proof {
            assert(all.take(i as int).drop_last() =~= all.take(i - 1));
            assert(all.take(i as int).last() == parts@[i - 1]@);
        }
    }
    assert(all.take(i as int) =~= all);
    r
}

/// The music folder being served.
#[derive(Debug)]
pub struct Service {
    /// With every link followed, so containment can be checked against such paths.
    pub root: String,
    pub writable: bool,
}

/// An entry of a directory, as a client sees it.
#[derive(Debug)]
pub struct Entry {
    pub name: String,
    pub is_dir: bool,
    pub size: u64,
}

/// What an [`Entry`] holds.
pub ghost struct EntryV {
    pub name: Seq<char>,
    pub is_dir: bool,
    pub size: u64,
}

impl View for Entry {
    type V = EntryV;

    open spec fn view(&self) -> EntryV {
        EntryV { name: self.name@, is_dir: self.is_dir, size: self.size }
    }
}

pub open spec fn entries_view(v: Seq<Entry>) -> Seq<EntryV> {
    Seq::new(v.len(), |i: int| v[i]@)
}

/// How something is removed.
#[derive(Debug, Clone, Copy, PartialEq, Eq, Structural)]
pub enum Removal {
    File,
    Tree,
    /// A folder, which has to be empty.
    Folder,
}

/// The protocol's name for a real path: relative to the music folder, `/`-separated.
pub open spec fn protocol_path(root: Seq<char>, path: Seq<char>) -> Seq<char> {
    if inside(path, root) {
        joined(comps(path).skip(comps(root).len() as int), slash())
    } else {
        joined(comps(path), slash())
    }
}

/// The later of two times.
pub open spec fn later(a: u64, b: u64) -> u64 {
    if a >= b {
        a
    } else {
        b
    }
}

/// What a client is told of a folder. Stars that change count as a change of the
/// folders around them, so that players which remember those hear about it.
pub open spec fn tells_folder(
    root: Seq<char>,
    stars: Map<Seq<char>, (u8, u64)>,
    folder: FolderV,
    told: ListedFolder,
) -> bool {
    let path = protocol_path(root, folder.path);
    &&& told.name@ == folder.label
    &&& told.path@ == path
    &&& told.count == folder.count as u32
    &&& exists|time: u64| #[trigger]
        is_latest(stars, path, time) && told.newest == later(folder.newest, time)
}

/// What a client is told of a track.
pub open spec fn tells_track(
    root: Seq<char>,
    stars: Map<Seq<char>, (u8, u64)>,
    track: TrackV,
    size: u64,
    told: ListedTrack,
) -> bool {
    let path = protocol_path(root, track.path);
    &&& told.path@ == path
    &&& told.title@ == track.title
    &&& told.artist@ == track.artist
    &&& told.album@ == track.album
    &&& told.duration_ms == (match track.duration {
        Some(d) => Some((d.total() / 1_000_000) as u64),
        None => None,
    })
    &&& told.size == size
    &&& told.stars == stars_of(stars, path)
}

impl Service {
    /// The folder at `root`, its links followed. Only with a token may anything be
    /// changed.
    pub fn new(root: &str, is_dir: bool, token: &Option<String>) -> (r: Result<Service, String>)
        ensures
            match r {
                Ok(s) => is_dir && s.root@ == root@ && s.writable == (token is Some),
                Err(why) => !is_dir && why@ == root@ + " is not a folder"@,
            },
    {
        if !is_dir {
            return Err(text::cat2(root, " is not a folder"));
        }
        Ok(Service { root: root.to_owned(), writable: token.is_some() })
    }

    /// Whether changes are allowed at all.
    pub fn writable(&self) -> (r: Result<(), Status>)
        ensures
            match r {
                Ok(_) => self.writable,
                Err(s) => !self.writable && s.says(
                    Code::PermissionDenied,
                    "this server is read-only: start it with TUNETERM_TOKEN to allow changes"@,
                ),
            },
    {
        if self.writable {
            Ok(())
        } else {
            Err(
                Status::new(
                    Code::PermissionDenied,
                    "this server is read-only: start it with TUNETERM_TOKEN to allow changes",
                ),
            )
        }
    }

    /// Where a request path would be, before the file system has been asked.
    pub fn target(&self, rel: &str) -> (r: Result<String, Status>)
        ensures
            match r {
                Ok(path) => is_lexical(rel@) && path@ == extended(
                    self.root@,
                    lexical_parts(rel@),
                ),
                Err(s) => !is_lexical(rel@) && s.says(
                    Code::InvalidArgument,
                    "bad path: "@ + rel@,
                ),
            },
    {
        match lexical(rel) {
            Ok(parts) => Ok(extend(self.root.as_str(), &parts)),
            Err(s) => Err(s),
        }
    }

    /// The real path for a request path, given where [`Service::target`] leads once
    /// links are followed. It must exist and lie inside the root.
    pub fn existing(&self, rel: &str, found: Option<String>) -> (r: Result<String, Status>)
        ensures
            match r {
                Ok(path) => is_lexical(rel@) && (found matches Some(p) && path@ == p@ && inside(
                    p@,
                    self.root@,
                )),
                Err(s) => if !is_lexical(rel@) {
                    s.says(Code::InvalidArgument, "bad path: "@ + rel@)
                } else {
                    match found {
                        None => s.says(
                            Code::NotFound,
                            "no such path: /"@ + stripped(rel@, '/'),
                        ),
                        Some(p) => !inside(p@, self.root@) && s.says(
                            Code::PermissionDenied,
                            "outside the music folder"@,
                        ),
                    }
                },
            },
    {
        if let Err(s) = lexical(rel) {
            return Err(s);
        }
        match found {
            None => Err(
                Status::new(
                    Code::NotFound,
                    text::cat2("no such path: /", text::strip(rel, '/')).as_str(),
                ),
            ),
            Some(path) => if paths::is_inside(path.as_str(), self.root.as_str()) {
                Ok(path)
            } else {
                Err(Status::new(Code::PermissionDenied, "outside the music folder"))
            },
        }
    }

    /// The real path for something about to be created, given where its nearest
    /// ancestor that exists leads once links are followed. That has to lie inside the
    /// root.
    pub fn creatable(&self, rel: &str, ancestor: Result<String, String>) -> (r: Result<
        String,
        Status,
    >)
        ensures
            match r {
                Ok(path) => is_lexical(rel@) && lexical_parts(rel@).len() > 0 && path@ == extended(
                    self.root@,
                    lexical_parts(rel@),
                ) && (ancestor matches Ok(held) && inside(held@, self.root@)),
                Err(s) => if !is_lexical(rel@) {
                    s.says(Code::InvalidArgument, "bad path: "@ + rel@)
                } else if lexical_parts(rel@).len() == 0 {
                    s.says(Code::InvalidArgument, "a path is required"@)
                } else {
                    match ancestor {
                        Err(why) => s.says(Code::Internal, why@),
                        Ok(held) => !inside(held@, self.root@) && s.says(
                            Code::PermissionDenied,
                            "outside the music folder"@,
                        ),
                    }
                },
            },
    {
        let parts = match lexical(rel) {
            Ok(parts) => parts,
            Err(s) => {
                return Err(s);
            },
        };
        assert(views(parts@).len() == parts@.len());
        if parts.len() == 0 {
            return Err(Status::new(Code::InvalidArgument, "a path is required"));
        }
        match ancestor {
            Err(why) => Err(Status::new(Code::Internal, why.as_str())),
            Ok(held) => if paths::is_inside(held.as_str(), self.root.as_str()) {
                Ok(extend(self.root.as_str(), &parts))
            } else {
                Err(Status::new(Code::PermissionDenied, "outside the music folder"))
            },
        }
    }

    /// The protocol's name for a real path: relative, `/`-separated.
    pub fn relative(&self, path: &str) -> (r: String)
        ensures
            r@ == protocol_path(self.root@, path@),
    {
        match paths::relative(path, self.root.as_str()) {
            Some(rel) => rel,
            None => {
                let parts = paths::parts(path);
                assert(comps(path@).skip(0) =~= comps(path@));
                paths::join_slash(&parts, 0)
            },
        }
    }

    /// The folders found in a directory, as a client is told of them.
    pub fn list_folders(&self, found: &Vec<Folder>, ratings: &Ratings) -> (r: Vec<ListedFolder>)
        requires
            ratings.wf(),
        ensures
            r@.len() == found@.len(),
            forall|i: int|
                0 <= i < found@.len() ==> tells_folder(
                    self.root@,
                    ratings@,
                    found@[i]@,
                    #[trigger] r@[i],
                ),
    {
        let mut r: Vec<ListedFolder> = Vec::new();
        let mut i: usize = 0;
        while i < found.len()
            invariant
                i <= found@.len(),
                ratings.wf(),
                r@.len() == i,
                forall|k: int|
                    0 <= k < i ==> tells_folder(
                        self.root@,
                        ratings@,
                        found@[k]@,
                        #[trigger] r@[k],
                    ),
            decreases found@.len() - i,
        {
            let f = &found[i];
            let path = self.relative(f.path.as_str());
            let time: u64 = ratings.newest_under(path.as_str());
            let newest: u64 = if f.newest >= time {
                f.newest
            } else {
                time
            };
            let count: u32 = #[verifier::truncate] (f.count as u32);
            let told = ListedFolder { name: f.label.clone(), path, count, newest };
            assert(told.newest == later(f@.newest, time));
            assert(is_latest(ratings@, protocol_path(self.root@, f@.path), time));
            assert(tells_folder(self.root@, ratings@, f@, told));
            r.push(told);
            i = i + 1;
        }
        r
    }

    /// The tracks found at or below a directory, as a client is told of them. `sizes`
    /// are those of the files, 0 where one could not be had.
    pub fn list_tracks(&self, found: &Vec<Track>, sizes: &Vec<u64>, ratings: &Ratings) -> (r: Vec<
        ListedTrack,
    >)
        requires
            ratings.wf(),
            sizes@.len() == found@.len(),
        ensures
            r@.len() == found@.len(),
            forall|i: int|
                0 <= i < found@.len() ==> tells_track(
                    self.root@,
                    ratings@,
                    found@[i]@,
                    sizes@[i],
                    #[trigger] r@[i],
                ),
    {
        let mut r: Vec<ListedTrack> = Vec::new();
        let mut i: usize = 0;
        while i < found.len()
            invariant
                i <= found@.len(),
                ratings.wf(),
                sizes@.len() == found@.len(),
                r@.len() == i,
                forall|k: int|
                    0 <= k < i ==> tells_track(
                        self.root@,
                        ratings@,
                        found@[k]@,
                        sizes@[k],
                        #[trigger] r@[k],
                    ),
            decreases found@.len() - i,
        {
            let t = &found[i];
            let path = self.relative(t.path.as_str());
            let stars: u8 = match ratings.get(path.as_str()) {
                Some(n) => n,
                None => 0,
            };
            let duration_ms: Option<u64> = match t.duration {
                Some(d) => Some(#[verifier::truncate] (d.as_millis() as u64)),
                None => None,
            };
            let told = ListedTrack {
                path,
                title: t.title.clone(),
                artist: t.artist.clone(),
                album: t.album.clone(),
                duration_ms,
                size: sizes[i],
                stars,
            };
            assert(tells_track(self.root@, ratings@, t@, sizes@[i as int], told));
            r.push(told);
            i = i + 1;
        }
        r
    }

    /// What is known of a path: nothing there is an answer, too.
    pub fn stat(&self, found: Result<Stat, Status>) -> (r: Result<Stat, Status>)
        ensures
            match (found, r) {
                (Ok(f), Ok(s)) => s == (Stat {
                    exists: true,
                    is_dir: f.is_dir,
                    size: if f.is_dir {
                        0
                    } else {
                        f.size
                    },
                }),
                (Err(e), Ok(s)) => e.code == Code::NotFound && s == (Stat {
                    exists: false,
                    is_dir: false,
                    size: 0,
                }),
                (Err(e), Err(s)) => e.code != Code::NotFound && s == e,
                (Ok(_), Err(_)) => false,
            },
    {
        match found {
            Ok(f) => {
                let size: u64 = if f.is_dir {
                    0
                } else {
                    f.size
                };
                Ok(Stat { exists: true, is_dir: f.is_dir, size })
            },
            Err(e) => if e.code == Code::NotFound {
                Ok(Stat { exists: false, is_dir: false, size: 0 })
            } else {
                Err(e)
            },
        }
    }

    /// Whether an upload may begin, given that its path may be created.
    pub fn check_upload(&self, path: &str, is_dir: bool) -> (r: Result<(), Status>)
        ensures
            match r {
                Ok(_) => self.writable && !is_dir,
                Err(s) => if !self.writable {
                    s.says(
                        Code::PermissionDenied,
                        "this server is read-only: start it with TUNETERM_TOKEN to allow changes"@,
                    )
                } else {
                    is_dir && s.says(Code::AlreadyExists, "/"@ + path@ + " is a folder"@)
                },
            },
    {
        if let Err(s) = self.writable() {
            return Err(s);
        }
        if is_dir {
            return Err(
                Status::new(
                    Code::AlreadyExists,
                    text::cat3("/", path, " is a folder").as_str(),
                ),
            );
        }
        Ok(())
    }

    /// How to remove a path, which lies inside the root. Never the root itself.
    pub fn remove(&self, path: &str, is_dir: bool, recursive: bool) -> (r: Result<
        Removal,
        Status,
    >)
        ensures
            match r {
                Ok(how) => self.writable && !same_path(path@, self.root@) && how == (if !is_dir {
                    Removal::File
                } else if recursive {
                    Removal::Tree
                } else {
                    Removal::Folder
                }),
                Err(s) => if !self.writable {
                    s.says(
                        Code::PermissionDenied,
                        "this server is read-only: start it with TUNETERM_TOKEN to allow changes"@,
                    )
                } else {
                    same_path(path@, self.root@) && s.says(
                        Code::PermissionDenied,
                        "refusing to remove the music folder"@,
                    )
                },
            },
    {
        if let Err(s) = self.writable() {
            return Err(s);
        }
        if paths::same(path, self.root.as_str()) {
            return Err(
                Status::new(Code::PermissionDenied, "refusing to remove the music folder"),
            );
        }
        if !is_dir {
            Ok(Removal::File)
        } else if recursive {
            Ok(Removal::Tree)
        } else {
            Ok(Removal::Folder)
        }
    }

    /// Whether `from` may be moved at all, which is settled before anything is asked
    /// about where to: never on a server that is read-only, and never the root itself.
    pub fn check_source(&self, from: &str) -> (r: Result<(), Status>)
        ensures
            match r {
                Ok(_) => self.writable && !same_path(from@, self.root@),
                Err(s) => if !self.writable {
                    s.says(
                        Code::PermissionDenied,
                        "this server is read-only: start it with TUNETERM_TOKEN to allow changes"@,
                    )
                } else {
                    same_path(from@, self.root@) && s.says(
                        Code::PermissionDenied,
                        "refusing to move the music folder"@,
                    )
                },
            },
    {
        if let Err(s) = self.writable() {
            return Err(s);
        }
        if paths::same(from, self.root.as_str()) {
            return Err(Status::new(Code::PermissionDenied, "refusing to move the music folder"));
        }
        Ok(())
    }

    /// Whether `from` may become `to`. Never the root itself, nothing over what is
    /// there, and no folder into itself.
    pub fn check_move(&self, from: &str, to: &str, asked: &str, exists: bool) -> (r: Result<
        (),
        Status,
    >)
        ensures
            match r {
                Ok(_) => self.writable && !same_path(from@, self.root@) && !exists && !inside(
                    to@,
                    from@,
                ),
                Err(s) => if !self.writable {
                    s.says(
                        Code::PermissionDenied,
                        "this server is read-only: start it with TUNETERM_TOKEN to allow changes"@,
                    )
                } else if same_path(from@, self.root@) {
                    s.says(Code::PermissionDenied, "refusing to move the music folder"@)
                } else if exists {
                    s.says(Code::AlreadyExists, "/"@ + asked@ + " already exists"@)
                } else {
                    inside(to@, from@) && s.says(
                        Code::InvalidArgument,
                        "cannot move a folder into itself"@,
                    )
                },
            },
    {
        if let Err(s) = self.writable() {
            return Err(s);
        }
        if paths::same(from, self.root.as_str()) {
            return Err(Status::new(Code::PermissionDenied, "refusing to move the music folder"));
        }
        if exists {
            return Err(
                Status::new(
                    Code::AlreadyExists,
                    text::cat3("/", asked, " already exists").as_str(),
                ),
            );
        }
        if paths::is_inside(to, from) {
            return Err(Status::new(Code::InvalidArgument, "cannot move a folder into itself"));
        }
        Ok(())
    }
}

/// The name of an upload in flight. Hidden, so neither a listing nor a scan picks up
/// half a file.
pub fn part_name(name: &str, process: u32) -> (r: String)
    ensures
        r@ == "."@ + name@ + "."@ + decimal(process as nat) + ".part"@,
{
    let id = text::print(process as u64);
    text::cat5(".", name, ".", id.as_str(), ".part")
}

/// The entries a client is shown: those that are not hidden.
pub open spec fn shown(found: Seq<EntryV>) -> Seq<EntryV>
    decreases found.len(),
{
    if found.len() == 0 {
        seq![]
    } else {
        let e = found.last();
        if e.name.len() > 0 && e.name[0] == '.' {
            shown(found.drop_last())
        } else {
            shown(found.drop_last()).push(
                EntryV {
                    size: if e.is_dir {
                        0
                    } else {
                        e.size
                    },
                    ..e
                },
            )
        }
    }
}

/// Folders come before files, and names in order.
pub open spec fn entry_keys(entries: Seq<EntryV>) -> Seq<Seq<Seq<char>>> {
    Seq::new(
        entries.len(),
        |i: int|
            seq![
                if entries[i].is_dir {
                    "0"@
                } else {
                    "1"@
                },
                entries[i].name,
            ],
    )
}

/// What is in a directory, folders first, then by name.
pub fn list_entries(found: &Vec<Entry>) -> (r: Vec<Entry>)
    ensures
        sorts(
            entry_keys(shown(entries_view(found@))),
            shown(entries_view(found@)),
            entries_view(r@),
        ),
{
    let ghost all = entries_view(found@);
    let mut kept: Vec<Entry> = Vec::new();
    let mut keys: Vec<Vec<String>> = Vec::new();
    let mut i: usize = 0;
    proof {
        assert(all.take(0) =~= seq![]);
        assert(entries_view(kept@) =~= seq![]);
    }
    while i < found.len()
        invariant
            i <= found@.len(),
            all == entries_view(found@),
            entries_view(kept@) == shown(all.take(i as int)),
            keys@.len() == kept@.len(),
            forall|k: int|
                0 <= k < keys@.len() ==> views((#[trigger] keys@[k])@) == seq![
                    if kept@[k].is_dir {
                        "0"@
                    } else {
                        "1"@
                    },
                    kept@[k].name@,
                ],
        decreases found@.len() - i,
    {
        let e = &found[i];
        let ghost was = entries_view(kept@);
        proof {
            let t = all.take(i as int + 1);
            assert(t.drop_last() =~= all.take(i as int));
            assert(t.last() == e@);
        }
        let v = text::chars_of(e.name.as_str());
        if !(v.len() > 0 && v[0] == '.') {
            let size: u64 = if e.is_dir {
                0
            } else {
                e.size
            };
            let next = Entry { name: e.name.clone(), is_dir: e.is_dir, size };
            let ghost nv = next@;
            let mut key: Vec<String> = Vec::new();
            if e.is_dir {
                key.push("0".to_owned());
            } else {
                key.push("1".to_owned());
            }
            key.push(e.name.clone());
            assert(views(key@) =~= seq![
                if next.is_dir {
                    "0"@
                } else {
                    "1"@
                },
                next.name@,
            ]);
            keys.push(key);
            kept.push(next);
            assert(entries_view(kept@) =~= was.push(nv));
        }
        i = i + 1;
    }
    proof {
        assert(all.take(i as int) =~= all);
        assert(order::keys_view(keys@) =~= entry_keys(entries_view(kept@)));
    }
    let order = order::sorted_order(&keys);
    let mut r: Vec<Entry> = Vec::new();
    let mut j: usize = 0;
    while j < order.len()
        invariant
            j <= order@.len(),
            order@.len() == kept@.len(),
            r@.len() == j,
            forall|k: int| 0 <= k < order@.len() ==> (#[trigger] order@[k]) < kept@.len(),
            forall|k: int| 0 <= k < j ==> (#[trigger] r@[k])@ == kept@[order@[k] as int]@,
        decreases order@.len() - j,
    {
        let e = &kept[order[j]];
        r.push(Entry { name: e.name.clone(), is_dir: e.is_dir, size: e.size });
        j = j + 1;
    }
    assert(arranged(entries_view(kept@), order@, entries_view(r@)));
    r
}

/// A track that a client plays from a server is the track that the server has: called
/// the same, as long to the millisecond, and with the stars it has there.
pub proof fn law_a_served_track_is_the_same_track(
    root: Seq<char>,
    stars: Map<Seq<char>, (u8, u64)>,
    authority: Seq<char>,
    track: TrackV,
    size: u64,
    told: ListedTrack,
)
    requires
        tells_track(root, stars, track, size, told),
        track.duration matches Some(d) ==> d.nanos < 1_000_000_000 && d.total() / 1_000_000
            <= u64::MAX,
    ensures
        ({
            let heard = served_track(authority, told);
            &&& heard.title == track.title
            &&& heard.artist == track.artist
            &&& heard.album == track.album
            &&& heard.duration == (match track.duration {
                Some(d) => Some(
                    Duration {
                        secs: d.secs,
                        nanos: (d.nanos / 1_000_000 * 1_000_000) as u32,
                    },
                ),
                None => None,
            })
            &&& heard.stars == (if stars_of(stars, protocol_path(root, track.path)) > 0 {
                Some(stars_of(stars, protocol_path(root, track.path)))
            } else {
                None
            })
        }),
{
    if let Some(d) = track.duration {
        let ms = d.total() / 1_000_000;
        assert(ms == d.secs * 1000 + d.nanos / 1_000_000) by (nonlinear_arith)
            requires
                ms == (d.secs * 1_000_000_000 + d.nanos) / 1_000_000,
        ;
    }
}

/// The header of an upload, out of its first message: where the file goes, and how
/// long it is.
pub fn check_header(first: Option<Option<(String, u64)>>) -> (r: Result<(String, u64), Status>)
    ensures
        match first {
            Some(Some(header)) => r == Ok::<(String, u64), Status>(header),
            Some(None) => r matches Err(s) && s.says(
                Code::InvalidArgument,
                "the first message needs a header"@,
            ),
            None => r matches Err(s) && s.says(Code::InvalidArgument, "empty upload"@),
        },
{
    match first {
        Some(Some(header)) => Ok(header),
        Some(None) => Err(Status::new(Code::InvalidArgument, "the first message needs a header")),
        None => Err(Status::new(Code::InvalidArgument, "empty upload")),
    }
}

/// Why something was not removed, given what the disk said.
pub fn removal_failed(not_empty: bool, why: &str) -> (s: Status)
    ensures
        not_empty ==> s.says(
            Code::FailedPrecondition,
            "folder is not empty; remove it recursively"@,
        ),
        !not_empty ==> s.says(Code::Internal, why@),
{
    if not_empty {
        Status::new(Code::FailedPrecondition, "folder is not empty; remove it recursively")
    } else {
        Status::new(Code::Internal, why)
    }
}

/// An upload on its way in, which has to come to exactly the size it announced.
#[derive(Debug)]
pub struct Receipt {
    pub size: u64,
    pub written: u64,
}

impl Receipt {
    pub fn new(size: u64) -> (r: Receipt)
        ensures
            r.size == size,
            r.written == 0,
    {
        Receipt { size, written: 0 }
    }

    /// Another `n` bytes. They may be written only when this succeeds.
    pub fn accept(&mut self, n: usize) -> (r: Result<(), Status>)
        requires
            old(self).written <= old(self).size,
        ensures
            final(self).size == old(self).size,
            match r {
                Ok(_) => old(self).written + n <= old(self).size && final(self).written
                    == old(self).written + n,
                Err(s) => old(self).written + n > old(self).size && final(self).written
                    == old(self).written && s.says(
                    Code::InvalidArgument,
                    "more data than the header announced"@,
                ),
            },
    {
        if n as u64 > self.size - self.written {
            return Err(
                Status::new(Code::InvalidArgument, "more data than the header announced"),
            );
        }
        self.written = self.written + n as u64;
        Ok(())
    }

    /// No more is coming.
    pub fn finish(&self) -> (r: Result<u64, Status>)
        ensures
            match r {
                Ok(n) => self.written == self.size && n == self.size,
                Err(s) => self.written != self.size && s.says(
                    Code::DataLoss,
                    "upload ended after "@ + decimal(self.written as nat) + " of "@ + decimal(
                        self.size as nat,
                    ) + " bytes"@,
                ),
            },
    {
        if self.written != self.size {
            let have = text::print(self.written);
            let want = text::print(self.size);
            return Err(
                Status::new(
                    Code::DataLoss,
                    text::cat5(
                        "upload ended after ",
                        have.as_str(),
                        " of ",
                        want.as_str(),
                        " bytes",
                    ).as_str(),
                ),
            );
        }
        Ok(self.size)
    }
}

// ---------------------------------------------------------------------------
// Something to serve
// ---------------------------------------------------------------------------

/// A number as four bytes, the lowest first.
pub open spec fn four(n: int) -> Seq<u8> {
    seq![
        (n % 256) as u8,
        (n / 256 % 256) as u8,
        (n / 65536 % 256) as u8,
        (n / 16777216 % 256) as u8,
    ]
}

/// The header of a mono 8 kHz 16-bit WAV with `bytes` of sound.
pub open spec fn wav_header(bytes: int) -> Seq<u8> {
    seq![0x52u8, 0x49, 0x46, 0x46] + four(36 + bytes) + seq![
        0x57u8,
        0x41,
        0x56,
        0x45,
        0x66,
        0x6d,
        0x74,
        0x20,
    ] + four(16) + seq![1u8, 0, 1, 0] + four(8000) + four(16000) + seq![2u8, 0, 16, 0] + seq![
        0x64u8,
        0x61,
        0x74,
        0x61,
    ] + four(bytes)
}

/// One byte of the ramp: sixteen times the sample's number in its run of 256, low
/// byte first.
pub open spec fn ramp(i: int) -> u8 {
    let sample = (i / 2) % 256 * 16;
    if i % 2 == 0 {
        (sample % 256) as u8
    } else {
        (sample / 256) as u8
    }
}

fn push_four(out: &mut Vec<u8>, n: u32)
    ensures
        final(out)@ == old(out)@ + four(n as int),
{
    let ghost was = out@;
    out.push((n % 256) as u8);
    out.push((n / 256 % 256) as u8);
    out.push((n / 65536 % 256) as u8);
    out.push((n / 16777216 % 256) as u8);
    assert(out@ =~= was + four(n as int));
}

/// What has been written after `messages`, unless one of them was refused.
pub open spec fn written_after(size: u64, written: nat, messages: Seq<Message>) -> Option<nat>
    decreases messages.len(),
{
    if messages.len() == 0 {
        Some(written)
    } else if written + messages[0].len > size {
        None
    } else {
        written_after(size, written + messages[0].len as nat, messages.skip(1))
    }
}

/// An upload is taken exactly when its messages carry the number of bytes that its
/// header announced, however they are cut.
pub proof fn law_an_upload_is_taken_whole_or_not_at_all(
    size: u64,
    written: nat,
    messages: Seq<Message>,
)
    requires
        written <= size,
    ensures
        written_after(size, written, messages) == Some(size as nat) <==> written + carried(messages)
            == size,
    decreases messages.len(),
{
    if messages.len() > 0 && written + messages[0].len <= size {
        law_an_upload_is_taken_whole_or_not_at_all(
            size,
            written + messages[0].len as nat,
            messages.skip(1),
        );
    }
}

/// A playable WAV: `seconds` of a quiet ramp, mono 8 kHz 16-bit.
pub fn wav(seconds: u32) -> (out: Vec<u8>)
    requires
        seconds <= 268435,
    ensures
        out@ == wav_header(seconds * 16000) + Seq::new(
            (seconds * 16000) as nat,
            |i: int| ramp(i),
        ),
{
    let rate: u32 = 8000;
    let samples: u32 = rate * seconds;
    let data_len: u32 = samples * 2;
    let mut out: Vec<u8> = vec![0x52, 0x49, 0x46, 0x46];
    push_four(&mut out, 36 + data_len);
    let mut chunk: Vec<u8> = vec![0x57, 0x41, 0x56, 0x45, 0x66, 0x6d, 0x74, 0x20];
    out.append(&mut chunk);
    push_four(&mut out, 16);
    let mut format: Vec<u8> = vec![1, 0, 1, 0];
    out.append(&mut format);
    push_four(&mut out, rate);
    push_four(&mut out, rate * 2);
    let mut depth: Vec<u8> = vec![2, 0, 16, 0];
    out.append(&mut depth);
    let mut data: Vec<u8> = vec![0x64, 0x61, 0x74, 0x61];
    out.append(&mut data);
    push_four(&mut out, data_len);
    let ghost head = wav_header(data_len as int);
    proof {
        assert(out@ =~= head);
    }
    let ghost body = Seq::new(data_len as nat, |i: int| ramp(i));
    let mut i: u32 = 0;
    assert(head + body.take(0) =~= head);
    while i < samples
        invariant
            i <= samples,
            data_len == samples * 2,
            body == Seq::new(data_len as nat, |i: int| ramp(i)),
            out@ == head + body.take(i * 2),
        decreases samples - i,
    {
        let sample: u32 = i % 256 * 16;
        out.push((sample % 256) as u8);
        out.push((sample / 256) as u8);
        proof {
            assert((i * 2) / 2 == i);
            assert((i * 2 + 1) / 2 == i);
            assert(ramp(i * 2) == (sample % 256) as u8);
            assert(ramp(i * 2 + 1) == (sample / 256) as u8);
            assert(body.take(i * 2 + 2) =~= body.take(i * 2).push(ramp(i * 2)).push(
                ramp(i * 2 + 1),
            ));
        }
        i = i + 1;
    }
    assert(body.take(i * 2) =~= body);
    out
}

// ---------------------------------------------------------------------------
// What requests come to
// ---------------------------------------------------------------------------

pub open spec fn are_entries(parts: Seq<Seq<char>>) -> bool {
    forall|i: int| 0 <= i < parts.len() ==> paths::is_entry(#[trigger] parts[i])
}

proof fn lemma_filled(a: Seq<Seq<char>>, b: Seq<Seq<char>>)
    ensures
        filled_pieces(a + b) == filled_pieces(a) + filled_pieces(b),
    decreases b.len(),
{
    if b.len() == 0 {
        assert(a + b =~= a);
        assert(filled_pieces(a) + filled_pieces(b) =~= filled_pieces(a));
    } else {
        lemma_filled(a, b.drop_last());
        assert((a + b).drop_last() =~= a + b.drop_last());
        assert((a + b).last() == b.last());
        assert(filled_pieces(a + b) =~= filled_pieces(a) + filled_pieces(b));
    }
}

proof fn lemma_filled_same(a: Seq<Seq<char>>)
    requires
        are_entries(a),
    ensures
        filled_pieces(a) == a,
    decreases a.len(),
{
    if a.len() > 0 {
        let rest = a.drop_last();
        assert forall|i: int| 0 <= i < rest.len() implies paths::is_entry(#[trigger] rest[i]) by {
            assert(rest[i] == a[i]);
        }
        lemma_filled_same(rest);
        assert(paths::is_entry(a[a.len() - 1]));
        assert(rest.push(a.last()) =~= a);
    } else {
        assert(filled_pieces(a) =~= a);
    }
}

proof fn lemma_extended(root: Seq<char>, parts: Seq<Seq<char>>)
    requires
        root.len() > 0,
        are_entries(parts),
    ensures
        extended(root, parts).len() > 0,
        comps(extended(root, parts)) == comps(root) + parts,
    decreases parts.len(),
{
    if parts.len() == 0 {
        assert(comps(root) + parts =~= comps(root));
    } else {
        let rest = parts.drop_last();
        assert forall|i: int| 0 <= i < rest.len() implies paths::is_entry(#[trigger] rest[i]) by {
            assert(rest[i] == parts[i]);
        }
        lemma_extended(root, rest);
        assert(paths::is_entry(parts[parts.len() - 1]));
        paths::law_entries_lie_in_their_folder(extended(root, rest), parts.last());
        assert(comps(root) + parts =~= (comps(root) + rest).push(parts.last()));
    }
}

/// A request that names its way down, entry by entry, is let through; it leads that way
/// down from the music folder, and what is there is called by the same path again.
pub proof fn law_a_request_path_leads_back(root: Seq<char>, parts: Seq<Seq<char>>)
    requires
        root.len() > 0,
        parts.len() > 0,
        are_entries(parts),
    ensures
        ({
            let rel = joined(parts, slash());
            let path = extended(root, lexical_parts(rel));
            &&& is_lexical(rel)
            &&& lexical_parts(rel) == parts
            &&& comps(path) == comps(root) + parts
            &&& inside(path, root)
            &&& protocol_path(root, path) == rel
        }),
{
    let rel = joined(parts, slash());
    assert forall|i: int| 0 <= i < parts.len() implies !(#[trigger] parts[i]).contains('/') by {
        assert(paths::is_entry(parts[i]));
    }
    text::law_joined_pieces_come_apart(parts, '/');
    lemma_filled_same(parts);
    assert forall|i: int| 0 <= i < lexical_parts(rel).len() implies (#[trigger] lexical_parts(
        rel,
    )[i]) != dot() && lexical_parts(rel)[i] != dots() by {
        assert(paths::is_entry(parts[i]));
    }
    lemma_extended(root, parts);
    let c = comps(root);
    assert((c + parts).take(c.len() as int) =~= c);
    assert((c + parts).skip(c.len() as int) =~= parts);
}

/// Slashes in front, behind and more than one between parts change nothing about a
/// request.
pub proof fn law_slashes_around_do_not_matter(a: Seq<char>, b: Seq<char>)
    ensures
        lexical_parts(slash() + a) == lexical_parts(a),
        lexical_parts(a + slash()) == lexical_parts(a),
        lexical_parts(a + slash() + b) == lexical_parts(a) + lexical_parts(b),
        lexical_parts(seq![]).len() == 0,
{
    let none = Seq::<char>::empty();
    text::law_texts_come_apart_at_every_separator(none, '/', a);
    assert(none + seq!['/'] + a =~= slash() + a);
    text::law_texts_come_apart_at_every_separator(a, '/', none);
    assert(a + seq!['/'] + none =~= a + slash());
    text::law_texts_come_apart_at_every_separator(a, '/', b);
    lemma_filled(pieces(none, '/'), pieces(a, '/'));
    lemma_filled(pieces(a, '/'), pieces(none, '/'));
    lemma_filled(pieces(a, '/'), pieces(b, '/'));
    assert(pieces(none, '/') =~= seq![none]);
    assert(seq![none].drop_last() =~= seq![]);
    assert(filled_pieces(seq![none].drop_last()) =~= seq![]);
    assert(filled_pieces(seq![none]) =~= seq![]);
    assert(seq![] + lexical_parts(a) =~= lexical_parts(a));
    assert(lexical_parts(a) + seq![] =~= lexical_parts(a));
}

/// A request that climbs, anywhere on its way, is not let through.
pub proof fn law_climbing_is_refused(a: Seq<char>, b: Seq<char>)
    ensures
        !is_lexical(a + slash() + dots() + slash() + b),
        !is_lexical(a + slash() + dot() + slash() + b),
        !is_lexical(dots()),
        !is_lexical(dots() + slash() + b),
        !is_lexical(a + slash() + dots()),
{
    lemma_names_a_step(dots());
    lemma_names_a_step(dot());
    law_slashes_around_do_not_matter(a, dots());
    law_slashes_around_do_not_matter(a + slash() + dots(), b);
    law_slashes_around_do_not_matter(a, dot());
    law_slashes_around_do_not_matter(a + slash() + dot(), b);
    law_slashes_around_do_not_matter(dots(), b);
    let n = lexical_parts(a).len() as int;
    assert(lexical_parts(a + slash() + dots())[n] == dots());
    assert(lexical_parts(a + slash() + dots() + slash() + b)[n] == dots());
    assert(lexical_parts(a + slash() + dot())[n] == dot());
    assert(lexical_parts(a + slash() + dot() + slash() + b)[n] == dot());
    assert(lexical_parts(dots() + slash() + b)[0] == dots());
    assert(lexical_parts(dots())[0] == dots());
}

proof fn lemma_names_a_step(step: Seq<char>)
    requires
        step == dot() || step == dots(),
    ensures
        lexical_parts(step) == seq![step],
{
    let none = Seq::<char>::empty();
    assert(!step.contains('/'));
    text::law_texts_come_apart_at_every_separator(step, '/', none);
    assert(seq![step].drop_last() =~= seq![]);
    assert(filled_pieces(seq![step].drop_last()) =~= seq![]);
    assert(filled_pieces(seq![step]) =~= seq![step]);
}

/// What is hidden is not listed, and everything else is, a folder without a size.
pub proof fn law_what_is_not_hidden_is_listed(before: Seq<EntryV>, e: EntryV, after: Seq<EntryV>)
    ensures
        shown(before + seq![e] + after) == shown(before) + (if e.name.len() > 0 && e.name[0]
            == '.' {
            seq![]
        } else {
            seq![
                EntryV {
                    name: e.name,
                    is_dir: e.is_dir,
                    size: if e.is_dir {
                        0
                    } else {
                        e.size
                    },
                },
            ]
        }) + shown(after),
    decreases after.len(),
{
    let all = before + seq![e] + after;
    if after.len() == 0 {
        assert(all.drop_last() =~= before);
        assert(all.last() == e);
        assert(shown(after) =~= seq![]);
    } else {
        law_what_is_not_hidden_is_listed(before, e, after.drop_last());
        assert(all.drop_last() =~= before + seq![e] + after.drop_last());
        assert(all.last() == after.last());
    }
    assert(shown(all) =~= shown(before) + (if e.name.len() > 0 && e.name[0] == '.' {
        seq![]
    } else {
        seq![
            EntryV {
                name: e.name,
                is_dir: e.is_dir,
                size: if e.is_dir {
                    0
                } else {
                    e.size
                },
            },
        ]
    }) + shown(after));
}

/// A listing has its folders before its files, each in the order of their names, and
/// holds as many entries as are shown.
pub proof fn law_folders_come_before_files(
    found: Seq<EntryV>,
    listed: Seq<EntryV>,
    i: int,
    j: int,
)
    requires
        sorts(entry_keys(shown(found)), shown(found), listed),
        0 <= i < j < listed.len(),
    ensures
        listed.len() == shown(found).len(),
        listed[j].is_dir ==> listed[i].is_dir,
        listed[i].is_dir == listed[j].is_dir ==> !text::before(listed[j].name, listed[i].name),
{
    let items = shown(found);
    let keys = entry_keys(items);
    let order = choose|order: Seq<usize>|
        order::is_sorted_order(keys, order) && #[trigger] arranged(items, order, listed);
    let (a, b) = (order[i], order[j]);
    assert(order::in_order(keys, order[i], order[j]));
    assert(listed[i] == items[a as int] && listed[j] == items[b as int]);
    assert(a < items.len() && b < items.len());
    reveal_strlit("0");
    reveal_strlit("1");
    assert("0"@[0] == '0' && "1"@[0] == '1');
    assert(!text::before("1"@, "0"@));
    let (x, y) = (keys[a as int], keys[b as int]);
    assert(x.len() == 2 && y.len() == 2);
    assert(x[1] == listed[i].name && y[1] == listed[j].name);
    assert(listed[i].is_dir == (x[0] == "0"@));
    assert(listed[j].is_dir == (y[0] == "0"@));
    order::lemma_before_irreflexive(x[1]);
    if order::precedes(x, y) {
        if x[0] == y[0] {
            assert(x.skip(1)[0] == x[1] && y.skip(1)[0] == y[1]);
            assert(order::precedes(x.skip(1), y.skip(1)));
            if x[1] == y[1] {
                assert(x.skip(1).skip(1) =~= seq![]);
                assert(y.skip(1).skip(1) =~= seq![]);
            } else {
                assert(text::before(x[1], y[1]));
                if text::before(y[1], x[1]) {
                    order::lemma_before_transitive(x[1], y[1], x[1]);
                }
            }
        } else {
            assert(text::before(x[0], y[0]));
        }
    }
}

/// Four bytes say the number they were made of, the lowest byte first.
pub proof fn law_four_bytes_say_a_number(n: int)
    requires
        0 <= n < 0x1_0000_0000,
    ensures
        four(n).len() == 4,
        four(n)[0] + 256 * four(n)[1] + 65536 * four(n)[2] + 16777216 * four(n)[3] == n,
{
}

/// The header is as long as the format says, and announces the bytes behind it.
pub proof fn law_the_header_announces_the_sound(bytes: int)
    requires
        0 <= bytes < 0xffff_0000,
    ensures
        wav_header(bytes).len() == 44,
        wav_header(bytes).skip(40) == four(bytes),
{
    assert(wav_header(bytes).skip(40) =~= four(bytes));
}

/// The ramp's samples rise in steps of sixteen and start anew after 256 of them.
pub proof fn law_the_ramp_rises_in_steps(k: int)
    requires
        0 <= k,
    ensures
        ramp(2 * k) + 256 * ramp(2 * k + 1) == (k % 256) * 16,
{
}

/// A folder's time is that of its newest file or of the latest stars in it, whichever is
/// later.
pub proof fn law_stars_make_a_folder_newer(
    root: Seq<char>,
    stars: Map<Seq<char>, (u8, u64)>,
    folder: FolderV,
    told: ListedFolder,
    time: u64,
)
    requires
        tells_folder(root, stars, folder, told),
        is_latest(stars, protocol_path(root, folder.path), time),
    ensures
        told.name@ == folder.label,
        told.path@ == protocol_path(root, folder.path),
        told.newest >= folder.newest,
        told.newest >= time,
        told.newest == folder.newest || told.newest == time,
{
    let path = protocol_path(root, folder.path);
    let other = choose|t: u64| #[trigger]
        is_latest(stars, path, t) && told.newest == later(folder.newest, t);
    crate::ratings::law_the_latest_stars_count(stars, path, path, 0, 0, time, other);
}

} // verus!
