//! Folders and tracks: what counts as audio, what a folder holds, and what a track
//! is called.
//!
//! Reading the disk is left to the caller, who hands in a directory as a tree of
//! [`Entry`] values; everything decided about it is decided here.

use image::DynamicImage;
use vstd::prelude::*;
use crate::cover::{self, decodes};
use crate::feed::{self, Channel, ChannelV, EpisodeV};
use crate::order::{self, is_sorted_order};
use crate::paths::{self, comps, extension, leaf, parent, stem, within};
use crate::remote::{self, has_scheme};
use crate::text::{self, decimal, digit, lowered, opt_view, views};
use crate::time::Duration;

verus! {

/// `char::from_u32` gives the character with that number, where there is one.
pub assume_specification[ char::from_u32 ](n: u32) -> (c: Option<char>)
    ensures
        n < 0xd800 || 0xe000 <= n <= 0x10ffff ==> c == Some(n as char),
        !(n < 0xd800 || 0xe000 <= n <= 0x10ffff) ==> c is None,
;

/// How deep to look for audio. Deep enough for artist/album/disc, shallow enough
/// that a stray link into the file system cannot cost minutes.
pub const MAX_DEPTH: usize = 6;

/// A directory that holds audio somewhere beneath it.
#[derive(Debug, PartialEq, Eq)]
pub struct Folder {
    pub label: String,
    pub path: String,
    pub count: usize,
    /// Newest modification time under it, of the folders as well as the audio, in
    /// nanoseconds since the epoch. With `count`, what says whether a listing read
    /// earlier still holds; see [`Folder::stamp`].
    pub newest: u64,
}

/// What a [`Folder`] holds.
pub ghost struct FolderV {
    pub label: Seq<char>,
    pub path: Seq<char>,
    pub count: usize,
    pub newest: u64,
}

impl View for Folder {
    type V = FolderV;

    open spec fn view(&self) -> FolderV {
        FolderV { label: self.label@, path: self.path@, count: self.count, newest: self.newest }
    }
}

impl FolderV {
    pub open spec fn stamp(self) -> Stamp {
        Stamp { count: self.count, newest: self.newest }
    }
}

pub open spec fn folders_view(v: Seq<Folder>) -> Seq<FolderV> {
    Seq::new(v.len(), |i: int| v[i]@)
}

/// What a folder looked like when its tracks were read. Unequal means read again.
///
/// A folder's own time moves when something in it is added, removed or renamed, and
/// a file's when it is written. The count catches what times alone can miss.
#[derive(Debug, Clone, Copy, PartialEq, Eq, Structural)]
pub struct Stamp {
    pub count: usize,
    pub newest: u64,
}

impl Folder {
    pub fn stamp(&self) -> (s: Stamp)
        ensures
            s == self@.stamp(),
    {
        Stamp { count: self.count, newest: self.newest }
    }

    pub fn copy(&self) -> (r: Folder)
        ensures
            r@ == self@,
    {
        Folder {
            label: self.label.clone(),
            path: self.path.clone(),
            count: self.count,
            newest: self.newest,
        }
    }
}

/// Something to play.
#[derive(Debug, PartialEq, Eq)]
pub struct Track {
    /// Identity, and the file to open for a local track. Remote tracks put their
    /// URL here too, so the queue, the play marker and the cover cache all keep
    /// working on one key.
    pub path: String,
    pub title: String,
    pub artist: String,
    pub album: String,
    pub duration: Option<Duration>,
    /// Set for a remote track; `None` means `path` is a real file.
    pub url: Option<String>,
    /// Artwork to fetch, for tracks whose picture is not in a tag.
    pub art_url: Option<String>,
    /// Stars given on the server, from one to three.
    pub stars: Option<u8>,
}

/// What a [`Track`] holds.
pub ghost struct TrackV {
    pub path: Seq<char>,
    pub title: Seq<char>,
    pub artist: Seq<char>,
    pub album: Seq<char>,
    pub duration: Option<Duration>,
    pub url: Option<Seq<char>>,
    pub art_url: Option<Seq<char>>,
    pub stars: Option<u8>,
}

impl View for Track {
    type V = TrackV;

    open spec fn view(&self) -> TrackV {
        TrackV {
            path: self.path@,
            title: self.title@,
            artist: self.artist@,
            album: self.album@,
            duration: self.duration,
            url: opt_view(self.url),
            art_url: opt_view(self.art_url),
            stars: self.stars,
        }
    }
}

pub open spec fn tracks_view(v: Seq<Track>) -> Seq<TrackV> {
    Seq::new(v.len(), |i: int| v[i]@)
}

impl Track {
    pub fn copy(&self) -> (r: Track)
        ensures
            r@ == self@,
    {
        Track {
            path: self.path.clone(),
            title: self.title.clone(),
            artist: self.artist.clone(),
            album: self.album.clone(),
            duration: self.duration,
            url: feed::copy_opt(&self.url),
            art_url: feed::copy_opt(&self.art_url),
            stars: self.stars,
        }
    }
}

/// A copy of a listing.
pub fn copy_tracks(v: &Vec<Track>) -> (r: Vec<Track>)
    ensures
        tracks_view(r@) == tracks_view(v@),
{
    let mut r: Vec<Track> = Vec::new();
    let mut i: usize = 0;
    while i < v.len()
        invariant
            i <= v@.len(),
            r@.len() == i,
            forall|k: int| 0 <= k < i ==> (#[trigger] r@[k])@ == v@[k]@,
        decreases v@.len() - i,
    {
        r.push(v[i].copy());
        i = i + 1;
    }
    assert(tracks_view(r@) =~= tracks_view(v@));
    r
}

/// One listing after another.
pub fn append_tracks(r: &mut Vec<Track>, v: &Vec<Track>)
    ensures
        tracks_view(final(r)@) == tracks_view(old(r)@) + tracks_view(v@),
{
    let ghost was = tracks_view(r@);
    let mut i: usize = 0;
    assert(was + tracks_view(v@).take(0) =~= was);
    while i < v.len()
        invariant
            i <= v@.len(),
            tracks_view(r@) == was + tracks_view(v@).take(i as int),
        decreases v@.len() - i,
    {
        let t = v[i].copy();
        let ghost before = tracks_view(r@);
        let ghost tv = t@;
        r.push(t);
        i = i + 1;
        proof {
            assert(tracks_view(r@) =~= before.push(tv));
            assert(before.push(tv) =~= was + tracks_view(v@).take(i as int));
        }
    }
    assert(tracks_view(v@).take(i as int) =~= tracks_view(v@));
}

/// Where the folder at `path` is; the length when it is not listed.
pub open spec fn folder_place(folders: Seq<FolderV>, path: Seq<char>) -> nat
    decreases folders.len(),
{
    if folders.len() == 0 || paths::same_path(folders[0].path, path) {
        0
    } else {
        1 + folder_place(folders.skip(1), path)
    }
}

/// Where the first folder that leads towards `path` is; the length when none does.
pub open spec fn folder_towards(folders: Seq<FolderV>, path: Seq<char>) -> nat
    decreases folders.len(),
{
    if folders.len() == 0 || paths::inside(path, folders[0].path) {
        0
    } else {
        1 + folder_towards(folders.skip(1), path)
    }
}

/// Where the track at `path` is; the length when it is not listed.
pub open spec fn track_place(tracks: Seq<TrackV>, path: Seq<char>) -> nat
    decreases tracks.len(),
{
    if tracks.len() == 0 || paths::same_path(tracks[0].path, path) {
        0
    } else {
        1 + track_place(tracks.skip(1), path)
    }
}

/// Where the track written exactly as `path` is; the length when it is not listed.
pub open spec fn track_named(tracks: Seq<TrackV>, path: Seq<char>) -> nat
    decreases tracks.len(),
{
    if tracks.len() == 0 || tracks[0].path == path {
        0
    } else {
        1 + track_named(tracks.skip(1), path)
    }
}

pub proof fn lemma_folder_towards(folders: Seq<FolderV>, path: Seq<char>)
    ensures
        folder_towards(folders, path) <= folders.len(),
        folder_towards(folders, path) < folders.len() ==> paths::inside(
            path,
            folders[folder_towards(folders, path) as int].path,
        ),
    decreases folders.len(),
{
    if folders.len() > 0 && !paths::inside(path, folders[0].path) {
        lemma_folder_towards(folders.skip(1), path);
    }
}

/// Where the folder at `path` is.
pub fn find_folder(folders: &Vec<Folder>, path: &str) -> (r: Option<usize>)
    ensures
        match r {
            Some(i) => i < folders@.len() && i == folder_place(folders_view(folders@), path@),
            None => folder_place(folders_view(folders@), path@) == folders@.len(),
        },
{
    let ghost all = folders_view(folders@);
    let mut i: usize = 0;
    assert(all.skip(0) =~= all);
    while i < folders.len()
        invariant
            i <= folders@.len(),
            all == folders_view(folders@),
            folder_place(all, path@) == i + folder_place(all.skip(i as int), path@),
        decreases folders@.len() - i,
    {
        assert(all.skip(i as int)[0] == folders@[i as int]@);
        if paths::same(folders[i].path.as_str(), path) {
            return Some(i);
        }
        assert(all.skip(i as int).skip(1) =~= all.skip(i as int + 1));
        i = i + 1;
    }
    assert(all.skip(i as int).len() == 0);
    None
}

/// Where the first folder that leads towards `path` is.
pub fn find_towards(folders: &Vec<Folder>, path: &str) -> (r: Option<usize>)
    ensures
        match r {
            Some(i) => i < folders@.len() && i == folder_towards(folders_view(folders@), path@),
            None => folder_towards(folders_view(folders@), path@) == folders@.len(),
        },
{
    let ghost all = folders_view(folders@);
    let mut i: usize = 0;
    assert(all.skip(0) =~= all);
    while i < folders.len()
        invariant
            i <= folders@.len(),
            all == folders_view(folders@),
            folder_towards(all, path@) == i + folder_towards(all.skip(i as int), path@),
        decreases folders@.len() - i,
    {
        assert(all.skip(i as int)[0] == folders@[i as int]@);
        if paths::is_inside(path, folders[i].path.as_str()) {
            return Some(i);
        }
        assert(all.skip(i as int).skip(1) =~= all.skip(i as int + 1));
        i = i + 1;
    }
    assert(all.skip(i as int).len() == 0);
    None
}

/// Where the track at `path` is.
pub fn find_track(tracks: &Vec<Track>, path: &str) -> (r: Option<usize>)
    ensures
        match r {
            Some(i) => i < tracks@.len() && i == track_place(tracks_view(tracks@), path@),
            None => track_place(tracks_view(tracks@), path@) == tracks@.len(),
        },
{
    let ghost all = tracks_view(tracks@);
    let mut i: usize = 0;
    assert(all.skip(0) =~= all);
    while i < tracks.len()
        invariant
            i <= tracks@.len(),
            all == tracks_view(tracks@),
            track_place(all, path@) == i + track_place(all.skip(i as int), path@),
        decreases tracks@.len() - i,
    {
        assert(all.skip(i as int)[0] == tracks@[i as int]@);
        if paths::same(tracks[i].path.as_str(), path) {
            return Some(i);
        }
        assert(all.skip(i as int).skip(1) =~= all.skip(i as int + 1));
        i = i + 1;
    }
    assert(all.skip(i as int).len() == 0);
    None
}

/// Where the track written exactly as `path` is.
pub fn find_named(tracks: &Vec<Track>, path: &str) -> (r: Option<usize>)
    ensures
        match r {
            Some(i) => i < tracks@.len() && i == track_named(tracks_view(tracks@), path@),
            None => track_named(tracks_view(tracks@), path@) == tracks@.len(),
        },
{
    let ghost all = tracks_view(tracks@);
    let mut i: usize = 0;
    assert(all.skip(0) =~= all);
    while i < tracks.len()
        invariant
            i <= tracks@.len(),
            all == tracks_view(tracks@),
            track_named(all, path@) == i + track_named(all.skip(i as int), path@),
        decreases tracks@.len() - i,
    {
        assert(all.skip(i as int)[0] == tracks@[i as int]@);
        if text::same(tracks[i].path.as_str(), path) {
            return Some(i);
        }
        assert(all.skip(i as int).skip(1) =~= all.skip(i as int + 1));
        i = i + 1;
    }
    assert(all.skip(i as int).len() == 0);
    None
}

// ---------------------------------------------------------------------------
// Names
// ---------------------------------------------------------------------------

/// The file name endings that are played.
pub open spec fn audio_extensions() -> Seq<Seq<char>> {
    seq![
        "mp3"@,
        "flac"@,
        "m4a"@,
        "aac"@,
        "ogg"@,
        "oga"@,
        "opus"@,
        "wav"@,
        "aiff"@,
        "wv"@,
    ]
}

/// True for a file that is played, going by its name.
pub open spec fn is_audio_name(path: Seq<char>) -> bool {
    match extension(path) {
        Some(e) => audio_extensions().contains(lowered(e)),
        None => false,
    }
}

/// True for a file that is played.
pub fn is_audio(path: &str) -> (b: bool)
    ensures
        b == is_audio_name(path@),
{
    match paths::file_extension(path) {
        Some(e) => {
            let e = text::lower(e.as_str());
            let s = e.as_str();
            let b = text::same(s, "mp3") || text::same(s, "flac") || text::same(s, "m4a")
                || text::same(s, "aac") || text::same(s, "ogg") || text::same(s, "oga")
                || text::same(s, "opus") || text::same(s, "wav") || text::same(s, "aiff")
                || text::same(s, "wv");
            proof {
                let all = audio_extensions();
                assert(all[0] == "mp3"@ && all[1] == "flac"@ && all[2] == "m4a"@ && all[3]
                    == "aac"@ && all[4] == "ogg"@ && all[5] == "oga"@ && all[6] == "opus"@
                    && all[7] == "wav"@ && all[8] == "aiff"@ && all[9] == "wv"@);
            }
            b
        },
        None => false,
    }
}

/// True for something the file system keeps for itself.
pub open spec fn is_hidden_name(path: Seq<char>) -> bool {
    match leaf(path) {
        Some(name) => (name.len() > 0 && name[0] == '.') || name == "$RECYCLE.BIN"@,
        None => false,
    }
}

/// True for something the file system keeps for itself.
pub fn is_hidden(path: &str) -> (b: bool)
    ensures
        b == is_hidden_name(path@),
{
    match paths::file_name(path) {
        Some(name) => {
            let v = text::chars_of(name.as_str());
            (v.len() > 0 && v[0] == '.') || text::same(name.as_str(), "$RECYCLE.BIN")
        },
        None => false,
    }
}

/// What to call a path: its last part, or all of it where it has none.
pub open spec fn label_of(path: Seq<char>) -> Seq<char> {
    match leaf(path) {
        Some(name) => name,
        None => path,
    }
}

/// The last part of a path or an address, for showing.
pub fn file_name(path: &str) -> (r: String)
    ensures
        r@ == label_of(path@),
{
    match paths::file_name(path) {
        Some(name) => name,
        None => path.to_owned(),
    }
}

/// A path that names something on a server rather than on this disk.
pub fn remote_url<'a>(path: &'a str) -> (r: Option<&'a str>)
    ensures
        match r {
            Some(url) => has_scheme(path@) && url@ == path@,
            None => !has_scheme(path@),
        },
{
    if remote::is_remote(path) {
        Some(path)
    } else {
        None
    }
}

// ---------------------------------------------------------------------------
// What a directory holds
// ---------------------------------------------------------------------------

/// Something found in a directory, as far down as it was looked into.
#[derive(Debug)]
pub enum Entry {
    File { path: String, time: u64 },
    Dir { path: String, time: u64, entries: Vec<Entry> },
}

/// Audio files among `entries` and in the `depth - 1` levels beneath them.
pub open spec fn audio_below(entries: Seq<Entry>, depth: nat) -> nat
    decreases depth, entries.len(),
{
    if depth == 0 || entries.len() == 0 {
        0
    } else {
        audio_below(entries.drop_last(), depth) + match entries.last() {
            Entry::File { path, time } => if !is_hidden_name(path@) && is_audio_name(path@) {
                1nat
            } else {
                0
            },
            Entry::Dir { path, time, entries: inner } => if is_hidden_name(path@) {
                0
            } else {
                audio_below(inner@, (depth - 1) as nat)
            },
        }
    }
}

/// The newer of two times.
pub open spec fn newer(a: u64, b: u64) -> u64 {
    if a >= b {
        a
    } else {
        b
    }
}

/// The newest time of a directory, of the audio in it, and of the directories
/// beneath.
pub open spec fn newest_below(own: u64, entries: Seq<Entry>, depth: nat) -> u64
    decreases depth, entries.len(),
{
    if depth == 0 || entries.len() == 0 {
        own
    } else {
        let rest = newest_below(own, entries.drop_last(), depth);
        match entries.last() {
            Entry::File { path, time } => if !is_hidden_name(path@) && is_audio_name(path@) {
                newer(rest, time)
            } else {
                rest
            },
            Entry::Dir { path, time, entries: inner } => if is_hidden_name(path@) {
                rest
            } else {
                newer(rest, newest_below(time, inner@, (depth - 1) as nat))
            },
        }
    }
}

/// The audio files themselves.
pub open spec fn audio_paths(entries: Seq<Entry>, depth: nat) -> Seq<Seq<char>>
    decreases depth, entries.len(),
{
    if depth == 0 || entries.len() == 0 {
        seq![]
    } else {
        audio_paths(entries.drop_last(), depth) + match entries.last() {
            Entry::File { path, time } => if !is_hidden_name(path@) && is_audio_name(path@) {
                seq![path@]
            } else {
                seq![]
            },
            Entry::Dir { path, time, entries: inner } => if is_hidden_name(path@) {
                seq![]
            } else {
                audio_paths(inner@, (depth - 1) as nat)
            },
        }
    }
}

/// The audio files directly among `entries`, hidden or not.
pub open spec fn loose_paths(entries: Seq<Entry>) -> Seq<Seq<char>>
    decreases entries.len(),
{
    if entries.len() == 0 {
        seq![]
    } else {
        match entries.last() {
            Entry::File { path, time } => if is_audio_name(path@) {
                loose_paths(entries.drop_last()).push(path@)
            } else {
                loose_paths(entries.drop_last())
            },
            Entry::Dir { path, time, entries: inner } => loose_paths(entries.drop_last()),
        }
    }
}

/// The folders among `entries` that have something to play in them.
pub open spec fn folders_in(entries: Seq<Entry>) -> Seq<FolderV>
    decreases entries.len(),
{
    if entries.len() == 0 {
        seq![]
    } else {
        let rest = folders_in(entries.drop_last());
        match entries.last() {
            Entry::File { path, time } => rest,
            Entry::Dir { path, time, entries: inner } => {
                if !is_hidden_name(path@) && audio_below(inner@, MAX_DEPTH as nat) > 0 {
                    rest.push(
                        FolderV {
                            label: label_of(path@),
                            path: path@,
                            count: audio_below(inner@, MAX_DEPTH as nat) as usize,
                            newest: newest_below(time, inner@, MAX_DEPTH as nat),
                        },
                    )
                } else {
                    rest
                }
            },
        }
    }
}

/// The sort keys of a list of paths: their parts.
pub open spec fn path_keys(paths: Seq<Seq<char>>) -> Seq<Seq<Seq<char>>> {
    Seq::new(paths.len(), |i: int| comps(paths[i]))
}

/// `sorted` is `items` rearranged by `order`.
pub open spec fn arranged<T>(items: Seq<T>, order: Seq<usize>, sorted: Seq<T>) -> bool {
    &&& sorted.len() == items.len()
    &&& order.len() == items.len()
    &&& forall|i: int| 0 <= i < items.len() ==> #[trigger] sorted[i] == items[order[i] as int]
}

/// `sorted` holds `items` ordered by `keys`, equal keys in the order they came.
pub open spec fn sorts<T>(keys: Seq<Seq<Seq<char>>>, items: Seq<T>, sorted: Seq<T>) -> bool {
    exists|order: Seq<usize>| is_sorted_order(keys, order) && #[trigger] arranged(
        items,
        order,
        sorted,
    )
}

/// More entries never mean fewer files.
proof fn lemma_audio_grows(entries: Seq<Entry>, depth: nat, k: int)
    requires
        0 <= k <= entries.len(),
    ensures
        audio_below(entries.take(k), depth) <= audio_below(entries, depth),
    decreases entries.len() - k,
{
    if k == entries.len() {
        assert(entries.take(k) =~= entries);
    } else {
        lemma_audio_grows(entries, depth, k + 1);
        assert(entries.take(k + 1).drop_last() =~= entries.take(k));
    }
}

/// Audio files at or below a directory, and the newest time among them and the
/// folders they are in.
pub fn count_audio(time: u64, entries: &Vec<Entry>, depth: usize) -> (r: (usize, u64))
    requires
        audio_below(entries@, depth as nat) <= usize::MAX,
    ensures
        r.0 == audio_below(entries@, depth as nat),
        r.1 == newest_below(time, entries@, depth as nat),
    decreases depth,
{
    if depth == 0 {
        return (0, time);
    }
    let mut count: usize = 0;
    let mut newest: u64 = time;
    let mut i: usize = 0;
    assert(entries@.take(0) =~= seq![]);
    while i < entries.len()
        invariant
            i <= entries@.len(),
            depth > 0,
            audio_below(entries@, depth as nat) <= usize::MAX,
            count == audio_below(entries@.take(i as int), depth as nat),
            newest == newest_below(time, entries@.take(i as int), depth as nat),
        decreases entries@.len() - i,
    {
        proof {
            let t = entries@.take(i as int + 1);
            assert(t.drop_last() =~= entries@.take(i as int));
            assert(t.last() == entries@[i as int]);
            lemma_audio_grows(entries@, depth as nat, i as int + 1);
        }
        match &entries[i] {
            Entry::File { path, time } => {
                if !is_hidden(path.as_str()) && is_audio(path.as_str()) {
                    count = count + 1;
                    if *time > newest {
                        newest = *time;
                    }
                }
            },
            Entry::Dir { path, time, entries: inner } => {
                if !is_hidden(path.as_str()) {
                    let (below, latest) = count_audio(*time, inner, depth - 1);
                    count = count + below;
                    if latest > newest {
                        newest = latest;
                    }
                }
            },
        }
        i = i + 1;
    }
    assert(entries@.take(i as int) =~= entries@);
    (count, newest)
}

/// The audio files at or below a directory, in the order the entries come in.
fn collect_audio(entries: &Vec<Entry>, depth: usize) -> (out: Vec<String>)
    ensures
        views(out@) == audio_paths(entries@, depth as nat),
    decreases depth,
{
    let mut out: Vec<String> = Vec::new();
    assert(views(out@) =~= seq![]);
    if depth == 0 {
        return out;
    }
    let mut i: usize = 0;
    assert(entries@.take(0) =~= seq![]);
    while i < entries.len()
        invariant
            i <= entries@.len(),
            depth > 0,
            views(out@) == audio_paths(entries@.take(i as int), depth as nat),
        decreases entries@.len() - i,
    {
        let ghost was = views(out@);
        proof {
            let t = entries@.take(i as int + 1);
            assert(t.drop_last() =~= entries@.take(i as int));
            assert(t.last() == entries@[i as int]);
            assert(was + seq![] =~= was);
        }
        match &entries[i] {
            Entry::File { path, time } => {
                if !is_hidden(path.as_str()) && is_audio(path.as_str()) {
                    out.push(path.clone());
                    assert(views(out@) =~= was + seq![path@]);
                }
            },
            Entry::Dir { path, time, entries: inner } => {
                if !is_hidden(path.as_str()) {
                    let mut more = collect_audio(inner, depth - 1);
                    let ghost mv = views(more@);
                    let ghost (a, b) = (out@, more@);
                    out.append(&mut more);
                    assert(out@ =~= a + b);
                    assert(views(out@) =~= was + mv);
                }
            },
        }
        i = i + 1;
    }
    assert(entries@.take(i as int) =~= entries@);
    out
}

/// Paths in order, part by part.
pub fn sort_paths(found: &Vec<String>) -> (sorted: Vec<String>)
    ensures
        sorts(path_keys(views(found@)), views(found@), views(sorted@)),
{
    let mut keys: Vec<Vec<String>> = Vec::new();
    let mut i: usize = 0;
    while i < found.len()
        invariant
            i <= found@.len(),
            keys@.len() == i,
            forall|k: int| 0 <= k < i ==> views((#[trigger] keys@[k])@) == comps(found@[k]@),
        decreases found@.len() - i,
    {
        keys.push(paths::parts(found[i].as_str()));
        i = i + 1;
    }
    assert(order::keys_view(keys@) =~= path_keys(views(found@)));
    let order = order::sorted_order(&keys);
    let mut sorted: Vec<String> = Vec::new();
    let mut j: usize = 0;
    while j < order.len()
        invariant
            j <= order@.len(),
            order@.len() == found@.len(),
            sorted@.len() == j,
            forall|k: int| 0 <= k < order@.len() ==> (#[trigger] order@[k]) < found@.len(),
            forall|k: int| 0 <= k < j ==> (#[trigger] sorted@[k])@ == found@[order@[k] as int]@,
        decreases order@.len() - j,
    {
        sorted.push(found[order[j]].clone());
        j = j + 1;
    }
    assert(arranged(views(found@), order@, views(sorted@)));
    sorted
}

/// Every audio file at or below a directory, ordered by path.
pub fn deep_paths(entries: &Vec<Entry>) -> (r: Vec<String>)
    ensures
        sorts(
            path_keys(audio_paths(entries@, MAX_DEPTH as nat)),
            audio_paths(entries@, MAX_DEPTH as nat),
            views(r@),
        ),
{
    let found = collect_audio(entries, MAX_DEPTH);
    sort_paths(&found)
}

/// Every audio file directly inside a directory, ordered by path.
pub fn flat_paths(entries: &Vec<Entry>) -> (r: Vec<String>)
    ensures
        sorts(path_keys(loose_paths(entries@)), loose_paths(entries@), views(r@)),
{
    let mut found: Vec<String> = Vec::new();
    let mut i: usize = 0;
    proof {
        assert(entries@.take(0) =~= seq![]);
        assert(views(found@) =~= seq![]);
    }
    while i < entries.len()
        invariant
            i <= entries@.len(),
            views(found@) == loose_paths(entries@.take(i as int)),
        decreases entries@.len() - i,
    {
        let ghost was = views(found@);
        proof {
            let t = entries@.take(i as int + 1);
            assert(t.drop_last() =~= entries@.take(i as int));
            assert(t.last() == entries@[i as int]);
        }
        match &entries[i] {
            Entry::File { path, time } => {
                if is_audio(path.as_str()) {
                    found.push(path.clone());
                    assert(views(found@) =~= was.push(path@));
                }
            },
            Entry::Dir { path, time, entries: inner } => {},
        }
        i = i + 1;
    }
    assert(entries@.take(i as int) =~= entries@);
    sort_paths(&found)
}

/// The sort keys of a list of folders: the parts of their paths.
pub open spec fn folder_keys(folders: Seq<FolderV>) -> Seq<Seq<Seq<char>>> {
    Seq::new(folders.len(), |i: int| comps(folders[i].path))
}

/// No directory among `entries` holds more audio than a machine word counts.
pub open spec fn countable(entries: Seq<Entry>) -> bool {
    forall|i: int|
        0 <= i < entries.len() ==> match #[trigger] entries[i] {
            Entry::Dir { path, time, entries: inner } => audio_below(inner@, MAX_DEPTH as nat)
                <= usize::MAX,
            _ => true,
        }
}

/// Folders rearranged.
pub fn arrange_folders(found: &Vec<Folder>, order: &Vec<usize>) -> (sorted: Vec<Folder>)
    requires
        order@.len() == found@.len(),
        forall|k: int| 0 <= k < order@.len() ==> (#[trigger] order@[k]) < found@.len(),
    ensures
        arranged(folders_view(found@), order@, folders_view(sorted@)),
{
    let mut sorted: Vec<Folder> = Vec::new();
    let mut j: usize = 0;
    while j < order.len()
        invariant
            j <= order@.len(),
            order@.len() == found@.len(),
            sorted@.len() == j,
            forall|k: int| 0 <= k < order@.len() ==> (#[trigger] order@[k]) < found@.len(),
            forall|k: int| 0 <= k < j ==> (#[trigger] sorted@[k])@ == found@[order@[k] as int]@,
        decreases order@.len() - j,
    {
        sorted.push(found[order[j]].copy());
        j = j + 1;
    }
    assert(arranged(folders_view(found@), order@, folders_view(sorted@)));
    sorted
}

/// Immediate subdirectories that hold audio anywhere beneath them, with a recursive
/// track count. Empty branches are left out: a folder you cannot play anything from
/// is only noise.
pub fn list_subdirs(entries: &Vec<Entry>) -> (r: Vec<Folder>)
    requires
        countable(entries@),
    ensures
        sorts(folder_keys(folders_in(entries@)), folders_in(entries@), folders_view(r@)),
{
    let mut found: Vec<Folder> = Vec::new();
    let mut i: usize = 0;
    proof {
        assert(entries@.take(0) =~= seq![]);
        assert(folders_view(found@) =~= seq![]);
    }
    while i < entries.len()
        invariant
            i <= entries@.len(),
            countable(entries@),
            folders_view(found@) == folders_in(entries@.take(i as int)),
        decreases entries@.len() - i,
    {
        let ghost was = folders_view(found@);
        proof {
            let t = entries@.take(i as int + 1);
            assert(t.drop_last() =~= entries@.take(i as int));
            assert(t.last() == entries@[i as int]);
        }
        match &entries[i] {
            Entry::File { path, time } => {},
            Entry::Dir { path, time, entries: inner } => {
                let (count, newest) = count_audio(*time, inner, MAX_DEPTH);
                if !is_hidden(path.as_str()) && count > 0 {
                    let folder = Folder {
                        label: file_name(path.as_str()),
                        path: path.clone(),
                        count,
                        newest,
                    };
                    let ghost fv = folder@;
                    found.push(folder);
                    assert(folders_view(found@) =~= was.push(fv));
                }
            },
        }
        i = i + 1;
    }
    assert(entries@.take(i as int) =~= entries@);
    let mut keys: Vec<Vec<String>> = Vec::new();
    let mut n: usize = 0;
    while n < found.len()
        invariant
            n <= found@.len(),
            keys@.len() == n,
            forall|k: int| 0 <= k < n ==> views((#[trigger] keys@[k])@) == comps(found@[k].path@),
        decreases found@.len() - n,
    {
        keys.push(paths::parts(found[n].path.as_str()));
        n = n + 1;
    }
    assert(order::keys_view(keys@) =~= folder_keys(folders_view(found@)));
    let order = order::sorted_order(&keys);
    arrange_folders(&found, &order)
}

/// Some folder is labelled so.
pub open spec fn has_label(folders: Seq<FolderV>, label: Seq<char>) -> bool {
    exists|i: int| 0 <= i < folders.len() && (#[trigger] folders[i]).label == label
}

/// The folders of `more` whose label is not among those of `here`.
pub open spec fn unlisted(here: Seq<FolderV>, more: Seq<FolderV>) -> Seq<FolderV>
    decreases more.len(),
{
    if more.len() == 0 {
        seq![]
    } else if has_label(here, more.last().label) {
        unlisted(here, more.drop_last())
    } else {
        unlisted(here, more.drop_last()).push(more.last())
    }
}

/// The sort keys of folders shown by label.
pub open spec fn label_keys(folders: Seq<FolderV>) -> Seq<Seq<Seq<char>>> {
    Seq::new(folders.len(), |i: int| seq![folders[i].label])
}

/// `rows` is the local folders and a server's side by side, as one list in order of
/// their labels. A folder that exists in both is shown once, as the local one.
pub open spec fn is_merge(here: Seq<FolderV>, there: Seq<FolderV>, rows: Seq<FolderV>) -> bool {
    sorts(label_keys(here + unlisted(here, there)), here + unlisted(here, there), rows)
}

/// Leaving folders out never makes more of them.
pub proof fn lemma_unlisted(here: Seq<FolderV>, more: Seq<FolderV>)
    ensures
        unlisted(here, more).len() <= more.len(),
    decreases more.len(),
{
    if more.len() > 0 {
        lemma_unlisted(here, more.drop_last());
    }
}

fn labelled(folders: &Vec<Folder>, label: &str) -> (b: bool)
    ensures
        b == has_label(folders_view(folders@), label@),
{
    let ghost all = folders_view(folders@);
    let mut i: usize = 0;
    while i < folders.len()
        invariant
            i <= folders@.len(),
            all == folders_view(folders@),
            forall|k: int| 0 <= k < i ==> (#[trigger] all[k]).label != label@,
        decreases folders@.len() - i,
    {
        assert(all[i as int] == folders@[i as int]@);
        if text::same(folders[i].label.as_str(), label) {
            return true;
        }
        i = i + 1;
    }
    false
}

/// Two lists of folders as one, in order of their labels.
pub fn merge(here: Vec<Folder>, there: &Vec<Folder>) -> (rows: Vec<Folder>)
    ensures
        is_merge(folders_view(here@), folders_view(there@), folders_view(rows@)),
{
    let ghost h = folders_view(here@);
    let ghost t = folders_view(there@);
    let mut extra: Vec<Folder> = Vec::new();
    let mut i: usize = 0;
    proof {
        assert(t.take(0) =~= seq![]);
        assert(folders_view(extra@) =~= seq![]);
    }
    while i < there.len()
        invariant
            i <= there@.len(),
            h == folders_view(here@),
            t == folders_view(there@),
            folders_view(extra@) == unlisted(h, t.take(i as int)),
        decreases there@.len() - i,
    {
        let ghost was = folders_view(extra@);
        proof {
            let p = t.take(i as int + 1);
            assert(p.drop_last() =~= t.take(i as int));
            assert(p.last() == there@[i as int]@);
        }
        if !labelled(&here, there[i].label.as_str()) {
            extra.push(there[i].copy());
            assert(folders_view(extra@) =~= was.push(there@[i as int]@));
        }
        i = i + 1;
    }
    assert(t.take(i as int) =~= t);
    let mut all = here;
    let ghost (a, b) = (all@, extra@);
    all.append(&mut extra);
    proof {
        assert(all@ =~= a + b);
        assert(folders_view(all@) =~= h + unlisted(h, t));
    }
    let mut keys: Vec<Vec<String>> = Vec::new();
    let mut n: usize = 0;
    while n < all.len()
        invariant
            n <= all@.len(),
            keys@.len() == n,
            forall|k: int| 0 <= k < n ==> views((#[trigger] keys@[k])@) == seq![all@[k].label@],
        decreases all@.len() - n,
    {
        let mut key: Vec<String> = Vec::new();
        key.push(all[n].label.clone());
        assert(views(key@) =~= seq![all@[n as int].label@]);
        keys.push(key);
        n = n + 1;
    }
    assert(order::keys_view(keys@) =~= label_keys(folders_view(all@)));
    let order = order::sorted_order(&keys);
    arrange_folders(&all, &order)
}

// ---------------------------------------------------------------------------
// Tags in the wrong encoding
// ---------------------------------------------------------------------------

/// CP1251 for `0x80..=0xBF`. Everything from `0xC0` up is the contiguous Cyrillic
/// block. `\u{FFFD}` marks the one byte CP1251 leaves undefined.
pub open spec fn cp1251_high() -> Seq<char> {
    "ЂЃ‚ѓ„…†‡€‰Љ‹ЊЌЋЏђ‘’“”•–—\u{FFFD}™љ›њќћџ\u{A0}ЎўЈ¤Ґ¦§Ё©Є«¬\u{AD}®Ї°±Ііґµ¶·ё№є»јЅѕї"@
}

/// A letter, among the characters of Latin-1.
pub open spec fn is_latin_letter(c: char) -> bool {
    let n = c as int;
    ||| 0x41 <= n <= 0x5a
    ||| 0x61 <= n <= 0x7a
    ||| n == 0xaa
    ||| n == 0xb5
    ||| n == 0xba
    ||| 0xc0 <= n <= 0xd6
    ||| 0xd8 <= n <= 0xf6
    ||| 0xf8 <= n <= 0xff
}

/// The letters of ASCII.
pub open spec fn plain_letters(s: Seq<char>) -> nat
    decreases s.len(),
{
    if s.len() == 0 {
        0
    } else {
        plain_letters(s.drop_last()) + if 0x41 <= s.last() as int <= 0x5a || 0x61 <= s.last() as int
            <= 0x7a {
            1nat
        } else {
            0
        }
    }
}

/// The letters.
pub open spec fn letters(s: Seq<char>) -> nat
    decreases s.len(),
{
    if s.len() == 0 {
        0
    } else {
        letters(s.drop_last()) + if is_latin_letter(s.last()) {
            1nat
        } else {
            0
        }
    }
}

/// The characters that are not ASCII.
pub open spec fn highs(s: Seq<char>) -> nat
    decreases s.len(),
{
    if s.len() == 0 {
        0
    } else {
        highs(s.drop_last()) + if s.last() as int >= 0x80 {
            1nat
        } else {
            0
        }
    }
}

/// The Cyrillic characters.
pub open spec fn cyrillics(s: Seq<char>) -> nat
    decreases s.len(),
{
    if s.len() == 0 {
        0
    } else {
        cyrillics(s.drop_last()) + if 0x400 <= s.last() as int <= 0x4ff {
            1nat
        } else {
            0
        }
    }
}

/// Nothing that a single byte could not have said.
pub open spec fn is_latin(s: Seq<char>) -> bool {
    forall|i: int| 0 <= i < s.len() ==> (#[trigger] s[i]) as int <= 0xff
}

/// A byte read as CP1251.
pub open spec fn cp1251_char(c: char) -> char {
    let n = c as int;
    if 0xc0 <= n <= 0xff {
        (0x410 + (n - 0xc0)) as char
    } else if 0x80 <= n <= 0xbf {
        cp1251_high()[n - 0x80]
    } else {
        c
    }
}

/// Bytes read as CP1251.
pub open spec fn cp1251(s: Seq<char>) -> Seq<char> {
    Seq::new(s.len(), |i: int| cp1251_char(s[i]))
}

/// The text a tag was meant to hold, when it holds CP1251 bytes while declaring
/// Latin-1. Nothing unless the text really looks like that mistake: two or more high
/// bytes that outnumber the ASCII letters, and that read as CP1251 come out mostly
/// Cyrillic.
pub open spec fn recovered(s: Seq<char>) -> Option<Seq<char>> {
    let r = cp1251(s);
    if is_latin(s) && highs(s) >= 2 && highs(s) > plain_letters(s) && !r.contains('\u{FFFD}')
        && cyrillics(r) >= 2 && cyrillics(r) * 2 > letters(s) {
        Some(r)
    } else {
        None
    }
}

/// The text as it should read.
pub open spec fn fixed(s: Seq<char>) -> Seq<char> {
    match recovered(s) {
        Some(r) => r,
        None => s,
    }
}

/// Recover a tag that holds CP1251 bytes while declaring Latin-1.
pub fn recover_cp1251(text: &str) -> (r: Option<String>)
    ensures
        opt_view(r) == recovered(text@),
{
    let v = text::chars_of(text);
    let ghost s = text@;
    let mut high: usize = 0;
    let mut plain: usize = 0;
    let mut count: usize = 0;
    let mut i: usize = 0;
    assert(s.take(0) =~= seq![]);
    while i < v.len()
        invariant
            i <= v@.len(),
            v@ == s,
            s == text@,
            high == highs(s.take(i as int)),
            plain == plain_letters(s.take(i as int)),
            count == letters(s.take(i as int)),
            high <= i,
            plain <= i,
            count <= i,
            forall|k: int| 0 <= k < i ==> (#[trigger] s[k]) as int <= 0xff,
        decreases v@.len() - i,
    {
        let n: u32 = text::code(v[i]);
        // A codepoint above 0xFF cannot have come from a single-byte decode.
        if n > 0xff {
            assert(!is_latin(s)) by {
                assert(s[i as int] as int > 0xff);
            }
            return None;
        }
        proof {
            let t = s.take(i as int + 1);
            assert(t.drop_last() =~= s.take(i as int));
            assert(t.last() == s[i as int]);
        }
        if (0x41 <= n && n <= 0x5a) || (0x61 <= n && n <= 0x7a) {
            plain = plain + 1;
            count = count + 1;
        } else if n == 0xaa || n == 0xb5 || n == 0xba || (0xc0 <= n && n <= 0xd6) || (0xd8 <= n && n
            <= 0xf6) || (0xf8 <= n && n <= 0xff) {
            count = count + 1;
        }
        if n >= 0x80 {
            high = high + 1;
        }
        i = i + 1;
    }
    assert(s.take(i as int) =~= s);
    // Two high bytes minimum, and they must outnumber the plain-ASCII letters.
    if high < 2 || high <= plain {
        return None;
    }
    let table = text::chars_of(
        "ЂЃ‚ѓ„…†‡€‰Љ‹ЊЌЋЏђ‘’“”•–—\u{FFFD}™љ›њќћџ\u{A0}ЎўЈ¤Ґ¦§Ё©Є«¬\u{AD}®Ї°±Ііґµ¶·ё№є»јЅѕї",
    );
    proof {
        reveal_strlit(
            "ЂЃ‚ѓ„…†‡€‰Љ‹ЊЌЋЏђ‘’“”•–—\u{FFFD}™љ›њќћџ\u{A0}ЎўЈ¤Ґ¦§Ё©Є«¬\u{AD}®Ї°±Ііґµ¶·ё№є»јЅѕї",
        );
        assert(table@.len() == 64);
    }
    let mut out = String::new();
    let mut cyrillic: usize = 0;
    let mut k: usize = 0;
    let ghost r = cp1251(s);
    assert(r.take(0) =~= seq![]);
    while k < v.len()
        invariant
            k <= v@.len(),
            v@ == s,
            s == text@,
            is_latin(s),
            r == cp1251(s),
            table@ == cp1251_high(),
            table@.len() == 64,
            out@ == r.take(k as int),
            cyrillic == cyrillics(r.take(k as int)),
            cyrillic <= k,
            forall|j: int| 0 <= j < k ==> #[trigger] r[j] != '\u{FFFD}',
        decreases v@.len() - k,
    {
        let c = v[k];
        let n: u32 = text::code(c);
        assert(s[k as int] as int <= 0xff);
        let d = if n >= 0xc0 {
            match char::from_u32(0x410 + (n - 0xc0)) {
                Some(d) => d,
                None => '\u{FFFD}',
            }
        } else if n >= 0x80 {
            table[(n - 0x80) as usize]
        } else {
            c
        };
        proof {
            assert(d == r[k as int]);
            let t = r.take(k as int + 1);
            assert(t.drop_last() =~= r.take(k as int));
            assert(t.last() == d);
            assert(out@.push(d) =~= t);
        }
        if d == '\u{FFFD}' {
            assert(r.contains(r[k as int]));
            return None;
        }
        out.push(d);
        let m: u32 = text::code(d);
        if 0x400 <= m && m <= 0x4ff {
            cyrillic = cyrillic + 1;
        }
        k = k + 1;
    }
    assert(r.take(k as int) =~= r);
    // The point was to get Cyrillic; if we did not, leave the text alone.
    if cyrillic >= 2 && (cyrillic >= count || cyrillic > count - cyrillic) {
        Some(out)
    } else {
        None
    }
}

/// Apply [`recover_cp1251`] where it fires, otherwise keep the text as read.
pub fn fix_encoding(text: String) -> (r: String)
    ensures
        r@ == fixed(text@),
{
    match recover_cp1251(text.as_str()) {
        Some(r) => r,
        None => text,
    }
}

/// Plain ASCII is never touched.
pub proof fn law_ascii_is_left_alone(s: Seq<char>)
    requires
        forall|i: int| 0 <= i < s.len() ==> ((#[trigger] s[i]) as int) < 0x80,
    ensures
        fixed(s) == s,
{
    lemma_no_highs(s);
}

proof fn lemma_no_highs(s: Seq<char>)
    requires
        forall|i: int| 0 <= i < s.len() ==> ((#[trigger] s[i]) as int) < 0x80,
    ensures
        highs(s) == 0,
    decreases s.len(),
{
    if s.len() > 0 {
        let t = s.drop_last();
        assert forall|i: int| 0 <= i < t.len() implies ((#[trigger] t[i]) as int) < 0x80 by {
            assert(t[i] == s[i]);
        }
        lemma_no_highs(t);
    }
}

/// A word with accents among its letters is never touched: its high bytes do not
/// outnumber the ASCII letters. Nor is one with a single high byte.
pub proof fn law_accents_are_left_alone(s: Seq<char>)
    requires
        highs(s) <= plain_letters(s) || highs(s) < 2,
    ensures
        fixed(s) == s,
{
}

/// Text that already holds a character beyond Latin-1 is never touched.
pub proof fn law_real_unicode_is_left_alone(s: Seq<char>, i: int)
    requires
        0 <= i < s.len(),
        s[i] as int > 0xff,
    ensures
        fixed(s) == s,
{
}

// ---------------------------------------------------------------------------
// Tracks
// ---------------------------------------------------------------------------

/// What one tag of a file says.
#[derive(Debug)]
pub struct Tag {
    pub title: Option<String>,
    pub artist: Option<String>,
    pub album_artist: Option<String>,
    pub album: Option<String>,
}

/// What was read of a file: its length, and its main tag if it has one.
#[derive(Debug)]
pub struct Tagged {
    pub duration: Duration,
    pub tag: Option<Tag>,
}

/// `value` as it should read, or `other` when it is absent.
pub open spec fn fixed_or(value: Option<Seq<char>>, other: Seq<char>) -> Seq<char> {
    match value {
        Some(v) => fixed(v),
        None => other,
    }
}

/// The first of two that is there.
pub open spec fn either(a: Option<Seq<char>>, b: Option<Seq<char>>) -> Option<Seq<char>> {
    match a {
        Some(v) => Some(v),
        None => b,
    }
}

/// A local file as a track: what its tags say, and its own name where they do not.
pub open spec fn track_from(path: Seq<char>, tagged: Option<Tagged>) -> TrackV {
    let name = match stem(path) {
        Some(s) => s,
        None => "?"@,
    };
    let bare = TrackV {
        path,
        title: name,
        artist: "—"@,
        album: "—"@,
        duration: None,
        url: None,
        art_url: None,
        stars: None,
    };
    match tagged {
        None => bare,
        Some(t) => match t.tag {
            None => TrackV { duration: Some(t.duration), ..bare },
            Some(tag) => TrackV {
                duration: Some(t.duration),
                title: fixed_or(opt_view(tag.title), name),
                artist: fixed_or(either(opt_view(tag.artist), opt_view(tag.album_artist)), "—"@),
                album: fixed_or(opt_view(tag.album), "—"@),
                ..bare
            },
        },
    }
}

/// A local file as a track, given what was read of it.
pub fn read_track(path: String, tagged: Option<Tagged>) -> (track: Track)
    ensures
        track@ == track_from(path@, tagged),
{
    let name = match paths::file_stem(path.as_str()) {
        Some(s) => s,
        None => "?".to_owned(),
    };
    let mut track = Track {
        path,
        title: name,
        artist: "—".to_owned(),
        album: "—".to_owned(),
        duration: None,
        url: None,
        art_url: None,
        stars: None,
    };
    if let Some(t) = tagged {
        track.duration = Some(t.duration);
        if let Some(tag) = t.tag {
            if let Some(v) = tag.title {
                track.title = fix_encoding(v);
            }
            // Some tags carry only the album artist.
            let artist = match tag.artist {
                Some(v) => Some(v),
                None => tag.album_artist,
            };
            if let Some(v) = artist {
                track.artist = fix_encoding(v);
            }
            if let Some(v) = tag.album {
                track.album = fix_encoding(v);
            }
        }
    }
    track
}

/// A picture that is there and not empty.
pub open spec fn has_picture(first: Option<Vec<u8>>) -> bool {
    first matches Some(data) && data@.len() > 0
}

/// Which of a file's tags to take the picture from, given the first picture of each:
/// the first that is not empty.
pub fn embedded_cover(firsts: &Vec<Option<Vec<u8>>>) -> (r: Option<usize>)
    ensures
        match r {
            Some(i) => i < firsts@.len() && has_picture(firsts@[i as int]) && forall|k: int|
                0 <= k < i ==> !has_picture(#[trigger] firsts@[k]),
            None => forall|k: int| 0 <= k < firsts@.len() ==> !has_picture(#[trigger] firsts@[k]),
        },
{
    let mut i: usize = 0;
    while i < firsts.len()
        invariant
            i <= firsts@.len(),
            forall|k: int| 0 <= k < i ==> !has_picture(#[trigger] firsts@[k]),
        decreases firsts@.len() - i,
    {
        if let Some(data) = &firsts[i] {
            if data.len() > 0 {
                return Some(i);
            }
        }
        i = i + 1;
    }
    None
}

/// A track's cover, out of the bytes of its picture.
pub fn load_cover(picture: Option<Vec<u8>>) -> (r: Option<DynamicImage>)
    ensures
        match picture {
            Some(bytes) => decodes(bytes@, r),
            None => r is None,
        },
{
    match picture {
        Some(bytes) => cover::decode(bytes.as_slice()),
        None => None,
    }
}

/// The names a picture beside the music may have, in the order they are tried.
pub open spec fn cover_names() -> Seq<Seq<char>> {
    seq![
        "cover.jpg"@,
        "cover.jpeg"@,
        "cover.png"@,
        "folder.jpg"@,
        "front.jpg"@,
        "album.jpg"@,
        "AlbumArt.jpg"@,
    ]
}

/// Where to look for a picture beside a file, in order.
pub open spec fn sidecars(path: Seq<char>) -> Seq<Seq<char>> {
    match parent(path) {
        Some(dir) => Seq::new(cover_names().len(), |i: int| within(dir, cover_names()[i])),
        None => seq![],
    }
}

/// Where to look for a picture beside a file, in order.
pub fn sidecar_covers(path: &str) -> (r: Vec<String>)
    ensures
        views(r@) == sidecars(path@),
{
    let mut r: Vec<String> = Vec::new();
    match paths::parent_of(path) {
        Some(dir) => {
            let d = dir.as_str();
            r.push(paths::join(d, "cover.jpg"));
            r.push(paths::join(d, "cover.jpeg"));
            r.push(paths::join(d, "cover.png"));
            r.push(paths::join(d, "folder.jpg"));
            r.push(paths::join(d, "front.jpg"));
            r.push(paths::join(d, "album.jpg"));
            r.push(paths::join(d, "AlbumArt.jpg"));
        },
        None => {},
    }
    assert(views(r@) =~= sidecars(path@));
    r
}

/// An episode as a track.
pub open spec fn episode_track(channel: ChannelV, e: EpisodeV) -> TrackV {
    TrackV {
        path: e.url,
        title: e.title,
        artist: if e.author.len() == 0 {
            channel.title
        } else {
            e.author
        },
        album: channel.title,
        duration: e.duration,
        url: Some(e.url),
        art_url: e.art_url,
        stars: None,
    }
}

/// A feed's episodes as tracks. A feed lists newest first; a numbered archive reads
/// better the other way, so episode 1 is row 1 and `n` walks forwards.
pub open spec fn feed_tracks(channel: ChannelV) -> Seq<TrackV> {
    let n = channel.episodes.len();
    Seq::new(n, |i: int| episode_track(channel, channel.episodes[n - 1 - i]))
}

/// Turn a feed's episodes into tracks, so everything downstream needs no idea where
/// they came from.
pub fn tracks_from_feed(channel: &Channel) -> (r: Vec<Track>)
    ensures
        tracks_view(r@) == feed_tracks(channel@),
{
    let mut r: Vec<Track> = Vec::new();
    let n: usize = channel.episodes.len();
    let mut i: usize = 0;
    while i < n
        invariant
            i <= n,
            n == channel.episodes@.len(),
            r@.len() == i,
            forall|k: int| 0 <= k < i ==> (#[trigger] r@[k])@ == feed_tracks(channel@)[k],
        decreases n - i,
    {
        let e = &channel.episodes[n - 1 - i];
        proof {
            assert(channel@.episodes[n - 1 - i] == e@);
        }
        let artist = if e.author.as_str().is_empty() {
            channel.title.clone()
        } else {
            e.author.clone()
        };
        let track = Track {
            path: e.url.clone(),
            title: e.title.clone(),
            artist,
            album: channel.title.clone(),
            duration: e.duration,
            url: Some(e.url.clone()),
            art_url: feed::copy_opt(&e.art_url),
            stars: None,
        };
        assert(track@ == episode_track(channel@, e@));
        r.push(track);
        i = i + 1;
    }
    assert(tracks_view(r@) =~= feed_tracks(channel@));
    r
}

/// Minutes and seconds, as `m:ss`.
#[verifier::opaque]
pub open spec fn clock(d: Duration) -> Seq<char> {
    let secs = d.secs as nat;
    decimal(secs / 60) + seq![':', digit((secs % 60) / 10), digit((secs % 60) % 10)]
}

/// Minutes and seconds, as `m:ss`.
pub fn fmt_duration(d: Duration) -> (r: String)
    ensures
        r@ == clock(d),
{
    proof {
        reveal(clock);
    }
    let secs: u64 = d.as_secs();
    let mut r = text::print(secs / 60);
    let tens: u8 = 48 + ((secs % 60) / 10) as u8;
    let ones: u8 = 48 + ((secs % 60) % 10) as u8;
    r.push(':');
    r.push(tens as char);
    r.push(ones as char);
    assert(r@ =~= clock(d));
    r
}

// ---------------------------------------------------------------------------
// What holds of tracks, covers and folders
// ---------------------------------------------------------------------------

/// What a tag says is what a track is called, as it should read: its own artist before
/// the artist of the album, and what the tag does not say as if there were no tag.
pub proof fn law_tags_say_what_a_track_is_called(path: Seq<char>, duration: Duration, tag: Tag)
    ensures
        ({
            let track = track_from(path, Some(Tagged { duration, tag: Some(tag) }));
            let bare = track_from(path, Some(Tagged { duration, tag: None }));
            &&& track.path == path
            &&& track.duration == Some(duration)
            &&& track.url is None && track.stars is None
            &&& tag.artist matches Some(a) ==> track.artist == fixed(a@)
            &&& tag.artist is None ==> (tag.album_artist matches Some(a) ==> track.artist == fixed(
                a@,
            ))
            &&& tag.artist is None && tag.album_artist is None ==> track.artist == bare.artist
            &&& tag.title matches Some(t) ==> track.title == fixed(t@)
            &&& tag.title is None ==> track.title == bare.title
            &&& tag.album matches Some(a) ==> track.album == fixed(a@)
            &&& tag.album is None ==> track.album == bare.album
        }),
{
}

/// A file without tags is called by its name without the ending, and by nobody and
/// nothing else; how long it is, is known only where it was read.
pub proof fn law_untagged_files_go_by_their_name(
    dir: Seq<char>,
    base: Seq<char>,
    ending: Seq<char>,
    duration: Duration,
)
    requires
        dir.len() > 0,
        base.len() > 0,
        !base.contains('/'),
        !ending.contains('/'),
        !ending.contains('.'),
        paths::is_entry(base + seq!['.'] + ending),
    ensures
        ({
            let path = within(dir, base + seq!['.'] + ending);
            let unread = track_from(path, None);
            let untagged = track_from(path, Some(Tagged { duration, tag: None }));
            &&& unread.title == base
            &&& unread.duration is None
            &&& unread.artist == "—"@ && unread.album == "—"@
            &&& untagged == (TrackV { duration: Some(duration), ..unread })
        }),
{
    paths::law_a_name_is_a_stem_and_an_extension(dir, base, ending);
}

/// The character that stands for a letter of CP1251 in text read as Latin-1.
pub open spec fn mistaken(c: char) -> char {
    if 0x410 <= c as int <= 0x44f {
        ((c as int - 0x410 + 0xc0) as u8) as char
    } else if c == 'Ё' {
        (0xa8u8) as char
    } else if c == 'ё' {
        (0xb8u8) as char
    } else {
        c
    }
}

/// A letter of Russian.
pub open spec fn is_russian(c: char) -> bool {
    0x410 <= c as int <= 0x44f || c == 'Ё' || c == 'ё'
}

/// How many letters of Russian there are.
pub open spec fn russians(s: Seq<char>) -> nat
    decreases s.len(),
{
    if s.len() == 0 {
        0
    } else {
        russians(s.drop_last()) + if is_russian(s.last()) {
            1nat
        } else {
            0
        }
    }
}

proof fn lemma_mistaken_char(c: char)
    requires
        is_russian(c) || (c as int) < 0x80,
    ensures
        mistaken(c) as int <= 0xff,
        cp1251_char(mistaken(c)) == c,
        is_russian(c) <==> mistaken(c) as int >= 0x80,
        is_russian(c) <==> 0x400 <= c as int <= 0x4ff,
        c != '\u{FFFD}',
{
    reveal_strlit(
        "ЂЃ‚ѓ„…†‡€‰Љ‹ЊЌЋЏђ‘’“”•–—\u{FFFD}™љ›њќћџ\u{A0}ЎўЈ¤Ґ¦§Ё©Є«¬\u{AD}®Ї°±Ііґµ¶·ё№є»јЅѕї",
    );
}

proof fn lemma_mistaken(s: Seq<char>)
    requires
        forall|i: int| 0 <= i < s.len() ==> is_russian(#[trigger] s[i]) || (s[i] as int) < 0x80,
    ensures
        ({
            let m = Seq::new(s.len(), |i: int| mistaken(s[i]));
            &&& is_latin(m)
            &&& cp1251(m) == s
            &&& highs(m) == russians(s)
            &&& cyrillics(s) == russians(s)
            &&& plain_letters(m) == plain_letters(s)
            &&& letters(m) <= russians(s) + plain_letters(s)
        }),
    decreases s.len(),
{
    let m = Seq::new(s.len(), |i: int| mistaken(s[i]));
    assert forall|i: int| 0 <= i < s.len() implies (#[trigger] m[i]) as int <= 0xff && cp1251_char(
        m[i],
    ) == s[i] by {
        lemma_mistaken_char(s[i]);
    }
    assert(cp1251(m) =~= s);
    if s.len() > 0 {
        let t = s.drop_last();
        assert forall|i: int| 0 <= i < t.len() implies is_russian(#[trigger] t[i]) || (t[i] as int)
            < 0x80 by {
            assert(t[i] == s[i]);
        }
        lemma_mistaken(t);
        lemma_mistaken_char(s.last());
        assert(m.drop_last() =~= Seq::new(t.len(), |i: int| mistaken(t[i])));
    }
}

/// Russian text that was stored as CP1251 and read as Latin-1 comes back as it was
/// written, whatever ASCII stands around it, as long as it is mostly Russian.
pub proof fn law_russian_text_is_recovered(s: Seq<char>)
    requires
        forall|i: int| 0 <= i < s.len() ==> is_russian(#[trigger] s[i]) || (s[i] as int) < 0x80,
        russians(s) >= 2,
        russians(s) > plain_letters(s),
    ensures
        fixed(Seq::new(s.len(), |i: int| mistaken(s[i]))) == s,
{
    lemma_mistaken(s);
    let m = Seq::new(s.len(), |i: int| mistaken(s[i]));
    if s.contains('\u{FFFD}') {
        let i = choose|i: int| 0 <= i < s.len() && s[i] == '\u{FFFD}';
        lemma_mistaken_char(s[i]);
    }
    assert(recovered(m) == Some(s));
}

/// A picture beside the music is looked for under every name it may have, one after the
/// other, and in the folder of the music and nowhere else.
pub proof fn law_every_cover_name_is_looked_for(path: Seq<char>)
    ensures
        match parent(path) {
            Some(dir) => {
                let at = sidecars(path);
                &&& at.len() == 7
                &&& at[0] == within(dir, "cover.jpg"@)
                &&& at[1] == within(dir, "cover.jpeg"@)
                &&& at[2] == within(dir, "cover.png"@)
                &&& at[3] == within(dir, "folder.jpg"@)
                &&& at[4] == within(dir, "front.jpg"@)
                &&& at[5] == within(dir, "album.jpg"@)
                &&& at[6] == within(dir, "AlbumArt.jpg"@)
            },
            None => sidecars(path).len() == 0,
        },
{
}

/// A picture that lies beside a file is among the places where it is looked for.
pub proof fn law_a_picture_beside_the_music_is_found(
    dir: Seq<char>,
    name: Seq<char>,
    picture: Seq<char>,
)
    requires
        dir.len() > 0,
        dir.last() != '/',
        dir.last() != '.',
        paths::is_entry(name),
        picture == "cover.jpg"@ || picture == "cover.jpeg"@ || picture == "cover.png"@ || picture
            == "folder.jpg"@ || picture == "front.jpg"@ || picture == "album.jpg"@ || picture
            == "AlbumArt.jpg"@,
    ensures
        sidecars(within(dir, name)).contains(within(dir, picture)),
{
    paths::law_the_parent_of_an_entry_is_its_folder(dir, name);
    law_every_cover_name_is_looked_for(within(dir, name));
    let at = sidecars(within(dir, name));
    assert(at.contains(at[0]) && at.contains(at[1]) && at.contains(at[2]) && at.contains(at[3])
        && at.contains(at[4]) && at.contains(at[5]) && at.contains(at[6]));
}

/// A feed's episodes are listed the other way round than the feed has them, each as a
/// track that plays its audio, called and as long as the feed says. One without an
/// author is by the channel.
pub proof fn law_episodes_are_listed_oldest_first(channel: ChannelV, i: int)
    requires
        0 <= i < channel.episodes.len(),
    ensures
        feed_tracks(channel).len() == channel.episodes.len(),
        ({
            let track = feed_tracks(channel)[channel.episodes.len() - 1 - i];
            let e = channel.episodes[i];
            &&& track.title == e.title
            &&& track.path == e.url && track.url == Some(e.url)
            &&& track.duration == e.duration
            &&& track.art_url == e.art_url
            &&& track.album == channel.title
            &&& e.author.len() > 0 ==> track.artist == e.author
            &&& e.author.len() == 0 ==> track.artist == channel.title
            &&& track.stars is None
        }),
{
}

/// Which endings are played, in small letters or in large ones, and no others.
pub proof fn law_audio_goes_by_its_ending(path: Seq<char>)
    ensures
        is_audio_name(path) <==> (extension(path) matches Some(e) && ({
            let low = lowered(e);
            ||| low == "mp3"@
            ||| low == "flac"@
            ||| low == "m4a"@
            ||| low == "aac"@
            ||| low == "ogg"@
            ||| low == "oga"@
            ||| low == "opus"@
            ||| low == "wav"@
            ||| low == "aiff"@
            ||| low == "wv"@
        })),
{
    let all = audio_extensions();
    assert(all.contains(all[0]) && all.contains(all[1]) && all.contains(all[2]) && all.contains(
        all[3],
    ) && all.contains(all[4]) && all.contains(all[5]) && all.contains(all[6]) && all.contains(
        all[7],
    ) && all.contains(all[8]) && all.contains(all[9]));
}

/// What is hidden: names that begin with a dot, and the bin.
pub proof fn law_dot_files_are_hidden(dir: Seq<char>, name: Seq<char>)
    requires
        dir.len() > 0,
        paths::is_entry(name),
    ensures
        is_hidden_name(within(dir, name)) <==> name[0] == '.' || name == "$RECYCLE.BIN"@,
        label_of(within(dir, name)) == name,
{
    paths::law_entries_lie_in_their_folder(dir, name);
}

/// A file that is there to be played.
pub open spec fn is_playable(path: Seq<char>) -> bool {
    !is_hidden_name(path) && is_audio_name(path)
}

/// As many tracks are listed as are counted, all of them audio and none of them hidden.
pub proof fn law_the_count_is_what_is_listed(entries: Seq<Entry>, depth: nat)
    ensures
        audio_paths(entries, depth).len() == audio_below(entries, depth),
        forall|i: int|
            0 <= i < audio_paths(entries, depth).len() ==> is_playable(
                #[trigger] audio_paths(entries, depth)[i],
            ),
    decreases depth, entries.len(),
{
    if depth > 0 && entries.len() > 0 {
        law_the_count_is_what_is_listed(entries.drop_last(), depth);
        let front = audio_paths(entries.drop_last(), depth);
        let all = audio_paths(entries, depth);
        if let Entry::Dir { path, time, entries: inner } = entries.last() {
            law_the_count_is_what_is_listed(inner@, (depth - 1) as nat);
            let back = audio_paths(inner@, (depth - 1) as nat);
            assert forall|i: int| 0 <= i < all.len() implies is_playable(#[trigger] all[i]) by {
                if i < front.len() {
                    assert(all[i] == front[i]);
                } else if !is_hidden_name(path@) {
                    assert(all[i] == back[i - front.len()]);
                }
            }
        } else {
            assert forall|i: int| 0 <= i < all.len() implies is_playable(#[trigger] all[i]) by {
                if i < front.len() {
                    assert(all[i] == front[i]);
                }
            }
        }
    }
}

/// Nothing is left out of a listing: a file to be played that is among the entries is
/// listed, and so is everything listed of a folder among them that is not hidden.
pub proof fn law_everything_below_is_listed(entries: Seq<Entry>, depth: nat, i: int)
    requires
        depth > 0,
        0 <= i < entries.len(),
    ensures
        match entries[i] {
            Entry::File { path, time } => is_playable(path@) ==> audio_paths(
                entries,
                depth,
            ).contains(path@),
            Entry::Dir { path, time, entries: inner } => !is_hidden_name(path@) ==> forall|k: int|
                0 <= k < audio_paths(inner@, (depth - 1) as nat).len() ==> audio_paths(
                    entries,
                    depth,
                ).contains(#[trigger] audio_paths(inner@, (depth - 1) as nat)[k]),
        },
    decreases entries.len(),
{
    let rest = entries.drop_last();
    let front = audio_paths(rest, depth);
    let all = audio_paths(entries, depth);
    if i < entries.len() - 1 {
        law_everything_below_is_listed(rest, depth, i);
        assert(rest[i] == entries[i]);
        assert forall|p: Seq<char>| front.contains(p) implies all.contains(p) by {
            let k = choose|k: int| 0 <= k < front.len() && front[k] == p;
            assert(all[k] == p);
        }
    } else {
        match entries.last() {
            Entry::File { path, time } => {
                if is_playable(path@) {
                    assert(all[front.len() as int] == path@);
                }
            },
            Entry::Dir { path, time, entries: inner } => {
                let back = audio_paths(inner@, (depth - 1) as nat);
                if !is_hidden_name(path@) {
                    assert forall|k: int| 0 <= k < back.len() implies all.contains(
                        #[trigger] back[k],
                    ) by {
                        assert(all[front.len() + k] == back[k]);
                    }
                }
            },
        }
    }
}

/// The time of a folder moves when anything in it that counts is newer, and never for
/// anything else: it is its own, or that of something it holds.
pub proof fn law_the_newest_counts(own: u64, entries: Seq<Entry>, depth: nat)
    requires
        depth > 0,
    ensures
        newest_below(own, entries, depth) >= own,
        forall|i: int|
            0 <= i < entries.len() ==> match #[trigger] entries[i] {
                Entry::File { path, time } => is_playable(path@) ==> newest_below(
                    own,
                    entries,
                    depth,
                ) >= time,
                Entry::Dir { path, time, entries: inner } => !is_hidden_name(path@)
                    ==> newest_below(own, entries, depth) >= newest_below(
                    time,
                    inner@,
                    (depth - 1) as nat,
                ),
            },
        newest_below(own, entries, depth) == own || exists|i: int|
            0 <= i < entries.len() && match #[trigger] entries[i] {
                Entry::File { path, time } => is_playable(path@) && time == newest_below(
                    own,
                    entries,
                    depth,
                ),
                Entry::Dir { path, time, entries: inner } => !is_hidden_name(path@)
                    && newest_below(time, inner@, (depth - 1) as nat) == newest_below(
                    own,
                    entries,
                    depth,
                ),
            },
    decreases entries.len(),
{
    if entries.len() > 0 {
        let rest = entries.drop_last();
        law_the_newest_counts(own, rest, depth);
        let n = newest_below(own, rest, depth);
        let all = newest_below(own, entries, depth);
        let last = entries.len() - 1;
        assert(entries[last] == entries.last());
        assert forall|i: int| 0 <= i < entries.len() implies match #[trigger] entries[i] {
            Entry::File { path, time } => is_playable(path@) ==> all >= time,
            Entry::Dir { path, time, entries: inner } => !is_hidden_name(path@) ==> all
                >= newest_below(time, inner@, (depth - 1) as nat),
        } by {
            if i < last {
                assert(rest[i] == entries[i]);
            }
        }
        if all == n && n != own {
            let i = choose|i: int|
                0 <= i < rest.len() && match #[trigger] rest[i] {
                    Entry::File { path, time } => is_playable(path@) && time == n,
                    Entry::Dir { path, time, entries: inner } => !is_hidden_name(path@)
                        && newest_below(time, inner@, (depth - 1) as nat) == n,
                };
            assert(entries[i] == rest[i]);
        }
    }
}

/// A folder among the entries is shown when it is not hidden and holds anything to play
/// within six levels, by its name and with as many tracks as are listed of it.
pub proof fn law_folders_with_music_are_shown(entries: Seq<Entry>, i: int)
    requires
        0 <= i < entries.len(),
    ensures
        entries[i] matches Entry::Dir { path, time, entries: inner } ==> !is_hidden_name(path@)
            && audio_paths(inner@, 6).len() > 0 ==> exists|k: int|
            0 <= k < folders_in(entries).len() && ({
                let f = #[trigger] folders_in(entries)[k];
                &&& f.path == path@
                &&& f.label == label_of(path@)
                &&& f.count == audio_paths(inner@, 6).len() as usize
                &&& f.newest == newest_below(time, inner@, 6)
            }),
    decreases entries.len(),
{
    let rest = entries.drop_last();
    let shown = folders_in(entries);
    if let Entry::Dir { path, time, entries: inner } = entries[i] {
        law_the_count_is_what_is_listed(inner@, 6);
        if !is_hidden_name(path@) && audio_paths(inner@, 6).len() > 0 {
            if i == entries.len() - 1 {
                assert(shown[shown.len() - 1].path == path@);
            } else {
                law_folders_with_music_are_shown(rest, i);
                assert(rest[i] == entries[i]);
                let before = folders_in(rest);
                let k = choose|k: int|
                    0 <= k < before.len() && ({
                        let f = #[trigger] before[k];
                        &&& f.path == path@
                        &&& f.label == label_of(path@)
                        &&& f.count == audio_paths(inner@, 6).len() as usize
                        &&& f.newest == newest_below(time, inner@, 6)
                    });
                assert(shown[k] == before[k]);
            }
        }
    }
}

/// No folder is shown that has nothing to play, or that is hidden, or that is not there.
pub proof fn law_only_folders_with_music_are_shown(entries: Seq<Entry>, k: int)
    requires
        0 <= k < folders_in(entries).len(),
    ensures
        exists|i: int|
            0 <= i < entries.len() && (#[trigger] entries[i] matches Entry::Dir {
                path,
                time,
                entries: inner,
            } && path@ == folders_in(entries)[k].path && !is_hidden_name(path@) && audio_paths(
                inner@,
                6,
            ).len() > 0),
    decreases entries.len(),
{
    let rest = entries.drop_last();
    let before = folders_in(rest);
    if k < before.len() {
        law_only_folders_with_music_are_shown(rest, k);
        let i = choose|i: int|
            0 <= i < rest.len() && (#[trigger] rest[i] matches Entry::Dir {
                path,
                time,
                entries: inner,
            } && path@ == before[k].path && !is_hidden_name(path@) && audio_paths(
                inner@,
                6,
            ).len() > 0);
        assert(entries[i] == rest[i]);
        assert(folders_in(entries)[k] == before[k]);
    } else if let Entry::Dir { path, time, entries: inner } = entries.last() {
        law_the_count_is_what_is_listed(inner@, 6);
        assert(entries[entries.len() - 1] == entries.last());
    }
}

proof fn lemma_unlisted_holds(here: Seq<FolderV>, more: Seq<FolderV>)
    ensures
        forall|f: FolderV| #[trigger]
            unlisted(here, more).contains(f) <==> more.contains(f) && !has_label(here, f.label),
    decreases more.len(),
{
    if more.len() > 0 {
        let rest = more.drop_last();
        lemma_unlisted_holds(here, rest);
        let u = unlisted(here, rest);
        assert forall|f: FolderV| #[trigger] unlisted(here, more).contains(f) <==> more.contains(f)
            && !has_label(here, f.label) by {
            assert(more.contains(f) <==> rest.contains(f) || f == more.last()) by {
                if more.contains(f) {
                    let i = choose|i: int| 0 <= i < more.len() && more[i] == f;
                    if i < rest.len() {
                        assert(rest[i] == f);
                    }
                }
                if rest.contains(f) {
                    let i = choose|i: int| 0 <= i < rest.len() && rest[i] == f;
                    assert(more[i] == f);
                }
                if f == more.last() {
                    assert(more[more.len() - 1] == f);
                }
            }
            let last = more.last();
            if !has_label(here, last.label) {
                let v = u.push(last);
                assert(v.contains(f) <==> u.contains(f) || f == last) by {
                    if u.contains(f) {
                        let i = choose|i: int| 0 <= i < u.len() && u[i] == f;
                        assert(v[i] == f);
                    }
                    if f == last {
                        assert(v[u.len() as int] == f);
                    }
                    if v.contains(f) {
                        let i = choose|i: int| 0 <= i < v.len() && v[i] == f;
                        if i < u.len() {
                            assert(u[i] == f);
                        }
                    }
                }
            }
        }
    } else {
        assert forall|f: FolderV| #[trigger] unlisted(here, more).contains(f) <==> more.contains(f)
            && !has_label(here, f.label) by {
            assert(unlisted(here, more) =~= seq![]);
        }
    }
}

proof fn lemma_sorts_keeps<T>(keys: Seq<Seq<Seq<char>>>, items: Seq<T>, sorted: Seq<T>)
    requires
        sorts(keys, items, sorted),
        keys.len() == items.len() <= usize::MAX,
    ensures
        sorted.len() == items.len(),
        forall|x: T| #[trigger] sorted.contains(x) <==> items.contains(x),
{
    let order = choose|order: Seq<usize>|
        is_sorted_order(keys, order) && #[trigger] arranged(items, order, sorted);
    order::lemma_permutation_covers(order, items.len());
    assert forall|x: T| #[trigger] sorted.contains(x) <==> items.contains(x) by {
        if sorted.contains(x) {
            let i = choose|i: int| 0 <= i < sorted.len() && sorted[i] == x;
            assert(items[order[i] as int] == x);
        }
        if items.contains(x) {
            let i = choose|i: int| 0 <= i < items.len() && items[i] == x;
            assert(order.contains(i as usize));
            let k = choose|k: int| 0 <= k < order.len() && order[k] == i as usize;
            assert(sorted[k] == x);
        }
    }
}

/// Putting the folders of a server beside the local ones shows every local folder, and
/// of the server's those whose name no local folder has; nothing else is shown, and the
/// names are in order.
pub proof fn law_both_sides_are_shown_once(
    here: Seq<FolderV>,
    there: Seq<FolderV>,
    rows: Seq<FolderV>,
)
    requires
        is_merge(here, there, rows),
        here.len() + there.len() <= usize::MAX,
    ensures
        forall|f: FolderV| #[trigger]
            rows.contains(f) <==> here.contains(f) || (there.contains(f) && forall|i: int|
                0 <= i < here.len() ==> (#[trigger] here[i]).label != f.label),
        forall|i: int, j: int|
            0 <= i < j < rows.len() ==> !text::before(
                (#[trigger] rows[j]).label,
                (#[trigger] rows[i]).label,
            ),
{
    let extra = unlisted(here, there);
    let all = here + extra;
    lemma_unlisted(here, there);
    lemma_unlisted_holds(here, there);
    lemma_sorts_keeps(label_keys(all), all, rows);
    assert forall|f: FolderV| #[trigger] rows.contains(f) <==> here.contains(f) || (there.contains(f)
        && forall|i: int| 0 <= i < here.len() ==> (#[trigger] here[i]).label != f.label) by {
        assert(all.contains(f) <==> here.contains(f) || extra.contains(f)) by {
            if all.contains(f) {
                let i = choose|i: int| 0 <= i < all.len() && all[i] == f;
                if i < here.len() {
                    assert(here[i] == f);
                } else {
                    assert(extra[i - here.len()] == f);
                }
            }
            if here.contains(f) {
                let i = choose|i: int| 0 <= i < here.len() && here[i] == f;
                assert(all[i] == f);
            }
            if extra.contains(f) {
                let i = choose|i: int| 0 <= i < extra.len() && extra[i] == f;
                assert(all[here.len() + i] == f);
            }
        }
        assert(extra.contains(f) <==> there.contains(f) && !has_label(here, f.label));
    }
    let keys = label_keys(all);
    let order = choose|order: Seq<usize>|
        is_sorted_order(keys, order) && #[trigger] arranged(all, order, rows);
    assert forall|i: int, j: int| 0 <= i < j < rows.len() implies !text::before(
        (#[trigger] rows[j]).label,
        (#[trigger] rows[i]).label,
    ) by {
        assert(order::in_order(keys, order[i], order[j]));
        let (a, b) = (keys[order[i] as int], keys[order[j] as int]);
        assert(a =~= seq![rows[i].label] && b =~= seq![rows[j].label]);
        order::lemma_one_part(rows[i].label, rows[j].label);
        order::lemma_before_irreflexive(rows[i].label);
        if text::before(rows[j].label, rows[i].label) && text::before(rows[i].label, rows[j].label) {
            order::lemma_before_transitive(rows[i].label, rows[j].label, rows[i].label);
        }
    }
}

/// Finding something in a list finds the first that is there, and nothing only where
/// there is none.
pub proof fn law_the_first_match_is_found(folders: Seq<FolderV>, tracks: Seq<TrackV>, path: Seq<char>)
    ensures
        folder_place(folders, path) <= folders.len(),
        folder_place(folders, path) < folders.len() ==> paths::same_path(
            folders[folder_place(folders, path) as int].path,
            path,
        ),
        forall|i: int|
            0 <= i < folder_place(folders, path) ==> !paths::same_path(
                (#[trigger] folders[i]).path,
                path,
            ),
        track_place(tracks, path) <= tracks.len(),
        track_place(tracks, path) < tracks.len() ==> paths::same_path(
            tracks[track_place(tracks, path) as int].path,
            path,
        ),
        forall|i: int|
            0 <= i < track_place(tracks, path) ==> !paths::same_path(
                (#[trigger] tracks[i]).path,
                path,
            ),
        track_named(tracks, path) <= tracks.len(),
        track_named(tracks, path) < tracks.len() ==> tracks[track_named(
            tracks,
            path,
        ) as int].path == path,
        forall|i: int|
            0 <= i < track_named(tracks, path) ==> (#[trigger] tracks[i]).path != path,
    decreases folders.len() + tracks.len(),
{
    if folders.len() > 0 && !paths::same_path(folders[0].path, path) {
        law_the_first_match_is_found(folders.skip(1), seq![], path);
        let rest = folders.skip(1);
        assert forall|i: int| 0 <= i < folder_place(folders, path) implies !paths::same_path(
            (#[trigger] folders[i]).path,
            path,
        ) by {
            if i > 0 {
                assert(rest[i - 1] == folders[i]);
            }
        }
    }
    if tracks.len() > 0 {
        law_the_first_match_is_found(seq![], tracks.skip(1), path);
        let rest = tracks.skip(1);
        assert forall|i: int| 0 <= i < track_place(tracks, path) implies !paths::same_path(
            (#[trigger] tracks[i]).path,
            path,
        ) by {
            if i > 0 {
                assert(rest[i - 1] == tracks[i]);
            }
        }
        assert forall|i: int| 0 <= i < track_named(tracks, path) implies (#[trigger] tracks[i]).path
            != path by {
            if i > 0 {
                assert(rest[i - 1] == tracks[i]);
            }
        }
    }
}

/// A length that is shown can be read back, to the second, and its seconds always take
/// two digits.
pub proof fn law_a_shown_length_reads_back(d: Duration)
    requires
        d.secs > 0,
    ensures
        feed::duration_in(clock(d)) == Some(Duration { secs: d.secs, nanos: 0 }),
        ({
            let s = clock(d);
            let n = s.len() as int;
            &&& n >= 4
            &&& s[n - 3] == ':'
            &&& text::is_digit(s[n - 2]) && text::is_digit(s[n - 1])
            &&& s[n - 2] <= '5'
            &&& s.take(n - 3) == decimal((d.secs / 60) as nat)
        }),
{
    reveal(clock);
    let m = (d.secs / 60) as nat;
    let (x, y) = ((d.secs as nat % 60) / 10, (d.secs as nat % 60) % 10);
    let s = clock(d);
    let tail = seq![digit(x), digit(y)];
    text::lemma_digit(x);
    text::lemma_digit(y);
    text::lemma_decimal(m);
    assert(s =~= decimal(m) + seq![':'] + tail);
    assert(s.take(s.len() - 3) =~= decimal(m));
    feed::lemma_clock_reads(m, tail, x * 10 + y);
}

/// A listing holds every file it was made of, no more of them and no others, in the order
/// of their paths: part by part, a folder before what is in it.
pub proof fn law_tracks_are_listed_by_path(
    found: Seq<Seq<char>>,
    listed: Seq<Seq<char>>,
    i: int,
    j: int,
)
    requires
        sorts(path_keys(found), found, listed),
        found.len() <= usize::MAX,
        0 <= i < j < listed.len(),
    ensures
        listed.len() == found.len(),
        forall|p: Seq<char>| #[trigger] listed.contains(p) <==> found.contains(p),
        !order::precedes(comps(listed[j]), comps(listed[i])),
{
    let keys = path_keys(found);
    lemma_sorts_keeps(keys, found, listed);
    let order = choose|order: Seq<usize>|
        is_sorted_order(keys, order) && #[trigger] arranged(found, order, listed);
    assert(order::in_order(keys, order[i], order[j]));
    let (a, b) = (comps(listed[i]), comps(listed[j]));
    assert(keys[order[i] as int] == a && keys[order[j] as int] == b);
    order::law_parts_are_ordered_by_the_first_that_differs(seq![], a, a);
    if order::precedes(a, b) && order::precedes(b, a) {
        order::lemma_precedes_transitive(a, b, a);
    }
}

/// The folders of a listing are in the order of their paths, and each is there once for
/// every time it was found.
pub proof fn law_folders_are_listed_by_path(
    found: Seq<FolderV>,
    listed: Seq<FolderV>,
    i: int,
    j: int,
)
    requires
        sorts(folder_keys(found), found, listed),
        found.len() <= usize::MAX,
        0 <= i < j < listed.len(),
    ensures
        listed.len() == found.len(),
        forall|f: FolderV| #[trigger] listed.contains(f) <==> found.contains(f),
        !order::precedes(comps(listed[j].path), comps(listed[i].path)),
{
    let keys = folder_keys(found);
    lemma_sorts_keeps(keys, found, listed);
    let order = choose|order: Seq<usize>|
        is_sorted_order(keys, order) && #[trigger] arranged(found, order, listed);
    assert(order::in_order(keys, order[i], order[j]));
    let (a, b) = (comps(listed[i].path), comps(listed[j].path));
    assert(keys[order[i] as int] == a && keys[order[j] as int] == b);
    order::law_parts_are_ordered_by_the_first_that_differs(seq![], a, a);
    if order::precedes(a, b) && order::precedes(b, a) {
        order::lemma_precedes_transitive(a, b, a);
    }
}

/// The loose files of a folder are the audio files right in it, hidden or not.
pub proof fn law_loose_files_are_right_in_the_folder(
    before: Seq<Entry>,
    entry: Entry,
    after: Seq<Entry>,
)
    ensures
        loose_paths(before + seq![entry] + after) == loose_paths(before) + (match entry {
            Entry::File { path, time } => if is_audio_name(path@) {
                seq![path@]
            } else {
                seq![]
            },
            Entry::Dir { path, time, entries } => seq![],
        }) + loose_paths(after),
    decreases after.len(),
{
    let all = before + seq![entry] + after;
    if after.len() == 0 {
        assert(all.drop_last() =~= before);
        assert(all.last() == entry);
    } else {
        law_loose_files_are_right_in_the_folder(before, entry, after.drop_last());
        assert(all.drop_last() =~= before + seq![entry] + after.drop_last());
        assert(all.last() == after.last());
    }
    assert(loose_paths(all) =~= loose_paths(before) + (match entry {
        Entry::File { path, time } => if is_audio_name(path@) {
            seq![path@]
        } else {
            seq![]
        },
        Entry::Dir { path, time, entries } => seq![],
    }) + loose_paths(after));
}

/// A folder looks the same for as long as it holds as many files and none is newer.
pub proof fn law_a_change_in_a_folder_shows(a: FolderV, b: FolderV)
    ensures
        a.stamp() == b.stamp() <==> a.count == b.count && a.newest == b.newest,
{
}

} // verus!
