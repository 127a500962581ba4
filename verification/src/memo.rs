//! Recently listed folders, so moving back over one is instant — as long as it still
//! looks the way it did when it was read.

use vstd::prelude::*;
use crate::library::{copy_tracks, tracks_view, Folder, FolderV, Stamp, Track, TrackV};
use crate::paths::{self, same_path};

verus! {

/// How many folders are remembered, so that browsing a large tree cannot grow without
/// limit.
pub const KEEP: usize = 256;

/// One folder as it was read.
#[derive(Debug)]
pub struct Remembered {
    pub dir: String,
    pub stamp: Stamp,
    pub tracks: Vec<Track>,
}

/// What a [`Remembered`] holds.
pub ghost struct RememberedV {
    pub dir: Seq<char>,
    pub stamp: Stamp,
    pub tracks: Seq<TrackV>,
}

impl View for Remembered {
    type V = RememberedV;

    open spec fn view(&self) -> RememberedV {
        RememberedV { dir: self.dir@, stamp: self.stamp, tracks: tracks_view(self.tracks@) }
    }
}

/// The folders remembered, the longest remembered first.
#[derive(Debug)]
pub struct Memo {
    pub entries: Vec<Remembered>,
}

pub open spec fn memo_view(v: Seq<Remembered>) -> Seq<RememberedV> {
    Seq::new(v.len(), |i: int| v[i]@)
}

impl View for Memo {
    type V = Seq<RememberedV>;

    open spec fn view(&self) -> Seq<RememberedV> {
        memo_view(self.entries@)
    }
}

/// Where the folder `dir` is; the length when it is not remembered.
pub open spec fn index_in(memo: Seq<RememberedV>, dir: Seq<char>) -> nat
    decreases memo.len(),
{
    if memo.len() == 0 || same_path(memo[0].dir, dir) {
        0
    } else {
        1 + index_in(memo.skip(1), dir)
    }
}

/// With a folder read anew. One that was remembered already keeps its turn; a new one
/// comes last, and the first goes when there are too many.
#[verifier::opaque]
pub open spec fn remembering(
    memo: Seq<RememberedV>,
    dir: Seq<char>,
    stamp: Stamp,
    tracks: Seq<TrackV>,
) -> Seq<RememberedV> {
    let at = index_in(memo, dir);
    let more = if at < memo.len() {
        memo.update(at as int, RememberedV { dir: memo[at as int].dir, stamp, tracks })
    } else {
        memo.push(RememberedV { dir, stamp, tracks })
    };
    if more.len() > KEEP {
        more.skip(more.len() - KEEP)
    } else {
        more
    }
}

/// What was read of `folder`, unless it has changed since.
#[verifier::opaque]
pub open spec fn recalled(memo: Seq<RememberedV>, folder: FolderV) -> Option<Seq<TrackV>> {
    let at = index_in(memo, folder.path);
    if at < memo.len() && memo[at as int].stamp == folder.stamp() {
        Some(memo[at as int].tracks)
    } else {
        None
    }
}

/// The tracks with one of them given other stars.
#[verifier::opaque]
pub open spec fn restarred(tracks: Seq<TrackV>, path: Seq<char>, stars: Option<u8>) -> Seq<
    TrackV,
> {
    Seq::new(
        tracks.len(),
        |i: int|
            if same_path(tracks[i].path, path) {
                TrackV { stars, ..tracks[i] }
            } else {
                tracks[i]
            },
    )
}

/// The same throughout the memo.
#[verifier::opaque]
pub open spec fn memo_restarred(memo: Seq<RememberedV>, path: Seq<char>, stars: Option<u8>) -> Seq<
    RememberedV,
> {
    Seq::new(
        memo.len(),
        |i: int| RememberedV { tracks: restarred(memo[i].tracks, path, stars), ..memo[i] },
    )
}

/// No folder is remembered twice, and no more than the limit.
#[verifier::opaque]
pub open spec fn is_memo(memo: Seq<RememberedV>) -> bool {
    &&& memo.len() <= KEEP
    &&& forall|i: int, j: int|
        0 <= i < j < memo.len() ==> !same_path(
            (#[trigger] memo[i]).dir,
            (#[trigger] memo[j]).dir,
        )
}

pub proof fn lemma_index_in(memo: Seq<RememberedV>, dir: Seq<char>)
    ensures
        index_in(memo, dir) <= memo.len(),
        index_in(memo, dir) < memo.len() ==> same_path(memo[index_in(memo, dir) as int].dir, dir),
        forall|i: int|
            0 <= i < index_in(memo, dir) ==> !same_path((#[trigger] memo[i]).dir, dir),
    decreases memo.len(),
{
    if memo.len() > 0 && !same_path(memo[0].dir, dir) {
        lemma_index_in(memo.skip(1), dir);
        assert forall|i: int| 0 <= i < index_in(memo, dir) implies !same_path(
            (#[trigger] memo[i]).dir,
            dir,
        ) by {
            if i > 0 {
                assert(memo.skip(1)[i - 1] == memo[i]);
            }
        }
    }
}

/// However much is browsed, the memo stays within its limit and holds no folder
/// twice.
pub proof fn law_the_memo_is_bounded(
    memo: Seq<RememberedV>,
    dir: Seq<char>,
    stamp: Stamp,
    tracks: Seq<TrackV>,
)
    requires
        is_memo(memo),
    ensures
        is_memo(remembering(memo, dir, stamp, tracks)),
{
    reveal(remembering);
    reveal(is_memo);
    lemma_index_in(memo, dir);
    let at = index_in(memo, dir);
    if at < memo.len() {
        let m = memo.update(at as int, RememberedV { dir: memo[at as int].dir, stamp, tracks });
        assert forall|i: int, j: int| 0 <= i < j < m.len() implies !same_path(
            (#[trigger] m[i]).dir,
            (#[trigger] m[j]).dir,
        ) by {
            assert(m[i].dir == memo[i].dir && m[j].dir == memo[j].dir);
        }
    } else {
        let more = memo.push(RememberedV { dir, stamp, tracks });
        assert forall|i: int, j: int| 0 <= i < j < more.len() implies !same_path(
            (#[trigger] more[i]).dir,
            (#[trigger] more[j]).dir,
        ) by {
            if j < memo.len() {
                assert(more[i] == memo[i] && more[j] == memo[j]);
            } else {
                assert(more[i] == memo[i]);
            }
        }
        if more.len() > KEEP {
            let k = more.len() - KEEP;
            let m = more.skip(k);
            assert forall|i: int, j: int| 0 <= i < j < m.len() implies !same_path(
                (#[trigger] m[i]).dir,
                (#[trigger] m[j]).dir,
            ) by {
                assert(m[i] == more[i + k] && m[j] == more[j + k]);
            }
        }
    }
}

/// A folder just read is recalled as read, until it looks different.
pub proof fn law_what_is_read_is_recalled(
    memo: Seq<RememberedV>,
    folder: FolderV,
    tracks: Seq<TrackV>,
)
    requires
        is_memo(memo),
    ensures
        recalled(remembering(memo, folder.path, folder.stamp(), tracks), folder) == Some(tracks),
        forall|later: FolderV|
            same_path(later.path, folder.path) && later.stamp() != folder.stamp() ==> #[trigger]
            recalled(remembering(memo, folder.path, folder.stamp(), tracks), later) is None,
{
    reveal(remembering);
    reveal(recalled);
    reveal(is_memo);
    let m = remembering(memo, folder.path, folder.stamp(), tracks);
    law_the_memo_is_bounded(memo, folder.path, folder.stamp(), tracks);
    lemma_index_in(memo, folder.path);
    let at = index_in(memo, folder.path) as int;
    let k = if at < memo.len() {
        at
    } else {
        m.len() - 1
    };
    assert(same_path(m[k].dir, folder.path));
    assert(m[k].stamp == folder.stamp() && m[k].tracks == tracks);
    lemma_only_place(m, folder.path, k);
    assert forall|later: FolderV|
        same_path(later.path, folder.path) && later.stamp() != folder.stamp() implies #[trigger]
    recalled(m, later) is None by {
        lemma_only_place(m, later.path, k);
    }
}

proof fn lemma_only_place(memo: Seq<RememberedV>, dir: Seq<char>, k: int)
    requires
        is_memo(memo),
        0 <= k < memo.len(),
        same_path(memo[k].dir, dir),
    ensures
        index_in(memo, dir) == k,
{
    reveal(is_memo);
    lemma_index_in(memo, dir);
    let at = index_in(memo, dir) as int;
    if at < k {
        assert(same_path(memo[at].dir, memo[k].dir));
    } else if k < at {
        assert(!same_path(memo[k].dir, dir));
    }
}

// ---------------------------------------------------------------------------

/// The tracks with one of them given other stars.
pub fn restar(tracks: &mut Vec<Track>, path: &str, stars: Option<u8>)
    ensures
        tracks_view(final(tracks)@) == restarred(tracks_view(old(tracks)@), path@, stars),
{
    proof {
        reveal(restarred);
    }
    let ghost was = tracks_view(tracks@);
    let mut i: usize = 0;
    while i < tracks.len()
        invariant
            i <= tracks@.len(),
            tracks@.len() == was.len(),
            forall|k: int|
                0 <= k < i ==> (#[trigger] tracks@[k])@ == restarred(was, path@, stars)[k],
            forall|k: int| i <= k < tracks@.len() ==> (#[trigger] tracks@[k])@ == was[k],
        decreases tracks@.len() - i,
    {
        proof {
            reveal(restarred);
        }
        if paths::same(tracks[i].path.as_str(), path) {
            let mut t = tracks[i].copy();
            t.stars = stars;
            assert(t@ == restarred(was, path@, stars)[i as int]);
            tracks.set(i, t);
        }
        i = i + 1;
    }
    assert(tracks_view(tracks@) =~= restarred(was, path@, stars));
}

impl Memo {
    /// Nothing remembered.
    pub fn new() -> (m: Memo)
        ensures
            m@ == Seq::<RememberedV>::empty(),
    {
        let m = Memo { entries: Vec::new() };
        assert(m@ =~= Seq::<RememberedV>::empty());
        m
    }

    pub fn clear(&mut self)
        ensures
            final(self)@ == Seq::<RememberedV>::empty(),
    {
        self.entries = Vec::new();
        assert(self@ =~= Seq::<RememberedV>::empty());
    }

    fn find(&self, dir: &str) -> (r: usize)
        ensures
            r == index_in(self@, dir@),
            r <= self.entries@.len(),
    {
        let ghost m = self@;
        let mut i: usize = 0;
        assert(m.skip(0) =~= m);
        while i < self.entries.len()
            invariant
                i <= self.entries@.len(),
                m == self@,
                index_in(m, dir@) == i + index_in(m.skip(i as int), dir@),
            decreases self.entries@.len() - i,
        {
            assert(m.skip(i as int)[0] == self.entries@[i as int]@);
            if paths::same(self.entries[i].dir.as_str(), dir) {
                return i;
            }
            assert(m.skip(i as int).skip(1) =~= m.skip(i as int + 1));
            i = i + 1;
        }
        assert(m.skip(i as int).len() == 0);
        i
    }

    /// Remember what was read of a folder.
    pub fn remember(&mut self, dir: &str, stamp: Stamp, tracks: Vec<Track>)
        requires
            old(self)@.len() < usize::MAX,
        ensures
            final(self)@ == remembering(old(self)@, dir@, stamp, tracks_view(tracks@)),
    {
        proof {
            reveal(remembering);
        }
        let ghost m = self@;
        let ghost tv = tracks_view(tracks@);
        let at: usize = self.find(dir);
        if at < self.entries.len() {
            let kept = self.entries[at].dir.clone();
            assert(kept@ == m[at as int].dir);
            self.entries.set(at, Remembered { dir: kept, stamp, tracks });
            assert(self@ =~= m.update(
                at as int,
                RememberedV { dir: m[at as int].dir, stamp, tracks: tv },
            ));
        } else {
            self.entries.push(Remembered { dir: dir.to_owned(), stamp, tracks });
            assert(self@ =~= m.push(RememberedV { dir: dir@, stamp, tracks: tv }));
        }
        let ghost more = self@;
        assert(more.skip(0) =~= more);
        let ghost mut gone: int = 0;
        while self.entries.len() > KEEP
            invariant
                self@ == more.skip(gone),
                0 <= gone <= more.len(),
                self.entries@.len() == more.len() - gone,
                gone == 0 || self.entries@.len() >= KEEP,
            decreases self.entries@.len(),
        {
            let ghost now = self@;
            let _ = self.entries.remove(0);
            proof {
                assert(self@ =~= now.skip(1));
                assert(more.skip(gone).skip(1) =~= more.skip(gone + 1));
                gone = gone + 1;
            }
        }
    }

    /// What was read of `folder`, unless it has changed since.
    pub fn recall(&self, folder: &Folder) -> (r: Option<Vec<Track>>)
        ensures
            match r {
                Some(tracks) => recalled(self@, folder@) == Some(tracks_view(tracks@)),
                None => recalled(self@, folder@) is None,
            },
    {
        proof {
            reveal(recalled);
        }
        let at: usize = self.find(folder.path.as_str());
        if at < self.entries.len() {
            assert(self@[at as int] == self.entries@[at as int]@);
            if self.entries[at].stamp == folder.stamp() {
                return Some(copy_tracks(&self.entries[at].tracks));
            }
        }
        None
    }

    /// Give a track other stars wherever it is remembered.
    pub fn restar(&mut self, path: &str, stars: Option<u8>)
        ensures
            final(self)@ == memo_restarred(old(self)@, path@, stars),
            is_memo(old(self)@) ==> is_memo(final(self)@),
    {
        proof {
            reveal(memo_restarred);
        }
        let ghost was = self@;
        let mut i: usize = 0;
        while i < self.entries.len()
            invariant
                i <= self.entries@.len(),
                self.entries@.len() == was.len(),
                forall|k: int|
                    0 <= k < i ==> (#[trigger] self.entries@[k])@ == memo_restarred(
                        was,
                        path@,
                        stars,
                    )[k],
                forall|k: int|
                    i <= k < self.entries@.len() ==> (#[trigger] self.entries@[k])@ == was[k],
            decreases self.entries@.len() - i,
        {
            proof {
                reveal(memo_restarred);
            }
            let mut tracks = copy_tracks(&self.entries[i].tracks);
            restar(&mut tracks, path, stars);
            let next = Remembered {
                dir: self.entries[i].dir.clone(),
                stamp: self.entries[i].stamp,
                tracks,
            };
            assert(next@ == memo_restarred(was, path@, stars)[i as int]);
            self.entries.set(i, next);
            i = i + 1;
        }
        assert(self@ =~= memo_restarred(was, path@, stars));
        proof {
            reveal(is_memo);
            let now = self@;
            if is_memo(was) {
                assert forall|i: int, j: int| 0 <= i < j < now.len() implies !same_path(
                    (#[trigger] now[i]).dir,
                    (#[trigger] now[j]).dir,
                ) by {
                    assert(now[i].dir == was[i].dir && now[j].dir == was[j].dir);
                }
            }
        }
    }
}

/// What is remembered of one folder is not touched by reading another, unless there is
/// no room for both.
pub proof fn law_reading_one_folder_keeps_the_others(
    memo: Seq<RememberedV>,
    folder: FolderV,
    dir: Seq<char>,
    stamp: Stamp,
    tracks: Seq<TrackV>,
)
    requires
        is_memo(memo),
        memo.len() < KEEP,
        !same_path(folder.path, dir),
    ensures
        recalled(remembering(memo, dir, stamp, tracks), folder) == recalled(memo, folder),
{
    reveal(remembering);
    reveal(recalled);
    reveal(is_memo);
    let more = remembering(memo, dir, stamp, tracks);
    lemma_index_in(memo, dir);
    lemma_index_in(memo, folder.path);
    lemma_index_in(more, folder.path);
    let at = index_in(memo, folder.path) as int;
    let to = index_in(more, folder.path) as int;
    let new = index_in(memo, dir) as int;
    if at < memo.len() {
        assert(more[at].dir == memo[at].dir);
        if to < at {
            assert(more[to].dir == memo[to].dir);
            assert(same_path(memo[to].dir, folder.path));
        }
        if at < to {
            assert(same_path(more[at].dir, folder.path));
        }
        assert(to == at);
        assert(at != new);
    } else if to < more.len() {
        if to < memo.len() {
            assert(more[to].dir == memo[to].dir);
            assert(same_path(memo[to].dir, folder.path));
        } else {
            assert(more[to].dir == dir);
        }
    }
}

/// A folder that was never read is not recalled.
pub proof fn law_nothing_is_recalled_of_an_unread_folder(memo: Seq<RememberedV>, folder: FolderV)
    requires
        forall|i: int| 0 <= i < memo.len() ==> !same_path((#[trigger] memo[i]).dir, folder.path),
    ensures
        recalled(memo, folder) is None,
{
    reveal(recalled);
    lemma_index_in(memo, folder.path);
}

/// Stars given to a track change that track wherever it is remembered, and nothing else
/// about what is remembered.
pub proof fn law_stars_reach_what_is_remembered(
    memo: Seq<RememberedV>,
    path: Seq<char>,
    stars: Option<u8>,
    i: int,
    k: int,
)
    requires
        0 <= i < memo.len(),
        0 <= k < memo[i].tracks.len(),
    ensures
        ({
            let after = memo_restarred(memo, path, stars);
            &&& after.len() == memo.len()
            &&& after[i].dir == memo[i].dir
            &&& after[i].stamp == memo[i].stamp
            &&& after[i].tracks.len() == memo[i].tracks.len()
            &&& after[i].tracks[k] == (TrackV {
                stars: if same_path(memo[i].tracks[k].path, path) {
                    stars
                } else {
                    memo[i].tracks[k].stars
                },
                ..memo[i].tracks[k]
            })
        }),
{
    reveal(memo_restarred);
    reveal(restarred);
}

} // verus!
