//! Stars the server keeps for its tracks.
//!
//! One hidden text file in the music folder, `stars nanos path` per line, so the
//! stars travel with the music. Each entry carries when it last changed, and a star
//! taken away stays behind as a `0` for the same reason: a folder's newest time has
//! to move when its stars do, or a player that remembered the folder would never ask
//! for it again.

use vstd::prelude::*;
use crate::config::{is_idle, is_line, lemma_unlines, unlines, write_lines};
use crate::library::{arranged, sorts};
use crate::order::{self, is_permutation};
use crate::paths::{self, within};
use crate::text::{
    self, all_digits, decimal, halves, has_prefix, is_digit, is_space, lemma_decimal,
    lemma_halves_cons, lemma_number_of_decimal, lemma_trimmed, lines_of, number, trimmed, views,
};

verus! {

/// What is known of one track: its path from the top of the music folder, its stars,
/// 0 once taken away, and when they last changed.
#[derive(Debug)]
pub struct Rating {
    pub path: String,
    pub stars: u8,
    pub time: u64,
}

/// What a [`Rating`] holds.
pub ghost struct RatingV {
    pub path: Seq<char>,
    pub stars: u8,
    pub time: u64,
}

impl View for Rating {
    type V = RatingV;

    open spec fn view(&self) -> RatingV {
        RatingV { path: self.path@, stars: self.stars, time: self.time }
    }
}

pub open spec fn entries_view(v: Seq<Rating>) -> Seq<RatingV> {
    Seq::new(v.len(), |i: int| v[i]@)
}

/// Entries as a map from path to stars and time; a later entry replaces an earlier
/// one.
pub open spec fn map_of(entries: Seq<RatingV>) -> Map<Seq<char>, (u8, u64)>
    decreases entries.len(),
{
    if entries.len() == 0 {
        Map::empty()
    } else {
        let e = entries.last();
        map_of(entries.drop_last()).insert(e.path, (e.stars, e.time))
    }
}

/// No path occurs twice.
pub open spec fn is_distinct(entries: Seq<RatingV>) -> bool {
    forall|i: int, j: int|
        0 <= i < entries.len() && 0 <= j < entries.len() && i != j ==> (#[trigger] entries[i]).path
            != (#[trigger] entries[j]).path
}

/// The stars of a music folder.
#[derive(Debug)]
pub struct Ratings {
    pub entries: Vec<Rating>,
}

impl View for Ratings {
    type V = Map<Seq<char>, (u8, u64)>;

    open spec fn view(&self) -> Map<Seq<char>, (u8, u64)> {
        map_of(entries_view(self.entries@))
    }
}

/// True for `folder` itself and anything inside it. The empty path is the root.
pub open spec fn is_under(path: Seq<char>, folder: Seq<char>) -> bool {
    ||| folder.len() == 0
    ||| path == folder
    ||| has_prefix(path, folder) && path.len() > folder.len() && path[folder.len() as int] == '/'
}

/// True for `folder` itself and anything inside it.
pub fn under(path: &str, folder: &str) -> (b: bool)
    ensures
        b == is_under(path@, folder@),
{
    if folder.is_empty() || text::same(path, folder) {
        return true;
    }
    match text::strip_prefix(path, folder) {
        Some(rest) => {
            let v = text::chars_of(rest);
            v.len() > 0 && v[0] == '/'
        },
        None => false,
    }
}

/// Where `path` is once `from` has become `to`.
pub open spec fn moved_path(path: Seq<char>, from: Seq<char>, to: Seq<char>) -> Seq<char> {
    to + path.skip(from.len() as int)
}

/// Where a path that is now `path` was before `from` became `to`.
pub open spec fn source_of(path: Seq<char>, from: Seq<char>, to: Seq<char>) -> Seq<char> {
    from + path.skip(to.len() as int)
}

/// `path` is where something with stars went.
pub open spec fn has_arrived(
    m: Map<Seq<char>, (u8, u64)>,
    path: Seq<char>,
    from: Seq<char>,
    to: Seq<char>,
) -> bool {
    &&& has_prefix(path, to)
    &&& m.contains_key(source_of(path, from, to))
    &&& is_under(source_of(path, from, to), from)
}

/// The stars after `from` has become `to`. What arrives replaces what was there.
pub open spec fn after_move(m: Map<Seq<char>, (u8, u64)>, from: Seq<char>, to: Seq<char>) -> Map<
    Seq<char>,
    (u8, u64),
> {
    Map::new(
        |q: Seq<char>|
            has_arrived(m, q, from, to) || (m.contains_key(q) && !is_under(q, from)),
        |q: Seq<char>|
            if has_arrived(m, q, from, to) {
                m[source_of(q, from, to)]
            } else {
                m[q]
            },
    )
}

/// The stars after everything at or below `path` is gone.
pub open spec fn after_removal(m: Map<Seq<char>, (u8, u64)>, path: Seq<char>) -> Map<
    Seq<char>,
    (u8, u64),
> {
    Map::new(|q: Seq<char>| m.contains_key(q) && !is_under(q, path), |q: Seq<char>| m[q])
}

// ---------------------------------------------------------------------------
// Facts about entries
// ---------------------------------------------------------------------------

proof fn lemma_map_of(entries: Seq<RatingV>)
    requires
        is_distinct(entries),
    ensures
        forall|p: Seq<char>| #[trigger]
            map_of(entries).contains_key(p) <==> exists|i: int|
                0 <= i < entries.len() && (#[trigger] entries[i]).path == p,
        forall|i: int|
            0 <= i < entries.len() ==> map_of(entries).contains_key((#[trigger] entries[i]).path)
                && map_of(entries)[entries[i].path] == (entries[i].stars, entries[i].time),
    decreases entries.len(),
{
    if entries.len() > 0 {
        let rest = entries.drop_last();
        let e = entries.last();
        assert forall|i: int, j: int|
            0 <= i < rest.len() && 0 <= j < rest.len() && i != j implies (
        #[trigger] rest[i]).path != (#[trigger] rest[j]).path by {
            assert(rest[i] == entries[i] && rest[j] == entries[j]);
        }
        lemma_map_of(rest);
        let m = map_of(entries);
        let n = map_of(rest);
        assert forall|p: Seq<char>| #[trigger] m.contains_key(p) <==> exists|i: int|
            0 <= i < entries.len() && (#[trigger] entries[i]).path == p by {
            if m.contains_key(p) {
                if p == e.path {
                    assert(entries[entries.len() - 1].path == p);
                } else {
                    assert(n.contains_key(p));
                    let i = choose|i: int| 0 <= i < rest.len() && (#[trigger] rest[i]).path == p;
                    assert(entries[i].path == p);
                }
            }
            if exists|i: int| 0 <= i < entries.len() && (#[trigger] entries[i]).path == p {
                let i = choose|i: int|
                    0 <= i < entries.len() && (#[trigger] entries[i]).path == p;
                if i < rest.len() {
                    assert(rest[i].path == p);
                    assert(n.contains_key(p));
                }
            }
        }
        assert forall|i: int| 0 <= i < entries.len() implies m.contains_key(
            (#[trigger] entries[i]).path,
        ) && m[entries[i].path] == (entries[i].stars, entries[i].time) by {
            if i < rest.len() {
                assert(rest[i] == entries[i]);
                assert(entries[i].path != entries[entries.len() - 1].path);
            }
        }
    }
}

/// Where the entry for `path` is.
fn index_of(entries: &Vec<Rating>, path: &str) -> (r: Option<usize>)
    ensures
        match r {
            Some(i) => i < entries@.len() && entries@[i as int].path@ == path@,
            None => forall|i: int|
                0 <= i < entries@.len() ==> (#[trigger] entries@[i]).path@ != path@,
        },
{
    let mut i: usize = 0;
    while i < entries.len()
        invariant
            i <= entries@.len(),
            forall|k: int| 0 <= k < i ==> (#[trigger] entries@[k]).path@ != path@,
        decreases entries@.len() - i,
    {
        if text::same(entries[i].path.as_str(), path) {
            return Some(i);
        }
        i = i + 1;
    }
    None
}

/// `time` is when any stars at or below `folder` last changed, 0 for never.
pub open spec fn is_latest(
    stars: Map<Seq<char>, (u8, u64)>,
    folder: Seq<char>,
    time: u64,
) -> bool {
    &&& forall|p: Seq<char>| #[trigger]
        stars.contains_key(p) && is_under(p, folder) ==> stars[p].1 <= time
    &&& time == 0 || exists|p: Seq<char>| #[trigger]
        stars.contains_key(p) && is_under(p, folder) && stars[p].1 == time
}

/// How many stars a track has, 0 for none.
pub open spec fn stars_of(stars: Map<Seq<char>, (u8, u64)>, path: Seq<char>) -> u8 {
    if stars.contains_key(path) {
        stars[path].0
    } else {
        0
    }
}

impl Ratings {
    /// No path has two entries, and no track more than three stars.
    pub open spec fn wf(self) -> bool {
        &&& is_distinct(entries_view(self.entries@))
        &&& forall|p: Seq<char>| #[trigger] self@.contains_key(p) ==> self@[p].0 <= 3
    }

    /// No stars at all.
    pub fn new() -> (r: Ratings)
        ensures
            r.wf(),
            r@ == Map::<Seq<char>, (u8, u64)>::empty(),
    {
        Ratings { entries: Vec::new() }
    }

    fn put(&mut self, path: String, stars: u8, time: u64)
        requires
            old(self).wf(),
            stars <= 3,
        ensures
            final(self).wf(),
            final(self)@ == old(self)@.insert(path@, (stars, time)),
    {
        let ghost was = entries_view(self.entries@);
        proof {
            lemma_map_of(was);
        }
        let ghost e = RatingV { path: path@, stars, time };
        match index_of(&self.entries, path.as_str()) {
            Some(i) => {
                let _ = self.entries.remove(i);
                let ghost less = entries_view(self.entries@);
                proof {
                    assert(less =~= was.remove(i as int));
                    lemma_removed(was, i as int);
                }
                self.entries.push(Rating { path, stars, time });
                proof {
                    let now = entries_view(self.entries@);
                    assert(now =~= less.push(e));
                    lemma_pushed(less, e);
                    assert(now.drop_last() =~= less);
                    assert(map_of(now) =~= map_of(was).insert(e.path, (stars, time)));
                }
            },
            None => {
                self.entries.push(Rating { path, stars, time });
                proof {
                    let now = entries_view(self.entries@);
                    assert(now =~= was.push(e));
                    assert forall|i: int| 0 <= i < was.len() implies (
                    #[trigger] was[i]).path != e.path by {
                        assert(was[i] == old(self).entries@[i]@);
                    }
                    lemma_pushed(was, e);
                    assert(now.drop_last() =~= was);
                }
            },
        }
        assert forall|p: Seq<char>| #[trigger] self@.contains_key(p) implies self@[p].0 <= 3 by {
            assert(self@ == old(self)@.insert(e.path, (stars, time)));
            if p != e.path {
                assert(old(self)@.contains_key(p));
            }
        }
    }

    /// Stars of the track at `path`, if it has any.
    pub fn get(&self, path: &str) -> (r: Option<u8>)
        requires
            self.wf(),
        ensures
            r == (if self@.contains_key(path@) && self@[path@].0 > 0 {
                Some(self@[path@].0)
            } else {
                None
            }),
            r matches Some(stars) ==> 1 <= stars <= 3,
    {
        proof {
            lemma_map_of(entries_view(self.entries@));
        }
        match index_of(&self.entries, path) {
            Some(i) => {
                assert(entries_view(self.entries@)[i as int].path == path@);
                assert(self@.contains_key(path@));
                let stars: u8 = self.entries[i].stars;
                if stars > 0 {
                    Some(stars)
                } else {
                    None
                }
            },
            None => {
                proof {
                    if self@.contains_key(path@) {
                        let e = entries_view(self.entries@);
                        let i = choose|i: int| 0 <= i < e.len() && (#[trigger] e[i]).path == path@;
                        assert(self.entries@[i].path@ == path@);
                    }
                }
                None
            },
        }
    }

    /// Give the track at `path` this many stars at time `now`, 0 to take them away.
    pub fn set(&mut self, path: &str, stars: u8, now: u64)
        requires
            old(self).wf(),
        ensures
            final(self).wf(),
            final(self)@ == old(self)@.insert(
                path@,
                (
                    if stars > 3 {
                        3u8
                    } else {
                        stars
                    },
                    now,
                ),
            ),
    {
        let kept: u8 = if stars > 3 {
            3
        } else {
            stars
        };
        self.put(path.to_owned(), kept, now);
    }

    /// When any stars at or below `folder` last changed, 0 for never.
    pub fn newest_under(&self, folder: &str) -> (r: u64)
        requires
            self.wf(),
        ensures
            is_latest(self@, folder@, r),
    {
        let ghost e = entries_view(self.entries@);
        proof {
            lemma_map_of(e);
        }
        let mut r: u64 = 0;
        let mut i: usize = 0;
        let ghost mut at: int = -1;
        while i < self.entries.len()
            invariant
                i <= self.entries@.len(),
                e == entries_view(self.entries@),
                forall|k: int|
                    0 <= k < i && is_under((#[trigger] e[k]).path, folder@) ==> e[k].time <= r,
                r == 0 || (0 <= at < i && is_under(e[at].path, folder@) && e[at].time == r),
            decreases self.entries@.len() - i,
        {
            assert(e[i as int] == self.entries@[i as int]@);
            if under(self.entries[i].path.as_str(), folder) && self.entries[i].time > r {
                r = self.entries[i].time;
                proof {
                    at = i as int;
                }
            }
            i = i + 1;
        }
        proof {
            assert forall|p: Seq<char>| #[trigger]
                self@.contains_key(p) && is_under(p, folder@) implies self@[p].1 <= r by {
                let k = choose|k: int| 0 <= k < e.len() && (#[trigger] e[k]).path == p;
                assert(e[k].time <= r);
            }
            if r != 0 {
                assert(self@.contains_key(e[at].path));
            }
        }
        r
    }

    /// Follow a file or folder that moved from `from` to `to`. True when any stars
    /// came along.
    pub fn moved(&mut self, from: &str, to: &str) -> (changed: bool)
        requires
            old(self).wf(),
        ensures
            final(self).wf(),
            changed == (exists|p: Seq<char>| #[trigger]
                old(self)@.contains_key(p) && is_under(p, from@)),
            changed ==> final(self)@ == after_move(old(self)@, from@, to@),
            !changed ==> final(self)@ == old(self)@,
    {
        let ghost e = entries_view(self.entries@);
        let ghost m = self@;
        proof {
            lemma_map_of(e);
            assert forall|k: int| 0 <= k < e.len() implies (#[trigger] e[k]).stars <= 3 by {
                assert(m.contains_key(e[k].path));
            }
        }
        let mut stay = Ratings { entries: Vec::new() };
        let mut changed = false;
        let mut i: usize = 0;
        let ghost mut witness: int = -1;
        proof {
            assert(stay@ =~= Map::<Seq<char>, (u8, u64)>::empty());
        }
        while i < self.entries.len()
            invariant
                i <= self.entries@.len(),
                *self == *old(self),
                e == entries_view(self.entries@),
                m == map_of(e),
                is_distinct(e),
                forall|k: int| 0 <= k < e.len() ==> (#[trigger] e[k]).stars <= 3,
                stay.wf(),
                forall|q: Seq<char>| #[trigger]
                    stay@.contains_key(q) <==> exists|k: int|
                        0 <= k < i && (#[trigger] e[k]).path == q && !is_under(q, from@),
                forall|k: int|
                    0 <= k < i && !is_under((#[trigger] e[k]).path, from@) ==> stay@[e[k].path]
                        == (e[k].stars, e[k].time),
                changed ==> 0 <= witness < i && is_under(e[witness].path, from@),
                !changed ==> forall|k: int| 0 <= k < i ==> !is_under((#[trigger] e[k]).path, from@),
            decreases self.entries@.len() - i,
        {
            assert(e[i as int] == self.entries@[i as int]@);
            let ghost before = stay@;
            if !under(self.entries[i].path.as_str(), from) {
                stay.put(
                    self.entries[i].path.clone(),
                    self.entries[i].stars,
                    self.entries[i].time,
                );
                proof {
                    let p = e[i as int].path;
                    assert forall|q: Seq<char>| #[trigger]
                        stay@.contains_key(q) <==> exists|k: int|
                            0 <= k < i + 1 && (#[trigger] e[k]).path == q && !is_under(
                                q,
                                from@,
                            ) by {
                        if q == p {
                            assert(e[i as int].path == q);
                        }
                    }
                }
            } else {
                changed = true;
                proof {
                    witness = i as int;
                }
            }
            i = i + 1;
        }
        if !changed {
            proof {
                assert forall|p: Seq<char>| !(#[trigger] m.contains_key(p) && is_under(
                    p,
                    from@,
                )) by {
                    if m.contains_key(p) {
                        let k = choose|k: int| 0 <= k < e.len() && (#[trigger] e[k]).path == p;
                        assert(!is_under(e[k].path, from@));
                    }
                }
            }
            return false;
        }
        assert(m.contains_key(e[witness].path));
        let ghost kept = stay@;
        let cut: usize = text::chars_of(from).len();
        let mut j: usize = 0;
        while j < self.entries.len()
            invariant
                j <= self.entries@.len(),
                *self == *old(self),
                e == entries_view(self.entries@),
                m == map_of(e),
                is_distinct(e),
                forall|k: int| 0 <= k < e.len() ==> (#[trigger] e[k]).stars <= 3,
                cut == from@.len(),
                stay.wf(),
                forall|q: Seq<char>| #[trigger]
                    stay@.contains_key(q) <==> (kept.contains_key(q) || exists|k: int|
                        0 <= k < j && is_under((#[trigger] e[k]).path, from@) && moved_path(
                            e[k].path,
                            from@,
                            to@,
                        ) == q),
                forall|k: int|
                    0 <= k < j && is_under((#[trigger] e[k]).path, from@) ==> stay@[moved_path(
                        e[k].path,
                        from@,
                        to@,
                    )] == (e[k].stars, e[k].time),
                forall|q: Seq<char>|
                    #![trigger kept.contains_key(q)]
                    kept.contains_key(q) && (forall|k: int|
                        0 <= k < j && is_under((#[trigger] e[k]).path, from@) ==> moved_path(
                            e[k].path,
                            from@,
                            to@,
                        ) != q) ==> stay@[q] == kept[q],
            decreases self.entries@.len() - j,
        {
            assert(e[j as int] == self.entries@[j as int]@);
            if under(self.entries[j].path.as_str(), from) {
                let v = text::chars_of(self.entries[j].path.as_str());
                let ghost p = e[j as int].path;
                assert(cut <= v@.len());
                let rest = text::string_of(&v, cut, v.len());
                assert(rest@ =~= p.skip(cut as int));
                let target = text::cat2(to, rest.as_str());
                let ghost t = target@;
                let ghost before = stay@;
                stay.put(target, self.entries[j].stars, self.entries[j].time);
                proof {
                    assert(t == moved_path(p, from@, to@));
                    assert forall|k: int|
                        0 <= k < j && is_under((#[trigger] e[k]).path, from@) implies moved_path(
                        e[k].path,
                        from@,
                        to@,
                    ) != t by {
                        lemma_move_apart(e[k].path, p, from@, to@);
                    }
                    assert forall|q: Seq<char>| #[trigger]
                        stay@.contains_key(q) <==> (kept.contains_key(q) || exists|k: int|
                            0 <= k < j + 1 && is_under((#[trigger] e[k]).path, from@)
                                && moved_path(e[k].path, from@, to@) == q) by {
                        if q == t {
                            assert(is_under(e[j as int].path, from@));
                        }
                    }
                    assert forall|q: Seq<char>|
                        #![trigger kept.contains_key(q)]
                        kept.contains_key(q) && (forall|k: int|
                            0 <= k < j + 1 && is_under((#[trigger] e[k]).path, from@)
                                ==> moved_path(e[k].path, from@, to@) != q) implies stay@[q]
                        == kept[q] by {
                        assert(is_under(e[j as int].path, from@));
                        assert(q != t);
                    }
                }
            }
            j = j + 1;
        }
        proof {
            let done = stay@;
            let want = after_move(m, from@, to@);
            assert forall|q: Seq<char>| #[trigger]
                done.contains_key(q) <==> want.contains_key(q) by {
                if done.contains_key(q) {
                    if exists|k: int|
                        0 <= k < e.len() && is_under((#[trigger] e[k]).path, from@)
                            && moved_path(e[k].path, from@, to@) == q {
                        let k = choose|k: int|
                            0 <= k < e.len() && is_under((#[trigger] e[k]).path, from@)
                                && moved_path(e[k].path, from@, to@) == q;
                        lemma_move_back(e[k].path, from@, to@);
                        assert(m.contains_key(e[k].path));
                    } else {
                        assert(kept.contains_key(q));
                        let k = choose|k: int|
                            0 <= k < e.len() && (#[trigger] e[k]).path == q && !is_under(
                                q,
                                from@,
                            );
                        assert(m.contains_key(e[k].path));
                    }
                }
                if want.contains_key(q) {
                    if has_arrived(m, q, from@, to@) {
                        let p = source_of(q, from@, to@);
                        let k = choose|k: int| 0 <= k < e.len() && (#[trigger] e[k]).path == p;
                        lemma_arrived(m, q, from@, to@);
                        assert(is_under(e[k].path, from@));
                    } else {
                        let k = choose|k: int| 0 <= k < e.len() && (#[trigger] e[k]).path == q;
                        assert(kept.contains_key(q));
                    }
                }
            }
            assert forall|q: Seq<char>| #[trigger] done.contains_key(q) implies done[q]
                == want[q] by {
                if has_arrived(m, q, from@, to@) {
                    let p = source_of(q, from@, to@);
                    let k = choose|k: int| 0 <= k < e.len() && (#[trigger] e[k]).path == p;
                    lemma_arrived(m, q, from@, to@);
                    assert(is_under(e[k].path, from@));
                    assert(done[moved_path(e[k].path, from@, to@)] == (e[k].stars, e[k].time));
                } else {
                    assert(want.contains_key(q));
                    let k = choose|k: int| 0 <= k < e.len() && (#[trigger] e[k]).path == q;
                    assert(kept.contains_key(q));
                    assert forall|n: int|
                        0 <= n < e.len() && is_under((#[trigger] e[n]).path, from@) implies moved_path(
                        e[n].path,
                        from@,
                        to@,
                    ) != q by {
                        lemma_move_back(e[n].path, from@, to@);
                        assert(m.contains_key(e[n].path));
                    }
                    assert(done[q] == kept[q]);
                    assert(kept[e[k].path] == (e[k].stars, e[k].time));
                }
            }
            assert(done =~= want);
        }
        self.entries = stay.entries;
        true
    }

    /// Forget everything at or below `path`, which is gone. True when there was
    /// anything to forget.
    pub fn removed(&mut self, path: &str) -> (changed: bool)
        requires
            old(self).wf(),
        ensures
            final(self).wf(),
            changed == (exists|p: Seq<char>| #[trigger]
                old(self)@.contains_key(p) && is_under(p, path@)),
            final(self)@ == after_removal(old(self)@, path@),
    {
        let ghost e = entries_view(self.entries@);
        let ghost m = self@;
        proof {
            lemma_map_of(e);
            assert forall|k: int| 0 <= k < e.len() implies (#[trigger] e[k]).stars <= 3 by {
                assert(m.contains_key(e[k].path));
            }
        }
        let mut stay = Ratings { entries: Vec::new() };
        let mut changed = false;
        let mut i: usize = 0;
        let ghost mut witness: int = -1;
        while i < self.entries.len()
            invariant
                i <= self.entries@.len(),
                *self == *old(self),
                e == entries_view(self.entries@),
                m == map_of(e),
                is_distinct(e),
                forall|k: int| 0 <= k < e.len() ==> (#[trigger] e[k]).stars <= 3,
                stay.wf(),
                forall|q: Seq<char>| #[trigger]
                    stay@.contains_key(q) <==> exists|k: int|
                        0 <= k < i && (#[trigger] e[k]).path == q && !is_under(q, path@),
                forall|k: int|
                    0 <= k < i && !is_under((#[trigger] e[k]).path, path@) ==> stay@[e[k].path]
                        == (e[k].stars, e[k].time),
                changed ==> 0 <= witness < i && is_under(e[witness].path, path@),
                !changed ==> forall|k: int| 0 <= k < i ==> !is_under((#[trigger] e[k]).path, path@),
            decreases self.entries@.len() - i,
        {
            assert(e[i as int] == self.entries@[i as int]@);
            if !under(self.entries[i].path.as_str(), path) {
                stay.put(
                    self.entries[i].path.clone(),
                    self.entries[i].stars,
                    self.entries[i].time,
                );
                proof {
                    let p = e[i as int].path;
                    assert forall|q: Seq<char>| #[trigger]
                        stay@.contains_key(q) <==> exists|k: int|
                            0 <= k < i + 1 && (#[trigger] e[k]).path == q && !is_under(
                                q,
                                path@,
                            ) by {
                        if q == p {
                            assert(e[i as int].path == q);
                        }
                    }
                }
            } else {
                changed = true;
                proof {
                    witness = i as int;
                }
            }
            i = i + 1;
        }
        proof {
            let done = stay@;
            let want = after_removal(m, path@);
            assert forall|q: Seq<char>| #[trigger]
                done.contains_key(q) <==> want.contains_key(q) by {
                if done.contains_key(q) {
                    let k = choose|k: int|
                        0 <= k < e.len() && (#[trigger] e[k]).path == q && !is_under(q, path@);
                    assert(m.contains_key(e[k].path));
                }
                if want.contains_key(q) {
                    let k = choose|k: int| 0 <= k < e.len() && (#[trigger] e[k]).path == q;
                    assert(!is_under(e[k].path, path@));
                }
            }
            assert forall|q: Seq<char>| #[trigger] done.contains_key(q) implies done[q]
                == want[q] by {
                let k = choose|k: int|
                    0 <= k < e.len() && (#[trigger] e[k]).path == q && !is_under(q, path@);
                assert(m.contains_key(e[k].path));
            }
            assert(done =~= want);
            if changed {
                assert(m.contains_key(e[witness].path));
            } else {
                assert forall|p: Seq<char>| !(#[trigger] m.contains_key(p) && is_under(
                    p,
                    path@,
                )) by {
                    if m.contains_key(p) {
                        let k = choose|k: int| 0 <= k < e.len() && (#[trigger] e[k]).path == p;
                        assert(!is_under(e[k].path, path@));
                    }
                }
            }
        }
        self.entries = stay.entries;
        changed
    }
}

proof fn lemma_removed(e: Seq<RatingV>, i: int)
    requires
        is_distinct(e),
        0 <= i < e.len(),
    ensures
        is_distinct(e.remove(i)),
        map_of(e.remove(i)) == map_of(e).remove(e[i].path),
        forall|k: int| 0 <= k < e.remove(i).len() ==> (#[trigger] e.remove(i)[k]).path != e[i].path,
{
    let r = e.remove(i);
    assert forall|a: int, b: int| 0 <= a < r.len() && 0 <= b < r.len() && a != b implies (
    #[trigger] r[a]).path != (#[trigger] r[b]).path by {
        let x = if a < i {
            a
        } else {
            a + 1
        };
        let y = if b < i {
            b
        } else {
            b + 1
        };
        assert(r[a] == e[x] && r[b] == e[y]);
    }
    assert forall|k: int| 0 <= k < r.len() implies (#[trigger] r[k]).path != e[i].path by {
        let x = if k < i {
            k
        } else {
            k + 1
        };
        assert(r[k] == e[x]);
    }
    lemma_map_of(e);
    lemma_map_of(r);
    let m = map_of(r);
    let n = map_of(e).remove(e[i].path);
    assert forall|p: Seq<char>| #[trigger] m.contains_key(p) <==> n.contains_key(p) by {
        if m.contains_key(p) {
            let k = choose|k: int| 0 <= k < r.len() && (#[trigger] r[k]).path == p;
            let x = if k < i {
                k
            } else {
                k + 1
            };
            assert(e[x].path == p);
        }
        if n.contains_key(p) {
            let x = choose|x: int| 0 <= x < e.len() && (#[trigger] e[x]).path == p;
            let k = if x < i {
                x
            } else {
                x - 1
            };
            assert(r[k] == e[x]);
        }
    }
    assert forall|p: Seq<char>| #[trigger] m.contains_key(p) implies m[p] == n[p] by {
        let k = choose|k: int| 0 <= k < r.len() && (#[trigger] r[k]).path == p;
        let x = if k < i {
            k
        } else {
            k + 1
        };
        assert(e[x] == r[k]);
    }
    assert(m =~= n);
}

proof fn lemma_pushed(e: Seq<RatingV>, last: RatingV)
    requires
        is_distinct(e),
        forall|i: int| 0 <= i < e.len() ==> (#[trigger] e[i]).path != last.path,
    ensures
        is_distinct(e.push(last)),
{
    let r = e.push(last);
    assert forall|a: int, b: int| 0 <= a < r.len() && 0 <= b < r.len() && a != b implies (
    #[trigger] r[a]).path != (#[trigger] r[b]).path by {
        if a < e.len() {
            assert(r[a] == e[a]);
        }
        if b < e.len() {
            assert(r[b] == e[b]);
        }
    }
}

proof fn lemma_under_splits(p: Seq<char>, from: Seq<char>)
    requires
        is_under(p, from),
    ensures
        from.len() <= p.len(),
        p == from + p.skip(from.len() as int),
{
    if from.len() == 0 {
        assert(p =~= from + p.skip(0));
    } else if p == from {
        assert(p =~= from + p.skip(from.len() as int));
    } else {
        assert(p =~= p.take(from.len() as int) + p.skip(from.len() as int));
    }
}

/// What moved can be traced back.
proof fn lemma_move_back(p: Seq<char>, from: Seq<char>, to: Seq<char>)
    requires
        is_under(p, from),
    ensures
        has_prefix(moved_path(p, from, to), to),
        source_of(moved_path(p, from, to), from, to) == p,
{
    lemma_under_splits(p, from);
    let q = moved_path(p, from, to);
    assert(q.take(to.len() as int) =~= to);
    assert(q.skip(to.len() as int) =~= p.skip(from.len() as int));
}

/// Two things that moved are still two things.
proof fn lemma_move_apart(a: Seq<char>, b: Seq<char>, from: Seq<char>, to: Seq<char>)
    requires
        is_under(a, from),
        is_under(b, from),
        a != b,
    ensures
        moved_path(a, from, to) != moved_path(b, from, to),
{
    lemma_move_back(a, from, to);
    lemma_move_back(b, from, to);
}

proof fn lemma_arrived(
    m: Map<Seq<char>, (u8, u64)>,
    q: Seq<char>,
    from: Seq<char>,
    to: Seq<char>,
)
    requires
        has_arrived(m, q, from, to),
    ensures
        moved_path(source_of(q, from, to), from, to) == q,
{
    let p = source_of(q, from, to);
    assert(p.skip(from.len() as int) =~= q.skip(to.len() as int));
    assert(q =~= q.take(to.len() as int) + q.skip(to.len() as int));
}

// ---------------------------------------------------------------------------
// What holds of the stars
// ---------------------------------------------------------------------------

/// Stars follow what they were given to: everything that was under `from` has the
/// same stars under `to`.
pub proof fn law_stars_follow_a_move(
    m: Map<Seq<char>, (u8, u64)>,
    from: Seq<char>,
    to: Seq<char>,
    path: Seq<char>,
)
    requires
        m.contains_key(path),
        is_under(path, from),
    ensures
        after_move(m, from, to).contains_key(moved_path(path, from, to)),
        after_move(m, from, to)[moved_path(path, from, to)] == m[path],
{
    lemma_move_back(path, from, to);
}

/// A removal forgets what was under it and nothing else.
pub proof fn law_a_removal_forgets_only_what_is_gone(
    m: Map<Seq<char>, (u8, u64)>,
    gone: Seq<char>,
    path: Seq<char>,
)
    ensures
        is_under(path, gone) ==> !after_removal(m, gone).contains_key(path),
        !is_under(path, gone) ==> after_removal(m, gone).contains_key(path) == m.contains_key(
            path,
        ),
        !is_under(path, gone) && m.contains_key(path) ==> after_removal(m, gone)[path] == m[path],
{
}

/// A name that merely begins like a folder's is not inside it.
pub proof fn law_a_prefix_is_not_a_folder(folder: Seq<char>, more: Seq<char>)
    requires
        folder.len() > 0,
        more.len() > 0,
        more[0] != '/',
    ensures
        !is_under(folder + more, folder),
{
    assert((folder + more)[folder.len() as int] == more[0]);
}

// ---------------------------------------------------------------------------
// The file
// ---------------------------------------------------------------------------

/// The file in a music folder that holds its stars.
pub fn file_in(root: &str) -> (r: String)
    ensures
        r@ == within(root@, ".tuneterm-ratings.txt"@),
{
    paths::join(root, ".tuneterm-ratings.txt")
}

/// The entry on a line, if there is one.
pub open spec fn rating_on(raw: Seq<char>) -> Option<RatingV> {
    if is_idle(raw) {
        None
    } else {
        match halves(trimmed(raw), ' ') {
            Some((stars, rest)) => match halves(rest, ' ') {
                Some((time, path)) => match (number(stars, 3), number(time, u64::MAX as nat)) {
                    (Some(s), Some(t)) => Some(
                        RatingV { path, stars: s as u8, time: t as u64 },
                    ),
                    _ => None,
                },
                None => None,
            },
            None => None,
        }
    }
}

/// The entries on some lines.
pub open spec fn ratings_on(lines: Seq<Seq<char>>) -> Seq<RatingV>
    decreases lines.len(),
{
    if lines.len() == 0 {
        seq![]
    } else {
        match rating_on(lines.last()) {
            Some(e) => ratings_on(lines.drop_last()).push(e),
            None => ratings_on(lines.drop_last()),
        }
    }
}

fn parse_line(raw: &str) -> (r: Option<Rating>)
    ensures
        match r {
            Some(e) => rating_on(raw@) == Some(e@) && e.stars <= 3,
            None => rating_on(raw@) is None,
        },
{
    let line = text::trim(raw);
    let v = text::chars_of(line);
    if v.len() == 0 || v[0] == '#' {
        return None;
    }
    match text::split_once(line, ' ') {
        Some((stars, rest)) => match text::split_once(rest, ' ') {
            Some((time, path)) => match (text::parse(stars, 3), text::parse(time, u64::MAX)) {
                (Some(s), Some(t)) => Some(
                    Rating { path: path.to_owned(), stars: s as u8, time: t },
                ),
                _ => None,
            },
            None => None,
        },
        None => None,
    }
}

/// The stars a text holds. A line that does not parse costs that line and nothing
/// else.
pub fn parse(text: &str) -> (r: Ratings)
    ensures
        r.wf(),
        r@ == map_of(ratings_on(lines_of(text@))),
{
    let lines = text::lines(text);
    let ghost all = lines_of(text@);
    let mut r = Ratings { entries: Vec::new() };
    let mut i: usize = 0;
    proof {
        assert(all.take(0) =~= seq![]);
        assert(r@ =~= Map::<Seq<char>, (u8, u64)>::empty());
    }
    while i < lines.len()
        invariant
            i <= lines@.len(),
            all == views(lines@),
            r.wf(),
            r@ == map_of(ratings_on(all.take(i as int))),
        decreases lines@.len() - i,
    {
        proof {
            let t = all.take(i as int + 1);
            assert(t.drop_last() =~= all.take(i as int));
            assert(t.last() == lines@[i as int]@);
            if let Some(e) = rating_on(t.last()) {
                let s = ratings_on(all.take(i as int)).push(e);
                assert(s.drop_last() =~= ratings_on(all.take(i as int)));
            }
        }
        if let Some(e) = parse_line(lines[i].as_str()) {
            r.put(e.path, e.stars, e.time);
        }
        i = i + 1;
    }
    assert(all.take(i as int) =~= all);
    r
}

/// The line an entry is written on.
pub open spec fn rating_line(e: RatingV) -> Seq<char> {
    decimal(e.stars as nat) + " "@ + decimal(e.time as nat) + " "@ + e.path
}

/// The lines of the file.
pub open spec fn rating_lines(entries: Seq<RatingV>) -> Seq<Seq<char>> {
    seq!["# tuneterm stars — `stars nanos path`, 0 is taken away"@] + Seq::new(
        entries.len(),
        |i: int| rating_line(entries[i]),
    )
}

/// The sort keys of entries: their paths.
pub open spec fn rating_keys(entries: Seq<RatingV>) -> Seq<Seq<Seq<char>>> {
    Seq::new(entries.len(), |i: int| seq![entries[i].path])
}

impl Ratings {
    /// The stars as text, ordered by path.
    pub fn text(&self) -> (r: String)
        requires
            self.wf(),
        ensures
            exists|sorted: Seq<RatingV>|
                sorts(
                    rating_keys(entries_view(self.entries@)),
                    entries_view(self.entries@),
                    sorted,
                ) && r@ == unlines(#[trigger] rating_lines(sorted)) && is_distinct(sorted)
                    && map_of(sorted) == self@,
    {
        let ghost e = entries_view(self.entries@);
        let n: usize = self.entries.len();
        assert(e.len() == n);
        let mut keys: Vec<Vec<String>> = Vec::new();
        let mut i: usize = 0;
        while i < self.entries.len()
            invariant
                i <= self.entries@.len(),
                keys@.len() == i,
                forall|k: int|
                    0 <= k < i ==> views((#[trigger] keys@[k])@) == seq![self.entries@[k].path@],
            decreases self.entries@.len() - i,
        {
            let mut key: Vec<String> = Vec::new();
            key.push(self.entries[i].path.clone());
            assert(views(key@) =~= seq![self.entries@[i as int].path@]);
            keys.push(key);
            i = i + 1;
        }
        assert(order::keys_view(keys@) =~= rating_keys(e));
        let order = order::sorted_order(&keys);
        let ghost sorted = Seq::new(e.len(), |k: int| e[order@[k] as int]);
        let mut lines: Vec<String> = Vec::new();
        lines.push("# tuneterm stars — `stars nanos path`, 0 is taken away".to_owned());
        let mut j: usize = 0;
        while j < order.len()
            invariant
                j <= order@.len(),
                order@.len() == e.len(),
                e == entries_view(self.entries@),
                sorted == Seq::new(e.len(), |k: int| e[order@[k] as int]),
                forall|k: int| 0 <= k < order@.len() ==> (#[trigger] order@[k]) < e.len(),
                lines@.len() == j + 1,
                lines@[0]@ == "# tuneterm stars — `stars nanos path`, 0 is taken away"@,
                forall|k: int| 1 <= k < j + 1 ==> (#[trigger] lines@[k])@ == rating_line(sorted[k - 1]),
            decreases order@.len() - j,
        {
            let entry = &self.entries[order[j]];
            assert(sorted[j as int] == entry@);
            let stars = text::print(entry.stars as u64);
            let time = text::print(entry.time);
            lines.push(
                text::cat5(stars.as_str(), " ", time.as_str(), " ", entry.path.as_str()),
            );
            j = j + 1;
        }
        proof {
            assert(views(lines@) =~= rating_lines(sorted));
            assert(arranged(e, order@, sorted));
            lemma_arranged(e, order@, sorted);
        }
        write_lines(&lines)
    }
}

/// Rearranging entries changes nothing about them.
proof fn lemma_arranged(e: Seq<RatingV>, order: Seq<usize>, sorted: Seq<RatingV>)
    requires
        is_distinct(e),
        is_permutation(order, e.len()),
        e.len() <= usize::MAX,
        arranged(e, order, sorted),
    ensures
        is_distinct(sorted),
        map_of(sorted) == map_of(e),
{
    assert forall|a: int, b: int|
        0 <= a < sorted.len() && 0 <= b < sorted.len() && a != b implies (
    #[trigger] sorted[a]).path != (#[trigger] sorted[b]).path by {
        assert(order[a] != order[b]);
        assert(sorted[a] == e[order[a] as int] && sorted[b] == e[order[b] as int]);
    }
    lemma_map_of(e);
    lemma_map_of(sorted);
    order::lemma_permutation_covers(order, e.len());
    let m = map_of(sorted);
    let n = map_of(e);
    assert forall|p: Seq<char>| #[trigger] m.contains_key(p) <==> n.contains_key(p) by {
        if m.contains_key(p) {
            let k = choose|k: int| 0 <= k < sorted.len() && (#[trigger] sorted[k]).path == p;
            assert(e[order[k] as int].path == p);
        }
        if n.contains_key(p) {
            let k = choose|k: int| 0 <= k < e.len() && (#[trigger] e[k]).path == p;
            assert(order.contains(k as usize));
            let at = choose|at: int| 0 <= at < order.len() && order[at] == k as usize;
            assert(sorted[at].path == p);
        }
    }
    assert forall|p: Seq<char>| #[trigger] m.contains_key(p) implies m[p] == n[p] by {
        let k = choose|k: int| 0 <= k < sorted.len() && (#[trigger] sorted[k]).path == p;
        assert(e[order[k] as int].path == p);
    }
    assert(m =~= n);
}

/// An entry that a line can hold: at most three stars, and a path on one line that
/// does not end in white space.
pub open spec fn is_storable(e: RatingV) -> bool {
    &&& e.stars <= 3
    &&& e.path.len() > 0
    &&& !e.path.contains('\n')
    &&& !is_space(e.path.last())
}

proof fn lemma_no_space_in_digits(s: Seq<char>)
    requires
        all_digits(s),
    ensures
        !s.contains(' '),
        !s.contains('\n'),
        s.len() > 0 ==> !is_space(s[0]) && s[0] != '#',
{
    assert forall|i: int| 0 <= i < s.len() implies #[trigger] s[i] != ' ' && s[i] != '\n' by {
        assert(is_digit(s[i]));
    }
    if s.len() > 0 {
        assert(is_digit(s[0]));
    }
}

proof fn lemma_rating_line(e: RatingV)
    requires
        is_storable(e),
    ensures
        is_line(rating_line(e)),
        rating_on(rating_line(e)) == Some(e),
{
    let stars = decimal(e.stars as nat);
    let time = decimal(e.time as nat);
    lemma_number_of_decimal(e.stars as nat, 3);
    lemma_number_of_decimal(e.time as nat, u64::MAX as nat);
    lemma_decimal(e.stars as nat);
    lemma_decimal(e.time as nat);
    lemma_no_space_in_digits(stars);
    lemma_no_space_in_digits(time);
    let line = rating_line(e);
    let rest = time + seq![' '] + e.path;
    assert(line =~= stars + seq![' '] + rest) by {
        reveal_strlit(" ");
    }
    lemma_halves_cons(stars, ' ', rest);
    lemma_halves_cons(time, ' ', e.path);
    assert(line[0] == stars[0]);
    assert(line.last() == e.path.last());
    assert(trimmed(line) == line) by {
        lemma_trimmed(line);
    }
    assert(!line.contains('\n')) by {
        assert forall|i: int| 0 <= i < line.len() implies #[trigger] line[i] != '\n' by {
            if i < stars.len() {
                assert(line[i] == stars[i] && stars.contains(stars[i]));
            } else if i > stars.len() && i < stars.len() + 1 + time.len() {
                assert(line[i] == time[i - stars.len() - 1]);
                assert(time.contains(time[i - stars.len() - 1]));
            } else if i >= stars.len() + time.len() + 2 {
                let k = i - stars.len() - time.len() - 2;
                assert(line[i] == e.path[k]);
                assert(e.path.contains(e.path[k]));
            }
        }
    }
    assert(is_space('\r'));
}

proof fn lemma_ratings_on(entries: Seq<RatingV>, lines: Seq<Seq<char>>, n: int)
    requires
        forall|i: int| 0 <= i < entries.len() ==> is_storable(#[trigger] entries[i]),
        lines == rating_lines(entries),
        1 <= n <= lines.len(),
    ensures
        ratings_on(lines.take(n)) == entries.take(n - 1),
    decreases n,
{
    let t = lines.take(n);
    if n == 1 {
        lemma_header();
        assert(t.last() == "# tuneterm stars — `stars nanos path`, 0 is taken away"@);
        assert(t.drop_last() =~= seq![]);
        assert(entries.take(0) =~= seq![]);
        assert(ratings_on(t) =~= ratings_on(t.drop_last()));
    } else {
        lemma_ratings_on(entries, lines, n - 1);
        assert(t.drop_last() =~= lines.take(n - 1));
        assert(t.last() == rating_line(entries[n - 2]));
        assert(is_storable(entries[n - 2]));
        lemma_rating_line(entries[n - 2]);
        assert(entries.take(n - 1) =~= entries.take(n - 2).push(entries[n - 2]));
    }
}

proof fn lemma_header()
    ensures
        is_idle("# tuneterm stars — `stars nanos path`, 0 is taken away"@),
        is_line("# tuneterm stars — `stars nanos path`, 0 is taken away"@),
{
    reveal_strlit("# tuneterm stars — `stars nanos path`, 0 is taken away");
    lemma_trimmed("# tuneterm stars — `stars nanos path`, 0 is taken away"@);
}

/// Stars survive a restart: what is written is what is read back.
pub proof fn law_stars_survive_a_restart(entries: Seq<RatingV>)
    requires
        forall|i: int| 0 <= i < entries.len() ==> is_storable(#[trigger] entries[i]),
    ensures
        ratings_on(lines_of(unlines(rating_lines(entries)))) == entries,
{
    let lines = rating_lines(entries);
    lemma_header();
    assert forall|i: int| 0 <= i < lines.len() implies is_line(#[trigger] lines[i]) by {
        if i > 0 {
            assert(lines[i] == rating_line(entries[i - 1]));
            assert(is_storable(entries[i - 1]));
            lemma_rating_line(entries[i - 1]);
        }
    }
    lemma_unlines(lines);
    lemma_ratings_on(entries, lines, lines.len() as int);
    assert(lines.take(lines.len() as int) =~= lines);
    assert(entries.take(entries.len() as int) =~= entries);
}

/// There is one time at which the stars in a folder last changed, and none before any
/// were given; stars given later make it later, in every folder around the track.
pub proof fn law_the_latest_stars_count(
    stars: Map<Seq<char>, (u8, u64)>,
    folder: Seq<char>,
    path: Seq<char>,
    n: u8,
    now: u64,
    a: u64,
    b: u64,
)
    requires
        is_latest(stars, folder, a),
    ensures
        is_latest(stars, folder, b) ==> a == b,
        is_under(path, folder) && now >= a ==> is_latest(
            stars.insert(path, (n, now)),
            folder,
            now,
        ),
        !is_under(path, folder) ==> is_latest(stars.insert(path, (n, now)), folder, a),
        is_latest(Map::empty(), folder, 0),
{
    let more = stars.insert(path, (n, now));
    if is_under(path, folder) && now >= a {
        assert(more.contains_key(path) && is_under(path, folder) && more[path].1 == now);
    }
    if !is_under(path, folder) && a != 0 {
        let p = choose|p: Seq<char>| #[trigger]
            stars.contains_key(p) && is_under(p, folder) && stars[p].1 == a;
        assert(more.contains_key(p) && is_under(p, folder) && more[p].1 == a);
    }
}

/// What is in a folder is in every folder around it, and in no folder beside it.
pub proof fn law_folders_hold_what_is_below(folder: Seq<char>, name: Seq<char>, inner: Seq<char>)
    requires
        folder.len() > 0,
    ensures
        is_under(folder, folder),
        is_under(folder + seq!['/'] + name, folder),
        is_under(folder + seq!['/'] + name + seq!['/'] + inner, folder),
        is_under(folder + seq!['/'] + name + seq!['/'] + inner, folder + seq!['/'] + name),
        is_under(name, seq![]),
        !is_under(folder, folder + seq!['/'] + name),
{
    let a = folder + seq!['/'] + name;
    let b = a + seq!['/'] + inner;
    assert(a.take(folder.len() as int) =~= folder);
    assert(b.take(folder.len() as int) =~= folder);
    assert(b.take(a.len() as int) =~= a);
}

/// Every line of the list stands for itself: a line with stars, a time and a path gives
/// them, and one without sense costs nothing else.
pub proof fn law_star_lines_stand_alone(
    before: Seq<Seq<char>>,
    line: Seq<char>,
    after: Seq<Seq<char>>,
    e: RatingV,
)
    requires
        is_storable(e),
    ensures
        ratings_on(before + seq![line] + after) == ratings_on(before) + (match rating_on(line) {
            Some(e) => seq![e],
            None => seq![],
        }) + ratings_on(after),
        rating_on(decimal(e.stars as nat) + " "@ + decimal(e.time as nat) + " "@ + e.path) == Some(
            e,
        ),
    decreases after.len(),
{
    lemma_rating_line(e);
    let all = before + seq![line] + after;
    if after.len() == 0 {
        assert(all.drop_last() =~= before);
        assert(all.last() == line);
    } else {
        law_star_lines_stand_alone(before, line, after.drop_last(), e);
        assert(all.drop_last() =~= before + seq![line] + after.drop_last());
        assert(all.last() == after.last());
    }
    assert(ratings_on(all) =~= ratings_on(before) + (match rating_on(line) {
        Some(e) => seq![e],
        None => seq![],
    }) + ratings_on(after));
}

} // verus!
