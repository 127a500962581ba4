//! Paths as text, compared part by part.
//!
//! A local file and a server's folder are both written as one string. Two spellings
//! of a path mean the same place when their parts agree: a doubled slash, a slash at
//! the end and a `.` in the middle change nothing.

use vstd::prelude::*;
use crate::text::{self, joined, pieces, views};

verus! {

/// The one character that separates the parts of a path.
pub open spec fn slash() -> Seq<char> {
    seq!['/']
}

pub open spec fn dot() -> Seq<char> {
    seq!['.']
}

pub open spec fn dots() -> Seq<char> {
    seq!['.', '.']
}

/// A piece between two slashes that names something. A lone `.` does only at the
/// very front of a path.
pub open spec fn names(piece: Seq<char>, at_front: bool) -> bool {
    piece.len() > 0 && (piece != dot() || at_front)
}

/// The pieces that name something, in order.
pub open spec fn named(all: Seq<Seq<char>>, at_front: bool) -> Seq<Seq<char>>
    decreases all.len(),
{
    if all.len() == 0 {
        seq![]
    } else if names(all[0], at_front) {
        seq![all[0]] + named(all.skip(1), false)
    } else {
        named(all.skip(1), false)
    }
}

/// A path that starts at the root of the file system.
pub open spec fn is_absolute(p: Seq<char>) -> bool {
    p.len() > 0 && p[0] == '/'
}

/// The parts of a path, the root itself first when it starts there.
#[verifier::opaque]
pub open spec fn comps(p: Seq<char>) -> Seq<Seq<char>> {
    (if is_absolute(p) {
        seq![slash()]
    } else {
        seq![]
    }) + named(pieces(p, '/'), true)
}

/// Two spellings of one place.
pub open spec fn same_path(a: Seq<char>, b: Seq<char>) -> bool {
    comps(a) == comps(b)
}

/// `p` is `base` or lies somewhere inside it.
pub open spec fn inside(p: Seq<char>, base: Seq<char>) -> bool {
    &&& comps(base).len() <= comps(p).len()
    &&& comps(p).take(comps(base).len() as int) == comps(base)
}

/// The parts of `p` below `base`.
pub open spec fn below(p: Seq<char>, base: Seq<char>) -> Option<Seq<Seq<char>>> {
    if inside(p, base) {
        Some(comps(p).skip(comps(base).len() as int))
    } else {
        None
    }
}

/// The last part of a path, unless that names no entry.
pub open spec fn leaf(p: Seq<char>) -> Option<Seq<char>> {
    let c = comps(p);
    if c.len() == 0 || c.last() == slash() || c.last() == dot() || c.last() == dots() {
        None
    } else {
        Some(c.last())
    }
}

/// A path without slashes and dots at its end that name nothing.
pub open spec fn tail_trimmed(p: Seq<char>) -> Seq<char>
    decreases p.len(),
{
    if p.len() > 1 && p.last() == '/' {
        tail_trimmed(p.drop_last())
    } else if p.len() > 1 && p.last() == '.' && p[p.len() - 2] == '/' {
        tail_trimmed(p.drop_last())
    } else {
        p
    }
}

/// A path up to and including its last slash.
pub open spec fn through_slash(p: Seq<char>) -> Seq<char>
    decreases p.len(),
{
    if p.len() == 0 || p.last() == '/' {
        p
    } else {
        through_slash(p.drop_last())
    }
}

/// The folder that holds `p`; nothing for a root or an empty path.
#[verifier::opaque]
pub open spec fn parent(p: Seq<char>) -> Option<Seq<char>> {
    let t = tail_trimmed(p);
    if t.len() == 0 || t == slash() {
        None
    } else {
        Some(tail_trimmed(through_slash(t)))
    }
}

/// `name` inside `base`.
pub open spec fn within(base: Seq<char>, name: Seq<char>) -> Seq<char> {
    if is_absolute(name) {
        name
    } else if base.len() == 0 || base.last() == '/' {
        base + name
    } else {
        base + slash() + name
    }
}

/// Where the last `c` is, and -1 when there is none.
pub open spec fn rfind(s: Seq<char>, c: char) -> int
    decreases s.len(),
{
    if s.len() == 0 {
        -1
    } else if s.last() == c {
        s.len() - 1
    } else {
        rfind(s.drop_last(), c)
    }
}

/// What follows the last dot of a file's name. A name that only starts with a dot
/// has no extension.
pub open spec fn extension(p: Seq<char>) -> Option<Seq<char>> {
    match leaf(p) {
        Some(name) => {
            let at = rfind(name, '.');
            if at > 0 {
                Some(name.skip(at + 1))
            } else {
                None
            }
        },
        None => None,
    }
}

/// A file's name without its extension.
pub open spec fn stem(p: Seq<char>) -> Option<Seq<char>> {
    match leaf(p) {
        Some(name) => {
            let at = rfind(name, '.');
            if at > 0 {
                Some(name.take(at))
            } else {
                Some(name)
            }
        },
        None => None,
    }
}

// ---------------------------------------------------------------------------

pub proof fn lemma_rfind(s: Seq<char>, c: char)
    ensures
        -1 <= rfind(s, c) < s.len(),
        rfind(s, c) >= 0 ==> s[rfind(s, c)] == c,
        forall|i: int| rfind(s, c) < i < s.len() ==> #[trigger] s[i] != c,
    decreases s.len(),
{
    if s.len() > 0 && s.last() != c {
        lemma_rfind(s.drop_last(), c);
        let t = s.drop_last();
        assert forall|i: int| rfind(s, c) < i < s.len() implies #[trigger] s[i] != c by {
            if i < s.len() - 1 {
                assert(t[i] == s[i]);
            }
        }
    }
}

pub proof fn lemma_rfind_is(s: Seq<char>, c: char, at: int)
    requires
        -1 <= at < s.len(),
        at >= 0 ==> s[at] == c,
        forall|i: int| at < i < s.len() ==> #[trigger] s[i] != c,
    ensures
        rfind(s, c) == at,
{
    lemma_rfind(s, c);
    let f = rfind(s, c);
    if f < at {
        assert(s[at] != c);
    } else if at < f {
        assert(s[f] != c);
    }
}

proof fn lemma_named_step(all: Seq<Seq<char>>, i: int)
    requires
        0 <= i < all.len(),
    ensures
        named(all.skip(i), i == 0) == (if names(all[i], i == 0) {
            seq![all[i]]
        } else {
            seq![]
        }) + named(all.skip(i + 1), false),
{
    assert(all.skip(i).skip(1) =~= all.skip(i + 1));
    assert(all.skip(i)[0] == all[i]);
    if !names(all[i], i == 0) {
        assert(seq![] + named(all.skip(i + 1), false) =~= named(all.skip(i + 1), false));
    }
}

/// A name that one entry of a folder can have.
pub open spec fn is_entry(name: Seq<char>) -> bool {
    &&& name.len() > 0
    &&& !name.contains('/')
    &&& name != dot()
    &&& name != dots()
}

proof fn lemma_pieces_joined(a: Seq<char>, b: Seq<char>)
    requires
        !b.contains('/'),
    ensures
        pieces(a + seq!['/'] + b, '/') == pieces(a, '/').push(b),
    decreases a.len(),
{
    let s = a + seq!['/'] + b;
    text::lemma_find(a, '/');
    let i = text::find(a, '/');
    if i < a.len() {
        let rest = a.skip(i as int + 1);
        assert forall|k: int| 0 <= k < i implies #[trigger] s[k] != '/' by {
            assert(s[k] == a[k]);
        }
        assert(s[i as int] == a[i as int]);
        text::lemma_find_is(s, '/', i);
        assert(s.take(i as int) =~= a.take(i as int));
        assert(s.skip(i as int + 1) =~= rest + seq!['/'] + b);
        lemma_pieces_joined(rest, b);
        assert((seq![a.take(i as int)] + pieces(rest, '/')).push(b) =~= seq![a.take(i as int)] + (
        pieces(rest, '/').push(b)));
        assert(pieces(a, '/') == seq![a.take(i as int)] + pieces(rest, '/'));
        assert(pieces(s, '/') == seq![s.take(i as int)] + pieces(s.skip(i as int + 1), '/'));
    } else {
        assert forall|k: int| 0 <= k < a.len() implies #[trigger] s[k] != '/' by {
            assert(s[k] == a[k]);
        }
        assert(s[a.len() as int] == '/');
        text::lemma_find_is(s, '/', a.len());
        assert(s.take(a.len() as int) =~= a);
        assert(s.skip(a.len() as int + 1) =~= b);
        assert forall|k: int| 0 <= k < b.len() implies #[trigger] b[k] != '/' by {
            assert(b.contains(b[k]));
        }
        text::lemma_find_is(b, '/', b.len());
        assert(pieces(b, '/') == seq![b]);
        assert(pieces(a, '/') == seq![a]);
        assert(pieces(s, '/') == seq![s.take(a.len() as int)] + pieces(
            s.skip(a.len() as int + 1),
            '/',
        ));
        assert(seq![a] + seq![b] =~= seq![a].push(b));
    }
}

proof fn lemma_named_push(all: Seq<Seq<char>>, b: Seq<char>, front: bool)
    requires
        b.len() > 0,
        b != dot(),
    ensures
        named(all.push(b), front) == named(all, front).push(b),
    decreases all.len(),
{
    let more = all.push(b);
    if all.len() == 0 {
        assert(more.skip(1) =~= seq![]);
        assert(named(more.skip(1), false) == Seq::<Seq<char>>::empty());
        assert(named(more, front) =~= seq![b]);
        assert(named(all, front).push(b) =~= seq![b]);
    } else {
        assert(more.skip(1) =~= all.skip(1).push(b));
        lemma_named_push(all.skip(1), b, false);
        if names(all[0], front) {
            assert(seq![all[0]] + named(all.skip(1), false).push(b) =~= (seq![all[0]] + named(
                all.skip(1),
                false,
            )).push(b));
        }
    }
}

/// What is put into a folder is in it: its parts are those of the folder and its own
/// name, by which it goes, and it lies inside the folder and nowhere else.
pub proof fn law_entries_lie_in_their_folder(dir: Seq<char>, name: Seq<char>)
    requires
        dir.len() > 0,
        is_entry(name),
    ensures
        comps(within(dir, name)) == comps(dir).push(name),
        leaf(within(dir, name)) == Some(name),
        inside(within(dir, name), dir),
        below(within(dir, name), dir) == Some(seq![name]),
        !inside(dir, within(dir, name)),
        dir.last() != '/' ==> within(dir, name) == dir + seq!['/'] + name,
{
    reveal(comps);
    assert(name[0] != '/') by {
        assert(name.contains(name[0]));
    }
    let p = within(dir, name);
    let base = if dir.last() == '/' {
        dir.drop_last()
    } else {
        dir
    };
    assert(p =~= base + seq!['/'] + name);
    lemma_pieces_joined(base, name);
    lemma_named_push(pieces(base, '/'), name, true);
    if dir.last() == '/' {
        assert(dir =~= base + seq!['/'] + Seq::<char>::empty());
        lemma_pieces_joined(base, seq![]);
        lemma_named_blank(pieces(base, '/'), true);
    }
    assert(p[0] == dir[0]);
    assert(comps(p) =~= comps(dir).push(name));
    assert(comps(p).last() == name);
    if name == slash() {
        assert(name.contains(slash()[0]));
    }
    assert(comps(p).take(comps(dir).len() as int) =~= comps(dir));
    assert(comps(p).skip(comps(dir).len() as int) =~= seq![name]);
}

proof fn lemma_named_blank(all: Seq<Seq<char>>, front: bool)
    ensures
        named(all.push(seq![]), front) == named(all, front),
    decreases all.len(),
{
    let more = all.push(seq![]);
    if all.len() == 0 {
        assert(more.skip(1) =~= seq![]);
        assert(named(more.skip(1), false) == Seq::<Seq<char>>::empty());
        assert(named(all, front) == Seq::<Seq<char>>::empty());
    } else {
        assert(more.skip(1) =~= all.skip(1).push(seq![]));
        lemma_named_blank(all.skip(1), false);
    }
}

/// The folder that holds what was put into a folder is that folder.
pub proof fn law_the_parent_of_an_entry_is_its_folder(dir: Seq<char>, name: Seq<char>)
    requires
        dir.len() > 0,
        dir.last() != '/',
        dir.last() != '.',
        is_entry(name),
    ensures
        parent(within(dir, name)) == Some(dir),
{
    reveal(parent);
    assert(name[0] != '/' && name.last() != '/') by {
        assert(name.contains(name[0]));
        assert(name.contains(name[name.len() - 1]));
    }
    let p = dir + slash() + name;
    assert(within(dir, name) == p);
    assert(p.last() == name.last());
    if name.len() == 1 {
        assert(p[p.len() - 2] == '/');
        assert(name.last() == '.' ==> name =~= dot());
    } else {
        assert(p[p.len() - 2] == name[name.len() - 2]);
        assert(name.contains(name[name.len() - 2]));
    }
    assert(tail_trimmed(p) == p);
    lemma_through_slash(dir + slash(), name);
    let front = dir + slash();
    assert(front.drop_last() =~= dir);
    reveal_with_fuel(tail_trimmed, 3);
}

proof fn lemma_through_slash(front: Seq<char>, name: Seq<char>)
    requires
        front.len() > 0,
        front.last() == '/',
        !name.contains('/'),
    ensures
        through_slash(front + name) == front,
    decreases name.len(),
{
    let p = front + name;
    if name.len() == 0 {
        assert(p =~= front);
    } else {
        assert(name.contains(name[name.len() - 1]));
        assert(p.last() == name.last());
        assert(p.drop_last() =~= front + name.drop_last());
        let less = name.drop_last();
        assert(!less.contains('/')) by {
            if less.contains('/') {
                let k = choose|k: int| 0 <= k < less.len() && less[k] == '/';
                assert(name[k] == '/');
            }
        }
        lemma_through_slash(front, less);
    }
}

/// A file's name is what stands before its last dot and what stands behind it.
pub proof fn law_a_name_is_a_stem_and_an_extension(
    dir: Seq<char>,
    base: Seq<char>,
    ending: Seq<char>,
)
    requires
        dir.len() > 0,
        base.len() > 0,
        !base.contains('/'),
        !ending.contains('/'),
        !ending.contains('.'),
        is_entry(base + seq!['.'] + ending),
    ensures
        stem(within(dir, base + seq!['.'] + ending)) == Some(base),
        extension(within(dir, base + seq!['.'] + ending)) == Some(ending),
{
    let name = base + seq!['.'] + ending;
    law_entries_lie_in_their_folder(dir, name);
    assert forall|i: int| base.len() < i < name.len() implies #[trigger] name[i] != '.' by {
        assert(name[i] == ending[i - base.len() - 1]);
        assert(ending.contains(ending[i - base.len() - 1]));
    }
    lemma_rfind_is(name, '.', base.len() as int);
    assert(name.take(base.len() as int) =~= base);
    assert(name.skip(base.len() as int + 1) =~= ending);
}

// ---------------------------------------------------------------------------

/// The parts of a path.
pub fn parts(p: &str) -> (r: Vec<String>)
    ensures
        views(r@) == comps(p@),
{
    proof {
        reveal(comps);
    }
    let all = text::split(p, '/');
    let v = text::chars_of(p);
    let mut out: Vec<String> = Vec::new();
    if v.len() > 0 && v[0] == '/' {
        let mut root = String::new();
        root.push('/');
        assert(root@ =~= slash());
        out.push(root);
        assert(views(out@) =~= seq![slash()]);
    } else {
        assert(views(out@) =~= seq![]);
    }
    let ghost head = views(out@);
    let ghost every = views(all@);
    let mut i: usize = 0;
    proof {
        assert(every.skip(0) =~= every);
    }
    while i < all.len()
        invariant
            i <= all@.len(),
            every == views(all@),
            views(out@) + named(every.skip(i as int), i == 0) == head + named(every, true),
        decreases all@.len() - i,
    {
        let piece = text::chars_of(all[i].as_str());
        let is_dot: bool = piece.len() == 1 && piece[0] == '.';
        let ghost was = views(out@);
        proof {
            lemma_named_step(every, i as int);
            assert(piece@ == every[i as int]);
            if is_dot {
                assert(piece@ =~= dot());
            }
        }
        if piece.len() > 0 && (!is_dot || i == 0) {
            out.push(all[i].clone());
            proof {
                assert(views(out@) =~= was.push(every[i as int]));
                assert(views(out@) + named(every.skip(i as int + 1), false) =~= was + named(
                    every.skip(i as int),
                    i == 0,
                ));
            }
        } else {
            proof {
                assert(named(every.skip(i as int), i == 0) =~= named(
                    every.skip(i as int + 1),
                    false,
                ));
            }
        }
        i = i + 1;
    }
    proof {
        assert(every.skip(i as int) =~= seq![]);
        assert(views(out@) + named(every.skip(i as int), i == 0) =~= views(out@));
    }
    out
}

/// The first `n` strings of both lists agree.
fn agree(a: &Vec<String>, b: &Vec<String>, n: usize) -> (r: bool)
    requires
        n <= a@.len(),
        n <= b@.len(),
    ensures
        r == (views(a@).take(n as int) == views(b@).take(n as int)),
{
    let mut i: usize = 0;
    while i < n
        invariant
            i <= n <= a@.len(),
            n <= b@.len(),
            forall|k: int| 0 <= k < i ==> #[trigger] a@[k]@ == b@[k]@,
        decreases n - i,
    {
        if !(a[i] == b[i]) {
            proof {
                assert(views(a@).take(n as int)[i as int] == a@[i as int]@);
                assert(views(b@).take(n as int)[i as int] == b@[i as int]@);
            }
            return false;
        }
        i = i + 1;
    }
    assert(views(a@).take(n as int) =~= views(b@).take(n as int));
    true
}

/// True for two spellings of one place.
pub fn same(a: &str, b: &str) -> (r: bool)
    ensures
        r == same_path(a@, b@),
{
    let x = parts(a);
    let y = parts(b);
    if x.len() != y.len() {
        assert(views(x@).len() != views(y@).len());
        return false;
    }
    proof {
        assert(views(x@).take(x@.len() as int) =~= views(x@));
        assert(views(y@).take(y@.len() as int) =~= views(y@));
    }
    agree(&x, &y, x.len())
}

/// True when `p` is `base` or lies inside it.
pub fn is_inside(p: &str, base: &str) -> (r: bool)
    ensures
        r == inside(p@, base@),
{
    let x = parts(p);
    let y = parts(base);
    if y.len() > x.len() {
        assert(views(y@).len() > views(x@).len());
        return false;
    }
    proof {
        assert(views(y@).take(y@.len() as int) =~= views(y@));
    }
    agree(&x, &y, y.len())
}

/// Strings put together with slashes between them.
pub fn join_slash(v: &Vec<String>, from: usize) -> (r: String)
    requires
        from <= v@.len(),
    ensures
        r@ == joined(views(v@).skip(from as int), slash()),
    decreases v@.len() - from,
{
    let ghost all = views(v@).skip(from as int);
    if from == v.len() {
        let r = String::new();
        assert(r@ =~= joined(all, slash()));
        return r;
    }
    if from + 1 == v.len() {
        assert(all[0] == v@[from as int]@);
        return v[from].clone();
    }
    let mut r = v[from].clone();
    r.push('/');
    let rest = join_slash(v, from + 1);
    text::push_str(&mut r, rest.as_str());
    proof {
        assert(all.skip(1) =~= views(v@).skip(from as int + 1));
        assert(all[0] == v@[from as int]@);
        assert(r@ =~= all[0] + slash() + joined(all.skip(1), slash()));
    }
    r
}

/// Strings put together with `sep` between them.
pub fn join_with(v: &Vec<String>, from: usize, sep: &str) -> (r: String)
    requires
        from <= v@.len(),
    ensures
        r@ == joined(views(v@).skip(from as int), sep@),
    decreases v@.len() - from,
{
    let ghost all = views(v@).skip(from as int);
    if from == v.len() {
        let r = String::new();
        assert(r@ =~= joined(all, sep@));
        return r;
    }
    if from + 1 == v.len() {
        assert(all[0] == v@[from as int]@);
        return v[from].clone();
    }
    let rest = join_with(v, from + 1, sep);
    proof {
        assert(all.skip(1) =~= views(v@).skip(from as int + 1));
        assert(all[0] == v@[from as int]@);
    }
    text::cat3(v[from].as_str(), sep, rest.as_str())
}

/// The way from `base` down to `p`, with slashes between the parts.
pub fn relative(p: &str, base: &str) -> (r: Option<String>)
    ensures
        match r {
            Some(rel) => below(p@, base@) is Some && rel@ == joined(below(p@, base@)->0, slash()),
            None => below(p@, base@) is None,
        },
{
    if !is_inside(p, base) {
        return None;
    }
    let x = parts(p);
    let y = parts(base);
    proof {
        assert(views(y@).len() == y@.len());
        assert(views(x@).len() == x@.len());
    }
    Some(join_slash(&x, y.len()))
}

/// The last part of a path.
pub fn file_name(p: &str) -> (r: Option<String>)
    ensures
        text::opt_view(r) == leaf(p@),
{
    let x = parts(p);
    if x.len() == 0 {
        assert(views(x@).len() == 0);
        return None;
    }
    let last = x[x.len() - 1].clone();
    proof {
        assert(views(x@).last() == last@);
    }
    let v = text::chars_of(last.as_str());
    let ghost l = last@;
    if v.len() == 1 && (v[0] == '/' || v[0] == '.') {
        assert(l =~= slash() || l =~= dot());
        return None;
    }
    if v.len() == 2 && v[0] == '.' && v[1] == '.' {
        assert(l =~= dots());
        return None;
    }
    Some(last)
}

fn tail_end(v: &Vec<char>, to: usize) -> (r: usize)
    requires
        to <= v@.len(),
    ensures
        r <= to,
        v@.take(r as int) == tail_trimmed(v@.take(to as int)),
    decreases to,
{
    let ghost s = v@.take(to as int);
    if to > 1 && v[to - 1] == '/' {
        assert(s.drop_last() =~= v@.take(to - 1));
        return tail_end(v, to - 1);
    }
    if to > 1 && v[to - 1] == '.' && v[to - 2] == '/' {
        assert(s.drop_last() =~= v@.take(to - 1));
        return tail_end(v, to - 1);
    }
    to
}

fn slash_end(v: &Vec<char>, to: usize) -> (r: usize)
    requires
        to <= v@.len(),
    ensures
        r <= to,
        v@.take(r as int) == through_slash(v@.take(to as int)),
    decreases to,
{
    let ghost s = v@.take(to as int);
    if to == 0 || v[to - 1] == '/' {
        return to;
    }
    assert(s.drop_last() =~= v@.take(to - 1));
    slash_end(v, to - 1)
}

/// The folder that holds `p`.
pub fn parent_of(p: &str) -> (r: Option<String>)
    ensures
        text::opt_view(r) == parent(p@),
{
    proof {
        reveal(parent);
    }
    let v = text::chars_of(p);
    assert(v@.take(v@.len() as int) =~= v@);
    let t: usize = tail_end(&v, v.len());
    let ghost cut = v@.take(t as int);
    if t == 0 {
        return None;
    }
    if t == 1 && v[0] == '/' {
        assert(cut =~= slash());
        return None;
    }
    proof {
        if cut == slash() {
            assert(cut[0] == '/');
        }
    }
    let s: usize = slash_end(&v, t);
    let e: usize = tail_end(&v, s);
    assert(v@.take(e as int) =~= v@.subrange(0, e as int));
    Some(text::string_of(&v, 0, e))
}

/// `name` inside `base`.
pub fn join(base: &str, name: &str) -> (r: String)
    ensures
        r@ == within(base@, name@),
{
    let n = text::chars_of(name);
    if n.len() > 0 && n[0] == '/' {
        return name.to_owned();
    }
    let b = text::chars_of(base);
    let mut r = base.to_owned();
    if b.len() > 0 && b[b.len() - 1] != '/' {
        r.push('/');
        assert(r@ =~= base@ + slash());
    }
    text::push_str(&mut r, name);
    r
}

fn last_at(v: &Vec<char>, c: char) -> (r: Option<usize>)
    ensures
        match r {
            Some(i) => i < v@.len() && rfind(v@, c) == i,
            None => rfind(v@, c) == -1,
        },
{
    let mut i: usize = v.len();
    while i > 0
        invariant
            i <= v@.len(),
            forall|k: int| i <= k < v@.len() ==> #[trigger] v@[k] != c,
        decreases i,
    {
        if v[i - 1] == c {
            proof {
                lemma_rfind_is(v@, c, i - 1);
            }
            return Some(i - 1);
        }
        i = i - 1;
    }
    proof {
        lemma_rfind_is(v@, c, -1);
    }
    None
}

/// The part of a text after its last `c`, if it has one.
pub fn after_last(s: &str, c: char) -> (r: Option<String>)
    ensures
        match r {
            Some(rest) => rfind(s@, c) >= 0 && rest@ == s@.skip(rfind(s@, c) + 1),
            None => rfind(s@, c) == -1,
        },
{
    let v = text::chars_of(s);
    let n: usize = v.len();
    match last_at(&v, c) {
        Some(at) => {
            assert(v@.skip(at as int + 1) =~= v@.subrange(at as int + 1, v@.len() as int));
            Some(text::string_of(&v, at + 1, n))
        },
        None => None,
    }
}

/// The parts of a text before and after its last `c`.
pub fn split_last(s: &str, c: char) -> (r: Option<(String, String)>)
    ensures
        match r {
            Some((a, b)) => rfind(s@, c) >= 0 && a@ == s@.take(rfind(s@, c)) && b@ == s@.skip(
                rfind(s@, c) + 1,
            ),
            None => rfind(s@, c) == -1,
        },
{
    let v = text::chars_of(s);
    let n: usize = v.len();
    match last_at(&v, c) {
        Some(at) => {
            assert(v@.take(at as int) =~= v@.subrange(0, at as int));
            assert(v@.skip(at as int + 1) =~= v@.subrange(at as int + 1, v@.len() as int));
            Some((text::string_of(&v, 0, at), text::string_of(&v, at + 1, n)))
        },
        None => None,
    }
}

/// What follows the last dot of the file's name.
pub fn file_extension(p: &str) -> (r: Option<String>)
    ensures
        text::opt_view(r) == extension(p@),
{
    match file_name(p) {
        Some(name) => {
            let v = text::chars_of(name.as_str());
            let n: usize = v.len();
            match last_at(&v, '.') {
                Some(at) => {
                    if at > 0 {
                        assert(v@.skip(at as int + 1) =~= v@.subrange(
                            at as int + 1,
                            v@.len() as int,
                        ));
                        Some(text::string_of(&v, at + 1, n))
                    } else {
                        None
                    }
                },
                None => None,
            }
        },
        None => None,
    }
}

/// The file's name without its extension.
pub fn file_stem(p: &str) -> (r: Option<String>)
    ensures
        text::opt_view(r) == stem(p@),
{
    match file_name(p) {
        Some(name) => {
            let v = text::chars_of(name.as_str());
            match last_at(&v, '.') {
                Some(at) => {
                    if at > 0 {
                        assert(v@.take(at as int) =~= v@.subrange(0, at as int));
                        Some(text::string_of(&v, 0, at))
                    } else {
                        Some(name)
                    }
                },
                None => Some(name),
            }
        },
        None => None,
    }
}

} // verus!
