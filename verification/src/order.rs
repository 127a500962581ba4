//! Putting things in order: a stable sort by textual keys.

use vstd::prelude::*;
use crate::text::{self, before, views};

verus! {

/// What a list of keys holds, each key a list of parts.
pub open spec fn keys_view(v: Seq<Vec<String>>) -> Seq<Seq<Seq<char>>> {
    Seq::new(v.len(), |i: int| views(v[i]@))
}

/// `a` comes before `b`, decided by the first part in which they differ.
pub open spec fn precedes(a: Seq<Seq<char>>, b: Seq<Seq<char>>) -> bool
    decreases a.len(),
{
    if b.len() == 0 {
        false
    } else if a.len() == 0 {
        true
    } else if a[0] != b[0] {
        before(a[0], b[0])
    } else {
        precedes(a.skip(1), b.skip(1))
    }
}

/// `order` lists every index below `n` exactly once.
pub open spec fn is_permutation(order: Seq<usize>, n: nat) -> bool {
    &&& order.len() == n
    &&& order.no_duplicates()
    &&& forall|i: int| 0 <= i < n ==> (#[trigger] order[i]) < n
}

/// The two entries stand in order: by key, and by index where the keys agree.
pub open spec fn in_order(keys: Seq<Seq<Seq<char>>>, a: usize, b: usize) -> bool {
    precedes(keys[a as int], keys[b as int]) || (keys[a as int] == keys[b as int] && a < b)
}

/// `order` is the one stable arrangement of `keys`.
pub open spec fn is_sorted_order(keys: Seq<Seq<Seq<char>>>, order: Seq<usize>) -> bool {
    &&& is_permutation(order, keys.len())
    &&& forall|i: int, j: int|
        0 <= i < j < order.len() ==> in_order(keys, #[trigger] order[i], #[trigger] order[j])
}

/// A permutation leaves no index out.
pub proof fn lemma_permutation_covers(order: Seq<usize>, n: nat)
    requires
        is_permutation(order, n),
        n <= usize::MAX,
    ensures
        forall|k: usize| k < n ==> #[trigger] order.contains(k),
{
    let all = Set::new(|k: usize| k < n);
    let held = order.to_set();
    lemma_small_numbers(n);
    order.unique_seq_to_set();
    assert(held.subset_of(all));
    vstd::set_lib::lemma_subset_equality(held, all);
    assert forall|k: usize| k < n implies #[trigger] order.contains(k) by {
        assert(all.contains(k));
        assert(held.contains(k));
    }
}

/// There are `n` numbers below `n`.
proof fn lemma_small_numbers(n: nat)
    requires
        n <= usize::MAX,
    ensures
        Set::new(|k: usize| k < n).finite(),
        Set::new(|k: usize| k < n).len() == n,
    decreases n,
{
    let all = Set::new(|k: usize| k < n);
    if n == 0 {
        assert(all =~= Set::<usize>::empty());
    } else {
        let m = (n - 1) as nat;
        lemma_small_numbers(m);
        let less = Set::new(|k: usize| k < m);
        assert(all =~= less.insert(m as usize));
    }
}

pub proof fn lemma_before_irreflexive(a: Seq<char>)
    ensures
        !before(a, a),
    decreases a.len(),
{
    if a.len() > 0 {
        lemma_before_irreflexive(a.skip(1));
    }
}

pub proof fn lemma_before_transitive(a: Seq<char>, b: Seq<char>, c: Seq<char>)
    requires
        before(a, b),
        before(b, c),
    ensures
        before(a, c),
    decreases a.len(),
{
    if a.len() > 0 && a[0] == b[0] && b[0] == c[0] {
        lemma_before_transitive(a.skip(1), b.skip(1), c.skip(1));
    }
}

pub proof fn lemma_before_total(a: Seq<char>, b: Seq<char>)
    ensures
        a == b || before(a, b) || before(b, a),
    decreases a.len(),
{
    if a.len() > 0 && b.len() > 0 {
        if a[0] == b[0] {
            lemma_before_total(a.skip(1), b.skip(1));
            if a.skip(1) == b.skip(1) {
                assert(a =~= seq![a[0]] + a.skip(1));
                assert(b =~= seq![b[0]] + b.skip(1));
            }
        }
    } else if a.len() == 0 && b.len() == 0 {
        assert(a =~= b);
    }
}

pub proof fn lemma_precedes_transitive(a: Seq<Seq<char>>, b: Seq<Seq<char>>, c: Seq<Seq<char>>)
    requires
        precedes(a, b),
        precedes(b, c),
    ensures
        precedes(a, c),
    decreases a.len(),
{
    if a.len() > 0 {
        if a[0] == b[0] {
            if b[0] == c[0] {
                lemma_precedes_transitive(a.skip(1), b.skip(1), c.skip(1));
            }
        } else if b[0] != c[0] {
            lemma_before_transitive(a[0], b[0], c[0]);
            lemma_before_irreflexive(a[0]);
            if a[0] == c[0] {
                lemma_before_transitive(a[0], b[0], a[0]);
            }
        }
    }
}

pub proof fn lemma_precedes_total(a: Seq<Seq<char>>, b: Seq<Seq<char>>)
    ensures
        a == b || precedes(a, b) || precedes(b, a),
    decreases a.len(),
{
    if a.len() > 0 && b.len() > 0 {
        if a[0] == b[0] {
            lemma_precedes_total(a.skip(1), b.skip(1));
            if a.skip(1) == b.skip(1) {
                assert(a =~= seq![a[0]] + a.skip(1));
                assert(b =~= seq![b[0]] + b.skip(1));
            }
        } else {
            lemma_before_total(a[0], b[0]);
        }
    } else if a.len() == 0 && b.len() == 0 {
        assert(a =~= b);
    }
}

/// Lists of one part each are in the order of those parts.
pub proof fn lemma_one_part(a: Seq<char>, b: Seq<char>)
    ensures
        precedes(seq![a], seq![b]) == before(a, b),
{
    assert(seq![a].skip(1) =~= seq![]);
    assert(seq![b].skip(1) =~= seq![]);
    lemma_before_irreflexive(a);
    reveal_with_fuel(precedes, 3);
}

/// One text comes before another when it ends where the other goes on, or has a lower
/// character at the first place where they differ.
pub proof fn law_texts_are_ordered_by_their_first_difference(a: Seq<char>, b: Seq<char>)
    ensures
        before(a, b) <==> exists|k: int|
            0 <= k <= a.len() && k < b.len() && a.take(k) == #[trigger] b.take(k) && (k == a.len()
                || a[k] < b[k]),
    decreases a.len(),
{
    if b.len() > 0 && a.len() > 0 && a[0] == b[0] {
        let (x, y) = (a.skip(1), b.skip(1));
        law_texts_are_ordered_by_their_first_difference(x, y);
        if before(a, b) {
            let k = choose|k: int|
                0 <= k <= x.len() && k < y.len() && x.take(k) == #[trigger] y.take(k) && (k
                    == x.len() || x[k] < y[k]);
            assert(a.take(k + 1) =~= seq![a[0]] + x.take(k));
            assert(b.take(k + 1) =~= seq![b[0]] + y.take(k));
            assert(a.take(k + 1) == b.take(k + 1));
        }
        if exists|k: int|
            0 <= k <= a.len() && k < b.len() && a.take(k) == #[trigger] b.take(k) && (k == a.len()
                || a[k] < b[k]) {
            let k = choose|k: int|
                0 <= k <= a.len() && k < b.len() && a.take(k) == #[trigger] b.take(k) && (k
                    == a.len() || a[k] < b[k]);
            assert(k > 0);
            assert(x.take(k - 1) =~= a.take(k).skip(1));
            assert(y.take(k - 1) =~= b.take(k).skip(1));
            assert(x.take(k - 1) == y.take(k - 1));
        }
    } else if b.len() > 0 {
        assert(a.take(0) =~= b.take(0));
        if a.len() > 0 {
            assert forall|k: int|
                0 <= k <= a.len() && k < b.len() && a.take(k) == #[trigger] b.take(k) implies k
                == 0 by {
                if k > 0 {
                    assert(a.take(k)[0] == b.take(k)[0]);
                }
            }
        }
    }
}

/// Paths are in the order of the first part in which they differ, and a folder comes
/// before what is in it.
pub proof fn law_parts_are_ordered_by_the_first_that_differs(
    front: Seq<Seq<char>>,
    a: Seq<Seq<char>>,
    b: Seq<Seq<char>>,
)
    ensures
        precedes(front + a, front + b) == precedes(a, b),
        a.len() > 0 && b.len() > 0 && a[0] != b[0] ==> precedes(a, b) == before(a[0], b[0]),
        b.len() > 0 ==> precedes(front, front + b),
        !precedes(a, a),
    decreases front.len() + a.len(),
{
    if front.len() > 0 {
        law_parts_are_ordered_by_the_first_that_differs(front.skip(1), a, b);
        assert((front + a).skip(1) =~= front.skip(1) + a);
        assert((front + b).skip(1) =~= front.skip(1) + b);
        lemma_before_irreflexive(front[0]);
    } else {
        assert(front + a =~= a);
        assert(front + b =~= b);
        if a.len() > 0 {
            law_parts_are_ordered_by_the_first_that_differs(seq![], a.skip(1), b);
            lemma_before_irreflexive(a[0]);
        }
    }
}

proof fn lemma_in_order_transitive(keys: Seq<Seq<Seq<char>>>, a: usize, b: usize, c: usize)
    requires
        in_order(keys, a, b),
        in_order(keys, b, c),
    ensures
        in_order(keys, a, c),
{
    let (x, y, z) = (keys[a as int], keys[b as int], keys[c as int]);
    if precedes(x, y) && precedes(y, z) {
        lemma_precedes_transitive(x, y, z);
    }
}

/// True when `a` comes before `b`.
pub fn is_preceding(a: &Vec<String>, b: &Vec<String>) -> (r: bool)
    ensures
        r == precedes(views(a@), views(b@)),
{
    let ghost x = views(a@);
    let ghost y = views(b@);
    let mut i: usize = 0;
    proof {
        assert(x.skip(0) =~= x);
        assert(y.skip(0) =~= y);
    }
    while i < a.len() && i < b.len()
        invariant
            i <= a@.len(),
            i <= b@.len(),
            x == views(a@),
            y == views(b@),
            precedes(x, y) == precedes(x.skip(i as int), y.skip(i as int)),
        decreases a@.len() - i,
    {
        proof {
            assert(x.skip(i as int)[0] == a@[i as int]@);
            assert(y.skip(i as int)[0] == b@[i as int]@);
            assert(x.skip(i as int).skip(1) =~= x.skip(i as int + 1));
            assert(y.skip(i as int).skip(1) =~= y.skip(i as int + 1));
        }
        if !(a[i] == b[i]) {
            return text::is_before(a[i].as_str(), b[i].as_str());
        }
        i = i + 1;
    }
    i < b.len()
}

/// The order that sorts `keys`, as indices into them. Equal keys stay in the order
/// they came in.
pub fn sorted_order(keys: &Vec<Vec<String>>) -> (order: Vec<usize>)
    ensures
        is_sorted_order(keys_view(keys@), order@),
{
    let ghost k = keys_view(keys@);
    let mut order: Vec<usize> = Vec::new();
    let mut i: usize = 0;
    while i < keys.len()
        invariant
            i <= keys@.len(),
            k == keys_view(keys@),
            is_permutation(order@, i as nat),
            forall|x: int, y: int|
                0 <= x < y < order@.len() ==> in_order(k, #[trigger] order@[x], #[trigger] order@[y]),
        decreases keys@.len() - i,
    {
        let mut at: usize = order.len();
        let ghost was = order@;
        while at > 0 && is_preceding(&keys[i], &keys[order[at - 1]])
            invariant
                at <= order@.len(),
                order@ == was,
                i < keys@.len(),
                k == keys_view(keys@),
                is_permutation(was, i as nat),
                forall|y: int|
                    at <= y < was.len() ==> precedes(k[i as int], k[#[trigger] was[y] as int]),
            decreases at,
        {
            at = at - 1;
        }
        proof {
            assert forall|x: int| 0 <= x < at implies in_order(k, #[trigger] was[x], i) by {
                let p = was[at - 1];
                lemma_precedes_total(k[i as int], k[p as int]);
                assert(in_order(k, p, i));
                if x < at - 1 {
                    lemma_in_order_transitive(k, was[x], p, i);
                }
            }
        }
        order.insert(at, i);
        proof {
            let now = order@;
            assert(now =~= was.insert(at as int, i));
            assert forall|x: int| 0 <= x < now.len() implies (#[trigger] now[x]) < i + 1 by {
                if x < at {
                    assert(now[x] == was[x]);
                } else if x > at {
                    assert(now[x] == was[x - 1]);
                }
            }
            assert forall|x: int, y: int| 0 <= x < y < now.len() implies in_order(
                k,
                #[trigger] now[x],
                #[trigger] now[y],
            ) && now[x] != now[y] by {
                if y < at {
                    assert(now[x] == was[x] && now[y] == was[y]);
                } else if y == at {
                    assert(now[x] == was[x]);
                } else if x < at {
                    assert(now[x] == was[x] && now[y] == was[y - 1]);
                } else if x == at {
                    assert(now[y] == was[y - 1]);
                    assert(precedes(k[i as int], k[was[y - 1] as int]));
                } else {
                    assert(now[x] == was[x - 1] && now[y] == was[y - 1]);
                }
            }
            assert(now.no_duplicates());
        }
        i = i + 1;
    }
    order
}

} // verus!
