//! The order a queue is played in.
//!
//! Shuffling is a permutation rather than a fresh number per track, so the queue is
//! heard once through instead of repeating at random, and so going back leads to what
//! was actually just played.

use vstd::prelude::*;
use crate::order::{is_permutation, lemma_permutation_covers};

verus! {

/// One step of a xorshift.
pub open spec fn xorshift(x: u64) -> u64 {
    let a = x ^ (x << 13u64);
    let b = a ^ (a >> 7u64);
    b ^ (b << 17u64)
}

/// A xorshift. Shuffling is the only thing here that wants random numbers.
#[derive(Debug, Clone, Copy, PartialEq, Eq, Structural)]
pub struct Rng {
    pub state: u64,
}

impl Rng {
    /// Seeded from a clock: what is wanted is a different order each run, not a
    /// reproducible one. Any seed but zero; a xorshift never leaves it.
    pub fn new(nanos: u64) -> (r: Rng)
        ensures
            r.state == nanos | 1,
            r.state != 0,
    {
        assert((nanos | 1) != 0) by (bit_vector);
        Rng { state: nanos | 1 }
    }

    pub fn next_u64(&mut self) -> (x: u64)
        ensures
            x == xorshift(old(self).state),
            final(self).state == x,
    {
        let a: u64 = self.state ^ (self.state << 13);
        let b: u64 = a ^ (a >> 7);
        let c: u64 = b ^ (b << 17);
        self.state = c;
        c
    }

    /// Below `n`, and zero where nothing is.
    pub fn below(&mut self, n: usize) -> (r: usize)
        ensures
            n == 0 ==> r == 0 && final(self).state == old(self).state,
            n > 0 ==> final(self).state == xorshift(old(self).state) && r == xorshift(
                old(self).state,
            ) as int % n as int && r < n,
    {
        if n == 0 {
            return 0;
        }
        let x: u64 = self.next_u64();
        (x % n as u64) as usize
    }
}

/// The generator never runs dry: from any state but zero it goes to another.
pub proof fn law_the_generator_never_stops(x: u64)
    requires
        x != 0,
    ensures
        xorshift(x) != 0,
{
    assert(x != 0 ==> {
        let a = x ^ (x << 13u64);
        let b = a ^ (a >> 7u64);
        (b ^ (b << 17u64)) != 0
    }) by (bit_vector);
}

/// Two places exchanged.
pub open spec fn swapped(s: Seq<usize>, i: int, j: int) -> Seq<usize> {
    s.update(i, s[j]).update(j, s[i])
}

/// Every index below `n`, in order.
pub open spec fn in_turn(n: nat) -> Seq<usize> {
    Seq::new(n, |i: int| i as usize)
}

/// A list scrambled from place `i` down to the front, with the state of the generator
/// it leaves behind.
pub open spec fn scrambled(s: Seq<usize>, i: nat, rng: u64) -> (Seq<usize>, u64)
    decreases i,
{
    if i == 0 {
        (s, rng)
    } else {
        let x = xorshift(rng);
        scrambled(swapped(s, i as int, x as int % (i as int + 1)), (i - 1) as nat, x)
    }
}

/// Where `x` is; the length of `s` when it is nowhere.
pub open spec fn place_of(s: Seq<usize>, x: usize) -> nat
    decreases s.len(),
{
    if s.len() == 0 || s[0] == x {
        0
    } else {
        1 + place_of(s.skip(1), x)
    }
}

/// With `head` brought to the front, by changing places with what was there.
pub open spec fn headed(s: Seq<usize>, head: Option<usize>) -> Seq<usize> {
    match head {
        Some(h) => {
            let at = place_of(s, h);
            if at < s.len() {
                swapped(s, 0, at as int)
            } else {
                s
            }
        },
        None => s,
    }
}

/// A fresh order for a queue of `n`, `head` first when it is given.
pub open spec fn shuffled(n: nat, head: Option<usize>, rng: u64) -> Seq<usize> {
    if n == 0 {
        headed(in_turn(n), head)
    } else {
        headed(scrambled(in_turn(n), (n - 1) as nat, rng).0, head)
    }
}

/// The state of the generator afterwards.
pub open spec fn shuffled_rng(n: nat, rng: u64) -> u64 {
    if n == 0 {
        rng
    } else {
        scrambled(in_turn(n), (n - 1) as nat, rng).1
    }
}

/// What follows `current` in a queue of `n`, or nothing at the end of it.
pub open spec fn next_of(shuffle: bool, order: Seq<usize>, n: nat, current: usize) -> Option<
    usize,
> {
    if !shuffle {
        if current + 1 < n {
            Some((current + 1) as usize)
        } else {
            None
        }
    } else {
        let at = place_of(order, current) as int;
        if at + 1 < order.len() {
            Some(order[at + 1])
        } else {
            None
        }
    }
}

/// What came before `current`, or nothing at the start.
pub open spec fn previous_of(shuffle: bool, order: Seq<usize>, current: usize) -> Option<usize> {
    if !shuffle {
        if current > 0 {
            Some((current - 1) as usize)
        } else {
            None
        }
    } else {
        let at = place_of(order, current) as int;
        if 0 < at < order.len() {
            Some(order[at - 1])
        } else {
            None
        }
    }
}

// ---------------------------------------------------------------------------

pub proof fn lemma_place_of(s: Seq<usize>, x: usize)
    ensures
        place_of(s, x) <= s.len(),
        place_of(s, x) < s.len() ==> s[place_of(s, x) as int] == x,
        place_of(s, x) == s.len() ==> !s.contains(x),
        forall|i: int| 0 <= i < place_of(s, x) ==> #[trigger] s[i] != x,
    decreases s.len(),
{
    if s.len() > 0 && s[0] != x {
        lemma_place_of(s.skip(1), x);
        assert forall|i: int| 0 <= i < place_of(s, x) implies #[trigger] s[i] != x by {
            if i > 0 {
                assert(s.skip(1)[i - 1] == s[i]);
            }
        }
        if place_of(s, x) == s.len() {
            assert forall|i: int| 0 <= i < s.len() implies #[trigger] s[i] != x by {}
        }
    }
}

/// In a list without repeats the place of an element is where it is.
pub proof fn lemma_place_is(s: Seq<usize>, i: int)
    requires
        s.no_duplicates(),
        0 <= i < s.len(),
    ensures
        place_of(s, s[i]) == i,
{
    lemma_place_of(s, s[i]);
    let at = place_of(s, s[i]) as int;
    if at < i {
        assert(s[at] == s[i]);
    } else if i < at {
        assert(s[i] != s[i]);
    }
}

proof fn lemma_swapped(s: Seq<usize>, n: nat, i: int, j: int)
    requires
        is_permutation(s, n),
        0 <= i < n,
        0 <= j < n,
    ensures
        is_permutation(swapped(s, i, j), n),
{
    let t = swapped(s, i, j);
    assert forall|a: int, b: int| 0 <= a < t.len() && 0 <= b < t.len() && a != b implies t[a]
        != t[b] by {
        let x = if a == i {
            j
        } else if a == j {
            i
        } else {
            a
        };
        let y = if b == i {
            j
        } else if b == j {
            i
        } else {
            b
        };
        assert(t[a] == s[x] && t[b] == s[y]);
        assert(x != y);
    }
    assert(t.no_duplicates());
    assert forall|a: int| 0 <= a < n implies (#[trigger] t[a]) < n by {
        let x = if a == i {
            j
        } else if a == j {
            i
        } else {
            a
        };
        assert(t[a] == s[x]);
    }
}

proof fn lemma_scrambled(s: Seq<usize>, n: nat, i: nat, rng: u64)
    requires
        is_permutation(s, n),
        i < n || n == 0 && i == 0,
    ensures
        is_permutation(scrambled(s, i, rng).0, n),
    decreases i,
{
    if i > 0 {
        let x = xorshift(rng);
        let j = x as int % (i as int + 1);
        lemma_swapped(s, n, i as int, j);
        lemma_scrambled(swapped(s, i as int, j), n, (i - 1) as nat, x);
    }
}

/// A shuffled order holds every place of the queue exactly once, and starts with the
/// track it was told to start with.
pub proof fn law_shuffling_is_a_permutation(n: nat, head: Option<usize>, rng: u64)
    requires
        n <= usize::MAX,
    ensures
        is_permutation(shuffled(n, head, rng), n),
        head matches Some(h) ==> h < n ==> shuffled(n, head, rng)[0] == h,
{
    let start = in_turn(n);
    assert(start.no_duplicates());
    assert(is_permutation(start, n));
    if n > 0 {
        lemma_scrambled(start, n, (n - 1) as nat, rng);
    }
    let s = if n == 0 {
        start
    } else {
        scrambled(start, (n - 1) as nat, rng).0
    };
    if let Some(h) = head {
        lemma_place_of(s, h);
        let at = place_of(s, h) as int;
        if at < s.len() {
            lemma_swapped(s, n, 0, at);
        }
        if h < n {
            lemma_permutation_covers(s, n);
            assert(s.contains(h));
        }
    }
}

/// The state of the generator once `k` numbers have been drawn from it.
pub open spec fn nth_state(rng: u64, k: nat) -> u64
    decreases k,
{
    if k == 0 {
        rng
    } else {
        nth_state(xorshift(rng), (k - 1) as nat)
    }
}

/// A draw for every place: any of the places up to its own.
pub open spec fn is_draws(draws: Seq<nat>, n: nat) -> bool {
    draws.len() == n && forall|i: int| 0 <= i < n ==> #[trigger] draws[i] <= i
}

/// A list dealt out by draws, from place `i` down: what the draw for a place points at
/// goes there.
pub open spec fn dealt(s: Seq<usize>, i: nat, draws: Seq<nat>) -> Seq<usize>
    decreases i,
{
    if i == 0 {
        s
    } else {
        dealt(swapped(s, i as int, draws[i as int] as int), (i - 1) as nat, draws)
    }
}

/// The order of a queue of `n` that draws come to.
pub open spec fn order_by(draws: Seq<nat>, n: nat) -> Seq<usize> {
    if n == 0 {
        seq![]
    } else {
        dealt(in_turn(n), (n - 1) as nat, draws)
    }
}

proof fn lemma_dealt(s: Seq<usize>, i: nat, draws: Seq<nat>)
    requires
        i < s.len(),
        is_draws(draws, s.len()),
    ensures
        dealt(s, i, draws).len() == s.len(),
        forall|k: int| i < k < s.len() ==> #[trigger] dealt(s, i, draws)[k] == s[k],
        i > 0 ==> dealt(s, i, draws)[i as int] == s[draws[i as int] as int],
    decreases i,
{
    if i > 0 {
        assert(draws[i as int] <= i);
        let t = swapped(s, i as int, draws[i as int] as int);
        lemma_dealt(t, (i - 1) as nat, draws);
        assert forall|k: int| i < k < s.len() implies #[trigger] dealt(s, i, draws)[k] == s[k] by {
            assert(dealt(t, (i - 1) as nat, draws)[k] == t[k]);
        }
        assert(dealt(t, (i - 1) as nat, draws)[i as int] == t[i as int]);
    }
}

proof fn lemma_dealt_alike(s: Seq<usize>, i: nat, a: Seq<nat>, b: Seq<nat>)
    requires
        forall|k: int| 1 <= k <= i ==> #[trigger] a[k] == b[k],
    ensures
        dealt(s, i, a) == dealt(s, i, b),
    decreases i,
{
    if i > 0 {
        assert(a[i as int] == b[i as int]);
        lemma_dealt_alike(swapped(s, i as int, a[i as int] as int), (i - 1) as nat, a, b);
    }
}

proof fn lemma_dealt_apart(s: Seq<usize>, i: nat, a: Seq<nat>, b: Seq<nat>)
    requires
        i < s.len(),
        is_permutation(s, s.len()),
        is_draws(a, s.len()),
        is_draws(b, s.len()),
        dealt(s, i, a) == dealt(s, i, b),
    ensures
        forall|k: int| 1 <= k <= i ==> #[trigger] a[k] == b[k],
    decreases i,
{
    if i > 0 {
        lemma_dealt(s, i, a);
        lemma_dealt(s, i, b);
        assert(a[i as int] <= i && b[i as int] <= i);
        assert(a[i as int] == b[i as int]);
        let t = swapped(s, i as int, a[i as int] as int);
        lemma_swapped(s, s.len(), i as int, a[i as int] as int);
        lemma_dealt_apart(t, (i - 1) as nat, a, b);
    }
}

proof fn lemma_dealt_to(s: Seq<usize>, i: nat, to: Seq<usize>) -> (draws: Seq<nat>)
    requires
        i < s.len() <= usize::MAX,
        is_permutation(s, s.len()),
        is_permutation(to, s.len()),
        forall|k: int| i < k < s.len() ==> #[trigger] s[k] == to[k],
    ensures
        is_draws(draws, s.len()),
        dealt(s, i, draws) == to,
    decreases i,
{
    lemma_permutation_covers(s, s.len());
    assert(to[i as int] < s.len());
    assert(s.contains(to[i as int]));
    let j = choose|j: int| 0 <= j < s.len() && s[j] == to[i as int];
    if j > i {
        assert(s[j] == to[j]);
    }
    if i == 0 {
        let draws = Seq::new(s.len(), |k: int| 0nat);
        assert(s =~= to);
        draws
    } else {
        let t = swapped(s, i as int, j);
        lemma_swapped(s, s.len(), i as int, j);
        let rest = lemma_dealt_to(t, (i - 1) as nat, to);
        let draws = rest.update(i as int, j as nat);
        assert forall|k: int| 0 <= k < s.len() implies #[trigger] draws[k] <= k by {
            assert(rest[k] <= k);
        }
        lemma_dealt_alike(t, (i - 1) as nat, rest, draws);
        draws
    }
}

proof fn lemma_in_turn(n: nat)
    requires
        n <= usize::MAX,
    ensures
        is_permutation(in_turn(n), n),
{
    assert(in_turn(n).no_duplicates());
}

/// Every order of a queue can come up: some draws lead to it.
pub proof fn law_every_order_can_come_up(order: Seq<usize>, n: nat)
    requires
        is_permutation(order, n),
        n <= usize::MAX,
    ensures
        exists|draws: Seq<nat>| is_draws(draws, n) && #[trigger] order_by(draws, n) == order,
{
    if n == 0 {
        let draws = Seq::<nat>::empty();
        assert(order_by(draws, n) =~= order);
        assert(is_draws(draws, n));
    } else {
        lemma_in_turn(n);
        let draws = lemma_dealt_to(in_turn(n), (n - 1) as nat, order);
        assert(order_by(draws, n) == order);
    }
}

/// No order is favoured: draws that differ anywhere come to orders that differ.
pub proof fn law_different_draws_give_different_orders(a: Seq<nat>, b: Seq<nat>, n: nat)
    requires
        n <= usize::MAX,
        is_draws(a, n),
        is_draws(b, n),
        a != b,
    ensures
        order_by(a, n) != order_by(b, n),
{
    if n > 0 && order_by(a, n) == order_by(b, n) {
        lemma_in_turn(n);
        lemma_dealt_apart(in_turn(n), (n - 1) as nat, a, b);
        assert(a[0] <= 0 && b[0] <= 0);
    }
    if order_by(a, n) == order_by(b, n) {
        assert(a =~= b);
    }
}

/// What the generator draws for each place of a queue of `n`, the last place first.
pub open spec fn generator_draws(n: nat, rng: u64) -> Seq<nat> {
    Seq::new(n, |i: int| (nth_state(rng, (n - i) as nat) as int % (i + 1)) as nat)
}

proof fn lemma_scrambled_is_dealt(s: Seq<usize>, i: nat, rng: u64, n: nat, first: u64)
    requires
        i < s.len() == n,
        rng == nth_state(first, (n - 1 - i) as nat),
    ensures
        scrambled(s, i, rng).0 == dealt(s, i, generator_draws(n, first)),
        scrambled(s, i, rng).1 == nth_state(first, (n - 1) as nat),
    decreases i,
{
    if i > 0 {
        lemma_nth_next(first, (n - 1 - i) as nat);
        let x = xorshift(rng);
        assert(x == nth_state(first, (n - i) as nat));
        let j = x as int % (i as int + 1);
        assert(generator_draws(n, first)[i as int] == j);
        lemma_scrambled_is_dealt(swapped(s, i as int, j), (i - 1) as nat, x, n, first);
    }
}

proof fn lemma_nth_next(rng: u64, k: nat)
    ensures
        nth_state(rng, k + 1) == xorshift(nth_state(rng, k)),
    decreases k,
{
    if k > 0 {
        lemma_nth_next(xorshift(rng), (k - 1) as nat);
        assert(nth_state(rng, k + 1) == nth_state(xorshift(rng), k));
    } else {
        assert(nth_state(rng, 1) == nth_state(xorshift(rng), 0));
    }
}

/// A shuffle deals the queue out by one number of the generator for each place but the
/// first, the last place first, and leaves the generator after the last number used.
pub proof fn law_a_shuffle_follows_the_generator(n: nat, rng: u64)
    ensures
        ({
            let draws = Seq::new(
                n,
                |i: int| (nth_state(rng, (n - i) as nat) as int % (i + 1)) as nat,
            );
            &&& is_draws(draws, n)
            &&& shuffled(n, None, rng) == order_by(draws, n)
        }),
        shuffled_rng(n, rng) == nth_state(
            rng,
            if n == 0 {
                0
            } else {
                (n - 1) as nat
            },
        ),
{
    let draws = generator_draws(n, rng);
    assert(draws =~= Seq::new(
        n,
        |i: int| (nth_state(rng, (n - i) as nat) as int % (i + 1)) as nat,
    ));
    assert forall|i: int| 0 <= i < n implies #[trigger] draws[i] <= i by {
        let x = nth_state(rng, (n - i) as nat) as int;
        assert(0 <= x % (i + 1) <= i);
    }
    if n == 0 {
        assert(in_turn(0) =~= seq![]);
    } else {
        lemma_scrambled_is_dealt(in_turn(n), (n - 1) as nat, rng, n, rng);
    }
}

/// The last place of a shuffled queue holds the track that the first number drawn
/// points at, unless that track was told to come first.
pub proof fn law_the_first_number_fills_the_last_place(n: nat, head: Option<usize>, rng: u64)
    requires
        2 <= n <= usize::MAX,
        head != Some((xorshift(rng) as int % n as int) as usize),
    ensures
        shuffled(n, head, rng)[n - 1] == xorshift(rng) as int % n as int,
{
    law_a_shuffle_follows_the_generator(n, rng);
    let draws = generator_draws(n, rng);
    assert(draws =~= Seq::new(
        n,
        |i: int| (nth_state(rng, (n - i) as nat) as int % (i + 1)) as nat,
    ));
    lemma_in_turn(n);
    lemma_dealt(in_turn(n), (n - 1) as nat, draws);
    assert(nth_state(rng, 1) == nth_state(xorshift(rng), 0));
    let d = xorshift(rng) as int % n as int;
    assert(draws[n - 1] == d);
    let bare = shuffled(n, None, rng);
    assert(bare[n - 1] == d);
    law_a_head_trades_places(n, head, rng);
}

/// Telling a shuffle what comes first only makes that track trade places with the one
/// that would have come first: everything else stays where it was drawn.
pub proof fn law_a_head_trades_places(n: nat, head: Option<usize>, rng: u64)
    requires
        n <= usize::MAX,
    ensures
        shuffled(n, head, rng).len() == n,
        match head {
            Some(h) if h < n => {
                let bare = shuffled(n, None, rng);
                let order = shuffled(n, head, rng);
                &&& order[0] == h
                &&& forall|i: int|
                    0 < i < n ==> #[trigger] order[i] == (if bare[i] == h {
                        bare[0]
                    } else {
                        bare[i]
                    })
            },
            _ => shuffled(n, head, rng) == shuffled(n, None, rng),
        },
{
    law_shuffling_is_a_permutation(n, None, rng);
    law_shuffling_is_a_permutation(n, head, rng);
    let bare = shuffled(n, None, rng);
    if let Some(h) = head {
        lemma_place_of(bare, h);
        if h < n {
            lemma_permutation_covers(bare, n);
            assert(bare.contains(h));
        } else {
            let at = place_of(bare, h) as int;
            if at < bare.len() {
                assert(bare[at] < n);
            }
        }
    }
}

/// The generator keeps different states apart, and mixes them bit by bit: what comes of
/// two states taken together is what comes of each, taken together.
pub proof fn law_different_seeds_stay_different(x: u64, y: u64)
    requires
        x != y,
    ensures
        xorshift(x) != xorshift(y),
        xorshift(x ^ y) == xorshift(x) ^ xorshift(y),
{
    lemma_xorshift_mixes(x, y);
    assert(x != y ==> x ^ y != 0) by (bit_vector);
    law_the_generator_never_stops(x ^ y);
    let a = xorshift(x);
    assert(a ^ a == 0) by (bit_vector);
}

proof fn lemma_xorshift_mixes(x: u64, y: u64)
    ensures
        xorshift(x ^ y) == xorshift(x) ^ xorshift(y),
{
    assert({
        let z = x ^ y;
        let a = z ^ (z << 13u64);
        let b = a ^ (a >> 7u64);
        let c = x ^ (x << 13u64);
        let d = c ^ (c >> 7u64);
        let e = y ^ (y << 13u64);
        let f = e ^ (e >> 7u64);
        b ^ (b << 17u64) == (d ^ (d << 17u64)) ^ (f ^ (f << 17u64))
    }) by (bit_vector);
}

/// The generator moves on at every step: no state but zero is followed by itself.
pub proof fn law_the_generator_moves_on(x: u64)
    requires
        x != 0,
    ensures
        xorshift(x) != x,
{
    assert(x != 0 ==> {
        let a = x ^ (x << 13u64);
        let b = a ^ (a >> 7u64);
        (b ^ (b << 17u64)) != x
    }) by (bit_vector);
}

/// Without shuffling a queue is played in the order it is listed in, one track after
/// the other, and stops at both ends.
pub proof fn law_an_unshuffled_queue_is_played_as_listed(
    order: Seq<usize>,
    n: nat,
    current: usize,
)
    requires
        current < n <= usize::MAX,
    ensures
        match next_of(false, order, n, current) {
            Some(i) => i == current + 1 && i < n,
            None => current == n - 1,
        },
        match previous_of(false, order, current) {
            Some(i) => i + 1 == current,
            None => current == 0,
        },
{
}

/// Going on and then back leads to where one was, shuffled or not.
pub proof fn law_back_undoes_next(shuffle: bool, order: Seq<usize>, n: nat, current: usize)
    requires
        shuffle ==> is_permutation(order, n),
        current < n,
        n <= usize::MAX,
        next_of(shuffle, order, n, current) is Some,
    ensures
        previous_of(shuffle, order, next_of(shuffle, order, n, current)->0) == Some(current),
{
    if shuffle {
        lemma_place_of(order, current);
        lemma_permutation_covers(order, n);
        assert(order.contains(current));
        let at = place_of(order, current) as int;
        lemma_place_is(order, at + 1);
    }
}

/// Going back and then on leads to where one was, shuffled or not.
pub proof fn law_next_undoes_back(shuffle: bool, order: Seq<usize>, n: nat, current: usize)
    requires
        shuffle ==> is_permutation(order, n),
        current < n,
        n <= usize::MAX,
        previous_of(shuffle, order, current) is Some,
    ensures
        next_of(shuffle, order, n, previous_of(shuffle, order, current)->0) == Some(current),
{
    if shuffle {
        lemma_place_of(order, current);
        let at = place_of(order, current) as int;
        lemma_place_is(order, at - 1);
    }
}

/// A shuffled queue is heard once through: from its head, each track leads to the
/// next place of the order, and the last leads nowhere.
pub proof fn law_a_shuffled_queue_is_heard_once(order: Seq<usize>, n: nat, k: int)
    requires
        is_permutation(order, n),
        0 <= k < n,
    ensures
        next_of(true, order, n, order[k]) == (if k + 1 < n {
            Some(order[k + 1])
        } else {
            None
        }),
{
    lemma_place_is(order, k);
}

// ---------------------------------------------------------------------------

/// Where `x` is in `order`.
pub fn place(order: &Vec<usize>, x: usize) -> (r: Option<usize>)
    ensures
        match r {
            Some(at) => at < order@.len() && place_of(order@, x) == at,
            None => place_of(order@, x) == order@.len(),
        },
{
    let mut i: usize = 0;
    assert(order@.skip(0) =~= order@);
    while i < order.len()
        invariant
            i <= order@.len(),
            place_of(order@, x) == i + place_of(order@.skip(i as int), x),
        decreases order@.len() - i,
    {
        assert(order@.skip(i as int)[0] == order@[i as int]);
        if order[i] == x {
            return Some(i);
        }
        assert(order@.skip(i as int).skip(1) =~= order@.skip(i as int + 1));
        i = i + 1;
    }
    assert(order@.skip(i as int).len() == 0);
    None
}

fn swap(order: &mut Vec<usize>, i: usize, j: usize)
    requires
        i < old(order)@.len(),
        j < old(order)@.len(),
    ensures
        final(order)@ == swapped(old(order)@, i as int, j as int),
{
    let a: usize = order[i];
    let b: usize = order[j];
    order.set(i, b);
    order.set(j, a);
}

/// A fresh order for a queue of `n`, `head` first when it is given.
pub fn reshuffle(n: usize, head: Option<usize>, rng: &mut Rng) -> (order: Vec<usize>)
    ensures
        order@ == shuffled(n as nat, head, old(rng).state),
        final(rng).state == shuffled_rng(n as nat, old(rng).state),
{
    let mut order: Vec<usize> = Vec::new();
    let mut k: usize = 0;
    while k < n
        invariant
            k <= n,
            order@ == in_turn(k as nat),
        decreases n - k,
    {
        order.push(k);
        k = k + 1;
        assert(order@ =~= in_turn(k as nat));
    }
    let ghost start = order@;
    let ghost seed = rng.state;
    if n > 0 {
        // Fisher-Yates, back to front.
        let mut i: usize = n - 1;
        while i > 0
            invariant
                i < n,
                order@.len() == n,
                scrambled(order@, i as nat, rng.state) == scrambled(start, (n - 1) as nat, seed),
            decreases i,
        {
            let j: usize = rng.below(i + 1);
            swap(&mut order, i, j);
            i = i - 1;
        }
    }
    // Swapping rather than removing and re-inserting: the displaced entry takes the
    // head's old slot, which is as good a place as any.
    if let Some(h) = head {
        proof {
            lemma_place_of(order@, h);
        }
        if let Some(at) = place(&order, h) {
            swap(&mut order, 0, at);
        }
    }
    order
}

/// What follows `current` in a queue of `n`.
pub fn following(shuffle: bool, order: &Vec<usize>, n: usize, current: usize) -> (r: Option<usize>)
    ensures
        r == next_of(shuffle, order@, n as nat, current),
{
    if !shuffle {
        if current < n && current + 1 < n {
            Some(current + 1)
        } else {
            None
        }
    } else {
        let len: usize = order.len();
        match place(order, current) {
            Some(at) => if at + 1 < len {
                Some(order[at + 1])
            } else {
                None
            },
            None => None,
        }
    }
}

/// What came before `current`.
pub fn preceding(shuffle: bool, order: &Vec<usize>, current: usize) -> (r: Option<usize>)
    ensures
        r == previous_of(shuffle, order@, current),
{
    if !shuffle {
        if current > 0 {
            Some(current - 1)
        } else {
            None
        }
    } else {
        match place(order, current) {
            Some(at) => if at > 0 {
                Some(order[at - 1])
            } else {
                None
            },
            None => None,
        }
    }
}

} // verus!
