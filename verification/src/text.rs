//! Text as sequences of characters: trimming, splitting, and numbers in decimal.
//!
//! Everything the player writes to disk or reads from it is plain text, so the
//! formats elsewhere in the crate are stated over the functions defined here.

use vstd::prelude::*;
use vstd::std_specs::iter::IteratorSpec;

verus! {

/// `String::push` appends one character at the end.
pub assume_specification[ String::push ](s: &mut String, ch: char)
    ensures
        final(s)@ == old(s)@.push(ch),
;

/// The characters Unicode calls white space.
pub open spec fn is_space(c: char) -> bool {
    let n = c as int;
    ||| 0x09 <= n <= 0x0d
    ||| n == 0x20
    ||| n == 0x85
    ||| n == 0xa0
    ||| n == 0x1680
    ||| 0x2000 <= n <= 0x200a
    ||| n == 0x2028
    ||| n == 0x2029
    ||| n == 0x202f
    ||| n == 0x205f
    ||| n == 0x3000
}

/// The number of a character.
pub fn code(c: char) -> (n: u32)
    ensures
        n == c as int,
{
    c as u32
}

/// True for white space.
pub fn space(c: char) -> (b: bool)
    ensures
        b == is_space(c),
{
    let n: u32 = c as u32;
    (0x09 <= n && n <= 0x0d) || n == 0x20 || n == 0x85 || n == 0xa0 || n == 0x1680 || (0x2000 <= n
        && n <= 0x200a) || n == 0x2028 || n == 0x2029 || n == 0x202f || n == 0x205f || n == 0x3000
}

/// Without the white space in front.
pub open spec fn trimmed_start(s: Seq<char>) -> Seq<char>
    decreases s.len(),
{
    if s.len() > 0 && is_space(s[0]) {
        trimmed_start(s.skip(1))
    } else {
        s
    }
}

/// Without the white space behind.
pub open spec fn trimmed_end(s: Seq<char>) -> Seq<char>
    decreases s.len(),
{
    if s.len() > 0 && is_space(s.last()) {
        trimmed_end(s.drop_last())
    } else {
        s
    }
}

/// Without white space at either end.
pub open spec fn trimmed(s: Seq<char>) -> Seq<char> {
    trimmed_end(trimmed_start(s))
}

/// Nothing for [`trimmed`] to take away.
pub open spec fn is_trimmed(s: Seq<char>) -> bool {
    s.len() > 0 ==> !is_space(s[0]) && !is_space(s.last())
}

/// How far into `s` the first `c` is; the length of `s` when there is none.
pub open spec fn find(s: Seq<char>, c: char) -> nat
    decreases s.len(),
{
    if s.len() == 0 || s[0] == c {
        0
    } else {
        1 + find(s.skip(1), c)
    }
}

/// Before and after the first `c`.
pub open spec fn halves(s: Seq<char>, c: char) -> Option<(Seq<char>, Seq<char>)> {
    let i = find(s, c) as int;
    if i < s.len() {
        Some((s.take(i), s.skip(i + 1)))
    } else {
        None
    }
}

/// The pieces between the `c`s; always at least one.
pub open spec fn pieces(s: Seq<char>, c: char) -> Seq<Seq<char>>
    decreases s.len(),
{
    let i = find(s, c) as int;
    if i < s.len() {
        seq![s.take(i)] + pieces(s.skip(i + 1), c)
    } else {
        seq![s]
    }
}

/// Pieces put together with `sep` between them.
pub open spec fn joined(parts: Seq<Seq<char>>, sep: Seq<char>) -> Seq<char>
    decreases parts.len(),
{
    if parts.len() == 0 {
        seq![]
    } else if parts.len() == 1 {
        parts[0]
    } else {
        parts[0] + sep + joined(parts.skip(1), sep)
    }
}

/// Without one carriage return at the end.
pub open spec fn without_cr(s: Seq<char>) -> Seq<char> {
    if s.len() > 0 && s.last() == '\r' {
        s.drop_last()
    } else {
        s
    }
}

/// The lines of a text. A newline ends a line, so the last one needs none, and a
/// carriage return before it belongs to the line ending.
pub open spec fn lines_of(s: Seq<char>) -> Seq<Seq<char>>
    decreases s.len(),
{
    if s.len() == 0 {
        seq![]
    } else {
        let i = find(s, '\n') as int;
        if i < s.len() {
            seq![without_cr(s.take(i))] + lines_of(s.skip(i + 1))
        } else {
            seq![s]
        }
    }
}

/// `s` begins with `prefix`.
pub open spec fn has_prefix(s: Seq<char>, prefix: Seq<char>) -> bool {
    prefix.len() <= s.len() && s.take(prefix.len() as int) == prefix
}

/// What follows `prefix` in `s`.
pub open spec fn after_prefix(s: Seq<char>, prefix: Seq<char>) -> Option<Seq<char>> {
    if has_prefix(s, prefix) {
        Some(s.skip(prefix.len() as int))
    } else {
        None
    }
}

/// Without any `c` in front.
pub open spec fn stripped_start(s: Seq<char>, c: char) -> Seq<char>
    decreases s.len(),
{
    if s.len() > 0 && s[0] == c {
        stripped_start(s.skip(1), c)
    } else {
        s
    }
}

/// Without any `c` behind.
pub open spec fn stripped_end(s: Seq<char>, c: char) -> Seq<char>
    decreases s.len(),
{
    if s.len() > 0 && s.last() == c {
        stripped_end(s.drop_last(), c)
    } else {
        s
    }
}

/// ASCII letters made small, everything else as it is.
pub open spec fn lower_char(c: char) -> char {
    if 'A' <= c <= 'Z' {
        ((c as int + 32) as u8) as char
    } else {
        c
    }
}

/// [`lower_char`] throughout.
pub open spec fn lowered(s: Seq<char>) -> Seq<char> {
    Seq::new(s.len(), |i: int| lower_char(s[i]))
}

/// What a list of strings holds.
pub open spec fn views(v: Seq<String>) -> Seq<Seq<char>> {
    Seq::new(v.len(), |i: int| v[i]@)
}

/// What an optional string holds.
pub open spec fn opt_view(o: Option<String>) -> Option<Seq<char>> {
    match o {
        Some(s) => Some(s@),
        None => None,
    }
}

/// `a` comes before `b` in the order of their characters.
pub open spec fn before(a: Seq<char>, b: Seq<char>) -> bool
    decreases a.len(),
{
    if b.len() == 0 {
        false
    } else if a.len() == 0 {
        true
    } else if a[0] != b[0] {
        a[0] < b[0]
    } else {
        before(a.skip(1), b.skip(1))
    }
}

// ---------------------------------------------------------------------------
// Numbers
// ---------------------------------------------------------------------------

/// The character for a digit.
pub open spec fn digit(d: nat) -> char {
    ((48 + d) as u8) as char
}

/// A number in decimal.
pub open spec fn decimal(n: nat) -> Seq<char>
    decreases n,
{
    if n < 10 {
        seq![digit(n)]
    } else {
        decimal(n / 10).push(digit(n % 10))
    }
}

/// `0` to `9`.
pub open spec fn is_digit(c: char) -> bool {
    '0' <= c <= '9'
}

/// Nothing but digits.
pub open spec fn all_digits(s: Seq<char>) -> bool {
    forall|i: int| 0 <= i < s.len() ==> is_digit(#[trigger] s[i])
}

/// What a run of digits is worth.
pub open spec fn worth(s: Seq<char>) -> nat
    decreases s.len(),
{
    if s.len() == 0 {
        0
    } else {
        worth(s.drop_last()) * 10 + ((s.last() as int - 48) as nat)
    }
}

/// A number from its text, as the standard library reads unsigned integers: an
/// optional plus sign, then digits, and no more than `max`.
pub open spec fn number(s: Seq<char>, max: nat) -> Option<nat> {
    let body = if s.len() > 0 && s[0] == '+' {
        s.skip(1)
    } else {
        s
    };
    if body.len() > 0 && all_digits(body) && worth(body) <= max {
        Some(worth(body))
    } else {
        None
    }
}

// ---------------------------------------------------------------------------
// Facts
// ---------------------------------------------------------------------------

pub proof fn lemma_find(s: Seq<char>, c: char)
    ensures
        find(s, c) <= s.len(),
        find(s, c) < s.len() ==> s[find(s, c) as int] == c,
        forall|i: int| 0 <= i < find(s, c) ==> #[trigger] s[i] != c,
    decreases s.len(),
{
    if s.len() > 0 && s[0] != c {
        lemma_find(s.skip(1), c);
        assert forall|i: int| 0 <= i < find(s, c) implies #[trigger] s[i] != c by {
            if i > 0 {
                assert(s.skip(1)[i - 1] == s[i]);
            }
        }
    }
}

/// The position that [`find`] gives is settled by its own properties.
pub proof fn lemma_find_is(s: Seq<char>, c: char, at: nat)
    requires
        at <= s.len(),
        at < s.len() ==> s[at as int] == c,
        forall|i: int| 0 <= i < at ==> #[trigger] s[i] != c,
    ensures
        find(s, c) == at,
{
    lemma_find(s, c);
    let f = find(s, c);
    if f < at {
        assert(s[f as int] != c);
    } else if at < f {
        assert(s[at as int] != c);
    }
}

pub proof fn lemma_trimmed_start(s: Seq<char>)
    ensures
        trimmed_start(s).len() <= s.len(),
        trimmed_start(s) == s.skip(s.len() - trimmed_start(s).len()),
        trimmed_start(s).len() > 0 ==> !is_space(trimmed_start(s)[0]) && trimmed_start(s).last()
            == s.last(),
    decreases s.len(),
{
    if s.len() > 0 && is_space(s[0]) {
        lemma_trimmed_start(s.skip(1));
        let r = trimmed_start(s.skip(1));
        assert(s.skip(1).skip(s.len() - 1 - r.len()) =~= s.skip(s.len() - r.len()));
    } else {
        assert(s.skip(0) =~= s);
    }
}

pub proof fn lemma_trimmed_end(s: Seq<char>)
    ensures
        trimmed_end(s).len() <= s.len(),
        trimmed_end(s) == s.take(trimmed_end(s).len() as int),
        trimmed_end(s).len() > 0 ==> !is_space(trimmed_end(s).last()) && trimmed_end(s)[0] == s[0],
    decreases s.len(),
{
    if s.len() > 0 && is_space(s.last()) {
        lemma_trimmed_end(s.drop_last());
        let r = trimmed_end(s.drop_last());
        assert(s.drop_last().take(r.len() as int) =~= s.take(r.len() as int));
    } else {
        assert(s.take(s.len() as int) =~= s);
    }
}

/// Trimming twice is trimming once, and what is trimmed already stays.
pub proof fn lemma_trimmed(s: Seq<char>)
    ensures
        is_trimmed(trimmed(s)),
        is_trimmed(s) ==> trimmed(s) == s,
        trimmed(s).len() <= s.len(),
{
    lemma_trimmed_start(s);
    lemma_trimmed_end(trimmed_start(s));
}

pub proof fn lemma_digit(d: nat)
    requires
        d < 10,
    ensures
        is_digit(digit(d)),
        digit(d) as int == 48 + d,
        !is_space(digit(d)),
        digit(d) != '\n',
        digit(d) != '\r',
{
}

/// A number reads back from its decimal form.
pub proof fn lemma_decimal(n: nat)
    ensures
        decimal(n).len() > 0,
        all_digits(decimal(n)),
        worth(decimal(n)) == n,
    decreases n,
{
    if n < 10 {
        lemma_digit(n);
        let s = seq![digit(n)];
        assert(s.drop_last() =~= seq![]);
        assert(worth(s.drop_last()) == 0);
    } else {
        lemma_decimal(n / 10);
        lemma_digit(n % 10);
        let s = decimal(n);
        assert(s.drop_last() =~= decimal(n / 10));
        assert forall|i: int| 0 <= i < s.len() implies is_digit(#[trigger] s[i]) by {
            if i < s.len() - 1 {
                assert(s[i] == decimal(n / 10)[i]);
            }
        }
    }
}

/// Reading back what [`decimal`] wrote gives the number again.
pub proof fn lemma_number_of_decimal(n: nat, max: nat)
    requires
        n <= max,
    ensures
        number(decimal(n), max) == Some(n),
{
    lemma_decimal(n);
    assert(is_digit(decimal(n)[0]));
}

/// A prefix of digits is worth no more than the whole.
pub proof fn lemma_worth_grows(s: Seq<char>, k: int)
    requires
        0 <= k <= s.len(),
        all_digits(s),
    ensures
        worth(s.take(k)) <= worth(s),
    decreases s.len(),
{
    if k == s.len() {
        assert(s.take(k) =~= s);
    } else {
        let t = s.drop_last();
        assert(all_digits(t)) by {
            assert forall|i: int| 0 <= i < t.len() implies is_digit(#[trigger] t[i]) by {
                assert(t[i] == s[i]);
            }
        }
        lemma_worth_grows(t, k);
        assert(t.take(k) =~= s.take(k));
        assert(is_digit(s[s.len() - 1]));
    }
}

/// A text with a line in front has that line first.
pub proof fn lemma_lines_cons(line: Seq<char>, rest: Seq<char>)
    requires
        !line.contains('\n'),
    ensures
        lines_of(line + seq!['\n'] + rest) == seq![without_cr(line)] + lines_of(rest),
{
    let s = line + seq!['\n'] + rest;
    assert(s[line.len() as int] == '\n');
    assert forall|i: int| 0 <= i < line.len() implies #[trigger] s[i] != '\n' by {
        assert(s[i] == line[i]);
        assert(line.contains(line[i]));
    }
    lemma_find_is(s, '\n', line.len());
    assert(s.take(line.len() as int) =~= line);
    assert(s.skip(line.len() as int + 1) =~= rest);
}

/// Splitting at the first `c` undoes joining on it.
pub proof fn lemma_halves_cons(a: Seq<char>, c: char, b: Seq<char>)
    requires
        !a.contains(c),
    ensures
        halves(a + seq![c] + b, c) == Some((a, b)),
{
    let s = a + seq![c] + b;
    assert(s[a.len() as int] == c);
    assert forall|i: int| 0 <= i < a.len() implies #[trigger] s[i] != c by {
        assert(s[i] == a[i]);
        assert(a.contains(a[i]));
    }
    lemma_find_is(s, c, a.len());
    assert(s.take(a.len() as int) =~= a);
    assert(s.skip(a.len() as int + 1) =~= b);
}

// ---------------------------------------------------------------------------
// The same, computed
// ---------------------------------------------------------------------------

/// The characters of a string.
pub fn chars_of(s: &str) -> (v: Vec<char>)
    ensures
        v@ == s@,
{
    let mut it = s.chars();
    let mut v: Vec<char> = Vec::new();
    loop
        invariant
            v@ + it.remaining() == s@,
            it.decrease() is Some,
        ensures
            v@ == s@,
        decreases it.decrease()->0,
    {
        let ghost rest = it.remaining();
        match it.next() {
            Some(c) => {
                v.push(c);
                assert(v@ + it.remaining() =~= s@);
            },
            None => {
                assert(v@ =~= s@);
                break;
            },
        }
    }
    v
}

/// A stretch of characters as a string.
pub fn string_of(v: &Vec<char>, from: usize, to: usize) -> (s: String)
    requires
        from <= to <= v@.len(),
    ensures
        s@ == v@.subrange(from as int, to as int),
{
    let mut s = String::new();
    let mut i: usize = from;
    assert(s@ =~= v@.subrange(from as int, from as int));
    while i < to
        invariant
            from <= i <= to <= v@.len(),
            s@ == v@.subrange(from as int, i as int),
        decreases to - i,
    {
        s.push(v[i]);
        i = i + 1;
        assert(s@ =~= v@.subrange(from as int, i as int));
    }
    s
}

/// Equality of text.
pub fn same(a: &str, b: &str) -> (r: bool)
    ensures
        r == (a@ == b@),
{
    let x = a.to_owned();
    let y = b.to_owned();
    x == y
}

/// The first `c` at or after `from`; the length when there is none.
pub fn find_from(v: &Vec<char>, from: usize, c: char) -> (at: usize)
    requires
        from <= v@.len(),
    ensures
        at == from + find(v@.skip(from as int), c),
        from <= at <= v@.len(),
{
    let mut i: usize = from;
    while i < v.len() && v[i] != c
        invariant
            from <= i <= v@.len(),
            forall|k: int| from <= k < i ==> #[trigger] v@[k] != c,
        decreases v@.len() - i,
    {
        i = i + 1;
    }
    proof {
        let s = v@.skip(from as int);
        assert forall|k: int| 0 <= k < i - from implies #[trigger] s[k] != c by {
            assert(s[k] == v@[k + from]);
        }
        lemma_find_is(s, c, (i - from) as nat);
    }
    i
}

/// Text without white space at either end.
pub fn trim<'a>(s: &'a str) -> (r: &'a str)
    ensures
        r@ == trimmed(s@),
{
    let v = chars_of(s);
    let mut a: usize = 0;
    assert(s@.skip(0) =~= s@);
    while a < v.len() && space(v[a])
        invariant
            a <= v@.len(),
            v@ == s@,
            trimmed_start(s@) == trimmed_start(s@.skip(a as int)),
        decreases v@.len() - a,
    {
        assert(s@.skip(a as int).skip(1) =~= s@.skip(a as int + 1));
        a = a + 1;
    }
    let ghost t = s@.skip(a as int);
    assert(trimmed_start(t) == t);
    let mut b: usize = v.len();
    assert(t.take(t.len() as int) =~= t);
    while b > a && space(v[b - 1])
        invariant
            a <= b <= v@.len(),
            v@ == s@,
            t == s@.skip(a as int),
            trimmed_end(t) == trimmed_end(t.take(b - a)),
        decreases b,
    {
        assert(t.take(b - a).drop_last() =~= t.take(b - a - 1));
        b = b - 1;
    }
    assert(t.take(b - a) =~= s@.subrange(a as int, b as int));
    s.substring_char(a, b)
}

/// Text before and after the first `c`.
pub fn split_once<'a>(s: &'a str, c: char) -> (r: Option<(&'a str, &'a str)>)
    ensures
        match r {
            Some((a, b)) => halves(s@, c) == Some((a@, b@)),
            None => halves(s@, c) is None,
        },
{
    let v = chars_of(s);
    let at: usize = find_from(&v, 0, c);
    assert(v@.skip(0) =~= v@);
    if at < v.len() {
        proof {
            assert(s@.take(at as int) =~= s@.subrange(0, at as int));
            assert(s@.skip(at as int + 1) =~= s@.subrange(at as int + 1, s@.len() as int));
        }
        Some((s.substring_char(0, at), s.substring_char(at + 1, v.len())))
    } else {
        None
    }
}

/// The pieces of `s` between the `c`s.
pub fn split(s: &str, c: char) -> (r: Vec<String>)
    ensures
        views(r@) == pieces(s@, c),
{
    let v = chars_of(s);
    let mut out: Vec<String> = Vec::new();
    let mut start: usize = 0;
    proof {
        assert(s@.skip(0) =~= s@);
        assert(views(out@) + pieces(s@, c) =~= pieces(s@, c));
    }
    loop
        invariant_except_break
            views(out@) + pieces(s@.skip(start as int), c) == pieces(s@, c),
        invariant
            start <= v@.len(),
            v@ == s@,
        ensures
            views(out@) == pieces(s@, c),
        decreases v@.len() - start,
    {
        let at: usize = find_from(&v, start, c);
        let ghost rest = s@.skip(start as int);
        let ghost was = out@;
        out.push(string_of(&v, start, at));
        proof {
            assert(rest.take(at - start) =~= s@.subrange(start as int, at as int));
            assert(views(out@) =~= views(was).push(s@.subrange(start as int, at as int)));
        }
        if at < v.len() {
            proof {
                assert(rest.skip(at - start + 1) =~= s@.skip(at as int + 1));
                assert(views(out@) + pieces(s@.skip(at as int + 1), c) =~= views(was) + pieces(
                    rest,
                    c,
                ));
            }
            start = at + 1;
        } else {
            proof {
                assert(rest.take(at - start) =~= rest);
                assert(views(out@) =~= views(was) + pieces(rest, c));
            }
            break;
        }
    }
    out
}

/// The lines of a text.
pub fn lines(s: &str) -> (r: Vec<String>)
    ensures
        views(r@) == lines_of(s@),
{
    let v = chars_of(s);
    let mut out: Vec<String> = Vec::new();
    let mut start: usize = 0;
    proof {
        assert(s@.skip(0) =~= s@);
        assert(views(out@) + lines_of(s@) =~= lines_of(s@));
    }
    while start < v.len()
        invariant
            start <= v@.len(),
            v@ == s@,
            views(out@) + lines_of(s@.skip(start as int)) == lines_of(s@),
        decreases v@.len() - start,
    {
        let at: usize = find_from(&v, start, '\n');
        let ghost rest = s@.skip(start as int);
        let ghost was = out@;
        if at < v.len() {
            let mut end: usize = at;
            let ghost line = rest.take(at - start);
            if end > start && v[end - 1] == '\r' {
                end = end - 1;
                assert(line.last() == '\r');
                assert(line.drop_last() =~= s@.subrange(start as int, end as int));
            } else {
                if at > start {
                    assert(line.last() == v@[at - 1]);
                }
                assert(line =~= s@.subrange(start as int, end as int));
            }
            out.push(string_of(&v, start, end));
            proof {
                assert(views(out@) =~= views(was).push(without_cr(line)));
                assert(rest.skip(at - start + 1) =~= s@.skip(at as int + 1));
                assert(views(out@) + lines_of(s@.skip(at as int + 1)) =~= views(was) + lines_of(
                    rest,
                ));
            }
            start = at + 1;
        } else {
            out.push(string_of(&v, start, at));
            proof {
                assert(s@.subrange(start as int, at as int) =~= rest);
                assert(views(out@) =~= views(was).push(rest));
                assert(s@.skip(at as int) =~= seq![]);
                assert(views(out@) + lines_of(s@.skip(at as int)) =~= views(was) + lines_of(rest));
            }
            start = at;
        }
    }
    proof {
        assert(s@.skip(start as int) =~= seq![]);
        assert(views(out@) + lines_of(s@.skip(start as int)) =~= views(out@));
    }
    out
}

/// True when `s` begins with `prefix`.
pub fn starts_with(s: &str, prefix: &str) -> (b: bool)
    ensures
        b == has_prefix(s@, prefix@),
{
    strip_prefix(s, prefix).is_some()
}

/// What follows `prefix`, when `s` begins with it.
pub fn strip_prefix<'a>(s: &'a str, prefix: &str) -> (r: Option<&'a str>)
    ensures
        match r {
            Some(rest) => after_prefix(s@, prefix@) == Some(rest@),
            None => after_prefix(s@, prefix@) is None,
        },
{
    let v = chars_of(s);
    let p = chars_of(prefix);
    if p.len() > v.len() {
        return None;
    }
    let mut i: usize = 0;
    while i < p.len()
        invariant
            i <= p@.len() <= v@.len(),
            v@ == s@,
            p@ == prefix@,
            s@.take(i as int) == prefix@.take(i as int),
        decreases p@.len() - i,
    {
        if v[i] != p[i] {
            proof {
                if has_prefix(s@, prefix@) {
                    assert(s@.take(prefix@.len() as int)[i as int] == prefix@[i as int]);
                }
            }
            return None;
        }
        i = i + 1;
        proof {
            assert(s@.take(i as int) =~= s@.take(i - 1).push(s@[i - 1]));
            assert(prefix@.take(i as int) =~= prefix@.take(i - 1).push(prefix@[i - 1]));
        }
    }
    proof {
        assert(prefix@.take(i as int) =~= prefix@);
        assert(s@.skip(i as int) =~= s@.subrange(i as int, s@.len() as int));
    }
    Some(s.substring_char(i, v.len()))
}

/// Text without any `c` in front.
pub fn strip_start<'a>(s: &'a str, c: char) -> (r: &'a str)
    ensures
        r@ == stripped_start(s@, c),
{
    let v = chars_of(s);
    let mut a: usize = 0;
    assert(s@.skip(0) =~= s@);
    while a < v.len() && v[a] == c
        invariant
            a <= v@.len(),
            v@ == s@,
            stripped_start(s@, c) == stripped_start(s@.skip(a as int), c),
        decreases v@.len() - a,
    {
        assert(s@.skip(a as int).skip(1) =~= s@.skip(a as int + 1));
        a = a + 1;
    }
    assert(s@.skip(a as int) =~= s@.subrange(a as int, s@.len() as int));
    s.substring_char(a, v.len())
}

/// Text without any `c` behind.
pub fn strip_end<'a>(s: &'a str, c: char) -> (r: &'a str)
    ensures
        r@ == stripped_end(s@, c),
{
    let v = chars_of(s);
    let mut b: usize = v.len();
    assert(s@.take(s@.len() as int) =~= s@);
    while b > 0 && v[b - 1] == c
        invariant
            b <= v@.len(),
            v@ == s@,
            stripped_end(s@, c) == stripped_end(s@.take(b as int), c),
        decreases b,
    {
        assert(s@.take(b as int).drop_last() =~= s@.take(b - 1));
        b = b - 1;
    }
    assert(s@.take(b as int) =~= s@.subrange(0, b as int));
    s.substring_char(0, b)
}

/// True when `c` occurs in `s`.
pub fn contains_char(s: &str, c: char) -> (b: bool)
    ensures
        b == s@.contains(c),
{
    let v = chars_of(s);
    let at: usize = find_from(&v, 0, c);
    proof {
        assert(v@.skip(0) =~= v@);
        lemma_find(s@, c);
        if at < v.len() {
            assert(s@[at as int] == c);
        } else if s@.contains(c) {
            let i = choose|i: int| 0 <= i < s@.len() && s@[i] == c;
            assert(s@[i] != c);
        }
    }
    at < v.len()
}

/// ASCII letters made small.
pub fn lower(s: &str) -> (r: String)
    ensures
        r@ == lowered(s@),
{
    let v = chars_of(s);
    let mut r = String::new();
    let mut i: usize = 0;
    while i < v.len()
        invariant
            i <= v@.len(),
            v@ == s@,
            r@ == lowered(s@).take(i as int),
        decreases v@.len() - i,
    {
        let c = v[i];
        if 'A' <= c && c <= 'Z' {
            let n: u8 = c as u8;
            let m: u8 = n + 32;
            r.push(m as char);
        } else {
            r.push(c);
        }
        i = i + 1;
        assert(r@ =~= lowered(s@).take(i as int));
    }
    assert(lowered(s@).take(i as int) =~= lowered(s@));
    r
}

/// True when `a` comes before `b`.
pub fn is_before(a: &str, b: &str) -> (r: bool)
    ensures
        r == before(a@, b@),
{
    let x = chars_of(a);
    let y = chars_of(b);
    let mut i: usize = 0;
    proof {
        assert(a@.skip(0) =~= a@);
        assert(b@.skip(0) =~= b@);
    }
    while i < x.len() && i < y.len() && x[i] == y[i]
        invariant
            i <= x@.len(),
            i <= y@.len(),
            x@ == a@,
            y@ == b@,
            before(a@, b@) == before(a@.skip(i as int), b@.skip(i as int)),
        decreases x@.len() - i,
    {
        proof {
            assert(a@.skip(i as int)[0] == a@[i as int]);
            assert(b@.skip(i as int)[0] == b@[i as int]);
            assert(a@.skip(i as int).skip(1) =~= a@.skip(i as int + 1));
            assert(b@.skip(i as int).skip(1) =~= b@.skip(i as int + 1));
        }
        i = i + 1;
    }
    if i == y.len() {
        return false;
    }
    if i == x.len() {
        return true;
    }
    proof {
        assert(a@.skip(i as int)[0] == a@[i as int]);
        assert(b@.skip(i as int)[0] == b@[i as int]);
    }
    x[i] < y[i]
}

/// A number in decimal.
pub fn print(n: u64) -> (s: String)
    ensures
        s@ == decimal(n as nat),
    decreases n,
{
    let d: u8 = (n % 10) as u8;
    let c: u8 = 48 + d;
    if n < 10 {
        let mut s = String::new();
        s.push(c as char);
        assert(s@ =~= decimal(n as nat));
        s
    } else {
        let mut s = print(n / 10);
        s.push(c as char);
        s
    }
}

/// A number from its text, no larger than `max`.
pub fn parse(s: &str, max: u64) -> (r: Option<u64>)
    ensures
        match r {
            Some(n) => number(s@, max as nat) == Some(n as nat),
            None => number(s@, max as nat) is None,
        },
{
    let v = chars_of(s);
    let mut i: usize = 0;
    if v.len() > 0 && v[0] == '+' {
        i = 1;
    }
    let start: usize = i;
    if i == v.len() {
        return None;
    }
    let mut n: u64 = 0;
    let ghost body = s@.skip(start as int);
    proof {
        assert(s@.skip(0) =~= s@);
        assert(body.take(0) =~= seq![]);
    }
    while i < v.len()
        invariant
            start <= i <= v@.len(),
            start < v@.len(),
            v@ == s@,
            body == s@.skip(start as int),
            body == (if s@.len() > 0 && s@[0] == '+' {
                s@.skip(1)
            } else {
                s@
            }),
            all_digits(body.take(i - start)),
            n == worth(body.take(i - start)),
            n <= max,
        decreases v@.len() - i,
    {
        let c = v[i];
        proof {
            assert(body[i - start] == c);
        }
        if c < '0' || c > '9' {
            return None;
        }
        let d: u64 = (c as u8 - 48) as u64;
        proof {
            let t = body.take(i - start + 1);
            assert(t.drop_last() =~= body.take(i - start));
            assert(t.last() == c);
            assert(worth(t) == n * 10 + d);
            assert(body.take(i - start + 1).len() <= body.len());
            if all_digits(body) {
                lemma_worth_grows(body, i - start + 1);
            }
            assert forall|k: int| 0 <= k < t.len() implies is_digit(#[trigger] t[k]) by {
                if k < t.len() - 1 {
                    assert(t[k] == body.take(i - start)[k]);
                }
            }
        }
        if n > max / 10 || d > max - n * 10 {
            proof {
                assert(n * 10 + d > max) by (nonlinear_arith)
                    requires
                        n > max / 10 || d > max - n * 10,
                        d >= 0,
                        max >= 0,
                ;
            }
            return None;
        }
        n = n * 10 + d;
        i = i + 1;
    }
    assert(body.take(i - start) =~= body);
    Some(n)
}

/// Appends text to text.
pub fn push_str(s: &mut String, more: &str)
    ensures
        final(s)@ == old(s)@ + more@,
{
    s.append(more);
}

/// Two texts, one after the other.
pub fn cat2(a: &str, b: &str) -> (r: String)
    ensures
        r@ == a@ + b@,
{
    let mut r = a.to_owned();
    push_str(&mut r, b);
    r
}

/// Three texts, one after the other.
pub fn cat3(a: &str, b: &str, c: &str) -> (r: String)
    ensures
        r@ == a@ + b@ + c@,
{
    let mut r = cat2(a, b);
    push_str(&mut r, c);
    r
}

/// Four texts, one after the other.
pub fn cat4(a: &str, b: &str, c: &str, d: &str) -> (r: String)
    ensures
        r@ == a@ + b@ + c@ + d@,
{
    let mut r = cat3(a, b, c);
    push_str(&mut r, d);
    r
}

/// Five texts, one after the other.
pub fn cat5(a: &str, b: &str, c: &str, d: &str, e: &str) -> (r: String)
    ensures
        r@ == a@ + b@ + c@ + d@ + e@,
{
    let mut r = cat4(a, b, c, d);
    push_str(&mut r, e);
    r
}

/// Without any `c` at either end.
pub open spec fn stripped(s: Seq<char>, c: char) -> Seq<char> {
    stripped_end(stripped_start(s, c), c)
}

/// Text without any `c` at either end.
pub fn strip<'a>(s: &'a str, c: char) -> (r: &'a str)
    ensures
        r@ == stripped(s@, c),
{
    strip_end(strip_start(s, c), c)
}

/// Nothing for [`stripped`] to take away.
pub open spec fn is_stripped(s: Seq<char>, c: char) -> bool {
    s.len() > 0 ==> s[0] != c && s.last() != c
}

pub proof fn lemma_stripped_start(s: Seq<char>, c: char)
    ensures
        stripped_start(s, c).len() <= s.len(),
        stripped_start(s, c) == s.skip(s.len() - stripped_start(s, c).len()),
        stripped_start(s, c).len() > 0 ==> stripped_start(s, c)[0] != c && stripped_start(
            s,
            c,
        ).last() == s.last(),
    decreases s.len(),
{
    if s.len() > 0 && s[0] == c {
        lemma_stripped_start(s.skip(1), c);
        let r = stripped_start(s.skip(1), c);
        assert(s.skip(1).skip(s.len() - 1 - r.len()) =~= s.skip(s.len() - r.len()));
    } else {
        assert(s.skip(0) =~= s);
    }
}

pub proof fn lemma_stripped_end(s: Seq<char>, c: char)
    ensures
        stripped_end(s, c).len() <= s.len(),
        stripped_end(s, c) == s.take(stripped_end(s, c).len() as int),
        stripped_end(s, c).len() > 0 ==> stripped_end(s, c).last() != c && stripped_end(s, c)[0]
            == s[0],
    decreases s.len(),
{
    if s.len() > 0 && s.last() == c {
        lemma_stripped_end(s.drop_last(), c);
        let r = stripped_end(s.drop_last(), c);
        assert(s.drop_last().take(r.len() as int) =~= s.take(r.len() as int));
    } else {
        assert(s.take(s.len() as int) =~= s);
    }
}

/// Stripping leaves nothing to strip, and what needs none stays.
pub proof fn lemma_stripped(s: Seq<char>, c: char)
    ensures
        is_stripped(stripped(s, c), c),
        is_stripped(s, c) ==> stripped(s, c) == s,
{
    lemma_stripped_start(s, c);
    lemma_stripped_end(stripped_start(s, c), c);
}

/// `n` spaces.
pub open spec fn spaces(n: nat) -> Seq<char> {
    Seq::new(n, |i: int| ' ')
}

/// `s` at the right of a column of `width` characters, or as it is when it is as wide
/// as that already.
pub open spec fn right_aligned(s: Seq<char>, width: nat) -> Seq<char> {
    if s.len() >= width {
        s
    } else {
        spaces((width - s.len()) as nat) + s
    }
}

/// `s` at the right of a column of `width` characters.
pub fn align_right(s: &str, width: usize) -> (r: String)
    ensures
        r@ == right_aligned(s@, width as nat),
{
    let n: usize = chars_of(s).len();
    let mut r = String::new();
    let mut i: usize = n;
    while i < width
        invariant
            n <= i,
            i <= width || i == n,
            r@ == spaces((i - n) as nat),
        decreases width - i,
    {
        r.push(' ');
        i = i + 1;
        assert(r@ =~= spaces((i - n) as nat));
    }
    push_str(&mut r, s);
    assert(n >= width ==> r@ =~= s@);
    r
}

/// `word` stands somewhere in `s`.
pub open spec fn holds_word(s: Seq<char>, word: Seq<char>) -> bool {
    exists|i: int|
        0 <= i <= s.len() - word.len() && #[trigger] s.subrange(i, i + word.len()) == word
}

/// True when `word` stands somewhere in `s`.
pub fn contains(s: &str, word: &str) -> (b: bool)
    ensures
        b == holds_word(s@, word@),
{
    let v = chars_of(s);
    let n: usize = v.len();
    let m: usize = chars_of(word).len();
    if m > n {
        return false;
    }
    let mut i: usize = 0;
    while i <= n - m
        invariant
            v@ == s@,
            n == v@.len(),
            m == word@.len(),
            m <= n,
            i <= n - m + 1,
            forall|k: int| 0 <= k < i ==> #[trigger] s@.subrange(k, k + m) != word@,
        decreases n - i,
    {
        let part = string_of(&v, i, i + m);
        if same(part.as_str(), word) {
            assert(s@.subrange(i as int, i + m) == word@);
            return true;
        }
        if i == n - m {
            return false;
        }
        i = i + 1;
    }
    false
}

// ---------------------------------------------------------------------------
// What these come to
// ---------------------------------------------------------------------------

/// A text comes apart at every `c` and nowhere else: two texts with a `c` between them
/// come apart into the pieces of each, and one without any is a piece.
pub proof fn law_texts_come_apart_at_every_separator(a: Seq<char>, c: char, b: Seq<char>)
    ensures
        pieces(a + seq![c] + b, c) == pieces(a, c) + pieces(b, c),
        !a.contains(c) ==> pieces(a, c) == seq![a],
    decreases a.len(),
{
    let s = a + seq![c] + b;
    lemma_find(a, c);
    let i = find(a, c) as int;
    if i < a.len() {
        assert(a.contains(a[i]));
        assert forall|k: int| 0 <= k < i implies #[trigger] s[k] != c by {
            assert(s[k] == a[k]);
        }
        assert(s[i] == a[i]);
        lemma_find_is(s, c, i as nat);
        assert(s.take(i) =~= a.take(i));
        let rest = a.skip(i + 1);
        assert(s.skip(i + 1) =~= rest + seq![c] + b);
        law_texts_come_apart_at_every_separator(rest, c, b);
        assert(pieces(s, c) =~= pieces(a, c) + pieces(b, c));
    } else {
        assert forall|k: int| 0 <= k < a.len() implies #[trigger] s[k] != c by {
            assert(s[k] == a[k]);
        }
        assert(s[a.len() as int] == c);
        lemma_find_is(s, c, a.len());
        assert(s.take(a.len() as int) =~= a);
        assert(s.skip(a.len() as int + 1) =~= b);
        assert(pieces(s, c) =~= pieces(a, c) + pieces(b, c));
    }
}

/// Pieces are put together in their order with the separator between each two.
pub proof fn law_pieces_are_joined_in_order(
    a: Seq<Seq<char>>,
    b: Seq<Seq<char>>,
    sep: Seq<char>,
    one: Seq<char>,
)
    requires
        a.len() > 0,
        b.len() > 0,
    ensures
        joined(a + b, sep) == joined(a, sep) + sep + joined(b, sep),
        joined(seq![one], sep) == one,
        joined(seq![], sep).len() == 0,
    decreases a.len(),
{
    let all = a + b;
    assert(all[0] == a[0]);
    if a.len() == 1 {
        assert(all.skip(1) =~= b);
        assert(joined(all, sep) =~= joined(a, sep) + sep + joined(b, sep));
    } else {
        law_pieces_are_joined_in_order(a.skip(1), b, sep, one);
        assert(all.skip(1) =~= a.skip(1) + b);
        assert(joined(all, sep) =~= joined(a, sep) + sep + joined(b, sep));
    }
}

/// Taking a text apart and putting it together again gives the text.
pub proof fn law_pieces_make_the_text(s: Seq<char>, c: char)
    ensures
        joined(pieces(s, c), seq![c]) == s,
        pieces(s, c).len() > 0,
    decreases s.len(),
{
    lemma_find(s, c);
    let i = find(s, c) as int;
    if i < s.len() {
        let rest = s.skip(i + 1);
        law_pieces_make_the_text(rest, c);
        law_pieces_are_joined_in_order(seq![s.take(i)], pieces(rest, c), seq![c], s.take(i));
        assert(s =~= s.take(i) + seq![c] + rest);
    }
}

/// Putting pieces together and taking the text apart gives the pieces, when none of them
/// holds what separates them.
pub proof fn law_joined_pieces_come_apart(parts: Seq<Seq<char>>, c: char)
    requires
        parts.len() > 0,
        forall|i: int| 0 <= i < parts.len() ==> !(#[trigger] parts[i]).contains(c),
    ensures
        pieces(joined(parts, seq![c]), c) == parts,
    decreases parts.len(),
{
    assert(!parts[0].contains(c));
    if parts.len() == 1 {
        law_texts_come_apart_at_every_separator(parts[0], c, seq![]);
        assert(parts =~= seq![parts[0]]);
    } else {
        let rest = parts.skip(1);
        assert forall|i: int| 0 <= i < rest.len() implies !(#[trigger] rest[i]).contains(c) by {
            assert(rest[i] == parts[i + 1]);
        }
        law_joined_pieces_come_apart(rest, c);
        law_texts_come_apart_at_every_separator(parts[0], c, joined(rest, seq![c]));
        assert(seq![parts[0]] + rest =~= parts);
    }
}

/// White space around a text does not matter, and nothing else is taken away.
pub proof fn law_space_around_does_not_matter(front: Seq<char>, s: Seq<char>, back: Seq<char>)
    requires
        forall|i: int| 0 <= i < front.len() ==> is_space(#[trigger] front[i]),
        forall|i: int| 0 <= i < back.len() ==> is_space(#[trigger] back[i]),
        is_trimmed(s),
    ensures
        trimmed(front + s + back) == s,
    decreases front.len() + back.len(),
{
    let all = front + s + back;
    if front.len() > 0 {
        let rest = front.skip(1);
        assert forall|i: int| 0 <= i < rest.len() implies is_space(#[trigger] rest[i]) by {
            assert(rest[i] == front[i + 1]);
        }
        law_space_around_does_not_matter(rest, s, back);
        assert(all[0] == front[0]);
        assert(all.skip(1) =~= rest + s + back);
    } else if s.len() == 0 {
        assert(all =~= back);
        if back.len() > 0 {
            let rest = back.skip(1);
            assert forall|i: int| 0 <= i < rest.len() implies is_space(#[trigger] rest[i]) by {
                assert(rest[i] == back[i + 1]);
            }
            law_space_around_does_not_matter(front, s, rest);
            assert(front + s + rest =~= rest);
            assert(all.skip(1) =~= rest);
            assert(is_space(back[0]));
        } else {
            assert(all =~= s);
        }
    } else if back.len() > 0 {
        let rest = back.drop_last();
        assert forall|i: int| 0 <= i < rest.len() implies is_space(#[trigger] rest[i]) by {
            assert(rest[i] == back[i]);
        }
        law_space_around_does_not_matter(front, s, rest);
        let less = front + s + rest;
        assert(all[0] == s[0] && less[0] == s[0]);
        assert(trimmed_start(all) == all && trimmed_start(less) == less);
        assert(all.last() == back[back.len() - 1]);
        assert(all.drop_last() =~= less);
    } else {
        assert(all =~= s);
        lemma_trimmed(s);
    }
}

/// Small letters stay and capitals of the alphabet become small, each its own.
pub proof fn law_capitals_become_small(s: Seq<char>, i: int)
    requires
        0 <= i < s.len(),
    ensures
        lowered(s).len() == s.len(),
        lowered(lowered(s)) == lowered(s),
        'A' <= s[i] <= 'Z' ==> lowered(s)[i] as int - 'a' as int == s[i] as int - 'A' as int,
        !('A' <= s[i] <= 'Z') ==> lowered(s)[i] == s[i],
{
    assert(lowered(lowered(s)) =~= lowered(s));
}

/// A number is read as its digits say, and only digits are a number.
pub proof fn law_numbers_read_as_written(n: nat, max: nat, s: Seq<char>)
    ensures
        n <= max ==> number(decimal(n), max) == Some(n),
        n <= max ==> number(seq!['+'] + decimal(n), max) == Some(n),
        n > max ==> number(decimal(n), max) is None,
        s.len() == 0 ==> number(s, max) is None,
        s.len() > 0 && s[0] != '+' && !all_digits(s) ==> number(s, max) is None,
        number(s, max) matches Some(m) ==> m <= max,
{
    lemma_decimal(n);
    assert(is_digit(decimal(n)[0]));
    assert((seq!['+'] + decimal(n)).skip(1) =~= decimal(n));
}

/// A number that is shown has no zero in front of it, and different numbers look
/// different.
pub proof fn law_numbers_look_different(m: nat, n: nat)
    ensures
        decimal(n).len() > 1 ==> decimal(n)[0] != '0',
        m != n ==> decimal(m) != decimal(n),
    decreases n,
{
    lemma_decimal(m);
    lemma_decimal(n);
    if n >= 10 {
        law_numbers_look_different(m, n / 10);
        lemma_decimal(n / 10);
        if n / 10 < 10 {
            lemma_digit(n / 10);
            assert(decimal(n)[0] == digit(n / 10));
        } else {
            lemma_decimal(n / 10 / 10);
            assert(decimal(n)[0] == decimal(n / 10)[0]);
            assert(decimal(n / 10).len() > 1);
        }
    }
}

} // verus!
