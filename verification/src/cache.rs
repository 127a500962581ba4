//! The cache of scaled cover art.
//!
//! Every track on an album usually carries the same picture, so an entry is keyed by
//! the *bytes of the source picture* rather than by the track's path: all tracks of
//! an album, and later runs, share one entry.

use vstd::arithmetic::div_mod::{
    lemma_mod_multiples_vanish, lemma_mul_mod_noop_left, lemma_small_mod,
};
use vstd::prelude::*;
use crate::config::{nonempty, set_to, Environment, Platform};
use crate::paths::{self, within};
use crate::text::{
    self, all_digits, decimal, halves, is_digit, is_space, lemma_decimal, lemma_halves_cons,
    opt_view,
};

verus! {

/// Total budget for the cache directory. Entries are evicted oldest-first.
pub const MAX_BYTES: u64 = 209715200;

/// The cache directory: the override, or the player's own directory where the system
/// keeps such things.
pub open spec fn cache_dir(env: Environment, platform: Platform) -> Option<Seq<char>> {
    match set_to(env.own) {
        Some(over) => Some(over),
        None => match platform {
            Platform::MacOs => match env.home {
                Some(home) => Some(within(within(home@, "Library/Caches"@), "tuneterm"@)),
                None => None,
            },
            Platform::Windows => match env.app_data {
                Some(base) => Some(within(base@, "tuneterm"@)),
                None => None,
            },
            Platform::Other => match set_to(env.xdg) {
                Some(base) => Some(within(base, "tuneterm"@)),
                None => match env.home {
                    Some(home) => Some(within(within(home@, ".cache"@), "tuneterm"@)),
                    None => None,
                },
            },
        },
    }
}

/// The cache directory. `None` if there is no home.
pub fn dir(env: &Environment, platform: Platform) -> (r: Option<String>)
    ensures
        opt_view(r) == cache_dir(*env, platform),
{
    if let Some(over) = nonempty(&env.own) {
        return Some(over);
    }
    match platform {
        Platform::MacOs => match &env.home {
            Some(home) => {
                let base = paths::join(home.as_str(), "Library/Caches");
                Some(paths::join(base.as_str(), "tuneterm"))
            },
            None => None,
        },
        Platform::Windows => match &env.app_data {
            Some(base) => Some(paths::join(base.as_str(), "tuneterm")),
            None => None,
        },
        Platform::Other => match nonempty(&env.xdg) {
            Some(base) => Some(paths::join(base.as_str(), "tuneterm")),
            None => match &env.home {
                Some(home) => {
                    let base = paths::join(home.as_str(), ".cache");
                    Some(paths::join(base.as_str(), "tuneterm"))
                },
                None => None,
            },
        },
    }
}

// ---------------------------------------------------------------------------
// Keys
// ---------------------------------------------------------------------------

/// One byte more in an FNV-1a hash.
pub open spec fn fnv_step(hash: u64, byte: u8) -> u64 {
    let mixed = hash ^ (byte as u64);
    (mixed as int * 0x0000_0100_0000_01b3 % 0x1_0000_0000_0000_0000int) as u64
}

/// Some bytes more.
pub open spec fn fnv(hash: u64, bytes: Seq<u8>) -> u64
    decreases bytes.len(),
{
    if bytes.len() == 0 {
        hash
    } else {
        fnv_step(fnv(hash, bytes.drop_last()), bytes.last())
    }
}

/// A number as `n` bytes, the lowest first.
pub open spec fn low_bytes(x: nat, n: nat) -> Seq<u8>
    decreases n,
{
    if n == 0 {
        seq![]
    } else {
        seq![(x % 256) as u8] + low_bytes(x / 256, (n - 1) as nat)
    }
}

/// The hash of a picture and the box it is scaled to. The stored file is already
/// scaled, so the size is part of it.
pub open spec fn picture_hash(picture: Seq<u8>, width: u32, height: u32) -> u64 {
    fnv(
        fnv(
            fnv(fnv(0xcbf2_9ce4_8422_2325, picture), low_bytes(picture.len(), 8)),
            low_bytes(width as nat, 4),
        ),
        low_bytes(height as nat, 4),
    )
}

/// A digit of a hexadecimal number.
pub open spec fn hex_digit(d: nat) -> char {
    if d < 10 {
        ((48 + d) as u8) as char
    } else {
        ((87 + d) as u8) as char
    }
}

/// The last `n` digits of a number in hexadecimal.
pub open spec fn hex(x: nat, n: nat) -> Seq<char>
    decreases n,
{
    if n == 0 {
        seq![]
    } else {
        hex(x / 16, (n - 1) as nat).push(hex_digit(x % 16))
    }
}

/// The name of a cache entry.
pub open spec fn entry_name(picture: Seq<u8>, width: u32, height: u32) -> Seq<char> {
    hex(picture_hash(picture, width, height) as nat, 16) + "-"@ + decimal(width as nat) + "x"@
        + decimal(height as nat) + ".png"@
}

fn eat(hash: u64, bytes: &[u8]) -> (r: u64)
    ensures
        r == fnv(hash, bytes@),
{
    let mut h: u64 = hash;
    let mut i: usize = 0;
    assert(bytes@.take(0) =~= seq![]);
    while i < bytes.len()
        invariant
            i <= bytes@.len(),
            h == fnv(hash, bytes@.take(i as int)),
        decreases bytes@.len() - i,
    {
        let mixed: u64 = h ^ (bytes[i] as u64);
        h = mixed.wrapping_mul(0x0000_0100_0000_01b3);
        i = i + 1;
        proof {
            assert(bytes@.take(i as int).drop_last() =~= bytes@.take(i - 1));
            assert(bytes@.take(i as int).last() == bytes@[i - 1]);
        }
    }
    assert(bytes@.take(i as int) =~= bytes@);
    h
}

fn bytes_of(x: u64, n: usize) -> (r: Vec<u8>)
    ensures
        r@ == low_bytes(x as nat, n as nat),
{
    let mut r: Vec<u8> = Vec::new();
    let mut rest: u64 = x;
    let mut k: usize = 0;
    assert(r@ + low_bytes(x as nat, n as nat) =~= low_bytes(x as nat, n as nat));
    while k < n
        invariant
            k <= n,
            r@ + low_bytes(rest as nat, (n - k) as nat) == low_bytes(x as nat, n as nat),
        decreases n - k,
    {
        let ghost was = r@;
        let ghost tail = low_bytes((rest / 256) as nat, (n - k - 1) as nat);
        let low: u8 = (rest % 256) as u8;
        r.push(low);
        assert(was + (seq![low] + tail) =~= r@ + tail);
        rest = rest / 256;
        k = k + 1;
    }
    assert(r@ + low_bytes(rest as nat, 0) =~= r@);
    r
}

fn print_hex(x: u64, n: usize) -> (r: String)
    ensures
        r@ == hex(x as nat, n as nat),
    decreases n,
{
    if n == 0 {
        let r = String::new();
        assert(r@ =~= seq![]);
        return r;
    }
    let mut r = print_hex(x / 16, n - 1);
    let d: u8 = (x % 16) as u8;
    if d < 10 {
        let c: u8 = 48 + d;
        r.push(c as char);
    } else {
        let c: u8 = 87 + d;
        r.push(c as char);
    }
    r
}

/// The key of a picture scaled to a box. FNV-1a: a cache miss is the only consequence
/// of a collision this unlikely.
pub fn key(picture: &[u8], box_px: (u32, u32)) -> (r: String)
    ensures
        r@ == entry_name(picture@, box_px.0, box_px.1),
{
    let (width, height) = box_px;
    let len: usize = picture.len();
    let mut hash: u64 = eat(0xcbf2_9ce4_8422_2325, picture);
    hash = eat(hash, bytes_of(len as u64, 8).as_slice());
    hash = eat(hash, bytes_of(width as u64, 4).as_slice());
    hash = eat(hash, bytes_of(height as u64, 4).as_slice());
    let mut r = print_hex(hash, 16);
    text::push_str(&mut r, "-");
    text::push_str(&mut r, text::print(width as u64).as_str());
    text::push_str(&mut r, "x");
    text::push_str(&mut r, text::print(height as u64).as_str());
    text::push_str(&mut r, ".png");
    r
}

/// Where an entry lives in the cache at `dir`.
pub open spec fn entry_path(dir: Option<Seq<char>>, key: Seq<char>) -> Option<Seq<char>> {
    match dir {
        Some(d) => Some(within(d, key)),
        None => None,
    }
}

/// Where an entry lives, whether or not it exists yet.
pub fn path(dir: Option<String>, key: &str) -> (r: Option<String>)
    ensures
        opt_view(r) == entry_path(opt_view(dir), key@),
{
    match dir {
        Some(d) => Some(paths::join(d.as_str(), key)),
        None => None,
    }
}

/// The name an entry is written under first, so that a crash cannot leave half a
/// picture under its real name.
pub fn temp_name(key: &str, process: u32) -> (r: String)
    ensures
        r@ == key@ + ".tmp"@ + decimal(process as nat),
{
    let id = text::print(process as u64);
    text::cat3(key, ".tmp", id.as_str())
}

/// A character that any file system takes in a name.
pub open spec fn is_safe(c: char) -> bool {
    !is_space(c) && c != '/' && c != '\\'
}

pub open spec fn all_safe(s: Seq<char>) -> bool {
    forall|i: int| 0 <= i < s.len() ==> is_safe(#[trigger] s[i])
}

/// A digit of a hexadecimal number in small letters.
pub open spec fn is_hex_digit(c: char) -> bool {
    '0' <= c <= '9' || 'a' <= c <= 'f'
}

proof fn lemma_hex(x: nat, n: nat)
    ensures
        hex(x, n).len() == n,
        all_safe(hex(x, n)),
        forall|i: int| 0 <= i < n ==> is_hex_digit(#[trigger] hex(x, n)[i]),
    decreases n,
{
    if n > 0 {
        lemma_hex(x / 16, (n - 1) as nat);
        let s = hex(x, n);
        assert forall|i: int| 0 <= i < s.len() implies is_safe(#[trigger] s[i]) && is_hex_digit(
            s[i],
        ) by {
            if i < n - 1 {
                assert(s[i] == hex(x / 16, (n - 1) as nat)[i]);
            } else {
                assert(s[i] == hex_digit(x % 16));
            }
        }
    }
}

proof fn lemma_digits_safe(s: Seq<char>)
    requires
        all_digits(s),
    ensures
        all_safe(s),
        !s.contains('x'),
{
    assert forall|i: int| 0 <= i < s.len() implies is_safe(#[trigger] s[i]) && s[i] != 'x' by {
        assert(is_digit(s[i]));
    }
}

proof fn lemma_safe_concat(a: Seq<char>, b: Seq<char>)
    requires
        all_safe(a),
        all_safe(b),
    ensures
        all_safe(a + b),
{
    let c = a + b;
    assert forall|i: int| 0 <= i < c.len() implies is_safe(#[trigger] c[i]) by {
        if i < a.len() {
            assert(c[i] == a[i]);
        } else {
            assert(c[i] == b[i - a.len()]);
        }
    }
}

/// A key can be used as a file name as it stands.
pub proof fn law_a_key_is_a_usable_file_name(picture: Seq<u8>, width: u32, height: u32)
    ensures
        all_safe(entry_name(picture, width, height)),
{
    reveal_strlit("-");
    reveal_strlit("x");
    reveal_strlit(".png");
    let h = hex(picture_hash(picture, width, height) as nat, 16);
    lemma_hex(picture_hash(picture, width, height) as nat, 16);
    lemma_decimal(width as nat);
    lemma_decimal(height as nat);
    lemma_digits_safe(decimal(width as nat));
    lemma_digits_safe(decimal(height as nat));
    assert(all_safe("-"@));
    assert(all_safe("x"@));
    assert(all_safe(".png"@));
    lemma_safe_concat(h, "-"@);
    lemma_safe_concat(h + "-"@, decimal(width as nat));
    lemma_safe_concat(h + "-"@ + decimal(width as nat), "x"@);
    lemma_safe_concat(h + "-"@ + decimal(width as nat) + "x"@, decimal(height as nat));
    lemma_safe_concat(
        h + "-"@ + decimal(width as nat) + "x"@ + decimal(height as nat),
        ".png"@,
    );
}

/// A key is sixteen hexadecimal digits in small letters, and behind them the size and
/// what sort of file it is.
pub proof fn law_a_key_is_a_hash_and_a_size(picture: Seq<u8>, width: u32, height: u32)
    ensures
        ({
            let key = entry_name(picture, width, height);
            &&& key.len() > 16
            &&& forall|i: int| 0 <= i < 16 ==> is_hex_digit(#[trigger] key[i])
            &&& key.skip(16) == "-"@ + decimal(width as nat) + "x"@ + decimal(height as nat)
                + ".png"@
        }),
{
    reveal_strlit("-");
    let h = hex(picture_hash(picture, width, height) as nat, 16);
    let key = entry_name(picture, width, height);
    lemma_hex(picture_hash(picture, width, height) as nat, 16);
    assert forall|i: int| 0 <= i < 16 implies is_hex_digit(#[trigger] key[i]) by {
        assert(key[i] == h[i]);
    }
    assert(key.skip(16) =~= "-"@ + decimal(width as nat) + "x"@ + decimal(height as nat)
        + ".png"@);
}

/// The same picture scaled to another size is another entry, whatever the hash.
pub proof fn law_sizes_do_not_share_a_key(
    a: Seq<u8>,
    b: Seq<u8>,
    aw: u32,
    ah: u32,
    bw: u32,
    bh: u32,
)
    requires
        entry_name(a, aw, ah) == entry_name(b, bw, bh),
    ensures
        aw == bw && ah == bh,
{
    lemma_name_sizes(a, aw, ah);
    lemma_name_sizes(b, bw, bh);
    let left = entry_name(a, aw, ah).skip(17);
    let right = entry_name(b, bw, bh).skip(17);
    let (w1, r1) = halves(left, 'x')->0;
    let (w2, r2) = halves(right, 'x')->0;
    assert(w1 == w2 && r1 == r2);
    let h1 = decimal(ah as nat);
    let h2 = decimal(bh as nat);
    assert(r1.len() == h1.len() + 4 && r2.len() == h2.len() + 4);
    assert(h1 =~= r1.take(h1.len() as int));
    assert(h2 =~= r2.take(h2.len() as int));
    lemma_decimal(aw as nat);
    lemma_decimal(bw as nat);
    lemma_decimal(ah as nat);
    lemma_decimal(bh as nat);
}

proof fn lemma_name_sizes(picture: Seq<u8>, width: u32, height: u32)
    ensures
        halves(entry_name(picture, width, height).skip(17), 'x') == Some(
            (decimal(width as nat), decimal(height as nat) + ".png"@),
        ),
        ".png"@.len() == 4,
{
    reveal_strlit("-");
    reveal_strlit("x");
    reveal_strlit(".png");
    lemma_hex(picture_hash(picture, width, height) as nat, 16);
    lemma_decimal(width as nat);
    lemma_digits_safe(decimal(width as nat));
    let w = decimal(width as nat);
    let h = decimal(height as nat);
    let rest = entry_name(picture, width, height).skip(17);
    assert(rest =~= w + seq!['x'] + (h + ".png"@));
    lemma_halves_cons(w, 'x', h + ".png"@);
}

// ---------------------------------------------------------------------------
// Telling pictures apart
// ---------------------------------------------------------------------------

proof fn lemma_hex_digits_differ(a: nat, b: nat)
    requires
        a < 16,
        b < 16,
        hex_digit(a) == hex_digit(b),
    ensures
        a == b,
{
}

proof fn lemma_hex_differs(x: nat, y: nat, n: nat)
    requires
        x < pow16(n),
        y < pow16(n),
        hex(x, n) == hex(y, n),
    ensures
        x == y,
    decreases n,
{
    if n > 0 {
        let (s, t) = (hex(x, n), hex(y, n));
        lemma_hex(x / 16, (n - 1) as nat);
        lemma_hex(y / 16, (n - 1) as nat);
        assert(s.last() == t.last());
        lemma_hex_digits_differ(x % 16, y % 16);
        assert(s.drop_last() =~= hex(x / 16, (n - 1) as nat));
        assert(t.drop_last() =~= hex(y / 16, (n - 1) as nat));
        lemma_hex_differs(x / 16, y / 16, (n - 1) as nat);
    }
}

/// How many numbers `n` hexadecimal digits hold.
spec fn pow16(n: nat) -> nat
    decreases n,
{
    if n == 0 {
        1
    } else {
        16 * pow16((n - 1) as nat)
    }
}

/// Keys of one size differ where the hashes do.
proof fn lemma_keys_differ(p: Seq<u8>, q: Seq<u8>, width: u32, height: u32)
    requires
        picture_hash(p, width, height) != picture_hash(q, width, height),
    ensures
        entry_name(p, width, height) != entry_name(q, width, height),
{
    let (x, y) = (picture_hash(p, width, height) as nat, picture_hash(q, width, height) as nat);
    lemma_hex(x, 16);
    lemma_hex(y, 16);
    let (a, b) = (entry_name(p, width, height), entry_name(q, width, height));
    if a == b {
        assert(a.take(16) =~= hex(x, 16));
        assert(b.take(16) =~= hex(y, 16));
        reveal_with_fuel(pow16, 17);
        lemma_hex_differs(x, y, 16);
    }
}

/// The multiplier of the hash is odd, so that multiplying by it can be undone.
proof fn lemma_times_prime(x: u64, y: u64)
    requires
        x as int * 0x0000_0100_0000_01b3 % 0x1_0000_0000_0000_0000int == y as int
            * 0x0000_0100_0000_01b3 % 0x1_0000_0000_0000_0000int,
    ensures
        x == y,
{
    lemma_prime_undone(x);
    lemma_prime_undone(y);
}

proof fn lemma_prime_undone(x: u64)
    ensures
        (x as int * 0x0000_0100_0000_01b3 % 0x1_0000_0000_0000_0000int) * 0xce96_5057_aff6_957b
            % 0x1_0000_0000_0000_0000int == x,
{
    let n = x as int;
    let prime = 0x0000_0100_0000_01b3int;
    let back = 0xce96_5057_aff6_957bint;
    let m = 0x1_0000_0000_0000_0000int;
    let turns = 887285111055int;
    assert(prime * back == turns * m + 1);
    lemma_mul_mod_noop_left(n * prime, back, m);
    assert(n * prime * back == m * (n * turns) + n) by (nonlinear_arith)
        requires
            prime * back == turns * m + 1,
    ;
    lemma_mod_multiples_vanish(n * turns, n, m);
    lemma_small_mod(x as nat, 0x1_0000_0000_0000_0000);
}

proof fn lemma_fnv_step(g: u64, h: u64, a: u8, b: u8)
    ensures
        fnv_step(g, a) == fnv_step(h, a) ==> g == h,
        fnv_step(g, a) == fnv_step(g, b) ==> a == b,
{
    if fnv_step(g, a) == fnv_step(h, a) {
        lemma_times_prime(g ^ (a as u64), h ^ (a as u64));
        let x: u64 = a as u64;
        assert(g ^ x == h ^ x ==> g == h) by (bit_vector);
    }
    if fnv_step(g, a) == fnv_step(g, b) {
        lemma_times_prime(g ^ (a as u64), g ^ (b as u64));
        let (x, y): (u64, u64) = (a as u64, b as u64);
        assert(g ^ x == g ^ y ==> x == y) by (bit_vector);
    }
}

proof fn lemma_fnv_differs(g: u64, h: u64, bytes: Seq<u8>)
    requires
        fnv(g, bytes) == fnv(h, bytes),
    ensures
        g == h,
    decreases bytes.len(),
{
    if bytes.len() > 0 {
        let rest = bytes.drop_last();
        lemma_fnv_step(fnv(g, rest), fnv(h, rest), bytes.last(), bytes.last());
        lemma_fnv_differs(g, h, rest);
    }
}

proof fn lemma_fnv_joined(h: u64, a: Seq<u8>, b: Seq<u8>)
    ensures
        fnv(h, a + b) == fnv(fnv(h, a), b),
    decreases b.len(),
{
    if b.len() == 0 {
        assert(a + b =~= a);
    } else {
        assert((a + b).drop_last() =~= a + b.drop_last());
        lemma_fnv_joined(h, a, b.drop_last());
    }
}

proof fn lemma_fnv_changed(h: u64, p: Seq<u8>, i: int, byte: u8)
    requires
        0 <= i < p.len(),
        p[i] != byte,
    ensures
        fnv(h, p) != fnv(h, p.update(i, byte)),
{
    let q = p.update(i, byte);
    let (front, back) = (p.take(i), p.skip(i + 1));
    let g = fnv(h, front);
    assert(p =~= front + seq![p[i]] + back);
    assert(q =~= front + seq![byte] + back);
    lemma_fnv_joined(h, front + seq![p[i]], back);
    lemma_fnv_joined(h, front + seq![byte], back);
    assert((front + seq![p[i]]).drop_last() =~= front);
    assert((front + seq![byte]).drop_last() =~= front);
    if fnv(h, p) == fnv(h, q) {
        lemma_fnv_differs(fnv_step(g, p[i]), fnv_step(g, byte), back);
        lemma_fnv_step(g, g, p[i], byte);
    }
}

/// A picture with one byte changed has another key.
pub proof fn law_a_changed_byte_changes_the_key(
    picture: Seq<u8>,
    i: int,
    byte: u8,
    width: u32,
    height: u32,
)
    requires
        0 <= i < picture.len(),
        picture[i] != byte,
    ensures
        entry_name(picture, width, height) != entry_name(picture.update(i, byte), width, height),
{
    let q = picture.update(i, byte);
    let start = 0xcbf2_9ce4_8422_2325u64;
    let (a, b) = (fnv(start, picture), fnv(start, q));
    lemma_fnv_changed(start, picture, i, byte);
    let (len, w, h) = (
        low_bytes(picture.len(), 8),
        low_bytes(width as nat, 4),
        low_bytes(height as nat, 4),
    );
    if picture_hash(picture, width, height) == picture_hash(q, width, height) {
        lemma_fnv_differs(fnv(fnv(a, len), w), fnv(fnv(b, len), w), h);
        lemma_fnv_differs(fnv(a, len), fnv(b, len), w);
        lemma_fnv_differs(a, b, len);
    }
    lemma_keys_differ(picture, q, width, height);
}

/// How many of the bytes are odd.
pub open spec fn odd_bytes(bytes: Seq<u8>) -> nat
    decreases bytes.len(),
{
    if bytes.len() == 0 {
        0
    } else {
        odd_bytes(bytes.drop_last()) + bytes.last() as nat % 2
    }
}

/// A hash is odd or even by how many odd bytes went into it.
proof fn lemma_fnv_parity(h: u64, bytes: Seq<u8>)
    ensures
        fnv(h, bytes) as int % 2 == (h + odd_bytes(bytes)) % 2,
    decreases bytes.len(),
{
    if bytes.len() > 0 {
        let rest = bytes.drop_last();
        lemma_fnv_parity(h, rest);
        let g = fnv(h, rest);
        let b: u64 = bytes.last() as u64;
        let mixed = g ^ b;
        assert((g ^ b) % 2 == (g % 2 + b % 2) % 2) by (bit_vector);
        let product = mixed as int * 0x0000_0100_0000_01b3;
        assert(product % 2 == mixed as int % 2);
        assert(product % 0x1_0000_0000_0000_0000int % 2 == product % 2);
    }
}

/// Two pictures of which one has an odd and the other an even number of odd bytes,
/// their lengths counted in, have different keys.
pub proof fn law_odd_and_even_pictures_do_not_share_a_key(
    p: Seq<u8>,
    q: Seq<u8>,
    width: u32,
    height: u32,
)
    requires
        (odd_bytes(p) + odd_bytes(low_bytes(p.len(), 8))) % 2 != (odd_bytes(q) + odd_bytes(
            low_bytes(q.len(), 8),
        )) % 2,
    ensures
        entry_name(p, width, height) != entry_name(q, width, height),
{
    lemma_hash_parity(p, width, height);
    lemma_hash_parity(q, width, height);
    lemma_keys_differ(p, q, width, height);
}

proof fn lemma_hash_parity(p: Seq<u8>, width: u32, height: u32)
    ensures
        picture_hash(p, width, height) as int % 2 == (1 + odd_bytes(p) + odd_bytes(
            low_bytes(p.len(), 8),
        ) + odd_bytes(low_bytes(width as nat, 4)) + odd_bytes(low_bytes(height as nat, 4))) % 2,
{
    let start = 0xcbf2_9ce4_8422_2325u64;
    let (len, wide, high) = (
        low_bytes(p.len(), 8),
        low_bytes(width as nat, 4),
        low_bytes(height as nat, 4),
    );
    let a = fnv(start, p);
    let b = fnv(a, len);
    let c = fnv(b, wide);
    lemma_fnv_parity(start, p);
    lemma_fnv_parity(a, len);
    lemma_fnv_parity(b, wide);
    lemma_fnv_parity(c, high);
    let d = fnv(c, high) as int;
    let (i, j, k, l) = (
        odd_bytes(p) as int,
        odd_bytes(len) as int,
        odd_bytes(wide) as int,
        odd_bytes(high) as int,
    );
    lemma_parity(start as int, a as int, b as int, i, j);
    lemma_parity(start as int, b as int, c as int, i + j, k);
    lemma_parity(start as int, c as int, d, i + j + k, l);
    lemma_parity(1, start as int, d, 0, i + j + k + l);
}

/// Parities add up.
proof fn lemma_parity(first: int, middle: int, last: int, x: int, y: int)
    requires
        middle % 2 == (first + x) % 2,
        last % 2 == (middle + y) % 2,
    ensures
        last % 2 == (first + x + y) % 2,
{
}

/// `pretend this is a jpeg`, byte by byte.
pub open spec fn a_jpeg() -> Seq<u8> {
    seq![
        112, 114, 101, 116, 101, 110, 100, 32, 116, 104, 105, 115, 32, 105, 115, 32, 97, 32, 106,
        112, 101, 103,
    ]
}

/// `a different cover`, byte by byte.
pub open spec fn a_cover() -> Seq<u8> {
    seq![97, 32, 100, 105, 102, 102, 101, 114, 101, 110, 116, 32, 99, 111, 118, 101, 114]
}

/// A cover that is another picture is another entry, at any one size.
pub proof fn law_two_covers_do_not_share_a_key(width: u32, height: u32)
    ensures
        entry_name(a_jpeg(), width, height) != entry_name(a_cover(), width, height),
{
    let (p, q) = (a_jpeg(), a_cover());
    assert(odd_bytes(p) % 2 == 1) by {
        lemma_odd_bytes(p, 0);
        reveal_with_fuel(odd_from, 23);
    }
    assert(odd_bytes(q) % 2 == 1) by {
        lemma_odd_bytes(q, 0);
        reveal_with_fuel(odd_from, 18);
    }
    assert(odd_bytes(low_bytes(22, 8)) % 2 == 0) by {
        lemma_odd_low_bytes(22, 8);
    }
    assert(odd_bytes(low_bytes(17, 8)) % 2 == 1) by {
        lemma_odd_low_bytes(17, 8);
    }
    law_odd_and_even_pictures_do_not_share_a_key(p, q, width, height);
}

/// How many of the bytes from `i` on are odd.
spec fn odd_from(bytes: Seq<u8>, i: int) -> nat
    decreases bytes.len() - i,
{
    if i >= bytes.len() || i < 0 {
        0
    } else {
        bytes[i] as nat % 2 + odd_from(bytes, i + 1)
    }
}

proof fn lemma_odd_bytes(bytes: Seq<u8>, i: int)
    requires
        0 <= i <= bytes.len(),
    ensures
        odd_bytes(bytes) == odd_bytes(bytes.take(i)) + odd_from(bytes, i),
        i == 0 ==> odd_bytes(bytes) == odd_from(bytes, 0),
    decreases bytes.len() - i,
{
    if i == bytes.len() {
        assert(bytes.take(i) =~= bytes);
    } else {
        lemma_odd_bytes(bytes, i + 1);
        assert(bytes.take(i + 1).drop_last() =~= bytes.take(i));
    }
    assert(bytes.take(0) =~= seq![]);
}

/// A number below 256 has one byte that can be odd.
proof fn lemma_odd_low_bytes(x: nat, n: nat)
    requires
        x < 256,
        n > 0,
    ensures
        odd_bytes(low_bytes(x, n)) == x % 2,
    decreases n,
{
    let s = low_bytes(x, n);
    let rest = low_bytes(0, (n - 1) as nat);
    assert(x / 256 == 0);
    assert(s =~= seq![x as u8] + rest);
    lemma_odd_joined(seq![x as u8], rest);
    assert(odd_bytes(seq![x as u8]) == x % 2) by {
        assert(seq![x as u8].drop_last() =~= seq![]);
        reveal_with_fuel(odd_bytes, 2);
    }
    if n > 1 {
        lemma_odd_low_bytes(0, (n - 1) as nat);
    }
}

proof fn lemma_odd_joined(a: Seq<u8>, b: Seq<u8>)
    ensures
        odd_bytes(a + b) == odd_bytes(a) + odd_bytes(b),
    decreases b.len(),
{
    if b.len() == 0 {
        assert(a + b =~= a);
    } else {
        assert((a + b).drop_last() =~= a + b.drop_last());
        lemma_odd_joined(a, b.drop_last());
    }
}

// ---------------------------------------------------------------------------
// Eviction
// ---------------------------------------------------------------------------

/// A file in the cache: when it was last used, and how big it is.
#[derive(Debug, Clone, Copy, PartialEq, Eq, Structural)]
pub struct CacheFile {
    pub modified: u64,
    pub len: u64,
}

/// What some of the files come to.
pub open spec fn total_of(files: Seq<CacheFile>) -> nat
    decreases files.len(),
{
    if files.len() == 0 {
        0
    } else {
        total_of(files.drop_last()) + files.last().len as nat
    }
}

/// An eviction under way: the files from oldest to newest, how many have been dealt
/// with, and what is left in all.
#[derive(Debug)]
pub struct Sweep {
    /// Indices of the files as they were handed in, oldest first.
    pub order: Vec<usize>,
    pub files: Vec<CacheFile>,
    pub at: usize,
    pub total: u64,
    pub max: u64,
}

/// Oldest first, and in the order they came where they are as old as each other.
pub open spec fn oldest_first(files: Seq<CacheFile>, order: Seq<usize>) -> bool {
    &&& crate::order::is_permutation(order, files.len())
    &&& forall|i: int, j: int|
        0 <= i < j < order.len() ==> (files[(#[trigger] order[i]) as int].modified
            < files[(#[trigger] order[j]) as int].modified || (files[order[i] as int].modified
            == files[order[j] as int].modified && order[i] < order[j]))
}

/// What the files at these indices come to.
pub open spec fn total_at(files: Seq<CacheFile>, order: Seq<usize>) -> nat
    decreases order.len(),
{
    if order.len() == 0 {
        0
    } else {
        total_at(files, order.drop_last()) + files[order.last() as int].len as nat
    }
}

impl Sweep {
    /// Every file tried so far is gone.
    pub open spec fn all_gone(self) -> bool {
        self.total + total_at(self.files@, self.order@.take(self.at as int)) == total_of(
            self.files@,
        )
    }

    pub open spec fn wf(self) -> bool {
        &&& oldest_first(self.files@, self.order@)
        &&& self.at <= self.order@.len()
    }

    /// Bring a directory with these files back under `max` bytes.
    pub fn new(files: Vec<CacheFile>, max: u64) -> (s: Sweep)
        requires
            total_of(files@) <= u64::MAX,
        ensures
            s.wf(),
            s.files@ == files@,
            s.at == 0,
            s.total == total_of(files@),
            s.max == max,
            s.all_gone(),
    {
        let mut total: u64 = 0;
        let mut i: usize = 0;
        let mut order: Vec<usize> = Vec::new();
        assert(files@.take(0) =~= seq![]);
        while i < files.len()
            invariant
                i <= files@.len(),
                total_of(files@) <= u64::MAX,
                total == total_of(files@.take(i as int)),
                crate::order::is_permutation(order@, i as nat),
                forall|x: int, y: int|
                    0 <= x < y < order@.len() ==> (files@[(#[trigger] order@[x]) as int].modified
                        < files@[(#[trigger] order@[y]) as int].modified || (
                    files@[order@[x] as int].modified == files@[order@[y] as int].modified
                        && order@[x] < order@[y])),
            decreases files@.len() - i,
        {
            proof {
                let t = files@.take(i as int + 1);
                assert(t.drop_last() =~= files@.take(i as int));
                assert(t.last() == files@[i as int]);
                lemma_total_grows(files@, i as int + 1);
            }
            total = total + files[i].len;
            let mut at: usize = order.len();
            let ghost was = order@;
            while at > 0 && files[i].modified < files[order[at - 1]].modified
                invariant
                    at <= order@.len(),
                    order@ == was,
                    i < files@.len(),
                    crate::order::is_permutation(was, i as nat),
                    forall|y: int|
                        at <= y < was.len() ==> files@[i as int].modified
                            < files@[(#[trigger] was[y]) as int].modified,
                decreases at,
            {
                at = at - 1;
            }
            order.insert(at, i);
            proof {
                let now = order@;
                assert(now =~= was.insert(at as int, i));
                assert forall|x: int| 0 <= x < now.len() implies (#[trigger] now[x]) < i + 1 by {
                    if x < at {
                        assert(now[x] == was[x]);
                    } else if x > at {
                        assert(now[x] == was[x - 1]);
                    }
                }
                assert forall|x: int, y: int| 0 <= x < y < now.len() implies (
                files@[(#[trigger] now[x]) as int].modified < files@[(
                #[trigger] now[y]) as int].modified || (files@[now[x] as int].modified
                    == files@[now[y] as int].modified && now[x] < now[y])) && now[x]
                    != now[y] by {
                    if y < at {
                        assert(now[x] == was[x] && now[y] == was[y]);
                    } else if y == at {
                        assert(now[x] == was[x]);
                        if x < at - 1 {
                            assert(was[at - 1] == now[at - 1]);
                            assert(files@[was[x] as int].modified <= files@[was[at
                                - 1] as int].modified);
                        }
                    } else if x < at {
                        assert(now[x] == was[x] && now[y] == was[y - 1]);
                    } else if x == at {
                        assert(now[y] == was[y - 1]);
                    } else {
                        assert(now[x] == was[x - 1] && now[y] == was[y - 1]);
                    }
                }
                assert(now.no_duplicates());
            }
            i = i + 1;
        }
        assert(files@.take(i as int) =~= files@);
        Sweep { order, files, at: 0, total, max }
    }

    /// The file to delete next: the oldest that has not been tried, as long as what
    /// is left is over the budget.
    pub fn next(&self) -> (r: Option<usize>)
        requires
            self.wf(),
        ensures
            match r {
                Some(i) => self.total > self.max && self.at < self.order@.len() && i
                    == self.order@[self.at as int] && i < self.files@.len(),
                None => self.total <= self.max || self.at == self.order@.len(),
            },
    {
        if self.total <= self.max || self.at >= self.order.len() {
            None
        } else {
            Some(self.order[self.at])
        }
    }

    /// The file that [`Sweep::next`] named was deleted, or could not be.
    pub fn tried(&mut self, deleted: bool)
        requires
            old(self).wf(),
            old(self).at < old(self).order@.len(),
        ensures
            final(self).wf(),
            final(self).at == old(self).at + 1,
            final(self).order == old(self).order,
            final(self).files == old(self).files,
            final(self).max == old(self).max,
            ({
                let len = old(self).files@[old(self).order@[old(self).at as int] as int].len;
                final(self).total == (if !deleted {
                    old(self).total as int
                } else if old(self).total >= len {
                    old(self).total - len
                } else {
                    0
                })
            }),
            old(self).all_gone() && deleted ==> final(self).all_gone(),
    {
        let n: usize = self.order.len();
        assert(self.at < n);
        proof {
            let (files, order) = (self.files@, self.order@);
            assert(order.take(self.at + 1).drop_last() =~= order.take(self.at as int));
            lemma_part_of_total(files, order, self.at + 1);
        }
        if deleted {
            let len: u64 = self.files[self.order[self.at]].len;
            self.total = self.total.saturating_sub(len);
        }
        self.at = self.at + 1;
    }
}

proof fn lemma_total_grows(files: Seq<CacheFile>, k: int)
    requires
        0 <= k <= files.len(),
    ensures
        total_of(files.take(k)) <= total_of(files),
    decreases files.len() - k,
{
    if k == files.len() {
        assert(files.take(k) =~= files);
    } else {
        lemma_total_grows(files, k + 1);
        assert(files.take(k + 1).drop_last() =~= files.take(k));
    }
}

proof fn lemma_total_without(files: Seq<CacheFile>, order: Seq<usize>, p: int)
    requires
        0 <= p < order.len(),
    ensures
        total_at(files, order) == total_at(files, order.remove(p)) + files[order[p] as int].len,
    decreases order.len(),
{
    if p == order.len() - 1 {
        assert(order.remove(p) =~= order.drop_last());
    } else {
        lemma_total_without(files, order.drop_last(), p);
        assert(order.remove(p).drop_last() =~= order.drop_last().remove(p));
        assert(order.remove(p).last() == order.last());
    }
}

proof fn lemma_total_within(files: Seq<CacheFile>, order: Seq<usize>)
    requires
        files.len() > 0,
        forall|i: int| 0 <= i < order.len() ==> (#[trigger] order[i]) < files.len() - 1,
    ensures
        total_at(files, order) == total_at(files.drop_last(), order),
    decreases order.len(),
{
    if order.len() > 0 {
        assert forall|i: int| 0 <= i < order.drop_last().len() implies (
        #[trigger] order.drop_last()[i]) < files.len() - 1 by {
            assert(order.drop_last()[i] == order[i]);
        }
        lemma_total_within(files, order.drop_last());
        assert(order.last() == order[order.len() - 1]);
    }
}

/// In whatever order, all the files come to the same.
proof fn lemma_total_is_total(files: Seq<CacheFile>, order: Seq<usize>)
    requires
        crate::order::is_permutation(order, files.len()),
        files.len() <= usize::MAX,
    ensures
        total_at(files, order) == total_of(files),
    decreases files.len(),
{
    if files.len() > 0 {
        let n = files.len();
        crate::order::lemma_permutation_covers(order, n);
        assert(order[0] < n);
        let last = (n - 1) as usize;
        assert(order.contains(last));
        let p = order.index_of(last);
        lemma_total_without(files, order, p);
        let rest = order.remove(p);
        assert forall|i: int| 0 <= i < rest.len() implies (#[trigger] rest[i]) < n - 1 by {
            let j = if i < p {
                i
            } else {
                i + 1
            };
            assert(rest[i] == order[j] && order[j] != order[p]);
        }
        assert(rest.no_duplicates()) by {
            assert forall|i: int, j: int| 0 <= i < rest.len() && 0 <= j < rest.len() && i
                != j implies rest[i] != rest[j] by {
                let a = if i < p {
                    i
                } else {
                    i + 1
                };
                let b = if j < p {
                    j
                } else {
                    j + 1
                };
                assert(rest[i] == order[a] && rest[j] == order[b] && a != b);
            }
        }
        lemma_total_within(files, rest);
        lemma_total_is_total(files.drop_last(), rest);
        assert(files[order[p] as int] == files.last());
    }
}

proof fn lemma_part_of_total(files: Seq<CacheFile>, order: Seq<usize>, k: int)
    requires
        crate::order::is_permutation(order, files.len()),
        files.len() <= usize::MAX,
        0 <= k <= order.len(),
    ensures
        total_at(files, order.take(k)) <= total_of(files),
    decreases order.len() - k,
{
    if k == order.len() {
        assert(order.take(k) =~= order);
        lemma_total_is_total(files, order);
    } else {
        lemma_part_of_total(files, order, k + 1);
        assert(order.take(k + 1).drop_last() =~= order.take(k));
    }
}

/// A sweep that could delete what it tried to ends with the cache within its budget.
pub proof fn law_a_sweep_ends_within_its_budget(s: Sweep)
    requires
        s.wf(),
        s.all_gone(),
        s.total <= s.max || s.at == s.order@.len(),
    ensures
        s.total <= s.max,
{
    if s.at == s.order@.len() {
        assert(s.order@.take(s.at as int) =~= s.order@);
        assert(s.files.len() == s.files@.len());
        lemma_total_is_total(s.files@, s.order@);
    }
}

/// What is evicted is never newer than what is kept: the file named next is at least
/// as old as every file not tried yet.
pub proof fn law_the_oldest_goes_first(s: Sweep, later: int)
    requires
        s.wf(),
        s.at < later < s.order@.len(),
    ensures
        s.files@[s.order@[s.at as int] as int].modified <= s.files@[s.order@[later] as int].modified,
{
}

/// What is set of its own is used before what the system offers, and each system has its
/// own place for what can be thrown away.
pub proof fn law_each_system_has_its_cache(env: Environment)
    ensures
        env.own matches Some(own) && own@.len() > 0 ==> cache_dir(env, Platform::Other) == Some(
            env.own->0@,
        ) && cache_dir(env, Platform::MacOs) == Some(env.own->0@),
        env.own is None ==> {
            &&& (env.xdg matches Some(base) && base@.len() > 0 && base@.last() != '/') ==> cache_dir(
                env,
                Platform::Other,
            ) == Some(env.xdg->0@ + "/tuneterm"@)
            &&& (env.home matches Some(home) && home@.len() > 0 && home@.last() != '/') ==> {
                &&& env.xdg is None ==> cache_dir(env, Platform::Other) == Some(
                    env.home->0@ + "/.cache/tuneterm"@,
                )
                &&& cache_dir(env, Platform::MacOs) == Some(
                    env.home->0@ + "/Library/Caches/tuneterm"@,
                )
            }
            &&& env.home is None ==> cache_dir(env, Platform::MacOs) is None
            &&& env.home is None && env.xdg is None ==> cache_dir(env, Platform::Other) is None
        },
{
    reveal_strlit("tuneterm");
    reveal_strlit("/tuneterm");
    reveal_strlit(".cache");
    reveal_strlit("/.cache/tuneterm");
    reveal_strlit("Library/Caches");
    reveal_strlit("/Library/Caches/tuneterm");
    if env.own is None {
        if let Some(base) = env.xdg {
            if base@.len() > 0 && base@.last() != '/' {
                assert(within(base@, "tuneterm"@) =~= base@ + "/tuneterm"@);
            }
        }
        if let Some(home) = env.home {
            if home@.len() > 0 && home@.last() != '/' {
                let c = within(home@, ".cache"@);
                assert(c =~= home@ + seq!['/'] + ".cache"@);
                assert(c.last() == ".cache"@.last());
                assert(within(c, "tuneterm"@) =~= home@ + "/.cache/tuneterm"@);
                let m = within(home@, "Library/Caches"@);
                assert(m =~= home@ + seq!['/'] + "Library/Caches"@);
                assert(m.last() == "Library/Caches"@.last());
                assert(within(m, "tuneterm"@) =~= home@ + "/Library/Caches/tuneterm"@);
            }
        }
    }
}

/// An entry lies in the cache's directory under its key, and nowhere without one.
pub proof fn law_entries_lie_under_their_key(dir: Seq<char>, key: Seq<char>)
    requires
        dir.len() > 0,
        crate::paths::is_entry(key),
    ensures
        entry_path(Some(dir), key) matches Some(path) && crate::paths::below(path, dir) == Some(
            seq![key],
        ) && crate::paths::leaf(path) == Some(key),
        entry_path(None, key) is None,
{
    crate::paths::law_entries_lie_in_their_folder(dir, key);
}

/// Each file weighs what it is long, and together they weigh what each does.
pub proof fn law_every_file_counts(files: Seq<CacheFile>, file: CacheFile)
    ensures
        total_of(files.push(file)) == total_of(files) + file.len,
        total_of(seq![]) == 0,
{
    assert(files.push(file).drop_last() =~= files);
}

} // verus!
