//! The user's list of feeds, and what the player remembers about itself.
//!
//! Both are plain text, one entry per line, `#` for comments:
//!
//! ```text
//! # mixtapes
//! Music For Programming = https://musicforprogramming.net/rss.xml
//! https://example.com/podcast.xml
//! ```
//!
//! A feed's name is optional, and a bad line costs one entry instead of the whole
//! file. `settings.txt` sits beside it in the same shape, for the volume and enough
//! of the last session to put you back where you left off.

use vstd::prelude::*;
use crate::feed::copy_opt;
use crate::paths::{self, within};
use crate::text::{
    self, after_prefix, find, halves, has_prefix, is_space, is_trimmed, lemma_find, lemma_halves_cons,
    lemma_lines_cons, lemma_trimmed, lines_of, lowered, opt_view, trimmed, trimmed_end,
    trimmed_start, views,
};

verus! {

/// One entry of the feed list.
#[derive(Debug, PartialEq, Eq)]
pub struct Feed {
    /// What to show. Falls back to the host when the line carries no name.
    pub name: String,
    pub url: String,
}

/// What a [`Feed`] holds.
pub ghost struct FeedV {
    pub name: Seq<char>,
    pub url: Seq<char>,
}

impl View for Feed {
    type V = FeedV;

    open spec fn view(&self) -> FeedV {
        FeedV { name: self.name@, url: self.url@ }
    }
}

pub open spec fn feeds_view(v: Seq<Feed>) -> Seq<FeedV> {
    Seq::new(v.len(), |i: int| v[i]@)
}

impl Feed {
    pub fn copy(&self) -> (r: Feed)
        ensures
            r@ == self@,
    {
        Feed { name: self.name.clone(), url: self.url.clone() }
    }
}

// ---------------------------------------------------------------------------
// Where the files are
// ---------------------------------------------------------------------------

/// The systems that keep such files in different places.
#[derive(Debug, Clone, Copy, PartialEq, Eq, Structural)]
pub enum Platform {
    MacOs,
    Windows,
    Other,
}

/// The environment variables that say where files go.
#[derive(Debug)]
pub struct Environment {
    /// The player's own override for the directory asked for.
    pub own: Option<String>,
    pub home: Option<String>,
    /// `APPDATA` for the configuration, `LOCALAPPDATA` for the cache.
    pub app_data: Option<String>,
    /// `XDG_CONFIG_HOME` for the configuration, `XDG_CACHE_HOME` for the cache.
    pub xdg: Option<String>,
}

/// A variable that is set to something.
pub open spec fn set_to(o: Option<String>) -> Option<Seq<char>> {
    match o {
        Some(s) => if s@.len() > 0 {
            Some(s@)
        } else {
            None
        },
        None => None,
    }
}

/// The configuration directory: the override, or the player's own directory where
/// the system keeps such things.
pub open spec fn config_dir(env: Environment, platform: Platform) -> Option<Seq<char>> {
    match set_to(env.own) {
        Some(over) => Some(over),
        None => match platform {
            Platform::MacOs => match env.home {
                Some(home) => Some(
                    within(within(home@, "Library/Application Support"@), "tuneterm"@),
                ),
                None => None,
            },
            Platform::Windows => match env.app_data {
                Some(base) => Some(within(base@, "tuneterm"@)),
                None => None,
            },
            Platform::Other => match set_to(env.xdg) {
                Some(base) => Some(within(base, "tuneterm"@)),
                None => match env.home {
                    Some(home) => Some(within(within(home@, ".config"@), "tuneterm"@)),
                    None => None,
                },
            },
        },
    }
}

/// A variable that is set to something.
pub fn nonempty(o: &Option<String>) -> (r: Option<String>)
    ensures
        opt_view(r) == set_to(*o),
{
    match o {
        Some(s) => if s.as_str().is_empty() {
            None
        } else {
            Some(s.clone())
        },
        None => None,
    }
}

/// The configuration directory. Separate from the cache: this is the user's list,
/// not something that can be made again.
pub fn dir(env: &Environment, platform: Platform) -> (r: Option<String>)
    ensures
        opt_view(r) == config_dir(*env, platform),
{
    if let Some(over) = nonempty(&env.own) {
        return Some(over);
    }
    match platform {
        Platform::MacOs => match &env.home {
            Some(home) => {
                let base = paths::join(home.as_str(), "Library/Application Support");
                Some(paths::join(base.as_str(), "tuneterm"))
            },
            None => None,
        },
        Platform::Windows => match &env.app_data {
            Some(base) => Some(paths::join(base.as_str(), "tuneterm")),
            None => None,
        },
        Platform::Other => match nonempty(&env.xdg) {
            Some(base) => Some(paths::join(base.as_str(), "tuneterm")),
            None => match &env.home {
                Some(home) => {
                    let base = paths::join(home.as_str(), ".config");
                    Some(paths::join(base.as_str(), "tuneterm"))
                },
                None => None,
            },
        },
    }
}

/// The feed list, in the configuration directory.
pub fn feeds_path(dir: Option<String>) -> (r: Option<String>)
    ensures
        opt_view(r) == (match dir {
            Some(d) => Some(within(d@, "feeds.txt"@)),
            None => None,
        }),
{
    match dir {
        Some(d) => Some(paths::join(d.as_str(), "feeds.txt")),
        None => None,
    }
}

/// The settings, in the configuration directory.
pub fn settings_path(dir: Option<String>) -> (r: Option<String>)
    ensures
        opt_view(r) == (match dir {
            Some(d) => Some(within(d@, "settings.txt"@)),
            None => None,
        }),
{
    match dir {
        Some(d) => Some(paths::join(d.as_str(), "settings.txt")),
        None => None,
    }
}

// ---------------------------------------------------------------------------
// Lines
// ---------------------------------------------------------------------------

/// Lines put together, each with its newline.
pub open spec fn unlines(lines: Seq<Seq<char>>) -> Seq<char>
    decreases lines.len(),
{
    if lines.len() == 0 {
        seq![]
    } else {
        lines[0] + seq!['\n'] + unlines(lines.skip(1))
    }
}

/// A line that comes back as it was written.
pub open spec fn is_line(line: Seq<char>) -> bool {
    !line.contains('\n') && (line.len() > 0 ==> line.last() != '\r')
}

/// Lines come back as they were written.
pub proof fn lemma_unlines(lines: Seq<Seq<char>>)
    requires
        forall|i: int| 0 <= i < lines.len() ==> is_line(#[trigger] lines[i]),
    ensures
        lines_of(unlines(lines)) == lines,
    decreases lines.len(),
{
    if lines.len() > 0 {
        let rest = lines.skip(1);
        assert forall|i: int| 0 <= i < rest.len() implies is_line(#[trigger] rest[i]) by {
            assert(rest[i] == lines[i + 1]);
        }
        lemma_unlines(rest);
        assert(is_line(lines[0]));
        lemma_lines_cons(lines[0], unlines(rest));
        assert(seq![lines[0]] + rest =~= lines);
    }
}

proof fn lemma_unlines_push(lines: Seq<Seq<char>>, line: Seq<char>)
    ensures
        unlines(lines.push(line)) == unlines(lines) + line + seq!['\n'],
    decreases lines.len(),
{
    let all = lines.push(line);
    let end = seq!['\n'];
    if lines.len() == 0 {
        assert(all.skip(1).len() == 0);
        assert(unlines(all.skip(1)) =~= Seq::<char>::empty());
        assert(unlines(lines) =~= Seq::<char>::empty());
        assert(unlines(all) == line + end + unlines(all.skip(1)));
        assert(unlines(all) =~= unlines(lines) + line + end);
    } else {
        lemma_unlines_push(lines.skip(1), line);
        assert(all.skip(1) =~= lines.skip(1).push(line));
        assert(all[0] == lines[0]);
        assert(unlines(all) == lines[0] + end + unlines(all.skip(1)));
        assert(unlines(lines) == lines[0] + end + unlines(lines.skip(1)));
        assert(unlines(all) =~= unlines(lines) + line + end);
    }
}

/// Lines as one text.
pub fn write_lines(lines: &Vec<String>) -> (r: String)
    ensures
        r@ == unlines(views(lines@)),
{
    let mut r = String::new();
    let ghost all = views(lines@);
    let mut i: usize = 0;
    assert(all.take(0) =~= seq![]);
    while i < lines.len()
        invariant
            i <= lines@.len(),
            all == views(lines@),
            r@ == unlines(all.take(i as int)),
        decreases lines@.len() - i,
    {
        let ghost was = r@;
        text::push_str(&mut r, lines[i].as_str());
        r.push('\n');
        proof {
            lemma_unlines_push(all.take(i as int), all[i as int]);
            assert(all.take(i as int).push(all[i as int]) =~= all.take(i as int + 1));
            assert(r@ =~= was + all[i as int] + seq!['\n']);
        }
        i = i + 1;
    }
    assert(all.take(i as int) =~= all);
    r
}

/// A line that says nothing: blank, or a comment.
pub open spec fn is_idle(line: Seq<char>) -> bool {
    trimmed(line).len() == 0 || trimmed(line)[0] == '#'
}

/// True for a line, trimmed already, that says nothing.
fn idle(line: &str) -> (b: bool)
    ensures
        b == (line@.len() == 0 || line@[0] == '#'),
{
    let v = text::chars_of(line);
    v.len() == 0 || v[0] == '#'
}

/// A space in front is trimmed away.
pub proof fn lemma_trimmed_after_space(s: Seq<char>)
    requires
        is_trimmed(s),
    ensures
        trimmed(seq![' '] + s) == s,
{
    let t = seq![' '] + s;
    assert(is_space(' '));
    assert(t[0] == ' ');
    assert(t.skip(1) =~= s);
    assert(trimmed_start(t) == trimmed_start(s));
    lemma_trimmed(s);
}

/// A space behind is trimmed away.
pub proof fn lemma_trimmed_before_space(s: Seq<char>)
    requires
        is_trimmed(s),
        s.len() > 0,
    ensures
        trimmed(s.push(' ')) == s,
{
    let u = s.push(' ');
    assert(is_space(' '));
    assert(u[0] == s[0]);
    assert(trimmed_start(u) == u);
    assert(u.last() == ' ');
    assert(u.drop_last() =~= s);
    assert(trimmed_end(u) == trimmed_end(s));
    assert(trimmed_end(s) == s);
}

// ---------------------------------------------------------------------------
// Feeds
// ---------------------------------------------------------------------------

/// Enough of a URL to reject a typo; not a validator.
pub open spec fn is_url_text(s: Seq<char>) -> bool {
    match after_prefix(s, "https://"@) {
        Some(rest) => rest.len() > 0 && rest[0] != '/',
        None => match after_prefix(s, "http://"@) {
            Some(rest) => rest.len() > 0 && rest[0] != '/',
            None => false,
        },
    }
}

/// Deliberately shallow: enough to reject a typo, not a validator.
pub fn is_url(text: &str) -> (b: bool)
    ensures
        b == is_url_text(text@),
{
    let rest = match text::strip_prefix(text, "https://") {
        Some(rest) => rest,
        None => match text::strip_prefix(text, "http://") {
            Some(rest) => rest,
            None => {
                return false;
            },
        },
    };
    let v = text::chars_of(rest);
    v.len() > 0 && v[0] != '/'
}

/// What follows the first `//`; all of it when there is none.
pub open spec fn after_slashes(s: Seq<char>) -> Seq<char> {
    let at = slashes(s) as int;
    if at < s.len() {
        s.skip(at + 2)
    } else {
        s
    }
}

/// How far into `s` the first `//` is; the length of `s` when there is none.
pub open spec fn slashes(s: Seq<char>) -> nat
    decreases s.len(),
{
    if s.len() == 0 {
        0
    } else if s.len() >= 2 && s[0] == '/' && s[1] == '/' {
        0
    } else {
        1 + slashes(s.skip(1))
    }
}

/// Up to the first `/`, `?` or `#`.
pub open spec fn before_path(s: Seq<char>) -> Seq<char>
    decreases s.len(),
{
    if s.len() == 0 || s[0] == '/' || s[0] == '?' || s[0] == '#' {
        seq![]
    } else {
        seq![s[0]] + before_path(s.skip(1))
    }
}

/// Without any `www.` in front.
pub open spec fn without_www(s: Seq<char>) -> Seq<char>
    decreases s.len(),
{
    if has_prefix(s, seq!['w', 'w', 'w', '.']) {
        without_www(s.skip(4))
    } else {
        s
    }
}

/// Host of a URL, for naming a feed that arrived without a name.
pub open spec fn host(url: Seq<char>) -> Seq<char> {
    without_www(before_path(after_slashes(url)))
}

fn skip_slashes(v: &Vec<char>) -> (at: usize)
    ensures
        at <= v@.len(),
        v@.skip(at as int) == after_slashes(v@),
{
    let n: usize = v.len();
    let mut i: usize = 0;
    assert(v@.skip(0) =~= v@);
    while i < n
        invariant
            i <= n,
            n == v@.len(),
            slashes(v@) == i + slashes(v@.skip(i as int)),
        decreases n - i,
    {
        let ghost rest = v@.skip(i as int);
        assert(rest.skip(1) =~= v@.skip(i as int + 1));
        if n - i >= 2 && v[i] == '/' && v[i + 1] == '/' {
            assert(rest[0] == '/' && rest[1] == '/');
            return i + 2;
        }
        i = i + 1;
    }
    0
}

/// Where the host that begins at `start` ends.
fn host_end(v: &Vec<char>, start: usize) -> (end: usize)
    requires
        start <= v@.len(),
    ensures
        start <= end <= v@.len(),
        v@.subrange(start as int, end as int) == before_path(v@.skip(start as int)),
{
    let n: usize = v.len();
    let ghost rest = v@.skip(start as int);
    let mut end: usize = start;
    assert(rest.skip(0) =~= rest);
    assert(rest.take(0) + before_path(rest) =~= before_path(rest));
    while end < n && v[end] != '/' && v[end] != '?' && v[end] != '#'
        invariant
            start <= end <= n,
            n == v@.len(),
            rest == v@.skip(start as int),
            before_path(rest) == rest.take(end - start) + before_path(rest.skip(end - start)),
        decreases n - end,
    {
        proof {
            let r = rest.skip(end - start);
            assert(r[0] == v@[end as int]);
            assert(r.skip(1) =~= rest.skip(end - start + 1));
            assert(rest.take(end - start + 1) =~= rest.take(end - start).push(r[0]));
            assert(rest.take(end - start) + (seq![r[0]] + before_path(r.skip(1))) =~= rest.take(
                end - start,
            ).push(r[0]) + before_path(r.skip(1)));
        }
        end = end + 1;
    }
    proof {
        let r = rest.skip(end - start);
        if end < n {
            assert(r[0] == v@[end as int]);
        }
        assert(before_path(r) =~= seq![]);
        assert(before_path(rest) =~= v@.subrange(start as int, end as int));
    }
    end
}

/// Past every `www.` that the stretch from `start` to `end` begins with.
fn past_www(v: &Vec<char>, start: usize, end: usize) -> (from: usize)
    requires
        start <= end <= v@.len(),
    ensures
        start <= from <= end,
        v@.subrange(from as int, end as int) == without_www(
            v@.subrange(start as int, end as int),
        ),
{
    let n: usize = v.len();
    let ghost name = v@.subrange(start as int, end as int);
    let mut from: usize = start;
    assert(name.skip(0) =~= name);
    while end - from >= 4 && v[from] == 'w' && v[from + 1] == 'w' && v[from + 2] == 'w' && v[from
        + 3] == '.'
        invariant
            start <= from <= end <= n,
            n == v@.len(),
            name == v@.subrange(start as int, end as int),
            without_www(name) == without_www(name.skip(from - start)),
        decreases end - from,
    {
        proof {
            let t = name.skip(from - start);
            assert(t.take(4) =~= seq!['w', 'w', 'w', '.']);
            assert(t.skip(4) =~= name.skip(from - start + 4));
        }
        from = from + 4;
    }
    proof {
        let t = name.skip(from - start);
        if has_prefix(t, seq!['w', 'w', 'w', '.']) {
            let p = t.take(4);
            assert(p[0] == 'w' && p[1] == 'w' && p[2] == 'w' && p[3] == '.');
            assert(t[0] == v@[from as int] && t[1] == v@[from + 1] && t[2] == v@[from + 2] && t[3]
                == v@[from + 3]);
        }
        assert(t =~= v@.subrange(from as int, end as int));
    }
    from
}

/// Host of a URL, for naming a feed that arrived without one.
pub fn host_of(url: &str) -> (r: String)
    ensures
        r@ == host(url@),
{
    let v = text::chars_of(url);
    let start: usize = skip_slashes(&v);
    let end: usize = host_end(&v, start);
    let from: usize = past_www(&v, start, end);
    text::string_of(&v, from, end)
}

/// What stands before an `=` is the beginning of a URL with a query string, which goes
/// on behind it: a name has white space between it and the `=`, or is no URL.
pub open spec fn is_query(left: Seq<char>) -> bool {
    is_url_text(left) && !is_space(left.last())
}

/// The name and the URL of a line `name = url`, but only when the part after `=` looks
/// like a URL: a bare URL can contain `=` in its query string, and even another URL
/// behind it.
pub open spec fn named_url(line: Seq<char>) -> Option<(Seq<char>, Seq<char>)> {
    match halves(line, '=') {
        Some((left, right)) => if is_url_text(trimmed(right)) && !is_query(left) {
            Some((trimmed(left), trimmed(right)))
        } else {
            None
        },
        None => None,
    }
}

/// The feed on a line, if there is one: `name = url`, or a URL alone, which is named
/// after its host.
pub open spec fn feed_on(raw: Seq<char>) -> Option<FeedV> {
    let line = trimmed(raw);
    if is_idle(raw) {
        None
    } else {
        let (name, url) = match named_url(line) {
            Some(pair) => pair,
            None => (seq![], line),
        };
        if !is_url_text(url) {
            None
        } else {
            Some(
                FeedV {
                    name: if name.len() == 0 {
                        host(url)
                    } else {
                        name
                    },
                    url,
                },
            )
        }
    }
}

/// The feeds on some lines.
pub open spec fn feeds_on(lines: Seq<Seq<char>>) -> Seq<FeedV>
    decreases lines.len(),
{
    if lines.len() == 0 {
        seq![]
    } else {
        match feed_on(lines.last()) {
            Some(feed) => feeds_on(lines.drop_last()).push(feed),
            None => feeds_on(lines.drop_last()),
        }
    }
}

fn continues_in_query(left: &str) -> (b: bool)
    ensures
        b == is_query(left@),
{
    if !is_url(left) {
        return false;
    }
    let v = text::chars_of(left);
    proof {
        reveal_strlit("https://");
        reveal_strlit("http://");
    }
    !text::space(v[v.len() - 1])
}

fn parse_line(raw: &str) -> (r: Option<Feed>)
    ensures
        match r {
            Some(feed) => feed_on(raw@) == Some(feed@),
            None => feed_on(raw@) is None,
        },
{
    let line = text::trim(raw);
    if idle(line) {
        return None;
    }
    if let Some((left, right)) = text::split_once(line, '=') {
        let url = text::trim(right);
        if is_url(url) && !continues_in_query(left) {
            let name = text::trim(left);
            let name = if name.is_empty() {
                host_of(url)
            } else {
                name.to_owned()
            };
            return Some(Feed { name, url: url.to_owned() });
        }
    }
    if is_url(line) {
        Some(Feed { name: host_of(line), url: line.to_owned() })
    } else {
        None
    }
}

/// The feeds a text lists.
pub fn parse(text: &str) -> (feeds: Vec<Feed>)
    ensures
        feeds_view(feeds@) == feeds_on(lines_of(text@)),
{
    let lines = text::lines(text);
    let ghost all = lines_of(text@);
    let mut feeds: Vec<Feed> = Vec::new();
    let mut i: usize = 0;
    proof {
        assert(all.take(0) =~= seq![]);
        assert(feeds_view(feeds@) =~= seq![]);
    }
    while i < lines.len()
        invariant
            i <= lines@.len(),
            all == views(lines@),
            feeds_view(feeds@) == feeds_on(all.take(i as int)),
        decreases lines@.len() - i,
    {
        let ghost was = feeds_view(feeds@);
        proof {
            let t = all.take(i as int + 1);
            assert(t.drop_last() =~= all.take(i as int));
            assert(t.last() == lines@[i as int]@);
        }
        if let Some(feed) = parse_line(lines[i].as_str()) {
            let ghost fv = feed@;
            feeds.push(feed);
            assert(feeds_view(feeds@) =~= was.push(fv));
        }
        i = i + 1;
    }
    assert(all.take(i as int) =~= all);
    feeds
}

/// The feed shipped so the tab is not empty on a first run.
pub fn default_feed() -> (feed: Feed)
    ensures
        feed.name@ == "Music For Programming"@,
        feed.url@ == "https://musicforprogramming.net/rss.xml"@,
{
    Feed {
        name: "Music For Programming".to_owned(),
        url: "https://musicforprogramming.net/rss.xml".to_owned(),
    }
}

/// The list to start with: what the file holds, or the default when there is none
/// yet.
pub fn load_feeds(text: Option<&str>) -> (feeds: Vec<Feed>)
    ensures
        match text {
            Some(t) => feeds_view(feeds@) == feeds_on(lines_of(t@)),
            None => feeds_view(feeds@) == seq![
                FeedV {
                    name: "Music For Programming"@,
                    url: "https://musicforprogramming.net/rss.xml"@,
                },
            ],
        },
{
    match text {
        Some(t) => parse(t),
        None => {
            let mut feeds: Vec<Feed> = Vec::new();
            feeds.push(default_feed());
            assert(feeds_view(feeds@) =~= seq![
                FeedV {
                    name: "Music For Programming"@,
                    url: "https://musicforprogramming.net/rss.xml"@,
                },
            ]);
            feeds
        },
    }
}

/// The line a feed is written on. A name that the URL already says is left out.
pub open spec fn feed_line(feed: FeedV) -> Seq<char> {
    if feed.name.len() == 0 || feed.name == host(feed.url) {
        feed.url
    } else {
        feed.name + " = "@ + feed.url
    }
}

/// The lines of the feed list.
pub open spec fn feed_lines(feeds: Seq<FeedV>) -> Seq<Seq<char>> {
    seq!["# tuneterm feeds — one per line, `name = url`, `#` comments"@] + Seq::new(
        feeds.len(),
        |i: int| feed_line(feeds[i]),
    )
}

/// The feed list as text.
pub fn feeds_text(feeds: &Vec<Feed>) -> (r: String)
    ensures
        r@ == unlines(feed_lines(feeds_view(feeds@))),
{
    let mut lines: Vec<String> = Vec::new();
    lines.push("# tuneterm feeds — one per line, `name = url`, `#` comments".to_owned());
    let mut i: usize = 0;
    while i < feeds.len()
        invariant
            i <= feeds@.len(),
            lines@.len() == i + 1,
            lines@[0]@ == "# tuneterm feeds — one per line, `name = url`, `#` comments"@,
            forall|k: int| 1 <= k < i + 1 ==> (#[trigger] lines@[k])@ == feed_line(feeds@[k - 1]@),
        decreases feeds@.len() - i,
    {
        let feed = &feeds[i];
        let name = host_of(feed.url.as_str());
        if feed.name.as_str().is_empty() || text::same(feed.name.as_str(), name.as_str()) {
            lines.push(feed.url.clone());
        } else {
            lines.push(text::cat3(feed.name.as_str(), " = ", feed.url.as_str()));
        }
        i = i + 1;
    }
    assert(views(lines@) =~= feed_lines(feeds_view(feeds@)));
    write_lines(&lines)
}

/// A feed that a line can hold: a trimmed URL, and a trimmed name that neither looks
/// like a comment nor contains what separates a name from its URL. A URL that stands
/// on a line of its own must not itself read as a name and a URL.
pub open spec fn is_writable(feed: FeedV) -> bool {
    &&& is_url_text(feed.url)
    &&& is_trimmed(feed.url)
    &&& !feed.url.contains('\n')
    &&& feed.name.len() > 0
    &&& if feed.name == host(feed.url) {
        named_url(feed.url) is None
    } else {
        &&& is_trimmed(feed.name)
        &&& !feed.name.contains('\n')
        &&& !feed.name.contains('=')
        &&& feed.name[0] != '#'
    }
}

/// The list that is written is the list that is read back: no name is lost, and none
/// is invented.
pub proof fn law_feeds_survive_a_round_trip(feeds: Seq<FeedV>)
    requires
        forall|i: int| 0 <= i < feeds.len() ==> is_writable(#[trigger] feeds[i]),
    ensures
        feeds_on(lines_of(unlines(feed_lines(feeds)))) == feeds,
{
    let header = "# tuneterm feeds — one per line, `name = url`, `#` comments"@;
    reveal_strlit("# tuneterm feeds — one per line, `name = url`, `#` comments");
    let lines = feed_lines(feeds);
    assert forall|i: int| 0 <= i < lines.len() implies is_line(#[trigger] lines[i]) by {
        if i == 0 {
            assert(lines[0] == header);
            assert forall|k: int| 0 <= k < header.len() implies #[trigger] header[k] != '\n' by {}
        } else {
            assert(lines[i] == feed_line(feeds[i - 1]));
            assert(is_writable(feeds[i - 1]));
            lemma_feed_line(feeds[i - 1]);
        }
    }
    lemma_unlines(lines);
    lemma_feeds_on(feeds, lines, lines.len() as int);
    assert(lines.take(lines.len() as int) =~= lines);
    assert(feeds.take(feeds.len() as int) =~= feeds);
}

proof fn lemma_feeds_on(feeds: Seq<FeedV>, lines: Seq<Seq<char>>, n: int)
    requires
        forall|i: int| 0 <= i < feeds.len() ==> is_writable(#[trigger] feeds[i]),
        lines == feed_lines(feeds),
        1 <= n <= lines.len(),
    ensures
        feeds_on(lines.take(n)) == feeds.take(n - 1),
    decreases n,
{
    let t = lines.take(n);
    if n == 1 {
        reveal_strlit("# tuneterm feeds — one per line, `name = url`, `#` comments");
        let header = "# tuneterm feeds — one per line, `name = url`, `#` comments"@;
        assert(t.last() == header);
        lemma_trimmed(header);
        assert(is_idle(header));
        assert(t.drop_last() =~= seq![]);
        assert(feeds.take(0) =~= seq![]);
        assert(feeds_on(t) =~= feeds_on(t.drop_last()));
    } else {
        lemma_feeds_on(feeds, lines, n - 1);
        assert(t.drop_last() =~= lines.take(n - 1));
        assert(t.last() == feed_line(feeds[n - 2]));
        assert(is_writable(feeds[n - 2]));
        lemma_feed_line(feeds[n - 2]);
        assert(feeds.take(n - 1) =~= feeds.take(n - 2).push(feeds[n - 2]));
    }
}

/// Two texts with ` = ` between them come apart again.
proof fn lemma_pair(a: Seq<char>, b: Seq<char>)
    requires
        a.len() > 0,
        is_trimmed(a),
        !a.contains('='),
        !a.contains('\n'),
        b.len() > 0,
        is_trimmed(b),
        !b.contains('\n'),
    ensures
        ({
            let line = a + " = "@ + b;
            &&& is_line(line)
            &&& trimmed(line) == line
            &&& line.len() > 0
            &&& line[0] == a[0]
            &&& halves(line, '=') matches Some((l, r)) && l == a.push(' ') && trimmed(l) == a
                && trimmed(r) == b
        }),
{
    let line = a + " = "@ + b;
    let left = a.push(' ');
    let right = seq![' '] + b;
    assert(line =~= left + seq!['='] + right) by {
        reveal_strlit(" = ");
    }
    assert(!left.contains('=')) by {
        assert forall|i: int| 0 <= i < left.len() implies #[trigger] left[i] != '=' by {
            if i < a.len() {
                assert(a.contains(a[i]));
            }
        }
    }
    lemma_halves_cons(left, '=', right);
    lemma_trimmed_before_space(a);
    lemma_trimmed_after_space(b);
    assert(line[0] == a[0]);
    assert(line.last() == b.last());
    assert(is_trimmed(line));
    assert(trimmed(line) == line) by {
        lemma_trimmed(line);
    }
    assert(!line.contains('\n')) by {
        assert forall|i: int| 0 <= i < line.len() implies #[trigger] line[i] != '\n' by {
            if i < a.len() {
                assert(line[i] == a[i] && a.contains(a[i]));
            } else if i >= a.len() + 3 {
                assert(line[i] == b[i - a.len() - 3]);
                assert(b.contains(b[i - a.len() - 3]));
            } else {
                assert(line[i] == left[i] || line[i] == '=' || line[i] == right[0]);
            }
        }
    }
    assert(is_space('\r'));
}

/// A feed's line holds that feed.
proof fn lemma_feed_line(feed: FeedV)
    requires
        is_writable(feed),
    ensures
        is_line(feed_line(feed)),
        feed_on(feed_line(feed)) == Some(feed),
{
    let url = feed.url;
    let name = feed.name;
    assert(trimmed(url) == url) by {
        lemma_trimmed(url);
    }
    assert(url.len() > 0 && url[0] == 'h') by {
        reveal_strlit("https://");
        reveal_strlit("http://");
        if after_prefix(url, "https://"@) is Some {
            assert(url.take(8)[0] == 'h');
        } else {
            assert(url.take(7)[0] == 'h');
        }
    }
    if name == host(url) {
        assert(feed_line(feed) == url);
        assert(is_space('\r'));
        assert(!is_idle(url));
    } else {
        lemma_pair(name, url);
        assert(!is_idle(feed_line(feed)));
        let (left, right) = halves(feed_line(feed), '=')->0;
        assert(left.last() == ' ');
    }
}

// ---------------------------------------------------------------------------
// Settings
// ---------------------------------------------------------------------------

/// The server to use when not given one, and the token for any server whose address
/// does not carry its own.
#[derive(Debug, PartialEq, Eq)]
pub struct Remote {
    pub server: Option<String>,
    pub token: Option<String>,
}

/// What a [`Remote`] holds.
pub ghost struct RemoteV {
    pub server: Option<Seq<char>>,
    pub token: Option<Seq<char>>,
}

impl View for Remote {
    type V = RemoteV;

    open spec fn view(&self) -> RemoteV {
        RemoteV { server: opt_view(self.server), token: opt_view(self.token) }
    }
}

impl Remote {
    /// No server.
    pub fn none() -> (r: Remote)
        ensures
            r@ == (RemoteV { server: None, token: None }),
    {
        Remote { server: None, token: None }
    }

    pub fn copy(&self) -> (r: Remote)
        ensures
            r@ == self@,
    {
        Remote { server: copy_opt(&self.server), token: copy_opt(&self.token) }
    }
}

/// Where the player was when it was last closed.
///
/// Everything is optional and everything is a hint: a folder can be deleted and a
/// feed can be removed between runs, so nothing here may be trusted to still exist.
#[derive(Debug, PartialEq, Eq)]
pub struct Session {
    /// Which source tab was showing: `local`, `feeds` or `radio`.
    pub tab: Option<String>,
    /// The folder the left pane was listing.
    pub folder: Option<String>,
    /// The row highlighted in it, whose tracks the right pane was showing.
    pub selected: Option<String>,
    /// URL of the feed that was selected.
    pub feed: Option<String>,
    /// What was playing, identified the way a track is: a path, or a URL.
    pub track: Option<String>,
    /// The folder the queue came from.
    pub queue: Option<String>,
    /// How far into the track, in seconds: every reading the file gives, as written.
    /// The last one that is a number not below zero counts.
    pub position: Vec<String>,
    /// Whether it was playing rather than paused.
    pub playing: bool,
}

/// What a [`Session`] holds.
pub ghost struct SessionV {
    pub tab: Option<Seq<char>>,
    pub folder: Option<Seq<char>>,
    pub selected: Option<Seq<char>>,
    pub feed: Option<Seq<char>>,
    pub track: Option<Seq<char>>,
    pub queue: Option<Seq<char>>,
    pub position: Seq<Seq<char>>,
    pub playing: bool,
}

impl View for Session {
    type V = SessionV;

    open spec fn view(&self) -> SessionV {
        SessionV {
            tab: opt_view(self.tab),
            folder: opt_view(self.folder),
            selected: opt_view(self.selected),
            feed: opt_view(self.feed),
            track: opt_view(self.track),
            queue: opt_view(self.queue),
            position: views(self.position@),
            playing: self.playing,
        }
    }
}

/// The knobs the player sets for itself, as opposed to the list the user curates.
///
/// An unrecognised key is skipped rather than failing the file, so a settings file
/// written by a newer build still loads, and so does one written before any of the
/// session keys existed: every one of them is optional.
#[derive(Debug, PartialEq, Eq)]
pub struct Settings {
    /// The volume: every reading the file gives, as written. The last one that is a
    /// number counts.
    pub volume: Vec<String>,
    pub shuffle: bool,
    pub session: Session,
    pub remote: Remote,
}

/// What a [`Settings`] holds.
pub ghost struct SettingsV {
    pub volume: Seq<Seq<char>>,
    pub shuffle: bool,
    pub session: SessionV,
    pub remote: RemoteV,
}

impl View for Settings {
    type V = SettingsV;

    open spec fn view(&self) -> SettingsV {
        SettingsV {
            volume: views(self.volume@),
            shuffle: self.shuffle,
            session: self.session@,
            remote: self.remote@,
        }
    }
}

impl SettingsV {
    /// Nothing set.
    pub open spec fn blank() -> SettingsV {
        SettingsV {
            volume: seq![],
            shuffle: false,
            session: SessionV {
                tab: None,
                folder: None,
                selected: None,
                feed: None,
                track: None,
                queue: None,
                position: seq![],
                playing: false,
            },
            remote: RemoteV { server: None, token: None },
        }
    }

    /// With one key set. A key that is not known changes nothing.
    pub open spec fn with(self, key: Seq<char>, value: Seq<char>) -> SettingsV {
        let s = self.session;
        let r = self.remote;
        if key == "volume"@ {
            SettingsV { volume: self.volume.push(value), ..self }
        } else if key == "shuffle"@ {
            SettingsV { shuffle: says_yes(value), ..self }
        } else if key == "playing"@ {
            SettingsV { session: SessionV { playing: says_yes(value), ..s }, ..self }
        } else if key == "tab"@ {
            SettingsV { session: SessionV { tab: Some(lowered(value)), ..s }, ..self }
        } else if key == "folder"@ {
            SettingsV { session: SessionV { folder: Some(value), ..s }, ..self }
        } else if key == "selected"@ {
            SettingsV { session: SessionV { selected: Some(value), ..s }, ..self }
        } else if key == "feed"@ {
            SettingsV { session: SessionV { feed: Some(value), ..s }, ..self }
        } else if key == "track"@ {
            SettingsV { session: SessionV { track: Some(value), ..s }, ..self }
        } else if key == "queue"@ {
            SettingsV { session: SessionV { queue: Some(value), ..s }, ..self }
        } else if key == "server"@ {
            SettingsV { remote: RemoteV { server: Some(value), ..r }, ..self }
        } else if key == "token"@ {
            SettingsV { remote: RemoteV { token: Some(value), ..r }, ..self }
        } else if key == "position"@ {
            SettingsV { session: SessionV { position: s.position.push(value), ..s }, ..self }
        } else {
            self
        }
    }

    /// What a line adds. Only the first `=` splits: a path or a URL may well contain
    /// more. An empty value means "not set".
    pub open spec fn reading(self, raw: Seq<char>) -> SettingsV {
        if is_idle(raw) {
            self
        } else {
            match halves(trimmed(raw), '=') {
                Some((key, value)) => if trimmed(value).len() == 0 {
                    self
                } else {
                    self.with(trimmed(key), trimmed(value))
                },
                None => self,
            }
        }
    }

    /// What some lines add.
    pub open spec fn reading_all(self, lines: Seq<Seq<char>>) -> SettingsV
        decreases lines.len(),
    {
        if lines.len() == 0 {
            self
        } else {
            self.reading_all(lines.drop_last()).reading(lines.last())
        }
    }
}

/// The settings in a text.
pub open spec fn settings_in(text: Seq<char>) -> SettingsV {
    SettingsV::blank().reading_all(lines_of(text))
}

/// The ways a person might write "on".
pub open spec fn says_yes(value: Seq<char>) -> bool {
    value == "1"@ || value == "true"@ || value == "yes"@ || value == "on"@
}

/// The ways a person might write "on" in a file they edited by hand.
pub fn is_yes(value: &str) -> (b: bool)
    ensures
        b == says_yes(value@),
{
    text::same(value, "1") || text::same(value, "true") || text::same(value, "yes") || text::same(
        value,
        "on",
    )
}

impl Settings {
    /// Nothing set.
    pub fn new() -> (s: Settings)
        ensures
            s@ == SettingsV::blank(),
    {
        let s = Settings {
            volume: Vec::new(),
            shuffle: false,
            session: Session {
                tab: None,
                folder: None,
                selected: None,
                feed: None,
                track: None,
                queue: None,
                position: Vec::new(),
                playing: false,
            },
            remote: Remote { server: None, token: None },
        };
        assert(s@.volume =~= seq![]);
        assert(s@.session.position =~= seq![]);
        s
    }

    fn set(&mut self, key: &str, value: &str)
        ensures
            final(self)@ == old(self)@.with(key@, value@),
    {
        let ghost was = self@;
        if text::same(key, "volume") {
            self.volume.push(value.to_owned());
            assert(self@.volume =~= was.volume.push(value@));
        } else if text::same(key, "shuffle") {
            self.shuffle = is_yes(value);
        } else if text::same(key, "playing") {
            self.session.playing = is_yes(value);
        } else if text::same(key, "tab") {
            self.session.tab = Some(text::lower(value));
        } else if text::same(key, "folder") {
            self.session.folder = Some(value.to_owned());
        } else if text::same(key, "selected") {
            self.session.selected = Some(value.to_owned());
        } else if text::same(key, "feed") {
            self.session.feed = Some(value.to_owned());
        } else if text::same(key, "track") {
            self.session.track = Some(value.to_owned());
        } else if text::same(key, "queue") {
            self.session.queue = Some(value.to_owned());
        } else if text::same(key, "server") {
            self.remote.server = Some(value.to_owned());
        } else if text::same(key, "token") {
            self.remote.token = Some(value.to_owned());
        } else if text::same(key, "position") {
            self.session.position.push(value.to_owned());
            assert(self@.session.position =~= was.session.position.push(value@));
        }
    }
}

/// The settings a text holds.
pub fn parse_settings(text: &str) -> (s: Settings)
    ensures
        s@ == settings_in(text@),
{
    let lines = text::lines(text);
    let ghost all = lines_of(text@);
    let mut s = Settings::new();
    let mut i: usize = 0;
    assert(all.take(0) =~= seq![]);
    while i < lines.len()
        invariant
            i <= lines@.len(),
            all == views(lines@),
            s@ == SettingsV::blank().reading_all(all.take(i as int)),
        decreases lines@.len() - i,
    {
        proof {
            let t = all.take(i as int + 1);
            assert(t.drop_last() =~= all.take(i as int));
            assert(t.last() == lines@[i as int]@);
        }
        let line = text::trim(lines[i].as_str());
        if !idle(line) {
            if let Some((key, value)) = text::split_once(line, '=') {
                let value = text::trim(value);
                if !value.is_empty() {
                    s.set(text::trim(key), value);
                }
            }
        }
        i = i + 1;
    }
    assert(all.take(i as int) =~= all);
    s
}

/// The settings to start with: what the file holds, or nothing when there is none.
pub fn load_settings(text: Option<&str>) -> (s: Settings)
    ensures
        s@ == (match text {
            Some(t) => settings_in(t@),
            None => SettingsV::blank(),
        }),
{
    match text {
        Some(t) => parse_settings(t),
        None => Settings::new(),
    }
}

/// The line for a key, where there is a value to write.
pub open spec fn entry(key: Seq<char>, value: Option<Seq<char>>) -> Seq<Seq<char>> {
    match value {
        Some(v) => if v.len() > 0 {
            seq![key + " = "@ + v]
        } else {
            seq![]
        },
        None => seq![],
    }
}

/// A line for each reading.
pub open spec fn entries(key: Seq<char>, values: Seq<Seq<char>>) -> Seq<Seq<char>> {
    Seq::new(values.len(), |i: int| key + " = "@ + values[i])
}

pub open spec fn digit_of(b: bool) -> Seq<char> {
    if b {
        "1"@
    } else {
        "0"@
    }
}

/// The lines of the settings file. An absent value is left out rather than written
/// empty, and `playing` goes only alongside a track: on its own it would describe
/// nothing.
pub open spec fn settings_lines(s: SettingsV) -> Seq<Seq<char>> {
    seq!["# tuneterm settings — written by the app, safe to edit"@] + entries("volume"@, s.volume)
        + entry("shuffle"@, Some(digit_of(s.shuffle))) + seq![
        ""@,
        "# a tuneterm server: `server` for push, ls, mv and rm; `token` for any server"@,
    ] + entry("server"@, s.remote.server) + entry("token"@, s.remote.token) + seq![
        ""@,
        "# where the last session left off"@,
    ] + entry("tab"@, s.session.tab) + entry("folder"@, s.session.folder) + entry(
        "selected"@,
        s.session.selected,
    ) + entry("feed"@, s.session.feed) + entry("track"@, s.session.track) + entry(
        "queue"@,
        s.session.queue,
    ) + entries("position"@, s.session.position) + (if s.session.track is Some {
        entry("playing"@, Some(digit_of(s.session.playing)))
    } else {
        seq![]
    })
}

fn push_line(lines: &mut Vec<String>, line: &str)
    ensures
        views(final(lines)@) == views(old(lines)@) + seq![line@],
{
    let ghost was = views(lines@);
    lines.push(line.to_owned());
    assert(views(lines@) =~= was + seq![line@]);
}

fn push_entry(lines: &mut Vec<String>, key: &str, value: &Option<String>)
    ensures
        views(final(lines)@) == views(old(lines)@) + entry(key@, opt_view(*value)),
{
    let ghost was = views(lines@);
    assert(was + seq![] =~= was);
    if let Some(v) = value {
        if !v.as_str().is_empty() {
            push_line(lines, text::cat3(key, " = ", v.as_str()).as_str());
        }
    }
}

fn push_flag(lines: &mut Vec<String>, key: &str, value: bool)
    ensures
        views(final(lines)@) == views(old(lines)@) + entry(key@, Some(digit_of(value))),
{
    proof {
        reveal_strlit("0");
        reveal_strlit("1");
    }
    if value {
        push_line(lines, text::cat3(key, " = ", "1").as_str());
    } else {
        push_line(lines, text::cat3(key, " = ", "0").as_str());
    }
}

fn push_entries(lines: &mut Vec<String>, key: &str, values: &Vec<String>)
    ensures
        views(final(lines)@) == views(old(lines)@) + entries(key@, views(values@)),
{
    let ghost was = views(lines@);
    let ghost all = entries(key@, views(values@));
    let mut i: usize = 0;
    assert(was + all.take(0) =~= was);
    while i < values.len()
        invariant
            i <= values@.len(),
            all == entries(key@, views(values@)),
            views(lines@) == was + all.take(i as int),
        decreases values@.len() - i,
    {
        push_line(lines, text::cat3(key, " = ", values[i].as_str()).as_str());
        i = i + 1;
        assert(was + all.take(i - 1) + seq![all[i - 1]] =~= was + all.take(i as int));
    }
    assert(all.take(i as int) =~= all);
}

/// The settings as text.
pub fn settings_text(s: &Settings) -> (r: String)
    ensures
        r@ == unlines(settings_lines(s@)),
{
    let mut lines: Vec<String> = Vec::new();
    proof {
        assert(views(lines@) =~= seq![]);
        assert(Seq::<Seq<char>>::empty() + seq![
            "# tuneterm settings — written by the app, safe to edit"@,
        ] =~= seq!["# tuneterm settings — written by the app, safe to edit"@]);
    }
    push_line(&mut lines, "# tuneterm settings — written by the app, safe to edit");
    push_entries(&mut lines, "volume", &s.volume);
    push_flag(&mut lines, "shuffle", s.shuffle);
    let ghost a = views(lines@);
    push_line(&mut lines, "");
    push_line(
        &mut lines,
        "# a tuneterm server: `server` for push, ls, mv and rm; `token` for any server",
    );
    assert(views(lines@) =~= a + seq![
        ""@,
        "# a tuneterm server: `server` for push, ls, mv and rm; `token` for any server"@,
    ]);
    push_entry(&mut lines, "server", &s.remote.server);
    push_entry(&mut lines, "token", &s.remote.token);
    let ghost b = views(lines@);
    push_line(&mut lines, "");
    push_line(&mut lines, "# where the last session left off");
    assert(views(lines@) =~= b + seq![""@, "# where the last session left off"@]);
    push_entry(&mut lines, "tab", &s.session.tab);
    push_entry(&mut lines, "folder", &s.session.folder);
    push_entry(&mut lines, "selected", &s.session.selected);
    push_entry(&mut lines, "feed", &s.session.feed);
    push_entry(&mut lines, "track", &s.session.track);
    push_entry(&mut lines, "queue", &s.session.queue);
    push_entries(&mut lines, "position", &s.session.position);
    let ghost c = views(lines@);
    assert(c + seq![] =~= c);
    if s.session.track.is_some() {
        push_flag(&mut lines, "playing", s.session.playing);
    }
    write_lines(&lines)
}

/// A value that comes back as it was written.
pub open spec fn is_value(v: Seq<char>) -> bool {
    v.len() > 0 && is_trimmed(v) && !v.contains('\n')
}

pub open spec fn is_opt_value(o: Option<Seq<char>>) -> bool {
    o matches Some(v) ==> is_value(v)
}

/// Settings a file can hold: values that are trimmed and on one line, a tab in small
/// letters, and `playing` only alongside a track.
pub open spec fn is_storable(s: SettingsV) -> bool {
    &&& forall|i: int| 0 <= i < s.volume.len() ==> is_value(#[trigger] s.volume[i])
    &&& forall|i: int|
        0 <= i < s.session.position.len() ==> is_value(#[trigger] s.session.position[i])
    &&& is_opt_value(s.remote.server)
    &&& is_opt_value(s.remote.token)
    &&& is_opt_value(s.session.tab)
    &&& s.session.tab matches Some(t) ==> lowered(t) == t
    &&& is_opt_value(s.session.folder)
    &&& is_opt_value(s.session.selected)
    &&& is_opt_value(s.session.feed)
    &&& is_opt_value(s.session.track)
    &&& is_opt_value(s.session.queue)
    &&& s.session.playing ==> s.session.track is Some
}

/// What can stand in front of the first `=`.
pub open spec fn is_key(k: Seq<char>) -> bool {
    &&& k.len() > 0
    &&& is_trimmed(k)
    &&& k[0] != '#'
    &&& !k.contains('=')
    &&& !k.contains('\n')
}

proof fn lemma_entry_line(s: SettingsV, key: Seq<char>, value: Seq<char>)
    requires
        is_key(key),
        is_value(value),
    ensures
        is_line(key + " = "@ + value),
        s.reading(key + " = "@ + value) == s.with(key, value),
{
    lemma_pair(key, value);
    assert(!is_idle(key + " = "@ + value));
}

proof fn lemma_reading_all_concat(s: SettingsV, a: Seq<Seq<char>>, b: Seq<Seq<char>>)
    ensures
        s.reading_all(a + b) == s.reading_all(a).reading_all(b),
    decreases b.len(),
{
    if b.len() == 0 {
        assert(a + b =~= a);
    } else {
        lemma_reading_all_concat(s, a, b.drop_last());
        assert((a + b).drop_last() =~= a + b.drop_last());
        assert((a + b).last() == b.last());
    }
}

pub open spec fn all_lines(lines: Seq<Seq<char>>) -> bool {
    forall|i: int| 0 <= i < lines.len() ==> is_line(#[trigger] lines[i])
}

proof fn lemma_all_lines_concat(a: Seq<Seq<char>>, b: Seq<Seq<char>>)
    requires
        all_lines(a),
        all_lines(b),
    ensures
        all_lines(a + b),
{
    let c = a + b;
    assert forall|i: int| 0 <= i < c.len() implies is_line(#[trigger] c[i]) by {
        if i < a.len() {
            assert(c[i] == a[i]);
        } else {
            assert(c[i] == b[i - a.len()]);
        }
    }
}

/// Adding a stretch of lines whose effect is known.
proof fn lemma_extend(
    s: SettingsV,
    sofar: Seq<Seq<char>>,
    more: Seq<Seq<char>>,
    before: SettingsV,
    after: SettingsV,
)
    requires
        all_lines(sofar),
        all_lines(more),
        s.reading_all(sofar) == before,
        before.reading_all(more) == after,
    ensures
        all_lines(sofar + more),
        s.reading_all(sofar + more) == after,
{
    lemma_all_lines_concat(sofar, more);
    lemma_reading_all_concat(s, sofar, more);
}

proof fn lemma_entry(s: SettingsV, key: Seq<char>, value: Option<Seq<char>>)
    requires
        is_key(key),
        is_opt_value(value),
    ensures
        all_lines(entry(key, value)),
        s.reading_all(entry(key, value)) == (match value {
            Some(v) => s.with(key, v),
            None => s,
        }),
{
    if let Some(v) = value {
        lemma_entry_line(s, key, v);
        let l = entry(key, value);
        assert(l.drop_last() =~= seq![]);
        assert(s.reading_all(l.drop_last()) == s);
    }
}

proof fn lemma_idle_line(s: SettingsV, line: Seq<char>)
    requires
        line.len() > 0 ==> line[0] == '#' && !is_space(line.last()),
        !line.contains('\n'),
    ensures
        all_lines(seq![line]),
        s.reading_all(seq![line]) == s,
{
    lemma_trimmed(line);
    assert(seq![line].drop_last() =~= seq![]);
    assert(s.reading_all(seq![line].drop_last()) == s);
}

proof fn lemma_idle_lines(s: SettingsV, a: Seq<char>, b: Seq<char>)
    requires
        a.len() > 0 ==> a[0] == '#' && !is_space(a.last()),
        !a.contains('\n'),
        b.len() > 0 ==> b[0] == '#' && !is_space(b.last()),
        !b.contains('\n'),
    ensures
        all_lines(seq![a, b]),
        s.reading_all(seq![a, b]) == s,
{
    lemma_idle_line(s, a);
    lemma_idle_line(s, b);
    lemma_extend(s, seq![a], seq![b], s, s);
    assert(seq![a] + seq![b] =~= seq![a, b]);
}

proof fn lemma_volumes(s: SettingsV, values: Seq<Seq<char>>)
    requires
        is_key("volume"@),
        forall|i: int| 0 <= i < values.len() ==> is_value(#[trigger] values[i]),
    ensures
        all_lines(entries("volume"@, values)),
        s.reading_all(entries("volume"@, values)) == (SettingsV {
            volume: s.volume + values,
            ..s
        }),
    decreases values.len(),
{
    let l = entries("volume"@, values);
    if values.len() == 0 {
        assert(s.volume + values =~= s.volume);
    } else {
        let v = values.drop_last();
        assert forall|i: int| 0 <= i < v.len() implies is_value(#[trigger] v[i]) by {
            assert(v[i] == values[i]);
        }
        lemma_volumes(s, v);
        assert(is_value(values[values.len() - 1]));
        let t = SettingsV { volume: s.volume + v, ..s };
        lemma_entry_line(t, "volume"@, values.last());
        assert(l.drop_last() =~= entries("volume"@, v));
        assert((s.volume + v).push(values.last()) =~= s.volume + values);
        lemma_all_lines_concat(entries("volume"@, v), seq![l.last()]);
        assert(entries("volume"@, v) + seq![l.last()] =~= l);
    }
}

proof fn lemma_positions(s: SettingsV, values: Seq<Seq<char>>)
    requires
        is_key("position"@),
        forall|i: int| 0 <= i < values.len() ==> is_value(#[trigger] values[i]),
        forall|t: SettingsV, v: Seq<char>| #[trigger]
            t.with("position"@, v) == (SettingsV {
                session: SessionV { position: t.session.position.push(v), ..t.session },
                ..t
            }),
    ensures
        all_lines(entries("position"@, values)),
        s.reading_all(entries("position"@, values)) == (SettingsV {
            session: SessionV { position: s.session.position + values, ..s.session },
            ..s
        }),
    decreases values.len(),
{
    let l = entries("position"@, values);
    if values.len() == 0 {
        assert(s.session.position + values =~= s.session.position);
    } else {
        let v = values.drop_last();
        assert forall|i: int| 0 <= i < v.len() implies is_value(#[trigger] v[i]) by {
            assert(v[i] == values[i]);
        }
        lemma_positions(s, v);
        assert(is_value(values[values.len() - 1]));
        let t = SettingsV {
            session: SessionV { position: s.session.position + v, ..s.session },
            ..s
        };
        lemma_entry_line(t, "position"@, values.last());
        assert(l.drop_last() =~= entries("position"@, v));
        assert((s.session.position + v).push(values.last()) =~= s.session.position + values);
        lemma_all_lines_concat(entries("position"@, v), seq![l.last()]);
        assert(entries("position"@, v) + seq![l.last()] =~= l);
    }
}

/// Every key is one, and no two are the same.
proof fn lemma_keys()
    ensures
        is_key("volume"@),
        is_key("shuffle"@),
        is_key("playing"@),
        is_key("tab"@),
        is_key("folder"@),
        is_key("selected"@),
        is_key("feed"@),
        is_key("track"@),
        is_key("queue"@),
        is_key("server"@),
        is_key("token"@),
        is_key("position"@),
        "volume"@.len() == 6,
        "shuffle"@.len() == 7,
        "playing"@.len() == 7,
        "tab"@.len() == 3,
        "folder"@.len() == 6,
        "selected"@.len() == 8,
        "feed"@.len() == 4,
        "track"@.len() == 5,
        "queue"@.len() == 5,
        "server"@.len() == 6,
        "token"@.len() == 5,
        "position"@.len() == 8,
        "volume"@[0] == 'v',
        "shuffle"@[0] == 's',
        "playing"@[0] == 'p',
        "folder"@[0] == 'f',
        "selected"@[0] == 's',
        "track"@[0] == 't',
        "track"@[1] == 'r',
        "queue"@[0] == 'q',
        "server"@[0] == 's',
        "token"@[0] == 't',
        "token"@[1] == 'o',
        "position"@[0] == 'p',
{
    reveal_strlit("volume");
    reveal_strlit("shuffle");
    reveal_strlit("playing");
    reveal_strlit("tab");
    reveal_strlit("folder");
    reveal_strlit("selected");
    reveal_strlit("feed");
    reveal_strlit("track");
    reveal_strlit("queue");
    reveal_strlit("server");
    reveal_strlit("token");
    reveal_strlit("position");
}

proof fn lemma_flag(b: bool)
    ensures
        is_value(digit_of(b)),
        says_yes(digit_of(b)) == b,
{
    reveal_strlit("0");
    reveal_strlit("1");
    reveal_strlit("true");
    reveal_strlit("yes");
    reveal_strlit("on");
    assert("0"@[0] == '0');
    assert("1"@[0] == '1');
}

proof fn lemma_comments()
    ensures
        ({
            let a = "# tuneterm settings — written by the app, safe to edit"@;
            a.len() > 0 && a[0] == '#' && !is_space(a.last()) && !a.contains('\n')
        }),
        ({
            let a = "# a tuneterm server: `server` for push, ls, mv and rm; `token` for any server"@;
            a.len() > 0 && a[0] == '#' && !is_space(a.last()) && !a.contains('\n')
        }),
        ({
            let a = "# where the last session left off"@;
            a.len() > 0 && a[0] == '#' && !is_space(a.last()) && !a.contains('\n')
        }),
        ""@.len() == 0,
{
    reveal_strlit("");
    reveal_strlit("# tuneterm settings — written by the app, safe to edit");
    reveal_strlit("# a tuneterm server: `server` for push, ls, mv and rm; `token` for any server");
    reveal_strlit("# where the last session left off");
}

/// The settings that are written are the settings that are read back.
pub proof fn law_settings_survive_a_round_trip(s: SettingsV)
    requires
        is_storable(s),
    ensures
        settings_in(unlines(settings_lines(s))) == s,
{
    lemma_keys();
    lemma_comments();
    lemma_flag(s.shuffle);
    lemma_flag(s.session.playing);
    let o = SettingsV::blank();
    let e = s.session;
    let l0 = seq!["# tuneterm settings — written by the app, safe to edit"@];
    lemma_idle_line(o, l0[0]);
    let m1 = entries("volume"@, s.volume);
    lemma_volumes(o, s.volume);
    let s1 = SettingsV { volume: s.volume, ..o };
    assert(o.volume + s.volume =~= s.volume);
    lemma_extend(o, l0, m1, o, s1);
    let l1 = l0 + m1;
    let m2 = entry("shuffle"@, Some(digit_of(s.shuffle)));
    lemma_entry(s1, "shuffle"@, Some(digit_of(s.shuffle)));
    let s2 = SettingsV { shuffle: s.shuffle, ..s1 };
    lemma_extend(o, l1, m2, s1, s2);
    let l2 = l1 + m2;
    let m3 = seq![
        ""@,
        "# a tuneterm server: `server` for push, ls, mv and rm; `token` for any server"@,
    ];
    lemma_idle_lines(s2, m3[0], m3[1]);
    lemma_extend(o, l2, m3, s2, s2);
    let l3 = l2 + m3;
    let m4 = entry("server"@, s.remote.server);
    lemma_entry(s2, "server"@, s.remote.server);
    let s4 = SettingsV { remote: RemoteV { server: s.remote.server, token: None }, ..s2 };
    lemma_extend(o, l3, m4, s2, s4);
    let l4 = l3 + m4;
    let m5 = entry("token"@, s.remote.token);
    lemma_entry(s4, "token"@, s.remote.token);
    let s5 = SettingsV { remote: s.remote, ..s4 };
    lemma_extend(o, l4, m5, s4, s5);
    let l5 = l4 + m5;
    let m6 = seq![""@, "# where the last session left off"@];
    lemma_idle_lines(s5, m6[0], m6[1]);
    lemma_extend(o, l5, m6, s5, s5);
    let l6 = l5 + m6;
    lemma_session_part(s, s5, l6);
    assert(settings_lines(s) == l6 + entry("tab"@, e.tab) + entry("folder"@, e.folder) + entry(
        "selected"@,
        e.selected,
    ) + entry("feed"@, e.feed) + entry("track"@, e.track) + entry("queue"@, e.queue) + entries(
        "position"@,
        e.position,
    ) + (if e.track is Some {
        entry("playing"@, Some(digit_of(e.playing)))
    } else {
        seq![]
    }));
    lemma_unlines(settings_lines(s));
}

proof fn lemma_session_part(s: SettingsV, s5: SettingsV, l6: Seq<Seq<char>>)
    requires
        is_storable(s),
        all_lines(l6),
        SettingsV::blank().reading_all(l6) == s5,
        s5 == (SettingsV { session: SettingsV::blank().session, ..s }),
    ensures
        ({
            let e = s.session;
            let all = l6 + entry("tab"@, e.tab) + entry("folder"@, e.folder) + entry(
                "selected"@,
                e.selected,
            ) + entry("feed"@, e.feed) + entry("track"@, e.track) + entry("queue"@, e.queue)
                + entries("position"@, e.position) + (if e.track is Some {
                entry("playing"@, Some(digit_of(e.playing)))
            } else {
                seq![]
            });
            all_lines(all) && SettingsV::blank().reading_all(all) == s
        }),
{
    lemma_keys();
    lemma_flag(s.session.playing);
    let o = SettingsV::blank();
    let e = s.session;
    let e0 = o.session;
    let l7 = l6 + entry("tab"@, e.tab);
    lemma_entry(s5, "tab"@, e.tab);
    let s7 = SettingsV { session: SessionV { tab: e.tab, ..e0 }, ..s5 };
    lemma_extend(o, l6, entry("tab"@, e.tab), s5, s7);
    let l8 = l7 + entry("folder"@, e.folder);
    lemma_entry(s7, "folder"@, e.folder);
    let s8 = SettingsV { session: SessionV { folder: e.folder, ..s7.session }, ..s5 };
    lemma_extend(o, l7, entry("folder"@, e.folder), s7, s8);
    let l9 = l8 + entry("selected"@, e.selected);
    lemma_entry(s8, "selected"@, e.selected);
    let s9 = SettingsV { session: SessionV { selected: e.selected, ..s8.session }, ..s5 };
    lemma_extend(o, l8, entry("selected"@, e.selected), s8, s9);
    let l10 = l9 + entry("feed"@, e.feed);
    lemma_entry(s9, "feed"@, e.feed);
    let s10 = SettingsV { session: SessionV { feed: e.feed, ..s9.session }, ..s5 };
    lemma_extend(o, l9, entry("feed"@, e.feed), s9, s10);
    let l11 = l10 + entry("track"@, e.track);
    lemma_entry(s10, "track"@, e.track);
    let s11 = SettingsV { session: SessionV { track: e.track, ..s10.session }, ..s5 };
    lemma_extend(o, l10, entry("track"@, e.track), s10, s11);
    let l12 = l11 + entry("queue"@, e.queue);
    lemma_entry(s11, "queue"@, e.queue);
    let s12 = SettingsV { session: SessionV { queue: e.queue, ..s11.session }, ..s5 };
    lemma_extend(o, l11, entry("queue"@, e.queue), s11, s12);
    let l13 = l12 + entries("position"@, e.position);
    lemma_positions(s12, e.position);
    assert(e0.position + e.position =~= e.position);
    let s13 = SettingsV { session: SessionV { position: e.position, ..s12.session }, ..s5 };
    lemma_extend(o, l12, entries("position"@, e.position), s12, s13);
    if e.track is Some {
        lemma_entry(s13, "playing"@, Some(digit_of(e.playing)));
        let s14 = SettingsV { session: SessionV { playing: e.playing, ..s13.session }, ..s5 };
        lemma_extend(o, l13, entry("playing"@, Some(digit_of(e.playing))), s13, s14);
        assert(s14 == s);
    } else {
        assert(l13 + Seq::<Seq<char>>::empty() =~= l13);
        assert(s13 == s);
    }
}

// ---------------------------------------------------------------------------

proof fn lemma_slashes_at(s: Seq<char>, at: int)
    requires
        0 <= at,
        at + 1 < s.len(),
        s[at] == '/' && s[at + 1] == '/',
        forall|i: int| 0 <= i < at ==> !(#[trigger] s[i] == '/'),
    ensures
        slashes(s) == at,
    decreases at,
{
    if at > 0 {
        assert(s[0] != '/');
        let rest = s.skip(1);
        assert forall|i: int| 0 <= i < at - 1 implies !(#[trigger] rest[i] == '/') by {
            assert(rest[i] == s[i + 1]);
        }
        lemma_slashes_at(rest, at - 1);
    }
}

/// What is no part of a host.
pub open spec fn ends_host(c: char) -> bool {
    c == '/' || c == '?' || c == '#'
}

proof fn lemma_before_path(h: Seq<char>, rest: Seq<char>)
    requires
        forall|i: int| 0 <= i < h.len() ==> !ends_host(#[trigger] h[i]),
        rest.len() > 0 ==> ends_host(rest[0]),
    ensures
        before_path(h + rest) == h,
    decreases h.len(),
{
    let s = h + rest;
    if h.len() == 0 {
        assert(s =~= rest);
        assert(h =~= seq![]);
    } else {
        let t = h.skip(1);
        assert forall|i: int| 0 <= i < t.len() implies !ends_host(#[trigger] t[i]) by {
            assert(t[i] == h[i + 1]);
        }
        lemma_before_path(t, rest);
        assert(s.skip(1) =~= t + rest);
        assert(s[0] == h[0]);
        assert(!ends_host(h[0]));
        assert(seq![h[0]] + t =~= h);
    }
}

/// A web address is one with or without encryption and with something behind the
/// slashes, and it goes by its host: what stands before the path, the query and the
/// fragment, without a `www.` in front.
pub proof fn law_an_address_goes_by_its_host(h: Seq<char>, rest: Seq<char>)
    requires
        h.len() > 0,
        forall|i: int| 0 <= i < h.len() ==> !ends_host(#[trigger] h[i]),
        rest.len() > 0 ==> ends_host(rest[0]),
        !has_prefix(h, "www."@),
    ensures
        is_url_text("https://"@ + h + rest),
        is_url_text("http://"@ + h + rest),
        host("https://"@ + h + rest) == h,
        host("http://"@ + h + rest) == h,
        host("https://www."@ + h + rest) == h,
        host("http://www."@ + h + rest) == h,
{
    reveal_strlit("https://");
    reveal_strlit("http://");
    reveal_strlit("www.");
    reveal_strlit("https://www.");
    reveal_strlit("http://www.");
    let w = seq!['w', 'w', 'w', '.'];
    assert("www."@ =~= w);
    lemma_before_path(h, rest);
    let wh = w + h;
    assert forall|i: int| 0 <= i < wh.len() implies !ends_host(#[trigger] wh[i]) by {
        if i >= 4 {
            assert(wh[i] == h[i - 4]);
        }
    }
    lemma_before_path(wh, rest);
    assert(wh.take(4) =~= w);
    assert(wh.skip(4) =~= h);
    assert(without_www(h) == h);
    assert(without_www(wh) == without_www(wh.skip(4)));
    let a = "https://"@ + h + rest;
    assert(a.take(8) =~= "https://"@);
    assert(a.skip(8) =~= h + rest);
    assert(a.skip(8)[0] == h[0]);
    lemma_slashes_at(a, 6);
    let b = "http://"@ + h + rest;
    assert(b.take(7) =~= "http://"@);
    assert(b.skip(7) =~= h + rest);
    assert(b.skip(7)[0] == h[0]);
    assert(b[4] != 's');
    assert(b.len() >= 8 ==> b.take(8)[4] != "https://"@[4]);
    lemma_slashes_at(b, 5);
    let c = "https://www."@ + h + rest;
    assert(c.skip(8) =~= wh + rest);
    lemma_slashes_at(c, 6);
    let d = "http://www."@ + h + rest;
    assert(d.skip(7) =~= wh + rest);
    lemma_slashes_at(d, 5);
}

/// Nothing else is a web address.
pub proof fn law_other_text_is_no_address(s: Seq<char>)
    ensures
        is_url_text(s) ==> s.len() > 7 && (has_prefix(s, "https://"@) || has_prefix(s, "http://"@)),
        !is_url_text("https://"@) && !is_url_text("http://"@),
        !is_url_text("https:///"@ + s) && !is_url_text("http:///"@ + s),
{
    reveal_strlit("https://");
    reveal_strlit("http://");
    reveal_strlit("https:///");
    reveal_strlit("http:///");
    assert("https://"@.take(8) =~= "https://"@);
    assert("http://"@.take(7) =~= "http://"@);
    let a = "https:///"@ + s;
    assert(a.take(8) =~= "https://"@);
    let b = "http:///"@ + s;
    assert(b.take(7) =~= "http://"@);
    assert(b.take(8)[4] == b[4]);
}

/// Every line of the feed list stands for itself.
pub proof fn law_feed_lines_stand_alone(before: Seq<Seq<char>>, line: Seq<char>, after: Seq<Seq<char>>)
    ensures
        feeds_on(before + seq![line] + after) == feeds_on(before) + (match feed_on(line) {
            Some(feed) => seq![feed],
            None => seq![],
        }) + feeds_on(after),
    decreases after.len(),
{
    let all = before + seq![line] + after;
    if after.len() == 0 {
        assert(all.drop_last() =~= before);
        assert(all.last() == line);
        assert(feeds_on(all) =~= feeds_on(before) + (match feed_on(line) {
            Some(feed) => seq![feed],
            None => seq![],
        }) + feeds_on(after));
    } else {
        law_feed_lines_stand_alone(before, line, after.drop_last());
        assert(all.drop_last() =~= before + seq![line] + after.drop_last());
        assert(all.last() == after.last());
        assert(feeds_on(all) =~= feeds_on(before) + (match feed_on(line) {
            Some(feed) => seq![feed],
            None => seq![],
        }) + feeds_on(after));
    }
}

/// A line of the feed list gives a name and an address, or an address alone, which goes
/// by its host; a comment, a blank line and anything else give nothing.
pub proof fn law_a_feed_line_names_a_feed(name: Seq<char>, url: Seq<char>, other: Seq<char>)
    requires
        is_url_text(url),
        is_trimmed(url),
        !url.contains('\n'),
    ensures
        name.len() > 0 && is_trimmed(name) && !name.contains('=') && !name.contains('\n') && name[0]
            != '#' ==> feed_on(name + " = "@ + url) == Some(FeedV { name, url }),
        !url.contains('=') ==> feed_on(url) == Some(
            FeedV { name: host(url), url },
        ),
        feed_on(seq!['#'] + other) is None,
        trimmed(other).len() == 0 ==> feed_on(other) is None,
        !other.contains('=') && !is_url_text(trimmed(other)) ==> feed_on(other) is None,
{
    lemma_trimmed(url);
    assert(url.len() > 0 && url[0] == 'h') by {
        reveal_strlit("https://");
        reveal_strlit("http://");
        if after_prefix(url, "https://"@) is Some {
            assert(url.take(8)[0] == 'h');
        } else {
            assert(url.take(7)[0] == 'h');
        }
    }
    if name.len() > 0 && is_trimmed(name) && !name.contains('=') && !name.contains('\n') && name[0]
        != '#' {
        lemma_pair(name, url);
        let (left, right) = halves(name + " = "@ + url, '=')->0;
        assert(left.last() == ' ');
    }
    if !url.contains('=') {
        lemma_no_halves(url);
    }
    let c = seq!['#'] + other;
    crate::text::lemma_trimmed_start(c);
    crate::text::lemma_trimmed_end(trimmed_start(c));
    assert(trimmed_start(c) == c);
    assert(trimmed(c).len() == 0 || trimmed(c)[0] == '#');
    if !other.contains('=') {
        let t = trimmed(other);
        crate::text::lemma_trimmed_start(other);
        crate::text::lemma_trimmed_end(trimmed_start(other));
        if t.contains('=') {
            let j = choose|j: int| 0 <= j < t.len() && t[j] == '=';
            let k = other.len() - trimmed_start(other).len();
            assert(t[j] == trimmed_start(other)[j]);
            assert(trimmed_start(other)[j] == other[k + j]);
        }
        lemma_no_halves(t);
    }
}

proof fn lemma_no_halves(s: Seq<char>)
    requires
        !s.contains('='),
    ensures
        halves(s, '=') is None,
{
    lemma_find(s, '=');
    let at = find(s, '=') as int;
    if at < s.len() {
        assert(s.contains(s[at]));
    }
}

/// What a line of the settings file sets, by the key it begins with: one thing each, in
/// place of what an earlier line said.
pub proof fn law_a_settings_line_sets_its_key(s: SettingsV, v: Seq<char>)
    requires
        is_value(v),
    ensures
        s.reading("folder = "@ + v) == (SettingsV {
            session: SessionV { folder: Some(v), ..s.session },
            ..s
        }),
        s.reading("selected = "@ + v) == (SettingsV {
            session: SessionV { selected: Some(v), ..s.session },
            ..s
        }),
        s.reading("feed = "@ + v) == (SettingsV {
            session: SessionV { feed: Some(v), ..s.session },
            ..s
        }),
        s.reading("track = "@ + v) == (SettingsV {
            session: SessionV { track: Some(v), ..s.session },
            ..s
        }),
        s.reading("queue = "@ + v) == (SettingsV {
            session: SessionV { queue: Some(v), ..s.session },
            ..s
        }),
        s.reading("tab = "@ + v) == (SettingsV {
            session: SessionV { tab: Some(lowered(v)), ..s.session },
            ..s
        }),
        s.reading("server = "@ + v) == (SettingsV {
            remote: RemoteV { server: Some(v), ..s.remote },
            ..s
        }),
        s.reading("token = "@ + v) == (SettingsV {
            remote: RemoteV { token: Some(v), ..s.remote },
            ..s
        }),
        s.reading("volume = "@ + v) == (SettingsV { volume: s.volume.push(v), ..s }),
        s.reading("position = "@ + v) == (SettingsV {
            session: SessionV { position: s.session.position.push(v), ..s.session },
            ..s
        }),
        s.reading("shuffle = "@ + v).shuffle == says_yes(v),
        s.reading("playing = "@ + v).session.playing == says_yes(v),
{
    lemma_keys();
    lemma_entry_line(s, "folder"@, v);
    lemma_entry_line(s, "selected"@, v);
    lemma_entry_line(s, "feed"@, v);
    lemma_entry_line(s, "track"@, v);
    lemma_entry_line(s, "queue"@, v);
    lemma_entry_line(s, "tab"@, v);
    lemma_entry_line(s, "server"@, v);
    lemma_entry_line(s, "token"@, v);
    lemma_entry_line(s, "volume"@, v);
    lemma_entry_line(s, "position"@, v);
    lemma_entry_line(s, "shuffle"@, v);
    lemma_entry_line(s, "playing"@, v);
    lemma_settings_words();
}

/// The keys with the sign behind them.
proof fn lemma_settings_words()
    ensures
        "folder = "@ == "folder"@ + " = "@,
        "selected = "@ == "selected"@ + " = "@,
        "feed = "@ == "feed"@ + " = "@,
        "track = "@ == "track"@ + " = "@,
        "queue = "@ == "queue"@ + " = "@,
        "tab = "@ == "tab"@ + " = "@,
        "server = "@ == "server"@ + " = "@,
        "token = "@ == "token"@ + " = "@,
        "volume = "@ == "volume"@ + " = "@,
        "position = "@ == "position"@ + " = "@,
        "shuffle = "@ == "shuffle"@ + " = "@,
        "playing = "@ == "playing"@ + " = "@,
{
    reveal_strlit(" = ");
    reveal_strlit("folder");
    reveal_strlit("folder = ");
    assert("folder = "@ =~= "folder"@ + " = "@);
    reveal_strlit("selected");
    reveal_strlit("selected = ");
    assert("selected = "@ =~= "selected"@ + " = "@);
    reveal_strlit("feed");
    reveal_strlit("feed = ");
    assert("feed = "@ =~= "feed"@ + " = "@);
    reveal_strlit("track");
    reveal_strlit("track = ");
    assert("track = "@ =~= "track"@ + " = "@);
    reveal_strlit("queue");
    reveal_strlit("queue = ");
    assert("queue = "@ =~= "queue"@ + " = "@);
    reveal_strlit("tab");
    reveal_strlit("tab = ");
    assert("tab = "@ =~= "tab"@ + " = "@);
    reveal_strlit("server");
    reveal_strlit("server = ");
    assert("server = "@ =~= "server"@ + " = "@);
    reveal_strlit("token");
    reveal_strlit("token = ");
    assert("token = "@ =~= "token"@ + " = "@);
    reveal_strlit("volume");
    reveal_strlit("volume = ");
    assert("volume = "@ =~= "volume"@ + " = "@);
    reveal_strlit("position");
    reveal_strlit("position = ");
    assert("position = "@ =~= "position"@ + " = "@);
    reveal_strlit("shuffle");
    reveal_strlit("shuffle = ");
    assert("shuffle = "@ =~= "shuffle"@ + " = "@);
    reveal_strlit("playing");
    reveal_strlit("playing = ");
    assert("playing = "@ =~= "playing"@ + " = "@);
}

/// A line with no known key changes nothing, and neither does a comment.
pub proof fn law_unknown_settings_are_skipped(
    s: SettingsV,
    key: Seq<char>,
    v: Seq<char>,
    other: Seq<char>,
)
    requires
        is_key(key),
        is_value(v),
        key != "folder"@ && key != "selected"@ && key != "feed"@ && key != "track"@ && key
            != "queue"@ && key != "tab"@ && key != "server"@ && key != "token"@ && key
            != "volume"@ && key != "position"@ && key != "shuffle"@ && key != "playing"@,
    ensures
        s.reading(key + " = "@ + v) == s,
        s.reading(seq!['#'] + other) == s,
{
    lemma_entry_line(s, key, v);
    let c = seq!['#'] + other;
    crate::text::lemma_trimmed_start(c);
    crate::text::lemma_trimmed_end(trimmed_start(c));
    assert(trimmed_start(c) == c);
}

/// What is set of its own is used before what the system offers, and each system has its
/// own place under what it names.
pub proof fn law_each_system_has_its_place(env: Environment)
    ensures
        env.own matches Some(own) && own@.len() > 0 ==> config_dir(env, Platform::Other) == Some(
            env.own->0@,
        ) && config_dir(env, Platform::MacOs) == Some(env.own->0@) && config_dir(
            env,
            Platform::Windows,
        ) == Some(env.own->0@),
        env.own is None ==> {
            &&& (env.xdg matches Some(base) && base@.len() > 0 && base@.last() != '/')
                ==> config_dir(env, Platform::Other) == Some(env.xdg->0@ + "/tuneterm"@)
            &&& (env.home matches Some(home) && home@.len() > 0 && home@.last() != '/') ==> {
                &&& env.xdg is None ==> config_dir(env, Platform::Other) == Some(
                    env.home->0@ + "/.config/tuneterm"@,
                )
                &&& config_dir(env, Platform::MacOs) == Some(
                    env.home->0@ + "/Library/Application Support/tuneterm"@,
                )
            }
            &&& (env.app_data matches Some(base) && base@.len() > 0 && base@.last() != '/')
                ==> config_dir(env, Platform::Windows) == Some(env.app_data->0@ + "/tuneterm"@)
            &&& env.home is None ==> config_dir(env, Platform::MacOs) is None
            &&& env.home is None && env.xdg is None ==> config_dir(env, Platform::Other) is None
            &&& env.app_data is None ==> config_dir(env, Platform::Windows) is None
        },
{
    reveal_strlit("tuneterm");
    reveal_strlit("/tuneterm");
    reveal_strlit(".config");
    reveal_strlit("/.config/tuneterm");
    reveal_strlit("Library/Application Support");
    reveal_strlit("/Library/Application Support/tuneterm");
    if env.own is None {
        if let Some(base) = env.xdg {
            if base@.len() > 0 && base@.last() != '/' {
                assert(within(base@, "tuneterm"@) =~= base@ + "/tuneterm"@);
            }
        }
        if let Some(base) = env.app_data {
            if base@.len() > 0 && base@.last() != '/' {
                assert(within(base@, "tuneterm"@) =~= base@ + "/tuneterm"@);
            }
        }
        if let Some(home) = env.home {
            if home@.len() > 0 && home@.last() != '/' {
                let c = within(home@, ".config"@);
                assert(c =~= home@ + seq!['/'] + ".config"@);
                assert(c.last() == ".config"@.last());
                assert(within(c, "tuneterm"@) =~= home@ + "/.config/tuneterm"@);
                let m = within(home@, "Library/Application Support"@);
                assert(m =~= home@ + seq!['/'] + "Library/Application Support"@);
                assert(m.last() == "Library/Application Support"@.last());
                assert(within(m, "tuneterm"@) =~= home@
                    + "/Library/Application Support/tuneterm"@);
            }
        }
    }
}

} // verus!
