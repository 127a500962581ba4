//! What is read from text and bytes, and what is written as text.

use tuneterm::cache::{self, CacheFile, Sweep};
use tuneterm::config::{
    self, default_feed, host_of, is_url, parse_settings, Environment, Feed, Platform, Remote,
    Session, Settings,
};
use tuneterm::feed::{self, local_name, parse_duration, read_step, Node, Raw, RawTag};
use tuneterm::library::{
    self, fix_encoding, fmt_duration, recover_cp1251, Entry, Folder, Tag, Tagged,
};
use tuneterm::memo::{Memo, KEEP};
use tuneterm::order::{is_preceding, sorted_order};
use tuneterm::paths;
use tuneterm::ratings::{self, Ratings};
use tuneterm::text;
use tuneterm::time::Duration;

// ---------------------------------------------------------------------------
// The cache
// ---------------------------------------------------------------------------

fn environment(own: Option<&str>, home: Option<&str>, app: Option<&str>, xdg: Option<&str>) -> Environment {
    Environment {
        own: own.map(str::to_string),
        home: home.map(str::to_string),
        app_data: app.map(str::to_string),
        xdg: xdg.map(str::to_string),
    }
}

#[test]
fn dir_lands_under_a_platform_cache_path() {
    let env = environment(None, Some("/home/me"), Some("C:\\Local"), None);
    for platform in [Platform::MacOs, Platform::Windows, Platform::Other] {
        let dir = cache::dir(&env, platform).expect("no cache dir");
        assert!(dir.ends_with("/tuneterm"), "{dir:?}");
        if platform == Platform::MacOs {
            assert!(dir.contains("Library/Caches"), "{dir:?}");
        }
    }
    let env = environment(None, None, None, None);
    assert_eq!(cache::dir(&env, Platform::Other), None);
    let env = environment(Some("/elsewhere"), Some("/home/me"), None, None);
    assert_eq!(cache::dir(&env, Platform::Other).as_deref(), Some("/elsewhere"));
}

/// The whole point: the same picture at the same size is one entry, whatever
/// track it came from.
#[test]
fn identical_pictures_share_a_key() {
    let picture = b"pretend this is a jpeg";
    assert_eq!(cache::key(picture, (300, 300)), cache::key(picture, (300, 300)));
    assert_ne!(cache::key(picture, (300, 300)), cache::key(picture, (600, 600)));
    assert_ne!(cache::key(picture, (300, 300)), cache::key(b"a different cover", (300, 300)));
}

#[test]
fn key_is_a_usable_filename() {
    let key = cache::key(b"x", (128, 64));
    assert!(key.ends_with("-128x64.png"), "{key}");
    assert!(
        !key.contains('/') && !key.contains('\\') && !key.contains(char::is_whitespace),
        "{key}"
    );
}

#[test]
fn a_key_hashes_the_picture_its_length_and_its_size() {
    assert_eq!(cache::key(b"", (1, 2)), "a91ab0c1027b9366-1x2.png");
    assert_eq!(cache::key(b"a", (1, 2)), "4a042ee4b4b776ce-1x2.png");
    assert_eq!(cache::key(b"foobar", (300, 64)), "948ad3603b1ba45d-300x64.png");
}

#[test]
fn entries_are_written_under_another_name_first() {
    let temp = cache::temp_name("k.png", 42);
    assert!(temp.contains(".tmp") && temp != "k.png", "{temp}");
    assert_eq!(cache::path(Some("/c".to_string()), "k.png").as_deref(), Some("/c/k.png"));
    assert_eq!(cache::path(None, "k.png"), None);
}

#[test]
fn sweep_keeps_the_newest_and_drops_the_oldest() {
    // Handed in out of order: 1 is the oldest, 2 the newest.
    let files = [(1060, 100), (1000, 100), (1180, 100), (1120, 100)];
    let handed = files.iter().map(|&(modified, len)| CacheFile { modified, len }).collect();
    let mut sweep = Sweep::new(handed, 200);
    let mut gone = Vec::new();
    while let Some(next) = sweep.next() {
        gone.push(next);
        sweep.tried(true);
    }
    assert_eq!(gone, [1, 0], "oldest first, until the rest fits");
    assert_eq!(sweep.total, 200);
}

#[test]
fn a_file_that_cannot_be_deleted_still_counts() {
    let files = vec![
        CacheFile { modified: 1, len: 100 },
        CacheFile { modified: 2, len: 100 },
        CacheFile { modified: 3, len: 100 },
    ];
    let mut sweep = Sweep::new(files, 200);
    assert_eq!(sweep.next(), Some(0));
    sweep.tried(false);
    assert_eq!(sweep.next(), Some(1));
    sweep.tried(true);
    assert_eq!(sweep.next(), None);
}

#[test]
fn sweep_leaves_a_directory_under_budget_alone() {
    let sweep = Sweep::new(vec![CacheFile { modified: 1, len: 900 }], cache::MAX_BYTES);
    assert_eq!(sweep.next(), None);
}

#[test]
fn sweep_on_a_missing_directory_is_harmless() {
    assert_eq!(Sweep::new(Vec::new(), 1).next(), None);
}

// ---------------------------------------------------------------------------
// The configuration
// ---------------------------------------------------------------------------

#[test]
fn config_dir_is_separate_from_the_cache() {
    let env = environment(None, Some("/home/me"), Some("C:\\Roaming"), None);
    for platform in [Platform::MacOs, Platform::Windows, Platform::Other] {
        let dir = config::dir(&env, platform).expect("no config dir");
        assert!(dir.ends_with("/tuneterm"), "{dir:?}");
        if platform == Platform::MacOs {
            assert!(dir.contains("Application Support"), "{dir:?}");
        }
        assert!(!dir.contains("Caches"), "config must not live in the cache: {dir:?}");
    }
    let env = environment(None, Some("/home/me"), None, Some("/xdg"));
    assert_eq!(config::dir(&env, Platform::Other).as_deref(), Some("/xdg/tuneterm"));
    let feeds = config::feeds_path(Some("/xdg/tuneterm".to_string()));
    assert_eq!(feeds.as_deref(), Some("/xdg/tuneterm/feeds.txt"));
    let settings = config::settings_path(Some("/xdg/tuneterm".to_string()));
    assert_eq!(settings.as_deref(), Some("/xdg/tuneterm/settings.txt"));
}

#[test]
fn parses_names_comments_and_blanks() {
    let feeds = config::parse(
        "# a comment\n\
         \n\
         Music For Programming = https://musicforprogramming.net/rss.xml\n\
         https://example.com/podcast.xml\n\
            # indented comment\n",
    );
    assert_eq!(feeds.len(), 2);
    assert_eq!(feeds[0].name, "Music For Programming");
    assert_eq!(feeds[0].url, "https://musicforprogramming.net/rss.xml");
    assert_eq!(feeds[1].name, "example.com", "named after its host");
}

/// A query string with `=` in it must not be mistaken for `name = url`.
#[test]
fn a_url_containing_an_equals_sign_survives() {
    let feeds = config::parse("https://example.com/feed?format=rss&id=7\n");
    assert_eq!(feeds.len(), 1);
    assert_eq!(feeds[0].url, "https://example.com/feed?format=rss&id=7");
    assert_eq!(feeds[0].name, "example.com");
}

#[test]
fn a_url_inside_a_query_string_is_not_a_feed_of_its_own() {
    let feeds = config::parse("https://a.example/f?u=https://b.example/x\n");
    let whole = Feed {
        name: "a.example".to_string(),
        url: "https://a.example/f?u=https://b.example/x".to_string(),
    };
    assert_eq!(feeds, [whole]);
    assert_eq!(config::parse(&config::feeds_text(&feeds)), feeds);
    let named = config::parse("Mixes = https://a.example/f?u=https://b.example/x\n");
    assert_eq!(named[0].name, "Mixes");
    assert_eq!(named[0].url, "https://a.example/f?u=https://b.example/x");
}

/// A name may look like a URL itself: the white space before the `=` tells it from one.
#[test]
fn a_name_that_begins_like_a_url_survives() {
    let feeds = vec![
        Feed { name: "https://foo".to_string(), url: "https://bar".to_string() },
        Feed { name: "https://".to_string(), url: "https://bar".to_string() },
        Feed { name: "a.example".to_string(), url: "https://a.example/f?u=https://b".to_string() },
    ];
    let text = config::feeds_text(&feeds);
    assert!(text.contains("https://foo = https://bar"), "{text}");
    assert_eq!(config::parse(&text), feeds);
    assert_eq!(config::parse("= https://bar\n")[0].name, "bar");
}

#[test]
fn rejects_lines_that_are_not_urls() {
    assert!(config::parse("not a url\nftp://example.com/x\nhttps://\n").is_empty());
}

#[test]
fn url_check_accepts_what_it_should_and_no_more() {
    for good in ["https://a.example/rss.xml", "http://a.example", "https://a.example/x?y=1"] {
        assert!(is_url(good), "{good}");
    }
    for bad in ["", "a.example", "https://", "https:///x", "file:///x", "//x"] {
        assert!(!is_url(bad), "{bad}");
    }
}

#[test]
fn host_is_trimmed_for_display() {
    assert_eq!(host_of("https://www.example.com/a/b?c=1"), "example.com");
    assert_eq!(host_of("http://example.com"), "example.com");
}

#[test]
fn settings_default_when_there_is_no_file() {
    assert_eq!(config::load_settings(None), Settings::new());
    let fresh = Settings::new();
    assert!(fresh.volume.is_empty(), "no opinion on the volume");
    assert!(!fresh.shuffle);
    assert_eq!(fresh.session, parse_settings("").session);
}

fn a_session() -> Settings {
    Settings {
        volume: vec!["0.350".to_string()],
        shuffle: true,
        session: Session {
            tab: Some("feeds".to_string()),
            folder: Some("/music/Deep Purple".to_string()),
            selected: Some("/music/Deep Purple/=1".to_string()),
            feed: Some("https://example.com/feed?format=rss&id=7".to_string()),
            track: Some("https://example.com/ep 12.mp3".to_string()),
            queue: Some("/music/Deep Purple/=1".to_string()),
            position: vec!["93.4".to_string()],
            playing: true,
        },
        remote: Remote {
            server: Some("tuneterm://nas".to_string()),
            token: Some("s3cret=with=equals".to_string()),
        },
    }
}

/// What the file actually looks like. It is meant to be opened in an editor,
/// so its shape is part of the contract, not an implementation detail.
#[test]
fn the_written_file_is_readable() {
    let text = config::settings_text(&a_session());
    for line in [
        "volume = 0.350",
        "shuffle = 1",
        "tab = feeds",
        "folder = /music/Deep Purple",
        "selected = /music/Deep Purple/=1",
        "track = https://example.com/ep 12.mp3",
        "position = 93.4",
        "playing = 1",
        "server = tuneterm://nas",
        "token = s3cret=with=equals",
    ] {
        assert!(text.contains(line), "missing {line:?} in:\n{text}");
    }
}

#[test]
fn settings_survive_a_round_trip() {
    let settings = a_session();
    let text = config::settings_text(&settings);
    assert_eq!(config::load_settings(Some(text.as_str())), settings);
}

/// A path or a URL may contain `=`, and both are written unquoted.
#[test]
fn a_value_containing_an_equals_sign_survives() {
    let parsed = parse_settings(
        "selected = /music/Deep Purple/=1\nfeed = https://example.com/f?format=rss\n",
    );
    assert_eq!(parsed.session.selected.as_deref(), Some("/music/Deep Purple/=1"));
    assert_eq!(parsed.session.feed.as_deref(), Some("https://example.com/f?format=rss"));
}

/// Nothing set is written out, so the file stays readable and a missing key
/// keeps meaning "no opinion" rather than "empty".
#[test]
fn an_empty_session_writes_no_session_keys() {
    let text = config::settings_text(&Settings::new());
    for absent in ["tab", "folder", "selected", "feed", "track", "position", "playing"] {
        assert!(!text.contains(&format!("{absent} =")), "{absent} was written");
    }
    assert_eq!(parse_settings(&text), Settings::new());
}

#[test]
fn every_reading_of_the_volume_is_kept_as_written() {
    for (text, expected) in [
        ("volume = 5\n", vec!["5"]),
        ("volume = loud\n", vec!["loud"]),
        ("volume\n", vec![]),
        ("volume =\n", vec![]),
        ("# volume = 0.1\n", vec![]),
        ("  volume   =   0.25  \n", vec!["0.25"]),
        ("nonsense = yes\nvolume = 0.5\n", vec!["0.5"]),
        ("volume = 0.5\nvolume = loud\n", vec!["0.5", "loud"]),
    ] {
        assert_eq!(parse_settings(text).volume, expected, "{text:?}");
    }
}

#[test]
fn shuffle_accepts_the_ways_a_person_would_write_it() {
    for on in ["1", "true", "yes", "on"] {
        assert!(parse_settings(&format!("shuffle = {on}\n")).shuffle, "{on}");
    }
    for off in ["0", "false", "no", "off", "maybe"] {
        assert!(!parse_settings(&format!("shuffle = {off}\n")).shuffle, "{off}");
    }
}

/// Round-tripping must not lose names, and must not invent them either.
#[test]
fn saving_and_loading_preserves_the_list() {
    let feeds = vec![
        default_feed(),
        Feed { name: "example.com".to_string(), url: "https://example.com/p.xml".to_string() },
    ];
    let text = config::feeds_text(&feeds);
    assert_eq!(config::load_feeds(Some(text.as_str())), feeds);
    assert_eq!(config::load_feeds(None), [default_feed()], "a first run has something to show");
}

// ---------------------------------------------------------------------------
// Feeds
// ---------------------------------------------------------------------------

/// Shaped like the real musicforprogramming feed, which opens with a comment
/// before `<rss>` and uses self-closing `enclosure` and `itunes:image`.
const SAMPLE: &str = r#"<!-- Generated on Tue, 12 May 2026 16:11:03 GMT -->
<rss version="2.0" xmlns:itunes="http://www.itunes.com/dtds/podcast-1.0.dtd"
     xmlns:dc="http://purl.org/dc/elements/1.1/">
  <channel>
    <title>Music For Programming</title>
    <itunes:image href="https://example.com/channel.jpg"/>
    <item>
      <title>78: Datassette</title>
      <dc:creator>Datassette</dc:creator>
      <itunes:duration>1:02:03</itunes:duration>
      <enclosure url="https://example.com/78.mp3" length="158925518" type="audio/mpeg"/>
      <itunes:image href="https://example.com/78.jpg"/>
    </item>
    <item>
      <title><![CDATA[77: Someone Else]]></title>
      <itunes:author>Someone Else</itunes:author>
      <itunes:duration>2520</itunes:duration>
      <enclosure url="https://example.com/77.mp3" type="audio/mpeg"/>
    </item>
    <item>
      <title>No audio here</title>
    </item>
  </channel>
</rss>"#;

#[test]
fn reads_the_fields_the_interface_shows() {
    let channel = feed::parse(SAMPLE).expect("parse");
    assert_eq!(channel.title, "Music For Programming");
    assert_eq!(channel.episodes.len(), 2, "the item with no audio is dropped");

    let first = &channel.episodes[0];
    assert_eq!(first.title, "78: Datassette");
    assert_eq!(first.author, "Datassette");
    assert_eq!(first.url, "https://example.com/78.mp3");
    assert_eq!(first.duration, Some(Duration::from_secs(3723)));
    assert_eq!(first.art_url.as_deref(), Some("https://example.com/78.jpg"));
}

#[test]
fn cdata_titles_and_itunes_author_work() {
    let channel = feed::parse(SAMPLE).unwrap();
    let second = &channel.episodes[1];
    assert_eq!(second.title, "77: Someone Else");
    assert_eq!(second.author, "Someone Else");
    assert_eq!(second.duration, Some(Duration::from_secs(2520)));
}

/// An item without its own artwork should still show something.
#[test]
fn channel_artwork_is_inherited() {
    let channel = feed::parse(SAMPLE).unwrap();
    assert_eq!(
        channel.episodes[1].art_url.as_deref(),
        Some("https://example.com/channel.jpg")
    );
}

/// The channel title must not be overwritten by the first item's title.
#[test]
fn item_titles_do_not_leak_into_the_channel() {
    let channel = feed::parse(SAMPLE).unwrap();
    assert_eq!(channel.title, "Music For Programming");
}

#[test]
fn durations_in_every_shape() {
    assert_eq!(parse_duration("45"), Some(Duration::from_secs(45)));
    assert_eq!(parse_duration("2:05"), Some(Duration::from_secs(125)));
    assert_eq!(parse_duration("1:00:00"), Some(Duration::from_secs(3600)));
    assert_eq!(parse_duration(" 3:07 "), Some(Duration::from_secs(187)));
    assert_eq!(parse_duration("90.5"), Some(Duration::from_secs(90)));
    for bad in ["", "abc", "1:2:3:4", "0", "-5"] {
        assert_eq!(parse_duration(bad), None, "{bad}");
    }
}

#[test]
fn namespaces_are_ignored() {
    assert_eq!(local_name(b"itunes:duration"), "duration");
    assert_eq!(local_name(b"DC:Creator"), "creator");
    assert_eq!(local_name(b"title"), "title");
}

#[test]
fn bytes_that_are_not_text_are_replaced() {
    assert_eq!(local_name(b"a:\xffB"), "\u{fffd}b");
}

#[test]
fn steps_mean_what_they_say() {
    let tag = |name: &str, body: &str| RawTag {
        name: name.as_bytes().to_vec(),
        body: body.as_bytes().to_vec(),
    };
    match read_step(Raw::Empty(tag("enclosure", "enclosure url=\" u \" href='h'"))) {
        Some(Node::Leaf { name, url, href }) => {
            assert_eq!((name.as_str(), url.as_deref(), href), ("enclosure", Some("u"), None));
        }
        other => panic!("{other:?}"),
    }
    match read_step(Raw::Start(tag("itunes:image", "itunes:image href='h'"))) {
        Some(Node::Open { name, url, href }) => {
            assert_eq!((name.as_str(), url, href.as_deref()), ("image", None, Some("h")));
        }
        other => panic!("{other:?}"),
    }
    match read_step(Raw::CData(b" 77: x ".to_vec())) {
        Some(Node::Words { text }) => assert_eq!(text, "77: x"),
        other => panic!("{other:?}"),
    }
    match read_step(Raw::End(b"itunes:Duration".to_vec())) {
        Some(Node::Close { name }) => assert_eq!(name, "duration"),
        other => panic!("{other:?}"),
    }
    assert!(read_step(Raw::Other).is_none());
}

/// A feed that is not a feed must come back empty, not panic.
#[test]
fn nonsense_input_is_survivable() {
    assert_eq!(feed::parse("").unwrap().episodes.len(), 0);
    assert_eq!(feed::parse("<html><body>hi</body></html>").unwrap().episodes.len(), 0);
    assert!(feed::parse("<rss><channel><item>").is_ok(), "truncated feed");
}

#[test]
fn broken_markup_is_an_error() {
    assert!(feed::parse("<rss><channel></rss>").is_err());
}

#[test]
fn attributes_are_unescaped() {
    let channel = feed::parse(
        "<rss><channel><item><title>a</title>\
         <enclosure url=\"https://e.example/?a=1&amp;b=2\"/></item></channel></rss>",
    )
    .unwrap();
    assert_eq!(channel.episodes[0].url, "https://e.example/?a=1&b=2");
}

#[test]
fn an_enclosure_may_have_an_end_tag() {
    let channel = feed::parse(
        "<rss><channel><item><title>a</title>\
         <enclosure url=\"u\"></enclosure></item></channel></rss>",
    )
    .unwrap();
    assert_eq!(channel.episodes[0].url, "u");
}

// ---------------------------------------------------------------------------
// The library
// ---------------------------------------------------------------------------

#[test]
fn recovers_cyrillic_stored_as_latin1() {
    for (broken, want) in [
        ("Âàíÿ", "Ваня"),
        ("Ñàøà", "Саша"),
        ("Ïàïà", "Папа"),
        ("Äåòè", "Дети"),
        ("Àôôèíàæ", "Аффинаж"),
        ("Ðóññêèå ïåñíè", "Русские песни"),
    ] {
        assert_eq!(recover_cp1251(broken).as_deref(), Some(want), "{broken}");
    }
}

/// Text that is genuinely Latin-1 must survive untouched, or fixing Russian
/// tags would break every accented Western name.
#[test]
fn leaves_real_latin1_alone() {
    for text in [
        "Björk",
        "Café",
        "Motörhead",
        "Sigur Rós",
        "Éléphant",
        "Mötley Crüe",
        "Blue Öyster Cult",
        "Naïve",
        "Sinéad O'Connor",
        "Zoë",
    ] {
        assert_eq!(recover_cp1251(text), None, "{text} was mangled");
    }
}

#[test]
fn leaves_plain_ascii_and_real_unicode_alone() {
    for text in ["Show Me", "", "1979", "Ваня", "日本語", "Ελλάδα"] {
        assert_eq!(recover_cp1251(text), None, "{text}");
    }
}

/// A single high byte is an accent, not a Cyrillic word.
#[test]
fn needs_more_than_one_high_byte() {
    assert_eq!(recover_cp1251("Ä"), None);
    assert_eq!(recover_cp1251("aÄa"), None);
}

/// High bytes have to outnumber the ASCII letters, letters themselves or not.
#[test]
fn high_bytes_have_to_outnumber_the_plain_letters() {
    assert_eq!(recover_cp1251("abcd¨àíÿ"), None);
    assert_eq!(recover_cp1251("abc¨àíÿ").as_deref(), Some("abcЁаня"));
}

/// Punctuation and digits around the letters must not defeat the heuristic.
#[test]
fn survives_mixed_punctuation() {
    assert_eq!(recover_cp1251("Ëåòàþ_Ðàñòó").as_deref(), Some("Летаю_Расту"));
    assert_eq!(recover_cp1251("01. Âàíÿ (2013)").as_deref(), Some("01. Ваня (2013)"));
}

#[test]
fn fix_encoding_is_the_identity_when_nothing_is_wrong() {
    assert_eq!(fix_encoding("Björk".to_string()), "Björk");
    assert_eq!(fix_encoding("Ваня".to_string()), "Ваня");
    assert_eq!(fix_encoding("Âàíÿ".to_string()), "Ваня");
}

fn file(path: &str, time: u64) -> Entry {
    Entry::File { path: path.to_string(), time }
}

fn folder(path: &str, time: u64, entries: Vec<Entry>) -> Entry {
    Entry::Dir { path: path.to_string(), time, entries }
}

#[test]
fn only_audio_is_counted_and_listed() {
    let entries = vec![
        file("/m/b.MP3", 5),
        file("/m/notes.txt", 90),
        folder("/m/Empty", 50, vec![file("/m/Empty/x.jpg", 3)]),
        folder(
            "/m/Sub",
            7,
            vec![
                file("/m/Sub/a.flac", 8),
                file("/m/Sub/c.ogg", 6),
                file("/m/Sub/.d.mp3", 70),
            ],
        ),
        folder("/m/.git", 99, vec![file("/m/.git/a.mp3", 99)]),
    ];
    assert_eq!(library::flat_paths(&entries), ["/m/b.MP3"]);
    assert_eq!(library::deep_paths(&entries), ["/m/Sub/a.flac", "/m/Sub/c.ogg", "/m/b.MP3"]);
    let found = library::list_subdirs(&entries);
    assert_eq!(found.len(), 1, "folders with no audio anywhere are not shown");
    assert_eq!((found[0].label.as_str(), found[0].count, found[0].newest), ("Sub", 2, 8));
}

#[test]
fn folders_of_both_sides_are_merged_by_name() {
    let here = |label: &str| Folder {
        label: label.to_string(),
        path: format!("/m/{label}"),
        count: 1,
        newest: 1,
    };
    let there = |label: &str| Folder {
        label: label.to_string(),
        path: format!("tuneterm://nas:7700/{label}"),
        count: 1,
        newest: 1,
    };
    let rows = library::merge(vec![here("b"), here("c")], &vec![there("a"), there("b"), there("d")]);
    let paths: Vec<&str> = rows.iter().map(|f| f.path.as_str()).collect();
    assert_eq!(paths, ["tuneterm://nas:7700/a", "/m/b", "/m/c", "tuneterm://nas:7700/d"]);
}

#[test]
fn tags_win_over_the_file_name() {
    let bare = library::read_track("/m/Album/01 song.mp3".to_string(), None);
    assert_eq!(bare.title, "01 song");
    assert_eq!((bare.duration, bare.stars), (None, None));

    let tag = Tag {
        title: Some("Âàíÿ".to_string()),
        artist: None,
        album_artist: Some("Various".to_string()),
        album: Some("Hits".to_string()),
    };
    let tagged = Tagged { duration: Duration::from_secs(61), tag: Some(tag) };
    let track = library::read_track("/m/Album/01 song.mp3".to_string(), Some(tagged));
    assert_eq!(track.title, "Ваня");
    assert_eq!(track.artist, "Various", "the album artist stands in");
    assert_eq!(track.album, "Hits");
    assert_eq!(track.duration, Some(Duration::from_secs(61)));
}

#[test]
fn the_first_picture_with_anything_in_it_is_the_cover() {
    let pictures = vec![None, Some(vec![]), Some(vec![1u8]), Some(vec![2u8])];
    let found = library::embedded_cover(&pictures);
    assert!(found == Some(1) || found == Some(2), "{found:?}");
    assert_eq!(library::embedded_cover(&vec![None, None]), None);
    let beside = library::sidecar_covers("/m/Album/01.mp3");
    assert!(beside.contains(&"/m/Album/cover.jpg".to_string()), "{beside:?}");
}

#[test]
fn durations_read_like_a_clock() {
    assert_eq!(fmt_duration(Duration::from_secs(0)), "0:00");
    assert_eq!(fmt_duration(Duration::from_secs(187)), "3:07");
    assert_eq!(fmt_duration(Duration::from_secs(3723)), "62:03");
}

#[test]
fn what_is_remembered_is_recalled_until_the_folder_changes() {
    let mut memo = Memo::new();
    let at = |count: usize| Folder {
        label: "A".to_string(),
        path: "/m/A".to_string(),
        count,
        newest: 4,
    };
    let track = library::read_track("/m/A/1.mp3".to_string(), None);
    memo.remember("/m/A", at(1).stamp(), vec![track]);
    assert_eq!(memo.recall(&at(1)).map(|t| t.len()), Some(1));
    assert!(memo.recall(&at(2)).is_none());
    memo.restar("/m/A/1.mp3", Some(2));
    assert_eq!(memo.recall(&at(1)).unwrap()[0].stars, Some(2));
    for i in 0..KEEP {
        memo.remember(&format!("/m/{i}"), at(1).stamp(), Vec::new());
    }
    assert!(memo.recall(&at(1)).is_none(), "the oldest went first");
    assert_eq!(memo.entries.len(), KEEP);
    memo.clear();
    assert!(memo.entries.is_empty());
}

// ---------------------------------------------------------------------------
// Ratings
// ---------------------------------------------------------------------------

#[test]
fn stars_survive_a_restart_and_follow_a_move() {
    let mut ratings = Ratings::new();
    ratings.set("Artist/Early/01 a.mp3", 3, 10);
    ratings.set("Artist/Late/01 b.mp3", 1, 11);
    ratings.set("Beta/01 c.mp3", 2, 12);

    let mut ratings = ratings::parse(&ratings.text());
    assert_eq!(ratings.get("Artist/Early/01 a.mp3"), Some(3));

    ratings.moved("Artist", "Band");
    assert_eq!(ratings.get("Artist/Early/01 a.mp3"), None);
    assert_eq!(ratings.get("Band/Early/01 a.mp3"), Some(3));
    assert_eq!(ratings.get("Band/Late/01 b.mp3"), Some(1));

    ratings.removed("Band/Late");
    assert_eq!(ratings.get("Band/Late/01 b.mp3"), None);
    assert_eq!(ratings.get("Beta/01 c.mp3"), Some(2), "only what was under it");
}

/// Taking stars away still moves the folder's time: players that remember the
/// folder have to hear about that too.
#[test]
fn taking_stars_away_is_a_change() {
    let mut ratings = Ratings::new();
    ratings.set("Alpha/01.mp3", 2, 1000);
    let given = ratings.newest_under("Alpha");
    assert!(given > 0);
    assert_eq!(ratings.newest_under("Alphabet"), 0, "a prefix is not a folder");

    ratings.set("Alpha/01.mp3", 0, 1002);
    assert_eq!(ratings.get("Alpha/01.mp3"), None);
    assert!(ratings.newest_under("Alpha") > given);
}

#[test]
fn there_are_three_stars_at_most() {
    let mut ratings = ratings::parse("9 1 a.mp3\n3 1 b.mp3\nx 1 c.mp3\n");
    assert_eq!(ratings.get("a.mp3"), None, "a line that does not parse costs that line");
    assert_eq!(ratings.get("b.mp3"), Some(3));
    ratings.set("a.mp3", 200, 2);
    assert_eq!(ratings.get("a.mp3"), Some(3));
}

#[test]
fn nothing_rated_is_nothing_changed() {
    let mut ratings = Ratings::new();
    ratings.set("Alpha/01.mp3", 2, 1000);
    assert!(!ratings.moved("Beta", "Gamma"));
    assert!(!ratings.removed("Alph"));
    assert!(ratings.removed("Alpha/01.mp3"));
}

// ---------------------------------------------------------------------------
// Text, paths and order
// ---------------------------------------------------------------------------

#[test]
fn text_is_cut_and_put_together() {
    assert_eq!(text::trim("\u{a0} a b\t\n"), "a b");
    assert_eq!(text::split_once("a=b=c", '='), Some(("a", "b=c")));
    assert_eq!(text::split_once("abc", '='), None);
    assert_eq!(text::split("a,,b", ','), ["a", "", "b"]);
    assert_eq!(text::lines("a\r\nb\n\nc"), ["a", "b", "", "c"]);
    assert_eq!(text::strip("//a/b//", '/'), "a/b");
    assert_eq!(text::lower("ABЯ c"), "abЯ c");
    assert!(text::contains("xterm-kitty", "kitty") && text::contains("a", ""));
    assert!(!text::contains("kit", "kitty") && !text::contains("xterm", "term-"));
    assert_eq!(text::cat5("a", "б", "", "c", "d"), "aбcd");
    assert!(text::is_before("a", "ab") && text::is_before("Z", "a"));
    assert!(!text::is_before("b", "a") && !text::is_before("a", "a"));
}

#[test]
fn numbers_are_written_and_read() {
    assert_eq!(text::print(0), "0");
    assert_eq!(text::print(u64::MAX), "18446744073709551615");
    assert_eq!(text::parse("18446744073709551615", u64::MAX), Some(u64::MAX));
    assert_eq!(text::parse("18446744073709551616", u64::MAX), None);
    assert_eq!(text::parse("+7", 255), Some(7));
    assert_eq!(text::parse("256", 255), None);
    for bad in ["", "+", "-1", "1 ", "a"] {
        assert_eq!(text::parse(bad, 255), None, "{bad:?}");
    }
}

#[test]
fn paths_are_taken_apart_by_their_parts() {
    assert_eq!(paths::parts("/a//b/./c/"), ["/", "a", "b", "c"]);
    assert!(paths::same("/a/b/", "/a//b"));
    assert!(paths::is_inside("/a/b/c", "/a/b") && !paths::is_inside("/a/bc", "/a/b"));
    assert_eq!(paths::relative("/a/b/c", "/a").as_deref(), Some("b/c"));
    assert_eq!(paths::file_name("/a/b/").as_deref(), Some("b"));
    assert_eq!(paths::file_name("/a/.."), None);
    assert_eq!(paths::parent_of("/a/b").as_deref(), Some("/a"));
    assert_eq!(paths::parent_of("/"), None);
    assert_eq!(paths::join("/a", "b"), "/a/b");
    assert_eq!(paths::join("/a", "/b"), "/b");
    assert_eq!(paths::file_extension("/a/x.tar.gz").as_deref(), Some("gz"));
    assert_eq!(paths::file_extension("/a/.bashrc"), None);
    assert_eq!(paths::file_stem("/a/x.tar.gz").as_deref(), Some("x.tar"));
}

#[test]
fn sorting_keeps_equal_keys_in_place() {
    let key = |parts: &[&str]| parts.iter().map(|p| p.to_string()).collect::<Vec<String>>();
    let keys = vec![key(&["b"]), key(&["a", "c"]), key(&["a"]), key(&["b"])];
    assert_eq!(sorted_order(&keys), [2, 1, 0, 3]);
    assert!(is_preceding(&keys[2], &keys[1]));
    assert!(!is_preceding(&keys[0], &keys[3]));
}
