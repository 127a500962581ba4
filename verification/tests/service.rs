//! Servers and what talks to them: addresses, remote files, the command line, workers,
//! media keys and the shape of the screen.

use image::{DynamicImage, RgbImage};
use tuneterm::app::Tab;
use tuneterm::cli::{self, wire, Options, Plan};
use tuneterm::config::Remote;
use tuneterm::cover::{self, CoverLoader, Prepared, Request};
use tuneterm::library::{self, Entry as Found};
use tuneterm::media::{Bridge, Command, MediaEvent, NowPlaying, SeekDirection};
use tuneterm::net::{self, HttpFile, SeekFrom};
use tuneterm::queue::{self, Rng};
use tuneterm::ratings::Ratings;
use tuneterm::remote::{
    self, authority_of, human, parse, path_of, split_address, Address, Answer, Code, ListedFolder,
    ListedTrack, Message, Need, Parcel, Pushed, Registry, RemoteFile, Server, Stat, Status, Upload,
};
use tuneterm::server::{
    self, check_token, constant_time_eq, lexical, wav, Entry, Receipt, Removal, Service,
};
use tuneterm::time::Duration;
use tuneterm::ui::{self, centre_in, Graphics, Panes, Playing, Position, Rect};
use tuneterm::worker::Worker;

// ---------------------------------------------------------------------------
// Streams over HTTP
// ---------------------------------------------------------------------------

/// Seek arithmetic, without a server: the offsets are the part that goes wrong.
fn fake(len: u64) -> HttpFile {
    HttpFile::open("https://example.invalid/x", Some(len)).unwrap()
}

#[test]
fn seeks_from_every_anchor() {
    let mut file = fake(1000);
    assert_eq!(file.seek(SeekFrom::Start(100)).unwrap(), 100);
    assert_eq!(file.seek(SeekFrom::Current(50)).unwrap(), 150);
    assert_eq!(file.seek(SeekFrom::Current(-100)).unwrap(), 50);
    assert_eq!(file.seek(SeekFrom::End(-1)).unwrap(), 999);
    assert_eq!(file.seek(SeekFrom::End(0)).unwrap(), 1000);
}

/// Past the end must clamp, not error: a decoder probing the tail is normal.
#[test]
fn seeking_past_the_end_clamps() {
    let mut file = fake(1000);
    assert_eq!(file.seek(SeekFrom::Start(9_999)).unwrap(), 1000);
    assert_eq!(file.seek(SeekFrom::End(500)).unwrap(), 1000);
    assert_eq!(file.seek(SeekFrom::Start(u64::MAX)).unwrap(), 1000, "however far past");
    let info = Stat { exists: true, is_dir: false, size: 1000 };
    let mut remote = RemoteFile::open("a.wav", info).unwrap();
    assert_eq!(remote.seek(SeekFrom::Start(u64::MAX)).unwrap(), 1000);
}

#[test]
fn seeking_before_the_start_is_an_error() {
    let mut file = fake(1000);
    assert!(file.seek(SeekFrom::Current(-1)).is_err());
    assert!(file.seek(SeekFrom::End(-2000)).is_err());
}

/// At the end there is nothing to read, and no request should be attempted.
#[test]
fn reading_at_the_end_returns_zero_without_a_request() {
    let mut file = fake(10);
    file.seek(SeekFrom::End(0)).unwrap();
    assert_eq!(file.range_needed(), None);
}

/// A seek must invalidate the open response, or the next read would return bytes
/// from the old offset — silent corruption rather than an error.
#[test]
fn a_seek_drops_the_open_stream() {
    let mut file = fake(1000);
    file.streaming = true;
    file.seek(SeekFrom::Start(500)).unwrap();
    assert!(!file.streaming);
    assert_eq!(file.range_needed().as_deref(), Some("bytes=500-"));
}

/// Seeking to where we already are must not throw away a usable stream.
#[test]
fn seeking_to_the_current_position_keeps_the_stream() {
    let mut file = fake(1000);
    file.seek(SeekFrom::Start(200)).unwrap();
    file.streaming = true;
    file.seek(SeekFrom::Start(200)).unwrap();
    assert!(file.streaming, "needless reconnect");
}

#[test]
fn a_bad_url_fails_rather_than_hanging() {
    assert!(net::get(Err("could not be reached".to_string())).is_err());
    assert!(HttpFile::open("https://tuneterm.invalid/nothing", None).is_err());
}

#[test]
fn a_length_comes_from_any_header_that_has_it() {
    assert_eq!(net::head_length("1234"), Some(1234));
    assert_eq!(net::head_length("soon"), None);
    assert_eq!(net::probe_length(None, Some("bytes 0-0/999")), Some(999));
    assert_eq!(net::probe_length(None, None), None);
}

#[test]
fn a_broken_stream_is_opened_again_where_it_stopped() {
    let mut file = fake(1000);
    assert_eq!(file.range_needed().as_deref(), Some("bytes=0-"));
    file.opened();
    file.advance(Some(100));
    assert_eq!(file.range_needed(), None);
    file.advance(None);
    assert_eq!(file.range_needed().as_deref(), Some("bytes=100-"));
    assert_eq!(file.len(), 1000);
}

// ---------------------------------------------------------------------------
// Addresses and servers
// ---------------------------------------------------------------------------

fn address(token: Option<&str>, authority: &str, path: &str) -> Address {
    Address {
        token: token.map(str::to_string),
        authority: authority.to_string(),
        path: path.to_string(),
    }
}

#[test]
fn parses_addresses() {
    assert_eq!(parse("tuneterm://nas").unwrap(), address(None, "nas:7700", "/"));
    assert_eq!(
        parse("tuneterm://secret@nas:9000/Lumen/2002").unwrap(),
        address(Some("secret"), "nas:9000", "/Lumen/2002")
    );
    assert_eq!(parse("tuneterm://[::1]/x").unwrap(), address(None, "[::1]:7700", "/x"));
    assert_eq!(parse("tuneterm://[::1]:1/x").unwrap().authority, "[::1]:1".to_string());
    assert!(parse("http://nas").is_err());
    assert!(parse("tuneterm:///x").is_err());
}

#[test]
fn addresses_split_into_parts() {
    assert_eq!(path_of("tuneterm://nas/Lumen/2002"), "Lumen/2002");
    assert_eq!(path_of("tuneterm://nas"), "");
    assert_eq!(authority_of("tuneterm://k@nas/x").as_deref(), Some("nas:7700"));
    for (typed, server, token) in [
        ("nas", "tuneterm://nas:7700", None),
        ("  k@nas:9 ", "tuneterm://nas:9", Some("k")),
        ("tuneterm://k@nas", "tuneterm://nas:7700", Some("k")),
    ] {
        let (got_server, got_token) = split_address(typed).unwrap();
        assert_eq!(got_server, server, "{typed}");
        assert_eq!(got_token.as_deref(), token, "{typed}");
    }
    assert!(split_address("").is_err());
}

#[test]
fn a_mistyped_at_sign_is_pointed_out() {
    let why = split_address("simple_token&192.168.0.200:7700").unwrap_err();
    assert!(why.contains('@'), "{why}");
    // Anything else that is no host is found out by the endpoint.
    assert_eq!(split_address("nas~2").unwrap().0, "tuneterm://nas~2:7700");
    assert!(Server::open(&split_address("two words").unwrap().0).is_err());
}

#[test]
fn browses_like_the_local_library() {
    let addr = "127.0.0.1:7700";
    let server = Server::open(&format!("tuneterm://{addr}")).unwrap();

    // A folder's path is its address, so the browser can walk into it.
    let top = server.folders(&vec![ListedFolder {
        name: "Artist".to_string(),
        path: "Artist".to_string(),
        count: 2,
        newest: 5,
    }]);
    assert_eq!(top.len(), 1);
    assert_eq!(top[0].label, "Artist");
    assert_eq!(top[0].path, format!("tuneterm://{addr}/Artist"));
    assert_eq!(top[0].count, 2, "the count is recursive");
    assert_eq!(path_of(&top[0].path), "Artist");

    let below = server.folders(&vec![ListedFolder {
        name: "Альбом".to_string(),
        path: "Artist/Альбом".to_string(),
        count: 2,
        newest: 5,
    }]);
    assert_eq!(below[0].path, format!("tuneterm://{addr}/Artist/Альбом"));

    // The whole discography from the artist, in one call.
    let listed = ["Artist/Альбом/01.wav", "Artist/Альбом/02.wav"].map(|path| ListedTrack {
        path: path.to_string(),
        title: String::new(),
        artist: String::new(),
        album: String::new(),
        duration_ms: Some(3000),
        size: 0,
        stars: 0,
    });
    let tracks = server.tracks(&Vec::from(listed));
    let paths: Vec<_> = tracks.iter().map(|t| t.path.clone()).collect();
    assert_eq!(
        paths,
        [
            format!("tuneterm://{addr}/Artist/Альбом/01.wav"),
            format!("tuneterm://{addr}/Artist/Альбом/02.wav")
        ]
    );
    assert_eq!(
        tracks[0].url.as_deref(),
        Some(format!("tuneterm://{addr}/Artist/Альбом/01.wav").as_str())
    );
    assert_eq!(tracks[0].duration, Some(Duration::from_secs(3)));
    assert_eq!(tracks[0].stars, None);
}

#[test]
fn a_token_is_checked() {
    let wanted = Some("right".to_string());
    let wrong = Server::open("tuneterm://wrong@127.0.0.1:7700").unwrap();
    let refused = check_token(&wanted, wrong.bearer.as_deref()).unwrap_err();
    assert_eq!(refused.code, Code::Unauthenticated);
    let err = remote::describe(&refused);
    assert!(err.contains("token"), "{err}");

    let right = Server::open("tuneterm://right@127.0.0.1:7700").unwrap();
    assert_eq!(right.bearer.as_deref(), Some("Bearer right"));
    assert!(check_token(&wanted, right.bearer.as_deref()).is_ok());

    // A token kept apart from the address, the way the settings keep it.
    let kept = Server::connect("tuneterm://127.0.0.1:7700", Some("right")).unwrap();
    assert!(check_token(&wanted, kept.bearer.as_deref()).is_ok());
    assert!(check_token(&wanted, None).is_err());
    assert!(check_token(&None, None).is_ok(), "an open server asks for nothing");
}

#[test]
fn a_token_has_to_fit_in_a_header() {
    assert!(Server::open("tuneterm://tok en@nas").is_ok());
    assert!(Server::open("tuneterm://to\u{7}ken@nas").is_err());
    assert!(Server::connect("tuneterm://nas", Some("a\nb")).is_err());
}

#[test]
fn an_authority_has_to_be_one() {
    assert!(Server::open("tuneterm://nas").is_ok());
    assert!(Server::open("tuneterm://na s").is_err());
}

#[test]
fn the_answer_of_the_endpoint_decides() {
    let a = address(Some("k"), "nas:7700", "/");
    let server = Server::connect_given(a, None, Ok(())).unwrap();
    assert_eq!(server.authority, "nas:7700");
    assert_eq!(server.bearer.as_deref(), Some("Bearer k"));
    let a = address(None, "nas:7700", "/");
    assert!(Server::connect_given(a, None, Err("bad uri".to_string())).is_err());
}

#[test]
fn the_registry_keeps_the_latest_token() {
    let mut registry = Registry::new();
    registry.insert(&Server::open("tuneterm://old@nas").unwrap());
    registry.insert(&Server::open("tuneterm://new@nas").unwrap());
    let found = registry.find("nas:7700").unwrap();
    assert_eq!(found.bearer.as_deref(), Some("Bearer new"));
    let (server, path) = registry.for_url("tuneterm://nas/Lumen/a.mp3").unwrap();
    assert_eq!(server.bearer.as_deref(), Some("Bearer new"));
    assert_eq!(path, "Lumen/a.mp3");
}

#[test]
fn connecting_registers() {
    let mut registry = Registry::new();
    registry.connect("tuneterm://nas", Some("k")).unwrap();
    let (server, path) = registry.for_url("tuneterm://nas/y").unwrap();
    assert_eq!((server.bearer.as_deref(), path.as_str()), (Some("Bearer k"), "y"));

    // One that a lookup had to open is found again, token and all.
    let mut registry = Registry::new();
    registry.for_url("tuneterm://k@nas/x").unwrap();
    let (server, _) = registry.for_url("tuneterm://other@nas/y").unwrap();
    assert_eq!(server.bearer.as_deref(), Some("Bearer k"));
    assert_eq!(registry.servers.len(), 1);

    // One that could not be is not.
    assert!(registry.connect("tuneterm://na s", None).is_err());
    assert!(registry.for_url("tuneterm:///x").is_err());
    assert_eq!(registry.servers.len(), 1);
}

#[test]
fn a_server_without_a_token_refuses_changes() {
    let service = Service::new("/srv", true, &None).unwrap();
    let err = service.remove("/srv/single.wav", false, false).unwrap_err();
    assert_eq!(err.code, Code::PermissionDenied);
    assert!(service.check_upload("single.wav", false).is_err());
    assert!(service.check_move("/srv/a", "/srv/b", "b", false).is_err());
    assert!(Service::new("/srv/file", false, &None).is_err());
}

#[test]
fn a_remote_file_reads_and_seeks_like_a_local_one() {
    let want = wav(3);
    let info = Stat { exists: true, is_dir: false, size: want.len() as u64 };
    let mut file = RemoteFile::open("Artist/Альбом/01.wav", info).unwrap();
    assert_eq!(file.len(), want.len() as u64);

    // Where the open stream of the server has got to.
    let mut stream = 0;
    let mut read = |file: &mut RemoteFile, n: usize| -> Vec<u8> {
        let mut out = Vec::new();
        while out.len() < n {
            match file.need(n - out.len()) {
                Need::Nothing => break,
                Need::Ready => out.extend(file.take(n - out.len())),
                need => {
                    if let Need::Open(at) = need {
                        stream = at as usize;
                    }
                    if stream == want.len() {
                        file.ended();
                        break;
                    }
                    let end = want.len().min(stream + 1000);
                    file.chunk(want[stream..end].to_vec());
                    stream = end;
                }
            }
        }
        out
    };
    let all = read(&mut file, want.len());
    assert!(all == want, "a straight read differs from the file");

    // Backwards, forwards past the buffered chunk, and within it.
    for at in [100u64, 40_000, 40_010, 7, want.len() as u64 - 5] {
        file.seek(SeekFrom::Start(at)).unwrap();
        let got = read(&mut file, 5);
        assert_eq!(got, want[at as usize..at as usize + 5], "at {at}");
    }
    assert_eq!(read(&mut file, 8).len(), 0, "past the end");
}

#[test]
fn only_files_open() {
    let missing = Stat { exists: false, is_dir: false, size: 0 };
    assert!(RemoteFile::open("gone.wav", missing).is_err());
    let folder = Stat { exists: true, is_dir: true, size: 0 };
    assert!(RemoteFile::open("Artist", folder).is_err());
}

#[test]
fn covers_come_back_as_bytes() {
    let with = remote::cover(Ok(b"not really a jpeg".to_vec()));
    assert_eq!(with.as_deref(), Some(&b"not really a jpeg"[..]));
    assert_eq!(remote::cover(Ok(Vec::new())), None);
    assert_eq!(remote::cover(Err("gone".to_string())), None);
}

#[test]
fn nothing_outside_the_music_folder_is_reachable() {
    let service = Service::new("/srv", true, &None).unwrap();
    for path in ["../x", "Artist/../../x", "/../x"] {
        assert!(service.target(path).is_err(), "{path} was let through");
        assert!(service.existing(path, Some("/srv/x".to_string())).is_err());
        assert!(service.creatable(path, Ok("/srv".to_string())).is_err());
    }
    // A link that leads out of the folder.
    let outside = Some("/outside/secret.wav".to_string());
    assert!(service.existing("escape/secret.wav", outside).is_err());
    assert!(service.creatable("escape/new", Ok("/outside".to_string())).is_err());
    let inside = service.existing("a/b", Some("/srv/a/b".to_string())).unwrap();
    assert_eq!(service.relative(&inside), "a/b");
    assert_eq!(service.existing("gone", None).unwrap_err().code, Code::NotFound);
}

#[test]
fn a_move_deletes_only_what_the_server_confirmed() {
    let parcel = |name: &str| Parcel {
        local: format!("/m/Lumen/2002/{name}"),
        remote: format!("Lumen/2002/{name}"),
    };
    let parcels = vec![parcel("01.wav"), parcel("02.wav")];
    let absent = Stat { exists: false, is_dir: false, size: 0 };
    let mut pushed = Pushed::start(2);
    assert_eq!(pushed.next(&parcels), Some(0));
    pushed.advance(&parcels, Ok(Answer { size: 44, there: absent, confirmed: 44 }));
    assert_eq!(pushed.next(&parcels), Some(1));
    // Fewer bytes arrived than were sent.
    pushed.advance(&parcels, Ok(Answer { size: 44, there: absent, confirmed: 43 }));

    // Only one of the two confirmed: the other must stay.
    let why = pushed.error.as_deref();
    assert_eq!(why, Some("/Lumen/2002/02.wav: the server has 43 of 44 bytes"));
    assert_eq!(pushed.next(&parcels), None, "an error ends it");
    assert_eq!(pushed.removable(), ["/m/Lumen/2002/01.wav"]);
    assert_eq!(pushed.summary(), (1, 0, 44));
}

#[test]
fn what_is_there_already_is_not_sent_again() {
    let parcel = Parcel { local: "/m/a.mp3".to_string(), remote: "a.mp3".to_string() };
    let same = Stat { exists: true, is_dir: false, size: 7 };
    assert!(remote::weigh(&parcel, 7, same).skipped);
    assert!(!remote::weigh(&parcel, 8, same).skipped);
    let folder = Stat { exists: true, is_dir: true, size: 7 };
    assert!(!remote::weigh(&parcel, 7, folder).skipped);
}

#[test]
fn statuses_are_put_in_words() {
    let said = |code, message: &str| {
        remote::describe(&Status { code, message: message.to_string() })
    };
    assert!(said(Code::Unavailable, "x").contains("unreachable"));
    assert_eq!(said(Code::NotFound, "no such path: /a"), "no such path: /a");
}

// ---------------------------------------------------------------------------
// The server
// ---------------------------------------------------------------------------

#[test]
fn lexical_paths_stay_inside() {
    let empty: [&str; 0] = [];
    assert_eq!(lexical("").unwrap(), empty);
    assert_eq!(lexical("/").unwrap(), empty);
    assert_eq!(lexical("a/b").unwrap(), ["a", "b"]);
    assert_eq!(lexical("/a//b/").unwrap(), ["a", "b"]);
    assert_eq!(lexical("Лумен/2002").unwrap(), ["Лумен", "2002"]);
    for bad in ["..", "a/../..", "a/./b", "../etc/passwd"] {
        assert!(lexical(bad).is_err(), "{bad} was let through");
    }
}

#[test]
fn token_comparison() {
    assert!(constant_time_eq(b"Bearer x", b"Bearer x"));
    assert!(!constant_time_eq(b"Bearer x", b"Bearer y"));
    assert!(!constant_time_eq(b"Bearer", b"Bearer x"));
}

#[test]
fn mv_and_rm_change_the_library() {
    let service = Service::new("/srv", true, &Some("k".to_string())).unwrap();
    let moved =
        service.check_move("/srv/Lumen/long.wav", "/srv/Other/long.wav", "Other/long.wav", false);
    assert!(moved.is_ok());

    // Into itself, and onto something that exists, are refused.
    assert!(service.check_move("/srv/Lumen", "/srv/Lumen/x", "Lumen/x", false).is_err());
    let taken = service.check_move("/srv/Other", "/srv/Lumen", "Lumen", true).unwrap_err();
    assert_eq!(taken.code, Code::AlreadyExists);

    // A folder with things in it needs -r.
    assert_eq!(service.remove("/srv/Lumen", true, false), Ok(Removal::Folder));
    assert_eq!(service.remove("/srv/Lumen", true, true), Ok(Removal::Tree));
    assert_eq!(service.remove("/srv/Lumen/a.wav", false, false), Ok(Removal::File));

    assert!(service.remove("/srv", true, true).is_err());
    assert!(service.check_move("/srv", "/srv/x", "x", false).is_err());
    assert!(service.check_source("/srv/Lumen").is_ok());
    let root = service.check_source("/srv/").unwrap_err();
    assert_eq!(root.message, "refusing to move the music folder");
    assert!(cli::removable("/").is_err());
    assert_eq!(cli::removable("/Lumen/").as_deref(), Ok("Lumen"));
}

#[test]
fn an_upload_is_as_long_as_it_said() {
    let mut receipt = Receipt::new(10);
    assert!(receipt.accept(6).is_ok());
    assert_eq!(receipt.finish().unwrap_err().code, Code::DataLoss);
    assert_eq!(receipt.accept(5).unwrap_err().code, Code::InvalidArgument);
    assert!(receipt.accept(4).is_ok());
    assert_eq!(receipt.finish(), Ok(10));
    let part = server::part_name("a.wav", 7);
    assert!(part.ends_with(".part"), "{part}");
}

#[test]
fn listings_put_folders_first_and_hide_what_is_hidden() {
    let entry = |name: &str, is_dir| Entry { name: name.to_string(), is_dir, size: 1 };
    let found = vec![
        entry("b.mp3", false),
        entry(".DS_Store", false),
        entry("Zoo", true),
        entry("A.mp3", false),
        entry("abc", true),
    ];
    let listed = server::list_entries(&found);
    let names: Vec<&str> = listed.iter().map(|e| e.name.as_str()).collect();
    assert_eq!(names, ["Zoo", "abc", "A.mp3", "b.mp3"]);
}

#[test]
fn a_stat_of_nothing_is_an_answer() {
    let service = Service::new("/srv", true, &None).unwrap();
    let missing = Status::new(Code::NotFound, "no such path: /x");
    let stat = service.stat(Err(missing)).unwrap();
    assert!(!stat.exists);
    let refused = Status::new(Code::PermissionDenied, "outside");
    assert!(service.stat(Err(refused)).is_err());
    let folder = Stat { exists: true, is_dir: true, size: 4096 };
    assert_eq!(service.stat(Ok(folder)).unwrap().size, 0, "a folder has no size");
}

#[test]
fn what_is_served_is_what_is_heard() {
    let service = Service::new("/srv", true, &None).unwrap();
    let mut ratings = Ratings::new();
    ratings.set("Artist/01.wav", 2, 900);
    let tagged = library::Tagged {
        duration: Duration { secs: 3, nanos: 250_999_999 },
        tag: None,
    };
    let track = library::read_track("/srv/Artist/01.wav".to_string(), Some(tagged));
    let told = service.list_tracks(&vec![track], &vec![44], &ratings);
    assert_eq!(told[0].path, "Artist/01.wav");
    assert_eq!((told[0].duration_ms, told[0].size, told[0].stars), (Some(3250), 44, 2));

    let heard = Server::open("tuneterm://nas").unwrap().tracks(&told);
    assert_eq!(heard[0].path, "tuneterm://nas:7700/Artist/01.wav");
    assert_eq!(heard[0].title, "01");
    assert_eq!(heard[0].duration, Some(Duration::from_millis(3250)));
    assert_eq!(heard[0].stars, Some(2));

    let folder = |newest| library::Folder {
        label: "Artist".to_string(),
        path: "/srv/Artist".to_string(),
        count: 1,
        newest,
    };
    let told = service.list_folders(&vec![folder(5), folder(1000)], &ratings);
    assert_eq!((told[0].path.as_str(), told[0].name.as_str()), ("Artist", "Artist"));
    assert_eq!(told[0].newest, 900, "stars count as a change");
    assert_eq!(told[1].newest, 1000);
}

#[test]
fn an_upload_starts_with_its_header() {
    let mut upload = Upload::new();
    assert_eq!(upload.piece(5), Some(Message { header: true, len: 5 }));
    assert_eq!(upload.piece(3), Some(Message { header: false, len: 3 }));
    assert_eq!(upload.piece(0), None);
    let mut empty = Upload::new();
    assert_eq!(empty.piece(0), Some(Message { header: true, len: 0 }), "an empty file too");

    let header = Some(Some(("a.wav".to_string(), 8)));
    assert_eq!(server::check_header(header).unwrap().1, 8);
    let none = server::check_header(Some(None)).unwrap_err();
    assert_eq!((none.code, none.message.as_str()), (
        Code::InvalidArgument,
        "the first message needs a header",
    ));
    assert_eq!(server::check_header(None).unwrap_err().message, "empty upload");
}

#[test]
fn a_full_folder_says_what_to_do() {
    let full = server::removal_failed(true, "os error 39");
    assert_eq!(full.code, Code::FailedPrecondition);
    assert_eq!(full.message, "folder is not empty; remove it recursively");
    let other = server::removal_failed(false, "os error 5");
    assert_eq!((other.code, other.message.as_str()), (Code::Internal, "os error 5"));
}

#[test]
fn a_wav_is_a_ramp_behind_a_header() {
    let out = wav(1);
    assert_eq!(out.len(), 44 + 16_000);
    assert_eq!(&out[..4], b"RIFF");
    assert_eq!(&out[4..8], (36u32 + 16_000).to_le_bytes());
    assert_eq!(&out[8..16], b"WAVEfmt ");
    assert_eq!(&out[24..28], 8000u32.to_le_bytes());
    assert_eq!(&out[44..48], [0, 0, 16, 0]);
}

// ---------------------------------------------------------------------------
// The command line
// ---------------------------------------------------------------------------

#[test]
fn remote_paths_are_normalised() {
    assert_eq!(wire("/Lumen/"), "Lumen");
    assert_eq!(remote::join("/", "a.mp3"), "a.mp3");
    assert_eq!(remote::join("/Lumen", "2002/a.mp3"), "Lumen/2002/a.mp3");
}

#[test]
fn sizes_read_like_ls() {
    assert_eq!(human(512), "512 B");
    assert_eq!(human(1536), "1.5 KB");
    assert_eq!(human(7 * 1024 * 1024 + 400 * 1024), "7.4 MB");
}

fn args(words: &[&str]) -> Vec<String> {
    words.iter().map(|w| w.to_string()).collect()
}

#[test]
fn options_parse() {
    let options = Options::parse(&args(&["-r", "/x", "--server", "tuneterm://nas"])).unwrap();
    assert!(options.recursive);
    assert_eq!(options.positional, ["/x"]);
    assert_eq!(options.server.as_deref(), Some("tuneterm://nas"));
    assert!(Options::parse(&args(&["--nope"])).is_err());
    assert!(Options::parse(&args(&["--server"])).is_err());
}

#[test]
fn a_server_is_named_on_the_command_line_or_in_the_settings() {
    let configured =
        Remote { server: Some("tuneterm://nas".to_string()), token: Some("k".to_string()) };
    let plain = Options::parse(&args(&["/x"])).unwrap();
    let server = plain.server(&configured).unwrap();
    assert_eq!(server.authority, "nas:7700");
    assert_eq!(server.bearer.as_deref(), Some("Bearer k"));
    let none = Remote { server: None, token: None };
    assert!(plain.server(&none).is_err());
    let named = Options::parse(&args(&["--server", "tuneterm://other"])).unwrap();
    assert_eq!(named.server(&configured).unwrap().authority, "other:7700");
}

#[test]
fn commands_ask_for_what_they_need() {
    let run = |command: &str, words: &[&str]| {
        cli::run(command, &Options::parse(&args(words)).unwrap())
    };
    assert!(matches!(run("serve", &[]), Ok(Plan::Serve)));
    assert!(run("push", &[]).is_err());
    assert!(run("mv", &["/a"]).is_err());
    match run("mv", &["/a/", "/b"]) {
        Ok(Plan::Mv { from, to }) => assert_eq!((from.as_str(), to.as_str()), ("a", "b")),
        other => panic!("{other:?}"),
    }
    match run("rm", &["-r", "/a"]) {
        Ok(Plan::Rm { paths, recursive }) => {
            assert_eq!(paths.len(), 1);
            assert!(recursive);
        }
        other => panic!("{other:?}"),
    }
    assert!(run("rm", &[]).is_err());
    assert!(cli::is_command("push") && !cli::is_command("/music"));
}

#[test]
fn a_command_looks_for_its_server_first() {
    let none = Remote { server: None, token: None };
    let nas = Remote { server: Some("nas".to_string()), token: None };
    let parse = |words: &[&str]| Options::parse(&args(words)).unwrap();
    assert!(matches!(cli::prepared("serve", &parse(&[]), &none), Ok((Plan::Serve, None))));
    let why = cli::prepared("mv", &parse(&["/a"]), &none).unwrap_err();
    assert!(why.starts_with("which server?"), "{why}");
    let why = cli::prepared("mv", &parse(&["/a"]), &nas).unwrap_err();
    assert_eq!(why, "usage: tuneterm mv FROM TO");
    match cli::prepared("ls", &parse(&["/a"]), &nas) {
        Ok((Plan::Ls { path }, Some(server))) => {
            assert_eq!((path.as_str(), server.authority.as_str()), ("a", "nas:7700"));
        }
        other => panic!("{other:?}"),
    }
}

#[test]
fn push_uploads_a_tree_and_skips_what_is_there() {
    let file = |path: &str| Found::File { path: path.to_string(), time: 1 };
    let tree = vec![
        file("/l/Lumen/long.wav"),
        file("/l/Lumen/.DS_Store"),
        Found::Dir {
            path: "/l/Lumen/2002 - Правда".to_string(),
            time: 1,
            entries: vec![
                file("/l/Lumen/2002 - Правда/02.wav"),
                file("/l/Lumen/2002 - Правда/01.wav"),
                file("/l/Lumen/2002 - Правда/cover.jpg"),
            ],
        },
    ];
    let found = remote::walk("/l/Lumen", &tree).unwrap();
    let mut sent: Vec<String> =
        remote::parcels(&found, "Lumen").iter().map(|p| p.remote.clone()).collect();
    sent.sort();
    assert_eq!(
        sent,
        [
            "Lumen/2002 - Правда/01.wav",
            "Lumen/2002 - Правда/02.wav",
            "Lumen/2002 - Правда/cover.jpg",
            "Lumen/long.wav",
        ],
        "hidden files stay home"
    );

    // Into an existing folder, a file keeps its name.
    let folder = Some(Stat { exists: true, is_dir: true, size: 0 });
    assert_eq!(cli::push_base("long.wav", &Some(wire("/Inbox")), folder), "Inbox/long.wav");
    let absent = Some(Stat { exists: false, is_dir: false, size: 0 });
    assert_eq!(cli::push_base("long.wav", &Some(wire("/New")), absent), "New");
    assert_eq!(cli::push_base("long.wav", &None, None), "long.wav");
}

#[test]
fn commands_say_what_they_did() {
    let entry = |name: &str, is_dir, size| Entry { name: name.to_string(), is_dir, size };
    assert_eq!(cli::ls_line(&entry("Lumen", true, 0)), "            Lumen/");
    assert_eq!(cli::ls_line(&entry("a.wav", false, 1536)), "    1.5 KB  a.wav");
    assert_eq!(cli::moved_line("a", "b"), "moved /a -> /b");
    assert_eq!(cli::removed_line("a"), "removed /a");
    let parcel = Parcel { local: "/m/a".to_string(), remote: "a".to_string() };
    let there = Stat { exists: true, is_dir: false, size: 512 };
    let sent = remote::weigh(&parcel, 512, there);
    assert_eq!(cli::push_line(1, 2, &sent), "[1/2] same   /a  512 B");
    assert_eq!(cli::push_summary(0, 2, 0, 0), "nothing sent, 2 already there");
    assert_eq!(
        cli::push_summary(1, 2, 1536, 512),
        "1 sent (1.5 KB, 512 B/s), 2 already there"
    );
}

// ---------------------------------------------------------------------------
// Media keys
// ---------------------------------------------------------------------------

#[test]
fn translates_the_events_we_act_on() {
    for (event, want) in [
        (MediaEvent::Toggle, Command::Toggle),
        (MediaEvent::Play, Command::Play),
        (MediaEvent::Pause, Command::Pause),
        (MediaEvent::Stop, Command::Stop),
        (MediaEvent::Next, Command::Next),
        (MediaEvent::Previous, Command::Previous),
        (MediaEvent::Seek(SeekDirection::Forward), Command::SeekBy(5)),
        (MediaEvent::Seek(SeekDirection::Backward), Command::SeekBy(-5)),
        (
            MediaEvent::SeekBy(SeekDirection::Forward, Duration::from_secs(30)),
            Command::SeekBy(30),
        ),
        (
            MediaEvent::SeekBy(SeekDirection::Backward, Duration::from_secs(12)),
            Command::SeekBy(-12),
        ),
        (
            MediaEvent::SetPosition(Duration::from_secs(61)),
            Command::SetPosition(Duration::from_secs(61)),
        ),
    ] {
        assert_eq!(Command::from_event(event), Some(want), "{event:?}");
    }
}

/// Unknown or irrelevant events must be dropped, not mapped to something wrong.
#[test]
fn ignores_events_it_has_no_action_for() {
    assert_eq!(Command::from_event(MediaEvent::SetVolume), None);
    assert_eq!(Command::from_event(MediaEvent::OpenUri), None);
}

/// The bridge must survive a missing host, since media keys are optional.
#[test]
fn bridge_tolerates_a_dropped_host() {
    let mut bridge = Bridge::detached();
    bridge.publish(NowPlaying::nothing()); // must not panic
    assert_eq!(bridge.commands().len(), 0);
}

#[test]
fn commands_arrive_in_order_and_drain_once() {
    let mut bridge = Bridge::attached();
    bridge.deliver(Command::Next);
    bridge.deliver(Command::Toggle);
    let drained: Vec<_> = bridge.commands();
    assert_eq!(drained, vec![Command::Next, Command::Toggle]);
    assert_eq!(bridge.commands().len(), 0, "drained twice");
}

#[test]
fn only_the_newest_metadata_is_passed_on() {
    let titled = |title: &str| {
        let mut now = NowPlaying::nothing();
        now.title = title.to_string();
        now
    };
    let mut bridge = Bridge::attached();
    bridge.publish(titled("one"));
    bridge.publish(titled("two"));
    let passed = bridge.pump(&None);
    assert_eq!(passed.as_ref().map(|n| n.title.as_str()), Some("two"));
    bridge.publish(titled("two"));
    assert!(bridge.pump(&passed).is_none(), "nothing new");
}

// ---------------------------------------------------------------------------
// Work done elsewhere
// ---------------------------------------------------------------------------

#[test]
fn runs_a_request_and_returns_its_generation() {
    let mut worker: Worker<u32, u32> = Worker::new();
    worker.request(1, 21);
    let (generation, n) = worker.take().unwrap();
    worker.finish(generation, n * 2);
    assert_eq!(worker.drain(), [(1, 42)]);
}

/// The reason this exists: a cursor held down must not queue up work.
#[test]
fn a_burst_collapses_to_the_last_request() {
    let mut worker: Worker<u32, u32> = Worker::new();
    worker.request(1, 1);
    let (first, n) = worker.take().unwrap();
    for generation in 2..=40u64 {
        worker.request(generation, generation as u32);
    }
    assert!(worker.superseded(first));
    worker.finish(first, n);
    let (generation, n) = worker.take().unwrap();
    worker.finish(generation, n);
    assert!(worker.take().is_none(), "one running, and the survivor of the slot");
    assert_eq!(worker.drain(), [(40, 40)]);
}

/// Superseded work must not surface, or a stale result would overwrite a fresh one.
#[test]
fn stale_results_are_dropped() {
    let mut worker: Worker<u32, u32> = Worker::new();
    worker.request(1, 1);
    let (stale, n) = worker.take().unwrap();
    worker.request(2, 2);
    worker.finish(stale, n);
    let (fresh, n) = worker.take().unwrap();
    worker.finish(fresh, n);
    assert_eq!(worker.drain(), [(2, 2)]);
}

fn picture(width: u32, height: u32) -> DynamicImage {
    DynamicImage::ImageRgb8(RgbImage::from_fn(width, height, |x, y| {
        image::Rgb([(x % 255) as u8, (y % 255) as u8, 90])
    }))
}

fn encoded(side: u32) -> Vec<u8> {
    let mut out = std::io::Cursor::new(Vec::new());
    picture(side, side).write_to(&mut out, image::ImageFormat::Png).unwrap();
    out.into_inner()
}

fn request(generation: u64, box_px: (u32, u32)) -> Request {
    Request { generation, path: "/m/01 song.wav".to_string(), art_url: None, box_px }
}

/// What the thread behind the loader does, with no cache to look in.
fn load(loader: &mut CoverLoader, found: Option<Vec<u8>>) {
    let (generation, request) = loader.worker.take().unwrap();
    let out = match cover::prepare(found, request.box_px, None, None) {
        Prepared::Ready(image, file) => (image, file),
        Prepared::Store { key, image } => cover::stored(&key, image, None, false),
    };
    loader.worker.finish(generation, out);
}

#[test]
fn loads_a_cover_off_thread() {
    let mut loader = CoverLoader::new();
    loader.request(request(1, (1000, 1000)));
    load(&mut loader, Some(encoded(400)));

    let reply = loader.drain().pop().expect("no reply");
    assert_eq!(reply.generation, 1);
    let img = reply.image.expect("cover missing");
    assert_eq!(
        (img.width(), img.height()),
        (1000, 1000),
        "a 400px cover is enlarged to fill the box"
    );
}

#[test]
fn shrinks_oversized_covers_before_handing_them_over() {
    let mut loader = CoverLoader::new();
    loader.request(request(1, (300, 300)));
    load(&mut loader, Some(encoded(1200)));

    let img = loader.drain().pop().expect("no reply").image.expect("cover");
    assert_eq!(img.width().max(img.height()), 300, "shrunk to the cap");
}

/// The whole point: hammering next must not pile up work, and only the newest
/// request may produce a reply.
#[test]
fn rapid_requests_collapse_to_the_last_one() {
    let mut loader = CoverLoader::new();
    for generation in 1..=25 {
        loader.request(request(generation, (400, 400)));
    }
    load(&mut loader, Some(encoded(90)));
    let replies = loader.drain();
    assert_eq!(replies.len(), 1);
    assert_eq!(replies[0].generation, 25, "last generation never arrived");
    assert!(loader.worker.take().is_none());
}

#[test]
fn missing_cover_reports_none_rather_than_hanging() {
    let mut loader = CoverLoader::new();
    loader.request(request(7, (400, 400)));
    load(&mut loader, None);
    let reply = loader.drain().pop().expect("no reply");
    assert_eq!(reply.generation, 7);
    assert!(reply.image.is_none());
}

/// Filling must keep the aspect ratio and touch at least one edge of the box.
#[test]
fn fill_touches_an_edge_and_keeps_the_aspect_ratio() {
    for (src, box_px, want) in [
        ((120u32, 60u32), (600u32, 600u32), (600u32, 300u32)), // enlarged, width-bound
        ((60, 120), (600, 600), (300, 600)),                   // enlarged, height-bound
        ((1200, 1200), (300, 300), (300, 300)),                // shrunk, square
        ((2000, 1000), (300, 300), (300, 150)),                // shrunk, width-bound
        ((300, 300), (300, 300), (300, 300)),                  // already exact
    ] {
        let img = DynamicImage::ImageRgb8(RgbImage::new(src.0, src.1));
        let out = cover::fill(img, box_px);
        assert_eq!((out.width(), out.height()), want, "{src:?} into {box_px:?}");
        assert!(
            out.width() == box_px.0 || out.height() == box_px.1,
            "{src:?} into {box_px:?} touched neither edge: {out:?}",
            out = (out.width(), out.height())
        );
    }
}

#[test]
fn fill_survives_a_degenerate_box() {
    let img = DynamicImage::ImageRgb8(RgbImage::new(10, 10));
    let out = cover::fill(img, (0, 0));
    assert!(out.width() >= 1 && out.height() >= 1);
    let nothing = DynamicImage::ImageRgb8(RgbImage::new(0, 10));
    let out = cover::fill(nothing, (300, 300));
    assert_eq!((out.width(), out.height()), (0, 10), "nothing to scale");
}

#[test]
fn a_cover_in_the_cache_is_not_decoded() {
    let dir = Some("/cache".to_string());
    let junk = Some(b"not a picture".to_vec());
    match cover::prepare(junk, (300, 300), dir.clone(), Some(picture(300, 300))) {
        Prepared::Ready(image, file) => {
            assert!(image.is_some());
            let file = file.unwrap();
            assert!(file.starts_with("/cache/") && file.ends_with("-300x300.png"), "{file}");
        }
        other => panic!("{other:?}"),
    }
    let junk = Some(b"not a picture".to_vec());
    assert!(matches!(
        cover::prepare(junk, (300, 300), dir.clone(), None),
        Prepared::Ready(None, None)
    ));
    match cover::prepare(Some(encoded(30)), (300, 300), dir.clone(), None) {
        Prepared::Store { key, image } => {
            assert_eq!((image.width(), image.height()), (300, 300));
            let (image, file) = cover::stored(&key, image, dir, true);
            assert!(image.is_some());
            assert_eq!(file, Some(format!("/cache/{key}")));
        }
        other => panic!("{other:?}"),
    }
    let none = cover::scale("k.png".to_string(), None, (300, 300));
    assert!(matches!(none, Prepared::Ready(None, None)));
    match cover::scale("k.png".to_string(), Some(picture(200, 400)), (100, 100)) {
        Prepared::Store { key, image } => {
            assert_eq!(key, "k.png");
            assert_eq!((image.width(), image.height()), (50, 100));
        }
        other => panic!("{other:?}"),
    }
    assert!(library::load_cover(Some(encoded(8))).is_some());
    assert!(library::load_cover(Some(b"not really a jpeg".to_vec())).is_none());
}

// ---------------------------------------------------------------------------
// The queue
// ---------------------------------------------------------------------------

#[test]
fn a_shuffle_is_a_permutation_with_the_head_first() {
    let mut rng = Rng::new(99);
    let order = queue::reshuffle(50, Some(7), &mut rng);
    assert_eq!(order[0], 7);
    let mut sorted = order.clone();
    sorted.sort_unstable();
    assert_eq!(sorted, (0..50).collect::<Vec<_>>());
    for i in 0..49 {
        assert_eq!(queue::following(true, &order, 50, order[i]), Some(order[i + 1]));
        assert_eq!(queue::preceding(true, &order, order[i + 1]), Some(order[i]));
    }
    assert_eq!(queue::following(true, &order, 50, order[49]), None);
    assert_eq!(queue::place(&order, 7), Some(0));
}

#[test]
fn without_shuffle_the_listing_is_the_order() {
    assert_eq!(queue::following(false, &Vec::new(), 3, 1), Some(2));
    assert_eq!(queue::following(false, &Vec::new(), 3, 2), None);
    assert_eq!(queue::preceding(false, &Vec::new(), 1), Some(0));
}

#[test]
fn the_generator_never_gets_stuck() {
    let mut rng = Rng::new(0);
    for _ in 0..100 {
        assert_ne!(rng.next_u64(), 0);
        assert!(rng.below(3) < 3);
    }
}

// ---------------------------------------------------------------------------
// The screen
// ---------------------------------------------------------------------------

fn rect(x: u16, y: u16, width: u16, height: u16) -> Rect {
    Rect { x, y, width, height }
}

#[test]
fn centre_in_splits_slack_evenly() {
    let got = centre_in(rect(5, 9, 21, 11), (11, 5));
    assert_eq!(got, rect(5 + 5, 9 + 3, 11, 5));
}

#[test]
fn a_rectangle_ends_before_its_far_edges() {
    let area = rect(2, 3, 4, 5);
    assert!(area.contains(Position { x: 2, y: 3 }) && area.contains(Position { x: 5, y: 7 }));
    assert!(!area.contains(Position { x: 6, y: 3 }) && !area.contains(Position { x: 2, y: 8 }));
    assert_eq!((area.right(), area.bottom()), (6, 8));
    assert_eq!(ui::rows_area(rect(0, 0, 1, 1)).width, 0, "no room inside the border");
}

#[test]
fn tabs_sit_side_by_side_in_the_border() {
    let pane = rect(0, 0, 40, 10);
    let areas = [Tab::Local, Tab::Feeds, Tab::Radio].map(|t| ui::tab_area(pane, Tab::Local, t));
    for pair in areas.windows(2) {
        assert!(pair[0].right() <= pair[1].x, "{pair:?}");
        assert_eq!(pair[0].height, 1);
    }
}

#[test]
fn titles_say_what_is_going_on() {
    let half = ui::progress_label(
        true,
        Duration::from_secs(61),
        Some(Duration::from_secs(125)),
    );
    assert_eq!(half, "1:01 / 2:05 ");
    assert_eq!(ui::tracks_title(Tab::Local, false, true, 0), "Tracks — scanning…");
    assert_eq!(ui::tracks_title(Tab::Local, false, false, 3), "Tracks (3)");
    assert!(ui::here_label("music", true).contains("music"));
}

#[test]
fn the_panes_share_the_screen() {
    let screen = rect(0, 0, 110, 32);
    let panes = Panes::of(screen);
    assert_eq!(panes.help, rect(0, 31, 110, 1));
    assert_eq!(panes.main, rect(0, 0, 110, 31));
    assert_eq!(panes.left.x, 0);
    assert_eq!(panes.middle.x, panes.left.right());
    assert_eq!(panes.right.right(), 110);
    assert!((25..=28).contains(&panes.left.width), "{panes:?}");
    assert!((47..=50).contains(&panes.middle.width), "{panes:?}");
}

#[test]
fn the_controls_sit_below_the_cover() {
    let pane = rect(70, 0, 40, 31);
    let playing = Playing::of(pane, (30, 15), 12);
    assert_eq!((playing.art.width, playing.art.height), (30, 15));
    assert_eq!(playing.art.x, 71 + (38 - 30) / 2);
    assert_eq!(playing.info.height, 3);
    assert_eq!(playing.label.width, 12);
    assert_eq!(playing.bar.x, playing.label.right());
    assert_eq!((playing.prev.width, playing.next.width), (7, 7));
    assert_eq!(playing.play.width, 38 - 14);
    assert_eq!(playing.next.right(), 109);
    let (field, hint) = ui::prompt_parts(rect(10, 5, 40, 5));
    assert_eq!(field, rect(11, 6, 38, 1));
    assert_eq!(hint, rect(11, 7, 38, 2));
}

/// A short pane must not take the arithmetic with it.
#[test]
fn survives_tiny_terminals() {
    for (w, h) in [(20, 5), (40, 10), (8, 3), (4, 2), (1, 1), (200, 60)] {
        let screen = rect(0, 0, w, h);
        let panes = Panes::of(screen);
        let budget = ui::art_budget(ui::inside_border(panes.right));
        let playing = Playing::of(panes.right, (budget.width, budget.height), 14);
        assert!(playing.art.right() <= w && playing.art.bottom() <= h, "{w}x{h}");
        if let Some(area) = ui::prompt_area(screen) {
            assert!(area.right() <= w && area.bottom() <= h, "{w}x{h}");
            ui::prompt_parts(area);
        }
    }
}

#[test]
fn a_server_is_told_where_to_serve_from() {
    let none = Options::parse(&args(&[])).unwrap();
    assert!(none.serve_root(&None).is_err());
    assert_eq!(none.serve_root(&Some("/m".to_string())).as_deref(), Ok("/m"));
    assert_eq!(none.serve_listen(&None), "0.0.0.0:7700");
    assert_eq!(none.serve_listen(&Some("1.2.3.4:5".to_string())), "1.2.3.4:5");
    let given = Options::parse(&args(&["/x", "--listen", "[::]:9"])).unwrap();
    assert_eq!(given.serve_root(&Some("/m".to_string())).as_deref(), Ok("/x"));
    assert_eq!(given.serve_listen(&None), "[::]:9");
}

#[test]
fn pictures_are_drawn_the_way_the_terminal_can() {
    for (names, graphics) in [
        ("xterm-kitty", Graphics::Kitty),
        ("xterm-ghostty ghostty", Graphics::Kitty),
        ("xterm-256color WezTerm", Graphics::Iterm),
        ("xterm-256color iTerm.app", Graphics::Iterm),
        ("konsole", Graphics::Iterm),
        ("mintty", Graphics::Iterm),
        ("foot-extra", Graphics::Sixel),
        ("contour", Graphics::Sixel),
        ("mlterm", Graphics::Sixel),
        ("xterm-sixel", Graphics::Sixel),
        ("xterm-256color", Graphics::Halfblocks),
        ("", Graphics::Halfblocks),
    ] {
        assert_eq!(ui::graphics(names), graphics, "{names}");
    }
}

#[test]
fn small_labels_are_right() {
    assert_eq!(ui::transport_label(true), ("⏸", "Pause"));
    assert_eq!(ui::transport_label(false), ("▶", "Play"));
    assert_eq!(ui::placeholder_top(20, 3), 7);
    assert_eq!(ui::placeholder_top(3, 3), 0);
    assert_eq!(ui::count_label(6), "6 ♪");
    assert_eq!(ui::here_label("music", true), " ⌫ music ");
    let mut now = NowPlaying::nothing();
    assert_eq!(now.cover_url(), None);
    now.cover = Some("/c/k.png".to_string());
    assert_eq!(now.cover_url().as_deref(), Some("file:///c/k.png"));
    assert!(tuneterm::ratings::file_in("/srv").starts_with("/srv/"));
}
