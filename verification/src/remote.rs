//! The client side of a music server.
//!
//! # Addresses
//!
//! A server is written `tuneterm://[token@]host[:port]`, and a file on it
//! `tuneterm://host:port/path/inside`. Tracks carry the second form without the
//! token, so no secret ends up in the saved session; the token lives in the
//! [`Server`] registered for that host.

use vstd::prelude::*;
use tonic::metadata::{Ascii, MetadataValue};
use tonic::transport::Endpoint;
use crate::feed::copy_opt;
use crate::library::{self, folders_view, tracks_view, Entry, Folder, FolderV, Track, TrackV};
use crate::net::{self, landing, SeekFrom};
use crate::paths::{self, rfind};
use crate::text::{
    self, after_prefix, decimal, digit, find, has_prefix, lemma_find_is, lemma_stripped, opt_view,
    stripped, trimmed, views,
};
use crate::time::Duration;

verus! {

/// What every address on a server starts with.
pub open spec fn scheme() -> Seq<char> {
    "tuneterm://"@
}

/// The address of something on a server, rather than a path on this disk.
#[verifier::opaque]
pub open spec fn has_scheme(s: Seq<char>) -> bool {
    has_prefix(s, scheme())
}

/// True for the address of something on a server.
pub fn is_remote(url: &str) -> (b: bool)
    ensures
        b == has_scheme(url@),
{
    proof {
        reveal(has_scheme);
    }
    text::starts_with(url, "tuneterm://")
}

/// An address taken apart.
#[derive(Debug, PartialEq, Eq)]
pub struct Address {
    pub token: Option<String>,
    /// `host:port`.
    pub authority: String,
    /// From the slash after the host on.
    pub path: String,
}

/// What an [`Address`] holds.
pub ghost struct AddressV {
    pub token: Option<Seq<char>>,
    pub authority: Seq<char>,
    pub path: Seq<char>,
}

impl View for Address {
    type V = AddressV;

    open spec fn view(&self) -> AddressV {
        AddressV { token: opt_view(self.token), authority: self.authority@, path: self.path@ }
    }
}

/// A host that says which port: a colon, after the bracket where it is written in
/// brackets.
pub open spec fn has_port(host: Seq<char>) -> bool {
    let bracket = rfind(host, ']');
    if bracket >= 0 {
        host.skip(bracket).contains(':')
    } else {
        host.contains(':')
    }
}

/// A host with its port, the usual one when it names none.
pub open spec fn with_port(host: Seq<char>) -> Seq<char> {
    if has_port(host) {
        host
    } else {
        host + ":7700"@
    }
}

/// The host part of what stands before the path: all that follows the last `@`.
pub open spec fn host_part(authority: Seq<char>) -> Seq<char> {
    authority.skip(rfind(authority, '@') + 1)
}

/// `tuneterm://[token@]host[:port][/path]` taken apart, or why it cannot be.
pub open spec fn address(url: Seq<char>) -> Result<AddressV, Seq<char>> {
    match after_prefix(url, scheme()) {
        None => Err("not a tuneterm:// address: "@ + url),
        Some(rest) => {
            let i = find(rest, '/') as int;
            let authority = rest.take(i);
            let at = rfind(authority, '@');
            if host_part(authority).len() == 0 {
                Err("no host in "@ + url)
            } else {
                Ok(
                    AddressV {
                        token: if at >= 0 {
                            Some(authority.take(at))
                        } else {
                            None
                        },
                        authority: with_port(host_part(authority)),
                        path: if i < rest.len() {
                            rest.skip(i)
                        } else {
                            "/"@
                        },
                    },
                )
            }
        },
    }
}

/// Split `tuneterm://[token@]host[:port][/path]` into its parts.
pub fn parse(url: &str) -> (r: Result<Address, String>)
    ensures
        match r {
            Ok(a) => address(url@) == Ok::<AddressV, Seq<char>>(a@),
            Err(why) => address(url@) == Err::<AddressV, Seq<char>>(why@),
        },
{
    let rest = match text::strip_prefix(url, "tuneterm://") {
        Some(rest) => rest,
        None => {
            return Err(text::cat2("not a tuneterm:// address: ", url));
        },
    };
    let v = text::chars_of(rest);
    let i: usize = text::find_from(&v, 0, '/');
    assert(v@.skip(0) =~= v@);
    let before = text::string_of(&v, 0, i);
    assert(before@ =~= rest@.take(i as int));
    let path = if i < v.len() {
        assert(rest@.skip(i as int) =~= v@.subrange(i as int, v@.len() as int));
        text::string_of(&v, i, v.len())
    } else {
        "/".to_owned()
    };
    let ghost at = rfind(before@, '@');
    proof {
        paths::lemma_rfind(before@, '@');
    }
    let (token, host) = match paths::split_last(before.as_str(), '@') {
        Some((token, host)) => (Some(token), host),
        None => {
            assert(before@.skip(0) =~= before@);
            (None, before)
        },
    };
    if host.as_str().is_empty() {
        return Err(text::cat2("no host in ", url));
    }
    // A bare host gets the default port; `[::1]` style literals keep theirs.
    let has_port = match paths::split_last(host.as_str(), ']') {
        Some((_, tail)) => {
            proof {
                paths::lemma_rfind(host@, ']');
                let b = rfind(host@, ']');
                let whole = host@.skip(b);
                assert(tail@ =~= whole.skip(1));
                if whole.contains(':') {
                    let k = choose|k: int| 0 <= k < whole.len() && whole[k] == ':';
                    assert(k > 0);
                    assert(tail@[k - 1] == ':');
                }
                if tail@.contains(':') {
                    let k = choose|k: int| 0 <= k < tail@.len() && tail@[k] == ':';
                    assert(whole[k + 1] == ':');
                }
            }
            text::contains_char(tail.as_str(), ':')
        },
        None => text::contains_char(host.as_str(), ':'),
    };
    let authority = if has_port {
        host
    } else {
        text::cat2(host.as_str(), ":7700")
    };
    Ok(Address { token, authority, path })
}

/// `host:port` of an address, for showing. `None` if it is not one.
pub open spec fn authority_in(url: Seq<char>) -> Option<Seq<char>> {
    match address(url) {
        Ok(a) => Some(a.authority),
        Err(_) => None,
    }
}

/// `host:port` of an address, for showing. `None` if it is not one.
pub fn authority_of(url: &str) -> (r: Option<String>)
    ensures
        opt_view(r) == authority_in(url@),
{
    match parse(url) {
        Ok(a) => Some(a.authority),
        Err(_) => None,
    }
}

/// The path part of an address, relative, and nothing for the top of a server.
pub open spec fn path_in(url: Seq<char>) -> Seq<char> {
    match address(url) {
        Ok(a) => stripped(a.path, '/'),
        Err(_) => seq![],
    }
}

/// The path part of an address, relative: `Lumen/2002` for
/// `tuneterm://nas/Lumen/2002`, and "" for the top of a server.
pub fn path_of(url: &str) -> (r: String)
    ensures
        r@ == path_in(url@),
{
    match parse(url) {
        Ok(a) => text::strip(a.path.as_str(), '/').to_owned(),
        Err(_) => {
            let r = String::new();
            assert(r@ =~= seq![]);
            r
        },
    }
}

/// What a person typed, as an address.
pub open spec fn typed_url(typed: Seq<char>) -> Seq<char> {
    let t = trimmed(typed);
    if has_scheme(t) {
        t
    } else {
        scheme() + t
    }
}

/// An optional text that is not empty.
pub open spec fn filled(o: Option<Seq<char>>) -> Option<Seq<char>> {
    match o {
        Some(s) => if s.len() > 0 {
            Some(s)
        } else {
            None
        },
        None => None,
    }
}

/// What a person typed, as the address to keep and the token, separately; or why it
/// cannot be.
pub open spec fn kept_address(typed: Seq<char>) -> Result<
    (Seq<char>, Option<Seq<char>>),
    Seq<char>,
> {
    match address(typed_url(typed)) {
        Err(why) => Err(why),
        Ok(a) => if !a.authority.contains('&') {
            Ok((scheme() + a.authority, filled(a.token)))
        } else {
            Err(
                a.authority
                    + " is not a host; a token goes before it with @, as in TOKEN@nas:7700"@,
            )
        },
    }
}

/// Normalise what a person typed for a server — `nas`, `TOKEN@nas:7700`,
/// `tuneterm://TOKEN@nas` — into the address to keep and the token, separately.
///
/// A `&` in it is a token that was not followed by `@`, so that is what the refusal
/// says.
pub fn split_address(typed: &str) -> (r: Result<(String, Option<String>), String>)
    ensures
        match r {
            Ok((server, token)) => kept_address(typed@) == Ok::<
                (Seq<char>, Option<Seq<char>>),
                Seq<char>,
            >((server@, opt_view(token))),
            Err(why) => kept_address(typed@) == Err::<
                (Seq<char>, Option<Seq<char>>),
                Seq<char>,
            >(why@),
        },
{
    let trimmed = text::trim(typed);
    let url = if is_remote(trimmed) {
        trimmed.to_owned()
    } else {
        text::cat2("tuneterm://", trimmed)
    };
    match parse(url.as_str()) {
        Err(why) => Err(why),
        Ok(a) => {
            if text::contains_char(a.authority.as_str(), '&') {
                return Err(
                    text::cat2(
                        a.authority.as_str(),
                        " is not a host; a token goes before it with @, as in TOKEN@nas:7700",
                    ),
                );
            }
            let token = match a.token {
                Some(t) => if t.as_str().is_empty() {
                    None
                } else {
                    Some(t)
                },
                None => None,
            };
            Ok((text::cat2("tuneterm://", a.authority.as_str()), token))
        },
    }
}

// ---------------------------------------------------------------------------
// Servers
// ---------------------------------------------------------------------------

/// Why `tonic` will not connect to an address, in its own words; nothing when it
/// will.
pub uninterp spec fn endpoint_refusal(uri: Seq<char>) -> Option<Seq<char>>;

/// `tonic::transport::Endpoint::from_shared` checks the form of an address without
/// connecting to it.
#[verifier::external_body]
fn check_endpoint(uri: &str) -> (r: Result<(), String>)
    ensures
        match r {
            Ok(_) => endpoint_refusal(uri@) is None,
            Err(why) => endpoint_refusal(uri@) == Some(why@),
        },
{
    match Endpoint::from_shared(uri.to_string()) {
        Ok(_) => Ok(()),
        Err(err) => Err(err.to_string()),
    }
}

/// A character that may stand in the value of a header: none that controls, apart
/// from the tab.
pub open spec fn is_header_char(c: char) -> bool {
    (c as int >= 32 && c as int != 127) || c == '\t'
}

/// Nothing but such characters.
pub open spec fn is_header(s: Seq<char>) -> bool {
    forall|i: int| 0 <= i < s.len() ==> is_header_char(#[trigger] s[i])
}

/// `MetadataValue::<Ascii>::from_str` of `tonic` takes any text without control
/// characters other than the tab, and nothing else.
#[verifier::external_body]
fn header_carries(value: &str) -> (b: bool)
    ensures
        b == is_header(value@),
{
    value.parse::<MetadataValue<Ascii>>().is_ok()
}

/// A server, parsed and ready to call.
#[derive(Debug)]
pub struct Server {
    /// `host:port`, which is also how tracks name the server they came from.
    pub authority: String,
    /// What goes into the `authorization` header of every call.
    pub bearer: Option<String>,
}

/// What a [`Server`] holds.
pub ghost struct ServerV {
    pub authority: Seq<char>,
    pub bearer: Option<Seq<char>>,
}

impl View for Server {
    type V = ServerV;

    open spec fn view(&self) -> ServerV {
        ServerV { authority: self.authority@, bearer: opt_view(self.bearer) }
    }
}

/// The token to use: the one in the address, or else the one kept beside it.
pub open spec fn chosen_token(in_url: Option<Seq<char>>, kept: Option<Seq<char>>) -> Option<
    Seq<char>,
> {
    filled(
        match in_url {
            Some(t) => Some(t),
            None => kept,
        },
    )
}

/// What connecting to an address comes to, given what the transport says of it.
pub open spec fn connection(
    url: Seq<char>,
    kept: Option<Seq<char>>,
    refusal: Option<Seq<char>>,
) -> Result<ServerV, Seq<char>> {
    match address(url) {
        Err(why) => Err(why),
        Ok(a) => {
            let bearer = match chosen_token(a.token, kept) {
                Some(t) => Some("Bearer "@ + t),
                None => None,
            };
            if bearer matches Some(b) && !is_header(b) {
                Err("the token has characters a header cannot carry"@)
            } else {
                match refusal {
                    Some(why) => Err(a.authority + ": "@ + why),
                    None => Ok(ServerV { authority: a.authority, bearer }),
                }
            }
        },
    }
}

/// What the transport is asked about an address.
pub open spec fn uri_of(url: Seq<char>) -> Seq<char> {
    "http://"@ + match address(url) {
        Ok(a) => a.authority,
        Err(_) => seq![],
    }
}

impl Server {
    /// Parse `url` and prepare a connection, without making one. The token is the one
    /// in the address, if any.
    pub fn open(url: &str) -> (r: Result<Server, String>)
        ensures
            match r {
                Ok(s) => connection(url@, None, endpoint_refusal(uri_of(url@))) == Ok::<
                    ServerV,
                    Seq<char>,
                >(s@),
                Err(why) => connection(url@, None, endpoint_refusal(uri_of(url@))) == Err::<
                    ServerV,
                    Seq<char>,
                >(why@),
            },
    {
        Server::connect(url, None)
    }

    /// As [`Server::open`], with `token` for an address that carries none.
    pub fn connect(url: &str, token: Option<&str>) -> (r: Result<Server, String>)
        ensures
            ({
                let kept = match token {
                    Some(t) => Some(t@),
                    None => None,
                };
                let c = connection(url@, kept, endpoint_refusal(uri_of(url@)));
                match r {
                    Ok(s) => c == Ok::<ServerV, Seq<char>>(s@),
                    Err(why) => c == Err::<ServerV, Seq<char>>(why@),
                }
            }),
    {
        let a = match parse(url) {
            Ok(a) => a,
            Err(why) => {
                return Err(why);
            },
        };
        let answer = check_endpoint(text::cat2("http://", a.authority.as_str()).as_str());
        Server::connect_given(a, token, answer)
    }

    /// The server at an address, given what the transport says of it.
    pub fn connect_given(a: Address, token: Option<&str>, answer: Result<(), String>) -> (r: Result<
        Server,
        String,
    >)
        ensures
            ({
                let kept = match token {
                    Some(t) => Some(t@),
                    None => None,
                };
                let chosen = chosen_token(a@.token, kept);
                let bearer = match chosen {
                    Some(t) => Some("Bearer "@ + t),
                    None => None,
                };
                let carried = bearer matches Some(b) ==> is_header(b);
                match r {
                    Ok(s) => carried && answer is Ok && s@ == (ServerV {
                        authority: a@.authority,
                        bearer,
                    }),
                    Err(why) => if !carried {
                        why@ == "the token has characters a header cannot carry"@
                    } else {
                        answer matches Err(e) && why@ == a@.authority + ": "@ + e@
                    },
                }
            }),
    {
        let chosen = match a.token {
            Some(t) => Some(t),
            None => match token {
                Some(t) => Some(t.to_owned()),
                None => None,
            },
        };
        let bearer = match chosen {
            Some(t) => if t.as_str().is_empty() {
                None
            } else {
                let header = text::cat2("Bearer ", t.as_str());
                if !header_carries(header.as_str()) {
                    return Err("the token has characters a header cannot carry".to_owned());
                }
                Some(header)
            },
            None => None,
        };
        match answer {
            Ok(_) => Ok(Server { authority: a.authority, bearer }),
            Err(why) => Err(text::cat3(a.authority.as_str(), ": ", why.as_str())),
        }
    }

    /// The address of something on this server, `path` being relative to its music
    /// folder. The top of the server is `tuneterm://host:port`.
    pub fn url_for(&self, path: &str) -> (r: String)
        ensures
            r@ == place(self@.authority, path@),
    {
        let path = text::strip(path, '/');
        if path.is_empty() {
            text::cat2("tuneterm://", self.authority.as_str())
        } else {
            text::cat4("tuneterm://", self.authority.as_str(), "/", path)
        }
    }

    fn copy(&self) -> (r: Server)
        ensures
            r@ == self@,
    {
        Server { authority: self.authority.clone(), bearer: copy_opt(&self.bearer) }
    }

    /// Folders as the server lists them, in the shape the local listing has. Each
    /// one's path is its address, so the browser can walk in and out of it like any
    /// folder.
    pub fn folders(&self, listed: &Vec<ListedFolder>) -> (r: Vec<Folder>)
        ensures
            folders_view(r@) == Seq::new(
                listed@.len(),
                |i: int|
                    FolderV {
                        label: listed@[i].name@,
                        path: place(self@.authority, listed@[i].path@),
                        count: listed@[i].count as usize,
                        newest: listed@[i].newest,
                    },
            ),
    {
        let mut r: Vec<Folder> = Vec::new();
        let mut i: usize = 0;
        while i < listed.len()
            invariant
                i <= listed@.len(),
                r@.len() == i,
                forall|k: int|
                    0 <= k < i ==> (#[trigger] r@[k])@ == (FolderV {
                        label: listed@[k].name@,
                        path: place(self@.authority, listed@[k].path@),
                        count: listed@[k].count as usize,
                        newest: listed@[k].newest,
                    }),
            decreases listed@.len() - i,
        {
            let f = &listed[i];
            r.push(
                Folder {
                    label: f.name.clone(),
                    path: self.url_for(f.path.as_str()),
                    count: f.count as usize,
                    newest: f.newest,
                },
            );
            i = i + 1;
        }
        assert(folders_view(r@) =~= Seq::new(
            listed@.len(),
            |i: int|
                FolderV {
                    label: listed@[i].name@,
                    path: place(self@.authority, listed@[i].path@),
                    count: listed@[i].count as usize,
                    newest: listed@[i].newest,
                },
        ));
        r
    }

    /// Tracks as the server lists them. A track's path is its address, the way a feed
    /// episode's is its URL, and its cover is asked for by the same address.
    pub fn tracks(&self, listed: &Vec<ListedTrack>) -> (r: Vec<Track>)
        ensures
            tracks_view(r@) == Seq::new(
                listed@.len(),
                |i: int| served_track(self@.authority, listed@[i]),
            ),
    {
        let mut r: Vec<Track> = Vec::new();
        let mut i: usize = 0;
        while i < listed.len()
            invariant
                i <= listed@.len(),
                r@.len() == i,
                forall|k: int|
                    0 <= k < i ==> (#[trigger] r@[k])@ == served_track(
                        self@.authority,
                        listed@[k],
                    ),
            decreases listed@.len() - i,
        {
            let t = &listed[i];
            let url = self.url_for(t.path.as_str());
            let duration = match t.duration_ms {
                Some(ms) => Some(Duration::from_millis(ms)),
                None => None,
            };
            let stars = if t.stars > 0 {
                Some(t.stars)
            } else {
                None
            };
            let track = Track {
                path: url.clone(),
                title: t.title.clone(),
                artist: t.artist.clone(),
                album: t.album.clone(),
                duration,
                art_url: Some(url.clone()),
                url: Some(url),
                stars,
            };
            assert(track@ == served_track(self@.authority, listed@[i as int]));
            r.push(track);
            i = i + 1;
        }
        assert(tracks_view(r@) =~= Seq::new(
            listed@.len(),
            |i: int| served_track(self@.authority, listed@[i]),
        ));
        r
    }
}

/// A folder as a server lists it.
#[derive(Debug)]
pub struct ListedFolder {
    pub name: String,
    pub path: String,
    pub count: u32,
    pub newest: u64,
}

/// A track as a server lists it.
#[derive(Debug)]
pub struct ListedTrack {
    pub path: String,
    pub title: String,
    pub artist: String,
    pub album: String,
    pub duration_ms: Option<u64>,
    /// In bytes, 0 when it is not known.
    pub size: u64,
    pub stars: u8,
}

/// A listed track as one to play.
pub open spec fn served_track(authority: Seq<char>, t: ListedTrack) -> TrackV {
    let url = place(authority, t.path@);
    TrackV {
        path: url,
        title: t.title@,
        artist: t.artist@,
        album: t.album@,
        duration: match t.duration_ms {
            Some(ms) => Some(
                Duration { secs: ms / 1000, nanos: ((ms % 1000) * 1_000_000) as u32 },
            ),
            None => None,
        },
        url: Some(url),
        art_url: Some(url),
        stars: if t.stars > 0 {
            Some(t.stars)
        } else {
            None
        },
    }
}

/// The address of `path` on the server called `authority`.
pub open spec fn place(authority: Seq<char>, path: Seq<char>) -> Seq<char> {
    let p = stripped(path, '/');
    if p.len() == 0 {
        scheme() + authority
    } else {
        scheme() + authority + "/"@ + p
    }
}

/// A `host:port` as an address gives it.
pub open spec fn is_authority(a: Seq<char>) -> bool {
    a.len() > 0 && !a.contains('/') && !a.contains('@') && has_port(a)
}

/// The address of something on a server leads back to that server and that path.
pub proof fn law_addresses_lead_back(authority: Seq<char>, path: Seq<char>)
    requires
        is_authority(authority),
    ensures
        has_scheme(place(authority, path)),
        authority_in(place(authority, path)) == Some(authority),
        path_in(place(authority, path)) == stripped(path, '/'),
{
    reveal(has_scheme);
    reveal_strlit("tuneterm://");
    reveal_strlit("/");
    let p = stripped(path, '/');
    let url = place(authority, path);
    let rest = url.skip(scheme().len() as int);
    assert(url.take(scheme().len() as int) =~= scheme());
    lemma_stripped(path, '/');
    assert forall|i: int| 0 <= i < authority.len() implies #[trigger] rest[i] != '/' by {
        assert(rest[i] == authority[i]);
        assert(authority.contains(authority[i]));
    }
    lemma_find_is(rest, '/', authority.len());
    assert(rest.take(authority.len() as int) =~= authority);
    lemma_rfind_absent(authority, '@');
    assert(host_part(authority) =~= authority);
    if p.len() == 0 {
        assert(rest =~= authority);
        let root = "/"@;
        assert(root.skip(1) =~= seq![]);
        reveal_with_fuel(text::stripped_start, 2);
        assert(stripped(root, '/') =~= seq![]);
        assert(p =~= seq![]);
    } else {
        let tail = rest.skip(authority.len() as int);
        assert(tail =~= "/"@ + p);
        assert(tail[0] == '/');
        assert(tail.skip(1) =~= p);
        assert(text::stripped_start(tail, '/') == text::stripped_start(p, '/'));
        lemma_stripped(p, '/');
    }
}

proof fn lemma_rfind_absent(s: Seq<char>, c: char)
    requires
        !s.contains(c),
    ensures
        rfind(s, c) == -1,
{
    paths::lemma_rfind(s, c);
    if rfind(s, c) >= 0 {
        assert(s.contains(s[rfind(s, c)]));
    }
}

/// The address that is kept never holds the token: whatever stood before the `@` is
/// not in it, nor is the `@`.
pub proof fn law_no_token_is_kept_in_the_address(url: Seq<char>)
    requires
        address(url) is Ok,
    ensures
        !address(url)->Ok_0.authority.contains('@'),
        !(scheme() + address(url)->Ok_0.authority).contains('@'),
{
    reveal_strlit("tuneterm://");
    reveal_strlit(":7700");
    let rest = after_prefix(url, scheme())->0;
    let authority = rest.take(find(rest, '/') as int);
    paths::lemma_rfind(authority, '@');
    let host = host_part(authority);
    assert forall|i: int| 0 <= i < host.len() implies #[trigger] host[i] != '@' by {
        assert(host[i] == authority[i + rfind(authority, '@') + 1]);
    }
    let a = address(url)->Ok_0.authority;
    assert forall|i: int| 0 <= i < a.len() implies #[trigger] a[i] != '@' by {
        if i < host.len() {
            assert(a[i] == host[i]);
        }
    }
    let whole = scheme() + a;
    assert forall|i: int| 0 <= i < whole.len() implies #[trigger] whole[i] != '@' by {
        if i >= scheme().len() {
            assert(whole[i] == a[i - scheme().len()]);
        }
    }
}

/// The servers that have been connected to, so that an address naming a host finds
/// its token without ever carrying it.
#[derive(Debug)]
pub struct Registry {
    pub servers: Vec<Server>,
}

pub open spec fn servers_view(v: Seq<Server>) -> Seq<ServerV> {
    Seq::new(v.len(), |i: int| v[i]@)
}

/// The server registered under `authority`.
pub open spec fn registered(servers: Seq<ServerV>, authority: Seq<char>) -> Option<ServerV>
    decreases servers.len(),
{
    if servers.len() == 0 {
        None
    } else if servers.last().authority == authority {
        Some(servers.last())
    } else {
        registered(servers.drop_last(), authority)
    }
}

impl Registry {
    pub fn new() -> (r: Registry)
        ensures
            servers_view(r.servers@) == Seq::<ServerV>::empty(),
    {
        let r = Registry { servers: Vec::new() };
        assert(servers_view(r.servers@) =~= Seq::<ServerV>::empty());
        r
    }

    /// Note a server, in place of whichever had its address before.
    pub fn insert(&mut self, server: &Server)
        ensures
            servers_view(final(self).servers@) == servers_view(old(self).servers@).push(server@),
    {
        let ghost was = servers_view(self.servers@);
        self.servers.push(server.copy());
        assert(servers_view(self.servers@) =~= was.push(server@));
    }

    /// The server registered under `authority`, the latest where there are several.
    pub fn find(&self, authority: &str) -> (r: Option<Server>)
        ensures
            match r {
                Some(s) => registered(servers_view(self.servers@), authority@) == Some(s@),
                None => registered(servers_view(self.servers@), authority@) is None,
            },
    {
        let ghost all = servers_view(self.servers@);
        let mut n: usize = self.servers.len();
        assert(all.take(n as int) =~= all);
        while n > 0
            invariant
                n <= self.servers@.len(),
                all == servers_view(self.servers@),
                registered(all, authority@) == registered(all.take(n as int), authority@),
            decreases n,
        {
            let s = &self.servers[n - 1];
            proof {
                assert(all.take(n as int).last() == s@);
                assert(all.take(n as int).drop_last() =~= all.take(n - 1));
            }
            if text::same(s.authority.as_str(), authority) {
                return Some(s.copy());
            }
            n = n - 1;
        }
        None
    }

    /// As [`Server::connect`], and note the server, so that addresses naming its host
    /// find it, and its token, without ever carrying the token themselves.
    pub fn connect(&mut self, url: &str, token: Option<&str>) -> (r: Result<Server, String>)
        ensures
            ({
                let kept = match token {
                    Some(t) => Some(t@),
                    None => None,
                };
                let c = connection(url@, kept, endpoint_refusal(uri_of(url@)));
                match r {
                    Ok(s) => c == Ok::<ServerV, Seq<char>>(s@) && servers_view(
                        final(self).servers@,
                    ) == servers_view(old(self).servers@).push(s@),
                    Err(why) => c == Err::<ServerV, Seq<char>>(why@) && *final(self) == *old(self),
                }
            }),
    {
        match Server::connect(url, token) {
            Ok(server) => {
                self.insert(&server);
                Ok(server)
            },
            Err(why) => Err(why),
        }
    }

    /// The server a URL points at, and the path on it, relative and without a leading
    /// slash. The registered server when there is one, so its token comes along; one
    /// that has to be opened is noted.
    pub fn for_url(&mut self, url: &str) -> (r: Result<(Server, String), String>)
        ensures
            ({
                let was = servers_view(old(self).servers@);
                let refusal = endpoint_refusal(uri_of(url@));
                &&& servers_view(final(self).servers@) == servers_after(was, url@, refusal)
                &&& match r {
                    Ok((server, path)) => looked_up(was, url@, refusal) == Ok::<
                        (ServerV, Seq<char>),
                        Seq<char>,
                    >((server@, path@)),
                    Err(why) => looked_up(was, url@, refusal) == Err::<
                        (ServerV, Seq<char>),
                        Seq<char>,
                    >(why@),
                }
            }),
    {
        let a = match parse(url) {
            Ok(a) => a,
            Err(why) => {
                return Err(why);
            },
        };
        let path = text::strip(a.path.as_str(), '/').to_owned();
        match self.find(a.authority.as_str()) {
            Some(server) => Ok((server, path)),
            None => match self.connect(url, None) {
                Ok(server) => Ok((server, path)),
                Err(why) => Err(why),
            },
        }
    }
}

/// What a URL points at: the server, which is the registered one where there is one
/// and otherwise opened, and the path on it.
pub open spec fn looked_up(
    servers: Seq<ServerV>,
    url: Seq<char>,
    refusal: Option<Seq<char>>,
) -> Result<(ServerV, Seq<char>), Seq<char>> {
    match address(url) {
        Err(why) => Err(why),
        Ok(a) => match registered(servers, a.authority) {
            Some(known) => Ok((known, stripped(a.path, '/'))),
            None => match connection(url, None, refusal) {
                Ok(server) => Ok((server, stripped(a.path, '/'))),
                Err(why) => Err(why),
            },
        },
    }
}

/// The servers known once a URL has been looked up.
pub open spec fn servers_after(
    servers: Seq<ServerV>,
    url: Seq<char>,
    refusal: Option<Seq<char>>,
) -> Seq<ServerV> {
    match address(url) {
        Err(_) => servers,
        Ok(a) => match registered(servers, a.authority) {
            Some(_) => servers,
            None => match connection(url, None, refusal) {
                Ok(server) => servers.push(server),
                Err(_) => servers,
            },
        },
    }
}

/// The server that a URL led to.
pub open spec fn found_server(
    servers: Seq<ServerV>,
    url: Seq<char>,
    refusal: Option<Seq<char>>,
) -> ServerV {
    let (server, path) = looked_up(servers, url, refusal)->Ok_0;
    server
}

/// Once a URL has led to a server, every address on its host leads to that server,
/// with its token, whatever token it carries itself.
pub proof fn law_a_later_address_finds_the_server(
    servers: Seq<ServerV>,
    url: Seq<char>,
    refusal: Option<Seq<char>>,
    later: Seq<char>,
    other: Option<Seq<char>>,
)
    requires
        looked_up(servers, url, refusal) is Ok,
        address(later) matches Ok(a) && a.authority == address(url)->Ok_0.authority,
    ensures
        looked_up(servers_after(servers, url, refusal), later, other) == Ok::<
            (ServerV, Seq<char>),
            Seq<char>,
        >((found_server(servers, url, refusal), stripped(address(later)->Ok_0.path, '/'))),
{
    let a = address(url)->Ok_0;
    if registered(servers, a.authority) is None {
        let server = connection(url, None, refusal)->Ok_0;
        law_the_latest_registration_counts(servers, server);
    }
}

/// Connecting to a server leads every later address on its host to it, with the token
/// it was given.
pub proof fn law_connecting_registers(
    servers: Seq<ServerV>,
    url: Seq<char>,
    kept: Option<Seq<char>>,
    refusal: Option<Seq<char>>,
    later: Seq<char>,
    other: Option<Seq<char>>,
)
    requires
        connection(url, kept, refusal) is Ok,
        address(later) matches Ok(a) && a.authority == address(url)->Ok_0.authority,
    ensures
        looked_up(servers.push(connection(url, kept, refusal)->Ok_0), later, other) == Ok::<
            (ServerV, Seq<char>),
            Seq<char>,
        >((connection(url, kept, refusal)->Ok_0, stripped(address(later)->Ok_0.path, '/'))),
{
    law_the_latest_registration_counts(servers, connection(url, kept, refusal)->Ok_0);
}

/// A server found under an address is the one last registered there.
pub proof fn law_the_latest_registration_counts(servers: Seq<ServerV>, server: ServerV)
    ensures
        registered(servers.push(server), server.authority) == Some(server),
{
    assert(servers.push(server).last() == server);
}

// ---------------------------------------------------------------------------
// Sending
// ---------------------------------------------------------------------------

/// `dir/name` in the protocol's form, where "" is the top.
pub open spec fn joined_path(dir: Seq<char>, name: Seq<char>) -> Seq<char> {
    let d = stripped(dir, '/');
    let n = stripped(name, '/');
    if d.len() == 0 {
        n
    } else if n.len() == 0 {
        d
    } else {
        d + "/"@ + n
    }
}

/// `dir/name` in the protocol's form, where "" is the top.
pub fn join(dir: &str, name: &str) -> (r: String)
    ensures
        r@ == joined_path(dir@, name@),
{
    let d = text::strip(dir, '/');
    let n = text::strip(name, '/');
    if d.is_empty() {
        n.to_owned()
    } else if n.is_empty() {
        d.to_owned()
    } else {
        text::cat3(d, "/", n)
    }
}

/// One file of a push, once the server has it.
#[derive(Debug, PartialEq, Eq)]
pub struct Sent {
    pub local: String,
    /// Where it is on the server, relative.
    pub remote: String,
    pub size: u64,
    /// Already there with the same size, so nothing was sent.
    pub skipped: bool,
}

/// What a [`Sent`] holds.
pub ghost struct SentV {
    pub local: Seq<char>,
    pub remote: Seq<char>,
    pub size: u64,
    pub skipped: bool,
}

impl View for Sent {
    type V = SentV;

    open spec fn view(&self) -> SentV {
        SentV {
            local: self.local@,
            remote: self.remote@,
            size: self.size,
            skipped: self.skipped,
        }
    }
}

pub open spec fn sents_view(v: Seq<Sent>) -> Seq<SentV> {
    Seq::new(v.len(), |i: int| v[i]@)
}

/// What a server says about a path.
#[derive(Debug, Clone, Copy, PartialEq, Eq, Structural)]
pub struct Stat {
    pub exists: bool,
    pub is_dir: bool,
    pub size: u64,
}

/// What a push managed. `done` holds only files the server has confirmed in full,
/// which is what makes it safe to delete them afterwards even when `error` says the
/// push stopped partway.
#[derive(Debug)]
pub struct Pushed {
    pub done: Vec<Sent>,
    pub total: usize,
    pub error: Option<String>,
}

/// A file to send: where it is, and where it goes.
#[derive(Debug, PartialEq, Eq)]
pub struct Parcel {
    pub local: String,
    pub remote: String,
}

pub open spec fn parcels_view(v: Seq<Parcel>) -> Seq<(Seq<char>, Seq<char>)> {
    Seq::new(v.len(), |i: int| (v[i].local@, v[i].remote@))
}

/// The files found on a walk, each with where it goes under `base`.
pub fn parcels(found: &Vec<Parcel>, base: &str) -> (r: Vec<Parcel>)
    ensures
        parcels_view(r@) == Seq::new(
            found@.len(),
            |i: int| (found@[i].local@, joined_path(stripped(base@, '/'), found@[i].remote@)),
        ),
{
    let base = text::strip(base, '/');
    let mut r: Vec<Parcel> = Vec::new();
    let mut i: usize = 0;
    while i < found.len()
        invariant
            i <= found@.len(),
            r@.len() == i,
            forall|k: int|
                0 <= k < i ==> (#[trigger] r@[k]).local@ == found@[k].local@ && r@[k].remote@
                    == joined_path(base@, found@[k].remote@),
        decreases found@.len() - i,
    {
        r.push(
            Parcel {
                local: found[i].local.clone(),
                remote: join(base, found[i].remote.as_str()),
            },
        );
        i = i + 1;
    }
    assert(parcels_view(r@) =~= Seq::new(
        found@.len(),
        |i: int| (found@[i].local@, joined_path(base@, found@[i].remote@)),
    ));
    r
}

/// A walk keeps to what is not hidden: nothing whose name starts with a dot.
pub open spec fn is_dotted(path: Seq<char>) -> bool {
    match paths::leaf(path) {
        Some(name) => name.len() > 0 && name[0] == '.',
        None => false,
    }
}

fn dotted(path: &str) -> (b: bool)
    ensures
        b == is_dotted(path@),
{
    match paths::file_name(path) {
        Some(name) => {
            let v = text::chars_of(name.as_str());
            v.len() > 0 && v[0] == '.'
        },
        None => false,
    }
}

/// The files below a directory that a push sends, hidden ones and what hidden folders
/// hold left out, in the order the entries come in.
pub open spec fn sendable(entries: Seq<Entry>) -> Seq<Seq<char>>
    decreases entries,
{
    if entries.len() == 0 {
        seq![]
    } else {
        sendable(entries.drop_last()) + match entries.last() {
            Entry::File { path, time } => if is_dotted(path@) {
                seq![]
            } else {
                seq![path@]
            },
            Entry::Dir { path, time, entries: inner } => if is_dotted(path@) {
                seq![]
            } else {
                sendable(inner@)
            },
        }
    }
}

fn collect_sendable(entries: &Vec<Entry>) -> (out: Vec<String>)
    ensures
        views(out@) == sendable(entries@),
    decreases entries@,
{
    let mut out: Vec<String> = Vec::new();
    assert(views(out@) =~= seq![]);
    let mut i: usize = 0;
    assert(entries@.take(0) =~= seq![]);
    while i < entries.len()
        invariant
            i <= entries@.len(),
            views(out@) == sendable(entries@.take(i as int)),
        decreases entries@.len() - i,
    {
        let ghost was = views(out@);
        proof {
            let t = entries@.take(i as int + 1);
            assert(t.drop_last() =~= entries@.take(i as int));
            assert(t.last() == entries@[i as int]);
            assert(was + seq![] =~= was);
        }
        match &entries[i] {
            Entry::File { path, time } => {
                if !dotted(path.as_str()) {
                    out.push(path.clone());
                    assert(views(out@) =~= was + seq![path@]);
                }
            },
            Entry::Dir { path, time, entries: inner } => {
                if !dotted(path.as_str()) {
                    let mut more = collect_sendable(inner);
                    let ghost mv = views(more@);
                    let ghost (a, b) = (out@, more@);
                    out.append(&mut more);
                    assert(out@ =~= a + b);
                    assert(views(out@) =~= was + mv);
                }
            },
        }
        i = i + 1;
    }
    assert(entries@.take(i as int) =~= entries@);
    out
}

/// Every file below `base` that is not hidden, ordered by path, each with its path
/// relative to `base` written the way the protocol wants it.
pub fn walk(base: &str, entries: &Vec<Entry>) -> (r: Result<Vec<Parcel>, String>)
    ensures
        ({
            let found = sendable(entries@);
            match r {
                Ok(parcels) => ({
                    let v = parcels_view(parcels@);
                    let locals = Seq::new(v.len(), |i: int| v[i].0);
                    &&& library::sorts(library::path_keys(found), found, locals)
                    &&& forall|i: int|
                        0 <= i < v.len() ==> paths::below((#[trigger] v[i]).0, base@) is Some
                            && v[i].1 == text::joined(
                            paths::below(v[i].0, base@)->0,
                            paths::slash(),
                        )
                }),
                Err(why) => why@ == "prefix not found"@ && exists|i: int|
                    0 <= i < found.len() && paths::below(#[trigger] found[i], base@) is None,
            }
        }),
{
    let found = collect_sendable(entries);
    let ghost fv = views(found@);
    let sorted = library::sort_paths(&found);
    let mut r: Vec<Parcel> = Vec::new();
    let mut i: usize = 0;
    while i < sorted.len()
        invariant
            i <= sorted@.len(),
            fv == sendable(entries@),
            library::sorts(library::path_keys(fv), fv, views(sorted@)),
            r@.len() == i,
            forall|k: int|
                0 <= k < i ==> (#[trigger] r@[k]).local@ == sorted@[k]@ && paths::below(
                    r@[k].local@,
                    base@,
                ) is Some && r@[k].remote@ == text::joined(
                    paths::below(r@[k].local@, base@)->0,
                    paths::slash(),
                ),
        decreases sorted@.len() - i,
    {
        match paths::relative(sorted[i].as_str(), base) {
            Some(rel) => {
                r.push(Parcel { local: sorted[i].clone(), remote: rel });
            },
            None => {
                proof {
                    let order = choose|order: Seq<usize>|
                        crate::order::is_sorted_order(library::path_keys(fv), order)
                            && #[trigger] library::arranged(fv, order, views(sorted@));
                    assert(views(sorted@)[i as int] == fv[order[i as int] as int]);
                    assert(order[i as int] < fv.len());
                }
                return Err("prefix not found".to_owned());
            },
        }
        i = i + 1;
    }
    proof {
        let v = parcels_view(r@);
        let locals = Seq::new(v.len(), |k: int| v[k].0);
        assert(locals =~= views(sorted@));
        assert forall|k: int| 0 <= k < v.len() implies paths::below(
            (#[trigger] v[k]).0,
            base@,
        ) is Some && v[k].1 == text::joined(paths::below(v[k].0, base@)->0, paths::slash()) by {
            assert(r@[k].local@ == sorted@[k]@);
        }
    }
    Ok(r)
}

/// One message of an upload: whether the header rides on it, and how many bytes.
#[derive(Debug, Clone, Copy, PartialEq, Eq, Structural)]
pub struct Message {
    pub header: bool,
    pub len: usize,
}

/// A file on its way up, read from the disk piece by piece so that a big one never
/// sits in memory whole. The header rides on the first message.
#[derive(Debug, Clone, Copy, PartialEq, Eq, Structural)]
pub struct Upload {
    /// The header is still to be sent.
    pub due: bool,
}

/// The messages that `reads` bytes at a time make. The first read of nothing is the
/// end of the file; an empty file still sends its header.
pub open spec fn messages(due: bool, reads: Seq<usize>) -> Seq<Message>
    decreases reads.len(),
{
    if reads.len() == 0 {
        seq![]
    } else if reads[0] == 0 {
        if due {
            seq![Message { header: true, len: 0 }]
        } else {
            seq![]
        }
    } else {
        seq![Message { header: due, len: reads[0] }] + messages(false, reads.skip(1))
    }
}

/// All the bytes that `messages` carry.
pub open spec fn carried(messages: Seq<Message>) -> nat
    decreases messages.len(),
{
    if messages.len() == 0 {
        0
    } else {
        messages[0].len as nat + carried(messages.skip(1))
    }
}

/// All the bytes read up to the first read of nothing.
pub open spec fn read_in_all(reads: Seq<usize>) -> nat
    decreases reads.len(),
{
    if reads.len() == 0 || reads[0] == 0 {
        0
    } else {
        reads[0] as nat + read_in_all(reads.skip(1))
    }
}

impl Upload {
    pub fn new() -> (u: Upload)
        ensures
            u.due,
    {
        Upload { due: true }
    }

    /// `n` bytes were read, none at the end of the file: the message to send, if there
    /// is one. After a read of nothing there are no more.
    pub fn piece(&mut self, n: usize) -> (m: Option<Message>)
        ensures
            m == (if n > 0 || old(self).due {
                Some(Message { header: old(self).due, len: n })
            } else {
                None
            }),
            !final(self).due,
            forall|rest: Seq<usize>| #[trigger]
                messages(old(self).due, seq![n] + rest) == (match m {
                    Some(first) => seq![first],
                    None => seq![],
                }) + (if n > 0 {
                    messages(false, rest)
                } else {
                    seq![]
                }),
    {
        let due = self.due;
        self.due = false;
        proof {
            assert forall|rest: Seq<usize>| #[trigger]
                messages(old(self).due, seq![n] + rest) == (if n > 0 || due {
                    seq![Message { header: due, len: n }]
                } else {
                    seq![]
                }) + (if n > 0 {
                    messages(false, rest)
                } else {
                    seq![]
                }) by {
                assert((seq![n] + rest).skip(1) =~= rest);
                assert(seq![Message { header: true, len: 0 }] + Seq::<Message>::empty() =~= seq![
                    Message { header: true, len: 0 },
                ]);
                assert(Seq::<Message>::empty() + Seq::<Message>::empty() =~= Seq::empty());
            }
        }
        if n > 0 || due {
            Some(Message { header: due, len: n })
        } else {
            None
        }
    }
}

/// Every upload that gets to the end of its file starts with its header, sends it
/// once, and carries exactly the bytes that were read.
pub proof fn law_an_upload_carries_its_file(reads: Seq<usize>)
    requires
        reads.len() > 0,
    ensures
        messages(true, reads).len() > 0,
        messages(true, reads)[0].header,
        forall|i: int|
            0 < i < messages(true, reads).len() ==> !(#[trigger] messages(true, reads)[i]).header,
        carried(messages(true, reads)) == read_in_all(reads),
{
    lemma_carried(true, reads);
    if reads[0] != 0 {
        let rest = messages(false, reads.skip(1));
        lemma_no_header(reads.skip(1));
        assert forall|i: int| 0 < i < messages(true, reads).len() implies !(
        #[trigger] messages(true, reads)[i]).header by {
            assert(messages(true, reads)[i] == rest[i - 1]);
        }
    }
}

proof fn lemma_no_header(reads: Seq<usize>)
    ensures
        forall|i: int|
            0 <= i < messages(false, reads).len() ==> !(#[trigger] messages(
                false,
                reads,
            )[i]).header,
    decreases reads.len(),
{
    if reads.len() > 0 && reads[0] != 0 {
        lemma_no_header(reads.skip(1));
        let rest = messages(false, reads.skip(1));
        assert forall|i: int| 0 <= i < messages(false, reads).len() implies !(
        #[trigger] messages(false, reads)[i]).header by {
            if i > 0 {
                assert(messages(false, reads)[i] == rest[i - 1]);
            }
        }
    }
}

proof fn lemma_carried(due: bool, reads: Seq<usize>)
    ensures
        carried(messages(due, reads)) == read_in_all(reads),
    decreases reads.len(),
{
    if reads.len() == 0 {
    } else if reads[0] == 0 {
        let m = messages(due, reads);
        if due {
            assert(m.skip(1) =~= seq![]);
            assert(carried(m.skip(1)) == 0);
        }
    } else {
        lemma_carried(false, reads.skip(1));
        let m = messages(due, reads);
        assert(m.skip(1) =~= messages(false, reads.skip(1)));
    }
}

/// What was actually sent: how many files and bytes, and how many were there already.
pub open spec fn skipped_in(done: Seq<SentV>) -> nat
    decreases done.len(),
{
    if done.len() == 0 {
        0
    } else {
        skipped_in(done.drop_last()) + if done.last().skipped {
            1nat
        } else {
            0
        }
    }
}

/// The bytes of the files that were not there already.
pub open spec fn bytes_in(done: Seq<SentV>) -> nat
    decreases done.len(),
{
    if done.len() == 0 {
        0
    } else {
        bytes_in(done.drop_last()) + if done.last().skipped {
            0nat
        } else {
            done.last().size as nat
        }
    }
}

proof fn lemma_bytes_grow(done: Seq<SentV>, k: int)
    requires
        0 <= k <= done.len(),
    ensures
        bytes_in(done.take(k)) <= bytes_in(done),
    decreases done.len() - k,
{
    if k == done.len() {
        assert(done.take(k) =~= done);
    } else {
        lemma_bytes_grow(done, k + 1);
        assert(done.take(k + 1).drop_last() =~= done.take(k));
    }
}

impl Pushed {
    /// How many files were sent, how many were there already, and the bytes sent.
    pub fn summary(&self) -> (r: (usize, usize, u64))
        requires
            bytes_in(sents_view(self.done@)) <= u64::MAX,
        ensures
            r.0 + r.1 == self.done@.len(),
            r.1 == skipped_in(sents_view(self.done@)),
            r.2 == bytes_in(sents_view(self.done@)),
    {
        let ghost all = sents_view(self.done@);
        let mut skipped: usize = 0;
        let mut bytes: u64 = 0;
        let mut i: usize = 0;
        assert(all.take(0) =~= seq![]);
        while i < self.done.len()
            invariant
                i <= self.done@.len(),
                all == sents_view(self.done@),
                bytes_in(all) <= u64::MAX,
                skipped <= i,
                skipped == skipped_in(all.take(i as int)),
                bytes == bytes_in(all.take(i as int)),
            decreases self.done@.len() - i,
        {
            proof {
                let t = all.take(i as int + 1);
                assert(t.drop_last() =~= all.take(i as int));
                assert(t.last() == self.done@[i as int]@);
                lemma_bytes_grow(all, i as int + 1);
            }
            if self.done[i].skipped {
                skipped = skipped + 1;
            } else {
                bytes = bytes + self.done[i].size;
            }
            i = i + 1;
        }
        assert(all.take(i as int) =~= all);
        (self.done.len() - skipped, skipped, bytes)
    }

    /// A push of `total` files that has sent none yet.
    pub fn start(total: usize) -> (r: Pushed)
        ensures
            r.total == total,
            r.error is None,
            sents_view(r.done@) == Seq::<SentV>::empty(),
    {
        let r = Pushed { done: Vec::new(), total, error: None };
        assert(sents_view(r.done@) =~= Seq::<SentV>::empty());
        r
    }

    /// A push that could not begin.
    pub fn failed(local: &str, why: &str) -> (r: Pushed)
        ensures
            r.total == 0,
            opt_view(r.error) == Some(local@ + ": "@ + why@),
            sents_view(r.done@) == Seq::<SentV>::empty(),
    {
        let r = Pushed { done: Vec::new(), total: 0, error: Some(text::cat3(local, ": ", why)) };
        assert(sents_view(r.done@) =~= Seq::<SentV>::empty());
        r
    }

    /// The outcome of sending one file. A file that failed ends the push, and the
    /// ones before it stay done.
    pub fn record(&mut self, parcel: &Parcel, outcome: Result<Sent, String>)
        ensures
            final(self).total == old(self).total,
            match outcome {
                Ok(sent) => sents_view(final(self).done@) == sents_view(old(self).done@).push(
                    sent@,
                ) && final(self).error == old(self).error,
                Err(why) => sents_view(final(self).done@) == sents_view(old(self).done@)
                    && opt_view(final(self).error) == Some(
                    "/"@ + parcel.remote@ + ": "@ + why@,
                ),
            },
    {
        let ghost was = sents_view(self.done@);
        match outcome {
            Ok(sent) => {
                let ghost sv = sent@;
                self.done.push(sent);
                assert(sents_view(self.done@) =~= was.push(sv));
            },
            Err(why) => {
                self.error = Some(text::cat4("/", parcel.remote.as_str(), ": ", why.as_str()));
            },
        }
    }

    /// The next file to send, unless the push has stopped or is through.
    pub fn next(&self, parcels: &Vec<Parcel>) -> (r: Option<usize>)
        ensures
            r == (if self.error is None && self.done@.len() < parcels@.len() {
                Some(self.done@.len() as usize)
            } else {
                None
            }),
    {
        if self.error.is_none() && self.done.len() < parcels.len() {
            Some(self.done.len())
        } else {
            None
        }
    }

    /// The local files that may be deleted: those the server has confirmed, and no
    /// others.
    pub fn removable(&self) -> (r: Vec<String>)
        ensures
            views(r@) == Seq::new(self.done@.len(), |i: int| self.done@[i].local@),
    {
        let mut r: Vec<String> = Vec::new();
        let mut i: usize = 0;
        while i < self.done.len()
            invariant
                i <= self.done@.len(),
                r@.len() == i,
                forall|k: int| 0 <= k < i ==> (#[trigger] r@[k])@ == self.done@[k].local@,
            decreases self.done@.len() - i,
        {
            r.push(self.done[i].local.clone());
            i = i + 1;
        }
        assert(views(r@) =~= Seq::new(self.done@.len(), |i: int| self.done@[i].local@));
        r
    }
}

/// How a file stands before it is sent: skipped when the server has one of the same
/// size already.
pub fn weigh(parcel: &Parcel, size: u64, there: Stat) -> (sent: Sent)
    ensures
        sent@ == (SentV {
            local: parcel.local@,
            remote: parcel.remote@,
            size,
            skipped: there.exists && !there.is_dir && there.size == size,
        }),
{
    Sent {
        local: parcel.local.clone(),
        remote: parcel.remote.clone(),
        size,
        skipped: there.exists && !there.is_dir && there.size == size,
    }
}

/// A file is sent only once the server says it has all of it.
pub fn confirm(sent: Sent, confirmed: u64) -> (r: Result<Sent, String>)
    ensures
        match r {
            Ok(s) => s@ == sent@ && (sent.skipped || confirmed == sent.size),
            Err(why) => !sent.skipped && confirmed != sent.size && why@ == "the server has "@
                + decimal(confirmed as nat) + " of "@ + decimal(sent.size as nat) + " bytes"@,
        },
{
    if !sent.skipped && confirmed != sent.size {
        let have = text::print(confirmed);
        let want = text::print(sent.size);
        Err(text::cat5("the server has ", have.as_str(), " of ", want.as_str(), " bytes"))
    } else {
        Ok(sent)
    }
}

/// What sending one file came to: its size here, what the server had under its name
/// before, and how much of it the server says it has now.
#[derive(Debug, Clone, Copy, PartialEq, Eq, Structural)]
pub struct Answer {
    pub size: u64,
    pub there: Stat,
    pub confirmed: u64,
}

impl Answer {
    /// The server had it already.
    pub open spec fn was_there(self) -> bool {
        self.there.exists && !self.there.is_dir && self.there.size == self.size
    }

    /// The server has all of it.
    pub open spec fn arrived(self) -> bool {
        self.was_there() || self.confirmed == self.size
    }
}

/// A push as it stands.
pub ghost struct PushedV {
    pub done: Seq<SentV>,
    pub total: usize,
    pub error: Option<Seq<char>>,
}

impl View for Pushed {
    type V = PushedV;

    open spec fn view(&self) -> PushedV {
        PushedV {
            done: sents_view(self.done@),
            total: self.total,
            error: opt_view(self.error),
        }
    }
}

/// An answer, or what went wrong on the way to one.
pub open spec fn given_view(given: Result<Answer, String>) -> Result<Answer, Seq<char>> {
    match given {
        Ok(a) => Ok(a),
        Err(why) => Err(why@),
    }
}

impl PushedV {
    /// Nothing sent yet of `total` files.
    pub open spec fn started(total: usize) -> PushedV {
        PushedV { done: seq![], total, error: None }
    }

    /// After the next file has been tried. One that did not arrive whole ends the
    /// push.
    pub open spec fn advanced(
        self,
        parcels: Seq<(Seq<char>, Seq<char>)>,
        given: Result<Answer, Seq<char>>,
    ) -> PushedV {
        let at = self.done.len() as int;
        if self.error is Some || at >= parcels.len() {
            self
        } else {
            let (local, remote) = parcels[at];
            match given {
                Ok(a) => if a.arrived() {
                    PushedV {
                        done: self.done.push(
                            SentV { local, remote, size: a.size, skipped: a.was_there() },
                        ),
                        ..self
                    }
                } else {
                    PushedV {
                        error: Some(
                            "/"@ + remote + ": "@ + ("the server has "@ + decimal(
                                a.confirmed as nat,
                            ) + " of "@ + decimal(a.size as nat) + " bytes"@),
                        ),
                        ..self
                    }
                },
                Err(why) => PushedV { error: Some("/"@ + remote + ": "@ + why), ..self },
            }
        }
    }
}

/// A whole push, one answer after the other.
pub open spec fn push_run(
    parcels: Seq<(Seq<char>, Seq<char>)>,
    given: Seq<Result<Answer, Seq<char>>>,
) -> PushedV
    decreases given.len(),
{
    if given.len() == 0 {
        PushedV::started(parcels.len() as usize)
    } else {
        push_run(parcels, given.drop_last()).advanced(parcels, given.last())
    }
}

impl Pushed {
    /// The next file has been tried, with this outcome.
    pub fn advance(&mut self, parcels: &Vec<Parcel>, given: Result<Answer, String>)
        ensures
            final(self)@ == old(self)@.advanced(parcels_view(parcels@), given_view(given)),
    {
        let ghost was = self@;
        let ghost pv = parcels_view(parcels@);
        let n: usize = self.done.len();
        if let Some(at) = self.next(parcels) {
            assert(pv[at as int] == (parcels@[at as int].local@, parcels@[at as int].remote@));
            assert(at == n);
            match given {
                Ok(a) => {
                    let sent = weigh(&parcels[at], a.size, a.there);
                    let ghost sv = sent@;
                    assert(sent.skipped == sv.skipped && sent.size == sv.size);
                    let outcome = confirm(sent, a.confirmed);
                    self.record(&parcels[at], outcome);
                    assert(a.arrived() ==> self@ == PushedV { done: was.done.push(sv), ..was });
                },
                Err(why) => {
                    self.record(&parcels[at], Err(why));
                },
            }
        }
    }
}

/// Whatever happens on the way, a push has done exactly the first files up to the one
/// that did not arrive: each of them the server holds whole, and nothing else is ever
/// reported as sent. So deleting what was sent never deletes what was not confirmed.
pub proof fn law_only_what_arrived_is_done(
    parcels: Seq<(Seq<char>, Seq<char>)>,
    given: Seq<Result<Answer, Seq<char>>>,
)
    requires
        given.len() <= parcels.len(),
    ensures
        ({
            let p = push_run(parcels, given);
            &&& p.done.len() <= given.len()
            &&& forall|i: int|
                0 <= i < p.done.len() ==> {
                    &&& (#[trigger] p.done[i]).local == parcels[i].0
                    &&& p.done[i].remote == parcels[i].1
                    &&& given[i] matches Ok(a) && a.arrived()
                }
            &&& p.error is None ==> p.done.len() == given.len()
            &&& p.error is Some ==> p.done.len() < given.len() && !(
            given[p.done.len() as int] matches Ok(a) && a.arrived())
        }),
    decreases given.len(),
{
    if given.len() > 0 {
        law_only_what_arrived_is_done(parcels, given.drop_last());
        let q = push_run(parcels, given.drop_last());
        let p = push_run(parcels, given);
        if q.error is None {
            assert(given[q.done.len() as int] == given.last());
        } else {
            assert(given[q.done.len() as int] == given.drop_last()[q.done.len() as int]);
        }
        assert forall|i: int| 0 <= i < p.done.len() implies {
            &&& (#[trigger] p.done[i]).local == parcels[i].0
            &&& p.done[i].remote == parcels[i].1
            &&& given[i] matches Ok(a) && a.arrived()
        } by {
            if i < q.done.len() {
                assert(p.done[i] == q.done[i]);
                assert(given[i] == given.drop_last()[i]);
            }
        }
    }
}

// ---------------------------------------------------------------------------
// What a server answers
// ---------------------------------------------------------------------------

/// The ways a call can end.
#[derive(Debug, Clone, Copy, PartialEq, Eq, Structural)]
pub enum Code {
    Success,
    Cancelled,
    Unknown,
    InvalidArgument,
    DeadlineExceeded,
    NotFound,
    AlreadyExists,
    PermissionDenied,
    ResourceExhausted,
    FailedPrecondition,
    Aborted,
    OutOfRange,
    Unimplemented,
    Internal,
    Unavailable,
    DataLoss,
    Unauthenticated,
}

/// How a call ended, and what the server had to say about it.
#[derive(Debug, PartialEq, Eq)]
pub struct Status {
    pub code: Code,
    pub message: String,
}

impl Code {
    pub open spec fn title(self) -> Seq<char> {
        match self {
            Code::Success => "Ok"@,
            Code::Cancelled => "Cancelled"@,
            Code::Unknown => "Unknown"@,
            Code::InvalidArgument => "InvalidArgument"@,
            Code::DeadlineExceeded => "DeadlineExceeded"@,
            Code::NotFound => "NotFound"@,
            Code::AlreadyExists => "AlreadyExists"@,
            Code::PermissionDenied => "PermissionDenied"@,
            Code::ResourceExhausted => "ResourceExhausted"@,
            Code::FailedPrecondition => "FailedPrecondition"@,
            Code::Aborted => "Aborted"@,
            Code::OutOfRange => "OutOfRange"@,
            Code::Unimplemented => "Unimplemented"@,
            Code::Internal => "Internal"@,
            Code::Unavailable => "Unavailable"@,
            Code::DataLoss => "DataLoss"@,
            Code::Unauthenticated => "Unauthenticated"@,
        }
    }

    /// The code by name.
    pub fn name(self) -> (r: &'static str)
        ensures
            r@ == self.title(),
    {
        match self {
            Code::Success => "Ok",
            Code::Cancelled => "Cancelled",
            Code::Unknown => "Unknown",
            Code::InvalidArgument => "InvalidArgument",
            Code::DeadlineExceeded => "DeadlineExceeded",
            Code::NotFound => "NotFound",
            Code::AlreadyExists => "AlreadyExists",
            Code::PermissionDenied => "PermissionDenied",
            Code::ResourceExhausted => "ResourceExhausted",
            Code::FailedPrecondition => "FailedPrecondition",
            Code::Aborted => "Aborted",
            Code::OutOfRange => "OutOfRange",
            Code::Unimplemented => "Unimplemented",
            Code::Internal => "Internal",
            Code::Unavailable => "Unavailable",
            Code::DataLoss => "DataLoss",
            Code::Unauthenticated => "Unauthenticated",
        }
    }
}

/// A status as a person would want it in one line.
pub open spec fn description(code: Code, message: Seq<char>) -> Seq<char> {
    match code {
        Code::Unavailable => "server unreachable: "@ + message,
        Code::Unauthenticated => "wrong or missing token for the server"@,
        Code::DeadlineExceeded => "the server took too long"@,
        Code::Unimplemented =>
            "the server does not know this call; client and server versions differ"@,
        _ => if message.len() == 0 {
            code.title()
        } else {
            message
        },
    }
}

/// A status as a person would want it in one line.
pub fn describe(status: &Status) -> (r: String)
    ensures
        r@ == description(status.code, status.message@),
{
    match status.code {
        Code::Unavailable => text::cat2("server unreachable: ", status.message.as_str()),
        Code::Unauthenticated => "wrong or missing token for the server".to_owned(),
        Code::DeadlineExceeded => "the server took too long".to_owned(),
        // A server built from an older schema answers a call it does not know with
        // no message at all.
        Code::Unimplemented =>
            "the server does not know this call; client and server versions differ".to_owned(),
        _ => if status.message.as_str().is_empty() {
            status.code.name().to_owned()
        } else {
            status.message.clone()
        },
    }
}

/// Cover art, if the server sent any.
pub fn cover(reply: Result<Vec<u8>, String>) -> (r: Option<Vec<u8>>)
    ensures
        match r {
            Some(data) => reply matches Ok(sent) && data@ == sent@ && data@.len() > 0,
            None => reply is Err || reply->Ok_0@.len() == 0,
        },
{
    match reply {
        Ok(sent) => if sent.len() > 0 {
            Some(sent)
        } else {
            None
        },
        Err(_) => None,
    }
}

// ---------------------------------------------------------------------------
// Sizes
// ---------------------------------------------------------------------------

/// The unit a size is shown in, and how many bytes make one.
pub open spec fn unit_of(size: nat) -> (Seq<char>, nat) {
    if size < 0x100000 {
        (" KB"@, 0x400)
    } else if size < 0x40000000 {
        (" MB"@, 0x100000)
    } else if size < 0x10000000000 {
        (" GB"@, 0x40000000)
    } else {
        (" TB"@, 0x10000000000)
    }
}

/// Tenths of a unit, to the nearest, and to the even one of two as near.
pub open spec fn tenths(size: nat, unit: nat) -> nat {
    let whole = size * 10 / unit;
    let rest = (size * 10) % unit;
    if rest * 2 > unit || (rest * 2 == unit && whole % 2 == 1) {
        (whole + 1) as nat
    } else {
        whole as nat
    }
}

/// A size the way `ls -h` would put it.
pub open spec fn human_size(size: nat) -> Seq<char> {
    if size < 0x400 {
        decimal(size) + " B"@
    } else {
        let (name, unit) = unit_of(size);
        let t = tenths(size, unit);
        decimal(t / 10) + seq!['.', digit(t % 10)] + name
    }
}

/// A size the way `ls -h` would put it.
pub fn human(size: u64) -> (r: String)
    ensures
        r@ == human_size(size as nat),
{
    if size < 0x400 {
        return text::cat2(text::print(size).as_str(), " B");
    }
    let (name, unit): (&str, u128) = if size < 0x100000 {
        (" KB", 0x400)
    } else if size < 0x40000000 {
        (" MB", 0x100000)
    } else if size < 0x10000000000 {
        (" GB", 0x40000000)
    } else {
        (" TB", 0x10000000000)
    };
    let scaled: u128 = size as u128 * 10;
    let whole: u128 = scaled / unit;
    let rest: u128 = scaled % unit;
    proof {
        assert(scaled / unit <= scaled) by (nonlinear_arith)
            requires
                unit >= 1,
                scaled >= 0,
        ;
        assert(scaled % unit < unit) by (nonlinear_arith)
            requires
                unit >= 1,
                scaled >= 0,
        ;
    }
    let t: u128 = if rest * 2 > unit || (rest * 2 == unit && whole % 2 == 1) {
        whole + 1
    } else {
        whole
    };
    assert(whole <= 0xffff_ffff_ffff_ffffint) by (nonlinear_arith)
        requires
            whole == scaled / unit,
            unit >= 0x400,
            scaled <= 10 * 0xffff_ffff_ffff_ffffint,
            scaled >= 0,
    ;
    assert(t / 10 <= u64::MAX);
    let mut r = text::print((t / 10) as u64);
    let d: u8 = 48 + (t % 10) as u8;
    r.push('.');
    r.push(d as char);
    assert(r@ =~= decimal((t / 10) as nat) + seq!['.', digit((t % 10) as nat)]);
    text::cat2(r.as_str(), name)
}

// ---------------------------------------------------------------------------
// A file on a server
// ---------------------------------------------------------------------------

/// A file on a server, readable and seekable like a local one.
///
/// Reads run forwards through one open stream, a seek drops it, and the next read
/// opens another at the new offset. The stream itself is the caller's; what it
/// delivers comes in through [`RemoteFile::chunk`].
#[derive(Debug)]
pub struct RemoteFile {
    pub path: String,
    pub len: u64,
    pub pos: u64,
    /// True while a stream is open.
    pub streaming: bool,
    /// What is left of the last chunk, from `taken` on.
    pub pending: Vec<u8>,
    pub taken: usize,
}

/// What a read has to do first.
#[derive(Debug, Clone, Copy, PartialEq, Eq, Structural)]
pub enum Need {
    /// There is nothing to read.
    Nothing,
    /// Bytes are at hand.
    Ready,
    /// Open a stream at this offset, and hand in its first chunk.
    Open(u64),
    /// Hand in the next chunk of the open stream.
    More,
}

impl RemoteFile {
    /// The bytes at hand.
    pub open spec fn ahead(self) -> Seq<u8> {
        self.pending@.skip(self.taken as int)
    }

    pub open spec fn wf(self) -> bool {
        &&& self.taken <= self.pending@.len()
        &&& self.pos + self.ahead().len() <= u64::MAX
    }

    /// The bytes at hand are those of `file` from the current offset on.
    pub open spec fn agrees(self, file: Seq<u8>) -> bool {
        &&& self.wf()
        &&& self.len == file.len()
        &&& self.pos + self.ahead().len() <= file.len()
        &&& self.ahead() == file.subrange(self.pos as int, self.pos + self.ahead().len())
    }

    /// A file, given what the server says of its path.
    pub fn open(path: &str, info: Stat) -> (r: Result<RemoteFile, String>)
        ensures
            match r {
                Ok(f) => info.exists && !info.is_dir && f.wf() && f.path@ == path@ && f.len
                    == info.size && f.pos == 0 && !f.streaming && f.ahead().len() == 0,
                Err(why) => (!info.exists || info.is_dir) && why@
                    == "not a file on the server: "@ + path@,
            },
    {
        if !info.exists || info.is_dir {
            return Err(text::cat2("not a file on the server: ", path));
        }
        Ok(
            RemoteFile {
                path: path.to_owned(),
                len: info.size,
                pos: 0,
                streaming: false,
                pending: Vec::new(),
                taken: 0,
            },
        )
    }

    pub fn len(&self) -> (n: u64)
        ensures
            n == self.len,
    {
        self.len
    }

    /// What has to happen before `want` bytes can be read.
    pub fn need(&self, want: usize) -> (r: Need)
        requires
            self.wf(),
        ensures
            r == (if self.pos >= self.len || want == 0 {
                Need::Nothing
            } else if self.ahead().len() > 0 {
                Need::Ready
            } else if self.streaming {
                Need::More
            } else {
                Need::Open(self.pos)
            }),
    {
        if self.pos >= self.len || want == 0 {
            Need::Nothing
        } else if self.taken < self.pending.len() {
            Need::Ready
        } else if self.streaming {
            Need::More
        } else {
            Need::Open(self.pos)
        }
    }

    /// The stream, opened at the current offset or open since, delivered a chunk.
    pub fn chunk(&mut self, data: Vec<u8>)
        requires
            old(self).wf(),
            old(self).ahead().len() == 0,
            old(self).pos + data@.len() <= u64::MAX,
        ensures
            final(self).wf(),
            final(self).ahead() == data@,
            final(self).streaming,
            final(self).pos == old(self).pos,
            final(self).len == old(self).len,
            final(self).path == old(self).path,
    {
        self.pending = data;
        self.taken = 0;
        self.streaming = true;
        assert(self.pending@.skip(0) =~= self.pending@);
    }

    /// The stream ended, or failed.
    pub fn ended(&mut self)
        requires
            old(self).wf(),
        ensures
            final(self).wf(),
            !final(self).streaming,
            final(self).ahead() == old(self).ahead(),
            final(self).pos == old(self).pos,
            final(self).len == old(self).len,
            final(self).path == old(self).path,
    {
        self.streaming = false;
    }

    /// Take up to `want` of the bytes at hand.
    pub fn take(&mut self, want: usize) -> (r: Vec<u8>)
        requires
            old(self).wf(),
        ensures
            final(self).wf(),
            ({
                let n = if want <= old(self).ahead().len() {
                    want as int
                } else {
                    old(self).ahead().len() as int
                };
                &&& r@ == old(self).ahead().take(n)
                &&& final(self).ahead() == old(self).ahead().skip(n)
                &&& final(self).pos == old(self).pos + n
            }),
            final(self).len == old(self).len,
            final(self).path == old(self).path,
            final(self).streaming == old(self).streaming,
    {
        let ghost ahead = self.ahead();
        let left: usize = self.pending.len() - self.taken;
        let n: usize = if want <= left {
            want
        } else {
            left
        };
        let mut r: Vec<u8> = Vec::new();
        let mut i: usize = 0;
        while i < n
            invariant
                i <= n <= left,
                self.taken + left == self.pending@.len(),
                self.pending@.len() <= usize::MAX,
                ahead == self.pending@.skip(self.taken as int),
                r@ == ahead.take(i as int),
                *self == *old(self),
            decreases n - i,
        {
            r.push(self.pending[self.taken + i]);
            i = i + 1;
            assert(r@ =~= ahead.take(i as int));
        }
        self.taken = self.taken + n;
        self.pos = self.pos + n as u64;
        assert(self.ahead() =~= ahead.skip(n as int));
        r
    }

    /// Move to another place in the file. Forwards within the chunk already here
    /// costs nothing; anywhere else needs a new stream.
    pub fn seek(&mut self, to: SeekFrom) -> (r: Result<u64, String>)
        requires
            old(self).wf(),
        ensures
            final(self).wf(),
            final(self).len == old(self).len,
            final(self).path == old(self).path,
            match landing(old(self).len, old(self).pos, to) {
                None => r matches Err(why) && why@ == "seek before start"@ && *final(self)
                    == *old(self),
                Some(at) => {
                    let step = at - old(self).pos;
                    &&& r == Ok::<u64, String>(at)
                    &&& final(self).pos == at
                    &&& if 0 <= step <= old(self).ahead().len() {
                        final(self).ahead() == old(self).ahead().skip(step)
                            && final(self).streaming == old(self).streaming
                    } else {
                        final(self).ahead().len() == 0 && !final(self).streaming
                    }
                },
            },
    {
        let target: u64 = match net::seek_target(self.len, self.pos, to) {
            None => {
                return Err("seek before start".to_owned());
            },
            Some(target) => target,
        };
        if target == self.pos {
            assert(self.ahead().skip(0) =~= self.ahead());
            return Ok(self.pos);
        }
        let ahead: usize = self.pending.len() - self.taken;
        if target > self.pos && target - self.pos <= ahead as u64 {
            let ghost was = self.ahead();
            let step: usize = (target - self.pos) as usize;
            self.taken = self.taken + step;
            assert(self.ahead() =~= was.skip(step as int));
        } else {
            self.streaming = false;
            self.pending = Vec::new();
            self.taken = 0;
        }
        self.pos = target;
        Ok(self.pos)
    }
}

/// Bytes taken from a remote file are the bytes of the file at that place, and what
/// is left at hand still agrees with it.
pub proof fn law_reads_like_a_local_file(
    before: RemoteFile,
    after: RemoteFile,
    file: Seq<u8>,
    n: int,
)
    requires
        before.agrees(file),
        0 <= n <= before.ahead().len(),
        after.wf(),
        after.len == before.len,
        after.pos == before.pos + n,
        after.ahead() == before.ahead().skip(n),
    ensures
        before.ahead().take(n) == file.subrange(before.pos as int, before.pos + n),
        after.agrees(file),
{
    assert(before.ahead().take(n) =~= file.subrange(before.pos as int, before.pos + n));
    assert(after.ahead() =~= file.subrange(
        after.pos as int,
        after.pos + after.ahead().len(),
    ));
}

/// A chunk read from the file at the current offset leaves the bytes at hand in
/// agreement with the file.
pub proof fn law_chunks_keep_agreement(after: RemoteFile, file: Seq<u8>, n: int)
    requires
        after.wf(),
        after.len == file.len(),
        0 <= n,
        after.pos + n <= file.len(),
        after.ahead() == file.subrange(after.pos as int, after.pos + n),
    ensures
        after.agrees(file),
{
}

// ---------------------------------------------------------------------------
// What addresses, sizes and walks come to
// ---------------------------------------------------------------------------

/// A plain host: nothing in it that an address reads as something else.
pub open spec fn is_plain_host(host: Seq<char>) -> bool {
    &&& host.len() > 0
    &&& !host.contains('/')
    &&& !host.contains('@')
    &&& !host.contains(']')
}

/// A host is reached at the port it names, and at the usual one when it names none; one
/// in brackets names a port only behind them.
pub proof fn law_the_usual_port_is_understood(host: Seq<char>, port: Seq<char>)
    requires
        !host.contains(']'),
        !port.contains(']'),
    ensures
        host.contains(':') ==> with_port(host) == host,
        !host.contains(':') ==> with_port(host) == host + ":7700"@,
        with_port(seq!['['] + host + seq![']']) == seq!['['] + host + seq![']'] + ":7700"@,
        with_port(seq!['['] + host + seq![']', ':'] + port) == seq!['['] + host + seq![']', ':']
            + port,
{
    lemma_rfind_absent(host, ']');
    let a = seq!['['] + host + seq![']'];
    let at: int = host.len() as int + 1;
    paths::lemma_rfind_is(a, ']', at);
    let tail = seq![']'];
    assert(a.skip(at) =~= tail);
    if tail.contains(':') {
        let j = choose|j: int| 0 <= j < tail.len() && #[trigger] tail[j] == ':';
        assert(j == 0);
    }
    let b = seq!['['] + host + seq![']', ':'] + port;
    assert forall|i: int| at < i < b.len() implies #[trigger] b[i] != ']' by {
        if i > at + 1 {
            assert(b[i] == port[i - at - 2]);
            assert(port.contains(port[i - at - 2]));
        }
    }
    paths::lemma_rfind_is(b, ']', at);
    assert(b.skip(at)[1] == ':');
    assert(b.skip(at).contains(':'));
}

proof fn lemma_address(front: Seq<char>, host: Seq<char>, path: Seq<char>)
    requires
        is_plain_host(host),
        !front.contains('/'),
        front.len() > 0 ==> front.last() == '@',
        path.len() > 0 ==> path[0] == '/',
    ensures
        address(scheme() + front + host + path) == Ok::<AddressV, Seq<char>>(
            AddressV {
                token: if front.len() > 0 {
                    Some(front.drop_last())
                } else {
                    None
                },
                authority: with_port(host),
                path: if path.len() > 0 {
                    path
                } else {
                    "/"@
                },
            },
        ),
{
    let url = scheme() + front + host + path;
    let rest = url.skip(scheme().len() as int);
    assert(url.take(scheme().len() as int) =~= scheme());
    let authority = front + host;
    assert(rest =~= authority + path);
    assert forall|i: int| 0 <= i < authority.len() implies #[trigger] rest[i] != '/' by {
        assert(rest[i] == authority[i]);
        if i < front.len() {
            assert(authority[i] == front[i]);
            assert(front.contains(front[i]));
        } else {
            assert(authority[i] == host[i - front.len()]);
            assert(host.contains(host[i - front.len()]));
        }
    }
    lemma_find_is(rest, '/', authority.len());
    assert(rest.take(authority.len() as int) =~= authority);
    assert forall|i: int| front.len() - 1 < i < authority.len() implies #[trigger] authority[i]
        != '@' by {
        assert(authority[i] == host[i - front.len()]);
        assert(host.contains(host[i - front.len()]));
    }
    if front.len() > 0 {
        assert(authority[front.len() - 1] == front.last());
    }
    paths::lemma_rfind_is(authority, '@', front.len() - 1);
    assert(host_part(authority) =~= host);
    if front.len() > 0 {
        assert(authority.take(front.len() - 1) =~= front.drop_last());
    }
    if path.len() > 0 {
        assert(rest.skip(authority.len() as int) =~= path);
    }
}

/// An address is a token where it has one, a host, and a path where it has one, and comes
/// apart into them.
pub proof fn law_an_address_comes_apart(token: Seq<char>, host: Seq<char>, path: Seq<char>)
    requires
        is_plain_host(host),
        !token.contains('/'),
        path.len() > 0 ==> path[0] == '/',
    ensures
        address(scheme() + host + path) matches Ok(a) && a.token is None && a.authority
            == with_port(host) && (path.len() > 0 ==> a.path == path),
        address(scheme() + token + seq!['@'] + host + path) matches Ok(a) && a.token == Some(token)
            && a.authority == with_port(host) && (path.len() > 0 ==> a.path == path),
{
    let none = Seq::<char>::empty();
    lemma_address(none, host, path);
    assert(scheme() + none + host + path =~= scheme() + host + path);
    let front = token + seq!['@'];
    assert forall|i: int| 0 <= i < front.len() implies #[trigger] front[i] != '/' by {
        if i < token.len() {
            assert(front[i] == token[i]);
            assert(token.contains(token[i]));
        }
    }
    lemma_address(front, host, path);
    assert(front.drop_last() =~= token);
    assert(scheme() + front + host + path =~= scheme() + token + seq!['@'] + host + path);
}

/// What is not an address is refused, and so is one without a host.
pub proof fn law_other_text_is_no_server(url: Seq<char>, path: Seq<char>)
    ensures
        !has_scheme(url) ==> address(url) is Err,
        address(scheme()) is Err,
        path.len() > 0 && path[0] == '/' ==> address(scheme() + path) is Err,
{
    reveal(has_scheme);
    let whole = scheme() + path;
    assert(whole.take(scheme().len() as int) =~= scheme());
    assert(whole.skip(scheme().len() as int) =~= path);
    assert(scheme().take(scheme().len() as int) =~= scheme());
    assert(scheme().skip(scheme().len() as int) =~= seq![]);
    let none = Seq::<char>::empty();
    lemma_rfind_absent(none, '@');
    assert(host_part(none) =~= none);
    if path.len() > 0 && path[0] == '/' {
        lemma_find_is(path, '/', 0);
        assert(path.take(0) =~= none);
    }
    lemma_find_is(none, '/', 0);
    assert(none.take(0) =~= none);
}

/// A server can be typed by its host alone or with its token, and is kept without it, at
/// the port it is reached at.
pub proof fn law_a_typed_server_is_kept(token: Seq<char>, host: Seq<char>)
    requires
        is_plain_host(host),
        !host.contains('&'),
        text::is_trimmed(host),
        !has_scheme(host),
        token.len() > 0,
        !token.contains('/'),
        text::is_trimmed(token),
        !has_scheme(token + seq!['@'] + host),
    ensures
        kept_address(host) == Ok::<(Seq<char>, Option<Seq<char>>), Seq<char>>(
            (scheme() + with_port(host), None),
        ),
        kept_address(token + seq!['@'] + host) == Ok::<(Seq<char>, Option<Seq<char>>), Seq<char>>(
            (scheme() + with_port(host), Some(token)),
        ),
        kept_address(scheme() + host) == kept_address(host),
{
    reveal_strlit(":7700");
    reveal_strlit("tuneterm://");
    let none = Seq::<char>::empty();
    law_an_address_comes_apart(token, host, none);
    assert(scheme() + host + none =~= scheme() + host);
    let with_token = token + seq!['@'] + host;
    assert(scheme() + token + seq!['@'] + host + none =~= scheme() + with_token);
    text::lemma_trimmed(host);
    text::lemma_trimmed(with_token);
    assert(with_token[0] == token[0] && with_token.last() == host.last());
    text::lemma_trimmed(scheme() + host);
    assert((scheme() + host)[0] == 't' && (scheme() + host).last() == host.last());
    assert(has_scheme(scheme() + host)) by {
        reveal(has_scheme);
        assert((scheme() + host).take(scheme().len() as int) =~= scheme());
    }
    let a = with_port(host);
    assert forall|i: int| 0 <= i < a.len() implies #[trigger] a[i] != '&' by {
        if i < host.len() {
            assert(a[i] == host[i]);
            assert(host.contains(host[i]));
        }
    }
}

/// The token in an address counts before the one that is kept, and it is sent as a
/// bearer's; without either nothing is sent, and one that no header can carry is
/// refused.
pub proof fn law_the_token_is_sent(token: Seq<char>, kept: Seq<char>, host: Seq<char>)
    requires
        is_plain_host(host),
        token.len() > 0,
        !token.contains('/'),
        is_header(token),
        kept.len() > 0,
        is_header(kept),
    ensures
        connection(scheme() + token + seq!['@'] + host, Some(kept), None) matches Ok(s)
            && s.authority == with_port(host) && s.bearer == Some("Bearer "@ + token),
        connection(scheme() + host, Some(kept), None) matches Ok(s) && s.authority == with_port(
            host,
        ) && s.bearer == Some("Bearer "@ + kept),
        connection(scheme() + host, None, None) matches Ok(s) && s.bearer is None,
        connection(scheme() + host, Some(seq!['\n'] + kept), None) is Err,
{
    reveal_strlit("Bearer ");
    let none = Seq::<char>::empty();
    law_an_address_comes_apart(token, host, none);
    assert(scheme() + host + none =~= scheme() + host);
    assert(scheme() + token + seq!['@'] + host + none =~= scheme() + token + seq!['@'] + host);
    lemma_header("Bearer "@, token);
    lemma_header("Bearer "@, kept);
    let bad = "Bearer "@ + (seq!['\n'] + kept);
    assert(bad[7] == '\n');
    assert(!is_header_char(bad[7]));
}

proof fn lemma_header(a: Seq<char>, b: Seq<char>)
    requires
        is_header(a),
        is_header(b),
    ensures
        is_header(a + b),
{
    let c = a + b;
    assert forall|i: int| 0 <= i < c.len() implies is_header_char(#[trigger] c[i]) by {
        if i < a.len() {
            assert(c[i] == a[i]);
        } else {
            assert(c[i] == b[i - a.len()]);
        }
    }
}

/// A track of a server is what the server says of it, found at its place there.
pub proof fn law_a_listed_track_keeps_what_it_says(authority: Seq<char>, t: ListedTrack)
    requires
        is_authority(authority),
    ensures
        ({
            let track = served_track(authority, t);
            &&& track.title == t.title@
            &&& track.artist == t.artist@
            &&& track.album == t.album@
            &&& has_scheme(track.path)
            &&& authority_in(track.path) == Some(authority)
            &&& path_in(track.path) == stripped(t.path@, '/')
            &&& track.url == Some(track.path)
            &&& track.art_url == Some(track.path)
            &&& match (t.duration_ms, track.duration) {
                (Some(ms), Some(d)) => d.total() == ms * 1_000_000 && d.nanos < 1_000_000_000,
                (None, None) => true,
                _ => false,
            }
            &&& match track.stars {
                Some(n) => n == t.stars && n > 0,
                None => t.stars == 0,
            }
        }),
{
    law_addresses_lead_back(authority, t.path@);
}

/// Paths of a server are put together with one slash between them, however many the
/// parts bring along.
pub proof fn law_server_paths_join(dir: Seq<char>, name: Seq<char>)
    requires
        text::is_stripped(dir, '/'),
        text::is_stripped(name, '/'),
        dir.len() > 0,
        name.len() > 0,
    ensures
        joined_path(dir, name) == dir + "/"@ + name,
        joined_path(seq!['/'] + dir, name) == dir + "/"@ + name,
        joined_path(seq![], name) == name,
        joined_path(dir, seq![]) == dir,
{
    lemma_stripped(dir, '/');
    lemma_stripped(name, '/');
    let none = Seq::<char>::empty();
    lemma_stripped(none, '/');
    let more = seq!['/'] + dir;
    assert(more[0] == '/');
    assert(more.skip(1) =~= dir);
    assert(text::stripped_start(more, '/') == text::stripped_start(dir, '/'));
}

/// A push sends every file that is not hidden, in the order they come, and what is in
/// every folder that is not hidden; and nothing else.
pub proof fn law_what_is_not_hidden_is_sent(before: Seq<Entry>, entry: Entry, after: Seq<Entry>)
    ensures
        sendable(before + seq![entry] + after) == sendable(before) + (match entry {
            Entry::File { path, time } => if is_dotted(path@) {
                seq![]
            } else {
                seq![path@]
            },
            Entry::Dir { path, time, entries } => if is_dotted(path@) {
                seq![]
            } else {
                sendable(entries@)
            },
        }) + sendable(after),
    decreases after.len(),
{
    let all = before + seq![entry] + after;
    if after.len() == 0 {
        assert(all.drop_last() =~= before);
        assert(all.last() == entry);
        assert(sendable(after) =~= seq![]);
        assert(sendable(all) =~= sendable(all) + sendable(after));
    } else {
        law_what_is_not_hidden_is_sent(before, entry, after.drop_last());
        assert(all.drop_last() =~= before + seq![entry] + after.drop_last());
        assert(all.last() == after.last());
        let here = match entry {
            Entry::File { path, time } => if is_dotted(path@) {
                seq![]
            } else {
                seq![path@]
            },
            Entry::Dir { path, time, entries } => if is_dotted(path@) {
                seq![]
            } else {
                sendable(entries@)
            },
        };
        let last = match after.last() {
            Entry::File { path, time } => if is_dotted(path@) {
                seq![]
            } else {
                seq![path@]
            },
            Entry::Dir { path, time, entries } => if is_dotted(path@) {
                seq![]
            } else {
                sendable(entries@)
            },
        };
        assert(sendable(after) == sendable(after.drop_last()) + last);
        assert(sendable(all) == sendable(before) + here + sendable(after.drop_last()) + last);
        assert(sendable(all) =~= sendable(before) + here + sendable(after));
    }
}

/// What is hidden is what has a name that starts with a dot.
pub proof fn law_a_dot_hides(dir: Seq<char>, name: Seq<char>)
    requires
        dir.len() > 0,
        paths::is_entry(name),
    ensures
        is_dotted(paths::within(dir, name)) == (name[0] == '.'),
{
    paths::law_entries_lie_in_their_folder(dir, name);
}

/// When every file arrives, a push has sent them all, each with its own size, and only
/// those that were there already are marked so.
pub proof fn law_a_push_sends_everything(
    parcels: Seq<(Seq<char>, Seq<char>)>,
    given: Seq<Result<Answer, Seq<char>>>,
)
    requires
        given.len() <= parcels.len() <= usize::MAX,
        forall|i: int|
            0 <= i < given.len() ==> (#[trigger] given[i] matches Ok(a) && a.confirmed == a.size),
    ensures
        ({
            let p = push_run(parcels, given);
            &&& p.error is None
            &&& p.total == parcels.len()
            &&& p.done.len() == given.len()
            &&& forall|i: int|
                0 <= i < given.len() ==> {
                    let a = given[i]->Ok_0;
                    let sent = #[trigger] p.done[i];
                    &&& sent.local == parcels[i].0
                    &&& sent.remote == parcels[i].1
                    &&& sent.size == a.size
                    &&& sent.skipped == (a.there.exists && !a.there.is_dir && a.there.size == a.size)
                }
        }),
    decreases given.len(),
{
    if given.len() > 0 {
        let rest = given.drop_last();
        assert forall|i: int| 0 <= i < rest.len() implies (#[trigger] rest[i] matches Ok(a)
            && a.confirmed == a.size) by {
            assert(rest[i] == given[i]);
        }
        law_a_push_sends_everything(parcels, rest);
        assert(given.last() == given[given.len() - 1]);
        let q = push_run(parcels, rest);
        let p = push_run(parcels, given);
        assert forall|i: int| 0 <= i < given.len() implies {
            let a = given[i]->Ok_0;
            let sent = #[trigger] p.done[i];
            &&& sent.local == parcels[i].0
            &&& sent.remote == parcels[i].1
            &&& sent.size == a.size
            &&& sent.skipped == (a.there.exists && !a.there.is_dir && a.there.size == a.size)
        } by {
            if i < q.done.len() {
                assert(p.done[i] == q.done[i]);
                assert(given[i] == rest[i]);
            }
        }
    }
}

/// A size is shown to the nearest tenth of its unit, which is the largest that the size
/// reaches; below a thousand and twenty-four it is shown to the byte.
pub proof fn law_a_size_is_shown_to_the_nearest_tenth(size: nat)
    ensures
        size < 1024 ==> human_size(size) == decimal(size) + " B"@,
        size >= 1024 ==> ({
            let (name, unit) = unit_of(size);
            let t = tenths(size, unit);
            &&& unit <= size
            &&& size < 1024 * unit || name == " TB"@
            &&& -(unit as int) <= 2 * (t * unit - size * 10) <= unit
            &&& human_size(size) == decimal(t / 10) + "."@ + decimal(t % 10) + name
            &&& name == " KB"@ && unit == 1024 || name == " MB"@ && unit == 1024 * 1024 || name
                == " GB"@ && unit == 1024 * 1024 * 1024 || name == " TB"@ && unit == 1024 * 1024
                * 1024 * 1024
        }),
{
    if size >= 1024 {
        let (name, unit) = unit_of(size);
        let whole = (size * 10) as int / unit as int;
        let rest = (size * 10) as int % unit as int;
        vstd::arithmetic::div_mod::lemma_fundamental_div_mod((size * 10) as int, unit as int);
        let t = tenths(size, unit);
        assert(0 <= rest < unit);
        assert(whole * unit == unit * whole) by (nonlinear_arith);
        assert((whole + 1) * unit == whole * unit + unit) by (nonlinear_arith);
        reveal_strlit(".");
        assert(decimal(t % 10) =~= seq![digit(t % 10)]);
        assert(seq!['.', digit(t % 10)] =~= "."@ + decimal(t % 10));
        assert(decimal(t / 10) + seq!['.', digit(t % 10)] + name =~= decimal(t / 10) + "."@
            + decimal(t % 10) + name);
    }
}

/// What was sent is counted apart from what was there: adding a file that was there
/// counts it and none of its bytes, and adding one that was not counts its bytes.
pub proof fn law_only_what_was_sent_is_counted(done: Seq<SentV>, more: SentV)
    ensures
        skipped_in(done.push(more)) == skipped_in(done) + (if more.skipped {
            1int
        } else {
            0
        }),
        bytes_in(done.push(more)) == bytes_in(done) + (if more.skipped {
            0int
        } else {
            more.size as int
        }),
        skipped_in(seq![]) == 0,
        bytes_in(seq![]) == 0,
{
    assert(done.push(more).drop_last() =~= done);
}

/// A failed call is told in the server's own words, except where a person is helped more
/// by others; a call that failed without a word is told by its kind.
pub proof fn law_failures_are_told_plainly(code: Code, message: Seq<char>)
    ensures
        code != Code::Unavailable && code != Code::Unauthenticated && code
            != Code::DeadlineExceeded && code != Code::Unimplemented ==> {
            &&& message.len() > 0 ==> description(code, message) == message
            &&& message.len() == 0 ==> description(code, message) == code.title()
        },
        description(Code::Unavailable, message) == "server unreachable: "@ + message,
        description(Code::Unauthenticated, message) == "wrong or missing token for the server"@,
        description(Code::DeadlineExceeded, message) == "the server took too long"@,
{
}

/// The transport is asked about the host and the port of an address, and nothing more.
pub proof fn law_the_transport_is_asked_about_the_host(
    token: Seq<char>,
    host: Seq<char>,
    path: Seq<char>,
)
    requires
        is_plain_host(host),
        !token.contains('/'),
        path.len() > 0 ==> path[0] == '/',
    ensures
        uri_of(scheme() + host + path) == "http://"@ + with_port(host),
        uri_of(scheme() + token + seq!['@'] + host + path) == "http://"@ + with_port(host),
{
    law_an_address_comes_apart(token, host, path);
}

} // verus!
