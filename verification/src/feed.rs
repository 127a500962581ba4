//! Reading a podcast or mixtape RSS feed.
//!
//! Only the fields the interface shows: title, enclosure, duration, author, artwork.
//! Anything absent comes back empty rather than failing the whole feed, because one
//! malformed item should not cost the others.
//!
//! The XML itself is taken apart by `quick_xml`. What its pieces add up to is decided
//! here, by [`channel_of`], which is a function of the pieces alone.

use vstd::prelude::*;
use vstd::utf8::{decode_utf8, valid_utf8};
use quick_xml::events::{BytesStart, Event};
use quick_xml::{Reader, XmlVersion};
use crate::paths;
use crate::text::{self, number, opt_view, pieces, trimmed, views};
use crate::time::Duration;

verus! {

/// One item of a feed.
#[derive(Debug, PartialEq, Eq)]
pub struct Episode {
    pub title: String,
    pub author: String,
    /// Where the audio is. An item without one is not playable and is dropped.
    pub url: String,
    pub duration: Option<Duration>,
    /// Per-item artwork, falling back to the channel's.
    pub art_url: Option<String>,
}

/// What an [`Episode`] holds.
pub ghost struct EpisodeV {
    pub title: Seq<char>,
    pub author: Seq<char>,
    pub url: Seq<char>,
    pub duration: Option<Duration>,
    pub art_url: Option<Seq<char>>,
}

impl View for Episode {
    type V = EpisodeV;

    open spec fn view(&self) -> EpisodeV {
        EpisodeV {
            title: self.title@,
            author: self.author@,
            url: self.url@,
            duration: self.duration,
            art_url: opt_view(self.art_url),
        }
    }
}

impl EpisodeV {
    /// An item of which nothing is known yet.
    pub open spec fn blank() -> EpisodeV {
        EpisodeV {
            title: seq![],
            author: seq![],
            url: seq![],
            duration: None,
            art_url: None,
        }
    }
}

/// A whole feed.
#[derive(Debug, PartialEq, Eq)]
pub struct Channel {
    pub title: String,
    pub episodes: Vec<Episode>,
}

/// What a [`Channel`] holds.
pub ghost struct ChannelV {
    pub title: Seq<char>,
    pub episodes: Seq<EpisodeV>,
}

pub open spec fn episodes_view(v: Seq<Episode>) -> Seq<EpisodeV> {
    Seq::new(v.len(), |i: int| v[i]@)
}

impl View for Channel {
    type V = ChannelV;

    open spec fn view(&self) -> ChannelV {
        ChannelV { title: self.title@, episodes: episodes_view(self.episodes@) }
    }
}

// ---------------------------------------------------------------------------
// The pieces of a document
// ---------------------------------------------------------------------------

/// The opening of an element as it stands in the document: its name, and everything
/// between the angle brackets, the name first.
#[derive(Debug)]
pub struct RawTag {
    pub name: Vec<u8>,
    pub body: Vec<u8>,
}

/// One step through an XML document.
#[derive(Debug)]
pub enum Raw {
    Eof,
    Bad(String),
    Start(RawTag),
    Empty(RawTag),
    End(Vec<u8>),
    Text(String),
    CData(Vec<u8>),
    Other,
}

/// What a [`Raw`] step holds.
pub ghost enum RawV {
    Eof,
    Bad(Seq<char>),
    Start(Seq<u8>, Seq<u8>),
    Empty(Seq<u8>, Seq<u8>),
    End(Seq<u8>),
    Text(Seq<char>),
    CData(Seq<u8>),
    Other,
}

impl View for Raw {
    type V = RawV;

    open spec fn view(&self) -> RawV {
        match self {
            Raw::Eof => RawV::Eof,
            Raw::Bad(why) => RawV::Bad(why@),
            Raw::Start(tag) => RawV::Start(tag.name@, tag.body@),
            Raw::Empty(tag) => RawV::Empty(tag.name@, tag.body@),
            Raw::End(name) => RawV::End(name@),
            Raw::Text(text) => RawV::Text(text@),
            Raw::CData(data) => RawV::CData(data@),
            Raw::Other => RawV::Other,
        }
    }
}

/// A step after which nothing more is read.
pub open spec fn is_last(step: RawV) -> bool {
    step is Eof || step is Bad
}

/// Steps that end, and only at the end.
pub open spec fn well_ended(steps: Seq<RawV>) -> bool {
    &&& steps.len() > 0
    &&& is_last(steps.last())
    &&& forall|i: int| 0 <= i < steps.len() - 1 ==> !is_last(#[trigger] steps[i])
}

/// The reader of `quick_xml`, over text held in memory.
#[verifier::external_type_specification]
#[verifier::external_body]
#[verifier::reject_recursive_types(R)]
pub struct ExReader<R>(Reader<R>);

/// The steps `quick_xml` takes through a document, up to the first that is the end
/// of the document or an error.
pub uninterp spec fn steps_through(xml: Seq<char>) -> Seq<RawV>;

/// The steps a reader has still to take, up to the first that is the end of the
/// document or an error. A reader at the end stays there.
pub uninterp spec fn steps_left(reader: Reader<&[u8]>) -> Seq<RawV>;

/// The value of an attribute in the opening of an element, given everything between
/// the angle brackets and the length of the element's name.
pub uninterp spec fn attribute_in(body: Seq<u8>, name_len: nat, key: Seq<char>) -> Option<
    Seq<char>,
>;

/// Bytes as text, with anything that is not UTF-8 replaced.
pub uninterp spec fn lossy_text(bytes: Seq<u8>) -> Seq<char>;

/// `quick_xml::Reader::from_str`, set to trim text by `Config::trim_text`. The reader
/// starts at the beginning of the document. Every document comes to an end: each step
/// that is neither the end nor an error takes up some of the text.
#[verifier::external_body]
fn open_reader<'a>(xml: &'a str) -> (reader: Reader<&'a [u8]>)
    ensures
        steps_left(reader) == steps_through(xml@),
        well_ended(steps_left(reader)),
{
    let mut reader = Reader::from_str(xml);
    reader.config_mut().trim_text(true);
    reader
}

/// `quick_xml::Reader::read_event` takes the next step. A text event comes back
/// decoded, and as nothing at all when it cannot be; a start or an empty tag holds
/// its name at the front of its content. Which step it is, is not stated beyond its
/// being the first of those left, nor what a reader does after an end or an error.
#[verifier::external_body]
fn next_step(reader: &mut Reader<&[u8]>) -> (step: Raw)
    requires
        steps_left(*old(reader)).len() > 0,
    ensures
        step@ == steps_left(*old(reader))[0],
        !is_last(step@) ==> steps_left(*final(reader)) == steps_left(*old(reader)).skip(1),
        step matches Raw::Start(tag) ==> tag.name@.len() <= tag.body@.len(),
        step matches Raw::Empty(tag) ==> tag.name@.len() <= tag.body@.len(),
{
    match reader.read_event() {
        Ok(event) => match event {
            Event::Eof => Raw::Eof,
            Event::Start(t) => Raw::Start(RawTag { name: t.name().0.to_vec(), body: t.to_vec() }),
            Event::Empty(t) => Raw::Empty(RawTag { name: t.name().0.to_vec(), body: t.to_vec() }),
            Event::End(t) => Raw::End(t.name().0.to_vec()),
            Event::Text(t) => t.decode().map_or(Raw::Other, |text| Raw::Text(text.into_owned())),
            Event::CData(data) => Raw::CData(data.to_vec()),
            _ => Raw::Other,
        },
        Err(why) => Raw::Bad(why.to_string()),
    }
}

/// `quick_xml`'s `BytesStart::try_get_attribute` finds an attribute by its name, and
/// `Attribute::normalized_value` reads it by the rules of XML 1.0. An attribute that
/// cannot be read counts as absent.
#[verifier::external_body]
fn raw_attribute(tag: &RawTag, key: &str) -> (value: Option<String>)
    requires
        tag.name@.len() <= tag.body@.len(),
    ensures
        opt_view(value) == attribute_in(tag.body@, tag.name@.len(), key@),
{
    let content = String::from_utf8_lossy(&tag.body);
    let start = BytesStart::from_content(content, tag.name.len());
    let found = start.try_get_attribute(key).ok().flatten()?;
    let value = found.normalized_value(XmlVersion::Implicit1_0).ok()?;
    Some(value.into_owned())
}

/// `String::from_utf8_lossy` keeps text that is UTF-8 and replaces what is not.
#[verifier::external_body]
fn lossy(bytes: &[u8]) -> (s: String)
    ensures
        s@ == lossy_text(bytes@),
        valid_utf8(bytes@) ==> s@ == decode_utf8(bytes@),
{
    String::from_utf8_lossy(bytes).into_owned()
}

// ---------------------------------------------------------------------------
// What the pieces mean
// ---------------------------------------------------------------------------

/// A name without its `ns:` prefix, in small letters. Namespaces are noise here:
/// `itunes:duration` and a bare `duration` mean the same thing.
pub open spec fn local(name: Seq<char>) -> Seq<char> {
    text::lowered(name.skip(paths::rfind(name, ':') + 1))
}

/// The local name of an element, from its bytes.
pub fn local_name(raw: &[u8]) -> (r: String)
    ensures
        r@ == local(lossy_text(raw@)),
        valid_utf8(raw@) ==> r@ == local(decode_utf8(raw@)),
{
    let name = lossy(raw);
    match paths::after_last(name.as_str(), ':') {
        Some(rest) => text::lower(rest.as_str()),
        None => {
            assert(name@.skip(0) =~= name@);
            text::lower(name.as_str())
        },
    }
}

/// A step through a feed, with the two attributes a feed is read for.
#[derive(Debug)]
pub enum Node {
    /// An element begins.
    Open { name: String, url: Option<String>, href: Option<String> },
    /// An element that begins and ends at once.
    Leaf { name: String, url: Option<String>, href: Option<String> },
    /// An element ends.
    Close { name: String },
    /// Text inside whatever element is open.
    Words { text: String },
}

/// What a [`Node`] holds.
pub ghost enum NodeV {
    Open { name: Seq<char>, url: Option<Seq<char>>, href: Option<Seq<char>> },
    Leaf { name: Seq<char>, url: Option<Seq<char>>, href: Option<Seq<char>> },
    Close { name: Seq<char> },
    Words { text: Seq<char> },
}

impl View for Node {
    type V = NodeV;

    open spec fn view(&self) -> NodeV {
        match self {
            Node::Open { name, url, href } => NodeV::Open {
                name: name@,
                url: opt_view(*url),
                href: opt_view(*href),
            },
            Node::Leaf { name, url, href } => NodeV::Leaf {
                name: name@,
                url: opt_view(*url),
                href: opt_view(*href),
            },
            Node::Close { name } => NodeV::Close { name: name@ },
            Node::Words { text } => NodeV::Words { text: text@ },
        }
    }
}

pub open spec fn nodes_view(v: Seq<Node>) -> Seq<NodeV> {
    Seq::new(v.len(), |i: int| v[i]@)
}

/// An attribute worth having: present, and not blank.
pub open spec fn useful(value: Option<Seq<char>>) -> Option<Seq<char>> {
    match value {
        Some(v) => if trimmed(v).len() > 0 {
            Some(trimmed(v))
        } else {
            None
        },
        None => None,
    }
}

/// The attribute `key` of an element called `wanted`, and nothing for any other.
pub open spec fn attribute_for(
    name: Seq<u8>,
    body: Seq<u8>,
    wanted: Seq<char>,
    key: Seq<char>,
) -> Option<Seq<char>> {
    if local(lossy_text(name)) == wanted {
        useful(attribute_in(body, name.len(), key))
    } else {
        None
    }
}

/// What a step through the document means, if anything.
pub open spec fn node_of(step: RawV) -> Option<NodeV> {
    match step {
        RawV::Start(name, body) => Some(
            NodeV::Open {
                name: local(lossy_text(name)),
                url: attribute_for(name, body, "enclosure"@, "url"@),
                href: attribute_for(name, body, "image"@, "href"@),
            },
        ),
        RawV::Empty(name, body) => Some(
            NodeV::Leaf {
                name: local(lossy_text(name)),
                url: attribute_for(name, body, "enclosure"@, "url"@),
                href: attribute_for(name, body, "image"@, "href"@),
            },
        ),
        RawV::End(name) => Some(NodeV::Close { name: local(lossy_text(name)) }),
        RawV::Text(text) => Some(NodeV::Words { text: trimmed(text) }),
        RawV::CData(data) => Some(NodeV::Words { text: trimmed(lossy_text(data)) }),
        _ => None,
    }
}

/// What a run of steps means.
pub open spec fn nodes_of(steps: Seq<RawV>) -> Seq<NodeV>
    decreases steps.len(),
{
    if steps.len() == 0 {
        seq![]
    } else {
        match node_of(steps.last()) {
            Some(node) => nodes_of(steps.drop_last()).push(node),
            None => nodes_of(steps.drop_last()),
        }
    }
}

/// A feed while it is being read.
pub ghost struct ReadingV {
    /// The elements that are open, outermost first.
    pub path: Seq<Seq<char>>,
    pub item: Option<EpisodeV>,
    pub title: Seq<char>,
    pub episodes: Seq<EpisodeV>,
    pub art: Option<Seq<char>>,
}

impl ReadingV {
    pub open spec fn start() -> ReadingV {
        ReadingV { path: seq![], item: None, title: seq![], episodes: seq![], art: None }
    }

    /// What an element's attributes add.
    pub open spec fn attributes(
        self,
        name: Seq<char>,
        url: Option<Seq<char>>,
        href: Option<Seq<char>>,
    ) -> ReadingV {
        if name == "enclosure"@ {
            match (self.item, url) {
                (Some(e), Some(u)) => ReadingV { item: Some(EpisodeV { url: u, ..e }), ..self },
                _ => self,
            }
        } else if name == "image"@ {
            match self.item {
                Some(e) => ReadingV { item: Some(EpisodeV { art_url: href, ..e }), ..self },
                None => if self.art is None {
                    ReadingV { art: href, ..self }
                } else {
                    self
                },
            }
        } else {
            self
        }
    }

    /// What text adds, inside the innermost open element. An item's own fields come
    /// first; only outside of any item can a title be the channel's.
    pub open spec fn words(self, text: Seq<char>) -> ReadingV {
        if text.len() == 0 || self.path.len() == 0 {
            self
        } else {
            let element = self.path.last();
            match self.item {
                Some(e) => if element == "title"@ {
                    ReadingV { item: Some(EpisodeV { title: text, ..e }), ..self }
                } else if element == "creator"@ || element == "author"@ {
                    if e.author.len() == 0 {
                        ReadingV { item: Some(EpisodeV { author: text, ..e }), ..self }
                    } else {
                        self
                    }
                } else if element == "duration"@ {
                    ReadingV {
                        item: Some(EpisodeV { duration: duration_in(text), ..e }),
                        ..self
                    }
                } else {
                    self
                },
                None => if element == "title"@ && self.title.len() == 0 {
                    ReadingV { title: text, ..self }
                } else {
                    self
                },
            }
        }
    }

    /// One step.
    pub open spec fn after(self, node: NodeV) -> ReadingV {
        match node {
            NodeV::Open { name, url, href } => {
                let begun = if name == "item"@ {
                    ReadingV { item: Some(EpisodeV::blank()), ..self }
                } else {
                    self
                };
                let read = begun.attributes(name, url, href);
                ReadingV { path: read.path.push(name), ..read }
            },
            NodeV::Leaf { name, url, href } => self.attributes(name, url, href),
            NodeV::Close { name } => {
                let path = if self.path.len() > 0 {
                    self.path.drop_last()
                } else {
                    self.path
                };
                if name == "item"@ {
                    match self.item {
                        Some(e) => ReadingV {
                            path,
                            item: None,
                            episodes: if e.url.len() > 0 {
                                self.episodes.push(e)
                            } else {
                                self.episodes
                            },
                            ..self
                        },
                        None => ReadingV { path, ..self },
                    }
                } else {
                    ReadingV { path, ..self }
                }
            },
            NodeV::Words { text } => self.words(text),
        }
    }

    /// All the steps of a document.
    pub open spec fn all(nodes: Seq<NodeV>) -> ReadingV
        decreases nodes.len(),
    {
        if nodes.len() == 0 {
            ReadingV::start()
        } else {
            ReadingV::all(nodes.drop_last()).after(nodes.last())
        }
    }

    /// The feed that was read: items without artwork of their own get the channel's.
    pub open spec fn channel(self) -> ChannelV {
        ChannelV {
            title: self.title,
            episodes: Seq::new(
                self.episodes.len(),
                |i: int|
                    if self.episodes[i].art_url is None {
                        EpisodeV { art_url: self.art, ..self.episodes[i] }
                    } else {
                        self.episodes[i]
                    },
            ),
        }
    }
}

/// Minutes and seconds added up, each part worth sixty of the next.
pub open spec fn sexagesimal(parts: Seq<Seq<char>>) -> Option<nat>
    decreases parts.len(),
{
    if parts.len() == 0 {
        Some(0)
    } else {
        let part = pieces(trimmed(parts.last()), '.')[0];
        match (sexagesimal(parts.drop_last()), number(part, u64::MAX as nat)) {
            (Some(more), Some(n)) => if more * 60 + n <= u64::MAX {
                Some(more * 60 + n)
            } else {
                None
            },
            _ => None,
        }
    }
}

/// `SS`, `MM:SS` or `HH:MM:SS`, and sometimes plain seconds. Nothing for no time at
/// all, and nothing for more seconds than a machine word counts.
pub open spec fn duration_in(text: Seq<char>) -> Option<Duration> {
    let parts = pieces(trimmed(text), ':');
    if parts.len() > 3 {
        None
    } else {
        match sexagesimal(parts) {
            Some(n) => if n > 0 {
                Some(Duration { secs: n as u64, nanos: 0 })
            } else {
                None
            },
            None => None,
        }
    }
}

// ---------------------------------------------------------------------------
// What holds of every feed
// ---------------------------------------------------------------------------

/// Every episode that is read can be played: items without audio are dropped.
pub proof fn law_every_episode_has_audio(nodes: Seq<NodeV>)
    ensures
        forall|i: int|
            0 <= i < ReadingV::all(nodes).channel().episodes.len() ==> (
            #[trigger] ReadingV::all(nodes).channel().episodes[i]).url.len() > 0,
{
    lemma_urls(nodes);
}

proof fn lemma_urls(nodes: Seq<NodeV>)
    ensures
        forall|i: int|
            0 <= i < ReadingV::all(nodes).episodes.len() ==> (#[trigger] ReadingV::all(
                nodes,
            ).episodes[i]).url.len() > 0,
    decreases nodes.len(),
{
    if nodes.len() > 0 {
        lemma_urls(nodes.drop_last());
        let s = ReadingV::all(nodes.drop_last());
        let t = s.after(nodes.last());
        assert(t.episodes == s.episodes || (t.episodes.len() == s.episodes.len() + 1
            && t.episodes.last().url.len() > 0 && t.episodes.drop_last() =~= s.episodes));
        assert forall|i: int| 0 <= i < t.episodes.len() implies (
        #[trigger] t.episodes[i]).url.len() > 0 by {
            if t.episodes != s.episodes && i < s.episodes.len() {
                assert(t.episodes[i] == t.episodes.drop_last()[i]);
                assert(t.episodes[i] == s.episodes[i]);
            }
        }
    }
}

/// Text inside an item never becomes the channel's title.
pub proof fn law_item_text_stays_in_the_item(s: ReadingV, text: Seq<char>)
    requires
        s.item is Some,
    ensures
        s.after(NodeV::Words { text }).title == s.title,
{
}

/// The first title outside any item is the channel's, and no later one replaces it.
pub proof fn law_channel_title_is_kept(s: ReadingV, node: NodeV)
    requires
        s.title.len() > 0,
    ensures
        s.after(node).title == s.title,
{
}

/// Once there is channel artwork, every episode has a picture.
pub proof fn law_artwork_is_inherited(nodes: Seq<NodeV>, i: int)
    requires
        ReadingV::all(nodes).art is Some,
        0 <= i < ReadingV::all(nodes).channel().episodes.len(),
    ensures
        ReadingV::all(nodes).channel().episodes[i].art_url is Some,
{
}

// ---------------------------------------------------------------------------
// What an item's elements come to
// ---------------------------------------------------------------------------

/// An element inside an item.
pub ghost enum FieldV {
    /// An element of this name, with this text in it.
    Text(Seq<char>, Seq<char>),
    /// The audio, by its address.
    Enclosure(Option<Seq<char>>),
    /// The artwork, by its address.
    Image(Option<Seq<char>>),
}

/// The steps through an element inside an item.
pub open spec fn field_nodes(field: FieldV) -> Seq<NodeV> {
    match field {
        FieldV::Text(name, text) => seq![
            NodeV::Open { name, url: None, href: None },
            NodeV::Words { text },
            NodeV::Close { name },
        ],
        FieldV::Enclosure(url) => seq![NodeV::Leaf { name: "enclosure"@, url, href: None }],
        FieldV::Image(href) => seq![NodeV::Leaf { name: "image"@, url: None, href }],
    }
}

/// The steps through some elements.
pub open spec fn fields_nodes(fields: Seq<FieldV>) -> Seq<NodeV>
    decreases fields.len(),
{
    if fields.len() == 0 {
        seq![]
    } else {
        fields_nodes(fields.drop_last()) + field_nodes(fields.last())
    }
}

/// The steps through an item with these elements.
pub open spec fn item_nodes(fields: Seq<FieldV>) -> Seq<NodeV> {
    seq![NodeV::Open { name: "item"@, url: None, href: None }] + fields_nodes(fields) + seq![
        NodeV::Close { name: "item"@ },
    ]
}

/// An element that is not itself an item, and says no artwork with its text.
pub open spec fn is_field(field: FieldV) -> bool {
    field matches FieldV::Text(name, _) ==> name != "item"@ && name != "image"@
}

/// Nothing but such elements.
pub open spec fn are_fields(fields: Seq<FieldV>) -> bool {
    forall|i: int| 0 <= i < fields.len() ==> is_field(#[trigger] fields[i])
}

/// What the last element called `name` says, of those that say anything.
pub open spec fn last_text(fields: Seq<FieldV>, name: Seq<char>) -> Option<Seq<char>>
    decreases fields.len(),
{
    if fields.len() == 0 {
        None
    } else {
        match fields.last() {
            FieldV::Text(n, text) => if n == name && text.len() > 0 {
                Some(text)
            } else {
                last_text(fields.drop_last(), name)
            },
            _ => last_text(fields.drop_last(), name),
        }
    }
}

/// Who the first element that names anybody names.
pub open spec fn first_author(fields: Seq<FieldV>) -> Option<Seq<char>>
    decreases fields.len(),
{
    if fields.len() == 0 {
        None
    } else {
        match first_author(fields.drop_last()) {
            Some(who) => Some(who),
            None => match fields.last() {
                FieldV::Text(n, text) => if (n == "creator"@ || n == "author"@) && text.len() > 0 {
                    Some(text)
                } else {
                    None
                },
                _ => None,
            },
        }
    }
}

/// The last audio there is.
pub open spec fn last_audio(fields: Seq<FieldV>) -> Option<Seq<char>>
    decreases fields.len(),
{
    if fields.len() == 0 {
        None
    } else {
        match fields.last() {
            FieldV::Enclosure(Some(url)) => Some(url),
            _ => last_audio(fields.drop_last()),
        }
    }
}

/// What the last artwork element says.
pub open spec fn last_image(fields: Seq<FieldV>) -> Option<Seq<char>>
    decreases fields.len(),
{
    if fields.len() == 0 {
        None
    } else {
        match fields.last() {
            FieldV::Image(href) => href,
            _ => last_image(fields.drop_last()),
        }
    }
}

/// `o`, or nothing at all.
pub open spec fn or_empty(o: Option<Seq<char>>) -> Seq<char> {
    match o {
        Some(s) => s,
        None => seq![],
    }
}

/// `e` is what an item with these elements says, in whatever order they stand.
pub open spec fn is_said_by(e: EpisodeV, fields: Seq<FieldV>) -> bool {
    &&& e.title == or_empty(last_text(fields, "title"@))
    &&& e.author == or_empty(first_author(fields))
    &&& e.url == or_empty(last_audio(fields))
    &&& e.art_url == last_image(fields)
    &&& e.duration == (match last_text(fields, "duration"@) {
        Some(text) => duration_in(text),
        None => None,
    })
}

impl ReadingV {
    /// Some steps more.
    pub open spec fn through(self, nodes: Seq<NodeV>) -> ReadingV
        decreases nodes.len(),
    {
        if nodes.len() == 0 {
            self
        } else {
            self.through(nodes.drop_last()).after(nodes.last())
        }
    }
}

proof fn lemma_through(s: ReadingV, a: Seq<NodeV>, b: Seq<NodeV>)
    ensures
        s.through(a + b) == s.through(a).through(b),
    decreases b.len(),
{
    if b.len() == 0 {
        assert(a + b =~= a);
    } else {
        assert((a + b).drop_last() =~= a + b.drop_last());
        lemma_through(s, a, b.drop_last());
    }
}

proof fn lemma_all_through(a: Seq<NodeV>)
    ensures
        ReadingV::all(a) == ReadingV::start().through(a),
    decreases a.len(),
{
    if a.len() > 0 {
        lemma_all_through(a.drop_last());
    }
}

proof fn lemma_one(s: ReadingV, node: NodeV)
    ensures
        s.through(seq![node]) == s.after(node),
{
    assert(seq![node].drop_last() =~= seq![]);
    reveal_with_fuel(ReadingV::through, 2);
}

proof fn lemma_three(s: ReadingV, a: NodeV, b: NodeV, c: NodeV)
    ensures
        s.through(seq![a, b, c]) == s.after(a).after(b).after(c),
{
    lemma_one(s, a);
    lemma_one(s.after(a), b);
    lemma_one(s.after(a).after(b), c);
    lemma_through(s, seq![a], seq![b]);
    lemma_through(s, seq![a] + seq![b], seq![c]);
    assert(seq![a] + seq![b] + seq![c] =~= seq![a, b, c]);
}

/// The names that mean something are all different.
proof fn lemma_names_differ()
    ensures
        "title"@ != "creator"@,
        "title"@ != "author"@,
        "title"@ != "duration"@,
        "creator"@ != "duration"@,
        "author"@ != "duration"@,
        "enclosure"@ != "image"@,
        "enclosure"@ != "item"@,
        "image"@ != "item"@,
        "title"@ != "item"@,
        "title"@ != "image"@,
        "title"@ != "enclosure"@,
        "rss"@ != "item"@,
        "rss"@ != "image"@,
        "rss"@ != "enclosure"@,
        "channel"@ != "item"@,
        "channel"@ != "image"@,
        "channel"@ != "enclosure"@,
{
    reveal_strlit("title");
    reveal_strlit("creator");
    reveal_strlit("author");
    reveal_strlit("duration");
    reveal_strlit("enclosure");
    reveal_strlit("image");
    reveal_strlit("item");
    reveal_strlit("rss");
    reveal_strlit("channel");
    assert("title"@[0] == 't' && "item"@[0] == 'i' && "image"@[1] == 'm' && "item"@[1] == 't');
    assert("creator"@[0] == 'c' && "author"@[0] == 'a' && "duration"@[0] == 'd');
    assert("enclosure"@[0] == 'e' && "image"@[0] == 'i' && "rss"@[0] == 'r' && "channel"@[0] == 'c');
}

proof fn lemma_first_author(fields: Seq<FieldV>)
    ensures
        first_author(fields) matches Some(who) ==> who.len() > 0,
    decreases fields.len(),
{
    if fields.len() > 0 {
        lemma_first_author(fields.drop_last());
    }
}

proof fn lemma_field(s: ReadingV, fields: Seq<FieldV>, field: FieldV)
    requires
        s.item matches Some(e) && is_said_by(e, fields),
        is_field(field),
    ensures
        ({
            let t = s.through(field_nodes(field));
            &&& t.item matches Some(e) && is_said_by(e, fields.push(field))
            &&& t == (ReadingV { item: t.item, ..s })
        }),
{
    lemma_names_differ();
    let more = fields.push(field);
    assert(more.drop_last() =~= fields);
    assert(more.last() == field);
    lemma_first_author(fields);
    let t = s.through(field_nodes(field));
    match field {
        FieldV::Text(name, text) => {
            lemma_three(
                s,
                NodeV::Open { name, url: None, href: None },
                NodeV::Words { text },
                NodeV::Close { name },
            );
            assert(s.path.push(name).drop_last() =~= s.path);
            assert(s.path.push(name).last() == name);
        },
        FieldV::Enclosure(url) => {
            lemma_one(s, NodeV::Leaf { name: "enclosure"@, url, href: None });
        },
        FieldV::Image(href) => {
            lemma_one(s, NodeV::Leaf { name: "image"@, url: None, href });
        },
    }
}

proof fn lemma_fields(s: ReadingV, fields: Seq<FieldV>)
    requires
        s.item == Some(EpisodeV::blank()),
        are_fields(fields),
    ensures
        ({
            let t = s.through(fields_nodes(fields));
            &&& t.item matches Some(e) && is_said_by(e, fields)
            &&& t == (ReadingV { item: t.item, ..s })
        }),
    decreases fields.len(),
{
    if fields.len() > 0 {
        let rest = fields.drop_last();
        assert forall|i: int| 0 <= i < rest.len() implies is_field(#[trigger] rest[i]) by {
            assert(rest[i] == fields[i]);
        }
        lemma_fields(s, rest);
        assert(is_field(fields[fields.len() - 1]));
        lemma_through(s, fields_nodes(rest), field_nodes(fields.last()));
        lemma_field(s.through(fields_nodes(rest)), rest, fields.last());
        assert(rest.push(fields.last()) =~= fields);
    }
}

/// An item is one more episode, if it has audio: its title, its author, its length, its
/// audio and its artwork are read wherever among its elements they stand.
pub proof fn law_an_item_says_its_episode(s: ReadingV, fields: Seq<FieldV>)
    requires
        are_fields(fields),
    ensures
        ({
            let t = s.through(item_nodes(fields));
            &&& t.item is None
            &&& t.title == s.title
            &&& t.art == s.art
            &&& t.path == s.path
            &&& if or_empty(last_audio(fields)).len() == 0 {
                t.episodes == s.episodes
            } else {
                &&& t.episodes.len() == s.episodes.len() + 1
                &&& t.episodes.drop_last() == s.episodes
                &&& is_said_by(t.episodes.last(), fields)
            }
        }),
{
    lemma_names_differ();
    let open = NodeV::Open { name: "item"@, url: None, href: None };
    let close = NodeV::Close { name: "item"@ };
    let inner = fields_nodes(fields);
    lemma_through(s, seq![open] + inner, seq![close]);
    lemma_through(s, seq![open], inner);
    lemma_one(s, open);
    let begun = s.after(open);
    lemma_fields(begun, fields);
    let read = begun.through(inner);
    lemma_one(read, close);
    assert(s.path.push("item"@).drop_last() =~= s.path);
    let t = read.after(close);
    if or_empty(last_audio(fields)).len() > 0 {
        assert(t.episodes.drop_last() =~= s.episodes);
    }
}

/// The steps through some items.
pub open spec fn items_nodes(items: Seq<Seq<FieldV>>) -> Seq<NodeV>
    decreases items.len(),
{
    if items.len() == 0 {
        seq![]
    } else {
        items_nodes(items.drop_last()) + item_nodes(items.last())
    }
}

/// The steps through a feed with this title and artwork and these items.
pub open spec fn feed_nodes(
    title: Seq<char>,
    art: Option<Seq<char>>,
    items: Seq<Seq<FieldV>>,
) -> Seq<NodeV> {
    seq![
        NodeV::Open { name: "rss"@, url: None, href: None },
        NodeV::Open { name: "channel"@, url: None, href: None },
    ] + field_nodes(FieldV::Text("title"@, title)) + field_nodes(FieldV::Image(art)) + items_nodes(
        items,
    ) + seq![NodeV::Close { name: "channel"@ }, NodeV::Close { name: "rss"@ }]
}

/// Items with audio, all of them.
pub open spec fn are_items(items: Seq<Seq<FieldV>>) -> bool {
    forall|i: int|
        0 <= i < items.len() ==> are_fields(#[trigger] items[i]) && or_empty(
            last_audio(items[i]),
        ).len() > 0
}

proof fn lemma_items(s: ReadingV, items: Seq<Seq<FieldV>>)
    requires
        are_items(items),
        s.item is None,
    ensures
        ({
            let t = s.through(items_nodes(items));
            &&& t.item is None
            &&& t.title == s.title
            &&& t.art == s.art
            &&& t.path == s.path
            &&& t.episodes.len() == s.episodes.len() + items.len()
            &&& t.episodes.take(s.episodes.len() as int) == s.episodes
            &&& forall|i: int|
                0 <= i < items.len() ==> is_said_by(
                    t.episodes[s.episodes.len() + i],
                    #[trigger] items[i],
                )
        }),
    decreases items.len(),
{
    let n = s.episodes.len() as int;
    if items.len() == 0 {
        assert(s.episodes.take(n) =~= s.episodes);
    } else {
        let rest = items.drop_last();
        assert forall|i: int| 0 <= i < rest.len() implies are_fields(#[trigger] rest[i])
            && or_empty(last_audio(rest[i])).len() > 0 by {
            assert(rest[i] == items[i]);
        }
        lemma_items(s, rest);
        let u = s.through(items_nodes(rest));
        lemma_through(s, items_nodes(rest), item_nodes(items.last()));
        assert(are_fields(items[items.len() - 1]));
        law_an_item_says_its_episode(u, items.last());
        let t = s.through(items_nodes(items));
        assert(t.episodes.take(n) =~= t.episodes.drop_last().take(n));
        assert forall|i: int| 0 <= i < items.len() implies is_said_by(
            t.episodes[n + i],
            #[trigger] items[i],
        ) by {
            if i < rest.len() {
                assert(rest[i] == items[i]);
                assert(t.episodes[n + i] == t.episodes.drop_last()[n + i]);
            } else {
                assert(t.episodes[n + i] == t.episodes.last());
            }
        }
    }
}

/// A feed is read whole: its title, and an episode to every item, in the order they
/// stand in, each saying what its item says. An item without artwork has the feed's.
pub proof fn law_a_feed_is_read_whole(
    title: Seq<char>,
    art: Option<Seq<char>>,
    items: Seq<Seq<FieldV>>,
)
    requires
        are_items(items),
    ensures
        ({
            let channel = ReadingV::all(feed_nodes(title, art, items)).channel();
            &&& channel.title == title
            &&& channel.episodes.len() == items.len()
            &&& forall|i: int|
                0 <= i < items.len() ==> {
                    let e = channel.episodes[i];
                    let own = last_image(#[trigger] items[i]);
                    &&& is_said_by(EpisodeV { art_url: own, ..e }, items[i])
                    &&& e.art_url == (if own is Some {
                        own
                    } else {
                        art
                    })
                }
        }),
{
    lemma_names_differ();
    let s = ReadingV::start();
    let rss = NodeV::Open { name: "rss"@, url: None, href: None };
    let chan = NodeV::Open { name: "channel"@, url: None, href: None };
    let front = seq![rss, chan];
    let named = field_nodes(FieldV::Text("title"@, title));
    let image = field_nodes(FieldV::Image(art));
    let inner = items_nodes(items);
    let (cc, cr) = (NodeV::Close { name: "channel"@ }, NodeV::Close { name: "rss"@ });
    let back = seq![cc, cr];
    lemma_all_through(feed_nodes(title, art, items));
    lemma_through(s, front + named + image + inner, back);
    lemma_through(s, front + named + image, inner);
    lemma_through(s, front + named, image);
    lemma_through(s, front, named);
    lemma_through(s, seq![rss], seq![chan]);
    assert(seq![rss] + seq![chan] =~= front);
    lemma_one(s, rss);
    let a = s.after(rss);
    lemma_one(a, chan);
    let b = a.after(chan);
    lemma_three(
        b,
        NodeV::Open { name: "title"@, url: None, href: None },
        NodeV::Words { text: title },
        NodeV::Close { name: "title"@ },
    );
    let c = b.through(named);
    assert(b.path.push("title"@).last() == "title"@);
    assert(b.path.push("title"@).drop_last() =~= b.path);
    assert(c.title =~= title);
    lemma_one(c, NodeV::Leaf { name: "image"@, url: None, href: art });
    let d = c.through(image);
    assert(d.episodes =~= seq![]);
    lemma_items(d, items);
    let e = d.through(inner);
    lemma_through(e, seq![cc], seq![cr]);
    assert(seq![cc] + seq![cr] =~= back);
    lemma_one(e, cc);
    lemma_one(e.after(cc), cr);
    let done = ReadingV::all(feed_nodes(title, art, items));
    assert(done.episodes == e.episodes && done.title == title && done.art == art);
    assert forall|i: int| 0 <= i < items.len() implies ({
        let ep = done.channel().episodes[i];
        let own = last_image(#[trigger] items[i]);
        &&& is_said_by(EpisodeV { art_url: own, ..ep }, items[i])
        &&& ep.art_url == (if own is Some {
            own
        } else {
            art
        })
    }) by {
        assert(is_said_by(e.episodes[0 + i], items[i]));
        let ep = done.channel().episodes[i];
        assert(EpisodeV { art_url: last_image(items[i]), ..ep } == e.episodes[i]);
    }
}

/// The order of two elements of different sorts does not matter: an item says the same
/// with its audio in front of its text as behind it.
pub proof fn law_the_place_of_the_audio_does_not_matter(
    fields: Seq<FieldV>,
    name: Seq<char>,
    text: Seq<char>,
    url: Seq<char>,
    e: EpisodeV,
)
    ensures
        is_said_by(e, fields.push(FieldV::Text(name, text)).push(FieldV::Enclosure(Some(url))))
            <==> is_said_by(
            e,
            fields.push(FieldV::Enclosure(Some(url))).push(FieldV::Text(name, text)),
        ),
{
    let (t, u) = (FieldV::Text(name, text), FieldV::Enclosure(Some(url)));
    assert(fields.push(t).drop_last() =~= fields);
    assert(fields.push(u).drop_last() =~= fields);
    assert(fields.push(t).push(u).drop_last() =~= fields.push(t));
    assert(fields.push(u).push(t).drop_last() =~= fields.push(u));
    reveal_with_fuel(last_text, 3);
    reveal_with_fuel(first_author, 3);
    reveal_with_fuel(last_audio, 3);
    reveal_with_fuel(last_image, 3);
}

proof fn lemma_pieces_cons(a: Seq<char>, c: char, b: Seq<char>)
    requires
        !a.contains(c),
    ensures
        pieces(a + seq![c] + b, c) == seq![a] + pieces(b, c),
{
    let s = a + seq![c] + b;
    text::lemma_halves_cons(a, c, b);
    assert(s[a.len() as int] == c);
    assert forall|i: int| 0 <= i < a.len() implies #[trigger] s[i] != c by {
        assert(s[i] == a[i] && a.contains(a[i]));
    }
    text::lemma_find_is(s, c, a.len());
    assert(s.take(a.len() as int) =~= a);
    assert(s.skip(a.len() as int + 1) =~= b);
}

proof fn lemma_one_piece(a: Seq<char>, c: char)
    requires
        !a.contains(c),
    ensures
        pieces(a, c) == seq![a],
{
    assert forall|i: int| 0 <= i < a.len() implies #[trigger] a[i] != c by {
        assert(a.contains(a[i]));
    }
    text::lemma_find_is(a, c, a.len());
}

proof fn lemma_clock_part(n: nat)
    requires
        n <= u64::MAX,
    ensures
        text::decimal(n).len() > 0,
        !text::decimal(n).contains(':'),
        text::is_trimmed(text::decimal(n)),
        pieces(trimmed(text::decimal(n)), '.')[0] == text::decimal(n),
        number(text::decimal(n), u64::MAX as nat) == Some(n),
{
    let d = text::decimal(n);
    text::lemma_decimal(n);
    text::lemma_number_of_decimal(n, u64::MAX as nat);
    assert(text::is_digit(d[0]) && text::is_digit(d[d.len() - 1]));
    text::lemma_trimmed(d);
    assert forall|i: int| 0 <= i < d.len() implies #[trigger] d[i] != ':' && d[i] != '.' by {
        assert(text::is_digit(d[i]));
    }
    lemma_one_piece(d, '.');
}

/// A length reads the way a clock does: seconds alone, minutes and seconds, or hours,
/// minutes and seconds.
pub proof fn law_lengths_read_like_a_clock(h: nat, m: nat, s: nat)
    requires
        0 < s,
        h * 3600 + m * 60 + s <= u64::MAX,
    ensures
        duration_in(text::decimal(s)) == Some(Duration { secs: s as u64, nanos: 0 }),
        duration_in(text::decimal(m) + seq![':'] + text::decimal(s)) == Some(
            Duration { secs: (m * 60 + s) as u64, nanos: 0 },
        ),
        duration_in(
            text::decimal(h) + seq![':'] + (text::decimal(m) + seq![':'] + text::decimal(s)),
        ) == Some(Duration { secs: (h * 3600 + m * 60 + s) as u64, nanos: 0 }),
{
    let (hd, md, sd) = (text::decimal(h), text::decimal(m), text::decimal(s));
    lemma_clock_part(h);
    lemma_clock_part(m);
    lemma_clock_part(s);
    let ms = md + seq![':'] + sd;
    let hms = hd + seq![':'] + ms;
    lemma_one_piece(sd, ':');
    lemma_pieces_cons(md, ':', sd);
    lemma_pieces_cons(hd, ':', ms);
    text::lemma_trimmed(sd);
    assert(ms[0] == md[0] && ms.last() == sd.last());
    assert(hms[0] == hd[0] && hms.last() == sd.last());
    text::lemma_trimmed(ms);
    text::lemma_trimmed(hms);
    let p1 = seq![sd];
    let p2 = seq![md] + p1;
    let p3 = seq![hd] + p2;
    assert(p1.drop_last() =~= seq![]);
    assert(p2.drop_last() =~= seq![md] && p2.last() == sd);
    assert(seq![md].drop_last() =~= seq![]);
    assert(p3.drop_last() =~= seq![hd] + seq![md] && p3.last() == sd);
    assert((seq![hd] + seq![md]).drop_last() =~= seq![hd] && (seq![hd] + seq![md]).last() == md);
    assert(seq![hd].drop_last() =~= seq![]);
    assert(seq![sd].last() == sd && seq![md].last() == md && seq![hd].last() == hd);
    assert(sexagesimal(seq![]) == Some(0nat));
    assert(sexagesimal(p1) == Some(s));
    assert(sexagesimal(seq![md]) == Some(m));
    assert(sexagesimal(p2) == Some(m * 60 + s));
    assert(sexagesimal(seq![hd]) == Some(h));
    assert(sexagesimal(seq![hd] + seq![md]) == Some(h * 60 + m));
    assert(sexagesimal(p3) == Some((h * 60 + m) * 60 + s));
}

/// Minutes and two digits of seconds read as what they say.
pub proof fn lemma_clock_reads(m: nat, tail: Seq<char>, seconds: nat)
    requires
        tail.len() == 2,
        text::is_digit(tail[0]) && text::is_digit(tail[1]),
        seconds == (tail[0] as int - 48) * 10 + (tail[1] as int - 48),
        0 < m * 60 + seconds <= u64::MAX,
    ensures
        duration_in(text::decimal(m) + seq![':'] + tail) == Some(
            Duration { secs: (m * 60 + seconds) as u64, nanos: 0 },
        ),
{
    let md = text::decimal(m);
    lemma_clock_part(m);
    let whole = md + seq![':'] + tail;
    lemma_pieces_cons(md, ':', tail);
    assert forall|i: int| 0 <= i < tail.len() implies #[trigger] tail[i] != ':' && tail[i]
        != '.' by {}
    lemma_one_piece(tail, ':');
    lemma_one_piece(tail, '.');
    text::lemma_trimmed(tail);
    assert(whole[0] == md[0] && whole.last() == tail.last());
    text::lemma_trimmed(whole);
    let p1 = seq![md];
    let p2 = p1 + seq![tail];
    assert(p2.drop_last() =~= p1 && p2.last() == tail);
    assert(p1.drop_last() =~= seq![] && p1.last() == md);
    assert(sexagesimal(seq![]) == Some(0nat));
    assert(sexagesimal(p1) == Some(m));
    assert(text::all_digits(tail));
    let t1 = tail.drop_last();
    assert(t1.drop_last() =~= seq![]);
    reveal_with_fuel(text::worth, 3);
    assert(text::worth(tail) == seconds);
    assert(sexagesimal(p2) == Some(m * 60 + seconds));
}

/// What an item's text adds does not depend on what of the item was read before it,
/// save that the first author stays.
pub proof fn law_item_text_is_taken_wherever_it_stands(s: ReadingV, e: EpisodeV, text: Seq<char>)
    requires
        s.item == Some(e),
        s.path.len() > 0,
        text.len() > 0,
    ensures
        s.path.last() == "title"@ ==> s.words(text).item == Some(EpisodeV { title: text, ..e }),
        s.path.last() == "duration"@ ==> s.words(text).item == Some(
            EpisodeV { duration: duration_in(text), ..e },
        ),
        (s.path.last() == "creator"@ || s.path.last() == "author"@) && e.author.len() == 0
            ==> s.words(text).item == Some(EpisodeV { author: text, ..e }),
        (s.path.last() == "creator"@ || s.path.last() == "author"@) && e.author.len() > 0
            ==> s.words(text).item == Some(e),
{
    lemma_names_differ();
}

/// The prefix of an element's name is noise: with it or without, in large letters or in
/// small ones, the element is the same.
pub proof fn law_prefixes_are_noise(prefix: Seq<char>, name: Seq<char>)
    requires
        !name.contains(':'),
    ensures
        local(prefix + seq![':'] + name) == local(name),
        local(text::lowered(name)) == local(name),
        local(name).len() == name.len(),
        forall|i: int|
            0 <= i < name.len() && !('A' <= name[i] <= 'Z') ==> #[trigger] local(name)[i]
                == name[i],
{
    let whole = prefix + seq![':'] + name;
    assert forall|i: int| 0 <= i < name.len() implies #[trigger] name[i] != ':' by {
        assert(name.contains(name[i]));
    }
    assert forall|i: int| prefix.len() < i < whole.len() implies #[trigger] whole[i] != ':' by {
        assert(whole[i] == name[i - prefix.len() - 1]);
    }
    paths::lemma_rfind_is(whole, ':', prefix.len() as int);
    paths::lemma_rfind_is(name, ':', -1);
    assert(whole.skip(prefix.len() as int + 1) =~= name);
    assert(name.skip(0) =~= name);
    let low = text::lowered(name);
    assert forall|i: int| -1 < i < low.len() implies #[trigger] low[i] != ':' by {
        assert(name[i] != ':');
    }
    paths::lemma_rfind_is(low, ':', -1);
    assert(low.skip(0) =~= low);
    assert(text::lowered(low) =~= low);
}

/// An element's attributes are read only where they mean something: the audio of an
/// `enclosure`, the artwork of an `image`, each without the white space around it.
pub proof fn law_attributes_are_read_where_they_count(name: Seq<u8>, body: Seq<u8>)
    ensures
        ({
            let element = local(lossy_text(name));
            let url = attribute_in(body, name.len(), "url"@);
            let href = attribute_in(body, name.len(), "href"@);
            match node_of(RawV::Empty(name, body)) {
                Some(NodeV::Leaf { name: n, url: u, href: h }) => {
                    &&& n == element
                    &&& element == "enclosure"@ && (url matches Some(v) && trimmed(v).len() > 0)
                        ==> u == Some(trimmed(url->0))
                    &&& element != "enclosure"@ || url is None ==> u is None
                    &&& element == "image"@ && (href matches Some(v) && trimmed(v).len() > 0)
                        ==> h == Some(trimmed(href->0))
                    &&& element != "image"@ || href is None ==> h is None
                },
                _ => false,
            }
        }),
        node_of(RawV::Start(name, body)) == (match node_of(RawV::Empty(name, body)) {
            Some(NodeV::Leaf { name: n, url, href }) => Some(NodeV::Open { name: n, url, href }),
            _ => None,
        }),
{
}

// ---------------------------------------------------------------------------
// The same, computed
// ---------------------------------------------------------------------------

struct Reading {
    path: Vec<String>,
    item: Option<Episode>,
    title: String,
    episodes: Vec<Episode>,
    art: Option<String>,
}

impl View for Reading {
    type V = ReadingV;

    closed spec fn view(&self) -> ReadingV {
        ReadingV {
            path: views(self.path@),
            item: match self.item {
                Some(e) => Some(e@),
                None => None,
            },
            title: self.title@,
            episodes: episodes_view(self.episodes@),
            art: opt_view(self.art),
        }
    }
}

/// A copy of an optional string.
pub fn copy_opt(o: &Option<String>) -> (r: Option<String>)
    ensures
        opt_view(r) == opt_view(*o),
{
    match o {
        Some(s) => Some(s.clone()),
        None => None,
    }
}

fn collect_attributes(
    reading: Reading,
    name: &str,
    url: &Option<String>,
    href: &Option<String>,
) -> (r: Reading)
    ensures
        r@ == reading@.attributes(name@, opt_view(*url), opt_view(*href)),
{
    let mut reading = reading;
    let ghost was = reading@;
    if text::same(name, "enclosure") {
        match (reading.item, url) {
            (Some(episode), Some(url)) => {
                reading.item = Some(Episode { url: url.clone(), ..episode });
            },
            (item, _) => {
                reading.item = item;
            },
        }
    } else if text::same(name, "image") {
        proof {
            reveal_strlit("enclosure");
            reveal_strlit("image");
        }
        match reading.item {
            Some(episode) => {
                reading.item = Some(Episode { art_url: copy_opt(href), ..episode });
            },
            None => {
                reading.item = None;
                if reading.art.is_none() {
                    reading.art = copy_opt(href);
                }
            },
        }
    }
    reading
}

fn store_text(reading: Reading, value: &str) -> (r: Reading)
    ensures
        r@ == reading@.words(value@),
{
    let mut reading = reading;
    if value.is_empty() || reading.path.len() == 0 {
        return reading;
    }
    let element = reading.path[reading.path.len() - 1].clone();
    assert(element@ == reading@.path.last());
    match reading.item {
        Some(episode) => {
            let mut episode = episode;
            if text::same(element.as_str(), "title") {
                episode.title = value.to_owned();
            } else if text::same(element.as_str(), "creator") || text::same(
                element.as_str(),
                "author",
            ) {
                if episode.author.as_str().is_empty() {
                    episode.author = value.to_owned();
                }
            } else if text::same(element.as_str(), "duration") {
                episode.duration = parse_duration(value);
            }
            reading.item = Some(episode);
        },
        None => {
            reading.item = None;
            if text::same(element.as_str(), "title") && reading.title.as_str().is_empty() {
                reading.title = value.to_owned();
            }
        },
    }
    reading
}

fn take_step(reading: Reading, node: &Node) -> (r: Reading)
    ensures
        r@ == reading@.after(node@),
{
    match node {
        Node::Open { name, url, href } => {
            let mut begun = reading;
            if text::same(name.as_str(), "item") {
                begun.item = Some(
                    Episode {
                        title: String::new(),
                        author: String::new(),
                        url: String::new(),
                        duration: None,
                        art_url: None,
                    },
                );
                assert(begun@.item->0 =~= EpisodeV::blank());
            }
            let mut read = collect_attributes(begun, name.as_str(), url, href);
            let ghost was = read@;
            read.path.push(name.clone());
            assert(read@.path =~= was.path.push(name@));
            read
        },
        Node::Leaf { name, url, href } => collect_attributes(reading, name.as_str(), url, href),
        Node::Close { name } => {
            let mut reading = reading;
            let ghost was = reading@;
            if reading.path.len() > 0 {
                let _ = reading.path.pop();
                assert(reading@.path =~= was.path.drop_last());
            } else {
                assert(reading@.path =~= was.path);
            }
            if text::same(name.as_str(), "item") {
                match reading.item {
                    Some(episode) => {
                        reading.item = None;
                        if !episode.url.as_str().is_empty() {
                            let ghost e = episode@;
                            reading.episodes.push(episode);
                            assert(reading@.episodes =~= was.episodes.push(e));
                        }
                    },
                    None => {
                        reading.item = None;
                    },
                }
            }
            reading
        },
        Node::Words { text } => store_text(reading, text.as_str()),
    }
}

/// The feed that a run of steps describes.
pub fn channel_of(nodes: &Vec<Node>) -> (channel: Channel)
    ensures
        channel@ == ReadingV::all(nodes_view(nodes@)).channel(),
{
    let mut reading = Reading {
        path: Vec::new(),
        item: None,
        title: String::new(),
        episodes: Vec::new(),
        art: None,
    };
    let ghost all = nodes_view(nodes@);
    proof {
        assert(reading@.path =~= seq![]);
        assert(reading@.episodes =~= seq![]);
        assert(all.take(0) =~= seq![]);
    }
    let mut i: usize = 0;
    while i < nodes.len()
        invariant
            i <= nodes@.len(),
            all == nodes_view(nodes@),
            reading@ == ReadingV::all(all.take(i as int)),
        decreases nodes@.len() - i,
    {
        reading = take_step(reading, &nodes[i]);
        i = i + 1;
        proof {
            assert(all.take(i as int).drop_last() =~= all.take(i - 1));
            assert(all.take(i as int).last() == nodes@[i - 1]@);
        }
    }
    assert(all.take(i as int) =~= all);
    let ghost done = reading@;
    let mut episodes: Vec<Episode> = Vec::new();
    let mut k: usize = 0;
    while k < reading.episodes.len()
        invariant
            k <= reading.episodes@.len(),
            done == reading@,
            episodes_view(episodes@) == done.channel().episodes.take(k as int),
        decreases reading.episodes@.len() - k,
    {
        let e = &reading.episodes[k];
        let art_url = if e.art_url.is_none() {
            copy_opt(&reading.art)
        } else {
            copy_opt(&e.art_url)
        };
        let next = Episode {
            title: e.title.clone(),
            author: e.author.clone(),
            url: e.url.clone(),
            duration: e.duration,
            art_url,
        };
        let ghost was = episodes_view(episodes@);
        proof {
            assert(done.episodes[k as int] == e@);
            assert(next@ == done.channel().episodes[k as int]);
        }
        let ghost nv = next@;
        episodes.push(next);
        k = k + 1;
        proof {
            assert(episodes_view(episodes@) =~= was.push(nv));
            assert(was.push(nv) =~= done.channel().episodes.take(k as int));
        }
    }
    proof {
        assert(done.channel().episodes.take(k as int) =~= done.channel().episodes);
    }
    Channel { title: reading.title, episodes }
}

/// A useful attribute of an element.
fn attribute(tag: &RawTag, name: &str) -> (r: Option<String>)
    requires
        tag.name@.len() <= tag.body@.len(),
    ensures
        opt_view(r) == useful(attribute_in(tag.body@, tag.name@.len(), name@)),
{
    match raw_attribute(tag, name) {
        Some(value) => {
            let value = text::trim(value.as_str());
            if value.is_empty() {
                None
            } else {
                Some(value.to_owned())
            }
        },
        None => None,
    }
}

fn attribute_of(tag: &RawTag, local: &str, wanted: &str, key: &str) -> (r: Option<String>)
    requires
        tag.name@.len() <= tag.body@.len(),
        local@ == self::local(lossy_text(tag.name@)),
    ensures
        opt_view(r) == attribute_for(tag.name@, tag.body@, wanted@, key@),
{
    if text::same(local, wanted) {
        attribute(tag, key)
    } else {
        None
    }
}

/// What a step through the document means, if anything.
pub fn read_step(step: Raw) -> (r: Option<Node>)
    requires
        step matches Raw::Start(tag) ==> tag.name@.len() <= tag.body@.len(),
        step matches Raw::Empty(tag) ==> tag.name@.len() <= tag.body@.len(),
    ensures
        match r {
            Some(node) => node_of(step@) == Some(node@),
            None => node_of(step@) is None,
        },
{
    match step {
        Raw::Start(tag) => {
            let name = local_name(tag.name.as_slice());
            let url = attribute_of(&tag, name.as_str(), "enclosure", "url");
            let href = attribute_of(&tag, name.as_str(), "image", "href");
            Some(Node::Open { name, url, href })
        },
        Raw::Empty(tag) => {
            let name = local_name(tag.name.as_slice());
            let url = attribute_of(&tag, name.as_str(), "enclosure", "url");
            let href = attribute_of(&tag, name.as_str(), "image", "href");
            Some(Node::Leaf { name, url, href })
        },
        Raw::End(name) => Some(Node::Close { name: local_name(name.as_slice()) }),
        Raw::Text(text) => Some(Node::Words { text: text::trim(text.as_str()).to_owned() }),
        Raw::CData(data) => {
            let text = lossy(data.as_slice());
            Some(Node::Words { text: text::trim(text.as_str()).to_owned() })
        },
        _ => None,
    }
}

/// The steps of a document that mean something, or why it cannot be read.
fn read_nodes(xml: &str) -> (r: Result<Vec<Node>, String>)
    ensures
        well_ended(steps_through(xml@)),
        match r {
            Ok(nodes) => steps_through(xml@).last() is Eof && nodes_view(nodes@) == nodes_of(
                steps_through(xml@).drop_last(),
            ),
            Err(why) => steps_through(xml@).last() == RawV::Bad(why@),
        },
{
    let mut reader = open_reader(xml);
    let ghost steps = steps_through(xml@);
    let mut nodes: Vec<Node> = Vec::new();
    let ghost mut taken: int = 0;
    proof {
        assert(steps.skip(0) =~= steps);
        assert(steps.take(0) =~= seq![]);
        assert(nodes_view(nodes@) =~= seq![]);
    }
    loop
        invariant
            well_ended(steps),
            steps == steps_through(xml@),
            0 <= taken < steps.len(),
            steps_left(reader) == steps.skip(taken),
            nodes_view(nodes@) == nodes_of(steps.take(taken)),
        decreases steps.len() - taken,
    {
        let step = next_step(&mut reader);
        let ghost was = nodes_view(nodes@);
        proof {
            assert(step@ == steps[taken]);
            assert(steps.skip(taken).skip(1) =~= steps.skip(taken + 1));
            assert(steps.take(taken + 1).drop_last() =~= steps.take(taken));
            assert(steps.take(taken + 1).last() == step@);
            if is_last(step@) {
                assert(taken == steps.len() - 1);
                assert(steps.take(taken) =~= steps.drop_last());
            } else {
                assert(taken < steps.len() - 1);
            }
        }
        match step {
            Raw::Eof => {
                return Ok(nodes);
            },
            Raw::Bad(why) => {
                return Err(why);
            },
            _ => {},
        }
        let node = read_step(step);
        match node {
            Some(node) => {
                let ghost nv = node@;
                nodes.push(node);
                assert(nodes_view(nodes@) =~= was.push(nv));
            },
            None => {},
        }
        proof {
            taken = taken + 1;
        }
    }
}

/// Parse a feed. `Err` only for XML that cannot be read at all.
pub fn parse(xml: &str) -> (r: Result<Channel, String>)
    ensures
        well_ended(steps_through(xml@)),
        match r {
            Ok(channel) => steps_through(xml@).last() is Eof && channel@ == ReadingV::all(
                nodes_of(steps_through(xml@).drop_last()),
            ).channel(),
            Err(why) => steps_through(xml@).last() == RawV::Bad(why@),
        },
{
    match read_nodes(xml) {
        Ok(nodes) => Ok(channel_of(&nodes)),
        Err(why) => Err(why),
    }
}

/// `SS`, `MM:SS` or `HH:MM:SS`, and sometimes plain seconds.
pub fn parse_duration(text: &str) -> (r: Option<Duration>)
    ensures
        r == duration_in(text@),
{
    let parts = text::split(text::trim(text), ':');
    let ghost all = views(parts@);
    if parts.len() > 3 {
        return None;
    }
    let mut seconds: u64 = 0;
    let mut i: usize = 0;
    assert(all.take(0) =~= seq![]);
    while i < parts.len()
        invariant
            i <= parts@.len() <= 3,
            all == views(parts@),
            all == pieces(trimmed(text@), ':'),
            sexagesimal(all.take(i as int)) == Some(seconds as nat),
        decreases parts@.len() - i,
    {
        // A fractional seconds field shows up occasionally.
        let whole = text::split(text::trim(parts[i].as_str()), '.');
        let ghost part = pieces(trimmed(all[i as int]), '.');
        proof {
            assert(part.len() > 0);
            assert(views(whole@).len() == whole@.len());
            assert(views(whole@)[0] == whole@[0]@);
            let t = all.take(i as int + 1);
            assert(t.drop_last() =~= all.take(i as int));
            assert(t.last() == all[i as int]);
            lemma_sexagesimal_prefix(all, i as int + 1);
        }
        let value: u64 = match text::parse(whole[0].as_str(), u64::MAX) {
            Some(value) => value,
            None => {
                return None;
            },
        };
        if seconds > (u64::MAX - value) / 60 {
            assert(seconds * 60 + value > u64::MAX);
            return None;
        }
        seconds = seconds * 60 + value;
        i = i + 1;
    }
    assert(all.take(i as int) =~= all);
    if seconds > 0 {
        Some(Duration::from_secs(seconds))
    } else {
        None
    }
}

proof fn lemma_sexagesimal_prefix(parts: Seq<Seq<char>>, k: int)
    requires
        0 <= k <= parts.len(),
    ensures
        sexagesimal(parts.take(k)) is None ==> sexagesimal(parts) is None,
    decreases parts.len() - k,
{
    if k == parts.len() {
        assert(parts.take(k) =~= parts);
    } else {
        lemma_sexagesimal_prefix(parts, k + 1);
        assert(parts.take(k + 1).drop_last() =~= parts.take(k));
    }
}

} // verus!
