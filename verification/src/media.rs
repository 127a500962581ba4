//! Media keys and the system's "now playing" panel.
//!
//! The system's own vocabulary is translated here, and what is worth telling it is
//! decided here. Talking to it is the caller's.

use vstd::prelude::*;
use crate::feed::copy_opt;
use crate::text::{self, opt_view};
use crate::time::Duration;

verus! {

/// Which way to seek.
#[derive(Debug, Clone, Copy, PartialEq, Eq, Structural)]
pub enum SeekDirection {
    Forward,
    Backward,
}

/// What the system can ask of a player.
#[derive(Debug, Clone, Copy, PartialEq, Eq, Structural)]
pub enum MediaEvent {
    Play,
    Pause,
    Toggle,
    Next,
    Previous,
    Stop,
    Seek(SeekDirection),
    SeekBy(SeekDirection, Duration),
    SetPosition(Duration),
    SetVolume,
    OpenUri,
    Raise,
    Quit,
}

/// A media command, already translated out of the system's vocabulary.
#[derive(Debug, Clone, Copy, PartialEq, Eq, Structural)]
pub enum Command {
    Toggle,
    Play,
    Pause,
    Stop,
    Next,
    Previous,
    /// Relative seek in seconds; negative is backwards.
    SeekBy(i64),
    SetPosition(Duration),
}

/// What an event asks for; nothing for those there is nothing sensible to do with.
pub open spec fn command_for(event: MediaEvent) -> Option<Command> {
    match event {
        MediaEvent::Toggle => Some(Command::Toggle),
        MediaEvent::Play => Some(Command::Play),
        MediaEvent::Pause => Some(Command::Pause),
        MediaEvent::Stop => Some(Command::Stop),
        MediaEvent::Next => Some(Command::Next),
        MediaEvent::Previous => Some(Command::Previous),
        // The coarse variant carries no amount; five seconds is the usual nudge.
        MediaEvent::Seek(SeekDirection::Forward) => Some(Command::SeekBy(5)),
        MediaEvent::Seek(SeekDirection::Backward) => Some(Command::SeekBy((-5int) as i64)),
        MediaEvent::SeekBy(SeekDirection::Forward, by) => Some(Command::SeekBy(by.secs as i64)),
        MediaEvent::SeekBy(SeekDirection::Backward, by) => Some(
            Command::SeekBy((-(by.secs as i64)) as i64),
        ),
        MediaEvent::SetPosition(at) => Some(Command::SetPosition(at)),
        _ => None,
    }
}

impl Command {
    /// `None` for events there is nothing sensible to do with.
    pub fn from_event(event: MediaEvent) -> (r: Option<Command>)
        requires
            event matches MediaEvent::SeekBy(SeekDirection::Backward, by) ==> by.secs
                != 0x8000_0000_0000_0000,
        ensures
            r == command_for(event),
    {
        match event {
            MediaEvent::Toggle => Some(Command::Toggle),
            MediaEvent::Play => Some(Command::Play),
            MediaEvent::Pause => Some(Command::Pause),
            MediaEvent::Stop => Some(Command::Stop),
            MediaEvent::Next => Some(Command::Next),
            MediaEvent::Previous => Some(Command::Previous),
            MediaEvent::Seek(direction) => match direction {
                SeekDirection::Forward => Some(Command::SeekBy(5)),
                SeekDirection::Backward => Some(Command::SeekBy(-5)),
            },
            MediaEvent::SeekBy(direction, by) => {
                let n: u64 = by.secs;
                let secs: i64 = #[verifier::truncate] (n as i64);
                assert(n != 0x8000_0000_0000_0000u64 ==> n as i64 != i64::MIN) by (bit_vector);
                match direction {
                    SeekDirection::Forward => Some(Command::SeekBy(secs)),
                    SeekDirection::Backward => Some(Command::SeekBy(-secs)),
                }
            },
            MediaEvent::SetPosition(at) => Some(Command::SetPosition(at)),
            _ => None,
        }
    }
}

/// What the player tells the system about the current track.
#[derive(Debug, PartialEq, Eq)]
pub struct NowPlaying {
    pub title: String,
    pub artist: String,
    pub album: String,
    pub duration: Option<Duration>,
    pub elapsed: Duration,
    pub playing: bool,
    /// Path to the cached cover, shown in panels and desktop widgets.
    pub cover: Option<String>,
}

/// What a [`NowPlaying`] holds.
pub ghost struct NowPlayingV {
    pub title: Seq<char>,
    pub artist: Seq<char>,
    pub album: Seq<char>,
    pub duration: Option<Duration>,
    pub elapsed: Duration,
    pub playing: bool,
    pub cover: Option<Seq<char>>,
}

impl View for NowPlaying {
    type V = NowPlayingV;

    open spec fn view(&self) -> NowPlayingV {
        NowPlayingV {
            title: self.title@,
            artist: self.artist@,
            album: self.album@,
            duration: self.duration,
            elapsed: self.elapsed,
            playing: self.playing,
            cover: opt_view(self.cover),
        }
    }
}

impl NowPlayingV {
    /// Nothing playing.
    pub open spec fn nothing() -> NowPlayingV {
        NowPlayingV {
            title: seq![],
            artist: seq![],
            album: seq![],
            duration: None,
            elapsed: Duration::nothing(),
            playing: false,
            cover: None,
        }
    }
}

pub open spec fn updates_view(v: Seq<NowPlaying>) -> Seq<NowPlayingV> {
    Seq::new(v.len(), |i: int| v[i]@)
}

/// Two optional texts say the same.
pub fn same_opt(a: &Option<String>, b: &Option<String>) -> (r: bool)
    ensures
        r == (opt_view(*a) == opt_view(*b)),
{
    match (a, b) {
        (Some(x), Some(y)) => text::same(x.as_str(), y.as_str()),
        (None, None) => true,
        _ => false,
    }
}

impl NowPlaying {
    /// Nothing playing.
    pub fn nothing() -> (r: NowPlaying)
        ensures
            r@ == NowPlayingV::nothing(),
    {
        let r = NowPlaying {
            title: String::new(),
            artist: String::new(),
            album: String::new(),
            duration: None,
            elapsed: Duration::zero(),
            playing: false,
            cover: None,
        };
        assert(r@ =~= NowPlayingV::nothing());
        r
    }

    pub fn copy(&self) -> (r: NowPlaying)
        ensures
            r@ == self@,
    {
        NowPlaying {
            title: self.title.clone(),
            artist: self.artist.clone(),
            album: self.album.clone(),
            duration: self.duration,
            elapsed: self.elapsed,
            playing: self.playing,
            cover: copy_opt(&self.cover),
        }
    }

    /// True when both say the same.
    pub fn same(&self, other: &NowPlaying) -> (r: bool)
        ensures
            r == (self@ == other@),
    {
        let lengths = match (self.duration, other.duration) {
            (Some(a), Some(b)) => a == b,
            (None, None) => true,
            _ => false,
        };
        lengths && text::same(self.title.as_str(), other.title.as_str()) && text::same(
            self.artist.as_str(),
            other.artist.as_str(),
        ) && text::same(self.album.as_str(), other.album.as_str()) && self.elapsed
            == other.elapsed && self.playing == other.playing && same_opt(
            &self.cover,
            &other.cover,
        )
    }

    /// Where the system finds the cover.
    pub fn cover_url(&self) -> (r: Option<String>)
        ensures
            opt_view(r) == (match self@.cover {
                Some(path) => Some("file://"@ + path),
                None => None,
            }),
    {
        match &self.cover {
            Some(path) => Some(text::cat2("file://", path.as_str())),
            None => None,
        }
    }
}

/// What passes between the player and the system: commands in, metadata out.
#[derive(Debug)]
pub struct Bridge {
    /// Commands that arrived and were not picked up yet.
    pub arrived: Vec<Command>,
    /// Metadata that was published and not passed on yet.
    pub updates: Vec<NowPlaying>,
    /// True when there is anything on the other end.
    pub attached: bool,
}

impl Bridge {
    /// A bridge to the system.
    pub fn attached() -> (b: Bridge)
        ensures
            b.attached,
            b.arrived@ == Seq::<Command>::empty(),
            updates_view(b.updates@) == Seq::<NowPlayingV>::empty(),
    {
        let b = Bridge { arrived: Vec::new(), updates: Vec::new(), attached: true };
        assert(updates_view(b.updates@) =~= Seq::<NowPlayingV>::empty());
        b
    }

    /// A bridge with nothing on the other end: no commands ever arrive and updates go
    /// nowhere.
    pub fn detached() -> (b: Bridge)
        ensures
            !b.attached,
            b.arrived@ == Seq::<Command>::empty(),
            updates_view(b.updates@) == Seq::<NowPlayingV>::empty(),
    {
        let b = Bridge { arrived: Vec::new(), updates: Vec::new(), attached: false };
        assert(updates_view(b.updates@) =~= Seq::<NowPlayingV>::empty());
        b
    }

    /// A command from the system.
    pub fn deliver(&mut self, command: Command)
        ensures
            final(self).attached == old(self).attached,
            final(self).updates == old(self).updates,
            final(self).arrived@ == (if old(self).attached {
                old(self).arrived@.push(command)
            } else {
                old(self).arrived@
            }),
    {
        if self.attached {
            self.arrived.push(command);
        }
    }

    /// The commands that arrived since the last call, in order.
    pub fn commands(&mut self) -> (r: Vec<Command>)
        ensures
            r@ == old(self).arrived@,
            final(self).arrived@ == Seq::<Command>::empty(),
            final(self).updates == old(self).updates,
            final(self).attached == old(self).attached,
    {
        let mut r: Vec<Command> = Vec::new();
        let ghost was = self.arrived@;
        r.append(&mut self.arrived);
        assert(r@ =~= was);
        assert(self.arrived@ =~= Seq::<Command>::empty());
        r
    }

    /// Publish the current track. With nothing on the other end that does nothing.
    pub fn publish(&mut self, now: NowPlaying)
        ensures
            final(self).arrived == old(self).arrived,
            final(self).attached == old(self).attached,
            updates_view(final(self).updates@) == (if old(self).attached {
                updates_view(old(self).updates@).push(now@)
            } else {
                updates_view(old(self).updates@)
            }),
    {
        let ghost was = updates_view(self.updates@);
        if self.attached {
            let ghost nv = now@;
            self.updates.push(now);
            assert(updates_view(self.updates@) =~= was.push(nv));
        }
    }

    /// The metadata to pass on, given what was passed on last: only the newest, since
    /// what came between is of no interest, and nothing that repeats it.
    pub fn pump(&mut self, last: &Option<NowPlaying>) -> (r: Option<NowPlaying>)
        ensures
            final(self).arrived == old(self).arrived,
            final(self).attached == old(self).attached,
            updates_view(final(self).updates@) == Seq::<NowPlayingV>::empty(),
            ({
                let all = updates_view(old(self).updates@);
                let repeats = all.len() > 0 && (last matches Some(l) && l@ == all.last());
                match r {
                    Some(now) => all.len() > 0 && now@ == all.last() && !repeats,
                    None => all.len() == 0 || repeats,
                }
            }),
    {
        let mut updates: Vec<NowPlaying> = Vec::new();
        let ghost was = self.updates@;
        updates.append(&mut self.updates);
        proof {
            assert(updates@ =~= was);
            assert(updates_view(self.updates@) =~= Seq::<NowPlayingV>::empty());
        }
        match updates.pop() {
            Some(now) => {
                assert(now@ == updates_view(was).last());
                if let Some(l) = last {
                    if l.same(&now) {
                        return None;
                    }
                }
                Some(now)
            },
            None => None,
        }
    }
}

/// A nudge of the system is a nudge of as many seconds, on or back, and the plain keys
/// for it nudge by five; every other key is the command it is named after.
pub proof fn law_the_system_nudges_both_ways(by: Duration)
    requires
        by.secs <= i64::MAX,
    ensures
        command_for(MediaEvent::SeekBy(SeekDirection::Forward, by)) matches Some(Command::SeekBy(n))
            && n == by.secs,
        command_for(MediaEvent::SeekBy(SeekDirection::Backward, by)) matches Some(
            Command::SeekBy(n),
        ) && n == -(by.secs as int),
        command_for(MediaEvent::Seek(SeekDirection::Forward)) matches Some(Command::SeekBy(n)) && n
            == 5,
        command_for(MediaEvent::Seek(SeekDirection::Backward)) matches Some(Command::SeekBy(n)) && n
            == -5,
        command_for(MediaEvent::SetPosition(by)) == Some(Command::SetPosition(by)),
        command_for(MediaEvent::Next) == Some(Command::Next),
        command_for(MediaEvent::Previous) == Some(Command::Previous),
        command_for(MediaEvent::Play) == Some(Command::Play),
        command_for(MediaEvent::Pause) == Some(Command::Pause),
        command_for(MediaEvent::Toggle) == Some(Command::Toggle),
        command_for(MediaEvent::Stop) == Some(Command::Stop),
{
}

} // verus!
