//! The feeds tab: the list, its episodes, and keeping both.

use vstd::prelude::*;
use crate::app::{bump, bumped, feeds_of, tracks_of, App, AppV, Effect, Tab};
use crate::config::{self, feeds_view, host, Feed, FeedV};
use crate::feed::{Channel, ChannelV};
use crate::library::{self, feed_tracks, tracks_view, Track};
use crate::text::{self, decimal};

verus! {

/// A feed that was fetched, or could not be.
pub open spec fn fetched_view(r: Result<Channel, String>) -> Result<ChannelV, Seq<char>> {
    match r {
        Ok(c) => Ok(c@),
        Err(why) => Err(why@),
    }
}

pub open spec fn fetches_view(v: Seq<(u64, Result<Channel, String>)>) -> Seq<
    (u64, Result<ChannelV, Seq<char>>),
> {
    Seq::new(v.len(), |i: int| (v[i].0, fetched_view(v[i].1)))
}

/// The last of the replies that answers the newest request.
pub open spec fn newest_fetch(
    replies: Seq<(u64, Result<ChannelV, Seq<char>>)>,
    generation: u64,
) -> Option<Result<ChannelV, Seq<char>>>
    decreases replies.len(),
{
    if replies.len() == 0 {
        None
    } else if replies.last().0 == generation {
        Some(replies.last().1)
    } else {
        newest_fetch(replies.drop_last(), generation)
    }
}

/// `at` moved by `delta`, and no further than the ends of a list of `len`.
pub open spec fn moved_by(at: int, delta: int, len: int) -> usize {
    let to = at + delta;
    if to < 0 {
        0
    } else if to > len - 1 {
        (len - 1) as usize
    } else {
        to as usize
    }
}

/// `at` moved by `delta`, and no further than the ends of a list of `len`.
pub fn move_by(at: usize, delta: isize, len: usize) -> (r: usize)
    requires
        len > 0,
    ensures
        r == moved_by(at as int, delta as int, len as int),
        r < len,
{
    let to: i128 = at as i128 + delta as i128;
    if to < 0 {
        0
    } else if to > len as i128 - 1 {
        len - 1
    } else {
        to as usize
    }
}

impl AppV {
    pub open spec fn selected_feed(self) -> Option<FeedV> {
        match self.feed_state.selected {
            Some(i) => if i < self.feeds.len() {
                Some(self.feeds[i as int])
            } else {
                None
            },
            None => None,
        }
    }

    /// With the highlighted feed's episodes asked for, unless they are on screen.
    #[verifier::opaque]
    pub open spec fn feed_reloading(self) -> AppV {
        match self.selected_feed() {
            None => AppV { tracks: seq![], fetched_url: None, ..self },
            Some(f) => if self.fetched_url == Some(f.url) {
                self
            } else {
                AppV {
                    fetched_url: Some(f.url),
                    tracks: seq![],
                    feed_loading: true,
                    fetch_generation: bumped(self.fetch_generation),
                    ..self.touched()
                }.doing(Effect::Fetch)
            },
        }
    }

    #[verifier::opaque]
    pub open spec fn feeds_persisted(self) -> AppV {
        if self.feeds_file is None {
            self.saying("no config directory: feeds not saved"@)
        } else {
            self.doing(Effect::SaveFeeds)
        }
    }

    /// Named after its channel — only when the current name was derived from the host:
    /// a name the user typed is theirs to keep.
    #[verifier::opaque]
    pub open spec fn title_adopted(self, title: Seq<char>) -> AppV {
        match self.selected_feed() {
            None => self,
            Some(f) => if title.len() == 0 || f.name != host(f.url) || f.name == title {
                self
            } else {
                AppV {
                    feeds: self.feeds.update(
                        self.feed_state.selected->0 as int,
                        FeedV { name: title, url: f.url },
                    ),
                    ..self
                }.feeds_persisted()
            },
        }
    }

    /// With a finished fetch picked up.
    #[verifier::opaque]
    pub open spec fn feed_fetched(
        self,
        replies: Seq<(u64, Result<ChannelV, Seq<char>>)>,
    ) -> AppV {
        match newest_fetch(replies, self.fetch_generation) {
            None => self,
            Some(result) => {
                let a = AppV { feed_loading: false, ..self };
                match result {
                    Ok(channel) => a.saying(
                        channel.title + ": "@ + decimal(feed_tracks(channel).len())
                            + " episodes"@,
                    ).title_adopted(channel.title).showing(feed_tracks(channel)),
                    Err(why) => a.saying("feed failed: "@ + why).showing(seq![]),
                }
            },
        }
    }

    #[verifier::opaque]
    pub open spec fn feed_moved(self, delta: int) -> AppV {
        if self.feeds.len() == 0 {
            self
        } else {
            let at = match self.feed_state.selected {
                Some(i) => i as int,
                None => 0,
            };
            let next = moved_by(at, delta, self.feeds.len() as int);
            if self.feed_state.selected == Some(next) {
                self
            } else {
                AppV { feed_state: self.feed_state.with(Some(next)), ..self }.feed_reloading()
            }
        }
    }

    /// Without the highlighted feed.
    #[verifier::opaque]
    pub open spec fn feed_removed(self) -> AppV {
        match self.selected_feed() {
            None => self,
            Some(gone) => {
                let i = self.feed_state.selected->0;
                let feeds = self.feeds.remove(i as int);
                let next = if feeds.len() == 0 {
                    None
                } else if i < feeds.len() {
                    Some(i)
                } else {
                    Some((feeds.len() - 1) as usize)
                };
                AppV { feeds, feed_state: self.feed_state.with(next), ..self }.saying(
                    "removed "@ + gone.name,
                ).feeds_persisted().feed_reloading()
            },
        }
    }

    /// On another source. Playback goes on: each tab owns only the track list.
    #[verifier::opaque]
    pub open spec fn tab_selected(self, tab: Tab) -> AppV {
        if self.tab == tab {
            self
        } else {
            let a = AppV { tab, ..self }.touched();
            match tab {
                Tab::Local => AppV { tracks_dir: None, ..a }.reloading(),
                Tab::Feeds => AppV { fetched_url: None, ..a }.feed_reloading(),
                Tab::Radio => a,
            }
        }
    }
}

impl App {
    pub fn selected_feed(&self) -> (r: Option<&Feed>)
        ensures
            match r {
                Some(f) => self@.selected_feed() == Some(f@),
                None => self@.selected_feed() is None,
            },
    {
        proof {
            reveal(feeds_of);
        }
        match self.feed_state.selected {
            Some(i) => if i < self.feeds.len() {
                assert(self@.feeds[i as int] == self.feeds@[i as int]@);
                Some(&self.feeds[i])
            } else {
                None
            },
            None => None,
        }
    }

    /// Fetch the highlighted feed's episodes, unless they are already on screen.
    pub fn reload_feed(&mut self)
        ensures
            final(self)@ == old(self)@.feed_reloading(),
            final(self)@.browsing() == old(self)@.browsing(),
    {
        proof {
            reveal(AppV::feed_reloading);
            reveal(tracks_of);
        }
        let ghost s = self@;
        let url = match self.selected_feed() {
            Some(f) => f.url.clone(),
            None => {
                self.tracks = Vec::new();
                self.fetched_url = None;
                assert(tracks_view(self.tracks@) =~= seq![]);
                assert(self@ == (AppV { tracks: seq![], fetched_url: None, ..s }));
                return;
            },
        };
        if let Some(have) = &self.fetched_url {
            if text::same(have.as_str(), url.as_str()) {
                return;
            }
        }
        let ghost u = url@;
        self.touch_settings();
        assert(self@ == s.touched());
        self.fetched_url = Some(url);
        self.tracks = Vec::new();
        assert(tracks_view(self.tracks@) =~= seq![]);
        self.feed_loading = true;
        self.fetch_generation = bump(self.fetch_generation);
        assert(self@ == (AppV {
            fetched_url: Some(u),
            tracks: seq![],
            feed_loading: true,
            fetch_generation: bumped(s.fetch_generation),
            ..s.touched()
        }));
        self.act(Effect::Fetch);
    }

    /// Write the feed list out.
    pub fn persist_feeds(&mut self)
        ensures
            final(self)@ == old(self)@.feeds_persisted(),
            final(self)@.browsing() == old(self)@.browsing(),
    {
        proof {
            reveal(AppV::feeds_persisted);
        }
        if self.feeds_file.is_none() {
            self.say("no config directory: feeds not saved".to_owned());
        } else {
            self.act(Effect::SaveFeeds);
        }
    }

    /// The feed list could not be written.
    pub fn feeds_unsaved(&mut self, why: &str)
        ensures
            final(self)@ == old(self)@.saying("could not save feeds: "@ + why@),
    {
        self.say(text::cat2("could not save feeds: ", why));
    }

    /// Name a feed after its channel, now that it is known.
    pub fn adopt_channel_title(&mut self, title: &str)
        ensures
            final(self)@ == old(self)@.title_adopted(title@),
            final(self)@.browsing() == old(self)@.browsing(),
    {
        proof {
            reveal(AppV::title_adopted);
            reveal(feeds_of);
        }
        let ghost s = self@;
        if title.is_empty() {
            return;
        }
        let index: usize = match self.feed_state.selected {
            Some(i) => i,
            None => {
                return;
            },
        };
        if index >= self.feeds.len() {
            return;
        }
        assert(s.feeds[index as int] == self.feeds@[index as int]@);
        let url = self.feeds[index].url.clone();
        let derived = config::host_of(url.as_str());
        if !text::same(self.feeds[index].name.as_str(), derived.as_str()) || text::same(
            self.feeds[index].name.as_str(),
            title,
        ) {
            return;
        }
        let named = Feed { name: title.to_owned(), url };
        let ghost nv = named@;
        let ghost f0 = feeds_view(self.feeds@);
        self.feeds.set(index, named);
        assert(feeds_view(self.feeds@) =~= f0.update(index as int, nv));
        assert(self@ == (AppV { feeds: s.feeds.update(index as int, nv), ..s }));
        self.persist_feeds();
    }

    /// Pick up a finished fetch.
    pub fn poll_feed(&mut self, replies: &Vec<(u64, Result<Channel, String>)>)
        ensures
            final(self)@ == old(self)@.feed_fetched(fetches_view(replies@)),
            final(self)@.browsing() == old(self)@.browsing(),
    {
        proof {
            reveal(AppV::feed_fetched);
        }
        let ghost s = self@;
        let generation: u64 = self.fetch_generation;
        let ghost all = fetches_view(replies@);
        let mut n: usize = replies.len();
        assert(all.take(n as int) =~= all);
        while n > 0 && replies[n - 1].0 != generation
            invariant
                n <= replies@.len(),
                all == fetches_view(replies@),
                newest_fetch(all, generation) == newest_fetch(all.take(n as int), generation),
            decreases n,
        {
            assert(all.take(n as int).last() == (
                replies@[n - 1].0,
                fetched_view(replies@[n - 1].1),
            ));
            assert(all.take(n as int).drop_last() =~= all.take(n - 1));
            n = n - 1;
        }
        if n == 0 {
            return;
        }
        let reply = &replies[n - 1];
        assert(all.take(n as int).last() == (reply.0, fetched_view(reply.1)));
        let ghost a = AppV { feed_loading: false, ..s };
        self.feed_loading = false;
        assert(self@ == a);
        match &reply.1 {
            Ok(channel) => {
                let tracks = library::tracks_from_feed(channel);
                let ghost tv = feed_tracks(channel@);
                assert(tv.len() == tracks@.len());
                let count = text::print(tracks.len() as u64);
                self.say(
                    text::cat4(channel.title.as_str(), ": ", count.as_str(), " episodes"),
                );
                let ghost b = a.saying(
                    channel@.title + ": "@ + decimal(tv.len()) + " episodes"@,
                );
                assert(self@ == b);
                self.adopt_channel_title(channel.title.as_str());
                assert(self@ == b.title_adopted(channel@.title));
                self.show_tracks(tracks);
            },
            Err(why) => {
                self.say(text::cat2("feed failed: ", why.as_str()));
                assert(self@ == a.saying("feed failed: "@ + why@));
                let none: Vec<Track> = Vec::new();
                assert(tracks_view(none@) =~= seq![]);
                self.show_tracks(none);
            },
        }
    }

    /// Move within the feed list, refetching as the cursor lands.
    pub fn move_feed_selection(&mut self, delta: isize)
        ensures
            final(self)@ == old(self)@.feed_moved(delta as int),
            final(self)@.browsing() == old(self)@.browsing(),
    {
        proof {
            reveal(AppV::feed_moved);
            reveal(feeds_of);
        }
        let ghost s = self@;
        if self.feeds.len() == 0 {
            return;
        }
        let at: usize = match self.feed_state.selected {
            Some(i) => i,
            None => 0,
        };
        let next: usize = move_by(at, delta, self.feeds.len());
        let stays = match self.feed_state.selected {
            Some(i) => i == next,
            None => false,
        };
        if !stays {
            self.feed_state.select(Some(next));
            assert(self@ == (AppV { feed_state: s.feed_state.with(Some(next)), ..s }));
            self.reload_feed();
        }
    }

    /// Drop the highlighted feed.
    pub fn remove_selected_feed(&mut self)
        ensures
            final(self)@ == old(self)@.feed_removed(),
            final(self)@.browsing() == old(self)@.browsing(),
    {
        proof {
            reveal(AppV::feed_removed);
            reveal(feeds_of);
        }
        let ghost s = self@;
        let index: usize = match self.feed_state.selected {
            Some(i) => i,
            None => {
                return;
            },
        };
        if index >= self.feeds.len() {
            return;
        }
        let ghost f0 = feeds_view(self.feeds@);
        let gone = self.feeds.remove(index);
        proof {
            assert(gone@ == f0[index as int]);
            assert(feeds_view(self.feeds@) =~= f0.remove(index as int));
        }
        let n: usize = self.feeds.len();
        let next: Option<usize> = if n == 0 {
            None
        } else if index < n {
            Some(index)
        } else {
            Some(n - 1)
        };
        self.feed_state.select(next);
        let ghost a = AppV {
            feeds: s.feeds.remove(index as int),
            feed_state: s.feed_state.with(next),
            ..s
        };
        assert(self@ == a);
        self.say(text::cat2("removed ", gone.name.as_str()));
        let ghost b = a.saying("removed "@ + gone@.name);
        assert(self@ == b);
        self.persist_feeds();
        assert(self@ == b.feeds_persisted());
        self.reload_feed();
    }

    /// Switch sources. That must never interrupt playback: the queue is a snapshot, so
    /// what is playing outlives whatever the panes are showing.
    pub fn select_tab(&mut self, tab: Tab)
        requires
            old(self)@.wf(),
        ensures
            final(self)@ == old(self)@.tab_selected(tab),
            final(self)@.wf(),
    {
        proof {
            reveal(AppV::tab_selected);
        }
        let ghost s = self@;
        if self.tab == tab {
            return;
        }
        self.tab = tab;
        self.touch_settings();
        let ghost a = AppV { tab, ..s }.touched();
        assert(self@ == a);
        // Each tab owns the track list, so entering one has to refill it.
        match tab {
            Tab::Local => {
                self.tracks_dir = None;
                assert(self@ == (AppV { tracks_dir: None, ..a }));
                self.reload_tracks();
            },
            Tab::Feeds => {
                self.fetched_url = None;
                assert(self@ == (AppV { fetched_url: None, ..a }));
                self.reload_feed();
            },
            Tab::Radio => {},
        }
    }
}

} // verus!
