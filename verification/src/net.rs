//! HTTP, only as much of it as a player needs.
//!
//! A decoder reads forwards and seeks rarely, and will not seek backwards unless it
//! knows how long the stream is. A `Content-Length` and range requests give it both.
//! The requests are the caller's; the offsets, which are the part that goes wrong,
//! are worked out here.

use vstd::prelude::*;
use crate::paths::{self, rfind};
use crate::text::{self, decimal, number, trimmed};

verus! {

/// Cap on a fetched document. A feed is tens of kilobytes; anything vastly larger is
/// a wrong URL, not a feed.
pub const MAX_DOCUMENT: usize = 8388608;

/// Where to seek to.
#[derive(Debug, Clone, Copy, PartialEq, Eq, Structural)]
pub enum SeekFrom {
    Start(u64),
    End(i64),
    Current(i64),
}

/// The offset a seek asks for, before it is held to the file.
pub open spec fn wanted(len: u64, pos: u64, to: SeekFrom) -> int {
    match to {
        SeekFrom::Start(offset) => offset as int,
        SeekFrom::End(offset) => len + offset,
        SeekFrom::Current(offset) => pos + offset,
    }
}

/// Where a seek lands: past the end is the end, and before the start is nowhere.
pub open spec fn landing(len: u64, pos: u64, to: SeekFrom) -> Option<u64> {
    let target = wanted(len, pos, to);
    if target < 0 {
        None
    } else if target <= len {
        Some(target as u64)
    } else {
        Some(len)
    }
}

/// Where a seek lands.
pub fn seek_target(len: u64, pos: u64, to: SeekFrom) -> (r: Option<u64>)
    ensures
        r == landing(len, pos, to),
{
    let target: i128 = match to {
        SeekFrom::Start(offset) => offset as i128,
        SeekFrom::End(offset) => len as i128 + offset as i128,
        SeekFrom::Current(offset) => pos as i128 + offset as i128,
    };
    if target < 0 {
        None
    } else if target <= len as i128 {
        Some(target as u64)
    } else {
        Some(len)
    }
}

/// A seek never lands outside the file, and one past the end lands at the end.
pub proof fn law_seeks_stay_in_the_file(len: u64, pos: u64, to: SeekFrom)
    ensures
        landing(len, pos, to) matches Some(at) ==> at <= len,
        wanted(len, pos, to) >= len ==> landing(len, pos, to) == Some(len),
        to is Start ==> landing(len, pos, to) is Some,
        landing(len, pos, SeekFrom::End(0)) == Some(len),
        pos <= len ==> landing(len, pos, SeekFrom::Current(0)) == Some(pos),
{
}

/// A seekable window onto a remote file.
///
/// Reads run forwards through one open response; a seek drops it and the next read
/// opens a fresh one at the new offset.
#[derive(Debug)]
pub struct HttpFile {
    pub url: String,
    pub len: u64,
    pub pos: u64,
    /// True while a response is open at `pos`.
    pub streaming: bool,
}

impl HttpFile {
    /// A file of the length the server reported.
    pub fn open(url: &str, len: Option<u64>) -> (r: Result<HttpFile, String>)
        ensures
            match r {
                Ok(file) => len == Some(file.len) && file.len > 0 && file.pos == 0
                    && !file.streaming && file.url@ == url@,
                Err(why) => (len is None || len == Some(0u64)) && why@
                    == "server would not report a size"@,
            },
    {
        match len {
            Some(n) => {
                if n > 0 {
                    Ok(HttpFile { url: url.to_owned(), len: n, pos: 0, streaming: false })
                } else {
                    Err("server would not report a size".to_owned())
                }
            },
            None => Err("server would not report a size".to_owned()),
        }
    }

    pub fn len(&self) -> (n: u64)
        ensures
            n == self.len,
    {
        self.len
    }

    /// The range to ask for before reading, when no response is open. Nothing at the
    /// end of the file, where there is nothing to read, and nothing while a response
    /// is open.
    pub fn range_needed(&self) -> (r: Option<String>)
        ensures
            match r {
                Some(range) => self.pos < self.len && !self.streaming && range@ == "bytes="@
                    + decimal(self.pos as nat) + "-"@,
                None => self.pos >= self.len || self.streaming,
            },
    {
        if self.pos >= self.len || self.streaming {
            None
        } else {
            Some(text::cat3("bytes=", text::print(self.pos).as_str(), "-"))
        }
    }

    /// A response was opened at the current offset.
    pub fn opened(&mut self)
        ensures
            final(self).streaming,
            final(self).pos == old(self).pos,
            final(self).len == old(self).len,
            final(self).url == old(self).url,
    {
        self.streaming = true;
    }

    /// The open response gave `n` bytes, or failed. A response that ended or failed
    /// is let go of; if there is more file, the next read opens another.
    pub fn advance(&mut self, got: Option<usize>)
        requires
            got matches Some(n) ==> old(self).pos + n <= u64::MAX,
        ensures
            final(self).len == old(self).len,
            final(self).url == old(self).url,
            match got {
                Some(n) => final(self).pos == old(self).pos + n && final(self).streaming == (n > 0
                    && old(self).streaming),
                None => final(self).pos == old(self).pos && !final(self).streaming,
            },
    {
        match got {
            Some(n) => {
                if n == 0 {
                    self.streaming = false;
                } else {
                    self.pos = self.pos + n as u64;
                }
            },
            None => {
                self.streaming = false;
            },
        }
    }

    /// Move to another place in the file. The open response survives only a seek to
    /// where it already is: anywhere else it would go on giving bytes from the old
    /// offset.
    pub fn seek(&mut self, to: SeekFrom) -> (r: Result<u64, String>)
        ensures
            final(self).len == old(self).len,
            final(self).url == old(self).url,
            match r {
                Ok(at) => landing(old(self).len, old(self).pos, to) == Some(at) && final(self).pos
                    == at && final(self).streaming == (old(self).streaming && at == old(self).pos),
                Err(why) => landing(old(self).len, old(self).pos, to) is None && why@
                    == "seek before start"@ && *final(self) == *old(self),
            },
    {
        match seek_target(self.len, self.pos, to) {
            None => Err("seek before start".to_owned()),
            Some(target) => {
                if target != self.pos {
                    self.streaming = false;
                    self.pos = target;
                }
                Ok(self.pos)
            },
        }
    }
}

/// What a document comes to, given what the server sent: no more than the cap, and
/// an empty one is an error.
pub fn get(reply: Result<Vec<u8>, String>) -> (r: Result<Vec<u8>, String>)
    ensures
        match (reply, r) {
            (Ok(sent), Ok(body)) => sent@.len() > 0 && body@ == (if sent@.len() > MAX_DOCUMENT {
                sent@.take(MAX_DOCUMENT as int)
            } else {
                sent@
            }),
            (Ok(sent), Err(why)) => sent@.len() == 0 && why@ == "empty response"@,
            (Err(why), Err(same)) => same@ == why@,
            (Err(_), Ok(_)) => false,
        },
{
    match reply {
        Ok(sent) => {
            let mut body = sent;
            if body.len() == 0 {
                return Err("empty response".to_owned());
            }
            if body.len() > MAX_DOCUMENT {
                body.truncate(MAX_DOCUMENT);
                assert(body@ =~= sent@.take(MAX_DOCUMENT as int));
            }
            Ok(body)
        },
        Err(why) => Err(why),
    }
}

/// The number in a `Content-Length`.
pub fn head_length(header: &str) -> (r: Option<u64>)
    ensures
        match r {
            Some(n) => number(trimmed(header@), u64::MAX as nat) == Some(n as nat),
            None => number(trimmed(header@), u64::MAX as nat) is None,
        },
{
    text::parse(text::trim(header), u64::MAX)
}

/// The whole length named in a `Content-Range`, which is what follows its last
/// slash: `bytes 0-0/102973`.
pub open spec fn range_total(header: Seq<char>) -> Option<nat> {
    let at = rfind(header, '/');
    if at < 0 {
        None
    } else {
        number(trimmed(header.skip(at + 1)), u64::MAX as nat)
    }
}

/// The length of a file, by whichever route the server allows: the `Content-Length`
/// of a `HEAD`, or else the total in the `Content-Range` of a one-byte request.
pub fn probe_length(length: Option<&str>, range: Option<&str>) -> (r: Option<u64>)
    ensures
        ({
            let by_head = match length {
                Some(h) => number(trimmed(h@), u64::MAX as nat),
                None => None,
            };
            let by_range = match range {
                Some(h) => range_total(h@),
                None => None,
            };
            match r {
                Some(n) => by_head == Some(n as nat) || (by_head is None && by_range == Some(
                    n as nat,
                )),
                None => by_head is None && by_range is None,
            }
        }),
{
    let by_head = match length {
        Some(h) => head_length(h),
        None => None,
    };
    if by_head.is_some() {
        return by_head;
    }
    match range {
        Some(h) => match paths::after_last(h, '/') {
            Some(total) => text::parse(text::trim(total.as_str()), u64::MAX),
            None => None,
        },
        None => None,
    }
}

/// A seek leads exactly as far as it says, from the start, from the end, or from where
/// one is, for as long as that is in the file; before the start it leads nowhere.
pub proof fn law_seeks_lead_where_they_say(len: u64, pos: u64, offset: u64, delta: i64)
    requires
        pos <= len,
    ensures
        offset <= len ==> landing(len, pos, SeekFrom::Start(offset)) == Some(offset),
        0 <= pos + delta <= len ==> landing(len, pos, SeekFrom::Current(delta)) == Some(
            (pos + delta) as u64,
        ),
        0 <= len + delta <= len ==> landing(len, pos, SeekFrom::End(delta)) == Some(
            (len + delta) as u64,
        ),
        pos + delta < 0 ==> landing(len, pos, SeekFrom::Current(delta)) is None,
        len + delta < 0 ==> landing(len, pos, SeekFrom::End(delta)) is None,
{
}

/// A range says how long the whole file is behind its slash.
pub proof fn law_a_range_says_the_whole_length(front: Seq<char>, n: nat)
    requires
        n <= u64::MAX,
    ensures
        range_total(front + seq!['/'] + decimal(n)) == Some(n),
        !front.contains('/') ==> range_total(front) is None,
        range_total(front + seq!['/', '*']) is None,
{
    let header = front + seq!['/'] + decimal(n);
    text::lemma_decimal(n);
    let at = front.len() as int;
    assert forall|i: int| at < i < header.len() implies #[trigger] header[i] != '/' by {
        assert(header[i] == decimal(n)[i - at - 1]);
        assert(text::is_digit(decimal(n)[i - at - 1]));
    }
    paths::lemma_rfind_is(header, '/', at);
    assert(header.skip(at + 1) =~= decimal(n));
    assert(text::is_digit(decimal(n)[0]));
    assert(text::is_digit(decimal(n)[decimal(n).len() - 1]));
    text::lemma_trimmed(decimal(n));
    text::lemma_number_of_decimal(n, u64::MAX as nat);
    paths::lemma_rfind(front, '/');
    if rfind(front, '/') >= 0 {
        assert(front.contains(front[rfind(front, '/')]));
    }
    let open = front + seq!['/', '*'];
    paths::lemma_rfind_is(open, '/', at);
    let star = seq!['*'];
    assert(open.skip(at + 1) =~= star);
    text::lemma_trimmed(star);
    assert(!text::is_digit(star[0]));
}

} // verus!
