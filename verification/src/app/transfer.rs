//! Moving a folder to the server: what is on its way, and how it ended.

use vstd::prelude::*;
use crate::app::prompts::{refusal, refused};
use crate::app::{App, AppV, Effect, LogLine, Transfer};
use crate::feed::copy_opt;
use crate::library;
use crate::paths::{self, below, leaf, slash};
use crate::remote::{self, authority_in, Sent, SentV};
use crate::text::{self, after_prefix, decimal, joined, opt_view, stripped_start};

verus! {

/// Enough to scroll back through a big album; older lines are dropped.
pub const KEEP: usize = 500;

/// What a [`LogLine`] holds.
pub ghost enum LogLineV {
    Failed(Seq<char>),
    Note(Seq<char>),
}

impl View for LogLine {
    type V = LogLineV;

    open spec fn view(&self) -> LogLineV {
        match self {
            LogLine::Failed(s) => LogLineV::Failed(s@),
            LogLine::Note(s) => LogLineV::Note(s@),
        }
    }
}

pub open spec fn log_view(v: Seq<LogLine>) -> Seq<LogLineV> {
    Seq::new(v.len(), |i: int| v[i]@)
}

/// A folder on its way to the server, as it is reported.
#[derive(Debug)]
pub struct Move {
    pub title: String,
    /// Where the folder goes on the server; stripped from names, which are all inside
    /// it.
    pub base: String,
    pub files: usize,
    pub bytes: u64,
    pub done_files: usize,
    /// Bytes of files the server already had: done, but never sent.
    pub skipped_bytes: u64,
    /// The files being sent, several at once: name and size. A file leaves when it is
    /// done.
    pub sending: Vec<(String, u64)>,
    pub log: Vec<LogLine>,
    /// Set once it is over: what to say about it.
    pub finished: Option<String>,
    /// It finished without moving everything.
    pub failed: bool,
}

/// What a [`Move`] holds.
pub ghost struct MoveV {
    pub title: Seq<char>,
    pub base: Seq<char>,
    pub files: usize,
    pub bytes: u64,
    pub done_files: usize,
    pub skipped_bytes: u64,
    pub sending: Seq<(Seq<char>, u64)>,
    pub log: Seq<LogLineV>,
    pub finished: Option<Seq<char>>,
    pub failed: bool,
}

pub open spec fn sending_view(v: Seq<(String, u64)>) -> Seq<(Seq<char>, u64)> {
    Seq::new(v.len(), |i: int| (v[i].0@, v[i].1))
}

impl View for Move {
    type V = MoveV;

    open spec fn view(&self) -> MoveV {
        MoveV {
            title: self.title@,
            base: self.base@,
            files: self.files,
            bytes: self.bytes,
            done_files: self.done_files,
            skipped_bytes: self.skipped_bytes,
            sending: sending_view(self.sending@),
            log: log_view(self.log@),
            finished: opt_view(self.finished),
            failed: self.failed,
        }
    }
}

/// Something that happened on the way.
#[derive(Debug)]
pub enum Step {
    Plan { files: usize, bytes: u64 },
    Start { remote: String, size: u64 },
    Failed { remote: String },
    Done { index: usize, sent: Sent },
}

/// What a [`Step`] holds.
pub ghost enum StepV {
    Plan { files: usize, bytes: u64 },
    Start { remote: Seq<char>, size: u64 },
    Failed { remote: Seq<char> },
    Done { index: usize, sent: SentV },
}

impl View for Step {
    type V = StepV;

    open spec fn view(&self) -> StepV {
        match self {
            Step::Plan { files, bytes } => StepV::Plan { files: *files, bytes: *bytes },
            Step::Start { remote, size } => StepV::Start { remote: remote@, size: *size },
            Step::Failed { remote } => StepV::Failed { remote: remote@ },
            Step::Done { index, sent } => StepV::Done { index: *index, sent: sent@ },
        }
    }
}

/// The files still being sent, without the one called `name`.
pub open spec fn without(sending: Seq<(Seq<char>, u64)>, name: Seq<char>) -> Seq<(Seq<char>, u64)>
    decreases sending.len(),
{
    if sending.len() == 0 {
        seq![]
    } else if sending.last().0 == name {
        without(sending.drop_last(), name)
    } else {
        without(sending.drop_last(), name).push(sending.last())
    }
}

impl MoveV {
    /// With another line in the log, the oldest dropped when there are too many.
    pub open spec fn noted(self, line: LogLineV) -> MoveV {
        let log = self.log.push(line);
        MoveV {
            log: if log.len() > KEEP {
                log.skip(log.len() - KEEP)
            } else {
                log
            },
            ..self
        }
    }

    /// What a file is called in the log: its path inside the folder being moved.
    pub open spec fn name_of(self, remote: Seq<char>) -> Seq<char> {
        match after_prefix(remote, self.base) {
            Some(rest) => if stripped_start(rest, '/').len() > 0 {
                stripped_start(rest, '/')
            } else {
                remote
            },
            None => remote,
        }
    }

    pub open spec fn after(self, step: StepV) -> MoveV {
        match step {
            StepV::Plan { files, bytes } => MoveV { files, bytes, ..self },
            StepV::Start { remote, size } => MoveV {
                sending: self.sending.push((self.name_of(remote), size)),
                ..self
            },
            StepV::Failed { remote } => MoveV {
                sending: without(self.sending, self.name_of(remote)),
                ..self
            },
            // Done files leave the card; the bar counts them.
            StepV::Done { index, sent } => MoveV {
                done_files: index,
                sending: without(self.sending, self.name_of(sent.remote)),
                skipped_bytes: if sent.skipped {
                    (self.skipped_bytes + sent.size) as u64
                } else {
                    self.skipped_bytes
                },
                ..self
            },
        }
    }

    /// How a move ends, given what stopped it, if anything did, how many files the
    /// server confirmed, and how many of those could be deleted here.
    pub open spec fn ended(
        self,
        label: Seq<char>,
        error: Option<Seq<char>>,
        removed: Result<usize, Seq<char>>,
        done: nat,
        total: nat,
    ) -> MoveV {
        let a = MoveV { sending: seq![], ..self };
        let b = match error {
            Some(why) => a.noted(LogLineV::Failed(why)),
            None => a,
        };
        match (error, removed) {
            (None, Ok(n)) => MoveV {
                finished: Some(
                    "moved "@ + label + " to the server: "@ + decimal(done) + " files"@,
                ),
                ..b.noted(LogLineV::Note("deleted "@ + decimal(n as nat) + " files here"@))
            },
            (Some(_), Ok(n)) => if n == 0 {
                MoveV {
                    failed: true,
                    finished: Some("move failed; nothing was deleted"@),
                    ..b.noted(LogLineV::Note("nothing deleted here"@))
                }
            } else {
                MoveV {
                    failed: true,
                    finished: Some(
                        "move stopped after "@ + decimal(n as nat) + " of "@ + decimal(total)
                            + " files"@,
                    ),
                    ..b.noted(
                        LogLineV::Note(
                            "deleted "@ + decimal(n as nat)
                                + " files the server has; the rest stay here"@,
                        ),
                    )
                }
            },
            (_, Err(why)) => MoveV {
                failed: true,
                finished: Some("uploaded, but could not delete here: "@ + why),
                ..b.noted(LogLineV::Failed("could not delete here: "@ + why))
            },
        }
    }

    /// Bytes that are where they should be, of `uploaded` that were sent.
    pub open spec fn bytes_done(self, uploaded: u64) -> int {
        if uploaded + self.skipped_bytes <= self.bytes {
            uploaded + self.skipped_bytes
        } else {
            self.bytes as int
        }
    }
}

/// However long a move runs, its log stays within its limit.
pub proof fn law_the_log_is_bounded(m: MoveV, line: LogLineV)
    ensures
        m.noted(line).log.len() <= KEEP,
        m.noted(line).log.last() == line,
{
}

/// A move says that everything went only when nothing stopped it and what was sent
/// could be deleted here.
pub proof fn law_only_a_whole_move_succeeds(
    m: MoveV,
    label: Seq<char>,
    error: Option<Seq<char>>,
    removed: Result<usize, Seq<char>>,
    done: nat,
    total: nat,
)
    requires
        !m.failed,
    ensures
        m.ended(label, error, removed, done, total).finished is Some,
        m.ended(label, error, removed, done, total).failed == (error is Some || removed is Err),
        m.ended(label, error, removed, done, total).sending.len() == 0,
{
}

impl Move {
    /// A move of the folder called `label` to `base` on the server at `address`.
    pub fn new(label: &str, address: &str, base: &str) -> (m: Move)
        ensures
            m@ == (MoveV {
                title: label@ + " → "@ + match authority_in(address@) {
                    Some(name) => name,
                    None => seq![],
                },
                base: base@,
                files: 0,
                bytes: 0,
                done_files: 0,
                skipped_bytes: 0,
                sending: seq![],
                log: seq![],
                finished: None,
                failed: false,
            }),
    {
        let name = match remote::authority_of(address) {
            Some(name) => name,
            None => {
                let none = String::new();
                assert(none@ =~= seq![]);
                none
            },
        };
        let m = Move {
            title: text::cat3(label, " → ", name.as_str()),
            base: base.to_owned(),
            files: 0,
            bytes: 0,
            done_files: 0,
            skipped_bytes: 0,
            sending: Vec::new(),
            log: Vec::new(),
            finished: None,
            failed: false,
        };
        assert(m@.sending =~= seq![]);
        assert(m@.log =~= seq![]);
        m
    }

    /// Another line in the log.
    pub fn note(&mut self, line: LogLine)
        ensures
            final(self)@ == old(self)@.noted(line@),
            final(self)@.log.len() <= KEEP,
    {
        let ghost s = self@;
        let ghost lv = line@;
        self.log.push(line);
        let ghost all = s.log.push(lv);
        let ghost mut gone: int = 0;
        assert(log_view(self.log@) =~= all);
        assert(all.skip(0) =~= all);
        while self.log.len() > KEEP
            invariant
                0 <= gone <= all.len(),
                gone > 0 ==> self.log@.len() >= KEEP,
                log_view(self.log@) == all.skip(gone),
                self@ == (MoveV { log: all.skip(gone), ..s }),
            decreases self.log@.len(),
        {
            let ghost was = log_view(self.log@);
            let _ = self.log.remove(0);
            proof {
                assert(log_view(self.log@) =~= was.skip(1));
                assert(was.skip(1) =~= all.skip(gone + 1));
                gone = gone + 1;
            }
        }
        assert(gone == 0 ==> self@.log =~= all);
    }

    /// What a file is called in the log.
    pub fn name(&self, remote: &str) -> (r: String)
        ensures
            r@ == self@.name_of(remote@),
    {
        match text::strip_prefix(remote, self.base.as_str()) {
            Some(rest) => {
                let rest = text::strip_start(rest, '/');
                if rest.is_empty() {
                    remote.to_owned()
                } else {
                    rest.to_owned()
                }
            },
            None => remote.to_owned(),
        }
    }

    fn forget(&mut self, name: &str)
        ensures
            final(self)@ == (MoveV { sending: without(old(self)@.sending, name@), ..old(self)@ }),
    {
        let ghost s = self@;
        let mut left: Vec<(String, u64)> = Vec::new();
        let mut i: usize = 0;
        proof {
            assert(s.sending.take(0) =~= seq![]);
            assert(sending_view(left@) =~= seq![]);
        }
        while i < self.sending.len()
            invariant
                i <= self.sending@.len(),
                self@ == s,
                *self == *old(self),
                sending_view(left@) == without(s.sending.take(i as int), name@),
            decreases self.sending@.len() - i,
        {
            let ghost was = sending_view(left@);
            proof {
                let t = s.sending.take(i as int + 1);
                assert(t.drop_last() =~= s.sending.take(i as int));
                assert(t.last() == (self.sending@[i as int].0@, self.sending@[i as int].1));
            }
            if !text::same(self.sending[i].0.as_str(), name) {
                left.push((self.sending[i].0.clone(), self.sending[i].1));
                assert(sending_view(left@) =~= was.push(
                    (self.sending@[i as int].0@, self.sending@[i as int].1),
                ));
            }
            i = i + 1;
        }
        assert(s.sending.take(i as int) =~= s.sending);
        self.sending = left;
    }

    /// Something happened on the way.
    pub fn report(&mut self, step: &Step)
        requires
            step@ matches StepV::Done { index, sent } ==> old(self)@.skipped_bytes + sent.size
                <= u64::MAX,
        ensures
            final(self)@ == old(self)@.after(step@),
    {
        let ghost s = self@;
        match step {
            Step::Plan { files, bytes } => {
                self.files = *files;
                self.bytes = *bytes;
            },
            Step::Start { remote, size } => {
                let name = self.name(remote.as_str());
                let ghost nv = name@;
                self.sending.push((name, *size));
                assert(sending_view(self.sending@) =~= s.sending.push((nv, *size)));
            },
            Step::Failed { remote } => {
                let name = self.name(remote.as_str());
                self.forget(name.as_str());
            },
            Step::Done { index, sent } => {
                let name = self.name(sent.remote.as_str());
                self.done_files = *index;
                self.forget(name.as_str());
                if sent.skipped {
                    self.skipped_bytes = self.skipped_bytes + sent.size;
                }
            },
        }
    }

    /// It is over.
    pub fn end(
        &mut self,
        label: &str,
        error: &Option<String>,
        removed: Result<usize, String>,
        done: usize,
        total: usize,
    )
        ensures
            final(self)@ == old(self)@.ended(
                label@,
                opt_view(*error),
                match removed {
                    Ok(n) => Ok(n),
                    Err(why) => Err(why@),
                },
                done as nat,
                total as nat,
            ),
    {
        let ghost s = self@;
        self.sending = Vec::new();
        assert(sending_view(self.sending@) =~= seq![]);
        let ghost a = MoveV { sending: seq![], ..s };
        assert(self@ == a);
        if let Some(why) = error {
            self.note(LogLine::Failed(why.clone()));
        }
        match (error, removed) {
            (None, Ok(n)) => {
                let count = text::print(n as u64);
                self.note(LogLine::Note(text::cat3("deleted ", count.as_str(), " files here")));
                let sent = text::print(done as u64);
                self.finished = Some(
                    text::cat5("moved ", label, " to the server: ", sent.as_str(), " files"),
                );
            },
            (Some(_), Ok(n)) => {
                if n == 0 {
                    self.note(LogLine::Note("nothing deleted here".to_owned()));
                    self.failed = true;
                    self.finished = Some("move failed; nothing was deleted".to_owned());
                } else {
                    let count = text::print(n as u64);
                    self.note(
                        LogLine::Note(
                            text::cat3(
                                "deleted ",
                                count.as_str(),
                                " files the server has; the rest stay here",
                            ),
                        ),
                    );
                    self.failed = true;
                    let all = text::print(total as u64);
                    self.finished = Some(
                        text::cat5(
                            "move stopped after ",
                            count.as_str(),
                            " of ",
                            all.as_str(),
                            " files",
                        ),
                    );
                }
            },
            (_, Err(why)) => {
                self.failed = true;
                self.note(LogLine::Failed(text::cat2("could not delete here: ", why.as_str())));
                self.finished = Some(
                    text::cat2("uploaded, but could not delete here: ", why.as_str()),
                );
            },
        }
    }

    /// Bytes that are where they should be, of `uploaded` that were sent.
    pub fn bytes_done(&self, uploaded: u64) -> (n: u64)
        ensures
            n == self@.bytes_done(uploaded),
            n <= self.bytes,
    {
        if uploaded <= self.bytes && self.skipped_bytes <= self.bytes - uploaded {
            uploaded + self.skipped_bytes
        } else {
            self.bytes
        }
    }
}

/// What the log panel shows of a move, apart from how fast it goes.
#[derive(Debug)]
pub struct TransferView {
    pub title: String,
    pub log: Vec<LogLine>,
    /// The files being sent: name, bytes sent, size.
    pub sending: Vec<(String, u64, u64)>,
    pub files_done: usize,
    pub files: usize,
    pub bytes_done: u64,
    pub bytes: u64,
    /// Bytes still to go. There are none to wait for once it is over.
    pub left: Option<u64>,
    pub finished: Option<String>,
    pub failed: bool,
}

fn copy_line(line: &LogLine) -> (r: LogLine)
    ensures
        r@ == line@,
{
    match line {
        LogLine::Failed(s) => LogLine::Failed(s.clone()),
        LogLine::Note(s) => LogLine::Note(s.clone()),
    }
}

impl Move {
    /// What there is to show, `uploaded` bytes into it and with `sent` of each file that
    /// is being sent.
    pub open spec fn shows(self, uploaded: u64, sent: Seq<u64>, v: TransferView) -> bool {
        &&& v.title@ == self@.title
        &&& log_view(v.log@) == self@.log
        &&& v.sending@.len() == self@.sending.len()
        &&& forall|i: int|
            0 <= i < v.sending@.len() ==> {
                let (name, size) = self@.sending[i];
                &&& (#[trigger] v.sending@[i]).0@ == name
                &&& v.sending@[i].1 == (if sent[i] <= size {
                    sent[i]
                } else {
                    size
                })
                &&& v.sending@[i].2 == size
            }
        &&& v.files_done == self.done_files
        &&& v.files == self.files
        &&& v.bytes_done == self@.bytes_done(uploaded)
        &&& v.bytes == self.bytes
        &&& v.left == (if self.finished is None {
            Some((self.bytes - self@.bytes_done(uploaded)) as u64)
        } else {
            None
        })
        &&& opt_view(v.finished) == self@.finished
        &&& v.failed == self.failed
    }

    fn view_of(&self, uploaded: u64, sent: &Vec<u64>) -> (v: TransferView)
        requires
            sent@.len() == self.sending@.len(),
        ensures
            self.shows(uploaded, sent@, v),
    {
        let mut log: Vec<LogLine> = Vec::new();
        let mut i: usize = 0;
        while i < self.log.len()
            invariant
                i <= self.log@.len(),
                log@.len() == i,
                forall|k: int| 0 <= k < i ==> (#[trigger] log@[k])@ == self.log@[k]@,
            decreases self.log@.len() - i,
        {
            log.push(copy_line(&self.log[i]));
            i = i + 1;
        }
        assert(log_view(log@) =~= self@.log);
        let mut sending: Vec<(String, u64, u64)> = Vec::new();
        let mut j: usize = 0;
        while j < self.sending.len()
            invariant
                j <= self.sending@.len(),
                sent@.len() == self.sending@.len(),
                sending@.len() == j,
                forall|k: int|
                    0 <= k < j ==> (#[trigger] sending@[k]).0@ == self.sending@[k].0@
                        && sending@[k].1 == (if sent@[k] <= self.sending@[k].1 {
                        sent@[k]
                    } else {
                        self.sending@[k].1
                    }) && sending@[k].2 == self.sending@[k].1,
            decreases self.sending@.len() - j,
        {
            let size: u64 = self.sending[j].1;
            let so_far: u64 = if sent[j] <= size {
                sent[j]
            } else {
                size
            };
            sending.push((self.sending[j].0.clone(), so_far, size));
            j = j + 1;
        }
        let bytes_done: u64 = self.bytes_done(uploaded);
        TransferView {
            title: self.title.clone(),
            log,
            sending,
            files_done: self.done_files,
            files: self.files,
            bytes_done,
            bytes: self.bytes,
            left: if self.finished.is_none() {
                Some(self.bytes - bytes_done)
            } else {
                None
            },
            finished: copy_opt(&self.finished),
            failed: self.failed,
        }
    }
}

impl AppV {
    pub open spec fn is_moving(self) -> bool {
        self.transfer matches Some(t) && !t.settled
    }

    /// The folder at `local` on its way to `rel` on the server.
    #[verifier::opaque]
    pub open spec fn move_started(
        self,
        local: Seq<char>,
        rel: Seq<char>,
        refusal: Option<Seq<char>>,
    ) -> AppV {
        match (self.remote.server, refusal) {
            (None, _) => self,
            (Some(_), Some(why)) => self.saying("error: "@ + why),
            (Some(_), None) => {
                let label = match leaf(local) {
                    Some(name) => name,
                    None => seq![],
                };
                AppV {
                    transfer: Some(Transfer { visible: true, settled: false }),
                    moving: Some((local, rel)),
                    status: "moving "@ + label + "…"@,
                    ..self
                }.doing(Effect::Move)
            },
        }
    }

    /// The highlighted local folder on its way to the server, at once.
    #[verifier::opaque]
    pub open spec fn selected_moved(self, refusal: Option<Seq<char>>) -> AppV {
        if self.remote.server is None {
            self.saying("no server yet: a adds one"@)
        } else if self.is_moving() {
            self.saying("a move is already running"@)
        } else {
            match self.selected_folder() {
                None => self,
                Some(f) => if !self.movable(f) {
                    self.saying(f.label + " is already on the server"@)
                } else {
                    match below(f.path, self.root) {
                        None => self,
                        Some(rest) => self.move_started(f.path, joined(rest, slash()), refusal),
                    }
                },
            }
        }
    }

    #[verifier::opaque]
    pub open spec fn log_toggled(self) -> AppV {
        match self.transfer {
            Some(t) => AppV { transfer: Some(Transfer { visible: !t.visible, ..t }), ..self },
            None => self.saying("nothing has been moved yet"@),
        }
    }

    pub open spec fn log_hidden(self) -> AppV {
        match self.transfer {
            Some(t) => AppV { transfer: Some(Transfer { visible: false, ..t }), ..self },
            None => self,
        }
    }

    /// Once a move is done, the library is listed as it now is. Both sides changed:
    /// nothing remembered about either still holds.
    #[verifier::opaque]
    pub open spec fn move_polled(self, finished: Option<Seq<char>>) -> AppV {
        match (self.transfer, finished) {
            (Some(t), Some(message)) => if t.settled {
                self
            } else {
                AppV { transfer: Some(Transfer { settled: true, ..t }), ..self }.saying(
                    message,
                ).refreshing()
            },
            _ => self,
        }
    }
}

impl App {
    /// True while a folder is on its way to the server.
    pub fn is_moving(&self) -> (b: bool)
        ensures
            b == self@.is_moving(),
    {
        match self.transfer {
            Some(t) => !t.settled,
            None => false,
        }
    }

    /// Move the highlighted local folder to the server, at once. The local copy is
    /// deleted file by file, as the server confirms each one.
    pub fn move_selected(&mut self)
        ensures
            final(self)@ == old(self)@.selected_moved(
                match old(self)@.remote.server {
                    Some(server) => refused(server, old(self)@.remote.token),
                    None => None,
                },
            ),
            final(self)@.browsing() == old(self)@.browsing(),
    {
        let why = match &self.remote.server {
            Some(server) => refusal(server.as_str(), &self.remote.token),
            None => None,
        };
        self.move_selected_given(why);
    }

    /// The same, given why the server cannot be connected to, if it cannot.
    pub fn move_selected_given(&mut self, refusal: Option<String>)
        ensures
            final(self)@ == old(self)@.selected_moved(opt_view(refusal)),
            final(self)@.browsing() == old(self)@.browsing(),
    {
        proof {
            reveal(AppV::selected_moved);
        }
        if self.remote.server.is_none() {
            self.say("no server yet: a adds one".to_owned());
            return;
        }
        if self.is_moving() {
            self.say("a move is already running".to_owned());
            return;
        }
        let folder = match self.selected_folder() {
            Some(f) => f.copy(),
            None => {
                return;
            },
        };
        if !self.can_move(&folder) {
            self.say(text::cat2(folder.label.as_str(), " is already on the server"));
            return;
        }
        if let Some(rel) = paths::relative(folder.path.as_str(), self.root.as_str()) {
            self.start_move(folder.path.as_str(), rel, refusal);
        }
    }

    fn start_move(&mut self, local: &str, rel: String, refusal: Option<String>)
        ensures
            final(self)@ == old(self)@.move_started(local@, rel@, opt_view(refusal)),
            final(self)@.browsing() == old(self)@.browsing(),
    {
        proof {
            reveal(AppV::move_started);
        }
        let ghost s = self@;
        if self.remote.server.is_none() {
            return;
        }
        if let Some(why) = refusal {
            self.say(text::cat2("error: ", why.as_str()));
            return;
        }
        let label = match paths::file_name(local) {
            Some(name) => name,
            None => {
                let none = String::new();
                assert(none@ =~= seq![]);
                none
            },
        };
        let ghost rv = rel@;
        self.transfer = Some(Transfer { visible: true, settled: false });
        self.moving = Some((local.to_owned(), rel));
        self.status = text::cat3("moving ", label.as_str(), "…");
        assert(self@ == (AppV {
            transfer: Some(Transfer { visible: true, settled: false }),
            moving: Some((local@, rv)),
            status: "moving "@ + label@ + "…"@,
            ..s
        }));
        self.act(Effect::Move);
    }

    /// The move could not even be started.
    pub fn move_unstarted(&mut self, why: &str)
        ensures
            final(self)@ == (AppV { transfer: None, ..old(self)@ }).saying("error: "@ + why@),
    {
        self.transfer = None;
        self.say(text::cat2("error: ", why));
    }

    /// Show or hide the log of the last move.
    pub fn toggle_transfer_log(&mut self)
        ensures
            final(self)@ == old(self)@.log_toggled(),
    {
        proof {
            reveal(AppV::log_toggled);
        }
        match self.transfer {
            Some(t) => {
                self.transfer = Some(Transfer { visible: !t.visible, settled: t.settled });
            },
            None => {
                self.say("nothing has been moved yet".to_owned());
            },
        }
    }

    /// The log panel's contents, if it is showing.
    pub fn transfer_view(&self, state: &Move, uploaded: u64, sent: &Vec<u64>) -> (r: Option<
        TransferView,
    >)
        requires
            sent@.len() == state.sending@.len(),
        ensures
            match r {
                Some(v) => (self@.transfer matches Some(t) && t.visible) && state.shows(
                    uploaded,
                    sent@,
                    v,
                ),
                None => !(self@.transfer matches Some(t) && t.visible),
            },
    {
        match self.transfer {
            Some(t) => if t.visible {
                Some(state.view_of(uploaded, sent))
            } else {
                None
            },
            None => None,
        }
    }

    /// Hide the log if it is showing. True if it was, so Escape closes the log rather
    /// than the player.
    pub fn hide_transfer_log(&mut self) -> (hid: bool)
        ensures
            hid == (old(self)@.transfer matches Some(t) && t.visible),
            final(self)@ == old(self)@.log_hidden(),
    {
        match self.transfer {
            Some(t) => {
                self.transfer = Some(Transfer { visible: false, settled: t.settled });
                t.visible
            },
            None => false,
        }
    }

    /// Once a move is done, list the library as it now is. The log stays up until it is
    /// hidden.
    pub fn poll_move(&mut self, finished: Option<String>)
        requires
            old(self)@.wf(),
        ensures
            final(self)@ == old(self)@.move_polled(opt_view(finished)),
            final(self)@.wf(),
    {
        proof {
            reveal(AppV::move_polled);
        }
        let ghost s = self@;
        if let Some(t) = self.transfer {
            if let Some(message) = finished {
                if !t.settled {
                    self.transfer = Some(Transfer { visible: t.visible, settled: true });
                    assert(self@ == (AppV {
                        transfer: Some(Transfer { settled: true, ..t }),
                        ..s
                    }));
                    self.say(message);
                    self.refresh_listing();
                }
            }
        }
    }
}

/// A line that is logged comes last, behind those that were there; only where there is no
/// more room does the oldest go.
pub proof fn law_the_log_keeps_its_order(m: MoveV, line: LogLineV)
    requires
        m.log.len() <= KEEP,
    ensures
        m.log.len() < KEEP ==> m.noted(line).log == m.log.push(line),
        m.log.len() == KEEP ==> m.noted(line).log == m.log.skip(1).push(line),
{
    if m.log.len() == KEEP {
        assert(m.log.push(line).skip(1) =~= m.log.skip(1).push(line));
    }
}

/// What is said at the end of a move: how much went, or how far it got, and what was
/// deleted here, which is nothing where nothing arrived.
pub proof fn law_a_move_says_how_it_ended(
    m: MoveV,
    label: Seq<char>,
    why: Seq<char>,
    n: usize,
    done: nat,
    total: nat,
)
    ensures
        ({
            let t = m.ended(label, None, Ok(n), done, total);
            &&& t.finished == Some("moved "@ + label + " to the server: "@ + decimal(done)
                + " files"@)
            &&& t.log.last() == LogLineV::Note("deleted "@ + decimal(n as nat) + " files here"@)
        }),
        m.ended(label, Some(why), Ok(0), done, total).finished == Some(
            "move failed; nothing was deleted"@,
        ),
        n > 0 ==> m.ended(label, Some(why), Ok(n), done, total).finished == Some(
            "move stopped after "@ + decimal(n as nat) + " of "@ + decimal(total) + " files"@,
        ),
        ({
            let t = m.ended(label, None, Err(why), done, total);
            &&& t.finished == Some("uploaded, but could not delete here: "@ + why)
            &&& t.log.last() == LogLineV::Failed("could not delete here: "@ + why)
        }),
{
}

} // verus!
