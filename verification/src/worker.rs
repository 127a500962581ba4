//! A **replaceable** request slot.
//!
//! Requests driven by a moving cursor arrive faster than they can be served, and all
//! but the last are already worthless by the time they would run. The slot holds at
//! most one pending request, so a held-down key cannot pile up work. Each request
//! carries a generation; a job is dropped both before and after the expensive part
//! if a newer one has been asked for meanwhile.

use vstd::prelude::*;

verus! {

/// What a thread and its caller share: the one pending request, the newest
/// generation asked for, and the results not picked up yet.
pub struct Worker<Req, Out> {
    pub pending: Option<(u64, Req)>,
    pub latest: u64,
    pub results: Vec<(u64, Out)>,
}

/// What a [`Worker`] holds.
pub ghost struct WorkerV<Req, Out> {
    pub pending: Option<(u64, Req)>,
    pub latest: u64,
    pub results: Seq<(u64, Out)>,
}

impl<Req, Out> View for Worker<Req, Out> {
    type V = WorkerV<Req, Out>;

    open spec fn view(&self) -> WorkerV<Req, Out> {
        WorkerV { pending: self.pending, latest: self.latest, results: self.results@ }
    }
}

impl<Req, Out> WorkerV<Req, Out> {
    /// Nothing asked yet.
    pub open spec fn idle() -> WorkerV<Req, Out> {
        WorkerV { pending: None, latest: 0, results: seq![] }
    }

    /// With `request` in the slot, in place of whatever had not started yet.
    pub open spec fn requested(self, generation: u64, request: Req) -> WorkerV<Req, Out> {
        WorkerV { pending: Some((generation, request)), latest: generation, ..self }
    }

    /// The request there is to work on. One that was superseded is not.
    pub open spec fn wanted(self) -> Option<(u64, Req)> {
        match self.pending {
            Some((generation, request)) => if generation < self.latest {
                None
            } else {
                Some((generation, request))
            },
            None => None,
        }
    }

    /// With the slot emptied.
    pub open spec fn taken(self) -> WorkerV<Req, Out> {
        WorkerV { pending: None, ..self }
    }

    /// With a job finished. One that was superseded while it ran leaves no result.
    pub open spec fn finished(self, generation: u64, out: Out) -> WorkerV<Req, Out> {
        if generation < self.latest {
            self
        } else {
            WorkerV { results: self.results.push((generation, out)), ..self }
        }
    }

    /// With the results picked up.
    pub open spec fn drained(self) -> WorkerV<Req, Out> {
        WorkerV { results: seq![], ..self }
    }
}

impl<Req, Out> Worker<Req, Out> {
    /// A slot nothing has been asked of.
    pub fn new() -> (w: Worker<Req, Out>)
        ensures
            w@ == WorkerV::<Req, Out>::idle(),
    {
        let w = Worker { pending: None, latest: 0, results: Vec::new() };
        assert(w.results@ =~= Seq::<(u64, Out)>::empty());
        w
    }

    /// Queue `request`, discarding whatever had not started yet.
    pub fn request(&mut self, generation: u64, request: Req)
        ensures
            final(self)@ == old(self)@.requested(generation, request),
    {
        self.latest = generation;
        self.pending = Some((generation, request));
    }

    /// True for a job that has been overtaken by a newer one.
    pub fn superseded(&self, generation: u64) -> (b: bool)
        ensures
            b == (generation < self.latest),
    {
        generation < self.latest
    }

    /// The request to work on, which leaves the slot. One that was superseded while
    /// it sat there is dropped.
    pub fn take(&mut self) -> (r: Option<(u64, Req)>)
        ensures
            final(self)@ == old(self)@.taken(),
            r == old(self)@.wanted(),
    {
        match self.pending.take() {
            Some((generation, request)) => if generation < self.latest {
                None
            } else {
                Some((generation, request))
            },
            None => None,
        }
    }

    /// A finished job. One that was superseded while it ran is not bothered with.
    pub fn finish(&mut self, generation: u64, out: Out)
        ensures
            final(self)@ == old(self)@.finished(generation, out),
    {
        if generation >= self.latest {
            self.results.push((generation, out));
        }
    }

    /// Whatever finished since the last call, with its generation.
    pub fn drain(&mut self) -> (r: Vec<(u64, Out)>)
        ensures
            r@ == old(self)@.results,
            final(self)@ == old(self)@.drained(),
    {
        let mut out: Vec<(u64, Out)> = Vec::new();
        let ghost was = self.results@;
        out.append(&mut self.results);
        assert(out@ =~= was);
        assert(self.results@ =~= Seq::<(u64, Out)>::empty());
        out
    }
}

// ---------------------------------------------------------------------------
// A whole run
// ---------------------------------------------------------------------------

/// Something that the caller or the thread does.
pub ghost enum Event<Req> {
    /// The caller asks for something.
    Request(u64, Req),
    /// The thread looks for work. It does so only when it has none.
    Take,
    /// The thread is done with the job it has, if it has one.
    Finish,
    /// The caller picks the results up.
    Drain,
}

/// A slot, the thread behind it, and what has come of them: everything that was asked
/// for, everything the thread took on, and everything that was picked up.
pub ghost struct RunV<Req, Out> {
    pub worker: WorkerV<Req, Out>,
    pub running: Option<(u64, Req)>,
    pub asked: Seq<(u64, Req)>,
    pub taken: Seq<(u64, Req)>,
    pub drained: Seq<(u64, Out)>,
}

impl<Req, Out> RunV<Req, Out> {
    /// Nothing has happened yet.
    pub open spec fn start() -> RunV<Req, Out> {
        RunV {
            worker: WorkerV::idle(),
            running: None,
            asked: seq![],
            taken: seq![],
            drained: seq![],
        }
    }

    /// After one thing more, where `job` is what the thread computes.
    pub open spec fn after(self, event: Event<Req>, job: spec_fn(Req) -> Out) -> RunV<Req, Out> {
        match event {
            Event::Request(generation, request) => RunV {
                worker: self.worker.requested(generation, request),
                asked: self.asked.push((generation, request)),
                ..self
            },
            Event::Take => if self.running is Some {
                self
            } else {
                RunV {
                    worker: self.worker.taken(),
                    running: self.worker.wanted(),
                    taken: match self.worker.wanted() {
                        Some(request) => self.taken.push(request),
                        None => self.taken,
                    },
                    ..self
                }
            },
            Event::Finish => match self.running {
                Some((generation, request)) => RunV {
                    worker: self.worker.finished(generation, job(request)),
                    running: None,
                    ..self
                },
                None => self,
            },
            Event::Drain => RunV {
                worker: self.worker.drained(),
                drained: self.drained + self.worker.results,
                ..self
            },
        }
    }

    /// Every result so far, picked up or not, in the order they came.
    pub open spec fn outcomes(self) -> Seq<(u64, Out)> {
        self.drained + self.worker.results
    }
}

/// A run of events from the beginning.
pub open spec fn run_of<Req, Out>(events: Seq<Event<Req>>, job: spec_fn(Req) -> Out) -> RunV<
    Req,
    Out,
>
    decreases events.len(),
{
    if events.len() == 0 {
        RunV::start()
    } else {
        run_of(events.drop_last(), job).after(events.last(), job)
    }
}

/// The generations rise, each above all before it.
pub open spec fn is_rising<T>(s: Seq<(u64, T)>) -> bool {
    forall|i: int, j: int| 0 <= i < j < s.len() ==> (#[trigger] s[i]).0 < (#[trigger] s[j]).0
}

/// No generation is as high as `bound`.
pub open spec fn all_below<T>(s: Seq<(u64, T)>, bound: u64) -> bool {
    forall|i: int| 0 <= i < s.len() ==> (#[trigger] s[i]).0 < bound
}

/// No generation is above `bound`.
pub open spec fn all_within<T>(s: Seq<(u64, T)>, bound: u64) -> bool {
    forall|i: int| 0 <= i < s.len() ==> (#[trigger] s[i]).0 <= bound
}

/// A result is what the job makes of the request with its generation.
pub open spec fn is_answer<Req, Out>(
    outcome: (u64, Out),
    asked: Seq<(u64, Req)>,
    job: spec_fn(Req) -> Out,
) -> bool {
    exists|k: int|
        0 <= k < asked.len() && (#[trigger] asked[k]).0 == outcome.0 && outcome.1 == job(
            asked[k].1,
        )
}

/// Every one of them is.
pub open spec fn are_answers<Req, Out>(
    outcomes: Seq<(u64, Out)>,
    asked: Seq<(u64, Req)>,
    job: spec_fn(Req) -> Out,
) -> bool {
    forall|i: int| 0 <= i < outcomes.len() ==> is_answer(#[trigger] outcomes[i], asked, job)
}

/// What holds all along while requests come with rising generations.
spec fn is_steady<Req, Out>(s: RunV<Req, Out>, job: spec_fn(Req) -> Out) -> bool {
    let w = s.worker;
    &&& is_rising(s.taken)
    &&& is_rising(s.outcomes())
    &&& are_answers(s.outcomes(), s.asked, job)
    &&& all_within(s.taken, w.latest)
    &&& all_within(s.outcomes(), w.latest)
    &&& s.asked.len() > 0 ==> s.asked.last().0 == w.latest
    &&& s.asked.len() == 0 ==> w.latest == 0 && w.pending is None && s.running is None
        && s.taken.len() == 0 && s.outcomes().len() == 0
    &&& w.pending matches Some(p) ==> {
        &&& s.asked.len() > 0
        &&& p == s.asked.last()
        &&& all_below(s.taken, p.0)
        &&& all_below(s.outcomes(), p.0)
        &&& s.running matches Some(r) ==> r.0 < p.0
    }
    &&& s.running matches Some(r) ==> {
        &&& s.asked.contains(r)
        &&& r.0 <= w.latest
        &&& all_below(s.outcomes(), r.0)
    }
}

proof fn lemma_answers_grow<Req, Out>(
    outcomes: Seq<(u64, Out)>,
    asked: Seq<(u64, Req)>,
    more: (u64, Req),
    job: spec_fn(Req) -> Out,
)
    requires
        are_answers(outcomes, asked, job),
    ensures
        are_answers(outcomes, asked.push(more), job),
{
    let all = asked.push(more);
    assert forall|i: int| 0 <= i < outcomes.len() implies is_answer(
        #[trigger] outcomes[i],
        all,
        job,
    ) by {
        assert(is_answer(outcomes[i], asked, job));
        let k = choose|k: int|
            0 <= k < asked.len() && (#[trigger] asked[k]).0 == outcomes[i].0 && outcomes[i].1
                == job(asked[k].1);
        assert(all[k] == asked[k]);
    }
}

proof fn lemma_steady_after<Req, Out>(
    s: RunV<Req, Out>,
    event: Event<Req>,
    job: spec_fn(Req) -> Out,
)
    requires
        is_steady(s, job),
        event matches Event::Request(g, _) ==> s.asked.len() > 0 ==> s.asked.last().0 < g,
    ensures
        is_steady(s.after(event, job), job),
{
    let t = s.after(event, job);
    match event {
        Event::Request(g, r) => {
            lemma_answers_grow(s.outcomes(), s.asked, (g, r), job);
            assert(t.outcomes() == s.outcomes());
            assert(t.asked.last() == (g, r));
            if let Some(running) = s.running {
                let k = choose|k: int| 0 <= k < s.asked.len() && s.asked[k] == running;
                assert(t.asked[k] == running);
            }
        },
        Event::Take => {
            assert(t.outcomes() == s.outcomes());
            if s.running is None {
                if let Some(p) = s.worker.wanted() {
                    assert(s.asked[s.asked.len() - 1] == p);
                }
            }
        },
        Event::Finish => {
            if let Some((g, r)) = s.running {
                if g >= s.worker.latest {
                    assert(t.outcomes() =~= s.outcomes().push((g, job(r))));
                    let k = choose|k: int| 0 <= k < s.asked.len() && s.asked[k] == (g, r);
                    assert forall|i: int| 0 <= i < t.outcomes().len() implies is_answer(
                        #[trigger] t.outcomes()[i],
                        t.asked,
                        job,
                    ) by {
                        if i < s.outcomes().len() {
                            assert(t.outcomes()[i] == s.outcomes()[i]);
                        } else {
                            assert(t.asked[k].0 == t.outcomes()[i].0);
                        }
                    }
                }
            }
        },
        Event::Drain => {
            assert(t.outcomes() =~= s.outcomes());
        },
    }
}

proof fn lemma_asked_before<Req, Out>(events: Seq<Event<Req>>, n: int, job: spec_fn(Req) -> Out)
    requires
        0 <= n <= events.len(),
    ensures
        run_of(events.take(n), job).asked.len() <= run_of(events, job).asked.len(),
        run_of(events.take(n), job).asked == run_of(events, job).asked.take(
            run_of(events.take(n), job).asked.len() as int,
        ),
    decreases events.len(),
{
    if n == events.len() {
        assert(events.take(n) =~= events);
        assert(run_of(events, job).asked.take(run_of(events, job).asked.len() as int) =~= run_of(
            events,
            job,
        ).asked);
    } else {
        let rest = events.drop_last();
        lemma_asked_before(rest, n, job);
        assert(rest.take(n) =~= events.take(n));
        let k = run_of(events.take(n), job).asked.len() as int;
        assert(run_of(events, job).asked.take(k) =~= run_of(rest, job).asked.take(k));
    }
}

proof fn lemma_steady<Req, Out>(events: Seq<Event<Req>>, job: spec_fn(Req) -> Out)
    requires
        is_rising(run_of(events, job).asked),
    ensures
        is_steady(run_of(events, job), job),
    decreases events.len(),
{
    if events.len() > 0 {
        let rest = events.drop_last();
        let asked = run_of(events, job).asked;
        let before = run_of(rest, job).asked;
        lemma_asked_before(events, events.len() - 1, job);
        assert(events.take(events.len() - 1) =~= rest);
        assert(is_rising(before)) by {
            assert forall|i: int, j: int| 0 <= i < j < before.len() implies (
            #[trigger] before[i]).0 < (#[trigger] before[j]).0 by {
                assert(before[i] == asked[i] && before[j] == asked[j]);
            }
        }
        lemma_steady(rest, job);
        if events.last() is Request && before.len() > 0 {
            assert(before.last() == asked[before.len() - 1]);
            assert(asked.last() == asked[before.len() as int]);
        }
        lemma_steady_after(run_of(rest, job), events.last(), job);
    }
}

/// Where requests come with rising generations, so do the results, each at most once:
/// nothing stale ever follows something newer. And every result is what was computed
/// of the request with its generation.
pub proof fn law_stale_results_are_dropped<Req, Out>(
    events: Seq<Event<Req>>,
    job: spec_fn(Req) -> Out,
)
    requires
        is_rising(run_of(events, job).asked),
    ensures
        is_rising(run_of(events, job).drained),
        is_rising(run_of(events, job).outcomes()),
        are_answers(run_of(events, job).outcomes(), run_of(events, job).asked, job),
{
    lemma_steady(events, job);
    let s = run_of(events, job);
    assert forall|i: int, j: int| 0 <= i < j < s.drained.len() implies (#[trigger] s.drained[i]).0
        < (#[trigger] s.drained[j]).0 by {
        assert(s.outcomes()[i] == s.drained[i] && s.outcomes()[j] == s.drained[j]);
    }
}

/// These requests, one after the other with nothing between them.
pub open spec fn requests<Req>(burst: Seq<(u64, Req)>) -> Seq<Event<Req>> {
    Seq::new(burst.len(), |i: int| Event::Request(burst[i].0, burst[i].1))
}

proof fn lemma_burst<Req, Out>(
    events: Seq<Event<Req>>,
    burst: Seq<(u64, Req)>,
    job: spec_fn(Req) -> Out,
)
    requires
        burst.len() > 0,
    ensures
        ({
            let s = run_of(events, job);
            let t = run_of(events + requests(burst), job);
            &&& t.worker == s.worker.requested(burst.last().0, burst.last().1)
            &&& t.asked == s.asked + burst
            &&& t.running == s.running
            &&& t.taken == s.taken
            &&& t.drained == s.drained
        }),
    decreases burst.len(),
{
    let rest = burst.drop_last();
    let all = events + requests(burst);
    assert(all.drop_last() =~= events + requests(rest));
    assert(all.last() == Event::Request(burst.last().0, burst.last().1));
    let s = run_of(events, job);
    if rest.len() > 0 {
        lemma_burst(events, rest, job);
        assert((s.asked + rest).push(burst.last()) =~= s.asked + burst);
    } else {
        assert(events + requests(rest) =~= events);
        assert(s.asked.push(burst.last()) =~= s.asked + burst);
    }
}

/// From a point on, the thread has taken on nothing below `g` and no result below it
/// has come.
spec fn is_past<Req, Out>(s: RunV<Req, Out>, t: RunV<Req, Out>, g: u64) -> bool {
    &&& s.taken.len() <= t.taken.len()
    &&& t.taken.take(s.taken.len() as int) == s.taken
    &&& s.outcomes().len() <= t.outcomes().len()
    &&& t.outcomes().take(s.outcomes().len() as int) == s.outcomes()
    &&& forall|i: int| s.taken.len() <= i < t.taken.len() ==> (#[trigger] t.taken[i]).0 >= g
    &&& forall|i: int|
        s.outcomes().len() <= i < t.outcomes().len() ==> (#[trigger] t.outcomes()[i]).0 >= g
    &&& t.worker.latest >= g
}

proof fn lemma_past<Req, Out>(
    first: Seq<Event<Req>>,
    s: RunV<Req, Out>,
    after: Seq<Event<Req>>,
    g: u64,
    job: spec_fn(Req) -> Out,
)
    requires
        is_rising(run_of(first + after, job).asked),
        is_past(s, run_of(first, job), g),
    ensures
        is_past(s, run_of(first + after, job), g),
    decreases after.len(),
{
    if after.len() == 0 {
        assert(first + after =~= first);
    } else {
        let rest = after.drop_last();
        let all = first + after;
        assert(all.drop_last() =~= first + rest);
        assert(all.last() == after.last());
        let asked = run_of(all, job).asked;
        let before = run_of(first + rest, job).asked;
        lemma_asked_before(all, all.len() - 1, job);
        assert(all.take(all.len() - 1) =~= first + rest);
        assert(is_rising(before)) by {
            assert forall|i: int, j: int| 0 <= i < j < before.len() implies (
            #[trigger] before[i]).0 < (#[trigger] before[j]).0 by {
                assert(before[i] == asked[i] && before[j] == asked[j]);
            }
        }
        lemma_past(first, s, rest, g, job);
        lemma_steady(first + rest, job);
        lemma_steady(all, job);
        let u = run_of(first + rest, job);
        let t = run_of(all, job);
        let n = s.taken.len() as int;
        let m = s.outcomes().len() as int;
        if after.last() is Request {
            assert(t.outcomes() == u.outcomes());
            if before.len() > 0 {
                assert(before.last() == asked[before.len() - 1]);
                assert(asked.last() == asked[before.len() as int]);
            }
        }
        if after.last() is Drain {
            assert(t.outcomes() =~= u.outcomes());
        }
        if after.last() is Take {
            assert(t.taken.take(n) =~= u.taken.take(n));
            assert(t.outcomes() == u.outcomes());
        }
        if after.last() is Finish {
            assert(t.outcomes().take(m) =~= u.outcomes().take(m));
            if let Some((generation, request)) = u.running {
                if generation >= u.worker.latest {
                    assert(t.outcomes() =~= u.outcomes().push((generation, job(request))));
                }
            }
        }
    }
}

/// Of a burst of requests made while a job runs, only the last is ever taken on, and
/// no more than once, whatever happens afterwards. The job that was running leaves no
/// result: everything that comes out later is of the last request or a newer one.
pub proof fn law_a_burst_collapses_to_the_last_request<Req, Out>(
    events: Seq<Event<Req>>,
    burst: Seq<(u64, Req)>,
    after: Seq<Event<Req>>,
    job: spec_fn(Req) -> Out,
)
    requires
        burst.len() > 0,
        run_of(events, job).running is Some,
        is_rising(run_of(events + requests(burst) + after, job).asked),
    ensures
        ({
            let s = run_of(events, job);
            let t = run_of(events + requests(burst) + after, job);
            let last = burst.last().0;
            &&& forall|i: int|
                0 <= i < burst.len() - 1 ==> !t.taken.contains(#[trigger] burst[i])
            &&& is_rising(t.taken)
            &&& t.outcomes().take(s.outcomes().len() as int) == s.outcomes()
            &&& forall|i: int|
                s.outcomes().len() <= i < t.outcomes().len() ==> (#[trigger] t.outcomes()[i]).0
                    >= last
        }),
{
    let s = run_of(events, job);
    let first = events + requests(burst);
    let b = run_of(first, job);
    let t = run_of(first + after, job);
    let last = burst.last().0;
    lemma_burst(events, burst, job);
    assert(b.outcomes() == s.outcomes());
    assert(b.taken.take(s.taken.len() as int) =~= s.taken);
    assert(b.outcomes().take(s.outcomes().len() as int) =~= s.outcomes());
    assert(is_past(s, b, last));
    lemma_past(first, s, after, last, job);
    lemma_steady(first + after, job);
    lemma_asked_before(first + after, first.len() as int, job);
    assert((first + after).take(first.len() as int) =~= first);
    let asked = t.asked;
    let n = s.asked.len() as int;
    assert forall|k: int| 0 <= k < burst.len() implies asked[n + k] == #[trigger] burst[k] by {
        assert(b.asked[n + k] == burst[k]);
    }
    assert(is_rising(s.asked)) by {
        assert forall|i: int, j: int| 0 <= i < j < s.asked.len() implies (
        #[trigger] s.asked[i]).0 < (#[trigger] s.asked[j]).0 by {
            assert(s.asked[i] == b.asked[i] && b.asked[i] == asked[i]);
            assert(s.asked[j] == b.asked[j] && b.asked[j] == asked[j]);
        }
    }
    lemma_steady(events, job);
    assert forall|i: int| 0 <= i < burst.len() - 1 implies !t.taken.contains(
        #[trigger] burst[i],
    ) by {
        assert(asked[n + i] == burst[i]);
        assert(asked[n + burst.len() - 1] == burst[burst.len() - 1]);
        assert(burst[i].0 < last);
        if t.taken.contains(burst[i]) {
            let k = choose|k: int| 0 <= k < t.taken.len() && t.taken[k] == burst[i];
            if k < s.taken.len() {
                assert(s.taken[k] == t.taken.take(s.taken.len() as int)[k]);
                assert(s.taken[k].0 <= s.worker.latest);
                // A job is running, so something was asked for before the burst.
                assert(s.asked.last() == b.asked[n - 1] && b.asked[n - 1] == asked[n - 1]);
                assert(asked[n - 1].0 < asked[n + i].0);
            }
        }
    }
}

/// The last of a burst does come out: once the job that was running is done, the
/// thread takes it on, and what it makes of it is the newest result.
pub proof fn law_the_last_of_a_burst_comes_out<Req, Out>(
    events: Seq<Event<Req>>,
    burst: Seq<(u64, Req)>,
    job: spec_fn(Req) -> Out,
)
    requires
        burst.len() > 0,
        run_of(events, job).running is Some,
        is_rising(run_of(events + requests(burst), job).asked),
    ensures
        ({
            let s = run_of(events, job);
            let turns = seq![Event::Finish, Event::Take, Event::Finish, Event::Drain];
            let t = run_of(events + requests(burst) + turns, job);
            let (generation, request) = burst.last();
            &&& t.taken == s.taken.push((generation, request))
            &&& t.drained == s.outcomes().push((generation, job(request)))
        }),
{
    let s = run_of(events, job);
    let first = events + requests(burst);
    lemma_burst(events, burst, job);
    lemma_steady(first, job);
    let b = run_of(first, job);
    let e1 = first.push(Event::Finish);
    let e2 = e1.push(Event::Take);
    let e3 = e2.push(Event::Finish);
    let e4 = e3.push(Event::Drain);
    assert(first + seq![Event::Finish, Event::Take, Event::Finish, Event::Drain] =~= e4);
    assert(e4.drop_last() =~= e3 && e3.drop_last() =~= e2 && e2.drop_last() =~= e1
        && e1.drop_last() =~= first);
    assert(run_of(e1, job) == b.after(Event::Finish, job));
    assert(b.after(Event::Finish, job).worker == b.worker);
    let c = run_of(e2, job);
    assert(c.running == Some(burst.last()));
    let d = run_of(e3, job);
    assert(d.worker.results == b.worker.results.push((burst.last().0, job(burst.last().1))));
    let t = run_of(e4, job);
    assert(t.drained =~= s.outcomes().push((burst.last().0, job(burst.last().1))));
}

} // verus!
