//! The life of a worker: it starts, renders one page at a time, and ends.

use crate::engine::{
    after_fetch, begun, ended, is_recursive, law_page_is_handed_out_whole, page_of, target_path,
    EngineError, Fetch, RenderSession, RenderedPage, ResponseView, SessionView, SsrRequest,
    SsrResponse,
};
use crate::url_parts::same_path;
use crate::fetch_result::{DispatchResult, FetchFailure};
use vstd::prelude::*;

verus! {

/// Where a worker is in its life.
#[derive(Debug, Clone, Copy, PartialEq, Eq, Structural)]
pub enum Phase {
    /// It waits for the runtime of its own tasks.
    Starting,
    /// It waits for the JavaScript runtime.
    Creating,
    /// It waits for the bundle to be evaluated.
    Loading,
    /// It waits for whoever started it to hear that it is ready.
    Reporting,
    /// It waits for a request.
    Idle,
    /// It waits for a page.
    Rendering,
    /// It is done, for good.
    Ended,
}

/// What happens to a worker.
pub enum WorkerEvent {
    /// The runtime of its own tasks is there, or failed.
    LocalRuntime(Result<(), String>),
    /// The JavaScript runtime is there, or failed.
    JsRuntime(Result<(), String>),
    /// The bundle is evaluated, or failed.
    Context(Result<(), EngineError>),
    /// Whoever started it heard that it is ready, or is gone.
    Heard(bool),
    /// A request for a page has come.
    Request(SsrRequest),
    /// The page that was asked for is rendered, or failed.
    PageDone(Result<RenderedPage, EngineError>),
    /// No request can come any more.
    Closed,
}

/// What a worker does next.
pub enum WorkerAction {
    /// Creates the JavaScript runtime.
    CreateRuntime,
    /// Evaluates the bundle.
    LoadBundle,
    /// Reports that it is ready, or why it is not.
    Report(Result<(), EngineError>),
    /// Waits for a request.
    Receive,
    /// Renders the page that a request asks for, within the time that a page may
    /// take.
    Render(SsrRequest),
    /// Replies to the request whose page was rendered last.
    Reply(Result<SsrResponse, EngineError>),
    /// Stops.
    Stop,
}

/// What a worker does next, as mathematical data.
pub enum ActionView {
    /// Creates the JavaScript runtime.
    CreateRuntime,
    /// Evaluates the bundle.
    LoadBundle,
    /// Reports that it is ready, or why it is not.
    Report(Result<(), EngineError>),
    /// Waits for a request.
    Receive,
    /// Renders the page that a request asks for.
    Render(SsrRequest),
    /// Replies to the request whose page was rendered last.
    Reply(Result<ResponseView, EngineError>),
    /// Stops.
    Stop,
}

impl View for WorkerAction {
    type V = ActionView;

    open spec fn view(&self) -> ActionView {
        match *self {
            WorkerAction::CreateRuntime => ActionView::CreateRuntime,
            WorkerAction::LoadBundle => ActionView::LoadBundle,
            WorkerAction::Report(result) => ActionView::Report(result),
            WorkerAction::Receive => ActionView::Receive,
            WorkerAction::Render(request) => ActionView::Render(request),
            WorkerAction::Reply(Ok(page)) => ActionView::Reply(Ok(page@)),
            WorkerAction::Reply(Err(e)) => ActionView::Reply(Err(e)),
            WorkerAction::Stop => ActionView::Stop,
        }
    }
}

/// A worker: where it is in its life, and what the page does that it renders.
pub struct Worker {
    phase: Phase,
    session: RenderSession,
}

/// A worker as mathematical data.
pub struct WorkerView {
    /// Where it is in its life.
    pub phase: Phase,
    /// What the page does that it renders.
    pub session: SessionView,
}

impl View for Worker {
    type V = WorkerView;

    closed spec fn view(&self) -> WorkerView {
        WorkerView { phase: self.phase, session: self.session@ }
    }
}

/// The reply to a request: the page, with a note of whether it fetched anything,
/// or why there is none.
pub open spec fn reply_of(outcome: Result<RenderedPage, EngineError>, fetched: bool) -> Result<
    ResponseView,
    EngineError,
> {
    match outcome {
        Ok(page) => Ok(page_of(page, fetched)),
        Err(e) => Err(e),
    }
}

/// What an event makes of a worker, and what the worker does.
pub open spec fn next(worker: WorkerView, event: WorkerEvent) -> (WorkerView, ActionView) {
    let session = worker.session;
    match (worker.phase, event) {
        (Phase::Starting, WorkerEvent::LocalRuntime(Ok(_))) => (
            WorkerView { phase: Phase::Creating, session },
            ActionView::CreateRuntime,
        ),
        (Phase::Starting, WorkerEvent::LocalRuntime(Err(e))) => (
            WorkerView { phase: Phase::Ended, session },
            ActionView::Report(Err(EngineError::LocalRuntime(e))),
        ),
        (Phase::Creating, WorkerEvent::JsRuntime(Ok(_))) => (
            WorkerView { phase: Phase::Loading, session },
            ActionView::LoadBundle,
        ),
        (Phase::Creating, WorkerEvent::JsRuntime(Err(e))) => (
            WorkerView { phase: Phase::Ended, session },
            ActionView::Report(Err(EngineError::JsRuntime(e))),
        ),
        (Phase::Loading, WorkerEvent::Context(Ok(_))) => (
            WorkerView { phase: Phase::Reporting, session },
            ActionView::Report(Ok(())),
        ),
        (Phase::Loading, WorkerEvent::Context(Err(e))) => (
            WorkerView { phase: Phase::Ended, session },
            ActionView::Report(Err(e)),
        ),
        (Phase::Reporting, WorkerEvent::Heard(true)) => (
            WorkerView { phase: Phase::Idle, session },
            ActionView::Receive,
        ),
        (Phase::Idle, WorkerEvent::Request(request)) => (
            WorkerView { phase: Phase::Rendering, session: begun(request.url@) },
            ActionView::Render(request),
        ),
        (Phase::Rendering, WorkerEvent::PageDone(outcome)) => (
            WorkerView { phase: Phase::Idle, session: ended(session) },
            ActionView::Reply(reply_of(outcome, session.fetched)),
        ),
        _ => (WorkerView { phase: Phase::Ended, session }, ActionView::Stop),
    }
}

/// A worker before anything has happened to it.
pub open spec fn new_worker() -> WorkerView {
    WorkerView { phase: Phase::Starting, session: SessionView { page: None, fetched: false } }
}

impl Worker {
    /// A worker that starts.
    pub fn new() -> (r: Self)
        ensures
            r@ == new_worker(),
    {
        Worker { phase: Phase::Starting, session: RenderSession::new() }
    }

    /// Whether the worker can still render pages, now or later.
    pub fn is_alive(&self) -> (r: bool)
        ensures
            r == (self@.phase != Phase::Ended),
    {
        match self.phase {
            Phase::Ended => false,
            _ => true,
        }
    }

    /// Takes an event in, and says what to do next. An event that does not belong
    /// where the worker is ends it.
    pub fn step(&mut self, event: WorkerEvent) -> (r: WorkerAction)
        ensures
            (final(self)@, r@) == next(old(self)@, event),
    {
        let (phase, action) = match (self.phase, event) {
            (Phase::Starting, WorkerEvent::LocalRuntime(Ok(_))) => (
                Phase::Creating,
                WorkerAction::CreateRuntime,
            ),
            (Phase::Starting, WorkerEvent::LocalRuntime(Err(e))) => (
                Phase::Ended,
                WorkerAction::Report(Err(EngineError::LocalRuntime(e))),
            ),
            (Phase::Creating, WorkerEvent::JsRuntime(Ok(_))) => (
                Phase::Loading,
                WorkerAction::LoadBundle,
            ),
            (Phase::Creating, WorkerEvent::JsRuntime(Err(e))) => (
                Phase::Ended,
                WorkerAction::Report(Err(EngineError::JsRuntime(e))),
            ),
            (Phase::Loading, WorkerEvent::Context(Ok(_))) => (
                Phase::Reporting,
                WorkerAction::Report(Ok(())),
            ),
            (Phase::Loading, WorkerEvent::Context(Err(e))) => (
                Phase::Ended,
                WorkerAction::Report(Err(e)),
            ),
            (Phase::Reporting, WorkerEvent::Heard(true)) => (Phase::Idle, WorkerAction::Receive),
            (Phase::Idle, WorkerEvent::Request(request)) => {
                self.session.begin(request.url.as_str());
                (Phase::Rendering, WorkerAction::Render(request))
            },
            (Phase::Rendering, WorkerEvent::PageDone(outcome)) => {
                let reply = match outcome {
                    Ok(page) => Ok(self.session.page(page)),
                    Err(e) => Err(e),
                };
                self.session.end();
                (Phase::Idle, WorkerAction::Reply(reply))
            },
            _ => (Phase::Ended, WorkerAction::Stop),
        };
        self.phase = phase;
        action
    }

    /// Takes note of a fetch of a path by the page, and refuses it where the page
    /// asks for itself. Any other fetch goes to the router.
    pub fn internal_fetch(&mut self, path: &str) -> (r: Option<DispatchResult>)
        ensures
            final(self)@.phase == old(self)@.phase,
            final(self)@.session == after_fetch(old(self)@.session, Fetch::Internal(path@)),
            match r {
                Some(answer) => is_recursive(old(self)@.session, Fetch::Internal(path@)) && answer@
                    == FetchFailure::Recursive.answer(),
                None => !is_recursive(old(self)@.session, Fetch::Internal(path@)),
            },
    {
        self.session.internal_fetch(path)
    }

    /// Takes note of a fetch of an absolute URL by the page.
    pub fn external_fetch(&mut self)
        ensures
            final(self)@.phase == old(self)@.phase,
            final(self)@.session == after_fetch(old(self)@.session, Fetch::External),
    {
        self.session.external_fetch();
    }
}

/// What happens in the life of a worker.
pub enum Happening {
    /// The worker takes an event in.
    Event(WorkerEvent),
    /// The page that it renders fetches something.
    Fetched(Fetch),
}

/// What a worker is after some happenings.
pub open spec fn worker_after(h: Seq<Happening>) -> WorkerView
    decreases h.len(),
{
    if h.len() == 0 {
        new_worker()
    } else {
        let before = worker_after(h.drop_last());
        match h.last() {
            Happening::Event(event) => next(before, event).0,
            Happening::Fetched(fetch) => WorkerView {
                phase: before.phase,
                session: after_fetch(before.session, fetch),
            },
        }
    }
}

/// What a worker has done after some happenings, one action for each event.
pub open spec fn actions_after(h: Seq<Happening>) -> Seq<ActionView>
    decreases h.len(),
{
    if h.len() == 0 {
        seq![]
    } else {
        let before = actions_after(h.drop_last());
        match h.last() {
            Happening::Event(event) => before.push(next(worker_after(h.drop_last()), event).1),
            Happening::Fetched(_) => before,
        }
    }
}

/// The requests whose pages were begun, in order.
pub open spec fn rendered(actions: Seq<ActionView>) -> Seq<SsrRequest>
    decreases actions.len(),
{
    if actions.len() == 0 {
        seq![]
    } else {
        match actions.last() {
            ActionView::Render(request) => rendered(actions.drop_last()).push(request),
            _ => rendered(actions.drop_last()),
        }
    }
}

/// The replies that were given, in order.
pub open spec fn replied(actions: Seq<ActionView>) -> Seq<Result<ResponseView, EngineError>>
    decreases actions.len(),
{
    if actions.len() == 0 {
        seq![]
    } else {
        match actions.last() {
            ActionView::Reply(reply) => replied(actions.drop_last()).push(reply),
            _ => replied(actions.drop_last()),
        }
    }
}

/// What was reported to whoever started the worker, in order.
pub open spec fn reported(actions: Seq<ActionView>) -> Seq<Result<(), EngineError>>
    decreases actions.len(),
{
    if actions.len() == 0 {
        seq![]
    } else {
        match actions.last() {
            ActionView::Report(result) => reported(actions.drop_last()).push(result),
            _ => reported(actions.drop_last()),
        }
    }
}

/// How often the bundle was evaluated.
pub open spec fn loads(actions: Seq<ActionView>) -> nat
    decreases actions.len(),
{
    if actions.len() == 0 {
        0
    } else {
        loads(actions.drop_last()) + (if actions.last() is LoadBundle {
            1nat
        } else {
            0nat
        })
    }
}

/// A page from its request to its end: what was asked for, what was fetched
/// meanwhile, and what came of it.
pub struct Job {
    /// The request.
    pub request: SsrRequest,
    /// What the page fetched while it was rendered.
    pub fetches: Seq<Fetch>,
    /// What `__render` gave for the request, or why it gave nothing.
    pub outcome: Result<RenderedPage, EngineError>,
}

/// The reply to a request, which depends on nothing but that request's own page:
/// what `__render` gave for it, and whether it fetched anything.
pub open spec fn reply_to(job: Job) -> Result<ResponseView, EngineError> {
    reply_of(job.outcome, job.fetches.len() > 0)
}

/// The request whose page is being rendered, with what the page has fetched.
pub open spec fn open_page(h: Seq<Happening>) -> Option<(SsrRequest, Seq<Fetch>)>
    decreases h.len(),
{
    if h.len() == 0 {
        None
    } else {
        match h.last() {
            Happening::Event(WorkerEvent::Request(request)) => if worker_after(h.drop_last()).phase
                is Idle {
                Some((request, seq![]))
            } else {
                None
            },
            Happening::Event(_) => None,
            Happening::Fetched(fetch) => match open_page(h.drop_last()) {
                Some((request, fetches)) => Some((request, fetches.push(fetch))),
                None => None,
            },
        }
    }
}

/// The pages that came to an end, in order.
pub open spec fn jobs_done(h: Seq<Happening>) -> Seq<Job>
    decreases h.len(),
{
    if h.len() == 0 {
        seq![]
    } else {
        let before = jobs_done(h.drop_last());
        match (h.last(), open_page(h.drop_last())) {
            (Happening::Event(WorkerEvent::PageDone(outcome)), Some((request, fetches))) =>
                before.push(Job { request, fetches, outcome }),
            _ => before,
        }
    }
}

/// What happens when a worker starts well.
pub open spec fn good_start() -> Seq<Happening> {
    seq![
        Happening::Event(WorkerEvent::LocalRuntime(Ok(()))),
        Happening::Event(WorkerEvent::JsRuntime(Ok(()))),
        Happening::Event(WorkerEvent::Context(Ok(()))),
        Happening::Event(WorkerEvent::Heard(true)),
    ]
}

/// What happens for a page.
pub open spec fn job_happenings(job: Job) -> Seq<Happening> {
    seq![Happening::Event(WorkerEvent::Request(job.request))] + job.fetches.map_values(
        |fetch: Fetch| Happening::Fetched(fetch),
    ) + seq![Happening::Event(WorkerEvent::PageDone(job.outcome))]
}

/// What happens when a worker starts well and then renders some pages.
pub open spec fn good_run(jobs: Seq<Job>) -> Seq<Happening>
    decreases jobs.len(),
{
    if jobs.len() == 0 {
        good_start()
    } else {
        good_run(jobs.drop_last()) + job_happenings(jobs.last())
    }
}

/// What a worker does that starts well and then renders some pages.
pub open spec fn good_actions(jobs: Seq<Job>) -> Seq<ActionView>
    decreases jobs.len(),
{
    if jobs.len() == 0 {
        seq![
            ActionView::CreateRuntime,
            ActionView::LoadBundle,
            ActionView::Report(Ok(())),
            ActionView::Receive,
        ]
    } else {
        good_actions(jobs.drop_last()).push(ActionView::Render(jobs.last().request)).push(
            ActionView::Reply(reply_to(jobs.last())),
        )
    }
}

/// A worker renders one page at a time: a page is begun only once every earlier
/// request has been replied to, whatever happens to the worker.
pub proof fn law_one_page_at_a_time(h: Seq<Happening>)
    ensures
        replied(actions_after(h)).len() <= rendered(actions_after(h)).len() <= replied(
            actions_after(h),
        ).len() + 1,
        worker_after(h).phase is Idle ==> rendered(actions_after(h)).len() == replied(
            actions_after(h),
        ).len(),
        worker_after(h).phase is Rendering ==> rendered(actions_after(h)).len() == replied(
            actions_after(h),
        ).len() + 1,
        !(worker_after(h).phase is Idle || worker_after(h).phase is Rendering || worker_after(
            h,
        ).phase is Ended) ==> rendered(actions_after(h)).len() == 0,
    decreases h.len(),
{
    if h.len() > 0 {
        law_one_page_at_a_time(h.drop_last());
        if let Happening::Event(_) = h.last() {
            assert(actions_after(h).drop_last() =~= actions_after(h.drop_last()));
        }
    }
}

/// Whoever starts a worker hears at most once whether it is ready, and has heard
/// that it is before the worker takes a request.
pub proof fn law_readiness_is_reported_once(h: Seq<Happening>)
    ensures
        reported(actions_after(h)).len() <= 1,
        worker_after(h).phase is Starting || worker_after(h).phase is Creating || worker_after(
            h,
        ).phase is Loading ==> reported(actions_after(h)).len() == 0,
        worker_after(h).phase is Reporting || worker_after(h).phase is Idle || worker_after(
            h,
        ).phase is Rendering ==> reported(actions_after(h)) == seq![Ok::<(), EngineError>(())],
    decreases h.len(),
{
    if h.len() > 0 {
        law_readiness_is_reported_once(h.drop_last());
        if let Happening::Event(_) = h.last() {
            assert(actions_after(h).drop_last() =~= actions_after(h.drop_last()));
        }
    }
}

/// A worker evaluates the bundle at most once, and has done so once before it
/// takes a request. It does not evaluate it again from one page to the next.
pub proof fn law_bundle_is_loaded_once(h: Seq<Happening>)
    ensures
        loads(actions_after(h)) <= 1,
        worker_after(h).phase is Starting || worker_after(h).phase is Creating ==> loads(
            actions_after(h),
        ) == 0,
        worker_after(h).phase is Loading || worker_after(h).phase is Reporting ==> loads(
            actions_after(h),
        ) == 1,
        worker_after(h).phase is Idle || worker_after(h).phase is Rendering ==> loads(
            actions_after(h),
        ) == 1,
    decreases h.len(),
{
    if h.len() > 0 {
        law_bundle_is_loaded_once(h.drop_last());
        if let Happening::Event(_) = h.last() {
            assert(actions_after(h).drop_last() =~= actions_after(h.drop_last()));
        }
    }
}

/// A worker that has ended does nothing any more.
pub proof fn law_ended_is_final(worker: WorkerView, event: WorkerEvent)
    requires
        worker.phase is Ended,
    ensures
        next(worker, event) == (worker, ActionView::Stop),
{
}

proof fn lemma_open_page(h: Seq<Happening>)
    ensures
        worker_after(h).phase is Rendering <==> open_page(h) is Some,
        open_page(h) matches Some((_, fetches)) ==> worker_after(h).session.fetched == (
        fetches.len() > 0),
    decreases h.len(),
{
    if h.len() > 0 {
        lemma_open_page(h.drop_last());
    }
}

/// Each reply is that of its own request: the replies are, in order, those to the
/// pages that came to an end, and each depends on its own page alone. The pages
/// are begun in the order in which the worker takes their requests in. All this
/// holds whatever happens to the worker.
pub proof fn law_replies_are_never_swapped(h: Seq<Happening>)
    ensures
        replied(actions_after(h)).len() == jobs_done(h).len(),
        forall|i: int|
            0 <= i < jobs_done(h).len() ==> #[trigger] replied(actions_after(h))[i] == reply_to(
                jobs_done(h)[i],
            ) && rendered(actions_after(h))[i] == jobs_done(h)[i].request,
        rendered(actions_after(h)).len() >= jobs_done(h).len(),
        match open_page(h) {
            Some((request, _)) => rendered(actions_after(h)).len() == jobs_done(h).len() + 1
                && rendered(actions_after(h)).last() == request,
            None => worker_after(h).phase is Ended || rendered(actions_after(h)).len()
                == jobs_done(h).len(),
        },
    decreases h.len(),
{
    if h.len() > 0 {
        law_replies_are_never_swapped(h.drop_last());
        lemma_open_page(h.drop_last());
        if let Happening::Event(_) = h.last() {
            assert(actions_after(h).drop_last() =~= actions_after(h.drop_last()));
        }
    }
}

proof fn lemma_fetches(h: Seq<Happening>, fetches: Seq<Fetch>)
    ensures
        worker_after(h + fetches.map_values(|fetch: Fetch| Happening::Fetched(fetch))).phase
            == worker_after(h).phase,
        worker_after(
            h + fetches.map_values(|fetch: Fetch| Happening::Fetched(fetch)),
        ).session.fetched == (worker_after(h).session.fetched || fetches.len() > 0),
        actions_after(h + fetches.map_values(|fetch: Fetch| Happening::Fetched(fetch)))
            == actions_after(h),
    decreases fetches.len(),
{
    let all = fetches.map_values(|fetch: Fetch| Happening::Fetched(fetch));
    if fetches.len() == 0 {
        assert(h + all =~= h);
    } else {
        let some = fetches.drop_last().map_values(|fetch: Fetch| Happening::Fetched(fetch));
        lemma_fetches(h, fetches.drop_last());
        assert((h + all).drop_last() =~= h + some);
        assert((h + all).last() == Happening::Fetched(fetches.last()));
    }
}

proof fn lemma_event(h: Seq<Happening>, event: WorkerEvent)
    ensures
        worker_after(h.push(Happening::Event(event))) == next(worker_after(h), event).0,
        actions_after(h.push(Happening::Event(event))) == actions_after(h).push(
            next(worker_after(h), event).1,
        ),
{
    assert(h.push(Happening::Event(event)).drop_last() =~= h);
}

proof fn lemma_good_run(jobs: Seq<Job>)
    ensures
        worker_after(good_run(jobs)).phase is Idle,
        actions_after(good_run(jobs)) == good_actions(jobs),
    decreases jobs.len(),
{
    if jobs.len() == 0 {
        let h0 = Seq::<Happening>::empty();
        let h1 = h0.push(Happening::Event(WorkerEvent::LocalRuntime(Ok(()))));
        let h2 = h1.push(Happening::Event(WorkerEvent::JsRuntime(Ok(()))));
        let h3 = h2.push(Happening::Event(WorkerEvent::Context(Ok(()))));
        lemma_event(h0, WorkerEvent::LocalRuntime(Ok(())));
        lemma_event(h1, WorkerEvent::JsRuntime(Ok(())));
        lemma_event(h2, WorkerEvent::Context(Ok(())));
        lemma_event(h3, WorkerEvent::Heard(true));
        assert(good_start() =~= h3.push(Happening::Event(WorkerEvent::Heard(true))));
        assert(actions_after(good_start()) =~= good_actions(jobs));
    } else {
        let job = jobs.last();
        let h = good_run(jobs.drop_last());
        let begun = h.push(Happening::Event(WorkerEvent::Request(job.request)));
        let all = job.fetches.map_values(|fetch: Fetch| Happening::Fetched(fetch));
        lemma_good_run(jobs.drop_last());
        lemma_event(h, WorkerEvent::Request(job.request));
        lemma_fetches(begun, job.fetches);
        lemma_event(begun + all, WorkerEvent::PageDone(job.outcome));
        assert(good_run(jobs) =~= (begun + all).push(
            Happening::Event(WorkerEvent::PageDone(job.outcome)),
        ));
    }
}

proof fn lemma_good_actions(jobs: Seq<Job>)
    ensures
        rendered(good_actions(jobs)) == jobs.map_values(|job: Job| job.request),
        replied(good_actions(jobs)) == jobs.map_values(|job: Job| reply_to(job)),
    decreases jobs.len(),
{
    let actions = good_actions(jobs);
    if jobs.len() == 0 {
        reveal_with_fuel(rendered, 5);
        reveal_with_fuel(replied, 5);
        assert(rendered(actions) =~= seq![]);
        assert(replied(actions) =~= seq![]);
    } else {
        let before = good_actions(jobs.drop_last());
        let begun = before.push(ActionView::Render(jobs.last().request));
        lemma_good_actions(jobs.drop_last());
        assert(actions.drop_last() =~= begun);
        assert(begun.drop_last() =~= before);
        assert(rendered(actions) == rendered(begun));
        assert(replied(begun) == replied(before));
        assert(rendered(actions) =~= jobs.map_values(|job: Job| job.request));
        assert(replied(actions) =~= jobs.map_values(|job: Job| reply_to(job)));
    }
}

/// A worker that starts well reports once that it is ready. Then it renders the
/// pages of its requests in the order in which they come, and gives each the
/// reply of its own page before it begins the next; a page that fails stops none
/// of those after it. Until no request can come any more the worker is alive, and
/// after that it is not.
pub proof fn law_requests_are_served_in_turn(jobs: Seq<Job>)
    ensures
        actions_after(good_run(jobs)) == good_actions(jobs),
        reported(actions_after(good_run(jobs))) == seq![Ok::<(), EngineError>(())],
        rendered(actions_after(good_run(jobs))) == jobs.map_values(|job: Job| job.request),
        replied(actions_after(good_run(jobs))) == jobs.map_values(|job: Job| reply_to(job)),
        worker_after(good_run(jobs)).phase is Idle,
        worker_after(good_run(jobs).push(Happening::Event(WorkerEvent::Closed))).phase is Ended,
        actions_after(good_run(jobs).push(Happening::Event(WorkerEvent::Closed)))
            == good_actions(jobs).push(ActionView::Stop),
{
    lemma_good_run(jobs);
    lemma_good_actions(jobs);
    law_readiness_is_reported_once(good_run(jobs));
    lemma_event(good_run(jobs), WorkerEvent::Closed);
}

/// The reply to a request says that its page fetched something where a fetch
/// function was called while that very page was rendered, and nowhere else.
pub proof fn law_fetched_is_of_the_own_page(jobs: Seq<Job>, i: int)
    requires
        0 <= i < jobs.len(),
    ensures
        replied(actions_after(good_run(jobs)))[i] matches Ok(page) ==> page.fetched == (
        jobs[i].fetches.len() > 0),
        replied(actions_after(good_run(jobs)))[i] is Ok <==> jobs[i].outcome is Ok,
{
    law_requests_are_served_in_turn(jobs);
}

/// Nothing of one request shows in the reply to another: a page that is asked
/// for, rendered and fetches alike in two runs gets the same reply in both,
/// whatever comes before and after it and at whatever place it stands.
pub proof fn law_requests_are_isolated(a: Seq<Job>, i: int, b: Seq<Job>, j: int)
    requires
        0 <= i < a.len(),
        0 <= j < b.len(),
        a[i] == b[j],
    ensures
        replied(actions_after(good_run(a)))[i] == replied(actions_after(good_run(b)))[j],
        replied(actions_after(good_run(a)))[i] == reply_to(a[i]),
        rendered(actions_after(good_run(a)))[i] == a[i].request,
{
    law_requests_are_served_in_turn(a);
    law_requests_are_served_in_turn(b);
}

/// The reply to a request is what `__render` gave for it, untouched: the page with
/// its status, its body and its header fields in order, or the error.
pub proof fn law_replies_carry_the_pages(jobs: Seq<Job>, i: int, k: int)
    requires
        0 <= i < jobs.len(),
    ensures
        match jobs[i].outcome {
            Ok(page) => replied(actions_after(good_run(jobs)))[i] matches Ok(reply) && {
                &&& reply.status == page.status
                &&& reply.body == page.body@
                &&& page.headers is None ==> reply.headers.len() == 0
                &&& page.headers matches Some(list) ==> reply.headers.len() == list@.len() && (0
                    <= k < list@.len() ==> reply.headers[k] == (list@[k].0@, list@[k].1@))
            },
            Err(e) => replied(actions_after(good_run(jobs)))[i] == Err::<ResponseView, _>(e),
        },
{
    law_requests_are_served_in_turn(jobs);
    if let Ok(page) = jobs[i].outcome {
        law_page_is_handed_out_whole(page, jobs[i].fetches.len() > 0, k);
    }
}

/// A worker that cannot start reports why, once, and has then ended: it evaluates
/// no bundle without a runtime, and takes no request.
pub proof fn law_failed_start_is_reported(e: String, error: EngineError)
    ensures
        ({
            let h = seq![Happening::Event(WorkerEvent::LocalRuntime(Err(e)))];
            &&& actions_after(h) == seq![
                ActionView::Report(Err(EngineError::LocalRuntime(e))),
            ]
            &&& worker_after(h).phase is Ended
        }),
        ({
            let h = seq![
                Happening::Event(WorkerEvent::LocalRuntime(Ok(()))),
                Happening::Event(WorkerEvent::JsRuntime(Err(e))),
            ];
            &&& actions_after(h) == seq![
                ActionView::CreateRuntime,
                ActionView::Report(Err(EngineError::JsRuntime(e))),
            ]
            &&& worker_after(h).phase is Ended
        }),
        ({
            let h = seq![
                Happening::Event(WorkerEvent::LocalRuntime(Ok(()))),
                Happening::Event(WorkerEvent::JsRuntime(Ok(()))),
                Happening::Event(WorkerEvent::Context(Err(error))),
            ];
            &&& actions_after(h) == seq![
                ActionView::CreateRuntime,
                ActionView::LoadBundle,
                ActionView::Report(Err(error)),
            ]
            &&& worker_after(h).phase is Ended
        }),
{
    let h0 = Seq::<Happening>::empty();
    let h1 = h0.push(Happening::Event(WorkerEvent::LocalRuntime(Ok(()))));
    let h2 = h1.push(Happening::Event(WorkerEvent::JsRuntime(Ok(()))));
    lemma_event(h0, WorkerEvent::LocalRuntime(Ok(())));
    lemma_event(h0, WorkerEvent::LocalRuntime(Err(e)));
    lemma_event(h1, WorkerEvent::JsRuntime(Ok(())));
    lemma_event(h1, WorkerEvent::JsRuntime(Err(e)));
    lemma_event(h2, WorkerEvent::Context(Err(error)));
    let a = seq![Happening::Event(WorkerEvent::LocalRuntime(Err(e)))];
    let b = seq![
        Happening::Event(WorkerEvent::LocalRuntime(Ok(()))),
        Happening::Event(WorkerEvent::JsRuntime(Err(e))),
    ];
    let c = seq![
        Happening::Event(WorkerEvent::LocalRuntime(Ok(()))),
        Happening::Event(WorkerEvent::JsRuntime(Ok(()))),
        Happening::Event(WorkerEvent::Context(Err(error))),
    ];
    assert(a =~= h0.push(Happening::Event(WorkerEvent::LocalRuntime(Err(e)))));
    assert(b =~= h1.push(Happening::Event(WorkerEvent::JsRuntime(Err(e)))));
    assert(c =~= h2.push(Happening::Event(WorkerEvent::Context(Err(error)))));
    assert(actions_after(a) =~= seq![ActionView::Report(Err(EngineError::LocalRuntime(e)))]);
    assert(actions_after(b) =~= seq![
        ActionView::CreateRuntime,
        ActionView::Report(Err(EngineError::JsRuntime(e))),
    ]);
    assert(actions_after(c) =~= seq![
        ActionView::CreateRuntime,
        ActionView::LoadBundle,
        ActionView::Report(Err(error)),
    ]);
}

/// A worker takes an event only where it waits for it; any other event, and the news
/// that nobody heard that it is ready, ends it.
pub proof fn law_stray_events_end_a_worker(worker: WorkerView, event: WorkerEvent)
    ensures
        !(next(worker, event).0.phase is Ended) <==> match event {
            WorkerEvent::LocalRuntime(r) => worker.phase is Starting && r is Ok,
            WorkerEvent::JsRuntime(r) => worker.phase is Creating && r is Ok,
            WorkerEvent::Context(r) => worker.phase is Loading && r is Ok,
            WorkerEvent::Heard(heard) => worker.phase is Reporting && heard,
            WorkerEvent::Request(_) => worker.phase is Idle,
            WorkerEvent::PageDone(_) => worker.phase is Rendering,
            WorkerEvent::Closed => false,
        },
{
}

/// While a page is rendered, the path that it may not fetch is that of its own
/// request; once it is done there is none.
pub proof fn law_page_is_guarded_while_it_is_rendered(
    worker: WorkerView,
    request: SsrRequest,
    outcome: Result<RenderedPage, EngineError>,
    path: Seq<char>,
)
    ensures
        worker.phase is Idle ==> (is_recursive(
            next(worker, WorkerEvent::Request(request)).0.session,
            Fetch::Internal(path),
        ) <==> same_path(target_path(request.url@), target_path(path))),
        worker.phase is Idle ==> !next(worker, WorkerEvent::Request(request)).0.session.fetched,
        worker.phase is Rendering ==> !is_recursive(
            next(worker, WorkerEvent::PageDone(outcome)).0.session,
            Fetch::Internal(path),
        ),
{
}

} // verus!
