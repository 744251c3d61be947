//! How the server that runs the app starts, and how it works off its requests.
use crate::path::FilePath;
use crate::text;
use vstd::hash_set::StringHashSet;
use vstd::prelude::*;

verus! {

/// What a server tells once it is up.
pub struct InitializedResponse {
    /// The paths of the pages that were rendered ahead.
    pub prerendered: StringHashSet,
    /// The path of the app.
    pub app_path: String,
}

/// The set of the given texts.
pub fn text_set(strings: Vec<String>) -> (set: StringHashSet)
    ensures
        set@ == text::texts(strings@).to_set(),
{
    let mut set = StringHashSet::new();
    let mut at: usize = 0;
    assert(text::texts(strings@).take(0).to_set() =~= Set::<Seq<char>>::empty());
    while at < strings.len()
        invariant
            at <= strings.len(),
            set@ == text::texts(strings@).take(at as int).to_set(),
        decreases strings.len() - at,
    {
        set.insert(strings[at].clone());
        proof {
            let all = text::texts(strings@);
            let seen = all.take(at as int);
            let more = all.take(at + 1);
            assert(more =~= seen.push(strings@[at as int]@));
            assert(more.to_set() =~= seen.to_set().insert(strings@[at as int]@)) by {
                assert forall|t: Seq<char>| more.contains(t) == (seen.contains(t) || t
                    == strings@[at as int]@) by {
                    if seen.contains(t) {
                        let i = choose|i: int| 0 <= i < seen.len() && seen[i] == t;
                        assert(more[i] == t);
                    }
                    assert(more[at as int] == strings@[at as int]@);
                    if more.contains(t) {
                        let i = choose|i: int| 0 <= i < more.len() && more[i] == t;
                        if i < at {
                            assert(seen[i] == t);
                        }
                    }
                }
            }
        }
        at = at + 1;
    }
    assert(text::texts(strings@).take(at as int) =~= text::texts(strings@));
    set
}

impl InitializedResponse {
    /// Collects what a server tells of itself.
    pub fn new(prerendered: Vec<String>, app_path: String) -> (r: InitializedResponse)
        ensures
            r.prerendered@ == text::texts(prerendered@).to_set(),
            r.app_path@ == app_path@,
    {
        InitializedResponse { prerendered: text_set(prerendered), app_path }
    }
}

/// The steps in which the server starts.
#[derive(Copy, Clone, Debug, PartialEq, Eq, Structural)]
pub enum StartStage {
    /// Build the runtime of the thread that the server has to itself.
    BuildRuntime,
    /// Turn the path of the main module into a module specifier.
    ResolveModule,
    /// Load the main module, and take the request handler from it.
    InitServer,
    /// Tell the creator of the server that it is up.
    Announce,
}

/// Why a server does not start.
#[derive(Copy, Clone, Debug, PartialEq, Eq, Structural)]
pub enum StartFailure {
    /// The runtime could not be built.
    Runtime,
    /// The path of the main module is not valid.
    ModulePath,
    /// The main module could not be loaded, or it has no request handler.
    Init,
}

impl StartFailure {
    /// What the creator of the server is told, where the step that failed gives no error of
    /// its own.
    pub open spec fn text(self) -> Option<Seq<char>> {
        match self {
            StartFailure::Runtime => None,
            StartFailure::ModulePath => Some("invalid main module path"@),
            StartFailure::Init => None,
        }
    }

    /// What the creator of the server is told, where the step that failed gives no error of
    /// its own. Otherwise it is told that error.
    pub fn message(&self) -> (message: Option<&'static str>)
        ensures
            match message {
                Some(message) => self.text() == Some(message@),
                None => self.text() is None,
            },
            *self == StartFailure::ModulePath ==> message is Some && message->0@
                == "invalid main module path"@,
            *self != StartFailure::ModulePath ==> message is None,
    {
        match self {
            StartFailure::ModulePath => Some("invalid main module path"),
            _ => None,
        }
    }
}

/// What follows a step of the start.
#[derive(Copy, Clone, Debug, PartialEq, Eq, Structural)]
pub enum StartStep {
    Continue { stage: StartStage },
    /// Work off requests.
    Run,
    /// Tell the creator of the server why it did not start, and end.
    Report { failure: StartFailure },
    /// End: the creator of the server is gone.
    Stop,
}

/// What follows a step of the start that succeeded or failed.
pub open spec fn start_after(stage: StartStage, ok: bool) -> StartStep {
    match stage {
        StartStage::BuildRuntime => if ok {
            StartStep::Continue { stage: StartStage::ResolveModule }
        } else {
            StartStep::Report { failure: StartFailure::Runtime }
        },
        StartStage::ResolveModule => if ok {
            StartStep::Continue { stage: StartStage::InitServer }
        } else {
            StartStep::Report { failure: StartFailure::ModulePath }
        },
        StartStage::InitServer => if ok {
            StartStep::Continue { stage: StartStage::Announce }
        } else {
            StartStep::Report { failure: StartFailure::Init }
        },
        StartStage::Announce => if ok {
            StartStep::Run
        } else {
            StartStep::Stop
        },
    }
}

/// Decides what follows a step of the start.
pub fn start_continues(stage: StartStage, ok: bool) -> (step: StartStep)
    ensures
        step == start_after(stage, ok),
{
    match stage {
        StartStage::BuildRuntime => if ok {
            StartStep::Continue { stage: StartStage::ResolveModule }
        } else {
            StartStep::Report { failure: StartFailure::Runtime }
        },
        StartStage::ResolveModule => if ok {
            StartStep::Continue { stage: StartStage::InitServer }
        } else {
            StartStep::Report { failure: StartFailure::ModulePath }
        },
        StartStage::InitServer => if ok {
            StartStep::Continue { stage: StartStage::Announce }
        } else {
            StartStep::Report { failure: StartFailure::Init }
        },
        StartStage::Announce => if ok {
            StartStep::Run
        } else {
            StartStep::Stop
        },
    }
}

/// How many steps of the start are left.
pub open spec fn stages_left(stage: StartStage) -> nat {
    match stage {
        StartStage::BuildRuntime => 3,
        StartStage::ResolveModule => 2,
        StartStage::InitServer => 1,
        StartStage::Announce => 0,
    }
}

/// How the start ends, given which of its steps succeed.
pub open spec fn start_outcome(ok: spec_fn(StartStage) -> bool, stage: StartStage) -> StartStep
    decreases stages_left(stage),
{
    match start_after(stage, ok(stage)) {
        StartStep::Continue { stage: next } => if stages_left(next) < stages_left(stage) {
            start_outcome(ok, next)
        } else {
            StartStep::Stop
        },
        step => step,
    }
}

/// The server works off requests only once all steps of its start succeeded. A failure
/// before it is announced is reported, the first of them and no other; where nobody hears
/// that it is up, it ends.
pub proof fn law_start(ok: spec_fn(StartStage) -> bool)
    ensures
        start_outcome(ok, StartStage::BuildRuntime) == (if !ok(StartStage::BuildRuntime) {
            StartStep::Report { failure: StartFailure::Runtime }
        } else if !ok(StartStage::ResolveModule) {
            StartStep::Report { failure: StartFailure::ModulePath }
        } else if !ok(StartStage::InitServer) {
            StartStep::Report { failure: StartFailure::Init }
        } else if !ok(StartStage::Announce) {
            StartStep::Stop
        } else {
            StartStep::Run
        }),
{
    reveal_with_fuel(start_outcome, 4);
}

/// The path of the main module, from the directory of the server.
pub fn main_module_path() -> (path: FilePath)
    ensures
        path@ == seq!["index.js"@],
{
    FilePath::top_level("index.js")
}

/// The states of one turn of the loop that drives the server.
#[derive(Copy, Clone, Debug, PartialEq, Eq, Structural)]
pub enum TurnState {
    /// The tasks are polled.
    Tasks,
    /// The event loop of the app is polled.
    Events,
    /// The tasks are polled again, for promises that are settled now.
    TasksAgain,
}

/// What a poll gave.
#[derive(Copy, Clone, Debug, PartialEq, Eq, Structural)]
pub enum Polled {
    Pending,
    Ready,
    /// What was polled ended with an error.
    Failed,
}

/// What follows a poll in a turn of the loop.
#[derive(Copy, Clone, Debug, PartialEq, Eq, Structural)]
pub enum TurnStep {
    Poll { state: TurnState },
    /// The turn ends, and the loop goes on when something happens.
    Wait,
    /// The loop ends.
    Finish,
}

/// What follows a poll in a turn of the loop: it ends once all tasks are done or the event
/// loop fails. Tasks are polled again only where the event loop came to its end for now.
pub open spec fn turn_after(state: TurnState, polled: Polled) -> TurnStep {
    match state {
        TurnState::Tasks => if polled == Polled::Pending {
            TurnStep::Poll { state: TurnState::Events }
        } else {
            TurnStep::Finish
        },
        TurnState::Events => match polled {
            Polled::Pending => TurnStep::Wait,
            Polled::Ready => TurnStep::Poll { state: TurnState::TasksAgain },
            Polled::Failed => TurnStep::Finish,
        },
        TurnState::TasksAgain => if polled == Polled::Pending {
            TurnStep::Wait
        } else {
            TurnStep::Finish
        },
    }
}

/// Decides what follows a poll in a turn of the loop.
pub fn turn_continues(state: TurnState, polled: Polled) -> (step: TurnStep)
    ensures
        step == turn_after(state, polled),
{
    match state {
        TurnState::Tasks => match polled {
            Polled::Pending => TurnStep::Poll { state: TurnState::Events },
            _ => TurnStep::Finish,
        },
        TurnState::Events => match polled {
            Polled::Pending => TurnStep::Wait,
            Polled::Ready => TurnStep::Poll { state: TurnState::TasksAgain },
            Polled::Failed => TurnStep::Finish,
        },
        TurnState::TasksAgain => match polled {
            Polled::Pending => TurnStep::Wait,
            _ => TurnStep::Finish,
        },
    }
}

/// How a turn ends, given what the polls give.
pub open spec fn turn(tasks: Polled, events: Polled, tasks_again: Polled) -> TurnStep {
    match turn_after(TurnState::Tasks, tasks) {
        TurnStep::Poll { .. } => match turn_after(TurnState::Events, events) {
            TurnStep::Poll { .. } => turn_after(TurnState::TasksAgain, tasks_again),
            step => step,
        },
        step => step,
    }
}

/// The loop ends exactly where the tasks are done, where the event loop fails, or where the
/// tasks are done after the event loop came to its end; otherwise it waits.
pub proof fn law_turn(tasks: Polled, events: Polled, tasks_again: Polled)
    ensures
        turn(tasks, events, tasks_again) == (if tasks != Polled::Pending || events
            == Polled::Failed || events == Polled::Ready && tasks_again != Polled::Pending {
            TurnStep::Finish
        } else {
            TurnStep::Wait
        }),
{
}

/// What came in from the handles of the server.
#[derive(Copy, Clone, Debug, PartialEq, Eq, Structural)]
pub enum Incoming {
    /// Nothing for now.
    Nothing,
    /// All handles are closed.
    Closed,
    Request,
}

/// What follows while requests are taken in.
#[derive(Copy, Clone, Debug, PartialEq, Eq, Structural)]
pub enum IntakeStep {
    /// Invoke the request handler of the app.
    Invoke,
    /// Answer the request with the error of the handler, then see what comes in.
    Refuse,
    /// Wait for the promise of the handler in a task of its own, then see what comes in.
    Follow,
    /// Wait.
    Wait,
}

/// What follows what came in. The server goes on waiting where all handles are closed:
/// requests that it has taken in are still answered.
pub open spec fn received_step(incoming: Incoming) -> IntakeStep {
    match incoming {
        Incoming::Request => IntakeStep::Invoke,
        Incoming::Nothing => IntakeStep::Wait,
        Incoming::Closed => IntakeStep::Wait,
    }
}

/// Decides what follows what came in.
pub fn received(incoming: Incoming) -> (step: IntakeStep)
    ensures
        step == received_step(incoming),
{
    match incoming {
        Incoming::Request => IntakeStep::Invoke,
        Incoming::Nothing => IntakeStep::Wait,
        Incoming::Closed => IntakeStep::Wait,
    }
}

/// What follows the invocation of the request handler.
pub open spec fn invoked_step(ok: bool) -> IntakeStep {
    if ok {
        IntakeStep::Follow
    } else {
        IntakeStep::Refuse
    }
}

/// Decides what follows the invocation of the request handler.
pub fn invoked(ok: bool) -> (step: IntakeStep)
    ensures
        step == invoked_step(ok),
{
    if ok {
        IntakeStep::Follow
    } else {
        IntakeStep::Refuse
    }
}

/// What is done with the requests that come in, up to where the server waits, given what
/// comes in and whether the request handler can be invoked each time.
pub open spec fn intake(events: Seq<(Incoming, bool)>) -> Seq<IntakeStep>
    decreases events.len(),
{
    if events.len() == 0 || received_step(events[0].0) == IntakeStep::Wait {
        Seq::empty()
    } else {
        seq![invoked_step(events[0].1)] + intake(events.skip(1))
    }
}

/// The step with which taking in requests ends.
pub open spec fn intake_end(events: Seq<(Incoming, bool)>) -> IntakeStep
    decreases events.len(),
{
    if events.len() == 0 {
        IntakeStep::Wait
    } else {
        match received_step(events[0].0) {
            IntakeStep::Invoke => intake_end(events.skip(1)),
            step => step,
        }
    }
}

/// Every request that comes in before the server waits is taken in, in its turn, and one
/// thing is done with it: the app follows it up, or it is refused where the handler cannot
/// be invoked. A refusal keeps no later request from being taken in. Then the server waits,
/// also where all handles are closed; it never ends by itself.
pub proof fn law_intake(events: Seq<(Incoming, bool)>, n: int)
    requires
        0 <= n <= events.len(),
        forall|i: int| 0 <= i < n ==> (#[trigger] events[i]).0 == Incoming::Request,
        n < events.len() ==> events[n].0 != Incoming::Request,
    ensures
        intake(events).len() == n,
        forall|i: int|
            0 <= i < n ==> #[trigger] intake(events)[i] == if events[i].1 {
                IntakeStep::Follow
            } else {
                IntakeStep::Refuse
            },
        intake_end(events) == IntakeStep::Wait,
    decreases events.len(),
{
    if n > 0 {
        let rest = events.skip(1);
        assert(events[0].0 == Incoming::Request);
        assert forall|i: int| 0 <= i < n - 1 implies (#[trigger] rest[i]).0 == Incoming::Request by {
            assert(rest[i] == events[i + 1]);
        }
        law_intake(rest, n - 1);
        assert forall|i: int| 0 <= i < n implies #[trigger] intake(events)[i] == if events[i].1 {
            IntakeStep::Follow
        } else {
            IntakeStep::Refuse
        } by {
            if i > 0 {
                assert(intake(events)[i] == intake(rest)[i - 1]);
                assert(rest[i - 1] == events[i]);
            }
        }
    }
}

} // verus!
