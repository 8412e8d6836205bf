//! The restart that replaces the running program by a freshly loaded one.
//!
//! A restart goes through three steps, and none starts before the one before
//! it is done: wait until every pending child has exited; find the path of
//! the running executable; hand the assignment of windows to workspaces to the
//! new image, as the third of its arguments. Waiting, finding the path and
//! replacing the image are the caller's work: the [`RestartCoordinator`] says
//! which of them is due, and takes what came of it as a [`RestartEvent`].
//!
//! The payload is written by `rustc_serialize::json::encode`. Of that call one
//! thing is believed: that what it returns depends on the list of assignments
//! alone. What the text is, is not believed: it is read back, and the image is
//! replaced only if it is the payload of the windows at hand.

use crate::payload::{decode, decoded, lemma_decoded_iff_payload, payload_text};
use crate::pending::{lemma_remove_value, ChildId, PendingChildRegistry};
use crate::workspace::Assignment;
use vstd::prelude::*;
use vstd::string::*;

verus! {

/// The error of `rustc_serialize::json::encode`. It is carried through
/// unopened: every value of it counts as a failed encoding.
#[verifier::external_type_specification]
#[verifier::external_body]
pub struct ExEncoderError(rustc_serialize::json::EncoderError);

/// Why a restart did not happen. The manager goes on in the state it had.
#[derive(Clone, Copy, Debug, PartialEq, Eq, Structural)]
pub enum RestartError {
    /// The path of the running executable could not be found.
    PathResolution,
    /// The encoder failed, or wrote what is not the payload of the windows.
    Serialization,
    /// The operating system refused to replace the image.
    Replacement,
}

/// What `rustc_serialize::json::encode` returns for a list of assignments:
/// the text, or nothing where it fails.
pub uninterp spec fn json_encoded(assignments: Seq<Assignment>) -> Option<Seq<char>>;

/// Whether the encoder writes the payload of `assignments`.
pub open spec fn encoder_writes_payload(assignments: Seq<Assignment>) -> bool {
    json_encoded(assignments) == Some(payload_text(assignments))
}

/// Calls `rustc_serialize::json::encode` on the list of assignments. Claimed
/// is that the result is a function of the list: the encoder writes integers
/// and brackets into a string, and looks at nothing else. What the text is,
/// is not claimed: [`checked_payload`] reads it back.
#[verifier::external_body]
fn json_encode(assignments: &Vec<Assignment>) -> (r: Result<
    String,
    rustc_serialize::json::EncoderError,
>)
    ensures
        match r {
            Ok(text) => json_encoded(assignments@) == Some(text@),
            Err(_) => json_encoded(assignments@) is None,
        },
{
    rustc_serialize::json::encode(assignments)
}

/// Whether two lists hold the same assignments in the same order.
fn same_assignments(a: &Vec<Assignment>, b: &Vec<Assignment>) -> (r: bool)
    ensures
        r == (a@ == b@),
{
    if a.len() != b.len() {
        return false;
    }
    let mut i: usize = 0;
    while i < a.len()
        invariant
            i <= a.len(),
            a.len() == b.len(),
            a@.take(i as int) == b@.take(i as int),
        decreases a.len() - i,
    {
        if a[i].0 != b[i].0 || a[i].1 != b[i].1 {
            return false;
        }
        assert(a@.take(i + 1) =~= a@.take(i as int).push(a@[i as int]));
        assert(b@.take(i + 1) =~= b@.take(i as int).push(b@[i as int]));
        i = i + 1;
    }
    assert(a@ =~= a@.take(a.len() as int));
    assert(b@ =~= b@.take(b.len() as int));
    true
}

/// Accepts what the encoder returned if it is the payload of `assignments`,
/// and answers anything else with [`RestartError::Serialization`].
pub fn checked_payload(
    assignments: &Vec<Assignment>,
    encoded: Result<String, rustc_serialize::json::EncoderError>,
) -> (r: Result<String, RestartError>)
    ensures
        match encoded {
            Ok(text) => r == if text@ == payload_text(assignments@) {
                Ok::<String, RestartError>(text)
            } else {
                Err(RestartError::Serialization)
            },
            Err(_) => r == Err::<String, RestartError>(RestartError::Serialization),
        },
{
    match encoded {
        Err(_) => Err(RestartError::Serialization),
        Ok(text) => {
            proof {
                lemma_decoded_iff_payload(text@, assignments@);
            }
            match decode(text.as_str()) {
                None => Err(RestartError::Serialization),
                Some(read) => {
                    if same_assignments(&read, assignments) {
                        Ok(text)
                    } else {
                        Err(RestartError::Serialization)
                    }
                },
            }
        },
    }
}

/// Writes the resume payload of `assignments`: gives the encoder's text where
/// that is the payload, and [`RestartError::Serialization`] where the encoder
/// fails or writes anything else.
pub fn encode_payload(assignments: &Vec<Assignment>) -> (r: Result<String, RestartError>)
    ensures
        match r {
            Ok(text) => text@ == payload_text(assignments@) && encoder_writes_payload(
                assignments@,
            ),
            Err(e) => e == RestartError::Serialization && !encoder_writes_payload(assignments@),
        },
{
    checked_payload(assignments, json_encode(assignments))
}

/// The argument that tells a new image to resume.
pub open spec fn resume_flag() -> Seq<char> {
    "--resume"@
}

/// What the new image is started with.
#[derive(Debug, PartialEq, Eq)]
pub struct ResumeArgs {
    /// The absolute path of the executable to load.
    pub path: String,
    /// The name under which the running program was invoked.
    pub invocation: String,
    /// The resume payload.
    pub payload: String,
}

/// What a [`ResumeArgs`] holds.
pub struct Resume {
    pub path: Seq<char>,
    pub invocation: Seq<char>,
    pub payload: Seq<char>,
}

impl Resume {
    /// The argument vector of the new image.
    pub open spec fn argv(self) -> Seq<Seq<char>> {
        seq![self.invocation, resume_flag(), self.payload]
    }
}

impl View for ResumeArgs {
    type V = Resume;

    open spec fn view(&self) -> Resume {
        Resume { path: self.path@, invocation: self.invocation@, payload: self.payload@ }
    }
}

impl ResumeArgs {
    /// The argument vector of the new image: the invocation name, the resume
    /// flag and the payload.
    pub fn argv(&self) -> (r: Vec<String>)
        ensures
            r.deep_view() == self@.argv(),
    {
        let mut r: Vec<String> = Vec::new();
        r.push(self.invocation.clone());
        r.push(String::from_str("--resume"));
        r.push(self.payload.clone());
        assert(r.deep_view() =~= self@.argv());
        r
    }
}

/// How a program was started, as its arguments tell.
#[derive(Debug, PartialEq, Eq)]
pub enum Startup {
    /// Without the resume flag: start with no windows.
    Fresh,
    /// With the flag and a payload: take these windows over.
    Resume(Vec<Assignment>),
    /// With the flag, and without a payload that can be read.
    Unreadable,
}

/// What a [`Startup`] holds.
pub enum StartupKind {
    Fresh,
    Resume(Seq<Assignment>),
    Unreadable,
}

impl View for Startup {
    type V = StartupKind;

    open spec fn view(&self) -> StartupKind {
        match self {
            Startup::Fresh => StartupKind::Fresh,
            Startup::Resume(assignments) => StartupKind::Resume(assignments@),
            Startup::Unreadable => StartupKind::Unreadable,
        }
    }
}

/// How a program with the argument vector `argv` was started. The flag counts
/// only as the second argument, and the payload is the third.
pub open spec fn startup_of(argv: Seq<Seq<char>>) -> StartupKind {
    if argv.len() < 2 || argv[1] != resume_flag() {
        StartupKind::Fresh
    } else if argv.len() < 3 {
        StartupKind::Unreadable
    } else {
        match decoded(argv[2]) {
            Some(assignments) => StartupKind::Resume(assignments),
            None => StartupKind::Unreadable,
        }
    }
}

/// Reads the argument vector that a program was started with.
pub fn read_arguments(argv: &Vec<String>) -> (r: Startup)
    ensures
        r@ == startup_of(argv.deep_view()),
{
    if argv.len() < 2 {
        return Startup::Fresh;
    }
    let flag = String::from_str("--resume");
    if !(argv[1] == flag) {
        return Startup::Fresh;
    }
    if argv.len() < 3 {
        return Startup::Unreadable;
    }
    match decode(argv[2].as_str()) {
        Some(assignments) => Startup::Resume(assignments),
        None => Startup::Unreadable,
    }
}

/// How far a restart has come.
#[derive(Clone, Copy, Debug, PartialEq, Eq, Structural)]
pub enum RestartPhase {
    /// Children are pending.
    Draining,
    /// No child is pending; the path of the executable is being found.
    Resolving,
    /// The image is being replaced.
    Replacing,
    /// The restart has failed.
    Abandoned(RestartError),
}

/// What came of the action that the coordinator asked for.
#[derive(Debug, PartialEq, Eq)]
pub enum RestartEvent {
    /// This child has exited.
    ChildExited(ChildId),
    /// The running executable has this absolute path.
    PathResolved(String),
    /// The path of the running executable could not be found.
    PathUnresolved,
    /// The call that replaces the image has returned.
    ReplacementFailed,
}

/// What a [`RestartEvent`] holds.
pub enum Event {
    ChildExited(ChildId),
    PathResolved(Seq<char>),
    PathUnresolved,
    ReplacementFailed,
}

impl View for RestartEvent {
    type V = Event;

    open spec fn view(&self) -> Event {
        match self {
            RestartEvent::ChildExited(child) => Event::ChildExited(*child),
            RestartEvent::PathResolved(path) => Event::PathResolved(path@),
            RestartEvent::PathUnresolved => Event::PathUnresolved,
            RestartEvent::ReplacementFailed => Event::ReplacementFailed,
        }
    }
}

/// What the caller is to do next.
#[derive(Debug, PartialEq, Eq)]
pub enum RestartAction {
    /// Wait until this child has exited, then report
    /// [`RestartEvent::ChildExited`].
    Await(ChildId),
    /// Find the absolute path of the running executable, then report
    /// [`RestartEvent::PathResolved`] or [`RestartEvent::PathUnresolved`].
    ResolveExecutable,
    /// Replace the process image. If the call returns, report
    /// [`RestartEvent::ReplacementFailed`].
    Replace(ResumeArgs),
    /// Give the restart up and go on as before.
    Abandon(RestartError),
    /// Nothing new: go on with what was asked for last.
    Unchanged,
}

/// What a [`RestartAction`] holds.
pub enum Action {
    Await(ChildId),
    ResolveExecutable,
    Replace(Resume),
    Abandon(RestartError),
    Unchanged,
}

impl View for RestartAction {
    type V = Action;

    open spec fn view(&self) -> Action {
        match self {
            RestartAction::Await(child) => Action::Await(*child),
            RestartAction::ResolveExecutable => Action::ResolveExecutable,
            RestartAction::Replace(args) => Action::Replace(args@),
            RestartAction::Abandon(error) => Action::Abandon(*error),
            RestartAction::Unchanged => Action::Unchanged,
        }
    }
}

/// What a [`RestartCoordinator`] holds.
pub struct Restart {
    pub phase: RestartPhase,
    /// The children that have not exited yet, in the order of their
    /// registration.
    pub pending: Seq<ChildId>,
    /// The windows to hand over.
    pub assignments: Seq<Assignment>,
    /// The name under which the running program was invoked.
    pub invocation: Seq<char>,
}

/// The phase that a restart is in with these children pending, and the action
/// that is due on entering it.
pub open spec fn entered(pending: Seq<ChildId>) -> (RestartPhase, Action) {
    if pending.len() > 0 {
        (RestartPhase::Draining, Action::Await(pending[0]))
    } else {
        (RestartPhase::Resolving, Action::ResolveExecutable)
    }
}

impl Restart {
    /// A restart is draining exactly as long as a child is pending, and holds
    /// no child twice.
    pub open spec fn wf(self) -> bool {
        &&& self.pending.no_duplicates()
        &&& self.phase is Draining <==> self.pending.len() > 0
    }

    /// The same restart in another phase.
    pub open spec fn in_phase(self, phase: RestartPhase) -> Restart {
        Restart {
            phase,
            pending: self.pending,
            assignments: self.assignments,
            invocation: self.invocation,
        }
    }

    /// A restart as it begins, and the first action.
    pub open spec fn started(
        pending: Seq<ChildId>,
        assignments: Seq<Assignment>,
        invocation: Seq<char>,
    ) -> (Restart, Action) {
        let (phase, action) = entered(pending);
        (Restart { phase, pending, assignments, invocation }, action)
    }

    /// The restart after `event`, and the action that follows. `encoded` says
    /// whether the encoder gave the payload of the windows; it counts only
    /// when the path arrives.
    pub open spec fn step(self, event: Event, encoded: bool) -> (Restart, Action) {
        match (self.phase, event) {
            (RestartPhase::Draining, Event::ChildExited(child)) => {
                let left = self.pending.remove_value(child);
                if self.pending[0] == child {
                    let (phase, action) = entered(left);
                    (
                        Restart {
                            phase,
                            pending: left,
                            assignments: self.assignments,
                            invocation: self.invocation,
                        },
                        action,
                    )
                } else {
                    (
                        Restart {
                            phase: self.phase,
                            pending: left,
                            assignments: self.assignments,
                            invocation: self.invocation,
                        },
                        Action::Unchanged,
                    )
                }
            },
            (RestartPhase::Resolving, Event::PathResolved(path)) => {
                if encoded {
                    (
                        self.in_phase(RestartPhase::Replacing),
                        Action::Replace(
                            Resume {
                                path,
                                invocation: self.invocation,
                                payload: payload_text(self.assignments),
                            },
                        ),
                    )
                } else {
                    (
                        self.in_phase(RestartPhase::Abandoned(RestartError::Serialization)),
                        Action::Abandon(RestartError::Serialization),
                    )
                }
            },
            (RestartPhase::Resolving, Event::PathUnresolved) => (
                self.in_phase(RestartPhase::Abandoned(RestartError::PathResolution)),
                Action::Abandon(RestartError::PathResolution),
            ),
            (RestartPhase::Replacing, Event::ReplacementFailed) => (
                self.in_phase(RestartPhase::Abandoned(RestartError::Replacement)),
                Action::Abandon(RestartError::Replacement),
            ),
            _ => (self, Action::Unchanged),
        }
    }
}

/// Orders the steps of a restart.
#[derive(Debug, PartialEq, Eq)]
pub struct RestartCoordinator {
    phase: RestartPhase,
    pending: PendingChildRegistry,
    assignments: Vec<Assignment>,
    invocation: String,
}

impl View for RestartCoordinator {
    type V = Restart;

    closed spec fn view(&self) -> Restart {
        Restart {
            phase: self.phase,
            pending: self.pending@,
            assignments: self.assignments@,
            invocation: self.invocation@,
        }
    }
}

impl RestartCoordinator {
    /// The coordinator is draining exactly as long as a child is pending.
    #[verifier::type_invariant]
    pub open spec fn well_formed(self) -> bool {
        self@.wf()
    }

    /// Begins a restart that hands `assignments` over, once the children in
    /// `pending` have exited. Gives the first action.
    pub fn begin(
        pending: PendingChildRegistry,
        assignments: Vec<Assignment>,
        invocation: String,
    ) -> (r: (RestartCoordinator, RestartAction))
        ensures
            (r.0@, r.1@) == Restart::started(pending@, assignments@, invocation@),
    {
        proof {
            use_type_invariant(&pending);
        }
        match pending.first() {
            Some(child) => (
                RestartCoordinator { phase: RestartPhase::Draining, pending, assignments, invocation },
                RestartAction::Await(child),
            ),
            None => (
                RestartCoordinator {
                    phase: RestartPhase::Resolving,
                    pending,
                    assignments,
                    invocation,
                },
                RestartAction::ResolveExecutable,
            ),
        }
    }

    /// How far the restart has come.
    pub fn phase(&self) -> (r: RestartPhase)
        ensures
            r == self@.phase,
    {
        self.phase
    }

    /// How many children are still pending.
    pub fn pending_children(&self) -> (r: usize)
        ensures
            r == self@.pending.len(),
    {
        self.pending.len()
    }

    /// Takes in that the executable has the path `path`, with `encoded` as
    /// what the encoder returned for the windows at hand.
    fn hand_over(
        self,
        path: String,
        encoded: Result<String, rustc_serialize::json::EncoderError>,
    ) -> (r: (RestartCoordinator, RestartAction))
        requires
            self@.phase is Resolving,
        ensures
            (r.0@, r.1@) == self@.step(
                Event::PathResolved(path@),
                encoded matches Ok(text) && text@ == payload_text(self@.assignments),
            ),
    {
        proof {
            use_type_invariant(&self);
        }
        let RestartCoordinator { phase, pending, assignments, invocation } = self;
        match checked_payload(&assignments, encoded) {
            Ok(payload) => {
                let args = ResumeArgs { path, invocation: invocation.clone(), payload };
                (
                    RestartCoordinator {
                        phase: RestartPhase::Replacing,
                        pending,
                        assignments,
                        invocation,
                    },
                    RestartAction::Replace(args),
                )
            },
            Err(error) => (
                RestartCoordinator {
                    phase: RestartPhase::Abandoned(error),
                    pending,
                    assignments,
                    invocation,
                },
                RestartAction::Abandon(error),
            ),
        }
    }

    /// Takes in an event that needs no payload.
    fn proceed(self, event: RestartEvent) -> (r: (RestartCoordinator, RestartAction))
        requires
            !(self@.phase is Resolving && event is PathResolved),
        ensures
            (r.0@, r.1@) == self@.step(event@, true),
            (r.0@, r.1@) == self@.step(event@, false),
    {
        proof {
            use_type_invariant(&self);
            use_type_invariant(&self.pending);
        }
        let RestartCoordinator { phase, pending, assignments, invocation } = self;
        match (phase, event) {
            (RestartPhase::Draining, RestartEvent::ChildExited(child)) => {
                let mut pending = pending;
                let head = pending.first();
                proof {
                    lemma_remove_value(pending@, child);
                }
                pending.complete(child);
                if head == Some(child) {
                    match pending.first() {
                        Some(next) => (
                            RestartCoordinator {
                                phase: RestartPhase::Draining,
                                pending,
                                assignments,
                                invocation,
                            },
                            RestartAction::Await(next),
                        ),
                        None => (
                            RestartCoordinator {
                                phase: RestartPhase::Resolving,
                                pending,
                                assignments,
                                invocation,
                            },
                            RestartAction::ResolveExecutable,
                        ),
                    }
                } else {
                    (
                        RestartCoordinator { phase, pending, assignments, invocation },
                        RestartAction::Unchanged,
                    )
                }
            },
            (RestartPhase::Resolving, RestartEvent::PathUnresolved) => (
                RestartCoordinator {
                    phase: RestartPhase::Abandoned(RestartError::PathResolution),
                    pending,
                    assignments,
                    invocation,
                },
                RestartAction::Abandon(RestartError::PathResolution),
            ),
            (RestartPhase::Replacing, RestartEvent::ReplacementFailed) => (
                RestartCoordinator {
                    phase: RestartPhase::Abandoned(RestartError::Replacement),
                    pending,
                    assignments,
                    invocation,
                },
                RestartAction::Abandon(RestartError::Replacement),
            ),
            _ => (
                RestartCoordinator { phase, pending, assignments, invocation },
                RestartAction::Unchanged,
            ),
        }
    }

    /// Takes `event` in, with `encoded` as what the encoder returned for the
    /// windows at hand. The image is replaced only with the payload of those
    /// windows, whatever `encoded` holds.
    pub fn advance_with(
        self,
        event: RestartEvent,
        encoded: Result<String, rustc_serialize::json::EncoderError>,
    ) -> (r: (RestartCoordinator, RestartAction))
        ensures
            (r.0@, r.1@) == self@.step(
                event@,
                encoded matches Ok(text) && text@ == payload_text(self@.assignments),
            ),
    {
        match (self.phase, event) {
            (RestartPhase::Resolving, RestartEvent::PathResolved(path)) => self.hand_over(
                path,
                encoded,
            ),
            (_, event) => self.proceed(event),
        }
    }

    /// Takes `event` in and gives the action that follows.
    ///
    /// When the path arrives the windows are encoded, and the image is
    /// replaced if the encoder writes their payload; no other event looks at
    /// the encoder.
    pub fn advance(self, event: RestartEvent) -> (r: (RestartCoordinator, RestartAction))
        ensures
            (r.0@, r.1@) == self@.step(event@, encoder_writes_payload(self@.assignments)),
    {
        match (self.phase, event) {
            (RestartPhase::Resolving, RestartEvent::PathResolved(path)) => {
                let encoded = json_encode(&self.assignments);
                self.hand_over(path, encoded)
            },
            (_, event) => self.proceed(event),
        }
    }
}

/// The restart after a run of events, each with what the encoder would have
/// done at that point.
pub open spec fn state_after(start: Restart, inputs: Seq<(Event, bool)>) -> Restart
    decreases inputs.len(),
{
    if inputs.len() == 0 {
        start
    } else {
        state_after(start, inputs.drop_last()).step(inputs.last().0, inputs.last().1).0
    }
}

/// The action that answers the event at `i` of a run.
pub open spec fn action_at(start: Restart, inputs: Seq<(Event, bool)>, i: int) -> Action
    recommends
        0 <= i < inputs.len(),
{
    state_after(start, inputs.take(i)).step(inputs[i].0, inputs[i].1).1
}

/// A step keeps a restart well formed.
pub proof fn lemma_step_keeps_wf(restart: Restart, event: Event, encoded: bool)
    requires
        restart.wf(),
    ensures
        restart.step(event, encoded).0.wf(),
{
    if let Event::ChildExited(child) = event {
        lemma_remove_value(restart.pending, child);
    }
}

/// Along a run a restart stays well formed, and a child that was pending at
/// the start is pending still or has been reported as exited.
proof fn lemma_run(start: Restart, inputs: Seq<(Event, bool)>, child: ChildId)
    requires
        start.wf(),
    ensures
        state_after(start, inputs).wf(),
        start.pending.contains(child) ==> state_after(start, inputs).pending.contains(child)
            || exists|j: int|
            0 <= j < inputs.len() && (#[trigger] inputs[j]).0 == Event::ChildExited(child),
    decreases inputs.len(),
{
    if inputs.len() > 0 {
        let earlier = inputs.drop_last();
        let before = state_after(start, earlier);
        lemma_run(start, earlier, child);
        lemma_step_keeps_wf(before, inputs.last().0, inputs.last().1);
        if start.pending.contains(child) {
            if before.pending.contains(child) {
                if let Event::ChildExited(exited) = inputs.last().0 {
                    lemma_remove_value(before.pending, exited);
                    if exited == child {
                        assert(inputs[inputs.len() - 1].0 == Event::ChildExited(child));
                    }
                }
            } else {
                let j = choose|j: int|
                    0 <= j < earlier.len() && (#[trigger] earlier[j]).0 == Event::ChildExited(
                        child,
                    );
                assert(inputs[j] == earlier[j]);
            }
        }
    }
}

/// The image is not replaced while a child is pending: whatever events
/// arrive, an action that replaces the image comes only after every child
/// that was pending at the start has been reported as exited.
pub proof fn lemma_replacement_waits_for_children(
    pending: Seq<ChildId>,
    assignments: Seq<Assignment>,
    invocation: Seq<char>,
    inputs: Seq<(Event, bool)>,
    i: int,
    child: ChildId,
)
    requires
        pending.no_duplicates(),
        pending.contains(child),
        0 <= i < inputs.len(),
        action_at(Restart::started(pending, assignments, invocation).0, inputs, i) is Replace,
    ensures
        Restart::started(pending, assignments, invocation).1 !is Replace,
        exists|j: int| 0 <= j < i && (#[trigger] inputs[j]).0 == Event::ChildExited(child),
{
    let start = Restart::started(pending, assignments, invocation).0;
    let earlier = inputs.take(i);
    lemma_run(start, earlier, child);
    let before = state_after(start, earlier);
    assert(before.phase is Resolving);
    let j = choose|j: int|
        0 <= j < earlier.len() && (#[trigger] earlier[j]).0 == Event::ChildExited(child);
    assert(inputs[j] == earlier[j]);
}

/// What a restart hands over is what the new image takes over: the arguments
/// of an action that replaces the image tell the new image to resume with the
/// windows of the restart, in their order.
pub proof fn lemma_handover_resumes(restart: Restart, event: Event, encoded: bool)
    requires
        restart.step(event, encoded).1 is Replace,
    ensures
        ({
            let resume = restart.step(event, encoded).1->Replace_0;
            &&& resume.invocation == restart.invocation
            &&& resume.payload == payload_text(restart.assignments)
            &&& startup_of(resume.argv()) == StartupKind::Resume(restart.assignments)
        }),
{
    lemma_decoded_iff_payload(payload_text(restart.assignments), restart.assignments);
}

/// The events of a restart in which nothing goes wrong: every pending child
/// is reported in turn, then the path, and the encoder gives the payload.
pub open spec fn smooth_run(pending: Seq<ChildId>, path: Seq<char>) -> Seq<(Event, bool)> {
    Seq::new(pending.len(), |k: int| (Event::ChildExited(pending[k]), true)).push(
        (Event::PathResolved(path), true),
    )
}

/// In a smooth run the children that are left after `k` events are the
/// pending ones but the first `k`.
proof fn lemma_smooth_run_state(
    pending: Seq<ChildId>,
    assignments: Seq<Assignment>,
    invocation: Seq<char>,
    path: Seq<char>,
    k: int,
)
    requires
        pending.no_duplicates(),
        0 <= k <= pending.len(),
    ensures
        state_after(
            Restart::started(pending, assignments, invocation).0,
            smooth_run(pending, path).take(k),
        ) == (Restart {
            phase: entered(pending.skip(k)).0,
            pending: pending.skip(k),
            assignments,
            invocation,
        }),
    decreases k,
{
    let start = Restart::started(pending, assignments, invocation).0;
    let inputs = smooth_run(pending, path);
    if k == 0 {
        assert(inputs.take(0) =~= Seq::empty());
        assert(pending.skip(0) =~= pending);
    } else {
        lemma_smooth_run_state(pending, assignments, invocation, path, k - 1);
        let left = pending.skip(k - 1);
        assert(inputs.take(k).drop_last() =~= inputs.take(k - 1));
        assert(inputs.take(k).last() == (Event::ChildExited(pending[k - 1]), true));
        assert(left[0] == pending[k - 1]);
        assert(left.no_duplicates());
        lemma_remove_value(left, left[0]);
        assert(left.drop_first() =~= pending.skip(k));
    }
}

/// A restart in which nothing goes wrong replaces the image: each report of
/// an exit is answered by the wait for the next child, the last of them by
/// the search for the path, and the path by the replacement, with the payload
/// of the windows.
pub proof fn lemma_smooth_run_replaces(
    pending: Seq<ChildId>,
    assignments: Seq<Assignment>,
    invocation: Seq<char>,
    path: Seq<char>,
    k: int,
)
    requires
        pending.no_duplicates(),
        0 <= k <= pending.len(),
    ensures
        action_at(
            Restart::started(pending, assignments, invocation).0,
            smooth_run(pending, path),
            k,
        ) == if k < pending.len() {
            entered(pending.skip(k + 1)).1
        } else {
            Action::Replace(Resume { path, invocation, payload: payload_text(assignments) })
        },
{
    lemma_smooth_run_state(pending, assignments, invocation, path, k);
    if k < pending.len() {
        let left = pending.skip(k);
        assert(left[0] == pending[k]);
        assert(left.no_duplicates());
        lemma_remove_value(left, left[0]);
        assert(left.drop_first() =~= pending.skip(k + 1));
    } else {
        assert(pending.skip(k).len() == 0);
    }
}

} // verus!
