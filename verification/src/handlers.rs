//! Who waits for what, and who gets which answer.

use std::collections::{HashMap, HashSet};
use vstd::prelude::*;

use crate::bt_uuid::{lemma_uuid_identity, Uuid};
use crate::central::{CentralEvent, ManagerState, Peripheral};
use crate::commands::{
    action_view, Action, ActionView, Command, CommandResult, CommandView, EventMatchResult,
    Execution, ExecutionView, Matcher, ResultView,
};
use crate::daemon_state::{notice_of, DaemonState, DaemonStateView, Notice};
use crate::event_matchers::{matched, MatchView, MatcherView};
use crate::maps::{keys_of, lists, members_of};
use crate::session::{is_request_number, new_request_number};

verus! {

/// Senders of the clients whose commands are being executed, under random numbers.
pub struct Requests<S> {
    senders: HashMap<u128, S>,
}

impl<S> View for Requests<S> {
    type V = Map<u128, S>;

    closed spec fn view(&self) -> Map<u128, S> {
        self.senders@
    }
}

impl<S> Requests<S> {
    /// No command is being executed.
    pub fn new() -> (requests: Self)
        ensures
            requests@ == Map::<u128, S>::empty(),
    {
        Requests { senders: HashMap::new() }
    }

    /// Remembers `sender` under `id`.
    pub fn register_as(&mut self, id: u128, sender: S)
        ensures
            final(self)@ == old(self)@.insert(id, sender),
    {
        self.senders.insert(id, sender);
    }

    /// Remembers `sender` under a random number.
    pub fn register(&mut self, sender: S) -> (id: u128)
        ensures
            is_request_number(id),
            final(self)@ == old(self)@.insert(id, sender),
    {
        let id: u128 = new_request_number();
        self.register_as(id, sender);
        id
    }

    /// The sender that gets the result under `id`, if there still is one.
    pub fn complete(&mut self, id: u128) -> (sender: Option<S>)
        ensures
            final(self)@ == old(self)@.remove(id),
            sender is Some <==> old(self)@.contains_key(id),
            sender matches Some(sender) ==> sender == old(self)@[id],
    {
        self.senders.remove(&id)
    }
}

/// What becomes of the search for devices.
#[derive(PartialEq, Eq, Debug)]
pub enum Scan {
    /// It goes on as before.
    Keep,
    /// It ends.
    Cancel,
    /// It is started anew, for devices that advertise one of these services.
    Restart(Vec<Uuid>),
}

/// The services that are looked for once the search for `uuid` has started or ended.
pub open spec fn scanned_after(scanned: Set<u128>, uuid: Uuid, start: bool) -> Set<u128> {
    if start {
        scanned.insert(uuid.spec_key())
    } else {
        scanned.remove(uuid.spec_key())
    }
}

/// `uuids` are the services with the numbers `scanned`, each once, in some order.
pub open spec fn is_scan_list(uuids: Seq<Uuid>, scanned: Set<u128>) -> bool {
    lists(uuids.map_values(|uuid: Uuid| uuid.spec_key()), scanned)
}

/// What the daemon is doing: what it knows of devices, what its commands wait for, and which
/// services it looks for.
pub struct Processor {
    state: DaemonState,
    matchers: HashMap<u128, Matcher>,
    uuids_to_scan: HashSet<u128>,
}

/// What a [`Processor`] holds.
#[verifier::ext_equal]
pub struct ProcessorView {
    pub state: DaemonStateView,
    pub matchers: Map<u128, MatcherView>,
    pub scanned: Set<u128>,
}

impl View for Processor {
    type V = ProcessorView;

    closed spec fn view(&self) -> ProcessorView {
        ProcessorView {
            state: self.state@,
            matchers: self.matchers@.map_values(|matcher: Matcher| matcher@),
            scanned: self.uuids_to_scan@,
        }
    }
}

/// Those of `matchers` that `event` does not answer.
pub open spec fn still_waiting(matchers: Map<u128, MatcherView>, event: CentralEvent) -> Map<
    u128,
    MatcherView,
> {
    Map::new(
        |id: u128| matchers.contains_key(id) && matched(matchers[id], event) is Nothing,
        |id: u128| matchers[id],
    )
}

/// What each of the answers to waiting commands holds.
pub open spec fn answers_view(answers: Seq<(u128, EventMatchResult)>) -> Seq<(u128, MatchView)> {
    answers.map_values(|answer: (u128, EventMatchResult)| (answer.0, answer.1@))
}

/// `answers` holds, once and in some order, what follows from `event` for each of `matchers` that
/// it answers.
pub open spec fn are_answers(
    answers: Seq<(u128, MatchView)>,
    matchers: Map<u128, MatcherView>,
    event: CentralEvent,
) -> bool {
    &&& forall|i: int, j: int|
        0 <= i < j < answers.len() ==> (#[trigger] answers[i]).0 != (#[trigger] answers[j]).0
    &&& forall|i: int|
        0 <= i < answers.len() ==> matchers.contains_key((#[trigger] answers[i]).0) && answers[i].1
            == matched(matchers[answers[i].0], event) && !(answers[i].1 is Nothing)
    &&& forall|id: u128| #[trigger]
        matchers.contains_key(id) && !(matched(matchers[id], event) is Nothing) ==> exists|i: int|
            0 <= i < answers.len() && (#[trigger] answers[i]).0 == id
}

/// What is left to do after a command with the number `id` has come as far as `execution`: whoever
/// waits gets `result`, or the command waits for an event.
pub open spec fn is_settled(
    before: ProcessorView,
    after: ProcessorView,
    id: u128,
    command: CommandView,
    execution: ExecutionView,
    result: Option<ResultView>,
) -> bool {
    &&& after.state == command.state_after(before.state)
    &&& after.scanned == before.scanned
    &&& match execution {
        ExecutionView::Result(done) => result == Some(done) && after.matchers == before.matchers,
        ExecutionView::Matcher(matcher) => result is None && after.matchers
            == before.matchers.insert(id, matcher),
        ExecutionView::Nothing => result is None && after.matchers == before.matchers,
    }
}

/// What an optional result holds.
pub open spec fn result_view(result: Option<CommandResult>) -> Option<ResultView> {
    match result {
        Some(result) => Some(result@),
        None => None,
    }
}

impl Processor {
    /// Nothing is known and nothing is waited for.
    pub fn new() -> (processor: Self)
        ensures
            processor@.state == (DaemonStateView {
                peripherals: Map::empty(),
                advertisements: Map::empty(),
                state: ManagerState::Unknown,
            }),
            processor@.matchers == Map::<u128, MatcherView>::empty(),
            processor@.scanned == Set::<u128>::empty(),
    {
        let processor = Processor {
            state: DaemonState::new(),
            matchers: HashMap::new(),
            uuids_to_scan: HashSet::new(),
        };
        assert(processor@.matchers =~= Map::empty());
        processor
    }

    /// What the daemon knows of devices.
    pub fn state(&self) -> (state: &DaemonState)
        ensures
            state@ == self@.state,
    {
        &self.state
    }

    /// Starts or ends the search for devices that advertise the service `uuid`.
    pub fn scan(&mut self, uuid: Uuid, start: bool) -> (scan: Scan)
        ensures
            final(self)@ == (ProcessorView {
                scanned: scanned_after(old(self)@.scanned, uuid, start),
                ..old(self)@
            }),
            scan is Keep <==> final(self)@.scanned == old(self)@.scanned,
            scan is Cancel <==> final(self)@.scanned != old(self)@.scanned
                && final(self)@.scanned == Set::<u128>::empty(),
            scan matches Scan::Restart(uuids) ==> is_scan_list(uuids@, final(self)@.scanned),
    {
        let key: u128 = uuid.key();
        let has_changed: bool = if start {
            self.uuids_to_scan.insert(key)
        } else {
            self.uuids_to_scan.remove(&key)
        };
        if !has_changed {
            assert(self@.scanned =~= old(self)@.scanned);
            return Scan::Keep;
        }
        assert(self@.scanned.contains(key) != old(self)@.scanned.contains(key));
        if self.uuids_to_scan.is_empty() {
            assert(self@.scanned =~= Set::empty());
            return Scan::Cancel;
        }
        let keys: Vec<u128> = members_of(&self.uuids_to_scan);
        let mut uuids: Vec<Uuid> = Vec::new();
        let mut i: usize = 0;
        while i < keys.len()
            invariant
                i <= keys@.len(),
                uuids@.map_values(|uuid: Uuid| uuid.spec_key()) =~= keys@.take(i as int),
            decreases keys@.len() - i,
        {
            let ghost before = uuids@;
            let next: Uuid = Uuid::from_key(keys[i]);
            uuids.push(next);
            assert(uuids@.map_values(|uuid: Uuid| uuid.spec_key()) =~= before.map_values(
                |uuid: Uuid| uuid.spec_key(),
            ).push(next.spec_key()));
            i += 1;
        }
        assert(keys@.take(i as int) =~= keys@);
        Scan::Restart(uuids)
    }

    /// Whether the daemon knows enough of the devices that `command` is about.
    pub fn is_executable(&self, command: &Command) -> (r: bool)
        ensures
            r == command@.is_executable(self@.state),
    {
        command.is_executable(&self.state)
    }

    /// Executes a command with the number `id`, `uptime` seconds after the daemon was started; tells
    /// what the platform is asked to do, and the result if there already is one.
    pub fn command(&mut self, id: u128, command: &Command, uptime: u64) -> (outcome: (
        Option<Action>,
        Option<CommandResult>,
    ))
        requires
            command@.is_executable(old(self)@.state),
        ensures
            exists|execution: ExecutionView|
                #![trigger is_settled(
                    old(self)@,
                    final(self)@,
                    id,
                    command@,
                    execution,
                    result_view(outcome.1),
                )]
                command@.executes(
                    old(self)@.state,
                    uptime,
                    execution,
                    action_view(outcome.0),
                ) && is_settled(
                    old(self)@,
                    final(self)@,
                    id,
                    command@,
                    execution,
                    result_view(outcome.1),
                ),
    {
        let (execution, action): (Execution, Option<Action>) = command.execute(
            &mut self.state,
            uptime,
        );
        let ghost reached = execution@;
        match execution {
            Execution::Result(result) => {
                assert(is_settled(
                    old(self)@,
                    self@,
                    id,
                    command@,
                    reached,
                    result_view(Some(result)),
                ));
                (action, Some(result))
            },
            Execution::Matcher(matcher) => {
                self.matchers.insert(id, matcher);
                assert(self@.matchers =~= old(self)@.matchers.insert(id, matcher@));
                assert(is_settled(old(self)@, self@, id, command@, reached, result_view(None)));
                (action, None)
            },
            Execution::Nothing => {
                assert(is_settled(old(self)@, self@, id, command@, reached, result_view(None)));
                (action, None)
            },
        }
    }

    /// Takes notice of `event`: tells what is to be done about it, and what follows from it for the
    /// commands that were waiting for it. These no longer wait.
    pub fn event(&mut self, event: &CentralEvent) -> (outcome: (
        Notice,
        Vec<(u128, EventMatchResult)>,
    ))
        ensures
            final(self)@ == (ProcessorView {
                state: old(self)@.state.after(*event),
                matchers: still_waiting(old(self)@.matchers, *event),
                scanned: old(self)@.scanned,
            }),
            outcome.0 == notice_of(*event),
            are_answers(answers_view(outcome.1@), old(self)@.matchers, *event),
    {
        let ghost all = old(self)@.matchers;
        let notice: Notice = self.state.handle_event(event);
        let ids: Vec<u128> = keys_of(&self.matchers);
        assert(all.dom() =~= self.matchers@.dom());
        let mut answers: Vec<(u128, EventMatchResult)> = Vec::new();
        let ghost mut places: Seq<int> = Seq::empty();
        let mut i: usize = 0;
        while i < ids.len()
            invariant
                i <= ids@.len(),
                lists(ids@, all.dom()),
                self@.state == old(self)@.state.after(*event),
                self@.scanned == old(self)@.scanned,
                forall|id: u128| #[trigger] self@.matchers.contains_key(id) ==> all.contains_key(id)
                    && self@.matchers[id] == all[id],
                forall|k: int|
                    0 <= k < i ==> (self@.matchers.contains_key(#[trigger] ids@[k]) <==> matched(
                        all[ids@[k]],
                        *event,
                    ) is Nothing),
                forall|k: int|
                    i <= k < ids@.len() ==> self@.matchers.contains_key(#[trigger] ids@[k]),
                places.len() == answers@.len(),
                forall|j: int|
                    0 <= j < answers@.len() ==> 0 <= #[trigger] places[j] < i && answers@[j].0
                        == ids@[places[j]],
                forall|j: int, k: int|
                    0 <= j < k < answers@.len() ==> (#[trigger] places[j]) < (#[trigger] places[k]),
                forall|j: int|
                    0 <= j < answers@.len() ==> (#[trigger] answers@[j]).1@ == matched(
                        all[answers@[j].0],
                        *event,
                    ) && !(answers@[j].1@ is Nothing),
                forall|k: int|
                    0 <= k < i && !(matched(all[#[trigger] ids@[k]], *event) is Nothing)
                        ==> exists|j: int|
                        0 <= j < answers@.len() && (#[trigger] answers@[j]).0 == ids@[k],
            decreases ids@.len() - i,
        {
            let id: u128 = ids[i];
            let ghost before = self@.matchers;
            let ghost answered = answers@;
            assert(self@.matchers.contains_key(ids@[i as int]));
            let found: Option<EventMatchResult> = match self.matchers.get(&id) {
                Some(matcher) => match matcher.matches(event) {
                    EventMatchResult::NoMatch => None,
                    outcome => Some(outcome),
                },
                None => None,
            };
            if let Some(outcome) = found {
                self.matchers.remove(&id);
                answers.push((id, outcome));
                proof {
                    places = places.push(i as int);
                    assert(self@.matchers =~= before.remove(id));
                    assert(answers@[answers@.len() - 1].0 == ids@[i as int]);
                    assert forall|k: int|
                        0 <= k < i + 1 && !(matched(all[#[trigger] ids@[k]], *event)
                            is Nothing) implies exists|j: int|
                        0 <= j < answers@.len() && (#[trigger] answers@[j]).0 == ids@[k] by {
                        if k < i {
                            let j = choose|j: int|
                                0 <= j < answered.len() && (#[trigger] answered[j]).0 == ids@[k];
                            assert(answers@[j] == answered[j]);
                        }
                    }
                }
            }
            i += 1;
        }
        proof {
            let view = answers_view(answers@);
            assert forall|id: u128| #[trigger] all.contains_key(id) implies exists|k: int|
                0 <= k < ids@.len() && #[trigger] ids@[k] == id by {
                assert(all.dom().contains(id));
                assert(ids@.contains(id));
            }
            assert(self@.matchers =~= still_waiting(all, *event));
            assert forall|j: int, k: int| 0 <= j < k < view.len() implies (#[trigger] view[j]).0
                != (#[trigger] view[k]).0 by {
                assert(places[j] < places[k]);
            }
            assert forall|j: int| 0 <= j < view.len() implies all.contains_key(
                (#[trigger] view[j]).0,
            ) && view[j].1 == matched(all[view[j].0], *event) && !(view[j].1 is Nothing) by {
                assert(answers@[j].0 == ids@[places[j]]);
                assert(all.dom().contains(ids@[places[j]]));
            }
            assert forall|id: u128| #[trigger]
                all.contains_key(id) && !(matched(all[id], *event) is Nothing) implies exists|
                j: int,
            |
                0 <= j < view.len() && (#[trigger] view[j]).0 == id by {
                let k = choose|k: int| 0 <= k < ids@.len() && #[trigger] ids@[k] == id;
                let j = choose|j: int|
                    0 <= j < answers@.len() && (#[trigger] answers@[j]).0 == ids@[k];
                assert(view[j].0 == id);
            }
        }
        (notice, answers)
    }
}

/// A command that was answered no longer waits, and one that was not waits as before.
pub proof fn lemma_answered_once(
    matchers: Map<u128, MatcherView>,
    event: CentralEvent,
    answers: Seq<(u128, MatchView)>,
    id: u128,
)
    requires
        are_answers(answers, matchers, event),
    ensures
        ({
            let is_answered = exists|i: int|
                0 <= i < answers.len() && (#[trigger] answers[i]).0 == id;
            let after = still_waiting(matchers, event);
            &&& is_answered ==> matchers.contains_key(id) && !after.contains_key(id)
            &&& !is_answered && matchers.contains_key(id) ==> after.contains_key(id) && after[id]
                == matchers[id]
            &&& !matchers.contains_key(id) ==> !after.contains_key(id)
        }),
{
    if matchers.contains_key(id) && !(matched(matchers[id], event) is Nothing) {
        assert(exists|i: int| 0 <= i < answers.len() && (#[trigger] answers[i]).0 == id);
    }
}

/// An event that no command waits for changes nothing that is waited for.
pub proof fn lemma_unawaited_event(matchers: Map<u128, MatcherView>, event: CentralEvent)
    requires
        forall|id: u128| #[trigger]
            matchers.contains_key(id) ==> matched(matchers[id], event) is Nothing,
    ensures
        still_waiting(matchers, event) == matchers,
        forall|answers: Seq<(u128, MatchView)>| #[trigger]
            are_answers(answers, matchers, event) ==> answers.len() == 0,
{
    assert(still_waiting(matchers, event) =~= matchers);
    assert forall|answers: Seq<(u128, MatchView)>| #[trigger]
        are_answers(answers, matchers, event) implies answers.len() == 0 by {
        if answers.len() > 0 {
            assert(matchers.contains_key(answers[0].0));
        }
    }
}

/// A command to connect that waits for the platform is answered, once the platform has connected to
/// the device, with a command that registers the device; and that one has the device as its result.
pub proof fn lemma_connection_is_reported(
    matchers: Map<u128, MatcherView>,
    id: u128,
    wanted: Peripheral,
    connected: Peripheral,
    state: DaemonStateView,
    uptime: u64,
    execution: ExecutionView,
    action: Option<ActionView>,
)
    requires
        matchers.contains_key(id),
        matchers[id] == MatcherView::PeripheralConnected(wanted.id),
        connected.id == wanted.id,
        CommandView::RegisterConnectedPeripheral(connected).executes(
            state,
            uptime,
            execution,
            action,
        ),
    ensures
        matched(matchers[id], CentralEvent::PeripheralConnected { peripheral: connected })
            == MatchView::Next(CommandView::RegisterConnectedPeripheral(connected)),
        execution == ExecutionView::Result(ResultView::ConnectToPeripheral(connected)),
        CommandView::RegisterConnectedPeripheral(connected).state_after(
            state,
        ).peripherals[wanted.id.spec_key()] == connected,
{
}

/// Looking for a service that is already looked for, or no longer looking for one that is not,
/// changes nothing; and ending a search undoes its start.
pub proof fn lemma_scan_idempotent(scanned: Set<u128>, uuid: Uuid)
    ensures
        scanned.contains(uuid.spec_key()) ==> scanned_after(scanned, uuid, true) == scanned,
        !scanned.contains(uuid.spec_key()) ==> scanned_after(scanned, uuid, false) == scanned,
        !scanned.contains(uuid.spec_key()) ==> scanned_after(
            scanned_after(scanned, uuid, true),
            uuid,
            false,
        ) == scanned,
{
    assert(scanned.contains(uuid.spec_key()) ==> scanned_after(scanned, uuid, true) =~= scanned);
    assert(!scanned.contains(uuid.spec_key()) ==> scanned_after(scanned, uuid, false) =~= scanned);
    assert(!scanned.contains(uuid.spec_key()) ==> scanned_after(
        scanned_after(scanned, uuid, true),
        uuid,
        false,
    ) =~= scanned);
}

/// The result under a number goes to the sender that was registered under it, and only once.
pub proof fn lemma_result_is_routed<S>(senders: Map<u128, S>, id: u128, other: u128, sender: S)
    ensures
        senders.insert(id, sender)[id] == sender,
        !senders.insert(id, sender).remove(id).contains_key(id),
        other != id ==> senders.insert(id, sender).contains_key(other) == senders.contains_key(
            other,
        ) && senders.insert(id, sender)[other] == senders[other],
        !senders.contains_key(id) ==> senders.insert(id, sender).remove(id) == senders,
{
    assert(!senders.contains_key(id) ==> senders.insert(id, sender).remove(id) =~= senders);
}

/// A service is looked for once its search has started, and no longer once it has ended; all other
/// services are looked for as before.
pub proof fn lemma_scan_members(scanned: Set<u128>, uuid: Uuid, start: bool, other: u128)
    ensures
        scanned_after(scanned, uuid, start).contains(uuid.spec_key()) == start,
        other != uuid.spec_key() ==> scanned_after(scanned, uuid, start).contains(other)
            == scanned.contains(other),
{
}

/// A search that is started anew names every service that is looked for, once, and no other.
pub proof fn lemma_scan_list_is_complete(
    uuids: Seq<Uuid>,
    scanned: Set<u128>,
    uuid: Uuid,
    i: int,
    j: int,
)
    requires
        is_scan_list(uuids, scanned),
    ensures
        uuids.len() == scanned.len(),
        scanned.contains(uuid.spec_key()) <==> uuids.contains(uuid),
        0 <= i < j < uuids.len() ==> uuids[i] != uuids[j],
{
    let keys = uuids.map_values(|uuid: Uuid| uuid.spec_key());
    if scanned.contains(uuid.spec_key()) {
        let k = choose|k: int| 0 <= k < keys.len() && keys[k] == uuid.spec_key();
        lemma_uuid_identity(uuids[k], uuid);
        assert(uuids[k] == uuid);
    }
    if uuids.contains(uuid) {
        let k = choose|k: int| 0 <= k < uuids.len() && uuids[k] == uuid;
        assert(scanned.contains(keys[k]));
    }
    if 0 <= i < j < uuids.len() {
        assert(keys[i] != keys[j]);
    }
}

} // verus!
