//! What a client gets from a device: from a command over the platform to the result.

use vstd::prelude::*;

use crate::bt_uuid::{uuid_text, Uuid};
use crate::central::{CentralEvent, Characteristic, Error, Peripheral, Service};
use crate::commands::{
    action_view, Action, Command, CommandResult, EventMatchResult, Execution, ExecutionView,
    ResultView,
};
use crate::daemon_state::{is_listing_of, listing_view, DaemonStateView};
use crate::event_matchers::{found_by_id, id_contains, lemma_first_with_id, matched, HasId};
use crate::handlers::{
    answers_view, are_answers, is_settled, result_view, still_waiting, ProcessorView,
};
use crate::text::lemma_occurs_between;

verus! {

/// `command`, executed in `state`, has come as far as `execution`, the platform is asked for
/// `action`, and once it reports `event`, `outcome` follows for the command if it is waiting.
pub open spec fn runs(
    command: Command,
    state: DaemonStateView,
    execution: Execution,
    action: Option<Action>,
    event: CentralEvent,
    outcome: EventMatchResult,
) -> bool {
    &&& exists|uptime: u64| #[trigger]
        command@.executes(state, uptime, execution@, action_view(action))
    &&& execution matches Execution::Matcher(matcher) ==> outcome@ == matched(matcher@, event)
}

/// The notation of an identifier is `part` with something in front of it and something behind it.
pub open spec fn is_part_of_id(part: Seq<char>, id: Uuid) -> bool {
    exists|front: Seq<char>, back: Seq<char>| uuid_text(id@) == #[trigger] (front + part + back)
}

/// `item` is the first of `items` whose identifier has `part` in its notation, and there is none if
/// it is missing.
pub open spec fn is_first_with_part<T: HasId>(
    item: Option<T>,
    items: Seq<T>,
    part: Seq<char>,
) -> bool {
    match item {
        Some(item) => exists|i: int|
            {
                &&& 0 <= i < items.len()
                &&& #[trigger] items[i] == item
                &&& is_part_of_id(part, item.spec_id())
                &&& forall|k: int|
                    0 <= k < i ==> !is_part_of_id(part, (#[trigger] items[k]).spec_id())
            },
        None => forall|k: int|
            0 <= k < items.len() ==> !is_part_of_id(part, (#[trigger] items[k]).spec_id()),
    }
}

/// What is found by a part of its identifier is the first of the items that has it.
pub proof fn lemma_found_has_part<T: HasId>(items: Result<Vec<T>, Error>, part: Seq<char>)
    ensures
        match items {
            Ok(items_found) => is_first_with_part(found_by_id(items, part), items_found@, part),
            Err(_) => found_by_id(items, part) is None,
        },
{
    assert forall|id: Uuid| #[trigger] id_contains(id, part) <==> is_part_of_id(part, id) by {
        lemma_occurs_between(uuid_text(id@), part);
    }
    if let Ok(list) = items {
        lemma_first_with_id(list@, part);
        match found_by_id(items, part) {
            Some(item) => {
                let i = choose|i: int|
                    0 <= i < list@.len() && item == #[trigger] list@[i] && id_contains(
                        item.spec_id(),
                        part,
                    ) && forall|k: int|
                        0 <= k < i ==> !id_contains((#[trigger] list@[k]).spec_id(), part);
                assert(list@[i] == item && is_part_of_id(part, item.spec_id()));
                assert forall|k: int| 0 <= k < i implies !is_part_of_id(
                    part,
                    (#[trigger] list@[k]).spec_id(),
                ) by {
                    assert(!id_contains(list@[k].spec_id(), part));
                }
            },
            None => {
                assert forall|k: int| 0 <= k < list@.len() implies !is_part_of_id(
                    part,
                    (#[trigger] list@[k]).spec_id(),
                ) by {
                    assert(!id_contains(list@[k].spec_id(), part));
                }
            },
        }
    }
}

/// To read a characteristic, the platform is asked for that characteristic of that device. Once it
/// reports a value for them, the result holds the bytes that it reported, or none if it has failed;
/// any other event is no answer.
pub proof fn lemma_read_gives_reported_bytes(
    peripheral: Peripheral,
    characteristic: Characteristic,
    state: DaemonStateView,
    execution: Execution,
    action: Option<Action>,
    event: CentralEvent,
    outcome: EventMatchResult,
)
    requires
        runs(
            Command::ReadCharacteristic(peripheral, characteristic),
            state,
            execution,
            action,
            event,
            outcome,
        ),
    ensures
        execution is Matcher,
        action == Some(Action::ReadCharacteristic(peripheral, characteristic)),
        match event {
            CentralEvent::CharacteristicValue { peripheral: p, characteristic: c, value } => if p.id
                == peripheral.id && c.id == characteristic.id {
                &&& outcome matches EventMatchResult::Result(
                    CommandResult::ReadCharacteristic(from, of, read),
                ) && from == p && of == c && match (value, read) {
                    (Ok(reported), Some(bytes)) => {
                        &&& bytes@.len() == reported@.len()
                        &&& forall|i: int|
                            0 <= i < reported@.len() ==> #[trigger] bytes@[i] == reported@[i]
                    },
                    (Err(_), None) => true,
                    _ => false,
                }
            } else {
                outcome is NoMatch
            },
            _ => outcome is NoMatch,
        },
{
}

/// To write to a characteristic, the platform is asked to write exactly these bytes to that
/// characteristic of that device. Once it reports how that ended, the result says so; any other
/// event is no answer.
pub proof fn lemma_write_asks_for_given_bytes(
    peripheral: Peripheral,
    characteristic: Characteristic,
    data: Vec<u8>,
    state: DaemonStateView,
    execution: Execution,
    action: Option<Action>,
    event: CentralEvent,
    outcome: EventMatchResult,
)
    requires
        runs(
            Command::WriteCharacteristic(peripheral, characteristic, data),
            state,
            execution,
            action,
            event,
            outcome,
        ),
    ensures
        execution is Matcher,
        action matches Some(Action::WriteCharacteristic(p, c, bytes)) && p == peripheral && c
            == characteristic && bytes@.len() == data@.len() && forall|i: int|
            0 <= i < data@.len() ==> #[trigger] bytes@[i] == data@[i],
        match event {
            CentralEvent::WriteCharacteristicResult { peripheral: p, characteristic: c, result } =>
                if p.id == peripheral.id && c.id == characteristic.id {
                outcome == EventMatchResult::Result(
                    CommandResult::WriteCharacteristic(p, c, result),
                )
            } else {
                outcome is NoMatch
            },
            _ => outcome is NoMatch,
        },
{
}

/// To find a service, the platform is asked for the services of the device. Of those that it reports
/// for this device, the result holds the first whose identifier has the wanted text in its notation,
/// if there is one; any other event is no answer.
pub proof fn lemma_service_search(
    peripheral: Peripheral,
    part: String,
    state: DaemonStateView,
    execution: Execution,
    action: Option<Action>,
    event: CentralEvent,
    outcome: EventMatchResult,
)
    requires
        runs(
            Command::FindService(peripheral, part),
            state,
            execution,
            action,
            event,
            outcome,
        ),
    ensures
        execution is Matcher,
        action == Some(Action::DiscoverServices(peripheral)),
        match event {
            CentralEvent::ServicesDiscovered { peripheral: p, services } => if p.id
                == peripheral.id {
                &&& outcome matches EventMatchResult::Result(CommandResult::FindService(from, found))
                    && from == p && match services {
                    Ok(list) => is_first_with_part(found, list@, part@),
                    Err(_) => found is None,
                }
            } else {
                outcome is NoMatch
            },
            _ => outcome is NoMatch,
        },
{
    if let CentralEvent::ServicesDiscovered { peripheral: p, services } = event {
        lemma_found_has_part(services, part@);
    }
}

/// To find a characteristic, the platform is asked for the characteristics of that service of the
/// device. Of those that it reports for them, the result holds the first whose identifier has the
/// wanted text in its notation, if there is one; any other event is no answer.
pub proof fn lemma_characteristic_search(
    peripheral: Peripheral,
    service: Service,
    part: String,
    request: u128,
    state: DaemonStateView,
    execution: Execution,
    action: Option<Action>,
    event: CentralEvent,
    outcome: EventMatchResult,
)
    requires
        runs(
            Command::FindCharacteristic(peripheral, service, part, request),
            state,
            execution,
            action,
            event,
            outcome,
        ),
    ensures
        execution is Matcher,
        action == Some(Action::DiscoverCharacteristics(peripheral, service)),
        match event {
            CentralEvent::CharacteristicsDiscovered {
                peripheral: p,
                service: s,
                characteristics,
            } => if p.id == peripheral.id && s.id == service.id {
                &&& outcome matches EventMatchResult::Result(
                    CommandResult::FindCharacteristic(from, found),
                ) && from == p && match characteristics {
                    Ok(list) => is_first_with_part(found, list@, part@),
                    Err(_) => found is None,
                }
            } else {
                outcome is NoMatch
            },
            _ => outcome is NoMatch,
        },
{
    if let CentralEvent::CharacteristicsDiscovered { peripheral: p, service: s, characteristics } =
        event {
        lemma_found_has_part(characteristics, part@);
    }
}

/// To find a device that advertises a service: if the daemon has heard of none, the platform is asked
/// to look for this service, and the first device that is then reported with the service among its
/// advertised ones is the result. Otherwise the platform is not asked, and the result is a device
/// that the daemon is connected to and whose last advertisement has the service.
pub proof fn lemma_device_search(
    uuid: Uuid,
    state: DaemonStateView,
    execution: Execution,
    action: Option<Action>,
    event: CentralEvent,
    outcome: EventMatchResult,
)
    requires
        runs(
            Command::FindPeripheralByService(uuid),
            state,
            execution,
            action,
            event,
            outcome,
        ),
    ensures
        (forall|key: u128| #[trigger]
            state.advertisements.contains_key(key)
                ==> !state.advertisements[key].data.service_uuids.contains(uuid)) ==> {
            &&& execution is Matcher
            &&& action == Some(Action::StartScan(uuid))
            &&& match event {
                CentralEvent::PeripheralDiscovered { peripheral, advertisement_data, rssi: _ } =>
                    if advertisement_data.service_uuids@.contains(uuid) {
                    outcome == EventMatchResult::Result(
                        CommandResult::FindPeripheral(Some(peripheral)),
                    )
                } else {
                    outcome is NoMatch
                },
                _ => outcome is NoMatch,
            }
        },
        (exists|key: u128| #[trigger]
            state.advertisements.contains_key(key)
                && state.advertisements[key].data.service_uuids.contains(uuid)) ==> {
            &&& action is None
            &&& execution matches Execution::Result(CommandResult::FindPeripheral(Some(found)))
                && exists|key: u128|
                {
                    &&& #[trigger] state.advertisements.contains_key(key)
                    &&& state.advertisements[key].data.service_uuids.contains(uuid)
                    &&& state.peripherals[key] == found
                }
        },
{
    if exists|key: u128| #[trigger]
        state.advertisements.contains_key(key)
            && state.advertisements[key].data.service_uuids.contains(uuid) {
        let key = choose|key: u128| #[trigger]
            state.advertisements.contains_key(key)
                && state.advertisements[key].data.service_uuids.contains(uuid);
        assert(state.advertises(key, uuid));
        let found = choose|found: u128|
            #![trigger state.advertises(found, uuid)]
            state.advertises(found, uuid) && execution@ == ExecutionView::Result(
                ResultView::FindPeripheral(Some(state.peripherals[found])),
            );
        assert(state.advertisements.contains_key(found));
    } else {
        assert forall|key: u128| !#[trigger] state.advertises(key, uuid) by {
            if state.advertises(key, uuid) {
                assert(state.advertisements.contains_key(key));
            }
        }
    }
}

/// To connect to a device, the platform is asked for it, unless the daemon is connected to a device
/// with its identifier, which then is the result. Once the platform reports that it has connected to
/// the device, or that it has failed to, the device is registered or forgotten; any other event is no
/// answer.
pub proof fn lemma_connection(
    peripheral: Peripheral,
    state: DaemonStateView,
    execution: Execution,
    action: Option<Action>,
    event: CentralEvent,
    outcome: EventMatchResult,
)
    requires
        runs(
            Command::ConnectToPeripheral(peripheral),
            state,
            execution,
            action,
            event,
            outcome,
        ),
    ensures
        ({
            let key = peripheral.id.spec_key();
            if state.peripherals.contains_key(key) {
                &&& action is None
                &&& execution == Execution::Result(
                    CommandResult::ConnectToPeripheral(state.peripherals[key]),
                )
            } else {
                &&& execution is Matcher
                &&& action == Some(Action::Connect(peripheral))
                &&& match event {
                    CentralEvent::PeripheralConnected { peripheral: p } if p.id == peripheral.id =>
                        outcome == EventMatchResult::Command(
                        Command::RegisterConnectedPeripheral(p),
                    ),
                    CentralEvent::PeripheralConnectFailed { peripheral: p, error: _ } if p.id
                        == peripheral.id => outcome == EventMatchResult::Command(
                        Command::UnregisterConnectedPeripheral(p.id),
                    ),
                    _ => outcome is NoMatch,
                }
            }
        }),
{
}

/// Registering a device has the device as its result, and forgetting one has none; neither asks the
/// platform for anything.
pub proof fn lemma_registration(
    peripheral: Peripheral,
    state: DaemonStateView,
    registered: Execution,
    forgotten: Execution,
    action: Option<Action>,
    other_action: Option<Action>,
    event: CentralEvent,
    outcome: EventMatchResult,
)
    requires
        runs(
            Command::RegisterConnectedPeripheral(peripheral),
            state,
            registered,
            action,
            event,
            outcome,
        ),
        runs(
            Command::UnregisterConnectedPeripheral(peripheral.id),
            state,
            forgotten,
            other_action,
            event,
            outcome,
        ),
    ensures
        registered == Execution::Result(CommandResult::ConnectToPeripheral(peripheral)),
        forgotten is Nothing,
        action is None,
        other_action is None,
{
}

/// The status holds how long the daemon has run and how many devices it is connected to.
pub proof fn lemma_status_counts(
    state: DaemonStateView,
    uptime: u64,
    execution: Execution,
    action: Option<Action>,
)
    requires
        Command::GetStatus@.executes(state, uptime, execution@, action_view(action)),
    ensures
        action is None,
        execution matches Execution::Result(CommandResult::GetStatus(seconds, Some(count)))
            && seconds == uptime && count == state.peripherals.len(),
{
}

/// The list of devices holds as many entries as there are connected devices, and every connected
/// device is in it. Each entry is a connected device with its last advertisement.
pub proof fn lemma_list_is_complete(
    state: DaemonStateView,
    uptime: u64,
    execution: Execution,
    action: Option<Action>,
    key: u128,
    i: int,
)
    requires
        Command::ListPeripherals@.executes(state, uptime, execution@, action_view(action)),
    ensures
        action is None,
        execution matches Execution::Result(CommandResult::ListPeripherals(list)) && {
            &&& list@.len() == state.peripherals.dom().len()
            &&& state.peripherals.contains_key(key) ==> exists|k: int|
                0 <= k < list@.len() && (#[trigger] list@[k]).0 == state.peripherals[key]
            &&& 0 <= i < list@.len() ==> {
                &&& exists|k: u128| #[trigger]
                    state.peripherals.contains_key(k) && state.peripherals[k] == list@[i].0
                &&& list@[i].1@ == state.advertisements[list@[i].0.id.spec_key()]
            }
        },
{
    if let ExecutionView::Result(ResultView::ListPeripherals(view)) = execution@ {
        let keys = choose|keys: Seq<u128>|
            is_listing_of(view, keys, state);
        if let Execution::Result(CommandResult::ListPeripherals(list)) = execution {
            assert(view == listing_view(list@));
            assert forall|k: int| 0 <= k < list@.len() implies (#[trigger] list@[k]).0
                == state.peripherals[keys[k]] && list@[k].1@
                == state.advertisements[list@[k].0.id.spec_key()] by {
                assert(view[k] == (list@[k].0, list@[k].1@));
            }
            if state.peripherals.contains_key(key) {
                assert(state.peripherals.dom().contains(key));
                let k = choose|k: int| 0 <= k < keys.len() && keys[k] == key;
                assert(list@[k].0 == state.peripherals[key]);
            }
            if 0 <= i < list@.len() {
                assert(state.peripherals.dom().contains(keys[i]));
                assert(state.peripherals.contains_key(keys[i]));
                assert(list@[i].0 == state.peripherals[keys[i]]);
            }
        }
    }
}

/// Which commands can be executed: a search for a service if every device that has advertised it is
/// connected; a list if the daemon has heard of every device that it is connected to; a connection
/// if the daemon has heard of the connected device with this identifier, if there is one; and every
/// other command always.
pub proof fn lemma_what_can_be_executed(command: Command, state: DaemonStateView)
    ensures
        command@.is_executable(state) <==> match command {
            Command::FindPeripheralByService(uuid) => forall|key: u128| #[trigger]
                state.advertisements.contains_key(key)
                    && state.advertisements[key].data.service_uuids.contains(uuid)
                    ==> state.peripherals.contains_key(key),
            Command::ListPeripherals => forall|key: u128| #[trigger]
                state.peripherals.contains_key(key) ==> state.advertisements.contains_key(
                    state.peripherals[key].id.spec_key(),
                ),
            Command::ConnectToPeripheral(peripheral) => {
                let key = peripheral.id.spec_key();
                state.peripherals.contains_key(key) ==> state.advertisements.contains_key(
                    state.peripherals[key].id.spec_key(),
                )
            },
            _ => true,
        },
{
    if let Command::FindPeripheralByService(uuid) = command {
        assert forall|key: u128|
            #![trigger state.advertisements.contains_key(key)]
            state.advertises(key, uuid) <==> state.advertisements.contains_key(key)
                && state.advertisements[key].data.service_uuids.contains(uuid) by {}
        if forall|key: u128| #[trigger]
            state.advertisements.contains_key(key)
                && state.advertisements[key].data.service_uuids.contains(uuid)
                ==> state.peripherals.contains_key(key) {
            assert forall|key: u128| #[trigger] state.advertises(key, uuid) implies
                state.peripherals.contains_key(key) by {
                assert(state.advertisements.contains_key(key));
            }
        }
        if state.are_advertisers_connected(uuid) {
            assert forall|key: u128| #[trigger]
                state.advertisements.contains_key(key)
                    && state.advertisements[key].data.service_uuids.contains(uuid) implies
                state.peripherals.contains_key(key) by {
                assert(state.advertises(key, uuid));
            }
        }
    }
}

/// What the daemon remembers after a command: only registering and forgetting a device change it.
/// A registered device is connected as it is; a forgotten one is neither connected nor heard of. All
/// other devices stay as they are.
pub proof fn lemma_what_commands_remember(command: Command, state: DaemonStateView, key: u128)
    ensures
        ({
            let after = command@.state_after(state);
            let concerned = match command {
                Command::RegisterConnectedPeripheral(peripheral) => Some(peripheral.id),
                Command::UnregisterConnectedPeripheral(id) => Some(id),
                _ => None,
            };
            let is_concerned = concerned is Some && concerned.unwrap().spec_key() == key;
            &&& after.state == state.state
            &&& !is_concerned ==> {
                &&& after.peripherals.contains_key(key) == state.peripherals.contains_key(key)
                &&& state.peripherals.contains_key(key) ==> after.peripherals[key]
                    == state.peripherals[key]
                &&& after.advertisements.contains_key(key) == state.advertisements.contains_key(
                    key,
                )
                &&& state.advertisements.contains_key(key) ==> after.advertisements[key]
                    == state.advertisements[key]
            }
            &&& is_concerned ==> match command {
                Command::RegisterConnectedPeripheral(peripheral) => {
                    &&& after.peripherals.contains_key(key)
                    &&& after.peripherals[key] == peripheral
                    &&& after.advertisements.contains_key(key)
                        == state.advertisements.contains_key(key)
                    &&& after.advertisements[key] == state.advertisements[key]
                },
                _ => {
                    &&& !after.peripherals.contains_key(key)
                    &&& !after.advertisements.contains_key(key)
                },
            }
        }),
{
}

/// What the daemon remembers after an event. A discovered device has been heard of with exactly what
/// it advertised, and a lost one is no longer connected; all other devices stay as they are. The
/// adapter is in the state that was reported last.
pub proof fn lemma_what_events_remember(event: CentralEvent, state: DaemonStateView, key: u128)
    ensures
        ({
            let after = state.after(event);
            let found = match event {
                CentralEvent::PeripheralDiscovered { peripheral, .. } => peripheral.id.spec_key()
                    == key,
                _ => false,
            };
            let lost = match event {
                CentralEvent::PeripheralDisconnected { peripheral, .. } => peripheral.id.spec_key()
                    == key,
                _ => false,
            };
            &&& after.state == match event {
                CentralEvent::ManagerStateChanged { new_state } => new_state,
                _ => state.state,
            }
            &&& after.peripherals.contains_key(key) <==> state.peripherals.contains_key(key)
                && !lost
            &&& after.peripherals.contains_key(key) ==> after.peripherals[key]
                == state.peripherals[key]
            &&& after.advertisements.contains_key(key) <==> state.advertisements.contains_key(key)
                || found
            &&& state.advertisements.contains_key(key) && !found ==> after.advertisements[key]
                == state.advertisements[key]
            &&& found ==> match event {
                CentralEvent::PeripheralDiscovered { peripheral, advertisement_data, rssi } => {
                    let ad = after.advertisements[key];
                    &&& ad.uuid == peripheral.id
                    &&& ad.rssi == rssi
                    &&& ad.data.service_uuids == advertisement_data.service_uuids@
                    &&& ad.data.tx_power_level == advertisement_data.tx_power_level
                    &&& match (ad.data.local_name, advertisement_data.local_name) {
                        (Some(name), Some(text)) => name == text@,
                        (None, None) => true,
                        _ => false,
                    }
                },
                _ => false,
            }
        }),
{
}

/// Registering a device that was not connected makes one more connected device, and losing or
/// forgetting a connected one makes one less.
pub proof fn lemma_connected_count(
    state: DaemonStateView,
    peripheral: Peripheral,
    error: Option<Error>,
)
    requires
        state.peripherals.dom().finite(),
    ensures
        ({
            let key = peripheral.id.spec_key();
            let registered = Command::RegisterConnectedPeripheral(peripheral)@.state_after(state);
            let forgotten = Command::UnregisterConnectedPeripheral(peripheral.id)@.state_after(
                state,
            );
            let lost = state.after(CentralEvent::PeripheralDisconnected { peripheral, error });
            if state.peripherals.contains_key(key) {
                &&& registered.peripherals.len() == state.peripherals.len()
                &&& forgotten.peripherals.len() == state.peripherals.len() - 1
                &&& lost.peripherals.len() == state.peripherals.len() - 1
            } else {
                &&& registered.peripherals.len() == state.peripherals.len() + 1
                &&& forgotten.peripherals.len() == state.peripherals.len()
                &&& lost.peripherals.len() == state.peripherals.len()
            }
        }),
{
    let key = peripheral.id.spec_key();
    if state.peripherals.contains_key(key) {
        assert(state.peripherals.insert(key, peripheral).dom() =~= state.peripherals.dom());
    } else {
        assert(state.peripherals.remove(key).dom() =~= state.peripherals.dom());
    }
}

/// A command that is executed under a number either has its result at once, waits for an event under
/// this number, or has nothing to report; what other commands wait for and which services are looked
/// for stays as it was.
pub proof fn lemma_command_waits_or_answers(
    before: ProcessorView,
    after: ProcessorView,
    id: u128,
    other: u128,
    command: Command,
    execution: Execution,
    result: Option<CommandResult>,
)
    requires
        is_settled(
            before,
            after,
            id,
            command@,
            execution@,
            result_view(result),
        ),
    ensures
        after.scanned == before.scanned,
        after.state == command@.state_after(before.state),
        other != id || !(execution is Matcher) ==> after.matchers.contains_key(other)
            == before.matchers.contains_key(other) && after.matchers[other]
            == before.matchers[other],
        match execution {
            Execution::Result(done) => result is Some && result.unwrap()@ == done@,
            Execution::Matcher(matcher) => result is None && after.matchers.contains_key(id)
                && after.matchers[id] == matcher@,
            Execution::Nothing => result is None,
        },
{
}

/// Every waiting command that an event answers is among the answers, once, with what follows from
/// the event for it, and no longer waits; all others wait as before and are not among the answers.
pub proof fn lemma_events_answer_all(
    before: ProcessorView,
    event: CentralEvent,
    answers: Seq<(u128, EventMatchResult)>,
    id: u128,
)
    requires
        are_answers(answers_view(answers), before.matchers, event),
    ensures
        ({
            let after = still_waiting(before.matchers, event);
            let is_waiting = before.matchers.contains_key(id);
            let follows = matched(before.matchers[id], event);
            let is_answered = exists|i: int|
                0 <= i < answers.len() && (#[trigger] answers[i]).0 == id;
            &&& is_answered <==> is_waiting && !(follows is Nothing)
            &&& after.contains_key(id) <==> is_waiting && follows is Nothing
            &&& after.contains_key(id) ==> after[id] == before.matchers[id]
            &&& forall|i: int|
                0 <= i < answers.len() && (#[trigger] answers[i]).0 == id ==> answers[i].1@
                    == follows
            &&& forall|i: int, j: int|
                0 <= i < answers.len() && 0 <= j < answers.len() && (#[trigger] answers[i]).0 == id
                    && (#[trigger] answers[j]).0 == id ==> i == j
        }),
{
    let view = answers_view(answers);
    assert forall|i: int| 0 <= i < answers.len() implies (#[trigger] answers[i]).0 == view[i].0
        && answers[i].1@ == view[i].1 by {}
    if before.matchers.contains_key(id) && !(matched(before.matchers[id], event) is Nothing) {
        let i = choose|i: int| 0 <= i < view.len() && (#[trigger] view[i]).0 == id;
        assert(answers[i].0 == id);
    }
    assert forall|i: int| 0 <= i < answers.len() && (#[trigger] answers[i]).0 == id implies
        before.matchers.contains_key(id) && answers[i].1@ == matched(before.matchers[id], event)
        && !(answers[i].1@ is Nothing) by {
        assert(view[i].0 == id);
    }
    assert forall|i: int, j: int|
        0 <= i < answers.len() && 0 <= j < answers.len() && (#[trigger] answers[i]).0 == id && (
        #[trigger] answers[j]).0 == id implies i == j by {
        assert(view[i].0 == id && view[j].0 == id);
        if i < j {
            assert(view[i].0 != view[j].0);
        } else if j < i {
            assert(view[j].0 != view[i].0);
        }
    }
}

/// A command to read that was executed under a number is answered under this number, once the
/// platform reports a value for its device and its characteristic, with the bytes that it reported.
pub proof fn lemma_read_is_answered(
    before: ProcessorView,
    after: ProcessorView,
    id: u128,
    wanted: Peripheral,
    sought: Characteristic,
    execution: Execution,
    action: Option<Action>,
    result: Option<CommandResult>,
    uptime: u64,
    peripheral: Peripheral,
    characteristic: Characteristic,
    value: Vec<u8>,
    answers: Seq<(u128, EventMatchResult)>,
)
    requires
        Command::ReadCharacteristic(wanted, sought)@.executes(
            before.state,
            uptime,
            execution@,
            action_view(action),
        ),
        is_settled(
            before,
            after,
            id,
            Command::ReadCharacteristic(wanted, sought)@,
            execution@,
            result_view(result),
        ),
        peripheral.id == wanted.id,
        characteristic.id == sought.id,
        are_answers(
            answers_view(answers),
            after.matchers,
            CentralEvent::CharacteristicValue { peripheral, characteristic, value: Ok(value) },
        ),
    ensures
        result is None,
        exists|i: int|
            {
                &&& 0 <= i < answers.len()
                &&& (#[trigger] answers[i]).0 == id
                &&& answers[i].1 matches EventMatchResult::Result(
                    CommandResult::ReadCharacteristic(p, c, Some(bytes)),
                ) && p == peripheral && c == characteristic && bytes@ == value@
            },
{
    let event = CentralEvent::CharacteristicValue { peripheral, characteristic, value: Ok(value) };
    lemma_events_answer_all(after, event, answers, id);
    assert(after.matchers.contains_key(id));
    let i = choose|i: int| 0 <= i < answers.len() && (#[trigger] answers[i]).0 == id;
    assert(answers[i].1@ == matched(after.matchers[id], event));
}

} // verus!
