//! Commands of the daemon, and how they are executed.

use vstd::prelude::*;

use crate::bt_uuid::Uuid;
use crate::central::{CentralEvent, Characteristic, Error, Peripheral, Service};
use crate::daemon_state::{
    is_listing, listing_view, Advertisement, AdvertisementView, DaemonState, DaemonStateView,
};
use crate::event_matchers::{
    matched, CharacteristicValueMatcher, CharacteristicsDiscoveredMatcher, EventMatch, EventMatcher,
    MatchView, MatcherView, PeripheralConnectedMatcher, PeripheralDiscoveredMatcherByServiceUUID,
    ServicesDiscoveredMatcher, WriteCharacteristicResultMatcher,
};

verus! {

/// What has become of a command.
#[derive(PartialEq, Eq, Debug)]
pub enum CommandResult {
    /// Seconds since the daemon was started, and the number of connected devices.
    GetStatus(u64, Option<usize>),
    ListPeripherals(Vec<(Peripheral, Advertisement)>),
    FindPeripheral(Option<Peripheral>),
    ConnectToPeripheral(Peripheral),
    FindService(Peripheral, Option<Service>),
    FindCharacteristic(Peripheral, Option<Characteristic>),
    ReadCharacteristic(Peripheral, Characteristic, Option<Vec<u8>>),
    WriteCharacteristic(Peripheral, Characteristic, Result<(), Error>),
}

/// What a [`CommandResult`] holds.
#[verifier::ext_equal]
pub enum ResultView {
    GetStatus(u64, Option<usize>),
    ListPeripherals(Seq<(Peripheral, AdvertisementView)>),
    FindPeripheral(Option<Peripheral>),
    ConnectToPeripheral(Peripheral),
    FindService(Peripheral, Option<Service>),
    FindCharacteristic(Peripheral, Option<Characteristic>),
    ReadCharacteristic(Peripheral, Characteristic, Option<Seq<u8>>),
    WriteCharacteristic(Peripheral, Characteristic, Result<(), Error>),
}

impl View for CommandResult {
    type V = ResultView;

    open spec fn view(&self) -> ResultView {
        match *self {
            CommandResult::GetStatus(uptime, count) => ResultView::GetStatus(uptime, count),
            CommandResult::ListPeripherals(list) => ResultView::ListPeripherals(
                listing_view(list@),
            ),
            CommandResult::FindPeripheral(found) => ResultView::FindPeripheral(found),
            CommandResult::ConnectToPeripheral(peripheral) => ResultView::ConnectToPeripheral(
                peripheral,
            ),
            CommandResult::FindService(peripheral, found) => ResultView::FindService(
                peripheral,
                found,
            ),
            CommandResult::FindCharacteristic(peripheral, found) => ResultView::FindCharacteristic(
                peripheral,
                found,
            ),
            CommandResult::ReadCharacteristic(peripheral, characteristic, value) =>
                ResultView::ReadCharacteristic(
                peripheral,
                characteristic,
                match value {
                    Some(value) => Some(value@),
                    None => None,
                },
            ),
            CommandResult::WriteCharacteristic(peripheral, characteristic, result) =>
                ResultView::WriteCharacteristic(peripheral, characteristic, result),
        }
    }
}

impl Clone for CommandResult {
    fn clone(&self) -> (copy: Self)
        ensures
            copy@ == self@,
    {
        match self {
            CommandResult::GetStatus(uptime, count) => CommandResult::GetStatus(*uptime, *count),
            CommandResult::ListPeripherals(list) => {
                let mut copy: Vec<(Peripheral, Advertisement)> = Vec::new();
                let mut i: usize = 0;
                while i < list.len()
                    invariant
                        i <= list@.len(),
                        copy@.len() == i,
                        forall|k: int|
                            0 <= k < i ==> (#[trigger] copy@[k]).0 == list@[k].0 && copy@[k].1@
                                == list@[k].1@,
                    decreases list@.len() - i,
                {
                    copy.push((list[i].0.clone(), list[i].1.clone()));
                    i += 1;
                }
                assert(listing_view(copy@) =~= listing_view(list@));
                CommandResult::ListPeripherals(copy)
            },
            CommandResult::FindPeripheral(found) => CommandResult::FindPeripheral(
                match found {
                    Some(peripheral) => Some(peripheral.clone()),
                    None => None,
                },
            ),
            CommandResult::ConnectToPeripheral(peripheral) => CommandResult::ConnectToPeripheral(
                peripheral.clone(),
            ),
            CommandResult::FindService(peripheral, found) => CommandResult::FindService(
                peripheral.clone(),
                match found {
                    Some(service) => Some(service.clone()),
                    None => None,
                },
            ),
            CommandResult::FindCharacteristic(peripheral, found) =>
                CommandResult::FindCharacteristic(peripheral.clone(), *found),
            CommandResult::ReadCharacteristic(peripheral, characteristic, value) =>
                CommandResult::ReadCharacteristic(
                peripheral.clone(),
                *characteristic,
                match value {
                    Some(value) => Some(vstd::slice::slice_to_vec(value.as_slice())),
                    None => None,
                },
            ),
            CommandResult::WriteCharacteristic(peripheral, characteristic, result) =>
                CommandResult::WriteCharacteristic(
                peripheral.clone(),
                *characteristic,
                match result {
                    Ok(done) => Ok(*done),
                    Err(error) => Err(error.clone()),
                },
            ),
        }
    }
}

/// What the daemon can be asked to do.
#[derive(PartialEq, Eq, Debug)]
pub enum Command {
    GetStatus,
    ListPeripherals,
    FindPeripheralByService(Uuid),
    ConnectToPeripheral(Peripheral),
    RegisterConnectedPeripheral(Peripheral),
    UnregisterConnectedPeripheral(Uuid),
    FindService(Peripheral, String),
    /// The number tells the requests for a characteristic apart; it is no Bluetooth identifier.
    FindCharacteristic(Peripheral, Service, String, u128),
    ReadCharacteristic(Peripheral, Characteristic),
    WriteCharacteristic(Peripheral, Characteristic, Vec<u8>),
}

/// What a [`Command`] holds.
#[verifier::ext_equal]
pub enum CommandView {
    GetStatus,
    ListPeripherals,
    FindPeripheralByService(Uuid),
    ConnectToPeripheral(Peripheral),
    RegisterConnectedPeripheral(Peripheral),
    UnregisterConnectedPeripheral(Uuid),
    FindService(Peripheral, Seq<char>),
    FindCharacteristic(Peripheral, Service, Seq<char>, u128),
    ReadCharacteristic(Peripheral, Characteristic),
    WriteCharacteristic(Peripheral, Characteristic, Seq<u8>),
}

impl View for Command {
    type V = CommandView;

    open spec fn view(&self) -> CommandView {
        match *self {
            Command::GetStatus => CommandView::GetStatus,
            Command::ListPeripherals => CommandView::ListPeripherals,
            Command::FindPeripheralByService(uuid) => CommandView::FindPeripheralByService(uuid),
            Command::ConnectToPeripheral(peripheral) => CommandView::ConnectToPeripheral(
                peripheral,
            ),
            Command::RegisterConnectedPeripheral(peripheral) =>
                CommandView::RegisterConnectedPeripheral(peripheral),
            Command::UnregisterConnectedPeripheral(uuid) =>
                CommandView::UnregisterConnectedPeripheral(uuid),
            Command::FindService(peripheral, id_substr) => CommandView::FindService(
                peripheral,
                id_substr@,
            ),
            Command::FindCharacteristic(peripheral, service, id_substr, request) =>
                CommandView::FindCharacteristic(peripheral, service, id_substr@, request),
            Command::ReadCharacteristic(peripheral, characteristic) =>
                CommandView::ReadCharacteristic(peripheral, characteristic),
            Command::WriteCharacteristic(peripheral, characteristic, data) =>
                CommandView::WriteCharacteristic(peripheral, characteristic, data@),
        }
    }
}

impl Clone for Command {
    fn clone(&self) -> (copy: Self)
        ensures
            copy@ == self@,
    {
        match self {
            Command::GetStatus => Command::GetStatus,
            Command::ListPeripherals => Command::ListPeripherals,
            Command::FindPeripheralByService(uuid) => Command::FindPeripheralByService(*uuid),
            Command::ConnectToPeripheral(peripheral) => Command::ConnectToPeripheral(
                peripheral.clone(),
            ),
            Command::RegisterConnectedPeripheral(peripheral) =>
                Command::RegisterConnectedPeripheral(peripheral.clone()),
            Command::UnregisterConnectedPeripheral(uuid) => Command::UnregisterConnectedPeripheral(
                *uuid,
            ),
            Command::FindService(peripheral, id_substr) => Command::FindService(
                peripheral.clone(),
                id_substr.clone(),
            ),
            Command::FindCharacteristic(peripheral, service, id_substr, request) =>
                Command::FindCharacteristic(
                peripheral.clone(),
                service.clone(),
                id_substr.clone(),
                *request,
            ),
            Command::ReadCharacteristic(peripheral, characteristic) => Command::ReadCharacteristic(
                peripheral.clone(),
                *characteristic,
            ),
            Command::WriteCharacteristic(peripheral, characteristic, data) =>
                Command::WriteCharacteristic(
                peripheral.clone(),
                *characteristic,
                vstd::slice::slice_to_vec(data.as_slice()),
            ),
        }
    }
}

/// What the platform is asked to do for a command.
#[derive(PartialEq, Eq, Debug)]
pub enum Action {
    /// Look for devices that advertise a service.
    StartScan(Uuid),
    Connect(Peripheral),
    DiscoverServices(Peripheral),
    DiscoverCharacteristics(Peripheral, Service),
    ReadCharacteristic(Peripheral, Characteristic),
    /// Write a value, and ask for a confirmation.
    WriteCharacteristic(Peripheral, Characteristic, Vec<u8>),
}

/// What an [`Action`] holds.
#[verifier::ext_equal]
pub enum ActionView {
    StartScan(Uuid),
    Connect(Peripheral),
    DiscoverServices(Peripheral),
    DiscoverCharacteristics(Peripheral, Service),
    ReadCharacteristic(Peripheral, Characteristic),
    WriteCharacteristic(Peripheral, Characteristic, Seq<u8>),
}

impl View for Action {
    type V = ActionView;

    open spec fn view(&self) -> ActionView {
        match *self {
            Action::StartScan(uuid) => ActionView::StartScan(uuid),
            Action::Connect(peripheral) => ActionView::Connect(peripheral),
            Action::DiscoverServices(peripheral) => ActionView::DiscoverServices(peripheral),
            Action::DiscoverCharacteristics(peripheral, service) =>
                ActionView::DiscoverCharacteristics(peripheral, service),
            Action::ReadCharacteristic(peripheral, characteristic) =>
                ActionView::ReadCharacteristic(peripheral, characteristic),
            Action::WriteCharacteristic(peripheral, characteristic, data) =>
                ActionView::WriteCharacteristic(peripheral, characteristic, data@),
        }
    }
}

/// What an optional [`Action`] holds.
pub open spec fn action_view(action: Option<Action>) -> Option<ActionView> {
    match action {
        Some(action) => Some(action@),
        None => None,
    }
}

/// What follows from an event for a command that was waiting.
#[derive(PartialEq, Eq, Debug)]
pub enum EventMatchResult {
    /// Another command is to be executed in its place.
    Command(Command),
    Result(CommandResult),
    NoMatch,
}

impl View for EventMatchResult {
    type V = MatchView;

    open spec fn view(&self) -> MatchView {
        match *self {
            EventMatchResult::Command(command) => MatchView::Next(command@),
            EventMatchResult::Result(result) => MatchView::Result(result@),
            EventMatchResult::NoMatch => MatchView::Nothing,
        }
    }
}

/// What a command that was handed to the platform waits for.
#[derive(PartialEq, Eq, Debug)]
pub enum Matcher {
    PeripheralDiscovered(PeripheralDiscoveredMatcherByServiceUUID),
    PeripheralConnected(PeripheralConnectedMatcher),
    ServicesDiscovered(ServicesDiscoveredMatcher),
    CharacteristicsDiscovered(CharacteristicsDiscoveredMatcher),
    CharacteristicValue(CharacteristicValueMatcher),
    WriteCharacteristicResult(WriteCharacteristicResultMatcher),
}

impl View for Matcher {
    type V = MatcherView;

    open spec fn view(&self) -> MatcherView {
        match *self {
            Matcher::PeripheralDiscovered(matcher) => matcher.awaits(),
            Matcher::PeripheralConnected(matcher) => matcher.awaits(),
            Matcher::ServicesDiscovered(matcher) => matcher.awaits(),
            Matcher::CharacteristicsDiscovered(matcher) => matcher.awaits(),
            Matcher::CharacteristicValue(matcher) => matcher.awaits(),
            Matcher::WriteCharacteristicResult(matcher) => matcher.awaits(),
        }
    }
}

impl Matcher {
    /// What follows from `event`.
    pub fn matches(&self, event: &CentralEvent) -> (outcome: EventMatchResult)
        ensures
            outcome@ == matched(self@, *event),
    {
        let outcome: EventMatch = match self {
            Matcher::PeripheralDiscovered(matcher) => matcher.matches(event),
            Matcher::PeripheralConnected(matcher) => matcher.matches(event),
            Matcher::ServicesDiscovered(matcher) => matcher.matches(event),
            Matcher::CharacteristicsDiscovered(matcher) => matcher.matches(event),
            Matcher::CharacteristicValue(matcher) => matcher.matches(event),
            Matcher::WriteCharacteristicResult(matcher) => matcher.matches(event),
        };
        match outcome {
            EventMatch::Next(command) => EventMatchResult::Command(command),
            EventMatch::Result(result) => EventMatchResult::Result(result),
            EventMatch::Nothing => EventMatchResult::NoMatch,
        }
    }
}

/// How far a command has come.
#[derive(PartialEq, Eq, Debug)]
pub enum Execution {
    /// It is done.
    Result(CommandResult),
    /// It waits for an event.
    Matcher(Matcher),
    /// It is done, and there is nothing to report.
    Nothing,
}

/// What an [`Execution`] holds.
#[verifier::ext_equal]
pub enum ExecutionView {
    Result(ResultView),
    Matcher(MatcherView),
    Nothing,
}

impl View for Execution {
    type V = ExecutionView;

    open spec fn view(&self) -> ExecutionView {
        match *self {
            Execution::Result(result) => ExecutionView::Result(result@),
            Execution::Matcher(matcher) => ExecutionView::Matcher(matcher@),
            Execution::Nothing => ExecutionView::Nothing,
        }
    }
}

impl CommandView {
    /// The daemon knows enough of the devices that the command is about: it has heard of the ones
    /// that are to be listed or connected to, and it is connected to the ones that advertise the
    /// service that is looked for.
    pub open spec fn is_executable(self, state: DaemonStateView) -> bool {
        match self {
            CommandView::ListPeripherals => forall|key: u128| #[trigger]
                state.peripherals.contains_key(key) ==> state.is_known(key),
            CommandView::FindPeripheralByService(uuid) => state.are_advertisers_connected(uuid),
            CommandView::ConnectToPeripheral(peripheral) => state.is_known(
                peripheral.id.spec_key(),
            ),
            _ => true,
        }
    }

    /// What is remembered after the command was executed.
    pub open spec fn state_after(self, state: DaemonStateView) -> DaemonStateView {
        match self {
            CommandView::RegisterConnectedPeripheral(peripheral) => DaemonStateView {
                peripherals: state.peripherals.insert(peripheral.id.spec_key(), peripheral),
                ..state
            },
            CommandView::UnregisterConnectedPeripheral(uuid) => DaemonStateView {
                peripherals: state.peripherals.remove(uuid.spec_key()),
                advertisements: state.advertisements.remove(uuid.spec_key()),
                ..state
            },
            _ => state,
        }
    }

    /// The command, executed in `state` when the daemon has run for `uptime` seconds, can come as
    /// far as `execution`, and then asks the platform for `action`.
    ///
    /// There is one way to execute a command, except that the devices in a list can be in any order
    /// and any of several devices that advertise a service can be found.
    pub open spec fn executes(
        self,
        state: DaemonStateView,
        uptime: u64,
        execution: ExecutionView,
        action: Option<ActionView>,
    ) -> bool {
        match self {
            CommandView::GetStatus => {
                &&& execution == ExecutionView::Result(
                    ResultView::GetStatus(uptime, Some(state.peripherals.len() as usize)),
                )
                &&& state.peripherals.len() <= usize::MAX
                &&& action is None
            },
            CommandView::ListPeripherals => {
                &&& execution matches ExecutionView::Result(ResultView::ListPeripherals(list))
                    && is_listing(list, state)
                &&& action is None
            },
            CommandView::FindPeripheralByService(uuid) => if exists|key: u128| #[trigger]
                state.advertises(key, uuid) {
                &&& exists|key: u128|
                    #![trigger state.advertises(key, uuid)]
                    state.advertises(key, uuid) && execution == ExecutionView::Result(
                        ResultView::FindPeripheral(Some(state.peripherals[key])),
                    )
                &&& action is None
            } else {
                &&& execution == ExecutionView::Matcher(MatcherView::PeripheralDiscovered(uuid))
                &&& action == Some(ActionView::StartScan(uuid))
            },
            CommandView::ConnectToPeripheral(peripheral) => if state.peripherals.contains_key(
                peripheral.id.spec_key(),
            ) {
                &&& execution == ExecutionView::Result(
                    ResultView::ConnectToPeripheral(state.peripherals[peripheral.id.spec_key()]),
                )
                &&& action is None
            } else {
                &&& execution == ExecutionView::Matcher(
                    MatcherView::PeripheralConnected(peripheral.id),
                )
                &&& action == Some(ActionView::Connect(peripheral))
            },
            CommandView::RegisterConnectedPeripheral(peripheral) => {
                &&& execution == ExecutionView::Result(ResultView::ConnectToPeripheral(peripheral))
                &&& action is None
            },
            CommandView::UnregisterConnectedPeripheral(_) => {
                &&& execution is Nothing
                &&& action is None
            },
            CommandView::FindService(peripheral, id_substr) => {
                &&& execution == ExecutionView::Matcher(
                    MatcherView::ServicesDiscovered(peripheral.id, id_substr),
                )
                &&& action == Some(ActionView::DiscoverServices(peripheral))
            },
            CommandView::FindCharacteristic(peripheral, service, id_substr, _) => {
                &&& execution == ExecutionView::Matcher(
                    MatcherView::CharacteristicsDiscovered(peripheral.id, service.id, id_substr),
                )
                &&& action == Some(ActionView::DiscoverCharacteristics(peripheral, service))
            },
            CommandView::ReadCharacteristic(peripheral, characteristic) => {
                &&& execution == ExecutionView::Matcher(
                    MatcherView::CharacteristicValue(peripheral.id, characteristic.id),
                )
                &&& action == Some(ActionView::ReadCharacteristic(peripheral, characteristic))
            },
            CommandView::WriteCharacteristic(peripheral, characteristic, data) => {
                &&& execution == ExecutionView::Matcher(
                    MatcherView::WriteCharacteristicResult(peripheral.id, characteristic.id),
                )
                &&& action == Some(
                    ActionView::WriteCharacteristic(peripheral, characteristic, data),
                )
            },
        }
    }
}

impl Command {
    /// Whether the daemon knows enough of the devices that the command is about.
    pub fn is_executable(&self, state: &DaemonState) -> (r: bool)
        ensures
            r == self@.is_executable(state@),
    {
        match self {
            Command::ListPeripherals => state.are_all_known(),
            Command::FindPeripheralByService(uuid) => state.are_advertisers_connected(*uuid),
            Command::ConnectToPeripheral(peripheral) => state.is_known(peripheral.id),
            _ => true,
        }
    }

    /// Executes the command as far as the daemon can, `uptime` seconds after it was started, and
    /// tells what the platform is then asked to do.
    pub fn execute(&self, state: &mut DaemonState, uptime: u64) -> (outcome: (
        Execution,
        Option<Action>,
    ))
        requires
            self@.is_executable(old(state)@),
        ensures
            final(state)@ == self@.state_after(old(state)@),
            self@.executes(old(state)@, uptime, outcome.0@, action_view(outcome.1)),
    {
        match self {
            Command::GetStatus => (
                Execution::Result(CommandResult::GetStatus(uptime, Some(state.connected_count()))),
                None,
            ),
            Command::ListPeripherals => (
                Execution::Result(CommandResult::ListPeripherals(state.list_peripherals())),
                None,
            ),
            Command::FindPeripheralByService(uuid) => {
                match state.find_connected_peripheral_by_service(*uuid) {
                    Some(peripheral) => (
                        Execution::Result(CommandResult::FindPeripheral(Some(peripheral))),
                        None,
                    ),
                    None => (
                        Execution::Matcher(
                            Matcher::PeripheralDiscovered(
                                PeripheralDiscoveredMatcherByServiceUUID::new(*uuid),
                            ),
                        ),
                        Some(Action::StartScan(*uuid)),
                    ),
                }
            },
            Command::ConnectToPeripheral(peripheral) => {
                match state.get_peripheral(peripheral.id) {
                    Some((connected, _)) => (
                        Execution::Result(CommandResult::ConnectToPeripheral(connected)),
                        None,
                    ),
                    None => (
                        Execution::Matcher(
                            Matcher::PeripheralConnected(
                                PeripheralConnectedMatcher::new(peripheral),
                            ),
                        ),
                        Some(Action::Connect(peripheral.clone())),
                    ),
                }
            },
            Command::RegisterConnectedPeripheral(peripheral) => {
                state.register(peripheral);
                (
                    Execution::Result(CommandResult::ConnectToPeripheral(peripheral.clone())),
                    None,
                )
            },
            Command::UnregisterConnectedPeripheral(uuid) => {
                state.unregister(*uuid);
                (Execution::Nothing, None)
            },
            Command::FindService(peripheral, id_substr) => (
                Execution::Matcher(
                    Matcher::ServicesDiscovered(
                        ServicesDiscoveredMatcher::new(peripheral, id_substr.clone()),
                    ),
                ),
                Some(Action::DiscoverServices(peripheral.clone())),
            ),
            Command::FindCharacteristic(peripheral, service, id_substr, _) => (
                Execution::Matcher(
                    Matcher::CharacteristicsDiscovered(
                        CharacteristicsDiscoveredMatcher::new(
                            peripheral,
                            service,
                            id_substr.clone(),
                        ),
                    ),
                ),
                Some(Action::DiscoverCharacteristics(peripheral.clone(), service.clone())),
            ),
            Command::ReadCharacteristic(peripheral, characteristic) => (
                Execution::Matcher(
                    Matcher::CharacteristicValue(
                        CharacteristicValueMatcher::new(peripheral, characteristic),
                    ),
                ),
                Some(Action::ReadCharacteristic(peripheral.clone(), *characteristic)),
            ),
            Command::WriteCharacteristic(peripheral, characteristic, data) => (
                Execution::Matcher(
                    Matcher::WriteCharacteristicResult(
                        WriteCharacteristicResultMatcher::new(peripheral, characteristic),
                    ),
                ),
                Some(
                    Action::WriteCharacteristic(
                        peripheral.clone(),
                        *characteristic,
                        vstd::slice::slice_to_vec(data.as_slice()),
                    ),
                ),
            ),
        }
    }
}

/// A command keeps devices and advertisements under the numbers of their own identifiers.
pub proof fn lemma_commands_keep_keys(command: CommandView, state: DaemonStateView)
    requires
        state.is_keyed(),
    ensures
        command.state_after(state).is_keyed(),
{
}

/// The daemon has heard of every device that it is connected to, and no command changes that,
/// except one that registers a device that it has not heard of.
pub proof fn lemma_commands_keep_coherence(command: CommandView, state: DaemonStateView)
    requires
        state.is_coherent(),
        command matches CommandView::RegisterConnectedPeripheral(peripheral)
            ==> state.advertisements.contains_key(peripheral.id.spec_key()),
    ensures
        command.state_after(state).is_coherent(),
{
    let after = command.state_after(state);
    assert forall|key: u128| #[trigger] after.peripherals.contains_key(key) implies after
        .peripherals[key].id.spec_key() == key && after.advertisements.contains_key(key) by {
        assert(state.peripherals.contains_key(key) || command is RegisterConnectedPeripheral);
    }
}

/// As long as the daemon has heard of every device that it is connected to, it can list devices and
/// connect to any of them.
pub proof fn lemma_coherent_is_executable(state: DaemonStateView, peripheral: Peripheral)
    requires
        state.is_coherent(),
    ensures
        CommandView::ListPeripherals.is_executable(state),
        CommandView::ConnectToPeripheral(peripheral).is_executable(state),
{
}

/// A command that waits for an event has asked the platform for something, and one that does not
/// has asked for nothing.
pub proof fn lemma_waiting_is_asking(
    command: CommandView,
    state: DaemonStateView,
    uptime: u64,
    execution: ExecutionView,
    action: Option<ActionView>,
)
    requires
        command.executes(state, uptime, execution, action),
    ensures
        execution is Matcher <==> action is Some,
{
}

/// Once the platform has connected to a device, the command to connect to it is answered with that
/// device without asking the platform again.
pub proof fn lemma_connect_once(
    state: DaemonStateView,
    peripheral: Peripheral,
    uptime: u64,
    execution: ExecutionView,
    action: Option<ActionView>,
)
    requires
        CommandView::ConnectToPeripheral(peripheral).executes(
            CommandView::RegisterConnectedPeripheral(peripheral).state_after(state),
            uptime,
            execution,
            action,
        ),
    ensures
        execution == ExecutionView::Result(ResultView::ConnectToPeripheral(peripheral)),
        action is None,
{
}

} // verus!
