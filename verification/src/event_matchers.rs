//! What the daemon waits for.
//!
//! A request that was handed to the platform is answered by an event. A matcher knows the events
//! that answer one request; it has no state of its own, so an event that does not answer the request
//! leaves it as it was.

use vstd::prelude::*;

use crate::bt_uuid::{uuid_text, Uuid};
use crate::central::{CentralEvent, Characteristic, Error, Peripheral, Service};
use crate::commands::{Command, CommandResult, CommandView, ResultView};
use crate::text::{contains_text, occurs_in};

verus! {

/// What follows from an event.
#[derive(PartialEq, Eq, Debug)]
pub enum EventMatch {
    /// A command is to be executed in place of the one that was waiting.
    Next(Command),
    /// The command that was waiting has a result.
    Result(CommandResult),
    /// The event does not answer the request.
    Nothing,
}

/// What an [`EventMatch`] holds.
#[verifier::ext_equal]
pub enum MatchView {
    Next(CommandView),
    Result(ResultView),
    Nothing,
}

impl View for EventMatch {
    type V = MatchView;

    open spec fn view(&self) -> MatchView {
        match *self {
            EventMatch::Next(command) => MatchView::Next(command@),
            EventMatch::Result(result) => MatchView::Result(result@),
            EventMatch::Nothing => MatchView::Nothing,
        }
    }
}

impl EventMatch {
    pub fn is_none(&self) -> (r: bool)
        ensures
            r == (self is Nothing),
    {
        match self {
            EventMatch::Nothing => true,
            _ => false,
        }
    }
}

/// Which events a matcher waits for.
pub enum MatcherView {
    /// The discovery of a device that advertises a service.
    PeripheralDiscovered(Uuid),
    /// The end of an attempt to connect to a device.
    PeripheralConnected(Uuid),
    /// The discovery of the services of a device, of which one is wanted whose identifier contains
    /// a text.
    ServicesDiscovered(Uuid, Seq<char>),
    /// The discovery of the characteristics of a service of a device, of which one is wanted whose
    /// identifier contains a text.
    CharacteristicsDiscovered(Uuid, Uuid, Seq<char>),
    /// The value of a characteristic of a device.
    CharacteristicValue(Uuid, Uuid),
    /// The end of an attempt to write to a characteristic of a device.
    WriteCharacteristicResult(Uuid, Uuid),
}

/// Something with an identifier.
pub trait HasId {
    spec fn spec_id(&self) -> Uuid;

    fn get_id(&self) -> (id: Uuid)
        ensures
            id == self.spec_id(),
    ;
}

impl HasId for Service {
    open spec fn spec_id(&self) -> Uuid {
        self.id
    }

    fn get_id(&self) -> (id: Uuid) {
        self.id
    }
}

impl HasId for Characteristic {
    open spec fn spec_id(&self) -> Uuid {
        self.id
    }

    fn get_id(&self) -> (id: Uuid) {
        self.id
    }
}

/// The notation of `id` contains `id_substr`.
pub open spec fn id_contains(id: Uuid, id_substr: Seq<char>) -> bool {
    occurs_in(uuid_text(id@), id_substr)
}

/// The first of `items` whose identifier contains `id_substr`.
pub open spec fn first_with_id<T: HasId>(items: Seq<T>, id_substr: Seq<char>) -> Option<T>
    decreases items.len(),
{
    if items.len() == 0 {
        None
    } else if id_contains(items[0].spec_id(), id_substr) {
        Some(items[0])
    } else {
        first_with_id(items.skip(1), id_substr)
    }
}

/// The first of the items that were found whose identifier contains `id_substr`; nothing if the
/// search has failed.
pub open spec fn found_by_id<T: HasId>(
    items: Result<Vec<T>, Error>,
    id_substr: Seq<char>,
) -> Option<T> {
    match items {
        Ok(items) => first_with_id(items@, id_substr),
        Err(_) => None,
    }
}

/// The first of the items that were found whose identifier contains `id_substr`.
pub fn find_by_id_substr<'a, T: HasId>(
    id_substr: &str,
    items: &'a Result<Vec<T>, Error>,
) -> (found: Option<&'a T>)
    ensures
        match found {
            Some(item) => found_by_id(*items, id_substr@) == Some(*item),
            None => found_by_id(*items, id_substr@) is None,
        },
{
    match items {
        Ok(list) => {
            let mut i: usize = 0;
            assert(list@.skip(0) =~= list@);
            while i < list.len()
                invariant
                    i <= list@.len(),
                    found_by_id(*items, id_substr@) == first_with_id(
                        list@.skip(i as int),
                        id_substr@,
                    ),
                decreases list@.len() - i,
            {
                assert(list@.skip(i as int)[0] == list@[i as int]);
                if contains_text(list[i].get_id().to_text().as_str(), id_substr) {
                    return Some(&list[i]);
                }
                assert(list@.skip(i as int).skip(1) =~= list@.skip(i + 1));
                i += 1;
            }
            None
        },
        Err(_) => None,
    }
}

/// What follows from `event` for a matcher.
pub open spec fn matched(matcher: MatcherView, event: CentralEvent) -> MatchView {
    match matcher {
        MatcherView::PeripheralDiscovered(uuid) => match event {
            CentralEvent::PeripheralDiscovered { peripheral, advertisement_data, rssi: _ } =>
                if advertisement_data@.service_uuids.contains(uuid) {
                    MatchView::Result(ResultView::FindPeripheral(Some(peripheral)))
                } else {
                    MatchView::Nothing
                },
            _ => MatchView::Nothing,
        },
        MatcherView::PeripheralConnected(id) => match event {
            CentralEvent::PeripheralConnected { peripheral } => if peripheral.id == id {
                MatchView::Next(CommandView::RegisterConnectedPeripheral(peripheral))
            } else {
                MatchView::Nothing
            },
            CentralEvent::PeripheralConnectFailed { peripheral, error: _ } => if peripheral.id
                == id {
                MatchView::Next(CommandView::UnregisterConnectedPeripheral(id))
            } else {
                MatchView::Nothing
            },
            _ => MatchView::Nothing,
        },
        MatcherView::ServicesDiscovered(id, id_substr) => match event {
            CentralEvent::ServicesDiscovered { peripheral, services } => if peripheral.id == id {
                MatchView::Result(
                    ResultView::FindService(peripheral, found_by_id(services, id_substr)),
                )
            } else {
                MatchView::Nothing
            },
            _ => MatchView::Nothing,
        },
        MatcherView::CharacteristicsDiscovered(id, service_id, id_substr) => match event {
            CentralEvent::CharacteristicsDiscovered { peripheral, service, characteristics } =>
                if peripheral.id == id && service.id == service_id {
                    MatchView::Result(
                        ResultView::FindCharacteristic(
                            peripheral,
                            found_by_id(characteristics, id_substr),
                        ),
                    )
                } else {
                    MatchView::Nothing
                },
            _ => MatchView::Nothing,
        },
        MatcherView::CharacteristicValue(id, characteristic_id) => match event {
            CentralEvent::CharacteristicValue { peripheral, characteristic, value } =>
                if peripheral.id == id && characteristic.id == characteristic_id {
                    MatchView::Result(
                        ResultView::ReadCharacteristic(
                            peripheral,
                            characteristic,
                            match value {
                                Ok(value) => Some(value@),
                                Err(_) => None,
                            },
                        ),
                    )
                } else {
                    MatchView::Nothing
                },
            _ => MatchView::Nothing,
        },
        MatcherView::WriteCharacteristicResult(id, characteristic_id) => match event {
            CentralEvent::WriteCharacteristicResult { peripheral, characteristic, result } =>
                if peripheral.id == id && characteristic.id == characteristic_id {
                    MatchView::Result(
                        ResultView::WriteCharacteristic(peripheral, characteristic, result),
                    )
                } else {
                    MatchView::Nothing
                },
            _ => MatchView::Nothing,
        },
    }
}

/// Knows the events that answer a request.
pub trait EventMatcher {
    /// Which events the matcher waits for.
    spec fn awaits(&self) -> MatcherView;

    /// What follows from `event`.
    fn matches(&self, event: &CentralEvent) -> (outcome: EventMatch)
        ensures
            outcome@ == matched(self.awaits(), *event),
    ;
}

/// Waits for the discovery of a device that advertises a service.
#[derive(PartialEq, Eq, Debug)]
pub struct PeripheralDiscoveredMatcherByServiceUUID {
    uuid: Uuid,
}

impl PeripheralDiscoveredMatcherByServiceUUID {
    pub fn new(uuid: Uuid) -> (matcher: Self)
        ensures
            matcher.awaits() == MatcherView::PeripheralDiscovered(uuid),
    {
        Self { uuid }
    }
}

impl EventMatcher for PeripheralDiscoveredMatcherByServiceUUID {
    closed spec fn awaits(&self) -> MatcherView {
        MatcherView::PeripheralDiscovered(self.uuid)
    }

    fn matches(&self, event: &CentralEvent) -> (outcome: EventMatch) {
        if let CentralEvent::PeripheralDiscovered { peripheral, advertisement_data, rssi: _ } =
            event {
            if advertisement_data.has_service(self.uuid) {
                return EventMatch::Result(
                    CommandResult::FindPeripheral(Some(peripheral.clone())),
                );
            }
        }
        EventMatch::Nothing
    }
}

/// Waits for the end of an attempt to connect to a device.
#[derive(PartialEq, Eq, Debug)]
pub struct PeripheralConnectedMatcher {
    peripheral_id: Uuid,
}

impl PeripheralConnectedMatcher {
    pub fn new(peripheral: &Peripheral) -> (matcher: Self)
        ensures
            matcher.awaits() == MatcherView::PeripheralConnected(peripheral.id),
    {
        Self { peripheral_id: peripheral.id }
    }
}

impl EventMatcher for PeripheralConnectedMatcher {
    closed spec fn awaits(&self) -> MatcherView {
        MatcherView::PeripheralConnected(self.peripheral_id)
    }

    fn matches(&self, event: &CentralEvent) -> (outcome: EventMatch) {
        if let CentralEvent::PeripheralConnected { peripheral } = event {
            if peripheral.id == self.peripheral_id {
                return EventMatch::Next(Command::RegisterConnectedPeripheral(peripheral.clone()));
            }
        } else if let CentralEvent::PeripheralConnectFailed { peripheral, error: _ } = event {
            if peripheral.id == self.peripheral_id {
                return EventMatch::Next(Command::UnregisterConnectedPeripheral(peripheral.id));
            }
        }
        EventMatch::Nothing
    }
}

/// Waits for the discovery of the services of a device.
#[derive(PartialEq, Eq, Debug)]
pub struct ServicesDiscoveredMatcher {
    peripheral_id: Uuid,
    uuid_substr: String,
}

impl ServicesDiscoveredMatcher {
    pub fn new(peripheral: &Peripheral, uuid_substr: String) -> (matcher: Self)
        ensures
            matcher.awaits() == MatcherView::ServicesDiscovered(peripheral.id, uuid_substr@),
    {
        Self { peripheral_id: peripheral.id, uuid_substr }
    }
}

impl EventMatcher for ServicesDiscoveredMatcher {
    closed spec fn awaits(&self) -> MatcherView {
        MatcherView::ServicesDiscovered(self.peripheral_id, self.uuid_substr@)
    }

    fn matches(&self, event: &CentralEvent) -> (outcome: EventMatch) {
        if let CentralEvent::ServicesDiscovered { peripheral, services } = event {
            if peripheral.id == self.peripheral_id {
                let service: Option<Service> = match find_by_id_substr(
                    self.uuid_substr.as_str(),
                    services,
                ) {
                    Some(service) => Some(service.clone()),
                    None => None,
                };
                return EventMatch::Result(CommandResult::FindService(peripheral.clone(), service));
            }
        }
        EventMatch::Nothing
    }
}

/// Waits for the discovery of the characteristics of a service of a device.
#[derive(PartialEq, Eq, Debug)]
pub struct CharacteristicsDiscoveredMatcher {
    peripheral_id: Uuid,
    service_id: Uuid,
    uuid_substr: String,
}

impl CharacteristicsDiscoveredMatcher {
    pub fn new(peripheral: &Peripheral, service: &Service, uuid_substr: String) -> (matcher: Self)
        ensures
            matcher.awaits() == MatcherView::CharacteristicsDiscovered(
                peripheral.id,
                service.id,
                uuid_substr@,
            ),
    {
        Self { peripheral_id: peripheral.id, service_id: service.id, uuid_substr }
    }
}

impl EventMatcher for CharacteristicsDiscoveredMatcher {
    closed spec fn awaits(&self) -> MatcherView {
        MatcherView::CharacteristicsDiscovered(
            self.peripheral_id,
            self.service_id,
            self.uuid_substr@,
        )
    }

    fn matches(&self, event: &CentralEvent) -> (outcome: EventMatch) {
        if let CentralEvent::CharacteristicsDiscovered { peripheral, service, characteristics } =
            event {
            if peripheral.id == self.peripheral_id && service.id == self.service_id {
                let characteristic: Option<Characteristic> = match find_by_id_substr(
                    self.uuid_substr.as_str(),
                    characteristics,
                ) {
                    Some(characteristic) => Some(*characteristic),
                    None => None,
                };
                return EventMatch::Result(
                    CommandResult::FindCharacteristic(peripheral.clone(), characteristic),
                );
            }
        }
        EventMatch::Nothing
    }
}

/// Waits for the value of a characteristic of a device.
#[derive(PartialEq, Eq, Debug)]
pub struct CharacteristicValueMatcher {
    peripheral_id: Uuid,
    characteristic_id: Uuid,
}

impl CharacteristicValueMatcher {
    pub fn new(peripheral: &Peripheral, characteristic: &Characteristic) -> (matcher: Self)
        ensures
            matcher.awaits() == MatcherView::CharacteristicValue(peripheral.id, characteristic.id),
    {
        Self { peripheral_id: peripheral.id, characteristic_id: characteristic.id }
    }
}

impl EventMatcher for CharacteristicValueMatcher {
    closed spec fn awaits(&self) -> MatcherView {
        MatcherView::CharacteristicValue(self.peripheral_id, self.characteristic_id)
    }

    fn matches(&self, event: &CentralEvent) -> (outcome: EventMatch) {
        if let CentralEvent::CharacteristicValue { peripheral, characteristic, value } = event {
            if peripheral.id == self.peripheral_id && characteristic.id == self.characteristic_id {
                let value: Option<Vec<u8>> = match value {
                    Ok(value) => Some(vstd::slice::slice_to_vec(value.as_slice())),
                    Err(_) => None,
                };
                return EventMatch::Result(
                    CommandResult::ReadCharacteristic(peripheral.clone(), *characteristic, value),
                );
            }
        }
        EventMatch::Nothing
    }
}

/// Waits for the end of an attempt to write to a characteristic of a device.
#[derive(PartialEq, Eq, Debug)]
pub struct WriteCharacteristicResultMatcher {
    peripheral_id: Uuid,
    characteristic_id: Uuid,
}

impl WriteCharacteristicResultMatcher {
    pub fn new(peripheral: &Peripheral, characteristic: &Characteristic) -> (matcher: Self)
        ensures
            matcher.awaits() == MatcherView::WriteCharacteristicResult(
                peripheral.id,
                characteristic.id,
            ),
    {
        Self { peripheral_id: peripheral.id, characteristic_id: characteristic.id }
    }
}

impl EventMatcher for WriteCharacteristicResultMatcher {
    closed spec fn awaits(&self) -> MatcherView {
        MatcherView::WriteCharacteristicResult(self.peripheral_id, self.characteristic_id)
    }

    fn matches(&self, event: &CentralEvent) -> (outcome: EventMatch) {
        if let CentralEvent::WriteCharacteristicResult { peripheral, characteristic, result } =
            event {
            if peripheral.id == self.peripheral_id && characteristic.id == self.characteristic_id {
                let result: Result<(), Error> = match result {
                    Ok(done) => Ok(*done),
                    Err(error) => Err(error.clone()),
                };
                return EventMatch::Result(
                    CommandResult::WriteCharacteristic(peripheral.clone(), *characteristic, result),
                );
            }
        }
        EventMatch::Nothing
    }
}

/// The identifier that [`first_with_id`] finds contains the text, no earlier one does, and if
/// nothing is found, none does.
pub proof fn lemma_first_with_id<T: HasId>(items: Seq<T>, id_substr: Seq<char>)
    ensures
        match first_with_id(items, id_substr) {
            Some(item) => exists|i: int|
                0 <= i < items.len() && item == #[trigger] items[i] && id_contains(
                    item.spec_id(),
                    id_substr,
                ) && forall|k: int|
                    0 <= k < i ==> !id_contains((#[trigger] items[k]).spec_id(), id_substr),
            None => forall|i: int|
                0 <= i < items.len() ==> !id_contains((#[trigger] items[i]).spec_id(), id_substr),
        },
    decreases items.len(),
{
    if items.len() > 0 && !id_contains(items[0].spec_id(), id_substr) {
        let tail = items.skip(1);
        lemma_first_with_id(tail, id_substr);
        match first_with_id(tail, id_substr) {
            Some(item) => {
                let i = choose|i: int|
                    0 <= i < tail.len() && item == #[trigger] tail[i] && id_contains(
                        item.spec_id(),
                        id_substr,
                    ) && forall|k: int|
                        0 <= k < i ==> !id_contains((#[trigger] tail[k]).spec_id(), id_substr);
                assert(items[i + 1] == item);
                assert forall|k: int| 0 <= k < i + 1 implies !id_contains(
                    (#[trigger] items[k]).spec_id(),
                    id_substr,
                ) by {
                    if k > 0 {
                        assert(tail[k - 1] == items[k]);
                    }
                }
            },
            None => {
                assert forall|i: int| 0 <= i < items.len() implies !id_contains(
                    (#[trigger] items[i]).spec_id(),
                    id_substr,
                ) by {
                    if i > 0 {
                        assert(tail[i - 1] == items[i]);
                    }
                }
            },
        }
    } else if items.len() > 0 {
        assert(items[0] == items[0]);
    }
}

/// A matcher that waits for a device takes no notice of the events of another one.
pub proof fn lemma_other_peripheral(matcher: MatcherView, event: CentralEvent, peripheral: Peripheral)
    requires
        match event {
            CentralEvent::PeripheralConnected { peripheral: p } => p == peripheral,
            CentralEvent::PeripheralConnectFailed { peripheral: p, error: _ } => p == peripheral,
            CentralEvent::ServicesDiscovered { peripheral: p, services: _ } => p == peripheral,
            CentralEvent::CharacteristicsDiscovered {
                peripheral: p,
                service: _,
                characteristics: _,
            } => p == peripheral,
            CentralEvent::CharacteristicValue { peripheral: p, characteristic: _, value: _ } => p
                == peripheral,
            CentralEvent::WriteCharacteristicResult { peripheral: p, characteristic: _, result: _ }
                => p == peripheral,
            _ => false,
        },
        match matcher {
            MatcherView::PeripheralDiscovered(_) => true,
            MatcherView::PeripheralConnected(id) => id != peripheral.id,
            MatcherView::ServicesDiscovered(id, _) => id != peripheral.id,
            MatcherView::CharacteristicsDiscovered(id, _, _) => id != peripheral.id,
            MatcherView::CharacteristicValue(id, _) => id != peripheral.id,
            MatcherView::WriteCharacteristicResult(id, _) => id != peripheral.id,
        },
    ensures
        matched(matcher, event) is Nothing,
{
}

} // verus!
