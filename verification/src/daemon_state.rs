//! Devices that the daemon has heard of, and those that it is connected to.

use std::collections::HashMap;
use vstd::prelude::*;

use crate::bt_uuid::{shortened, uuid_text, Uuid};
use crate::central::{AdvertisementData, AdvertisementDataView, CentralEvent, ManagerState, Peripheral};
use crate::hexadecimal::{encode, hex_text};
use crate::maps::{keys_of, lists};
use crate::text::{format_i32, join, joined, signed_decimal_text, text_views};

verus! {

/// The last advertisement of a device.
#[derive(PartialEq, Eq, Debug)]
pub struct Advertisement {
    pub uuid: Uuid,
    pub data: AdvertisementData,
    pub rssi: i32,
}

/// What an [`Advertisement`] holds.
#[verifier::ext_equal]
pub struct AdvertisementView {
    pub uuid: Uuid,
    pub data: AdvertisementDataView,
    pub rssi: i32,
}

impl View for Advertisement {
    type V = AdvertisementView;

    open spec fn view(&self) -> AdvertisementView {
        AdvertisementView { uuid: self.uuid, data: self.data@, rssi: self.rssi }
    }
}

impl Clone for Advertisement {
    fn clone(&self) -> (copy: Self)
        ensures
            copy@ == self@,
    {
        Advertisement::new(self.uuid, self.data.clone(), self.rssi)
    }
}

/// An advertisement as it is shown to a user: the name of the device, or its identifier if it has
/// none; its services; the strength of the signal as received and as sent.
pub open spec fn advertisement_text(ad: AdvertisementView) -> Seq<char> {
    let name = match ad.data.local_name {
        Some(name) => name,
        None => uuid_text(ad.uuid@),
    };
    let services = ad.data.service_uuids.map_values(|uuid: Uuid| hex_text(shortened(uuid@)));
    let sent = match ad.data.tx_power_level {
        Some(level) => level as int,
        None => 0,
    };
    name + seq![' ', '('] + joined(services, seq![',', ' ']) + seq![')', ',', ' ']
        + signed_decimal_text(ad.rssi as int) + seq!['/'] + signed_decimal_text(sent)
}

impl Advertisement {
    pub fn new(uuid: Uuid, data: AdvertisementData, rssi: i32) -> (ad: Self)
        ensures
            ad.uuid == uuid,
            ad.data == data,
            ad.rssi == rssi,
    {
        Advertisement { uuid, data, rssi }
    }

    /// The advertisement as it is shown to a user.
    pub fn describe(&self) -> (text: String)
        ensures
            text@ == advertisement_text(self@),
    {
        let mut services: Vec<String> = Vec::new();
        let ghost wanted = self@.data.service_uuids.map_values(
            |uuid: Uuid| hex_text(shortened(uuid@)),
        );
        let mut i: usize = 0;
        while i < self.data.service_uuids.len()
            invariant
                i <= self.data.service_uuids@.len(),
                wanted == self@.data.service_uuids.map_values(
                    |uuid: Uuid| hex_text(shortened(uuid@)),
                ),
                text_views(services@) =~= wanted.take(i as int),
            decreases self.data.service_uuids@.len() - i,
        {
            let ghost before = services@;
            let service: String = encode(self.data.service_uuids[i].shorten().as_slice());
            services.push(service);
            assert(text_views(services@) =~= text_views(before).push(service@));
            i += 1;
        }
        assert(wanted.take(i as int) =~= wanted);
        let mut text: String = match &self.data.local_name {
            Some(name) => name.clone(),
            None => self.uuid.to_text(),
        };
        let sent: i32 = match self.data.tx_power_level {
            Some(level) => level,
            None => 0,
        };
        proof {
            reveal_strlit(" (");
            reveal_strlit(", ");
            reveal_strlit("), ");
            assert(", "@ =~= seq![',', ' ']);
        }
        text.append(" (");
        text.append(join(&services, ", ").as_str());
        text.append("), ");
        text.append(format_i32(self.rssi).as_str());
        text.push('/');
        text.append(format_i32(sent).as_str());
        assert(text@ =~= advertisement_text(self@));
        text
    }
}

/// What the daemon remembers of devices, under the numbers of their identifiers.
pub struct DaemonState {
    /// Devices that the daemon is connected to.
    pub peripherals: HashMap<u128, Peripheral>,
    /// Devices that the daemon has heard of.
    pub advertisements: HashMap<u128, Advertisement>,
    /// State of the adapter.
    pub state: ManagerState,
}

/// What a [`DaemonState`] holds.
#[verifier::ext_equal]
pub struct DaemonStateView {
    pub peripherals: Map<u128, Peripheral>,
    pub advertisements: Map<u128, AdvertisementView>,
    pub state: ManagerState,
}

impl View for DaemonState {
    type V = DaemonStateView;

    open spec fn view(&self) -> DaemonStateView {
        DaemonStateView {
            peripherals: self.peripherals@,
            advertisements: self.advertisements@.map_values(|ad: Advertisement| ad@),
            state: self.state,
        }
    }
}

/// The view of a state holds what its fields hold, entry by entry.
pub proof fn lemma_state_fields(state: DaemonState)
    ensures
        state@.peripherals == state.peripherals@,
        state@.state == state.state,
        forall|key: u128| #[trigger]
            state@.advertisements.contains_key(key) <==> state.advertisements@.contains_key(key),
        forall|key: u128|
            state.advertisements@.contains_key(key) ==> #[trigger] state@.advertisements[key]
                == state.advertisements@[key]@,
{
}

impl DaemonStateView {
    /// The device under `key` advertises the service `uuid`.
    pub open spec fn advertises(self, key: u128, uuid: Uuid) -> bool {
        self.advertisements.contains_key(key)
            && self.advertisements[key].data.service_uuids.contains(uuid)
    }

    /// Every device that advertises the service `uuid` is connected.
    pub open spec fn are_advertisers_connected(self, uuid: Uuid) -> bool {
        forall|key: u128| #[trigger]
            self.advertises(key, uuid) ==> self.peripherals.contains_key(key)
    }

    /// The device under `key` is not connected, or the daemon has heard of it.
    pub open spec fn is_known(self, key: u128) -> bool {
        self.peripherals.contains_key(key) ==> self.advertisements.contains_key(
            self.peripherals[key].id.spec_key(),
        )
    }

    /// The daemon has heard of every device that it is connected to.
    pub open spec fn is_coherent(self) -> bool {
        forall|key: u128| #[trigger]
            self.peripherals.contains_key(key) ==> self.peripherals[key].id.spec_key() == key
                && self.advertisements.contains_key(key)
    }

    /// Every device and every advertisement is held under the number of its own identifier.
    pub open spec fn is_keyed(self) -> bool {
        &&& forall|key: u128| #[trigger]
            self.peripherals.contains_key(key) ==> self.peripherals[key].id.spec_key() == key
        &&& forall|key: u128| #[trigger]
            self.advertisements.contains_key(key) ==> self.advertisements[key].uuid.spec_key()
                == key
    }

    /// What is remembered after `event`.
    pub open spec fn after(self, event: CentralEvent) -> DaemonStateView {
        match event {
            CentralEvent::ManagerStateChanged { new_state } => DaemonStateView {
                state: new_state,
                ..self
            },
            CentralEvent::PeripheralDiscovered { peripheral, advertisement_data, rssi } => {
                DaemonStateView {
                    advertisements: self.advertisements.insert(
                        peripheral.id.spec_key(),
                        AdvertisementView { uuid: peripheral.id, data: advertisement_data@, rssi },
                    ),
                    ..self
                }
            },
            CentralEvent::PeripheralDisconnected { peripheral, error: _ } => DaemonStateView {
                peripherals: self.peripherals.remove(peripheral.id.spec_key()),
                ..self
            },
            _ => self,
        }
    }
}

/// What is to be done about a change of the adapter's state.
#[derive(Clone, Copy, PartialEq, Eq, Debug, Structural)]
pub enum Notice {
    /// Nothing.
    Quiet,
    /// Tell the user that Bluetooth is not supported, and give up.
    Unsupported,
    /// Tell the user that Bluetooth may not be used, and give up.
    Unauthorized,
    /// Tell the user to switch Bluetooth on.
    PoweredOff,
    /// Note that Bluetooth can be used.
    PoweredOn,
}

/// What is to be done about `event`.
pub open spec fn notice_of(event: CentralEvent) -> Notice {
    match event {
        CentralEvent::ManagerStateChanged { new_state } => match new_state {
            ManagerState::Unsupported => Notice::Unsupported,
            ManagerState::Unauthorized => Notice::Unauthorized,
            ManagerState::PoweredOff => Notice::PoweredOff,
            ManagerState::PoweredOn => Notice::PoweredOn,
            _ => Notice::Quiet,
        },
        _ => Notice::Quiet,
    }
}

impl Notice {
    /// Whether the daemon cannot go on.
    pub fn is_fatal(&self) -> (r: bool)
        ensures
            r == (self is Unsupported || self is Unauthorized),
    {
        match self {
            Notice::Unsupported => true,
            Notice::Unauthorized => true,
            _ => false,
        }
    }

    /// What the user is told.
    pub fn message(&self) -> (text: Option<String>)
        ensures
            match *self {
                Notice::Unsupported => text matches Some(text) && text@
                    == "Bluetooth is not supported on this system"@,
                Notice::Unauthorized => text matches Some(text) && text@
                    == "not authorized to use Bluetooth on this system"@,
                Notice::PoweredOff => text matches Some(text) && text@
                    == "Bluetooth is disabled, please enable it"@,
                _ => text is None,
            },
    {
        match self {
            Notice::Unsupported => Some("Bluetooth is not supported on this system".to_owned()),
            Notice::Unauthorized => Some(
                "not authorized to use Bluetooth on this system".to_owned(),
            ),
            Notice::PoweredOff => Some("Bluetooth is disabled, please enable it".to_owned()),
            _ => None,
        }
    }
}

impl DaemonState {
    /// Nothing is known of any device, nor of the adapter.
    pub fn new() -> (state: Self)
        ensures
            state@ == (DaemonStateView {
                peripherals: Map::empty(),
                advertisements: Map::empty(),
                state: ManagerState::Unknown,
            }),
    {
        let state = DaemonState {
            peripherals: HashMap::new(),
            advertisements: HashMap::new(),
            state: ManagerState::Unknown,
        };
        assert(state@.advertisements =~= Map::empty());
        state
    }

    /// Whether every device that advertises the service `uuid` is connected.
    pub fn are_advertisers_connected(&self, uuid: Uuid) -> (r: bool)
        ensures
            r == self@.are_advertisers_connected(uuid),
    {
        let keys: Vec<u128> = keys_of(&self.advertisements);
        let mut i: usize = 0;
        while i < keys.len()
            invariant
                i <= keys@.len(),
                lists(keys@, self.advertisements@.dom()),
                forall|k: int|
                    0 <= k < i && self@.advertises(#[trigger] keys@[k], uuid)
                        ==> self.peripherals@.contains_key(keys@[k]),
            decreases keys@.len() - i,
        {
            let key: u128 = keys[i];
            assert(self.advertisements@.dom().contains(keys@[i as int]));
            if let Some(ad) = self.advertisements.get(&key) {
                if ad.data.has_service(uuid) && !self.peripherals.contains_key(&key) {
                    assert(self@.advertises(key, uuid));
                    return false;
                }
            }
            i += 1;
        }
        assert forall|key: u128| #[trigger] self@.advertises(key, uuid) implies self@
            .peripherals.contains_key(key) by {
            assert(self.advertisements@.dom().contains(key));
            let k = choose|k: int| 0 <= k < keys@.len() && keys@[k] == key;
            assert(self@.advertises(keys@[k], uuid));
        }
        true
    }

    /// A connected device that advertises the service `uuid`; any one if there are several.
    pub fn find_connected_peripheral_by_service(&self, uuid: Uuid) -> (found: Option<Peripheral>)
        requires
            self@.are_advertisers_connected(uuid),
        ensures
            match found {
                Some(peripheral) => exists|key: u128|
                    #![trigger self@.advertises(key, uuid)]
                    self@.advertises(key, uuid) && peripheral == self@.peripherals[key],
                None => forall|key: u128| !#[trigger] self@.advertises(key, uuid),
            },
    {
        let keys: Vec<u128> = keys_of(&self.advertisements);
        let mut i: usize = 0;
        while i < keys.len()
            invariant
                i <= keys@.len(),
                lists(keys@, self.advertisements@.dom()),
                self@.are_advertisers_connected(uuid),
                forall|k: int| 0 <= k < i ==> !self@.advertises(#[trigger] keys@[k], uuid),
            decreases keys@.len() - i,
        {
            let key: u128 = keys[i];
            assert(self.advertisements@.dom().contains(keys@[i as int]));
            if let Some(ad) = self.advertisements.get(&key) {
                if ad.data.has_service(uuid) {
                    assert(self@.advertises(key, uuid));
                    if let Some(peripheral) = self.peripherals.get(&key) {
                        return Some(peripheral.clone());
                    }
                }
            }
            i += 1;
        }
        assert forall|key: u128| !#[trigger] self@.advertises(key, uuid) by {
            if self@.advertises(key, uuid) {
                assert(self.advertisements@.dom().contains(key));
                let k = choose|k: int| 0 <= k < keys@.len() && keys@[k] == key;
                assert(self@.advertises(keys@[k], uuid));
            }
        }
        None
    }

    /// Whether the device under `uuid` is not connected, or the daemon has heard of it.
    pub fn is_known(&self, uuid: Uuid) -> (r: bool)
        ensures
            r == self@.is_known(uuid.spec_key()),
    {
        match self.peripherals.get(&uuid.key()) {
            Some(peripheral) => self.advertisements.contains_key(&peripheral.id.key()),
            None => true,
        }
    }

    /// The connected device under `uuid` and what it has advertised.
    pub fn get_peripheral(&self, uuid: Uuid) -> (found: Option<(Peripheral, AdvertisementData)>)
        requires
            self@.is_known(uuid.spec_key()),
        ensures
            found is Some <==> self@.peripherals.contains_key(uuid.spec_key()),
            found matches Some((peripheral, data)) ==> peripheral
                == self@.peripherals[uuid.spec_key()] && data@
                == self@.advertisements[peripheral.id.spec_key()].data,
    {
        match self.peripherals.get(&uuid.key()) {
            Some(peripheral) => match self.advertisements.get(&peripheral.id.key()) {
                Some(ad) => Some((peripheral.clone(), ad.data.clone())),
                None => None,
            },
            None => None,
        }
    }

    /// The number of connected devices.
    pub fn connected_count(&self) -> (count: usize)
        ensures
            count == self@.peripherals.len(),
    {
        self.peripherals.len()
    }

    /// Whether the daemon has heard of every device that it is connected to.
    pub fn are_all_known(&self) -> (r: bool)
        ensures
            r == (forall|key: u128| #[trigger]
                self@.peripherals.contains_key(key) ==> self@.is_known(key)),
    {
        let keys: Vec<u128> = keys_of(&self.peripherals);
        let mut i: usize = 0;
        while i < keys.len()
            invariant
                i <= keys@.len(),
                lists(keys@, self.peripherals@.dom()),
                forall|k: int| 0 <= k < i ==> self@.is_known(#[trigger] keys@[k]),
            decreases keys@.len() - i,
        {
            let key: u128 = keys[i];
            if let Some(peripheral) = self.peripherals.get(&key) {
                if !self.advertisements.contains_key(&peripheral.id.key()) {
                    assert(self@.peripherals.contains_key(key) && !self@.is_known(key));
                    return false;
                }
            }
            i += 1;
        }
        assert forall|key: u128| #[trigger] self@.peripherals.contains_key(key) implies self@
            .is_known(key) by {
            assert(self.peripherals@.dom().contains(key));
            let k = choose|k: int| 0 <= k < keys@.len() && keys@[k] == key;
            assert(self@.is_known(keys@[k]));
        }
        true
    }

    /// The connected devices, in some order, each with its last advertisement.
    pub fn list_peripherals(&self) -> (list: Vec<(Peripheral, Advertisement)>)
        requires
            forall|key: u128| #[trigger]
                self@.peripherals.contains_key(key) ==> self@.is_known(key),
        ensures
            is_listing(listing_view(list@), self@),
    {
        let keys: Vec<u128> = keys_of(&self.peripherals);
        let mut list: Vec<(Peripheral, Advertisement)> = Vec::new();
        let mut i: usize = 0;
        while i < keys.len()
            invariant
                i <= keys@.len(),
                lists(keys@, self.peripherals@.dom()),
                forall|key: u128| #[trigger]
                    self@.peripherals.contains_key(key) ==> self@.is_known(key),
                list@.len() == i,
                forall|k: int|
                    0 <= k < i ==> (#[trigger] list@[k]).0 == self@.peripherals[keys@[k]]
                        && list@[k].1@ == self@.advertisements[list@[k].0.id.spec_key()],
            decreases keys@.len() - i,
        {
            let key: u128 = keys[i];
            assert(self@.peripherals.contains_key(key));
            if let Some(peripheral) = self.peripherals.get(&key) {
                if let Some(ad) = self.advertisements.get(&peripheral.id.key()) {
                    list.push((peripheral.clone(), ad.clone()));
                }
            }
            i += 1;
        }
        assert(is_listing_of(listing_view(list@), keys@, self@));
        list
    }

    /// Remembers that `peripheral` is connected.
    pub fn register(&mut self, peripheral: &Peripheral)
        ensures
            final(self)@ == (DaemonStateView {
                peripherals: old(self)@.peripherals.insert(peripheral.id.spec_key(), *peripheral),
                ..old(self)@
            }),
    {
        self.peripherals.insert(peripheral.id.key(), peripheral.clone());
    }

    /// Forgets the device under `uuid`.
    pub fn unregister(&mut self, uuid: Uuid)
        ensures
            final(self)@ == (DaemonStateView {
                peripherals: old(self)@.peripherals.remove(uuid.spec_key()),
                advertisements: old(self)@.advertisements.remove(uuid.spec_key()),
                ..old(self)@
            }),
    {
        let key: u128 = uuid.key();
        self.peripherals.remove(&key);
        self.advertisements.remove(&key);
        assert(self@.advertisements =~= old(self)@.advertisements.remove(key));
    }

    /// Takes notice of `event`, and tells what is to be done about it.
    pub fn handle_event(&mut self, event: &CentralEvent) -> (notice: Notice)
        ensures
            final(self)@ == old(self)@.after(*event),
            notice == notice_of(*event),
    {
        match event {
            CentralEvent::ManagerStateChanged { new_state } => {
                self.state = *new_state;
                match new_state {
                    ManagerState::Unsupported => Notice::Unsupported,
                    ManagerState::Unauthorized => Notice::Unauthorized,
                    ManagerState::PoweredOff => Notice::PoweredOff,
                    ManagerState::PoweredOn => Notice::PoweredOn,
                    _ => Notice::Quiet,
                }
            },
            CentralEvent::PeripheralDiscovered { peripheral, advertisement_data, rssi } => {
                let ad: Advertisement = Advertisement::new(
                    peripheral.id,
                    advertisement_data.clone(),
                    *rssi,
                );
                self.advertisements.insert(peripheral.id.key(), ad);
                assert(self@.advertisements =~= old(self)@.after(*event).advertisements);
                Notice::Quiet
            },
            CentralEvent::PeripheralDisconnected { peripheral, error: _ } => {
                self.peripherals.remove(&peripheral.id.key());
                Notice::Quiet
            },
            _ => Notice::Quiet,
        }
    }
}

/// What each entry of a list of devices holds.
pub open spec fn listing_view(list: Seq<(Peripheral, Advertisement)>) -> Seq<
    (Peripheral, AdvertisementView),
> {
    list.map_values(|entry: (Peripheral, Advertisement)| (entry.0, entry.1@))
}

/// `list` holds the connected devices under `keys`, each with its last advertisement.
pub open spec fn is_listing_of(
    list: Seq<(Peripheral, AdvertisementView)>,
    keys: Seq<u128>,
    state: DaemonStateView,
) -> bool {
    &&& lists(keys, state.peripherals.dom())
    &&& list.len() == keys.len()
    &&& forall|i: int|
        0 <= i < list.len() ==> (#[trigger] list[i]).0 == state.peripherals[keys[i]] && list[i].1
            == state.advertisements[list[i].0.id.spec_key()]
}

/// `list` holds every connected device once, each with its last advertisement.
pub open spec fn is_listing(
    list: Seq<(Peripheral, AdvertisementView)>,
    state: DaemonStateView,
) -> bool {
    exists|keys: Seq<u128>| is_listing_of(list, keys, state)
}

/// What the daemon has heard of and what it is connected to stay under the numbers of their own
/// identifiers, whatever event comes.
pub proof fn lemma_events_keep_keys(state: DaemonStateView, event: CentralEvent)
    requires
        state.is_keyed(),
    ensures
        state.after(event).is_keyed(),
{
}

/// An event never makes the daemon forget a device that it stays connected to.
pub proof fn lemma_events_keep_coherence(state: DaemonStateView, event: CentralEvent)
    requires
        state.is_coherent(),
    ensures
        state.after(event).is_coherent(),
{
    let after = state.after(event);
    assert forall|key: u128| #[trigger] after.peripherals.contains_key(key) implies after
        .peripherals[key].id.spec_key() == key && after.advertisements.contains_key(key) by {
        assert(state.peripherals.contains_key(key));
    }
}

/// A device that has just been discovered is one that the daemon has heard of, and one that has
/// just been lost is no longer connected but still known.
pub proof fn lemma_discover_and_lose(state: DaemonStateView, event: CentralEvent)
    ensures
        event matches CentralEvent::PeripheralDiscovered { peripheral, advertisement_data, rssi: _ }
            ==> state.after(event).advertisements.contains_key(peripheral.id.spec_key())
            && forall|uuid: Uuid|
            advertisement_data@.service_uuids.contains(uuid) ==> #[trigger] state.after(
                event,
            ).advertises(peripheral.id.spec_key(), uuid),
        event matches CentralEvent::PeripheralDisconnected { peripheral, error: _ }
            ==> !state.after(event).peripherals.contains_key(peripheral.id.spec_key())
            && state.after(event).advertisements == state.advertisements,
{
}

/// What is to be done about an event depends on the state of the adapter that it reports, and on
/// nothing else.
pub proof fn lemma_notices(event: CentralEvent)
    ensures
        match event {
            CentralEvent::ManagerStateChanged { new_state } => {
                &&& notice_of(event) is Unsupported <==> new_state is Unsupported
                &&& notice_of(event) is Unauthorized <==> new_state is Unauthorized
                &&& notice_of(event) is PoweredOff <==> new_state is PoweredOff
                &&& notice_of(event) is PoweredOn <==> new_state is PoweredOn
            },
            _ => notice_of(event) is Quiet,
        },
{
}

/// An advertisement is shown by the name of the device, or by the notation of its identifier if it
/// has none; by its services in their shortest form, between brackets; and by the strength of the
/// signal as received and as sent, which is zero if it is not known.
pub proof fn lemma_advertisement_parts(
    ad: AdvertisementView,
    name: Seq<char>,
    services: Seq<Seq<char>>,
    sent: int,
)
    requires
        ad.data.local_name is Some ==> name == ad.data.local_name.unwrap(),
        ad.data.local_name is None ==> name == uuid_text(ad.uuid@),
        services.len() == ad.data.service_uuids.len(),
        forall|i: int|
            0 <= i < services.len() ==> #[trigger] services[i] == hex_text(
                shortened(ad.data.service_uuids[i]@),
            ),
        ad.data.tx_power_level is Some ==> sent == ad.data.tx_power_level.unwrap(),
        ad.data.tx_power_level is None ==> sent == 0,
    ensures
        advertisement_text(ad) == name + " ("@ + joined(services, ", "@) + "), "@
            + signed_decimal_text(ad.rssi as int) + "/"@ + signed_decimal_text(sent),
{
    reveal_strlit(" (");
    reveal_strlit(", ");
    reveal_strlit("), ");
    reveal_strlit("/");
    let shown = ad.data.service_uuids.map_values(|uuid: Uuid| hex_text(shortened(uuid@)));
    assert(shown =~= services);
    assert(", "@ =~= seq![',', ' ']);
    assert(advertisement_text(ad) =~= name + " ("@ + joined(services, ", "@) + "), "@
        + signed_decimal_text(ad.rssi as int) + "/"@ + signed_decimal_text(sent));
}

} // verus!
