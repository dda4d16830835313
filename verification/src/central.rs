//! What the daemon knows of the Bluetooth objects and events of the platform.
//!
//! The objects themselves stay with the platform. Here each of them is known by its identifier, by a
//! handle under which the platform's object can be found again, and, where it is shown to a user, by
//! its description.

use vstd::prelude::*;

use crate::bt_uuid::Uuid;

verus! {

/// A remote device.
#[derive(PartialEq, Eq, Debug)]
pub struct Peripheral {
    pub id: Uuid,
    pub handle: u64,
    pub description: String,
}

impl Clone for Peripheral {
    fn clone(&self) -> (copy: Self)
        ensures
            copy == *self,
    {
        Peripheral { id: self.id, handle: self.handle, description: self.description.clone() }
    }
}

/// A service of a remote device.
#[derive(PartialEq, Eq, Debug)]
pub struct Service {
    pub id: Uuid,
    pub handle: u64,
    pub description: String,
}

impl Clone for Service {
    fn clone(&self) -> (copy: Self)
        ensures
            copy == *self,
    {
        Service { id: self.id, handle: self.handle, description: self.description.clone() }
    }
}

/// A characteristic of a service.
#[derive(Clone, Copy, PartialEq, Eq, Debug, Structural)]
pub struct Characteristic {
    pub id: Uuid,
    pub handle: u64,
}

/// What is known of a failed operation: its description for developers.
#[derive(PartialEq, Eq, Debug)]
pub struct Error {
    pub description: String,
}

impl Clone for Error {
    fn clone(&self) -> (copy: Self)
        ensures
            copy == *self,
    {
        Error { description: self.description.clone() }
    }
}

/// What a device tells about itself while nobody is connected to it.
#[derive(PartialEq, Eq, Debug)]
pub struct AdvertisementData {
    pub local_name: Option<String>,
    pub service_uuids: Vec<Uuid>,
    pub tx_power_level: Option<i32>,
}

/// What [`AdvertisementData`] holds.
#[verifier::ext_equal]
pub struct AdvertisementDataView {
    pub local_name: Option<Seq<char>>,
    pub service_uuids: Seq<Uuid>,
    pub tx_power_level: Option<i32>,
}

impl View for AdvertisementData {
    type V = AdvertisementDataView;

    open spec fn view(&self) -> AdvertisementDataView {
        AdvertisementDataView {
            local_name: match self.local_name {
                Some(name) => Some(name@),
                None => None,
            },
            service_uuids: self.service_uuids@,
            tx_power_level: self.tx_power_level,
        }
    }
}

impl Clone for AdvertisementData {
    fn clone(&self) -> (copy: Self)
        ensures
            copy@ == self@,
    {
        let local_name: Option<String> = match &self.local_name {
            Some(name) => Some(name.clone()),
            None => None,
        };
        let service_uuids: Vec<Uuid> = vstd::slice::slice_to_vec(self.service_uuids.as_slice());
        AdvertisementData { local_name, service_uuids, tx_power_level: self.tx_power_level }
    }
}

impl AdvertisementData {
    /// Whether `uuid` is among the advertised services.
    pub fn has_service(&self, uuid: Uuid) -> (found: bool)
        ensures
            found == self@.service_uuids.contains(uuid),
    {
        let mut i: usize = 0;
        while i < self.service_uuids.len()
            invariant
                i <= self.service_uuids@.len(),
                forall|k: int| 0 <= k < i ==> self.service_uuids@[k] != uuid,
            decreases self.service_uuids@.len() - i,
        {
            if self.service_uuids[i] == uuid {
                assert(self.service_uuids@[i as int] == uuid);
                return true;
            }
            i += 1;
        }
        false
    }
}

/// States of the Bluetooth adapter.
#[derive(Clone, Copy, PartialEq, Eq, Debug, Structural)]
pub enum ManagerState {
    Unknown,
    Resetting,
    Unsupported,
    Unauthorized,
    PoweredOff,
    PoweredOn,
}

/// What the platform reports.
#[derive(PartialEq, Eq, Debug)]
pub enum CentralEvent {
    ManagerStateChanged { new_state: ManagerState },
    PeripheralDiscovered {
        peripheral: Peripheral,
        advertisement_data: AdvertisementData,
        rssi: i32,
    },
    PeripheralConnected { peripheral: Peripheral },
    PeripheralConnectFailed { peripheral: Peripheral, error: Option<Error> },
    PeripheralDisconnected { peripheral: Peripheral, error: Option<Error> },
    ServicesDiscovered { peripheral: Peripheral, services: Result<Vec<Service>, Error> },
    CharacteristicsDiscovered {
        peripheral: Peripheral,
        service: Service,
        characteristics: Result<Vec<Characteristic>, Error>,
    },
    CharacteristicValue {
        peripheral: Peripheral,
        characteristic: Characteristic,
        value: Result<Vec<u8>, Error>,
    },
    WriteCharacteristicResult {
        peripheral: Peripheral,
        characteristic: Characteristic,
        result: Result<(), Error>,
    },
    /// Any other event; the daemon takes no notice of it.
    Other,
}

} // verus!
