use blemacd::bt_uuid::Uuid;
use blemacd::central::{
    AdvertisementData, CentralEvent, Characteristic, Error, ManagerState, Peripheral, Service,
};
use blemacd::commands::{
    Action, Command, CommandResult, EventMatchResult, Execution, Matcher,
};
use blemacd::daemon_state::{Advertisement, DaemonState, Notice};
use blemacd::event_matchers::{
    find_by_id_substr, CharacteristicValueMatcher, CharacteristicsDiscoveredMatcher, EventMatch,
    EventMatcher, PeripheralConnectedMatcher, PeripheralDiscoveredMatcherByServiceUUID,
    ServicesDiscoveredMatcher, WriteCharacteristicResultMatcher,
};
use blemacd::handlers::{Processor, Requests, Scan};

fn uuid(n: u8) -> Uuid {
    Uuid::from_slice(&[0x18, n])
}

fn peripheral(n: u8) -> Peripheral {
    Peripheral {
        id: Uuid::from_slice(&[n; 16]),
        handle: n as u64,
        description: format!("device {}", n),
    }
}

fn service(n: u8) -> Service {
    Service { id: uuid(n), handle: n as u64, description: format!("service {}", n) }
}

fn characteristic(n: u8) -> Characteristic {
    Characteristic { id: uuid(n), handle: n as u64 }
}

fn error() -> Error {
    Error { description: "broken".to_string() }
}

fn advertisement_data(services: &[u8]) -> AdvertisementData {
    AdvertisementData {
        local_name: None,
        service_uuids: services.iter().map(|n| uuid(*n)).collect(),
        tx_power_level: None,
    }
}

fn discovered(n: u8, services: &[u8]) -> CentralEvent {
    CentralEvent::PeripheralDiscovered {
        peripheral: peripheral(n),
        advertisement_data: advertisement_data(services),
        rssi: -40,
    }
}

fn connected(n: u8) -> CentralEvent {
    CentralEvent::PeripheralConnected { peripheral: peripheral(n) }
}

fn disconnected(n: u8) -> CentralEvent {
    CentralEvent::PeripheralDisconnected { peripheral: peripheral(n), error: None }
}

#[test]
fn advertisements_are_described() {
    let named = Advertisement::new(
        peripheral(1).id,
        AdvertisementData {
            local_name: Some("lamp".to_string()),
            service_uuids: vec![uuid(0x0f), Uuid::from_slice(&[1, 2, 3, 4])],
            tx_power_level: Some(12),
        },
        -71,
    );
    assert_eq!(named.describe(), "lamp (180f, 01020304), -71/12");
    assert_eq!(named.clone().describe(), named.describe());

    let unnamed = Advertisement::new(peripheral(1).id, advertisement_data(&[]), 0);
    assert_eq!(
        unnamed.describe(),
        "01010101-0101-0101-0101-010101010101 (), 0/0"
    );

    let extreme = Advertisement::new(uuid(1), advertisement_data(&[]), i32::MIN);
    assert!(extreme.describe().ends_with("(), -2147483648/0"));
}

#[test]
fn adapter_states_are_noticed() {
    let cases = [
        (ManagerState::Unknown, Notice::Quiet, false, None),
        (ManagerState::Resetting, Notice::Quiet, false, None),
        (
            ManagerState::Unsupported,
            Notice::Unsupported,
            true,
            Some("Bluetooth is not supported on this system"),
        ),
        (
            ManagerState::Unauthorized,
            Notice::Unauthorized,
            true,
            Some("not authorized to use Bluetooth on this system"),
        ),
        (
            ManagerState::PoweredOff,
            Notice::PoweredOff,
            false,
            Some("Bluetooth is disabled, please enable it"),
        ),
        (ManagerState::PoweredOn, Notice::PoweredOn, false, None),
    ];
    for (new_state, notice, is_fatal, message) in cases {
        let mut state = DaemonState::new();
        let event = CentralEvent::ManagerStateChanged { new_state };
        assert_eq!(state.handle_event(&event), notice);
        assert_eq!(notice.is_fatal(), is_fatal);
        assert_eq!(notice.message(), message.map(|text: &str| text.to_string()));
    }
    assert_eq!(DaemonState::new().handle_event(&CentralEvent::Other), Notice::Quiet);
}

#[test]
fn devices_are_remembered() {
    let mut state = DaemonState::new();
    assert_eq!(state.find_connected_peripheral_by_service(uuid(1)), None);
    assert_eq!(state.get_peripheral(peripheral(1).id), None);

    state.handle_event(&discovered(1, &[1, 2]));
    assert!(!state.are_advertisers_connected(uuid(1)));
    assert!(state.are_advertisers_connected(uuid(3)));
    assert_eq!(state.connected_count(), 0);

    state.register(&peripheral(1));
    assert!(state.are_advertisers_connected(uuid(1)));
    assert_eq!(
        state.find_connected_peripheral_by_service(uuid(2)),
        Some(peripheral(1))
    );
    assert_eq!(state.find_connected_peripheral_by_service(uuid(3)), None);
    assert_eq!(
        state.get_peripheral(peripheral(1).id),
        Some((peripheral(1), advertisement_data(&[1, 2])))
    );
    assert_eq!(state.connected_count(), 1);
    assert_eq!(state.peripherals.get(&peripheral(1).id.key()), Some(&peripheral(1)));
    assert_eq!(
        state.advertisements.get(&peripheral(1).id.key()),
        Some(&Advertisement::new(peripheral(1).id, advertisement_data(&[1, 2]), -40))
    );
    assert_eq!(state.state, ManagerState::Unknown);
    assert_eq!(
        state.list_peripherals(),
        vec![(
            peripheral(1),
            Advertisement::new(peripheral(1).id, advertisement_data(&[1, 2]), -40)
        )]
    );

    state.handle_event(&disconnected(1));
    assert_eq!(state.get_peripheral(peripheral(1).id), None);
    assert!(!state.are_advertisers_connected(uuid(1)));

    state.unregister(peripheral(1).id);
    assert!(state.are_advertisers_connected(uuid(1)));
}

#[test]
fn unknown_devices_are_noticed() {
    let mut state = DaemonState::new();
    assert!(state.are_all_known());
    state.register(&peripheral(1));
    assert!(!state.are_all_known());
    assert!(!state.is_known(peripheral(1).id));
    assert!(state.is_known(peripheral(2).id));
    assert!(!Command::ListPeripherals.is_executable(&state));
    assert!(!Command::ConnectToPeripheral(peripheral(1)).is_executable(&state));
    assert!(Command::GetStatus.is_executable(&state));
    state.handle_event(&discovered(1, &[]));
    assert!(state.are_all_known());
    assert!(Command::ListPeripherals.is_executable(&state));
}

#[test]
fn items_are_found_by_part_of_their_id() {
    let services = Ok(vec![service(1), service(2), service(0x21)]);
    assert_eq!(find_by_id_substr("1802", &services), Some(&service(2)));
    assert_eq!(find_by_id_substr("18", &services), Some(&service(1)));
    assert_eq!(find_by_id_substr("", &services), Some(&service(1)));
    assert_eq!(find_by_id_substr("00001821-0000-1000", &services), Some(&service(0x21)));
    assert_eq!(find_by_id_substr("1803", &services), None);
    assert_eq!(find_by_id_substr("00805F", &services), None);
    assert_eq!(find_by_id_substr("", &Ok(Vec::<Service>::new())), None);
    assert_eq!(find_by_id_substr("", &Err::<Vec<Service>, Error>(error())), None);
}

#[test]
fn matchers_wait_for_their_events() {
    let matcher = PeripheralDiscoveredMatcherByServiceUUID::new(uuid(1));
    assert_eq!(
        matcher.matches(&discovered(7, &[3, 1])),
        EventMatch::Result(CommandResult::FindPeripheral(Some(peripheral(7))))
    );
    assert!(matcher.matches(&discovered(7, &[3])).is_none());
    assert!(matcher.matches(&connected(7)).is_none());

    let matcher = PeripheralConnectedMatcher::new(&peripheral(7));
    assert_eq!(
        matcher.matches(&connected(7)),
        EventMatch::Next(Command::RegisterConnectedPeripheral(peripheral(7)))
    );
    assert_eq!(
        matcher.matches(&CentralEvent::PeripheralConnectFailed {
            peripheral: peripheral(7),
            error: Some(error()),
        }),
        EventMatch::Next(Command::UnregisterConnectedPeripheral(peripheral(7).id))
    );
    assert!(matcher.matches(&connected(8)).is_none());
    assert!(!matcher.matches(&connected(7)).is_none());

    let matcher = ServicesDiscoveredMatcher::new(&peripheral(7), "1802".to_string());
    let event = |n: u8, services: Result<Vec<Service>, Error>| CentralEvent::ServicesDiscovered {
        peripheral: peripheral(n),
        services,
    };
    assert_eq!(
        matcher.matches(&event(7, Ok(vec![service(1), service(2)]))),
        EventMatch::Result(CommandResult::FindService(peripheral(7), Some(service(2))))
    );
    assert_eq!(
        matcher.matches(&event(7, Err(error()))),
        EventMatch::Result(CommandResult::FindService(peripheral(7), None))
    );
    assert!(matcher.matches(&event(8, Ok(vec![service(2)]))).is_none());

    let matcher =
        CharacteristicsDiscoveredMatcher::new(&peripheral(7), &service(2), "1803".to_string());
    let event = |n: u8, s: u8| CentralEvent::CharacteristicsDiscovered {
        peripheral: peripheral(n),
        service: service(s),
        characteristics: Ok(vec![characteristic(3)]),
    };
    assert_eq!(
        matcher.matches(&event(7, 2)),
        EventMatch::Result(CommandResult::FindCharacteristic(
            peripheral(7),
            Some(characteristic(3))
        ))
    );
    assert!(matcher.matches(&event(7, 1)).is_none());
    assert!(matcher.matches(&event(8, 2)).is_none());

    let matcher = CharacteristicValueMatcher::new(&peripheral(7), &characteristic(3));
    let event = |n: u8, c: u8, value: Result<Vec<u8>, Error>| CentralEvent::CharacteristicValue {
        peripheral: peripheral(n),
        characteristic: characteristic(c),
        value,
    };
    assert_eq!(
        matcher.matches(&event(7, 3, Ok(vec![1, 2]))),
        EventMatch::Result(CommandResult::ReadCharacteristic(
            peripheral(7),
            characteristic(3),
            Some(vec![1, 2])
        ))
    );
    assert_eq!(
        matcher.matches(&event(7, 3, Err(error()))),
        EventMatch::Result(CommandResult::ReadCharacteristic(
            peripheral(7),
            characteristic(3),
            None
        ))
    );
    assert!(matcher.matches(&event(7, 4, Ok(vec![]))).is_none());
    assert!(matcher.matches(&event(8, 3, Ok(vec![]))).is_none());

    let matcher = WriteCharacteristicResultMatcher::new(&peripheral(7), &characteristic(3));
    let event = |n: u8, c: u8| CentralEvent::WriteCharacteristicResult {
        peripheral: peripheral(n),
        characteristic: characteristic(c),
        result: Err(error()),
    };
    assert_eq!(
        matcher.matches(&event(7, 3)),
        EventMatch::Result(CommandResult::WriteCharacteristic(
            peripheral(7),
            characteristic(3),
            Err(error())
        ))
    );
    assert!(matcher.matches(&event(7, 4)).is_none());
    assert!(matcher.matches(&event(8, 3)).is_none());
}

#[test]
fn commands_are_executed() {
    let mut state = DaemonState::new();
    assert_eq!(
        Command::GetStatus.execute(&mut state, 90),
        (Execution::Result(CommandResult::GetStatus(90, Some(0))), None)
    );
    assert_eq!(
        Command::ListPeripherals.execute(&mut state, 0),
        (Execution::Result(CommandResult::ListPeripherals(vec![])), None)
    );
    assert_eq!(
        Command::FindPeripheralByService(uuid(1)).execute(&mut state, 0),
        (
            Execution::Matcher(Matcher::PeripheralDiscovered(
                PeripheralDiscoveredMatcherByServiceUUID::new(uuid(1))
            )),
            Some(Action::StartScan(uuid(1)))
        )
    );
    state.handle_event(&discovered(7, &[1]));
    assert!(!Command::FindPeripheralByService(uuid(1)).is_executable(&state));
    assert_eq!(
        Command::ConnectToPeripheral(peripheral(7)).execute(&mut state, 0),
        (
            Execution::Matcher(Matcher::PeripheralConnected(PeripheralConnectedMatcher::new(
                &peripheral(7)
            ))),
            Some(Action::Connect(peripheral(7)))
        )
    );
    assert_eq!(
        Command::RegisterConnectedPeripheral(peripheral(7)).execute(&mut state, 0),
        (
            Execution::Result(CommandResult::ConnectToPeripheral(peripheral(7))),
            None
        )
    );
    assert_eq!(
        Command::FindPeripheralByService(uuid(1)).execute(&mut state, 0),
        (
            Execution::Result(CommandResult::FindPeripheral(Some(peripheral(7)))),
            None
        )
    );
    assert_eq!(
        Command::ConnectToPeripheral(peripheral(7)).execute(&mut state, 0),
        (
            Execution::Result(CommandResult::ConnectToPeripheral(peripheral(7))),
            None
        )
    );
    assert_eq!(
        Command::GetStatus.execute(&mut state, 0),
        (Execution::Result(CommandResult::GetStatus(0, Some(1))), None)
    );
    assert_eq!(
        Command::FindService(peripheral(7), "18".to_string()).execute(&mut state, 0),
        (
            Execution::Matcher(Matcher::ServicesDiscovered(ServicesDiscoveredMatcher::new(
                &peripheral(7),
                "18".to_string()
            ))),
            Some(Action::DiscoverServices(peripheral(7)))
        )
    );
    assert_eq!(
        Command::FindCharacteristic(peripheral(7), service(2), "18".to_string(), 5)
            .execute(&mut state, 0),
        (
            Execution::Matcher(Matcher::CharacteristicsDiscovered(
                CharacteristicsDiscoveredMatcher::new(
                    &peripheral(7),
                    &service(2),
                    "18".to_string()
                )
            )),
            Some(Action::DiscoverCharacteristics(peripheral(7), service(2)))
        )
    );
    assert_eq!(
        Command::ReadCharacteristic(peripheral(7), characteristic(3)).execute(&mut state, 0),
        (
            Execution::Matcher(Matcher::CharacteristicValue(CharacteristicValueMatcher::new(
                &peripheral(7),
                &characteristic(3)
            ))),
            Some(Action::ReadCharacteristic(peripheral(7), characteristic(3)))
        )
    );
    assert_eq!(
        Command::WriteCharacteristic(peripheral(7), characteristic(3), vec![1])
            .execute(&mut state, 0),
        (
            Execution::Matcher(Matcher::WriteCharacteristicResult(
                WriteCharacteristicResultMatcher::new(&peripheral(7), &characteristic(3))
            )),
            Some(Action::WriteCharacteristic(peripheral(7), characteristic(3), vec![1]))
        )
    );
    assert_eq!(
        Command::UnregisterConnectedPeripheral(peripheral(7).id).execute(&mut state, 0),
        (Execution::Nothing, None)
    );
    assert_eq!(state.connected_count(), 0);
    assert!(Command::FindPeripheralByService(uuid(1)).is_executable(&state));
}

#[test]
fn commands_and_results_are_cloned() {
    let commands = vec![
        Command::GetStatus,
        Command::ListPeripherals,
        Command::FindPeripheralByService(uuid(1)),
        Command::ConnectToPeripheral(peripheral(1)),
        Command::RegisterConnectedPeripheral(peripheral(1)),
        Command::UnregisterConnectedPeripheral(uuid(1)),
        Command::FindService(peripheral(1), "a".to_string()),
        Command::FindCharacteristic(peripheral(1), service(1), "a".to_string(), 3),
        Command::ReadCharacteristic(peripheral(1), characteristic(1)),
        Command::WriteCharacteristic(peripheral(1), characteristic(1), vec![1, 2]),
    ];
    for command in &commands {
        assert_eq!(&command.clone(), command);
    }
    let ad = Advertisement::new(uuid(1), advertisement_data(&[1]), 3);
    let results = vec![
        CommandResult::GetStatus(1, None),
        CommandResult::ListPeripherals(vec![(peripheral(1), ad)]),
        CommandResult::FindPeripheral(None),
        CommandResult::FindPeripheral(Some(peripheral(1))),
        CommandResult::ConnectToPeripheral(peripheral(1)),
        CommandResult::FindService(peripheral(1), Some(service(1))),
        CommandResult::FindCharacteristic(peripheral(1), Some(characteristic(1))),
        CommandResult::ReadCharacteristic(peripheral(1), characteristic(1), Some(vec![1])),
        CommandResult::WriteCharacteristic(peripheral(1), characteristic(1), Ok(())),
        CommandResult::WriteCharacteristic(peripheral(1), characteristic(1), Err(error())),
    ];
    for result in &results {
        assert_eq!(&result.clone(), result);
    }
}

#[test]
fn scans_follow_the_wanted_services() {
    let mut processor = Processor::new();
    assert_eq!(processor.scan(uuid(1), false), Scan::Keep);
    assert_eq!(processor.scan(uuid(1), true), Scan::Restart(vec![uuid(1)]));
    assert_eq!(processor.scan(uuid(1), true), Scan::Keep);
    match processor.scan(uuid(2), true) {
        Scan::Restart(uuids) => {
            assert_eq!(uuids.len(), 2);
            assert!(uuids.contains(&uuid(1)) && uuids.contains(&uuid(2)));
        }
        other => panic!("unexpected {:?}", other),
    }
    assert_eq!(processor.scan(uuid(1), false), Scan::Restart(vec![uuid(2)]));
    assert_eq!(processor.scan(uuid(2), false), Scan::Cancel);
    assert_eq!(processor.scan(uuid(2), false), Scan::Keep);
}

#[test]
fn answers_go_to_the_commands_that_wait() {
    let mut processor = Processor::new();
    let find = Command::FindPeripheralByService(uuid(1));
    assert!(processor.is_executable(&find));
    assert_eq!(processor.command(10, &find, 0), (Some(Action::StartScan(uuid(1))), None));
    assert_eq!(processor.command(11, &find, 0), (Some(Action::StartScan(uuid(1))), None));
    let other = Command::FindPeripheralByService(uuid(2));
    processor.command(12, &other, 0);

    let (notice, mut answers) = processor.event(&discovered(7, &[1]));
    assert_eq!(notice, Notice::Quiet);
    answers.sort_by_key(|(id, _)| *id);
    let found = CommandResult::FindPeripheral(Some(peripheral(7)));
    assert_eq!(
        answers,
        vec![
            (10, EventMatchResult::Result(found.clone())),
            (11, EventMatchResult::Result(found.clone())),
        ]
    );
    assert_eq!(processor.event(&discovered(7, &[1])).1, vec![]);
    assert!(!processor.is_executable(&find));

    let connect = Command::ConnectToPeripheral(peripheral(7));
    assert_eq!(
        processor.command(10, &connect, 0),
        (Some(Action::Connect(peripheral(7))), None)
    );
    assert_eq!(
        processor.event(&connected(7)).1,
        vec![(
            10,
            EventMatchResult::Command(Command::RegisterConnectedPeripheral(peripheral(7)))
        )]
    );
    assert_eq!(
        processor.command(10, &Command::RegisterConnectedPeripheral(peripheral(7)), 0),
        (None, Some(CommandResult::ConnectToPeripheral(peripheral(7))))
    );
    assert_eq!(processor.state().connected_count(), 1);
    assert_eq!(processor.command(11, &find, 0), (None, Some(found)));
    assert_eq!(
        processor.command(11, &Command::GetStatus, 5),
        (None, Some(CommandResult::GetStatus(5, Some(1))))
    );
    assert_eq!(
        processor.command(11, &Command::UnregisterConnectedPeripheral(peripheral(7).id), 5),
        (None, None)
    );
    assert_eq!(
        processor.event(&discovered(8, &[2])).1,
        vec![(
            12,
            EventMatchResult::Result(CommandResult::FindPeripheral(Some(peripheral(8))))
        )]
    );
}

#[test]
fn unmatched_events_are_no_answers() {
    let matcher = Matcher::PeripheralConnected(PeripheralConnectedMatcher::new(&peripheral(1)));
    assert_eq!(matcher.matches(&CentralEvent::Other), EventMatchResult::NoMatch);
    assert_eq!(matcher.matches(&connected(2)), EventMatchResult::NoMatch);
}

#[test]
fn results_go_to_the_right_sender() {
    let mut requests = Requests::new();
    let first = requests.register("first");
    let second = requests.register("second");
    assert_ne!(first, second);
    assert_eq!((first >> 76) & 0xf, 4);
    assert_eq!((first >> 62) & 3, 2);
    assert_eq!(requests.complete(second), Some("second"));
    assert_eq!(requests.complete(second), None);
    assert_eq!(requests.complete(first), Some("first"));
    requests.register_as(3, "third");
    assert_eq!(requests.complete(3), Some("third"));
}
