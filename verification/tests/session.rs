use blemacd::bt_uuid::Uuid;
use blemacd::central::{AdvertisementData, Characteristic, Error, Peripheral, Service};
use blemacd::commands::{Command, CommandResult};
use blemacd::daemon_state::Advertisement;
use blemacd::session::{status_text, Change, Next, Session};

type Results = Vec<(Command, CommandResult)>;

fn peripheral() -> Peripheral {
    Peripheral {
        id: Uuid::from_slice(&[7; 16]),
        handle: 1,
        description: "the device".to_string(),
    }
}

fn service() -> Service {
    Service {
        id: Uuid::from_slice(&[0x18, 0x0f]),
        handle: 2,
        description: "the service".to_string(),
    }
}

fn characteristic() -> Characteristic {
    Characteristic { id: Uuid::from_slice(&[0x2a, 0x19]), handle: 3 }
}

fn find_characteristic(request: u128) -> Command {
    Command::FindCharacteristic(peripheral(), service(), "2a19".to_string(), request)
}

fn found_characteristic(request: u128) -> Results {
    vec![(
        find_characteristic(request),
        CommandResult::FindCharacteristic(peripheral(), Some(characteristic())),
    )]
}

fn found_service() -> Results {
    vec![(
        Command::FindService(peripheral(), "180f".to_string()),
        CommandResult::FindService(peripheral(), Some(service())),
    )]
}

fn read_command() -> Command {
    Command::ReadCharacteristic(peripheral(), characteristic())
}

fn read_value(value: Option<Vec<u8>>) -> Results {
    vec![(
        read_command(),
        CommandResult::ReadCharacteristic(peripheral(), characteristic(), value),
    )]
}

fn write_command(data: Vec<u8>) -> Command {
    Command::WriteCharacteristic(peripheral(), characteristic(), data)
}

fn reply(text: &str) -> Next {
    Next::Reply(text.to_string())
}

/// The step after `results` in a new session, and what is left of `input`.
fn step(input: &str, results: &Results) -> (Next, String) {
    let mut session = Session::new();
    let mut rest = input.to_string();
    assert!(session.is_step_defined(&rest, results));
    let next = session.step(&mut rest, results, 5);
    (next, rest)
}

/// What is written when `value` was read behind a characteristic with the range `range` and
/// `change`, or the reply.
fn change_value(range: &str, change: &str, value: Vec<u8>) -> Next {
    let mut session = Session::new();
    let mut input = format!("2a19{}/{}", range, change);
    session.step(&mut input, &found_service(), 5);
    let next = session.step(&mut input, &found_characteristic(5), 6);
    assert_eq!(next, Next::Command(read_command()));
    assert!(session.is_step_defined(&input, &read_value(Some(value.clone()))));
    session.step(&mut input, &read_value(Some(value)), 7)
}

#[test]
fn requests_start_with_a_command() {
    let none = vec![];
    assert_eq!(step("status", &none), (Next::Command(Command::GetStatus), String::new()));
    assert_eq!(
        step("peripherals/x", &none),
        (Next::Command(Command::ListPeripherals), "x".to_string())
    );
    assert_eq!(
        step("/180F/2a19", &none),
        (
            Next::Command(Command::FindPeripheralByService(Uuid::from_slice(&[0x18, 0x0f]))),
            "2a19".to_string()
        )
    );
    assert_eq!(
        step("01020304[1]", &none).0,
        Next::Command(Command::FindPeripheralByService(Uuid::from_slice(&[1, 2, 3, 4])))
    );
    assert_eq!(step("", &none), (reply("empty input"), String::new()));
    assert_eq!(step("!/x", &none), (reply("empty input"), "x".to_string()));
}

#[test]
fn requests_that_cannot_be_understood() {
    let mut session = Session::new();
    for text in ["xyz", "123", "123456", "+x", "statu"] {
        let mut input = text.to_string();
        assert!(!session.is_step_defined(&input, &vec![]));
        assert_eq!(session.try_next_command(&mut input, &vec![]), None);
        assert_eq!(input, text);
    }
    assert!(!session.is_step_defined("xyz", &found_characteristic(5)));
    assert!(!session.is_step_defined("+x", &found_characteristic(5)));
    assert!(!session.is_step_defined("+x", &found_service()));
    let unexpected = vec![(
        Command::GetStatus,
        CommandResult::FindCharacteristic(peripheral(), Some(characteristic())),
    )];
    assert!(!session.is_step_defined("", &unexpected));
    let connected = vec![(
        Command::GetStatus,
        CommandResult::ConnectToPeripheral(peripheral()),
    )];
    assert!(!session.is_step_defined("+x", &connected));
    assert!(session.is_step_defined("", &connected));

    let mut input = "2a19[2..5]".to_string();
    session.step(&mut input, &found_service(), 5);
    session.step(&mut input, &found_characteristic(5), 6);
    assert!(!session.is_step_defined("", &read_value(Some(vec![1, 2, 3, 4]))));
    assert!(session.is_step_defined("", &read_value(Some(vec![1, 2, 3, 4, 5]))));
    assert!(session.is_step_defined("", &read_value(None)));
}

#[test]
fn status_is_reported() {
    let results = |uptime, count| vec![(Command::GetStatus, CommandResult::GetStatus(uptime, count))];
    assert_eq!(
        step("", &results(9420, Some(3))).0,
        reply("uptime 2h 37m, 3 peripherals connected")
    );
    assert_eq!(step("", &results(0, Some(0))).0, reply("uptime 0s, 0 peripherals connected"));
    assert_eq!(step("", &results(61, None)).0, reply("uptime 1m 1s"));
    assert_eq!(status_text("3days", Some(12)), "uptime 3days, 12 peripherals connected");
    assert_eq!(status_text("3days", None), "uptime 3days");
}

#[test]
fn peripherals_are_listed() {
    let results = |list| vec![(Command::ListPeripherals, CommandResult::ListPeripherals(list))];
    assert_eq!(step("", &results(vec![])).0, reply("0 peripherals connected\n"));
    let entry = || {
        let data = AdvertisementData {
            local_name: None,
            service_uuids: vec![],
            tx_power_level: None,
        };
        (peripheral(), Advertisement::new(peripheral().id, data, 0))
    };
    assert_eq!(
        step("", &results(vec![entry(), entry()])).0,
        reply("2 peripherals connected\nthe device\nthe device")
    );
}

#[test]
fn found_peripherals_are_connected() {
    let results = |found| {
        vec![(
            Command::FindPeripheralByService(service().id),
            CommandResult::FindPeripheral(found),
        )]
    };
    assert_eq!(
        step("x", &results(Some(peripheral()))),
        (
            Next::Command(Command::ConnectToPeripheral(peripheral())),
            "x".to_string()
        )
    );
    assert_eq!(
        step("x", &results(None)),
        (reply("peripheral match not found"), "x".to_string())
    );
}

#[test]
fn connected_peripherals() {
    let connected = vec![
        (
            Command::FindPeripheralByService(service().id),
            CommandResult::FindPeripheral(Some(peripheral())),
        ),
        (
            Command::ConnectToPeripheral(peripheral()),
            CommandResult::ConnectToPeripheral(peripheral()),
        ),
    ];
    assert_eq!(
        step("", &connected).0,
        reply("peripheral [07070707-0707-0707-0707-070707070707] by service UUID [180f]")
    );
    assert_eq!(
        step("", &connected[1..].to_vec()).0,
        reply("peripheral [07070707-0707-0707-0707-070707070707] ")
    );
    assert_eq!(
        step("180f/2a19", &connected),
        (
            Next::Command(Command::FindService(peripheral(), "180f".to_string())),
            "2a19".to_string()
        )
    );
    assert_eq!(
        step("!/2a19", &connected),
        (reply("connected to peripheral"), "2a19".to_string())
    );
}

#[test]
fn found_services() {
    assert_eq!(
        step("2a19[1..2]/x", &found_service()),
        (Next::Command(find_characteristic(5)), "x".to_string())
    );
    assert_eq!(
        step("", &found_service()),
        (reply("service found: the service"), String::new())
    );
    let missing = vec![(
        Command::FindService(peripheral(), "180f".to_string()),
        CommandResult::FindService(peripheral(), None),
    )];
    assert_eq!(step("2a19", &missing), (reply("service not found"), "2a19".to_string()));
}

#[test]
fn searches_get_a_random_number() {
    let mut session = Session::new();
    let mut numbers = vec![];
    for _ in 0..2 {
        let mut input = "2a19[1]".to_string();
        match session.try_next_command(&mut input, &found_service()) {
            Some(Next::Command(Command::FindCharacteristic(_, _, _, number))) => {
                assert_eq!((number >> 76) & 0xf, 4);
                assert_eq!((number >> 62) & 3, 2);
                numbers.push(number);
            }
            other => panic!("unexpected {:?}", other),
        }
    }
    assert_ne!(numbers[0], numbers[1]);
}

#[test]
fn missing_characteristics() {
    let missing = vec![(
        find_characteristic(5),
        CommandResult::FindCharacteristic(peripheral(), None),
    )];
    assert_eq!(step("", &missing).0, reply("characteristic not found"));
    assert_eq!(step("", &read_value(None)).0, reply("characteristic read failed"));
}

#[test]
fn values_are_read() {
    assert_eq!(change_value("", "", vec![1, 0xab]), reply("01ab"));
    assert_eq!(change_value("[1..3]", "", vec![1, 2, 3, 4]), reply("0203"));
    assert_eq!(change_value("[2]", "", vec![1, 2, 3, 4]), reply("03"));
    assert_eq!(change_value("[]", "", vec![1, 2]), reply("0102"));
}

#[test]
fn values_are_written() {
    assert_eq!(
        step("0aFF", &found_characteristic(5)),
        (Next::Command(write_command(vec![0x0a, 0xff])), String::new())
    );
    let written = |result| vec![(
        write_command(vec![1]),
        CommandResult::WriteCharacteristic(peripheral(), characteristic(), result),
    )];
    assert_eq!(step("", &written(Ok(()))).0, reply("Ok(())"));
    assert_eq!(
        step("", &written(Err(Error { description: "Error { .. }".to_string() }))).0,
        reply("Err(Error { .. })")
    );
}

#[test]
fn values_are_changed() {
    let le = |n: u128| n.to_le_bytes().to_vec();
    let mut zeros = vec![0; 16];
    assert_eq!(change_value("", "!", zeros.clone()), Next::Command(write_command(le(1))));
    zeros[15] = 9;
    assert_eq!(change_value("", "!", zeros.clone()), Next::Command(write_command(le(0))));
    assert_eq!(change_value("", "+1", zeros.clone()), Next::Command(write_command(le(10))));
    assert_eq!(change_value("", "-10", zeros.clone()), Next::Command(write_command(le(0))));
    assert_eq!(change_value("", "+5[..7]", zeros.clone()), Next::Command(write_command(le(7))));
    assert_eq!(change_value("[0..16]", "0203", zeros), Next::Command(write_command(le(0x203))));

    // The bytes of a narrower range hold the most significant bytes of the changed number.
    assert_eq!(
        change_value("[1..3]", "0506", vec![1, 2, 3, 4]),
        Next::Command(write_command(vec![1, 0, 0, 4]))
    );
    let mut wide = vec![0xaa];
    wide.extend(vec![0; 16]);
    wide.push(0xbb);
    let mut changed = vec![0xaa];
    changed.extend(le(1));
    changed.push(0xbb);
    assert_eq!(change_value("[1..17]", "!", wide), Next::Command(write_command(changed)));
}

#[test]
fn a_read_settles_range_and_change() {
    let mut session = Session::new();
    let mut input = "2a19[1]/!".to_string();
    session.step(&mut input, &found_service(), 5);
    session.step(&mut input, &found_characteristic(5), 6);
    assert!(!session.is_step_defined("", &read_value(Some(vec![]))));
    session.step(&mut input, &read_value(Some(vec![0; 2])), 7);
    assert!(session.is_step_defined("", &read_value(Some(vec![]))));
    assert_eq!(session.step(&mut input, &read_value(Some(vec![4])), 8), reply("04"));

    // The range is waited for under the number of its own request only.
    let mut input = "2a19[1]".to_string();
    session.step(&mut input, &found_service(), 5);
    session.step(&mut input, &found_characteristic(6), 6);
    assert_eq!(session.step(&mut input, &read_value(Some(vec![4])), 8), reply("04"));
}

#[test]
fn changes_of_numbers() {
    assert_eq!(Change::Negate.apply(0), 1);
    assert_eq!(Change::Negate.apply(1), 0);
    assert_eq!(Change::Negate.apply(u128::MAX), 0);
    assert_eq!(Change::Put(3).apply(9), 3);
    assert_eq!(Change::Add(5, 0, u128::MAX).apply(9), 14);
    assert_eq!(Change::Add(-5, 0, u128::MAX).apply(9), 4);
    assert_eq!(Change::Add(-10, 0, u128::MAX).apply(9), 0);
    assert_eq!(Change::Add(1, 0, u128::MAX).apply(u128::MAX), u128::MAX);
    assert_eq!(Change::Add(5, 20, 30).apply(9), 20);
    assert_eq!(Change::Add(5, 2, 3).apply(9), 3);
    assert_eq!(Change::Add(0, 9, 3).apply(5), 9);
    assert_eq!(Change::Add(i64::MIN, 0, u128::MAX).apply(1 << 63), 1);
}

#[test]
fn a_whole_request() {
    let mut session = Session::new();
    let mut input = "180f/180f/2a19/0102".to_string();
    let mut results: Results = vec![];
    let mut commands = vec![];
    loop {
        match session.try_next_command(&mut input, &results) {
            Some(Next::Command(command)) => {
                let result = match &command {
                    Command::FindPeripheralByService(_) => {
                        CommandResult::FindPeripheral(Some(peripheral()))
                    }
                    Command::ConnectToPeripheral(p) => CommandResult::ConnectToPeripheral(p.clone()),
                    Command::FindService(p, _) => {
                        CommandResult::FindService(p.clone(), Some(service()))
                    }
                    Command::FindCharacteristic(p, _, _, _) => {
                        CommandResult::FindCharacteristic(p.clone(), Some(characteristic()))
                    }
                    Command::WriteCharacteristic(p, c, data) => {
                        assert_eq!(data, &vec![1, 2]);
                        CommandResult::WriteCharacteristic(p.clone(), *c, Ok(()))
                    }
                    other => panic!("unexpected {:?}", other),
                };
                commands.push(command.clone());
                results.push((command, result));
            }
            Some(Next::Reply(text)) => {
                assert_eq!(text, "Ok(())");
                break;
            }
            None => panic!("the request is not understood"),
        }
    }
    assert_eq!(commands.len(), 5);
    assert_eq!(input, "");
}
