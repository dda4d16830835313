//! What a client asks for, step by step.
//!
//! A request is a path: a device, given by a service that it advertises; a service; a
//! characteristic, with an optional range of bytes; and what is to be done with the value of the
//! characteristic. Each token of the path becomes a command, which is executed before the next token
//! is looked at. The last step is a reply to the client.

use std::collections::HashMap;
use vstd::prelude::*;

use crate::bt_uuid::{expanded, is_uuid_len, shortened, uuid_text, Uuid};
use crate::byte_slices::{
    adjusted, be_value, bytes_to_u128, get_slice, is_range_in, le_bytes, range_fits, replace_slice,
    replaced, selected, u128_to_le_bytes, ByteRange, U128_SIZE,
};
use crate::central::{Characteristic, Error, Peripheral, Service};
use crate::commands::{Command, CommandResult, CommandView, ResultView};
use crate::daemon_state::{listing_view, Advertisement, AdvertisementView};
use crate::hexadecimal::{decode, encode, hex_bytes, hex_text, is_hex};
use crate::input_token::{
    behind_token, consume_token, first_token, is_readable, is_token_readable, InputToken, TokenView,
};
use crate::text::{decimal_text, format_u64, join, joined, text_views};

verus! {

/// A duration of `seconds` seconds as it is shown to a user.
pub uninterp spec fn uptime_text(seconds: u64) -> Seq<char>;

/// `humantime::format_duration`, written out, of a duration of whole seconds; claims only that the
/// text depends on the number of seconds and nothing else.
#[verifier::external_body]
fn format_uptime(seconds: u64) -> (text: String)
    ensures
        text@ == uptime_text(seconds),
{
    humantime::format_duration(std::time::Duration::new(seconds, 0)).to_string()
}

/// `number` has the version and the variant of a random UUID.
pub open spec fn is_request_number(number: u128) -> bool {
    (number >> 76) & 0xf == 4 && (number >> 62) & 3 == 2
}

/// `uuid::Uuid::new_v4` draws a random UUID; all that is known of it are its version and variant.
#[verifier::external_body]
pub(crate) fn new_request_number() -> (number: u128)
    ensures
        is_request_number(number),
{
    uuid::Uuid::new_v4().as_u128()
}

/// How the value of a characteristic, read as a number, is to be changed.
#[derive(Clone, Copy, PartialEq, Eq, Debug, Structural)]
pub enum Change {
    /// Zero becomes one, everything else becomes zero.
    Negate,
    /// Add a number, and keep the sum between two bounds.
    Add(i64, u128, u128),
    /// Put a number in its place.
    Put(u128),
}

/// `sum` if it is a `u128`, or else the closest one.
pub open spec fn saturated(sum: int) -> int {
    if sum < 0 {
        0
    } else if sum > u128::MAX {
        u128::MAX as int
    } else {
        sum
    }
}

/// What a [`Change`] makes of `value`. The smallest `i64` is added as if it were the one above it.
pub open spec fn changed(change: Change, value: u128) -> u128 {
    match change {
        Change::Negate => if value == 0 {
            1
        } else {
            0
        },
        Change::Add(delta, min, max) => {
            let sum = saturated(
                if delta == i64::MIN {
                    value - i64::MAX
                } else {
                    value + delta
                },
            ) as u128;
            if sum < min {
                min
            } else if sum > max {
                max
            } else {
                sum
            }
        },
        Change::Put(number) => number,
    }
}

impl Change {
    /// What the change makes of `value`.
    pub fn apply(&self, value: u128) -> (result: u128)
        ensures
            result == changed(*self, value),
    {
        match self {
            Change::Negate => if value == 0 {
                1
            } else {
                0
            },
            Change::Add(delta, min, max) => {
                let sum: u128 = if *delta < 0 {
                    let size: u128 = if *delta == i64::MIN {
                        i64::MAX as u128
                    } else {
                        (-*delta) as u128
                    };
                    if value < size {
                        0
                    } else {
                        value - size
                    }
                } else {
                    let size: u128 = *delta as u128;
                    if value > u128::MAX - size {
                        u128::MAX
                    } else {
                        value + size
                    }
                };
                if sum < *min {
                    *min
                } else if sum > *max {
                    *max
                } else {
                    sum
                }
            },
            Change::Put(number) => *number,
        }
    }
}

/// What a client is still waiting for.
pub struct Session {
    /// Changes to be made once a value was read, under the numbers of characteristics.
    pending_changes: HashMap<u128, Change>,
    /// Ranges of the values to be read, under the numbers of characteristics.
    ranges: HashMap<u128, ByteRange>,
    /// Ranges of the characteristics to be found, under the numbers of requests.
    pending_ranges: HashMap<u128, ByteRange>,
}

/// What a [`Session`] holds.
#[verifier::ext_equal]
pub struct SessionView {
    pub pending_changes: Map<u128, Change>,
    pub ranges: Map<u128, ByteRange>,
    pub pending_ranges: Map<u128, ByteRange>,
}

impl View for Session {
    type V = SessionView;

    closed spec fn view(&self) -> SessionView {
        SessionView {
            pending_changes: self.pending_changes@,
            ranges: self.ranges@,
            pending_ranges: self.pending_ranges@,
        }
    }
}

/// What comes next in a session.
#[derive(PartialEq, Eq, Debug)]
pub enum Next {
    /// A command is to be executed.
    Command(Command),
    /// The client gets its reply.
    Reply(String),
}

/// What a [`Next`] holds.
#[verifier::ext_equal]
pub enum NextView {
    Command(CommandView),
    Reply(Seq<char>),
}

impl View for Next {
    type V = NextView;

    open spec fn view(&self) -> NextView {
        match *self {
            Next::Command(command) => NextView::Command(command@),
            Next::Reply(text) => NextView::Reply(text@),
        }
    }
}

/// A step of a session: what comes next, and what is left of the request and of the session.
#[verifier::ext_equal]
pub struct Step {
    pub next: NextView,
    pub input: Seq<char>,
    pub session: SessionView,
}

/// What the commands of a request and their results hold.
pub open spec fn results_view(results: Seq<(Command, CommandResult)>) -> Seq<
    (CommandView, ResultView),
> {
    results.map_values(|entry: (Command, CommandResult)| (entry.0@, entry.1@))
}

/// The entry of `map` under `key`.
pub open spec fn entry_of<V>(map: Map<u128, V>, key: u128) -> Option<V> {
    if map.contains_key(key) {
        Some(map[key])
    } else {
        None
    }
}

/// `map` with `value`, if there is one, under `key`.
pub open spec fn with_entry<V>(map: Map<u128, V>, key: u128, value: Option<V>) -> Map<u128, V> {
    match value {
        Some(value) => map.insert(key, value),
        None => map,
    }
}

/// The first token names a command or a service that the device advertises.
pub open spec fn first_next(input: Seq<char>) -> NextView {
    match first_token(input) {
        TokenView::Address(name, _) => NextView::Command(
            if name == "status"@ {
                CommandView::GetStatus
            } else if name == "peripherals"@ {
                CommandView::ListPeripherals
            } else {
                CommandView::FindPeripheralByService(Uuid::of_bytes(expanded(hex_bytes(name))))
            },
        ),
        _ => NextView::Reply("empty input"@),
    }
}

/// The token can be read, and if it names a service, it is one in hexadecimal notation.
pub open spec fn is_first_step_defined(input: Seq<char>) -> bool {
    &&& is_readable(input)
    &&& first_token(input) matches TokenView::Address(name, _) ==> name == "status"@ || name
        == "peripherals"@ || is_hex(name) && is_uuid_len(hex_bytes(name).len())
}

/// How long the daemon has run, as it is shown to a user, and how many devices are connected.
pub open spec fn status_of(uptime: Seq<char>, count: Option<usize>) -> Seq<char> {
    match count {
        Some(count) => "uptime "@ + uptime + ", "@ + decimal_text(count as nat)
            + " peripherals connected"@,
        None => "uptime "@ + uptime,
    }
}

/// How long the daemon has run, as it is shown to a user, and how many devices are connected.
pub fn status_text(uptime: &str, count: Option<usize>) -> (text: String)
    ensures
        text@ == status_of(uptime@, count),
{
    let mut text: String = "uptime ".to_owned();
    text.append(uptime);
    if let Some(count) = count {
        text.append(", ");
        text.append(format_u64(count as u64).as_str());
        text.append(" peripherals connected");
    }
    text
}

/// Reply to the question for the status.
pub open spec fn status_reply(uptime: u64, count: Option<usize>) -> Seq<char> {
    status_of(uptime_text(uptime), count)
}

/// Reply to the question for the connected devices: how many there are, and one line for each.
pub open spec fn list_reply(list: Seq<(Peripheral, AdvertisementView)>) -> Seq<char> {
    decimal_text(list.len()) + " peripherals connected\n"@ + joined(
        list.map_values(|entry: (Peripheral, AdvertisementView)| entry.0.description@),
        "\n"@,
    )
}

/// The service that the first of `commands` that looks for a device looks for.
pub open spec fn wanted_service(results: Seq<(CommandView, ResultView)>) -> Option<Uuid>
    decreases results.len(),
{
    if results.len() == 0 {
        None
    } else {
        match results[0].0 {
            CommandView::FindPeripheralByService(uuid) => Some(uuid),
            _ => wanted_service(results.skip(1)),
        }
    }
}

/// Reply to a request that ends with a device.
pub open spec fn peripheral_reply(
    peripheral: Peripheral,
    results: Seq<(CommandView, ResultView)>,
) -> Seq<char> {
    "peripheral ["@ + uuid_text(peripheral.id@) + "] "@ + match wanted_service(results) {
        Some(uuid) => "by service UUID ["@ + hex_text(shortened(uuid@)) + "]"@,
        None => ""@,
    }
}

/// The token behind a device names a service of it.
pub open spec fn connect_next(
    input: Seq<char>,
    results: Seq<(CommandView, ResultView)>,
    peripheral: Peripheral,
) -> NextView {
    if input.len() == 0 {
        NextView::Reply(peripheral_reply(peripheral, results))
    } else {
        match first_token(input) {
            TokenView::Address(name, _) => NextView::Command(
                CommandView::FindService(peripheral, name),
            ),
            _ => NextView::Reply("connected to peripheral"@),
        }
    }
}

/// What is left of a request behind the token that follows a device.
pub open spec fn connect_rest(input: Seq<char>) -> Seq<char> {
    if input.len() == 0 {
        input
    } else {
        behind_token(input)
    }
}

/// The token behind a service names a characteristic of it; its range is remembered under the
/// number of the request.
pub open spec fn step_after_service(
    session: SessionView,
    input: Seq<char>,
    peripheral: Peripheral,
    service: Service,
    request: u128,
) -> Step {
    match first_token(input) {
        TokenView::Address(name, range) => Step {
            next: NextView::Command(
                CommandView::FindCharacteristic(peripheral, service, name, request),
            ),
            input: behind_token(input),
            session: SessionView {
                pending_ranges: with_entry(session.pending_ranges, request, range),
                ..session
            },
        },
        _ => Step {
            next: NextView::Reply("service found: "@ + service.description@),
            input: behind_token(input),
            session,
        },
    }
}

/// The number in the last bytes of `bytes` that fit into a `u128`.
pub open spec fn number_of(bytes: Seq<u8>) -> u128 {
    be_value(adjusted(bytes, U128_SIZE as nat)) as u128
}

/// The token behind a characteristic tells what is done with its value. A value that is to be
/// written to all of its bytes is written at once; in all other cases the value is read first.
pub open spec fn step_after_characteristic(
    session: SessionView,
    input: Seq<char>,
    peripheral: Peripheral,
    characteristic: Characteristic,
    request: u128,
) -> Step {
    let key = characteristic.id.spec_key();
    let range = entry_of(session.pending_ranges, request);
    let token = first_token(input);
    let change = match token {
        TokenView::Negation => Some(Change::Negate),
        TokenView::Addition(delta, min, max) => Some(Change::Add(delta, min, max)),
        TokenView::Address(name, _) => if range is Some {
            Some(Change::Put(number_of(hex_bytes(name))))
        } else {
            None
        },
        TokenView::Nothing => None,
    };
    Step {
        next: NextView::Command(
            match token {
                TokenView::Address(name, _) if range is None => CommandView::WriteCharacteristic(
                    peripheral,
                    characteristic,
                    hex_bytes(name),
                ),
                _ => CommandView::ReadCharacteristic(peripheral, characteristic),
            },
        ),
        input: behind_token(input),
        session: SessionView {
            pending_changes: with_entry(session.pending_changes, key, change),
            ranges: with_entry(session.ranges, key, range),
            pending_ranges: session.pending_ranges.remove(request),
        },
    }
}

/// A value that was read is shown, or changed and written back. The changed number is put into the
/// range with its least significant byte first.
pub open spec fn read_next(
    session: SessionView,
    peripheral: Peripheral,
    characteristic: Characteristic,
    value: Seq<u8>,
) -> NextView {
    let key = characteristic.id.spec_key();
    let range = entry_of(session.ranges, key);
    let part = selected(value, range);
    match entry_of(session.pending_changes, key) {
        Some(change) => NextView::Command(
            CommandView::WriteCharacteristic(
                peripheral,
                characteristic,
                replaced(
                    value,
                    le_bytes(changed(change, number_of(part)) as nat, U128_SIZE as nat),
                    range,
                ),
            ),
        ),
        None => NextView::Reply(hex_text(part)),
    }
}

/// Once a value was read, its range and its change are no longer waited for.
pub open spec fn session_after_read(
    session: SessionView,
    characteristic: Characteristic,
) -> SessionView {
    SessionView {
        pending_changes: session.pending_changes.remove(characteristic.id.spec_key()),
        ranges: session.ranges.remove(characteristic.id.spec_key()),
        pending_ranges: session.pending_ranges,
    }
}

/// Reply to a request to write.
pub open spec fn write_reply(result: Result<(), Error>) -> Seq<char> {
    match result {
        Ok(_) => "Ok(())"@,
        Err(error) => "Err("@ + error.description@ + ")"@,
    }
}

/// The step that follows the last of `results`.
pub open spec fn next_step(
    session: SessionView,
    input: Seq<char>,
    results: Seq<(CommandView, ResultView)>,
    request: u128,
) -> Step {
    if results.len() == 0 {
        Step { next: first_next(input), input: behind_token(input), session }
    } else {
        let (command, result) = results.last();
        match result {
            ResultView::GetStatus(uptime, count) => Step {
                next: NextView::Reply(status_reply(uptime, count)),
                input,
                session,
            },
            ResultView::ListPeripherals(list) => Step {
                next: NextView::Reply(list_reply(list)),
                input,
                session,
            },
            ResultView::FindPeripheral(found) => Step {
                next: match found {
                    Some(peripheral) => NextView::Command(
                        CommandView::ConnectToPeripheral(peripheral),
                    ),
                    None => NextView::Reply("peripheral match not found"@),
                },
                input,
                session,
            },
            ResultView::ConnectToPeripheral(peripheral) => Step {
                next: connect_next(input, results, peripheral),
                input: connect_rest(input),
                session,
            },
            ResultView::FindService(peripheral, found) => match found {
                Some(service) => step_after_service(session, input, peripheral, service, request),
                None => Step { next: NextView::Reply("service not found"@), input, session },
            },
            ResultView::FindCharacteristic(peripheral, found) => match found {
                Some(characteristic) => step_after_characteristic(
                    session,
                    input,
                    peripheral,
                    characteristic,
                    command->FindCharacteristic_3,
                ),
                None => Step {
                    next: NextView::Reply("characteristic not found"@),
                    input,
                    session,
                },
            },
            ResultView::ReadCharacteristic(peripheral, characteristic, value) => match value {
                Some(value) => Step {
                    next: read_next(session, peripheral, characteristic, value),
                    input,
                    session: session_after_read(session, characteristic),
                },
                None => Step {
                    next: NextView::Reply("characteristic read failed"@),
                    input,
                    session,
                },
            },
            ResultView::WriteCharacteristic(_, _, result) => Step {
                next: NextView::Reply(write_reply(result)),
                input,
                session,
            },
        }
    }
}

/// The request can be understood so far: the token that is looked at next can be read, a value in it
/// is in hexadecimal notation, the range of a value that was read lies inside of it, and a
/// characteristic was found by a command that looks for one.
pub open spec fn is_step_defined(
    session: SessionView,
    input: Seq<char>,
    results: Seq<(CommandView, ResultView)>,
) -> bool {
    if results.len() == 0 {
        is_first_step_defined(input)
    } else {
        let (command, result) = results.last();
        match result {
            ResultView::ConnectToPeripheral(_) => input.len() == 0 || is_readable(input),
            ResultView::FindService(_, Some(_)) => is_readable(input),
            ResultView::FindCharacteristic(_, Some(_)) => {
                &&& command is FindCharacteristic
                &&& is_readable(input)
                &&& first_token(input) matches TokenView::Address(name, _) ==> is_hex(name)
            },
            ResultView::ReadCharacteristic(_, characteristic, Some(value)) => range_fits(
                entry_of(session.ranges, characteristic.id.spec_key()),
                value.len(),
            ),
            _ => true,
        }
    }
}

impl Session {
    /// Nothing is waited for.
    pub fn new() -> (session: Self)
        ensures
            session@ == (SessionView {
                pending_changes: Map::empty(),
                ranges: Map::empty(),
                pending_ranges: Map::empty(),
            }),
    {
        Session {
            pending_changes: HashMap::new(),
            ranges: HashMap::new(),
            pending_ranges: HashMap::new(),
        }
    }

    /// The step at the first token of a request.
    fn first_step(input: &mut String) -> (next: Next)
        requires
            is_first_step_defined(old(input)@),
        ensures
            next@ == first_next(old(input)@),
            final(input)@ == behind_token(old(input)@),
    {
        match consume_token(input) {
            InputToken::Address(name, _) => if name == "status".to_owned() {
                Next::Command(Command::GetStatus)
            } else if name == "peripherals".to_owned() {
                Next::Command(Command::ListPeripherals)
            } else {
                match decode(name.as_str()) {
                    Some(bytes) => Next::Command(
                        Command::FindPeripheralByService(Uuid::from_slice(bytes.as_slice())),
                    ),
                    None => Next::Reply("empty input".to_owned()),
                }
            },
            _ => Next::Reply("empty input".to_owned()),
        }
    }

    fn status_reply(uptime: u64, count: Option<usize>) -> (text: String)
        ensures
            text@ == status_reply(uptime, count),
    {
        status_text(format_uptime(uptime).as_str(), count)
    }

    fn list_reply(list: &Vec<(Peripheral, Advertisement)>) -> (text: String)
        ensures
            text@ == list_reply(listing_view(list@)),
    {
        let ghost wanted = listing_view(list@).map_values(
            |entry: (Peripheral, AdvertisementView)| entry.0.description@,
        );
        let mut lines: Vec<String> = Vec::new();
        let mut i: usize = 0;
        while i < list.len()
            invariant
                i <= list@.len(),
                wanted == listing_view(list@).map_values(
                    |entry: (Peripheral, AdvertisementView)| entry.0.description@,
                ),
                text_views(lines@) =~= wanted.take(i as int),
            decreases list@.len() - i,
        {
            let ghost before = lines@;
            let line: String = list[i].0.description.clone();
            lines.push(line);
            assert(text_views(lines@) =~= text_views(before).push(line@));
            i += 1;
        }
        assert(wanted.take(i as int) =~= wanted);
        let mut text: String = format_u64(list.len() as u64);
        text.append(" peripherals connected\n");
        text.append(join(&lines, "\n").as_str());
        text
    }

    fn peripheral_reply(
        peripheral: &Peripheral,
        results: &Vec<(Command, CommandResult)>,
    ) -> (text: String)
        ensures
            text@ == peripheral_reply(*peripheral, results_view(results@)),
    {
        let mut text: String = "peripheral [".to_owned();
        text.append(peripheral.id.to_text().as_str());
        text.append("] ");
        let ghost all = results_view(results@);
        assert(all.skip(0) =~= all);
        let mut i: usize = 0;
        while i < results.len()
            invariant
                i <= results@.len(),
                all == results_view(results@),
                text@ == "peripheral ["@ + uuid_text(peripheral.id@) + "] "@,
                wanted_service(all) == wanted_service(all.skip(i as int)),
            decreases results@.len() - i,
        {
            assert(all.skip(i as int)[0].0 == results@[i as int].0@);
            assert(all.skip(i as int).skip(1) =~= all.skip(i + 1));
            if let Command::FindPeripheralByService(uuid) = &results[i].0 {
                text.append("by service UUID [");
                text.append(encode(uuid.shorten().as_slice()).as_str());
                text.append("]");
                assert(text@ =~= peripheral_reply(*peripheral, all));
                return text;
            }
            i += 1;
        }
        proof {
            reveal_strlit("");
            assert(text@ + ""@ =~= text@);
        }
        text
    }

    /// The step after a device was connected.
    fn step_after_connect(
        input: &mut String,
        results: &Vec<(Command, CommandResult)>,
        peripheral: &Peripheral,
    ) -> (next: Next)
        requires
            old(input)@.len() == 0 || is_readable(old(input)@),
        ensures
            next@ == connect_next(old(input)@, results_view(results@), *peripheral),
            final(input)@ == connect_rest(old(input)@),
    {
        if input.as_str().is_empty() {
            Next::Reply(Self::peripheral_reply(peripheral, results))
        } else {
            match consume_token(input) {
                InputToken::Address(name, _) => Next::Command(
                    Command::FindService(peripheral.clone(), name),
                ),
                _ => Next::Reply("connected to peripheral".to_owned()),
            }
        }
    }

    /// The step after a service was found, for a request with the number `request`.
    fn step_after_service(
        &mut self,
        input: &mut String,
        peripheral: &Peripheral,
        service: &Service,
        request: u128,
    ) -> (next: Next)
        requires
            is_readable(old(input)@),
        ensures
            (Step { next: next@, input: final(input)@, session: final(self)@ })
                == step_after_service(old(self)@, old(input)@, *peripheral, *service, request),
    {
        match consume_token(input) {
            InputToken::Address(name, range) => {
                if let Some(range) = range {
                    self.pending_ranges.insert(request, range);
                }
                Next::Command(
                    Command::FindCharacteristic(
                        peripheral.clone(),
                        service.clone(),
                        name,
                        request,
                    ),
                )
            },
            _ => {
                let mut text: String = "service found: ".to_owned();
                text.append(service.description.as_str());
                Next::Reply(text)
            },
        }
    }

    /// The step after the characteristic was found that the request with the number `request` asks
    /// for.
    fn step_after_characteristic(
        &mut self,
        input: &mut String,
        peripheral: &Peripheral,
        characteristic: &Characteristic,
        request: u128,
    ) -> (next: Next)
        requires
            is_readable(old(input)@),
            first_token(old(input)@) matches TokenView::Address(name, _) ==> is_hex(name),
        ensures
            (Step { next: next@, input: final(input)@, session: final(self)@ })
                == step_after_characteristic(
                old(self)@,
                old(input)@,
                *peripheral,
                *characteristic,
                request,
            ),
    {
        let key: u128 = characteristic.id.key();
        let range: Option<ByteRange> = self.pending_ranges.remove(&request);
        if let Some(range) = range {
            self.ranges.insert(key, range);
        }
        let (change, data): (Option<Change>, Option<Vec<u8>>) = match consume_token(input) {
            InputToken::Negation => (Some(Change::Negate), None),
            InputToken::Addition(delta, min, max) => (Some(Change::Add(delta, min, max)), None),
            InputToken::Address(name, _) => {
                let value: Vec<u8> = match decode(name.as_str()) {
                    Some(value) => value,
                    None => Vec::new(),
                };
                if range.is_some() {
                    (Some(Change::Put(bytes_to_u128(&value))), None)
                } else {
                    (None, Some(value))
                }
            },
            InputToken::Nothing => (None, None),
        };
        if let Some(change) = change {
            self.pending_changes.insert(key, change);
        }
        match data {
            Some(data) => Next::Command(
                Command::WriteCharacteristic(peripheral.clone(), *characteristic, data),
            ),
            None => Next::Command(
                Command::ReadCharacteristic(peripheral.clone(), *characteristic),
            ),
        }
    }

    /// The step after `value` was read.
    fn step_after_read(
        &mut self,
        peripheral: &Peripheral,
        characteristic: &Characteristic,
        value: &Vec<u8>,
    ) -> (next: Next)
        requires
            range_fits(
                entry_of(old(self)@.ranges, characteristic.id.spec_key()),
                value@.len(),
            ),
        ensures
            next@ == read_next(old(self)@, *peripheral, *characteristic, value@),
            final(self)@ == session_after_read(old(self)@, *characteristic),
    {
        let key: u128 = characteristic.id.key();
        let range: Option<ByteRange> = self.ranges.remove(&key);
        let part: &[u8] = get_slice(value, range);
        let change: Option<Change> = self.pending_changes.remove(&key);
        match change {
            Some(change) => {
                let number: u128 = bytes_to_u128(&vstd::slice::slice_to_vec(part));
                let updated: Vec<u8> = u128_to_le_bytes(change.apply(number));
                Next::Command(
                    Command::WriteCharacteristic(
                        peripheral.clone(),
                        *characteristic,
                        replace_slice(value, &updated, range),
                    ),
                )
            },
            None => Next::Reply(encode(part)),
        }
    }

    fn write_reply(result: &Result<(), Error>) -> (text: String)
        ensures
            text@ == write_reply(*result),
    {
        match result {
            Ok(_) => "Ok(())".to_owned(),
            Err(error) => {
                let mut text: String = "Err(".to_owned();
                text.append(error.description.as_str());
                text.append(")");
                text
            },
        }
    }

    /// Whether the request can be understood so far.
    pub fn is_step_defined(
        &self,
        input: &str,
        results: &Vec<(Command, CommandResult)>,
    ) -> (r: bool)
        ensures
            r == is_step_defined(self@, input@, results_view(results@)),
    {
        if results.len() == 0 {
            return Self::is_first_step_defined(input);
        }
        let last: &(Command, CommandResult) = &results[results.len() - 1];
        assert(results_view(results@).last() == (last.0@, last.1@));
        match &last.1 {
            CommandResult::ConnectToPeripheral(_) => input.is_empty() || is_token_readable(input),
            CommandResult::FindService(_, Some(_)) => is_token_readable(input),
            CommandResult::FindCharacteristic(_, Some(_)) => {
                let is_search: bool = match &last.0 {
                    Command::FindCharacteristic(_, _, _, _) => true,
                    _ => false,
                };
                is_search && is_token_readable(input) && Self::is_value_hex(input)
            },
            CommandResult::ReadCharacteristic(_, characteristic, Some(value)) => {
                let range: Option<ByteRange> = match self.ranges.get(&characteristic.id.key()) {
                    Some(range) => Some(*range),
                    None => None,
                };
                is_range_in(&range, value.len())
            },
            _ => true,
        }
    }

    /// Whether the first token of a request can be understood.
    fn is_first_step_defined(input: &str) -> (r: bool)
        ensures
            r == is_first_step_defined(input@),
    {
        if !is_token_readable(input) {
            return false;
        }
        let mut rest: String = input.to_owned();
        match consume_token(&mut rest) {
            InputToken::Address(name, _) => {
                if name == "status".to_owned() || name == "peripherals".to_owned() {
                    return true;
                }
                match decode(name.as_str()) {
                    Some(bytes) => bytes.len() == 2 || bytes.len() == 4 || bytes.len() == 16,
                    None => false,
                }
            },
            _ => true,
        }
    }

    /// Whether the first token of `input` is a value in hexadecimal notation, or none at all.
    fn is_value_hex(input: &str) -> (r: bool)
        requires
            is_readable(input@),
        ensures
            r == (first_token(input@) matches TokenView::Address(name, _) ==> is_hex(name)),
    {
        let mut rest: String = input.to_owned();
        match consume_token(&mut rest) {
            InputToken::Address(name, _) => decode(name.as_str()).is_some(),
            _ => true,
        }
    }

    /// What comes next after `results`, for a request with the number `request`. Takes off `input`
    /// the token that was looked at.
    pub fn step(
        &mut self,
        input: &mut String,
        results: &Vec<(Command, CommandResult)>,
        request: u128,
    ) -> (next: Next)
        requires
            is_step_defined(old(self)@, old(input)@, results_view(results@)),
        ensures
            (Step { next: next@, input: final(input)@, session: final(self)@ }) == next_step(
                old(self)@,
                old(input)@,
                results_view(results@),
                request,
            ),
    {
        if results.len() == 0 {
            return Self::first_step(input);
        }
        let last: &(Command, CommandResult) = &results[results.len() - 1];
        assert(results_view(results@).last() == (last.0@, last.1@));
        match &last.1 {
            CommandResult::GetStatus(uptime, count) => Next::Reply(
                Self::status_reply(*uptime, *count),
            ),
            CommandResult::ListPeripherals(list) => Next::Reply(Self::list_reply(list)),
            CommandResult::FindPeripheral(found) => match found {
                Some(peripheral) => Next::Command(
                    Command::ConnectToPeripheral(peripheral.clone()),
                ),
                None => Next::Reply("peripheral match not found".to_owned()),
            },
            CommandResult::ConnectToPeripheral(peripheral) => Self::step_after_connect(
                input,
                results,
                peripheral,
            ),
            CommandResult::FindService(peripheral, found) => match found {
                Some(service) => self.step_after_service(input, peripheral, service, request),
                None => Next::Reply("service not found".to_owned()),
            },
            CommandResult::FindCharacteristic(peripheral, found) => match found {
                Some(characteristic) => {
                    let number: u128 = match &last.0 {
                        Command::FindCharacteristic(_, _, _, number) => *number,
                        _ => 0,
                    };
                    self.step_after_characteristic(input, peripheral, characteristic, number)
                },
                None => Next::Reply("characteristic not found".to_owned()),
            },
            CommandResult::ReadCharacteristic(peripheral, characteristic, value) => match value {
                Some(value) => self.step_after_read(peripheral, characteristic, value),
                None => Next::Reply("characteristic read failed".to_owned()),
            },
            CommandResult::WriteCharacteristic(_, _, result) => Next::Reply(
                Self::write_reply(result),
            ),
        }
    }

    /// What comes next after `results`. A search for a characteristic gets a random number.
    pub fn next_command(
        &mut self,
        input: &mut String,
        results: &Vec<(Command, CommandResult)>,
    ) -> (next: Next)
        requires
            is_step_defined(old(self)@, old(input)@, results_view(results@)),
        ensures
            exists|request: u128|
                #![trigger is_request_number(request)]
                is_request_number(request) && (Step {
                    next: next@,
                    input: final(input)@,
                    session: final(self)@,
                }) == next_step(old(self)@, old(input)@, results_view(results@), request),
    {
        let needs_number: bool = if results.len() > 0 {
            match &results[results.len() - 1].1 {
                CommandResult::FindService(_, Some(_)) => true,
                _ => false,
            }
        } else {
            false
        };
        let request: u128 = if needs_number {
            new_request_number()
        } else {
            0
        };
        proof {
            // Only the step after a service was found depends on the number.
            let other: u128 = 0x4000_8000_0000_0000_0000;
            assert(is_request_number(0x4000_8000_0000_0000_0000)) by (bit_vector);
            if !needs_number {
                let all = results_view(results@);
                assert(next_step(self@, input@, all, 0) == next_step(self@, input@, all, other));
            }
        }
        self.step(input, results, request)
    }

    /// What comes next after `results`, if the request can be understood so far; leaves the request
    /// and the session as they are if it cannot.
    pub fn try_next_command(
        &mut self,
        input: &mut String,
        results: &Vec<(Command, CommandResult)>,
    ) -> (next: Option<Next>)
        ensures
            next is Some <==> is_step_defined(old(self)@, old(input)@, results_view(results@)),
            match next {
                Some(next) => exists|request: u128|
                    #![trigger is_request_number(request)]
                    is_request_number(request) && (Step {
                        next: next@,
                        input: final(input)@,
                        session: final(self)@,
                    }) == next_step(old(self)@, old(input)@, results_view(results@), request),
                None => final(input)@ == old(input)@ && final(self)@ == old(self)@,
            },
    {
        if self.is_step_defined(input.as_str(), results) {
            Some(self.next_command(input, results))
        } else {
            None
        }
    }
}

} // verus!
