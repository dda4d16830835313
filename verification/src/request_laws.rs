//! What a client gets for its request: from the text of the request to what the platform is asked
//! for, and from what the platform reports to the reply.

use vstd::prelude::*;

use crate::bt_uuid::{
    expanded, lemma_expanded_bytes, lemma_key_is_value, lemma_of_bytes, lemma_shorten_round_trip,
    lemma_uuid_identity, shortened, uuid_text, Uuid,
};
use crate::byte_slices::{
    be_value, byte_span, le_bytes, lemma_byte_span_is_power, lemma_le_bytes_value, replaced,
    selected, ByteRange, U128_SIZE,
};
use crate::central::{CentralEvent, Characteristic, Peripheral, Service};
use crate::commands::{Action, Command, CommandResult, EventMatchResult, Execution};
use crate::daemon_state::{listing_view, Advertisement, AdvertisementView, DaemonStateView};
use crate::device_laws::{
    is_first_with_part, lemma_characteristic_search, lemma_read_gives_reported_bytes,
    lemma_service_search, lemma_write_asks_for_given_bytes, runs,
};
use crate::hexadecimal::{
    hex_bytes, hex_text, hex_value, is_hex, lemma_hex_bytes_digits, lemma_hex_round_trip,
};
use crate::input_token::{behind_token, first_token, is_name_char, is_readable, TokenView};
use crate::session::{
    changed, is_step_defined, next_step, number_of, results_view, uptime_text, wanted_service,
    Change, Next, SessionView, Step,
};
use crate::session_laws::lemma_number_of_bytes;
use crate::text::{
    all_ascii_digits, decimal, decimal_text, joined, lemma_decimal_round_trip,
    lemma_no_leading_zero,
};
use crate::token_laws::{is_name, lemma_path, lemma_plain_address};

verus! {

/// After `results`, the session `before` goes on with `next` for a request of which `input` is left;
/// then `rest` is left of it, and the session is `after`.
pub open spec fn goes_on(
    before: SessionView,
    input: Seq<char>,
    results: Seq<(Command, CommandResult)>,
    request: u128,
    next: Next,
    rest: Seq<char>,
    after: SessionView,
) -> bool {
    (Step { next: next@, input: rest, session: after }) == next_step(
        before,
        input,
        results_view(results),
        request,
    )
}

/// The byte that the `i`th pair of hexadecimal digits denotes.
pub open spec fn byte_at(digits: Seq<char>, i: int) -> nat {
    hex_value(digits[2 * i]).unwrap() * 16 + hex_value(digits[2 * i + 1]).unwrap()
}

/// `digits` is the hexadecimal notation of `bytes`: two digits for each byte, in their order.
pub open spec fn spells(digits: Seq<char>, bytes: Seq<u8>) -> bool {
    &&& digits.len() == 2 * bytes.len()
    &&& forall|i: int|
        0 <= i < bytes.len() ==> hex_value(digits[2 * i]) is Some && hex_value(
            digits[2 * i + 1],
        ) is Some && #[trigger] bytes[i] as nat == byte_at(digits, i)
}

/// The last command of a request and its result.
proof fn lemma_last_result(results: Seq<(Command, CommandResult)>)
    requires
        results.len() > 0,
    ensures
        results_view(results).len() > 0,
        results_view(results).last() == (results.last().0@, results.last().1@),
{
}

/// Hexadecimal notation denotes the bytes that it spells.
proof fn lemma_spells(digits: Seq<char>, bytes: Seq<u8>)
    ensures
        spells(digits, bytes) ==> is_hex(digits) && hex_bytes(digits) == bytes,
        is_hex(digits) ==> spells(digits, hex_bytes(digits)),
        spells(hex_text(bytes), bytes),
{
    assert forall|text: Seq<char>| #[trigger] is_hex(text) implies spells(text, hex_bytes(text)) by {
        assert forall|i: int| 0 <= i < hex_bytes(text).len() implies hex_value(
            text[2 * i],
        ) is Some && hex_value(text[2 * i + 1]) is Some && #[trigger] hex_bytes(text)[i] as nat
            == byte_at(text, i) by {
            lemma_hex_bytes_digits(text, i);
        }
    }
    lemma_hex_round_trip(bytes);
    if spells(digits, bytes) {
        assert forall|k: int| 0 <= k < digits.len() implies hex_value(#[trigger] digits[k])
            is Some by {
            let i = k / 2;
            assert(bytes[i] as nat == byte_at(digits, i));
            assert(k == 2 * i || k == 2 * i + 1);
        }
        assert forall|i: int| 0 <= i < bytes.len() implies hex_bytes(digits)[i] == bytes[i] by {
            assert(bytes[i] as nat == byte_at(digits, i));
            lemma_hex_bytes_digits(digits, i);
        }
        assert(hex_bytes(digits) =~= bytes);
    }
}

/// Hexadecimal digits can stand in a name, and do not start anything but an address.
proof fn lemma_hex_is_name(digits: Seq<char>)
    requires
        is_hex(digits),
        digits.len() > 0,
    ensures
        is_name(digits),
        digits[0] != '!' && digits[0] != '+' && digits[0] != '-',
        digits != "status"@,
        digits != "peripherals"@,
{
    reveal_strlit("status");
    reveal_strlit("peripherals");
    assert(hex_value(digits[0]) is Some);
    assert forall|i: int| 0 <= i < digits.len() implies is_name_char(
        #[trigger] digits[i],
    ) by {
        assert(hex_value(digits[i]) is Some);
    }
}

/// A request that starts with the notation of two, four or sixteen bytes becomes a search for the
/// service that these bytes stand for: sixteen bytes are its identifier, and fewer stand at its start
/// in the base identifier `00000000-0000-1000-8000-00805f9b34fb`.
pub proof fn lemma_service_is_searched(
    before: SessionView,
    input: Seq<char>,
    request: u128,
    next: Next,
    rest: Seq<char>,
    after: SessionView,
    name: Seq<char>,
    range: Option<ByteRange>,
    bytes: Seq<u8>,
)
    requires
        is_readable(input),
        first_token(input) == TokenView::Address(name, range),
        spells(name, bytes),
        bytes.len() == 2 || bytes.len() == 4 || bytes.len() == 16,
        goes_on(before, input, Seq::empty(), request, next, rest, after),
    ensures
        is_step_defined(before, input, results_view(Seq::empty())),
        next matches Next::Command(Command::FindPeripheralByService(uuid)) && {
            &&& uuid@.len() == 16
            &&& bytes.len() == 16 ==> uuid@ == bytes
            &&& bytes.len() == 4 ==> uuid@.take(4) == bytes
            &&& bytes.len() == 2 ==> uuid@.take(4) == seq![0u8, 0u8] + bytes
            &&& bytes.len() < 16 ==> uuid@.skip(4) == seq![
                0u8, 0, 0x10, 0, 0x80, 0, 0, 0x80, 0x5f, 0x9b, 0x34, 0xfb,
            ]
        },
        rest == behind_token(input),
        after == before,
{
    lemma_spells(name, bytes);
    lemma_hex_is_name(name);
    assert(results_view(Seq::empty()) =~= Seq::empty());
    lemma_expanded_bytes(bytes);
    let all = expanded(bytes);
    assert(all.len() == 16);
    lemma_of_bytes(all);
    if bytes.len() == 2 {
        assert(all.take(4) =~= seq![0u8, 0u8] + bytes);
        lemma_expanded_bytes(seq![0u8, 0u8] + bytes);
        assert(all.skip(4) =~= seq![
            0u8, 0, 0x10, 0, 0x80, 0, 0, 0x80, 0x5f, 0x9b, 0x34, 0xfb,
        ]);
    } else if bytes.len() == 4 {
        assert(all.take(4) =~= bytes);
        assert(all.skip(4) =~= seq![
            0u8, 0, 0x10, 0, 0x80, 0, 0, 0x80, 0x5f, 0x9b, 0x34, 0xfb,
        ]);
    }
}

/// A request that starts with the notation of an identifier, in full or in its shortest form, becomes
/// a search for that identifier.
pub proof fn lemma_identifier_is_searched(
    before: SessionView,
    input: Seq<char>,
    request: u128,
    next: Next,
    rest: Seq<char>,
    after: SessionView,
    name: Seq<char>,
    range: Option<ByteRange>,
    id: Uuid,
)
    requires
        is_readable(input),
        first_token(input) == TokenView::Address(name, range),
        spells(name, id@) || spells(name, shortened(id@)),
        goes_on(before, input, Seq::empty(), request, next, rest, after),
    ensures
        next == Next::Command(Command::FindPeripheralByService(id)),
{
    lemma_key_is_value(id);
    lemma_shorten_round_trip(id);
    let bytes = if spells(name, id@) {
        id@
    } else {
        shortened(id@)
    };
    lemma_spells(name, bytes);
    lemma_hex_is_name(name);
    lemma_expanded_bytes(bytes);
    assert(results_view(Seq::empty()) =~= Seq::empty());
    assert(expanded(bytes) == id@);
    lemma_of_bytes(id@);
    lemma_uuid_identity(Uuid::of_bytes(id@), id);
}

/// Two words ask for the status and for the connected devices, whatever range follows them; nothing
/// else does. A request without an address is told to be empty.
pub proof fn lemma_first_words(
    before: SessionView,
    input: Seq<char>,
    request: u128,
    next: Next,
    rest: Seq<char>,
    after: SessionView,
)
    requires
        goes_on(before, input, Seq::empty(), request, next, rest, after),
    ensures
        match first_token(input) {
            TokenView::Address(name, _) => {
                &&& next == Next::Command(Command::GetStatus) <==> name == "status"@
                &&& next == Next::Command(Command::ListPeripherals) <==> name == "peripherals"@
                &&& next is Command
            },
            _ => next matches Next::Reply(text) && text@ == "empty input"@,
        },
        rest == behind_token(input),
        after == before,
{
    assert(results_view(Seq::empty()) =~= Seq::empty());
    reveal_strlit("status");
    reveal_strlit("peripherals");
    assert("status"@.len() != "peripherals"@.len());
}

/// Which first tokens can be understood: the two words, the notation of two, four or sixteen bytes,
/// and whatever is no address.
pub proof fn lemma_first_token_is_understood(session: SessionView, input: Seq<char>)
    requires
        is_readable(input),
    ensures
        is_step_defined(session, input, results_view(Seq::empty())) <==> match first_token(input) {
            TokenView::Address(name, _) => name == "status"@ || name == "peripherals"@ || exists|
                bytes: Seq<u8>,
            | #[trigger]
                spells(name, bytes) && (bytes.len() == 2 || bytes.len() == 4 || bytes.len() == 16),
            _ => true,
        },
{
    assert(results_view(Seq::empty()) =~= Seq::empty());
    if let TokenView::Address(name, _) = first_token(input) {
        lemma_spells(name, hex_bytes(name));
        assert forall|bytes: Seq<u8>| #[trigger] spells(name, bytes) implies is_hex(name)
            && hex_bytes(name) == bytes by {
            lemma_spells(name, bytes);
        }
    }
}

/// A device that was found is connected to, and where none was, the client is told so; nothing is
/// taken off the request.
pub proof fn lemma_found_device(
    before: SessionView,
    input: Seq<char>,
    results: Seq<(Command, CommandResult)>,
    request: u128,
    next: Next,
    rest: Seq<char>,
    after: SessionView,
    found: Option<Peripheral>,
)
    requires
        results.len() > 0,
        results.last().1 == CommandResult::FindPeripheral(found),
        goes_on(before, input, results, request, next, rest, after),
    ensures
        is_step_defined(before, input, results_view(results)),
        match found {
            Some(peripheral) => next == Next::Command(Command::ConnectToPeripheral(peripheral)),
            None => next matches Next::Reply(text) && text@ == "peripheral match not found"@,
        },
        rest == input,
        after == before,
{
    lemma_last_result(results);
}

/// The name behind a device, all of it, is looked for among the services of that device; the first
/// service that the platform reports for the device and whose identifier has the name in its notation
/// is the result.
#[verifier::spinoff_prover]
#[verifier::rlimit(40)]
pub proof fn lemma_name_finds_service(
    before: SessionView,
    input: Seq<char>,
    results: Seq<(Command, CommandResult)>,
    request: u128,
    next: Next,
    rest: Seq<char>,
    after: SessionView,
    peripheral: Peripheral,
    name: Seq<char>,
    range: Option<ByteRange>,
    state: DaemonStateView,
    execution: Execution,
    action: Option<Action>,
    reporting: Peripheral,
    services: Vec<Service>,
    outcome: EventMatchResult,
)
    requires
        results.len() > 0,
        results.last().1 == CommandResult::ConnectToPeripheral(peripheral),
        input.len() > 0,
        is_readable(input),
        first_token(input) == TokenView::Address(name, range),
        goes_on(before, input, results, request, next, rest, after),
        reporting.id == peripheral.id,
        runs(
            next->Command_0,
            state,
            execution,
            action,
            CentralEvent::ServicesDiscovered { peripheral: reporting, services: Ok(services) },
            outcome,
        ),
    ensures
        is_step_defined(before, input, results_view(results)),
        next matches Next::Command(Command::FindService(p, text)) && p == peripheral && text@
            == name,
        action == Some(Action::DiscoverServices(peripheral)),
        outcome matches EventMatchResult::Result(CommandResult::FindService(from, found)) && from
            == reporting && is_first_with_part(found, services@, name),
        rest == behind_token(input),
        after == before,
{
    lemma_last_result(results);
    if let Next::Command(Command::FindService(p, text)) = next {
        let event = CentralEvent::ServicesDiscovered {
            peripheral: reporting,
            services: Ok(services),
        };
        lemma_service_search(p, text, state, execution, action, event, outcome);
    }
}

/// The name behind a service, all of it, is looked for among the characteristics of that service of
/// the device; the first characteristic that the platform reports for them and whose identifier has
/// the name in its notation is the result. The range of the name is remembered under the number of
/// the search.
#[verifier::spinoff_prover]
#[verifier::rlimit(40)]
pub proof fn lemma_name_finds_characteristic(
    before: SessionView,
    input: Seq<char>,
    results: Seq<(Command, CommandResult)>,
    request: u128,
    next: Next,
    rest: Seq<char>,
    after: SessionView,
    peripheral: Peripheral,
    service: Service,
    name: Seq<char>,
    range: Option<ByteRange>,
    state: DaemonStateView,
    execution: Execution,
    action: Option<Action>,
    reporting: Peripheral,
    reported: Service,
    characteristics: Vec<Characteristic>,
    outcome: EventMatchResult,
)
    requires
        results.len() > 0,
        results.last().1 == CommandResult::FindService(peripheral, Some(service)),
        is_readable(input),
        first_token(input) == TokenView::Address(name, range),
        goes_on(before, input, results, request, next, rest, after),
        reporting.id == peripheral.id,
        reported.id == service.id,
        runs(
            next->Command_0,
            state,
            execution,
            action,
            CentralEvent::CharacteristicsDiscovered {
                peripheral: reporting,
                service: reported,
                characteristics: Ok(characteristics),
            },
            outcome,
        ),
    ensures
        is_step_defined(before, input, results_view(results)),
        next matches Next::Command(Command::FindCharacteristic(p, s, text, number)) && p
            == peripheral && s == service && text@ == name && number == request,
        action == Some(Action::DiscoverCharacteristics(peripheral, service)),
        outcome matches EventMatchResult::Result(CommandResult::FindCharacteristic(from, found))
            && from == reporting && is_first_with_part(found, characteristics@, name),
        rest == behind_token(input),
        after.ranges == before.ranges,
        after.pending_changes == before.pending_changes,
        match range {
            Some(wanted) => after.pending_ranges == before.pending_ranges.insert(request, wanted),
            None => after.pending_ranges == before.pending_ranges,
        },
{
    lemma_last_result(results);
    if let Next::Command(Command::FindCharacteristic(p, s, text, number)) = next {
        let event = CentralEvent::CharacteristicsDiscovered {
            peripheral: reporting,
            service: reported,
            characteristics: Ok(characteristics),
        };
        lemma_characteristic_search(p, s, text, number, state, execution, action, event, outcome);
    }
}

/// What a client is told about a device that the request ends with: the identifier of the device,
/// and the service, in its shortest form, that the first search of the request was for, if there was
/// one.
pub proof fn lemma_device_reply(
    before: SessionView,
    results: Seq<(Command, CommandResult)>,
    request: u128,
    next: Next,
    rest: Seq<char>,
    after: SessionView,
    peripheral: Peripheral,
    searched: Option<Uuid>,
)
    requires
        results.len() > 0,
        results.last().1 == CommandResult::ConnectToPeripheral(peripheral),
        match searched {
            Some(uuid) => exists|i: int|
                {
                    &&& 0 <= i < results.len()
                    &&& (#[trigger] results[i]).0 == Command::FindPeripheralByService(uuid)
                    &&& forall|k: int|
                        0 <= k < i ==> !((#[trigger] results[k]).0 is FindPeripheralByService)
                },
            None => forall|k: int|
                0 <= k < results.len() ==> !((#[trigger] results[k]).0 is FindPeripheralByService),
        },
        goes_on(before, Seq::empty(), results, request, next, rest, after),
    ensures
        is_step_defined(before, Seq::empty(), results_view(results)),
        next matches Next::Reply(text) && match searched {
            Some(uuid) => text@ == "peripheral ["@ + uuid_text(peripheral.id@)
                + "] by service UUID ["@ + hex_text(shortened(uuid@)) + "]"@,
            None => text@ == "peripheral ["@ + uuid_text(peripheral.id@) + "] "@,
        },
        rest == Seq::<char>::empty(),
        after == before,
{
    lemma_last_result(results);
    let all = results_view(results);
    match searched {
        Some(uuid) => {
            let i = choose|i: int|
                {
                    &&& 0 <= i < results.len()
                    &&& (#[trigger] results[i]).0 == Command::FindPeripheralByService(uuid)
                    &&& forall|k: int|
                        0 <= k < i ==> !((#[trigger] results[k]).0 is FindPeripheralByService)
                };
            lemma_first_search(results, i);
            assert(all.skip(i)[0].0 == results[i].0@);
        },
        None => {
            lemma_first_search(results, results.len() as int);
            assert(all.skip(results.len() as int) =~= Seq::empty());
        },
    }
    reveal_strlit("] ");
    reveal_strlit("by service UUID [");
    reveal_strlit("] by service UUID [");
    reveal_strlit("");
    assert("] "@ + "by service UUID ["@ =~= "] by service UUID ["@);
    if let Next::Reply(text) = next {
        match searched {
            Some(uuid) => {
                assert(text@ =~= "peripheral ["@ + uuid_text(peripheral.id@)
                    + "] by service UUID ["@ + hex_text(shortened(uuid@)) + "]"@);
            },
            None => {
                assert(text@ =~= "peripheral ["@ + uuid_text(peripheral.id@) + "] "@);
            },
        }
    }
}

/// Commands that search for no device make no difference to which service was searched for first.
proof fn lemma_first_search(results: Seq<(Command, CommandResult)>, n: int)
    requires
        0 <= n <= results.len(),
        forall|k: int| 0 <= k < n ==> !((#[trigger] results[k]).0 is FindPeripheralByService),
    ensures
        wanted_service(results_view(results)) == wanted_service(
            results_view(results).skip(n),
        ),
    decreases n,
{
    let all = results_view(results);
    if n == 0 {
        assert(all.skip(0) =~= all);
    } else {
        lemma_first_search(results, n - 1);
        assert(!(results[n - 1].0 is FindPeripheralByService));
        assert(all.skip(n - 1)[0].0 == results[n - 1].0@);
        assert(all.skip(n - 1).skip(1) =~= all.skip(n));
    }
}

/// What a client is told where its request goes no further: that something was found, or that it was
/// not, or that reading has failed.
pub proof fn lemma_plain_replies(
    before: SessionView,
    input: Seq<char>,
    results: Seq<(Command, CommandResult)>,
    request: u128,
    next: Next,
    rest: Seq<char>,
    after: SessionView,
)
    requires
        results.len() > 0,
        goes_on(before, input, results, request, next, rest, after),
    ensures
        match results.last().1 {
            CommandResult::ConnectToPeripheral(_) => input.len() > 0 && !(first_token(input)
                is Address) ==> (next matches Next::Reply(text) && text@
                == "connected to peripheral"@) && after == before && rest == behind_token(input),
            CommandResult::FindService(_, Some(service)) => !(first_token(input) is Address) ==> (
            next matches Next::Reply(text) && text@ == "service found: "@ + service.description@)
                && after == before && rest == behind_token(input),
            CommandResult::FindService(_, None) => (next matches Next::Reply(text) && text@
                == "service not found"@) && after == before && rest == input,
            CommandResult::FindCharacteristic(_, None) => (next matches Next::Reply(text) && text@
                == "characteristic not found"@) && after == before && rest == input,
            CommandResult::ReadCharacteristic(_, _, None) => (next matches Next::Reply(text)
                && text@ == "characteristic read failed"@) && after == before && rest == input,
            CommandResult::WriteCharacteristic(_, _, Ok(_)) => (next matches Next::Reply(text)
                && text@ == "Ok(())"@) && after == before && rest == input,
            CommandResult::WriteCharacteristic(_, _, Err(error)) => (next matches Next::Reply(text)
                && text@ == "Err("@ + error.description@ + ")"@) && after == before && rest
                == input,
            _ => true,
        },
{
    lemma_last_result(results);
}

/// Which requests can be understood after a result: those whose next token can be read, and is the
/// notation of bytes if it is an address behind a characteristic; those whose range lies inside of
/// the value that was read; and all that are not looked at any further.
pub proof fn lemma_what_is_understood(
    session: SessionView,
    input: Seq<char>,
    results: Seq<(Command, CommandResult)>,
)
    requires
        results.len() > 0,
    ensures
        is_step_defined(session, input, results_view(results)) <==> match results.last().1 {
            CommandResult::ConnectToPeripheral(_) => input.len() == 0 || is_readable(input),
            CommandResult::FindService(_, Some(_)) => is_readable(input),
            CommandResult::FindCharacteristic(_, Some(_)) => {
                &&& results.last().0 is FindCharacteristic
                &&& is_readable(input)
                &&& first_token(input) matches TokenView::Address(name, _) ==> exists|
                    bytes: Seq<u8>,
                | #[trigger] spells(name, bytes)
            },
            CommandResult::ReadCharacteristic(_, characteristic, Some(value)) => {
                let key = characteristic.id.spec_key();
                session.ranges.contains_key(key) ==> match session.ranges[key] {
                    (Some(first), Some(last)) => first <= last <= value@.len(),
                    (Some(first), None) => first <= value@.len(),
                    (None, Some(last)) => last <= value@.len(),
                    (None, None) => true,
                }
            },
            _ => true,
        },
{
    lemma_last_result(results);
    if let TokenView::Address(name, _) = first_token(input) {
        lemma_spells(name, hex_bytes(name));
        assert forall|bytes: Seq<u8>| #[trigger] spells(name, bytes) implies is_hex(name) by {
            lemma_spells(name, bytes);
        }
    }
}

/// Bytes in hexadecimal notation at the end of a request, behind a characteristic without a range,
/// are written to it: the platform is asked to write exactly these bytes, in their order, to that
/// characteristic of that device.
#[verifier::spinoff_prover]
#[verifier::rlimit(40)]
pub proof fn lemma_bytes_are_written(
    before: SessionView,
    digits: Seq<char>,
    input: Seq<char>,
    tail: Seq<char>,
    results: Seq<(Command, CommandResult)>,
    request: u128,
    next: Next,
    rest: Seq<char>,
    after: SessionView,
    peripheral: Peripheral,
    searched: (Peripheral, Service, String, u128),
    characteristic: Characteristic,
    bytes: Seq<u8>,
    state: DaemonStateView,
    execution: Execution,
    action: Option<Action>,
    event: CentralEvent,
    outcome: EventMatchResult,
)
    requires
        results.len() > 0,
        results.last() == (
            Command::FindCharacteristic(searched.0, searched.1, searched.2, searched.3),
            CommandResult::FindCharacteristic(peripheral, Some(characteristic)),
        ),
        !before.pending_ranges.contains_key(searched.3),
        bytes.len() > 0,
        spells(digits, bytes),
        input == digits && tail.len() == 0 || input == digits + seq!['/'] + tail,
        goes_on(before, input, results, request, next, rest, after),
        runs(next->Command_0, state, execution, action, event, outcome),
    ensures
        is_step_defined(before, input, results_view(results)),
        next is Command,
        action matches Some(Action::WriteCharacteristic(p, c, data)) && p == peripheral && c
            == characteristic && data@ == bytes,
        rest == tail,
        after == before,
{
    lemma_last_result(results);
    lemma_spells(digits, bytes);
    lemma_hex_is_name(digits);
    lemma_path(digits, tail);
    lemma_plain_address(digits);
    assert(first_token(input) == TokenView::Address(digits, None));
    assert(is_readable(input));
    assert(rest =~= tail);
    assert(before.pending_ranges.remove(searched.3) =~= before.pending_ranges);
    if let Next::Command(Command::WriteCharacteristic(p, c, data)) = next {
        lemma_write_asks_for_given_bytes(
            p,
            c,
            data,
            state,
            execution,
            action,
            event,
            outcome,
        );
        if let Some(Action::WriteCharacteristic(_, _, asked)) = action {
            assert(asked@ =~= data@);
        }
    }
}

/// What the client asks to be done with a characteristic that was found. Without a change its value
/// is read; a negation, an addition, or bytes for a range are remembered under the characteristic,
/// and its value is read first. The range moves from the number of the search to the characteristic.
/// What is remembered for others stays.
#[verifier::spinoff_prover]
#[verifier::rlimit(40)]
pub proof fn lemma_change_is_remembered(
    before: SessionView,
    input: Seq<char>,
    results: Seq<(Command, CommandResult)>,
    request: u128,
    next: Next,
    rest: Seq<char>,
    after: SessionView,
    peripheral: Peripheral,
    searched: (Peripheral, Service, String, u128),
    characteristic: Characteristic,
    other: u128,
)
    requires
        results.len() > 0,
        results.last() == (
            Command::FindCharacteristic(searched.0, searched.1, searched.2, searched.3),
            CommandResult::FindCharacteristic(peripheral, Some(characteristic)),
        ),
        goes_on(before, input, results, request, next, rest, after),
    ensures
        ({
            let key = characteristic.id.spec_key();
            let has_range = before.pending_ranges.contains_key(searched.3);
            let reads = next == Next::Command(
                Command::ReadCharacteristic(peripheral, characteristic),
            );
            let changes = after.pending_changes;
            &&& rest == behind_token(input)
            &&& !after.pending_ranges.contains_key(searched.3)
            &&& other != searched.3 ==> after.pending_ranges.contains_key(other)
                == before.pending_ranges.contains_key(other) && after.pending_ranges[other]
                == before.pending_ranges[other]
            &&& has_range ==> after.ranges.contains_key(key) && after.ranges[key]
                == before.pending_ranges[searched.3]
            &&& other != key || !has_range ==> after.ranges.contains_key(other)
                == before.ranges.contains_key(other) && after.ranges[other] == before.ranges[other]
            &&& other != key ==> changes.contains_key(other)
                == before.pending_changes.contains_key(other) && changes[other]
                == before.pending_changes[other]
            &&& match first_token(input) {
                TokenView::Negation => reads && changes.contains_key(key) && changes[key]
                    == Change::Negate,
                TokenView::Addition(delta, min, max) => reads && changes.contains_key(key)
                    && changes[key] == Change::Add(delta, min, max),
                TokenView::Nothing => reads && changes == before.pending_changes,
                TokenView::Address(name, _) => if has_range {
                    &&& reads
                    &&& changes.contains_key(key)
                    &&& changes[key] matches Change::Put(number) && forall|bytes: Seq<u8>|
                        #[trigger]
                        spells(name, bytes) ==> number as nat == be_value(
                            if bytes.len() <= 16 {
                                bytes
                            } else {
                                bytes.skip(bytes.len() - 16)
                            },
                        )
                } else {
                    &&& changes == before.pending_changes
                    &&& next matches Next::Command(Command::WriteCharacteristic(p, c, data)) && p
                        == peripheral && c == characteristic && forall|bytes: Seq<u8>| #[trigger]
                        spells(name, bytes) ==> data@ == bytes
                },
            }
        }),
{
    lemma_last_result(results);
    if let TokenView::Address(name, _) = first_token(input) {
        assert forall|bytes: Seq<u8>| #[trigger] spells(name, bytes) implies hex_bytes(name)
            == bytes && number_of(bytes) as nat == be_value(
            if bytes.len() <= 16 {
                bytes
            } else {
                bytes.skip(bytes.len() - 16)
            },
        ) by {
            lemma_spells(name, bytes);
            lemma_number_of_bytes(bytes);
        }
    }
}

/// The first byte and the end of the part of a value of `len` bytes that `range` selects: where a
/// number is left out, it is the start or the end of the value.
pub open spec fn is_part(range: Option<ByteRange>, len: nat, first: int, last: int) -> bool {
    &&& match range {
        Some((Some(start), _)) => first == start,
        _ => first == 0,
    }
    &&& match range {
        Some((_, Some(end))) => last == end,
        _ => last == len,
    }
    &&& first <= last <= len
}

/// The range that is remembered for a characteristic.
pub open spec fn range_for(session: SessionView, characteristic: Characteristic) -> Option<
    ByteRange,
> {
    if session.ranges.contains_key(characteristic.id.spec_key()) {
        Some(session.ranges[characteristic.id.spec_key()])
    } else {
        None
    }
}

/// A value that was read, without a change that waits for it, is replied in hexadecimal notation, all
/// of it or the part of it in the range.
#[verifier::spinoff_prover]
#[verifier::rlimit(40)]
pub proof fn lemma_value_is_replied(
    before: SessionView,
    input: Seq<char>,
    results: Seq<(Command, CommandResult)>,
    request: u128,
    next: Next,
    rest: Seq<char>,
    after: SessionView,
    peripheral: Peripheral,
    characteristic: Characteristic,
    value: Vec<u8>,
    first: int,
    last: int,
)
    requires
        results.len() > 0,
        results.last().1 == CommandResult::ReadCharacteristic(
            peripheral,
            characteristic,
            Some(value),
        ),
        !before.pending_changes.contains_key(characteristic.id.spec_key()),
        is_part(range_for(before, characteristic), value@.len(), first, last),
        goes_on(before, input, results, request, next, rest, after),
    ensures
        is_step_defined(before, input, results_view(results)),
        next matches Next::Reply(text) && spells(text@, value@.subrange(first, last)),
        rest == input,
{
    lemma_last_result(results);
    let part = selected(value@, range_for(before, characteristic));
    assert(part =~= value@.subrange(first, last));
    lemma_spells(hex_text(part), part);
}

/// A value that the platform reports for the device and the characteristic that are read is replied
/// in hexadecimal notation, all of it or the part of it in the range: as many bytes, and each of them
/// as it was reported.
#[verifier::spinoff_prover]
#[verifier::rlimit(40)]
pub proof fn lemma_reported_bytes_are_replied(
    before: SessionView,
    input: Seq<char>,
    results: Seq<(Command, CommandResult)>,
    request: u128,
    next: Next,
    rest: Seq<char>,
    after: SessionView,
    wanted: Peripheral,
    sought: Characteristic,
    peripheral: Peripheral,
    characteristic: Characteristic,
    value: Vec<u8>,
    state: DaemonStateView,
    execution: Execution,
    action: Option<Action>,
    outcome: EventMatchResult,
    first: int,
    last: int,
)
    requires
        peripheral.id == wanted.id,
        characteristic.id == sought.id,
        runs(
            Command::ReadCharacteristic(wanted, sought),
            state,
            execution,
            action,
            CentralEvent::CharacteristicValue { peripheral, characteristic, value: Ok(value) },
            outcome,
        ),
        results.len() > 0,
        outcome == EventMatchResult::Result(results.last().1),
        !before.pending_changes.contains_key(characteristic.id.spec_key()),
        is_part(range_for(before, characteristic), value@.len(), first, last),
        goes_on(before, input, results, request, next, rest, after),
    ensures
        is_step_defined(before, input, results_view(results)),
        next matches Next::Reply(text) && spells(text@, value@.subrange(first, last)),
        rest == input,
{
    let event = CentralEvent::CharacteristicValue { peripheral, characteristic, value: Ok(value) };
    lemma_read_gives_reported_bytes(wanted, sought, state, execution, action, event, outcome);
    if let CommandResult::ReadCharacteristic(_, _, Some(read)) = results.last().1 {
        assert(read@ =~= value@);
        lemma_value_is_replied(
            before,
            input,
            results,
            request,
            next,
            rest,
            after,
            peripheral,
            characteristic,
            read,
            first,
            last,
        );
    }
}

/// A value with a pending change is written back to the device and the characteristic that it was
/// read from. Its bytes outside of the range stay. The number that the change makes of the bytes in
/// the range, read with the most significant byte first, has sixteen bytes; as many of them as the
/// range has, the most significant ones, are written to it with the least significant byte first, and
/// zeros in front of them where the range has more. Then neither range nor change is remembered.
#[verifier::spinoff_prover]
#[verifier::rlimit(40)]
pub proof fn lemma_changed_value_is_written_back(
    before: SessionView,
    input: Seq<char>,
    results: Seq<(Command, CommandResult)>,
    request: u128,
    next: Next,
    rest: Seq<char>,
    after: SessionView,
    peripheral: Peripheral,
    characteristic: Characteristic,
    value: Vec<u8>,
    first: int,
    last: int,
    i: int,
)
    requires
        results.len() > 0,
        results.last().1 == CommandResult::ReadCharacteristic(
            peripheral,
            characteristic,
            Some(value),
        ),
        before.pending_changes.contains_key(characteristic.id.spec_key()),
        is_part(range_for(before, characteristic), value@.len(), first, last),
        goes_on(before, input, results, request, next, rest, after),
    ensures
        is_step_defined(before, input, results_view(results)),
        next matches Next::Command(Command::WriteCharacteristic(p, c, data)) && {
            let change = before.pending_changes[characteristic.id.spec_key()];
            let number = changed(change, number_of(value@.subrange(first, last)));
            let written = data@.subrange(first, last);
            let width = last - first;
            &&& p == peripheral
            &&& c == characteristic
            &&& data@.len() == value@.len()
            &&& 0 <= i < first || last <= i < value@.len() ==> data@[i] == value@[i]
            &&& width <= 16 ==> be_value(written.reverse()) == number as nat / byte_span(
                (16 - width) as nat,
            )
            &&& width > 16 ==> be_value(written.skip(width - 16).reverse()) == number as nat
            &&& 0 <= i < width - 16 ==> written[i] == 0
        },
        rest == input,
        !after.ranges.contains_key(characteristic.id.spec_key()),
        !after.pending_changes.contains_key(characteristic.id.spec_key()),
{
    lemma_last_result(results);
    let range = range_for(before, characteristic);
    let part = selected(value@, range);
    assert(part =~= value@.subrange(first, last));
    let key = characteristic.id.spec_key();
    let number = changed(before.pending_changes[key], number_of(part)) as nat;
    let bytes = le_bytes(number, U128_SIZE as nat);
    lemma_le_bytes_value(number, U128_SIZE as nat);
    lemma_byte_span_16();
    vstd::arithmetic::div_mod::lemma_small_mod(number, byte_span(16));
    let data = replaced(value@, bytes, range);
    let width = last - first;
    let written = data.subrange(first, last);
    if width <= 16 {
        assert(written =~= bytes.skip(16 - width));
        lemma_le_bytes_skip(number, 16, (16 - width) as nat);
        let high = number / byte_span((16 - width) as nat);
        lemma_le_bytes_value(high, width as nat);
        lemma_quotient_fits(number, (16 - width) as nat);
    } else {
        assert(written.skip(width - 16) =~= bytes);
    }
}

proof fn lemma_byte_span_16()
    ensures
        byte_span(16) == u128::MAX + 1,
{
    reveal_with_fuel(byte_span, 17);
}

/// Without its least significant bytes, a number is what is left of it after a division.
proof fn lemma_le_bytes_skip(value: nat, size: nat, n: nat)
    requires
        n <= size,
    ensures
        le_bytes(value, size).skip(n as int) == le_bytes(value / byte_span(n), (size - n) as nat),
    decreases n,
{
    let all = le_bytes(value, size);
    lemma_le_bytes_value(value, size);
    if n == 0 {
        assert(all.skip(0) =~= all);
        assert(byte_span(0) == 1);
        assert(value / 1 == value);
    } else {
        let less = (n - 1) as nat;
        let tail = le_bytes(value / 256, (size - 1) as nat);
        lemma_le_bytes_skip(value / 256, (size - 1) as nat, less);
        assert(all.skip(n as int) =~= tail.skip(less as int));
        lemma_byte_span_is_power(less);
        vstd::arithmetic::power::lemma_pow_positive(256, less);
        vstd::arithmetic::div_mod::lemma_div_denominator(
            value as int,
            256,
            byte_span(less) as int,
        );
        assert(byte_span(n) == 256 * byte_span(less));
    }
}

/// What is left of a number of sixteen bytes without the `n` least significant ones fits into the
/// others.
proof fn lemma_quotient_fits(value: nat, n: nat)
    requires
        n <= 16,
        value < byte_span(16),
    ensures
        (value / byte_span(n)) % byte_span((16 - n) as nat) == value / byte_span(n),
{
    let low = byte_span(n);
    let high = byte_span((16 - n) as nat);
    lemma_byte_span_is_power(n);
    lemma_byte_span_is_power((16 - n) as nat);
    lemma_byte_span_is_power(16);
    vstd::arithmetic::power::lemma_pow_positive(256, n);
    vstd::arithmetic::power::lemma_pow_adds(256, n, (16 - n) as nat);
    assert(value / low < high) by (nonlinear_arith)
        requires
            value < low * high,
            low > 0,
    ;
    vstd::arithmetic::div_mod::lemma_small_mod(value / low, high);
}

/// The reply to the question for the status tells how long the daemon has run and, in decimal
/// notation, how many devices are connected.
pub proof fn lemma_status_reply(
    before: SessionView,
    input: Seq<char>,
    results: Seq<(Command, CommandResult)>,
    request: u128,
    next: Next,
    rest: Seq<char>,
    after: SessionView,
    uptime: u64,
    count: Option<usize>,
)
    requires
        results.len() > 0,
        results.last().1 == CommandResult::GetStatus(uptime, count),
        goes_on(before, input, results, request, next, rest, after),
    ensures
        is_step_defined(before, input, results_view(results)),
        next matches Next::Reply(text) && match count {
            Some(n) => exists|digits: Seq<char>|
                {
                    &&& text@ == "uptime "@ + uptime_text(uptime) + ", "@ + digits
                        + " peripherals connected"@
                    &&& digits.len() > 0
                    &&& #[trigger] all_ascii_digits(digits)
                    &&& decimal(digits) == n
                    &&& digits[0] == '0' ==> n == 0 && digits.len() == 1
                },
            None => text@ == "uptime "@ + uptime_text(uptime),
        },
        rest == input,
        after == before,
{
    lemma_last_result(results);
    if let Some(n) = count {
        lemma_decimal_round_trip(n as nat);
        lemma_no_leading_zero(n as nat);
        assert(all_ascii_digits(decimal_text(n as nat)));
    }
}

/// The reply to the question for the connected devices tells, in decimal notation, how many there
/// are, and holds the description of each of them, in their order, on a line of its own.
pub proof fn lemma_list_reply(
    before: SessionView,
    input: Seq<char>,
    results: Seq<(Command, CommandResult)>,
    request: u128,
    next: Next,
    rest: Seq<char>,
    after: SessionView,
    list: Vec<(Peripheral, Advertisement)>,
    lines: Seq<Seq<char>>,
)
    requires
        results.len() > 0,
        results.last().1 == CommandResult::ListPeripherals(list),
        lines.len() == list@.len(),
        forall|i: int|
            0 <= i < lines.len() ==> #[trigger] lines[i] == list@[i].0.description@,
        goes_on(before, input, results, request, next, rest, after),
    ensures
        is_step_defined(before, input, results_view(results)),
        next matches Next::Reply(text) && exists|digits: Seq<char>|
            {
                &&& text@ == digits + " peripherals connected\n"@ + joined(lines, "\n"@)
                &&& digits.len() > 0
                &&& #[trigger] all_ascii_digits(digits)
                &&& decimal(digits) == list@.len()
                &&& digits[0] == '0' ==> list@.len() == 0 && digits.len() == 1
            },
        rest == input,
        after == before,
{
    lemma_last_result(results);
    let view = listing_view(list@);
    let shown = view.map_values(
        |entry: (Peripheral, AdvertisementView)| entry.0.description@,
    );
    assert(shown =~= lines) by {
        assert forall|i: int| 0 <= i < lines.len() implies shown[i] == lines[i] by {
            assert(view[i].0 == list@[i].0);
        }
    }
    lemma_decimal_round_trip(list@.len());
    lemma_no_leading_zero(list@.len());
    assert(all_ascii_digits(decimal_text(list@.len())));
}

} // verus!
