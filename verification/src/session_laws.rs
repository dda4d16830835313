//! What holds of every session.

use vstd::prelude::*;

use crate::byte_slices::{
    adjusted, be_value, byte_span, le_bytes, lemma_adjusted_keeps_value, lemma_be_value_bound,
    lemma_byte_span_is_power, lemma_le_bytes_value, lemma_replace_then_select, range_end,
    range_fits, range_start, selected, ByteRange, U128_SIZE,
};
use crate::central::{CentralEvent, Characteristic, Peripheral, Service};
use crate::commands::{ActionView, CommandView, ExecutionView, ResultView};
use crate::daemon_state::DaemonStateView;
use crate::event_matchers::{matched, MatchView};
use crate::hexadecimal::{hex_bytes, hex_text, is_hex, lemma_hex_round_trip};
use crate::input_token::{first_token, is_readable, TokenView};
use crate::session::{
    changed, entry_of, is_step_defined, next_step, number_of, read_next, Change, NextView,
    SessionView,
};

verus! {

/// How far a request has come with a result of this kind.
pub open spec fn result_rank(result: ResultView) -> nat {
    match result {
        ResultView::FindPeripheral(_) => 1,
        ResultView::ConnectToPeripheral(_) => 2,
        ResultView::FindService(_, _) => 3,
        ResultView::FindCharacteristic(_, _) => 4,
        ResultView::ReadCharacteristic(_, _, _) => 5,
        ResultView::WriteCharacteristic(_, _, _) => 6,
        ResultView::GetStatus(_, _) => 6,
        ResultView::ListPeripherals(_) => 6,
    }
}

/// How far a request has come once the command is answered.
pub open spec fn command_rank(command: CommandView) -> nat {
    match command {
        CommandView::FindPeripheralByService(_) => 1,
        CommandView::ConnectToPeripheral(_) => 2,
        CommandView::RegisterConnectedPeripheral(_) => 2,
        CommandView::UnregisterConnectedPeripheral(_) => 2,
        CommandView::FindService(_, _) => 3,
        CommandView::FindCharacteristic(_, _, _, _) => 4,
        CommandView::ReadCharacteristic(_, _) => 5,
        CommandView::WriteCharacteristic(_, _, _) => 6,
        CommandView::GetStatus => 6,
        CommandView::ListPeripherals => 6,
    }
}

/// Each command of a request gets further than the result before it, so no request takes more than
/// six commands.
pub proof fn lemma_request_advances(
    session: SessionView,
    input: Seq<char>,
    results: Seq<(CommandView, ResultView)>,
    request: u128,
)
    requires
        results.len() > 0,
    ensures
        next_step(session, input, results, request).next matches NextView::Command(command)
            ==> result_rank(results.last().1) < command_rank(command) <= 6,
{
}

/// A request starts with a question for the status or for the connected devices, or with a search
/// for a device.
pub proof fn lemma_request_starts(session: SessionView, input: Seq<char>, request: u128)
    ensures
        next_step(session, input, Seq::empty(), request).next matches NextView::Command(command)
            ==> command is GetStatus || command is ListPeripherals
            || command is FindPeripheralByService,
{
}

/// The daemon's answers are of the kind that a session expects: a command, the command that an event
/// puts in its place and their result get a request equally far. A characteristic in particular is
/// only ever found for a command that looks for one.
pub proof fn lemma_answers_fit(
    command: CommandView,
    state: DaemonStateView,
    uptime: u64,
    execution: ExecutionView,
    action: Option<ActionView>,
    event: CentralEvent,
)
    requires
        command.executes(state, uptime, execution, action),
    ensures
        match execution {
            ExecutionView::Result(result) => result_rank(result) == command_rank(command) && (
            result is FindCharacteristic ==> command is FindCharacteristic),
            ExecutionView::Matcher(matcher) => match matched(matcher, event) {
                MatchView::Next(next) => command_rank(next) == command_rank(command),
                MatchView::Result(result) => result_rank(result) == command_rank(command) && (
                result is FindCharacteristic ==> command is FindCharacteristic),
                MatchView::Nothing => true,
            },
            ExecutionView::Nothing => command is UnregisterConnectedPeripheral,
        },
{
}

/// After a value was read, the session waits neither for its range nor for its change, and for
/// everything else as before.
pub proof fn lemma_read_settles(
    session: SessionView,
    input: Seq<char>,
    results: Seq<(CommandView, ResultView)>,
    request: u128,
    peripheral: Peripheral,
    characteristic: Characteristic,
    value: Seq<u8>,
)
    requires
        results.len() > 0,
        results.last().1 == ResultView::ReadCharacteristic(peripheral, characteristic, Some(value)),
    ensures
        ({
            let after = next_step(session, input, results, request).session;
            let key = characteristic.id.spec_key();
            &&& !after.ranges.contains_key(key)
            &&& !after.pending_changes.contains_key(key)
            &&& after.pending_ranges == session.pending_ranges
            &&& forall|other: u128|
                other != key ==> entry_of(after.ranges, other) == entry_of(session.ranges, other)
                    && #[trigger] entry_of(after.pending_changes, other) == entry_of(
                    session.pending_changes,
                    other,
                )
        }),
{
}

/// A change is written back to the device and the characteristic that the value was read from. The
/// value keeps its length, and its bytes outside of the range.
pub proof fn lemma_change_stays_in_range(
    session: SessionView,
    peripheral: Peripheral,
    characteristic: Characteristic,
    value: Seq<u8>,
)
    requires
        range_fits(entry_of(session.ranges, characteristic.id.spec_key()), value.len()),
        session.pending_changes.contains_key(characteristic.id.spec_key()),
    ensures
        read_next(session, peripheral, characteristic, value) matches NextView::Command(
            CommandView::WriteCharacteristic(p, c, data),
        ) && {
            let range = entry_of(session.ranges, characteristic.id.spec_key());
            &&& p == peripheral
            &&& c == characteristic
            &&& data.len() == value.len()
            &&& forall|i: int|
                0 <= i < range_start(range) || range_end(range, value.len()) <= i < value.len()
                    ==> #[trigger] data[i] == value[i]
        },
{
    let key = characteristic.id.spec_key();
    let range = entry_of(session.ranges, key);
    let change = session.pending_changes[key];
    let number = changed(change, number_of(selected(value, range)));
    lemma_replace_then_select(value, le_bytes(number as nat, U128_SIZE as nat), range);
}

/// The changed number is put into the range with its least significant byte first. All of it fits
/// into sixteen bytes; fewer bytes hold its most significant ones.
pub proof fn lemma_change_is_written(
    session: SessionView,
    peripheral: Peripheral,
    characteristic: Characteristic,
    value: Seq<u8>,
)
    requires
        range_fits(entry_of(session.ranges, characteristic.id.spec_key()), value.len()),
        session.pending_changes.contains_key(characteristic.id.spec_key()),
    ensures
        read_next(session, peripheral, characteristic, value) matches NextView::Command(
            CommandView::WriteCharacteristic(_, _, data),
        ) && {
            let key = characteristic.id.spec_key();
            let range = entry_of(session.ranges, key);
            let written = selected(data, range);
            let width = written.len();
            let number = changed(
                session.pending_changes[key],
                number_of(selected(value, range)),
            );
            &&& width == range_end(range, value.len()) - range_start(range)
            &&& width <= U128_SIZE ==> written == le_bytes(number as nat, U128_SIZE as nat).skip(
                U128_SIZE - width,
            )
            &&& width == U128_SIZE ==> be_value(written.reverse()) == number as nat
        },
{
    let key = characteristic.id.spec_key();
    let range = entry_of(session.ranges, key);
    let number = changed(session.pending_changes[key], number_of(selected(value, range)));
    let bytes = le_bytes(number as nat, U128_SIZE as nat);
    let width = (range_end(range, value.len()) - range_start(range)) as nat;
    lemma_replace_then_select(value, bytes, range);
    lemma_le_bytes_value(number as nat, U128_SIZE as nat);
    if width <= U128_SIZE {
        assert(adjusted(bytes, width) =~= bytes.skip(U128_SIZE - width));
    }
    if width == U128_SIZE {
        assert(bytes.skip(0) =~= bytes);
        assert(byte_span(U128_SIZE as nat) == u128::MAX + 1) by {
            reveal_with_fuel(byte_span, 17);
        }
    }
}

/// A value that was only read is shown in full: the bytes in the range can be read back from the
/// reply.
pub proof fn lemma_read_is_shown(
    session: SessionView,
    peripheral: Peripheral,
    characteristic: Characteristic,
    value: Seq<u8>,
)
    requires
        range_fits(entry_of(session.ranges, characteristic.id.spec_key()), value.len()),
        !session.pending_changes.contains_key(characteristic.id.spec_key()),
    ensures
        read_next(session, peripheral, characteristic, value) matches NextView::Reply(text)
            && is_hex(text) && hex_bytes(text) == selected(
            value,
            entry_of(session.ranges, characteristic.id.spec_key()),
        ),
{
    lemma_hex_round_trip(
        selected(value, entry_of(session.ranges, characteristic.id.spec_key())),
    );
}

/// Bytes in hexadecimal notation behind a characteristic without a range are the bytes that are
/// written to it.
pub proof fn lemma_write_all(
    session: SessionView,
    input: Seq<char>,
    results: Seq<(CommandView, ResultView)>,
    request: u128,
    number: u128,
    peripheral: Peripheral,
    service: Service,
    characteristic: Characteristic,
    id_substr: Seq<char>,
    data: Seq<u8>,
    range: Option<ByteRange>,
)
    requires
        results.len() > 0,
        results.last() == (
            CommandView::FindCharacteristic(peripheral, service, id_substr, number),
            ResultView::FindCharacteristic(peripheral, Some(characteristic)),
        ),
        !session.pending_ranges.contains_key(number),
        is_readable(input),
        first_token(input) == TokenView::Address(hex_text(data), range),
    ensures
        is_step_defined(session, input, results),
        next_step(session, input, results, request).next == NextView::Command(
            CommandView::WriteCharacteristic(peripheral, characteristic, data),
        ),
        next_step(session, input, results, request).session == session,
{
    lemma_hex_round_trip(data);
    assert(session.pending_ranges.remove(number) =~= session.pending_ranges);
}

/// The range of a characteristic is remembered under the number of the request until the
/// characteristic is found, and from then on under the characteristic until its value was read.
pub proof fn lemma_range_is_carried(
    session: SessionView,
    input: Seq<char>,
    found_service: Seq<(CommandView, ResultView)>,
    peripheral: Peripheral,
    service: Service,
    characteristic: Characteristic,
    request: u128,
    other: u128,
)
    requires
        found_service.len() > 0,
        found_service.last().1 == ResultView::FindService(peripheral, Some(service)),
        first_token(input) is Address,
        !session.pending_ranges.contains_key(request),
    ensures
        ({
            let searching = next_step(session, input, found_service, request);
            let command = searching.next->Command_0;
            let found = found_service.push(
                (command, ResultView::FindCharacteristic(peripheral, Some(characteristic))),
            );
            let after = next_step(searching.session, searching.input, found, other);
            &&& searching.next is Command
            &&& command is FindCharacteristic
            &&& after.session.pending_ranges == session.pending_ranges
            &&& first_token(input) matches TokenView::Address(_, Some(range))
                ==> after.session.ranges == session.ranges.insert(
                characteristic.id.spec_key(),
                range,
            ) && after.next == NextView::Command(
                CommandView::ReadCharacteristic(peripheral, characteristic),
            )
            &&& first_token(input) matches TokenView::Address(_, None) ==> after.session.ranges
                == session.ranges
        }),
{
    let searching = next_step(session, input, found_service, request);
    let command = searching.next->Command_0;
    let found = found_service.push(
        (command, ResultView::FindCharacteristic(peripheral, Some(characteristic))),
    );
    let after = next_step(searching.session, searching.input, found, other);
    assert(found.last() == (
        command,
        ResultView::FindCharacteristic(peripheral, Some(characteristic)),
    ));
    assert(after.session.pending_ranges =~= session.pending_ranges);
}

/// An addition with bounds that are not the wrong way round gives a number between them, and one
/// without bounds never passes zero or the largest number.
pub proof fn lemma_addition_bounds(delta: i64, min: u128, max: u128, value: u128)
    ensures
        min <= max ==> min <= changed(Change::Add(delta, min, max), value) <= max,
        delta >= 0 ==> changed(Change::Add(delta, 0, u128::MAX), value) >= value,
        delta <= 0 ==> changed(Change::Add(delta, 0, u128::MAX), value) <= value,
{
}

/// Negating twice gives zero for zero and one for everything else.
pub proof fn lemma_negate_twice(value: u128)
    ensures
        changed(Change::Negate, changed(Change::Negate, value)) == if value == 0 {
            0u128
        } else {
            1u128
        },
{
}

/// The distance between two numbers.
pub open spec fn distance(a: int, b: int) -> int {
    if a < b {
        b - a
    } else {
        a - b
    }
}

/// An addition gives the number between the bounds that is closest to the sum: no number between
/// them is closer, and the sum itself is given where it lies between them.
pub proof fn lemma_addition_is_closest(delta: i64, min: u128, max: u128, value: u128, other: u128)
    requires
        delta > i64::MIN,
        min <= other <= max,
    ensures
        ({
            let sum = value + delta;
            let result = changed(Change::Add(delta, min, max), value);
            &&& min <= result <= max
            &&& distance(result as int, sum) <= distance(other as int, sum)
            &&& min <= sum <= max ==> result == sum
            &&& sum < min ==> result == min
            &&& sum > max ==> result == max
        }),
{
}

/// With bounds the wrong way round, an addition gives the lower bound where the sum is below it, and
/// the upper one otherwise.
pub proof fn lemma_addition_with_crossed_bounds(delta: i64, min: u128, max: u128, value: u128)
    requires
        delta > i64::MIN,
        max < min,
    ensures
        changed(Change::Add(delta, min, max), value) == if value + delta < min {
            min
        } else {
            max
        },
{
}

/// The smallest number that can be added counts as the one above it.
pub proof fn lemma_smallest_addition(min: u128, max: u128, value: u128)
    ensures
        changed(Change::Add(i64::MIN, min, max), value) == changed(
            Change::Add((i64::MIN + 1) as i64, min, max),
            value,
        ),
{
}

/// With the same bounds, adding to a larger value, or adding a larger number, never gives less.
pub proof fn lemma_addition_is_monotonic(
    delta: i64,
    more: i64,
    min: u128,
    max: u128,
    value: u128,
    larger: u128,
)
    requires
        delta <= more,
        value <= larger,
        min <= max,
    ensures
        changed(Change::Add(delta, min, max), value) <= changed(
            Change::Add(more, min, max),
            larger,
        ),
{
}

/// As long as no bound is met, additions one after the other add up, and an addition is undone by
/// its opposite.
pub proof fn lemma_additions_add_up(a: i64, b: i64, value: u128)
    requires
        a > i64::MIN,
        b > i64::MIN,
        0 <= value + a <= u128::MAX,
        0 <= value + a + b <= u128::MAX,
    ensures
        ({
            let first = changed(Change::Add(a, 0, u128::MAX), value);
            &&& changed(Change::Add(b, 0, u128::MAX), first) == value + a + b
            &&& changed(Change::Add((-a) as i64, 0, u128::MAX), first) == value
        }),
{
}

/// A negation gives zero for every number but zero, and one for zero.
pub proof fn lemma_negation_swaps(value: u128)
    ensures
        changed(Change::Negate, value) <= 1,
        changed(Change::Negate, value) == 0 <==> value != 0,
{
}

/// A number that is put in the place of a value is there whatever the value was.
pub proof fn lemma_put_forgets(number: u128, value: u128)
    ensures
        changed(Change::Put(number), value) == number,
{
}

/// The number of some bytes is the one that they denote with the most significant byte first; of
/// more than sixteen bytes only the last sixteen count.
pub proof fn lemma_number_of_bytes(bytes: Seq<u8>)
    ensures
        bytes.len() <= U128_SIZE ==> number_of(bytes) as nat == be_value(bytes),
        bytes.len() > U128_SIZE ==> number_of(bytes) as nat == be_value(
            bytes.skip(bytes.len() - U128_SIZE),
        ),
{
    let low = adjusted(bytes, U128_SIZE as nat);
    assert(byte_span(U128_SIZE as nat) == u128::MAX + 1) by {
        reveal_with_fuel(byte_span, 17);
    }
    lemma_be_value_bound(low);
    if bytes.len() <= U128_SIZE {
        lemma_adjusted_keeps_value(bytes, U128_SIZE as nat);
        lemma_be_value_bound(bytes);
        lemma_byte_span_is_power(bytes.len());
        lemma_byte_span_is_power(U128_SIZE as nat);
        vstd::arithmetic::power::lemma_pow_increases(256, bytes.len(), U128_SIZE as nat);
        vstd::arithmetic::div_mod::lemma_small_mod(
            be_value(bytes),
            byte_span(U128_SIZE as nat),
        );
    } else {
        assert(low =~= bytes.skip(bytes.len() - U128_SIZE));
    }
}

} // verus!
