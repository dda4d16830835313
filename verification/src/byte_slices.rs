//! Reading and overwriting parts of a characteristic value.
//!
//! A part is given by a [`ByteRange`]: an optional first byte and an optional end (exclusive), each
//! of which falls back to the corresponding end of the value. Values put into a part are aligned to
//! the right, as a big-endian number is.

use vstd::prelude::*;

verus! {

/// Number of bytes of a `u128`.
pub const U128_SIZE: usize = 16;

/// First byte and end (exclusive) of a part of a value.
pub type ByteRange = (Option<usize>, Option<usize>);

/// Index of the first byte that `range` selects.
pub open spec fn range_start(range: Option<ByteRange>) -> int {
    match range {
        Some((Some(start), _)) => start as int,
        _ => 0,
    }
}

/// End (exclusive) of what `range` selects in a value of `len` bytes.
pub open spec fn range_end(range: Option<ByteRange>, len: nat) -> int {
    match range {
        Some((_, Some(end))) => end as int,
        _ => len as int,
    }
}

/// `range` selects a part of a value of `len` bytes.
pub open spec fn range_fits(range: Option<ByteRange>, len: nat) -> bool {
    range_start(range) <= range_end(range, len) <= len
}

/// `source` aligned to the right in `size` bytes: zeros are put in front of it where it is shorter,
/// and its first bytes are dropped where it is longer.
pub open spec fn adjusted(source: Seq<u8>, size: nat) -> Seq<u8> {
    Seq::new(
        size,
        |i: int|
            if i + source.len() < size {
                0u8
            } else {
                source[i + source.len() - size]
            },
    )
}

/// What `range` selects in `source`.
pub open spec fn selected(source: Seq<u8>, range: Option<ByteRange>) -> Seq<u8> {
    source.subrange(range_start(range), range_end(range, source.len()))
}

/// `source` with `value`, aligned to the right, in place of what `range` selects.
pub open spec fn replaced(source: Seq<u8>, value: Seq<u8>, range: Option<ByteRange>) -> Seq<u8> {
    let start = range_start(range);
    let end = range_end(range, source.len());
    source.take(start) + adjusted(value, (end - start) as nat) + source.skip(end)
}

/// The number that `bytes` denote, most significant byte first.
pub open spec fn be_value(bytes: Seq<u8>) -> nat
    decreases bytes.len(),
{
    if bytes.len() == 0 {
        0
    } else {
        be_value(bytes.drop_last()) * 256 + bytes.last() as nat
    }
}

/// The lowest `size` bytes of `value`, least significant byte first.
pub open spec fn le_bytes(value: nat, size: nat) -> Seq<u8>
    decreases size,
{
    if size == 0 {
        Seq::empty()
    } else {
        seq![(value % 256) as u8] + le_bytes(value / 256, (size - 1) as nat)
    }
}

/// 256 to the power of `n`: how many values `n` bytes can hold.
pub open spec fn byte_span(n: nat) -> nat
    decreases n,
{
    if n == 0 {
        1
    } else {
        256 * byte_span((n - 1) as nat)
    }
}

/// Whether `range` selects a part of a value of `len` bytes.
pub fn is_range_in(range: &Option<ByteRange>, len: usize) -> (fits: bool)
    ensures
        fits == range_fits(*range, len as nat),
{
    match range {
        None => true,
        Some((Some(start), Some(end))) => *start <= *end && *end <= len,
        Some((Some(start), None)) => *start <= len,
        Some((None, Some(end))) => *end <= len,
        Some((None, None)) => true,
    }
}

/// The part of `vector` that `slice` selects; all of it where there is no `slice`.
pub fn get_slice(vector: &Vec<u8>, slice: Option<ByteRange>) -> (part: &[u8])
    requires
        range_fits(slice, vector@.len()),
    ensures
        part@ == selected(vector@, slice),
{
    let all: &[u8] = vector.as_slice();
    match slice {
        None => {
            assert(all@ =~= selected(vector@, slice));
            all
        },
        Some(range) => match range {
            (Some(start), Some(end)) => vstd::slice::slice_subrange(all, start, end),
            (Some(start), None) => vstd::slice::slice_subrange(all, start, all.len()),
            (None, Some(end)) => vstd::slice::slice_subrange(all, 0, end),
            (None, None) => {
                assert(all@ =~= selected(vector@, slice));
                all
            },
        },
    }
}

/// `source` aligned to the right in `size` bytes.
pub fn adjust_bytes(source: &Vec<u8>, size: usize) -> (bytes: Vec<u8>)
    ensures
        bytes@ == adjusted(source@, size as nat),
{
    let len: usize = source.len();
    let mut bytes: Vec<u8> = Vec::with_capacity(size);
    let padding: usize = if size > len {
        size - len
    } else {
        0
    };
    let dropped: usize = if len > size {
        len - size
    } else {
        0
    };
    let mut i: usize = 0;
    while i < size
        invariant
            i <= size,
            len == source@.len(),
            padding == (if size > len {
                size - len
            } else {
                0
            }),
            dropped == (if len > size {
                len - size
            } else {
                0
            }),
            bytes@ =~= adjusted(source@, size as nat).take(i as int),
        decreases size - i,
    {
        let byte: u8 = if i < padding {
            0
        } else {
            source[i - padding + dropped]
        };
        assert(byte == adjusted(source@, size as nat)[i as int]);
        bytes.push(byte);
        i += 1;
    }
    bytes
}

/// The number in the last [`U128_SIZE`] bytes of `source`, most significant byte first.
pub fn bytes_to_u128(source: &Vec<u8>) -> (value: u128)
    ensures
        value as nat == be_value(adjusted(source@, U128_SIZE as nat)),
        value as nat == be_value(source@) % byte_span(U128_SIZE as nat),
{
    let bytes: Vec<u8> = adjust_bytes(source, U128_SIZE);
    let mut value: u128 = 0;
    let mut i: usize = 0;
    proof {
        lemma_byte_span_u128();
    }
    while i < U128_SIZE
        invariant
            i <= U128_SIZE,
            bytes@.len() == U128_SIZE,
            value as nat == be_value(bytes@.take(i as int)),
            byte_span(U128_SIZE as nat) == u128::MAX + 1,
        decreases U128_SIZE - i,
    {
        proof {
            lemma_be_value_bound(bytes@.take(i + 1));
            lemma_byte_span_monotonic((i + 1) as nat, U128_SIZE as nat);
            assert(bytes@.take(i + 1).drop_last() =~= bytes@.take(i as int));
        }
        value = value * 256 + bytes[i] as u128;
        i += 1;
    }
    proof {
        assert(bytes@.take(U128_SIZE as int) =~= bytes@);
        lemma_adjusted_keeps_value(source@, U128_SIZE as nat);
    }
    value
}

/// The bytes of `value`, least significant byte first.
pub fn u128_to_le_bytes(value: u128) -> (bytes: Vec<u8>)
    ensures
        bytes@ == le_bytes(value as nat, U128_SIZE as nat),
{
    let mut bytes: Vec<u8> = Vec::with_capacity(U128_SIZE);
    let mut rest: u128 = value;
    let mut i: usize = 0;
    while i < U128_SIZE
        invariant
            i <= U128_SIZE,
            bytes@ + le_bytes(rest as nat, (U128_SIZE - i) as nat) =~= le_bytes(
                value as nat,
                U128_SIZE as nat,
            ),
        decreases U128_SIZE - i,
    {
        bytes.push((rest % 256) as u8);
        rest = rest / 256;
        i += 1;
    }
    bytes
}

/// `source` with `value`, aligned to the right, in place of what `range` selects.
pub fn replace_slice(source: &Vec<u8>, value: &Vec<u8>, range: Option<ByteRange>) -> (bytes: Vec<
    u8,
>)
    requires
        range_fits(range, source@.len()),
    ensures
        bytes@ == replaced(source@, value@, range),
{
    let len: usize = source.len();
    let (start, end): (usize, usize) = match range {
        None => (0, len),
        Some((Some(start), Some(end))) => (start, end),
        Some((Some(start), None)) => (start, len),
        Some((None, Some(end))) => (0, end),
        Some((None, None)) => (0, len),
    };
    let all: &[u8] = source.as_slice();
    let mut bytes: Vec<u8> = vstd::slice::slice_to_vec(
        vstd::slice::slice_subrange(all, 0, start),
    );
    let mut middle: Vec<u8> = adjust_bytes(value, end - start);
    let mut tail: Vec<u8> = vstd::slice::slice_to_vec(vstd::slice::slice_subrange(all, end, len));
    bytes.append(&mut middle);
    bytes.append(&mut tail);
    assert(bytes@ =~= replaced(source@, value@, range));
    bytes
}

proof fn lemma_byte_span_u128()
    ensures
        byte_span(U128_SIZE as nat) == u128::MAX + 1,
{
    reveal_with_fuel(byte_span, 17);
}

proof fn lemma_byte_span_monotonic(a: nat, b: nat)
    requires
        a <= b,
    ensures
        byte_span(a) <= byte_span(b),
    decreases b - a,
{
    if a < b {
        lemma_byte_span_monotonic(a, (b - 1) as nat);
    }
}

/// `n` bytes denote a number below 256 to the power of `n`.
pub proof fn lemma_be_value_bound(bytes: Seq<u8>)
    ensures
        be_value(bytes) < byte_span(bytes.len()),
    decreases bytes.len(),
{
    if bytes.len() > 0 {
        lemma_be_value_bound(bytes.drop_last());
    }
}

/// Aligning to the right in `size` bytes keeps the number that the bytes denote, modulo what `size`
/// bytes can hold.
pub proof fn lemma_adjusted_keeps_value(source: Seq<u8>, size: nat)
    ensures
        be_value(adjusted(source, size)) == be_value(source) % byte_span(size),
    decreases size,
{
    let bytes = adjusted(source, size);
    if size == 0 {
        assert(bytes =~= Seq::empty());
        assert(be_value(source) % 1 == 0);
    } else {
        let less = (size - 1) as nat;
        lemma_byte_span_positive(less);
        if source.len() == 0 {
            lemma_adjusted_keeps_value(source, less);
            assert(bytes.drop_last() =~= adjusted(source, less));
            assert(0nat % byte_span(less) == 0nat && 0nat % byte_span(size) == 0nat)
                by (nonlinear_arith)
                requires
                    byte_span(less) > 0,
                    byte_span(size) > 0,
            ;
        } else {
            let front = source.drop_last();
            lemma_adjusted_keeps_value(front, less);
            assert(bytes.drop_last() =~= adjusted(front, less));
            assert(bytes.last() == source.last());
            lemma_low_digit(be_value(front), source.last() as nat, byte_span(less));
        }
    }
}

/// Bytes that already have the wanted size are kept as they are.
pub proof fn lemma_adjusted_same_size(source: Seq<u8>)
    ensures
        adjusted(source, source.len()) == source,
{
    assert(adjusted(source, source.len()) =~= source);
}

/// What was put into a part is what is then read from it, and nothing else has changed.
pub proof fn lemma_replace_then_select(source: Seq<u8>, value: Seq<u8>, range: Option<ByteRange>)
    requires
        range_fits(range, source.len()),
    ensures
        replaced(source, value, range).len() == source.len(),
        selected(replaced(source, value, range), range) == adjusted(
            value,
            (range_end(range, source.len()) - range_start(range)) as nat,
        ),
        forall|i: int|
            0 <= i < range_start(range) || range_end(range, source.len()) <= i < source.len()
                ==> #[trigger] replaced(source, value, range)[i] == source[i],
{
    assert(selected(replaced(source, value, range), range) =~= adjusted(
        value,
        (range_end(range, source.len()) - range_start(range)) as nat,
    ));
}

/// Putting back what was read from a part changes nothing.
pub proof fn lemma_replace_with_selected(source: Seq<u8>, range: Option<ByteRange>)
    requires
        range_fits(range, source.len()),
    ensures
        replaced(source, selected(source, range), range) == source,
{
    lemma_adjusted_same_size(selected(source, range));
    assert(replaced(source, selected(source, range), range) =~= source);
}

/// The second of two values put into the same part wins.
pub proof fn lemma_replace_twice(
    source: Seq<u8>,
    first: Seq<u8>,
    second: Seq<u8>,
    range: Option<ByteRange>,
)
    requires
        range_fits(range, source.len()),
    ensures
        replaced(replaced(source, first, range), second, range) == replaced(source, second, range),
{
    assert(replaced(replaced(source, first, range), second, range) =~= replaced(
        source,
        second,
        range,
    ));
}

/// No range, a range with two open ends and the range of all bytes select the same.
pub proof fn lemma_whole_ranges(source: Seq<u8>, value: Seq<u8>, len: usize)
    requires
        len == source.len(),
    ensures
        selected(source, None) == source,
        selected(source, Some((None, None))) == source,
        selected(source, Some((Some(0), Some(len)))) == source,
        replaced(source, value, None) == adjusted(value, source.len()),
        replaced(source, value, Some((None, None))) == adjusted(value, source.len()),
        replaced(source, value, Some((Some(0), Some(len)))) == adjusted(value, source.len()),
{
    assert(selected(source, None) =~= source);
    assert(replaced(source, value, None) =~= adjusted(value, source.len()));
}

/// The bytes that [`u128_to_le_bytes`] gives denote the number when read from the last to the first.
pub proof fn lemma_le_bytes_value(value: nat, size: nat)
    ensures
        le_bytes(value, size).len() == size,
        be_value(le_bytes(value, size).reverse()) == value % byte_span(size),
    decreases size,
{
    let bytes = le_bytes(value, size);
    if size == 0 {
        assert(bytes.reverse() =~= Seq::empty());
        assert(value % 1 == 0);
    } else {
        let less = (size - 1) as nat;
        lemma_byte_span_positive(less);
        lemma_le_bytes_value(value / 256, less);
        assert(bytes.reverse().drop_last() =~= le_bytes(value / 256, less).reverse());
        assert(bytes.reverse().last() == (value % 256) as u8);
        lemma_low_digit(value / 256, value % 256, byte_span(less));
    }
}

proof fn lemma_byte_span_positive(n: nat)
    ensures
        byte_span(n) > 0,
    decreases n,
{
    if n > 0 {
        lemma_byte_span_positive((n - 1) as nat);
    }
}

proof fn lemma_low_digit(high: nat, low: nat, span: nat)
    requires
        span > 0,
        low < 256,
    ensures
        (high * 256 + low) % (256 * span) == (high % span) * 256 + low,
{
    let q = high / span;
    let r = high % span;
    assert(high == span * q + r && 0 <= r < span) by (nonlinear_arith)
        requires
            span > 0,
            q == high / span,
            r == high % span,
    ;
    assert(high * 256 + low == q * (256 * span) + (r * 256 + low)) by (nonlinear_arith)
        requires
            high == span * q + r,
    ;
    vstd::arithmetic::div_mod::lemma_fundamental_div_mod_converse(
        (high * 256 + low) as int,
        (256 * span) as int,
        q as int,
        (r * 256 + low) as int,
    );
}

/// How many values `n` bytes can hold is a power of 256.
pub proof fn lemma_byte_span_is_power(n: nat)
    ensures
        byte_span(n) == vstd::arithmetic::power::pow(256, n),
    decreases n,
{
    reveal(vstd::arithmetic::power::pow);
    if n > 0 {
        lemma_byte_span_is_power((n - 1) as nat);
    }
}

/// One byte denotes itself, and bytes in front of others count for as much more as the others can
/// hold.
pub proof fn lemma_be_value_concat(high: Seq<u8>, low: Seq<u8>, byte: u8)
    ensures
        be_value(Seq::empty()) == 0,
        be_value(seq![byte]) == byte as nat,
        be_value(high + low) == be_value(high) * byte_span(low.len()) + be_value(low),
    decreases low.len(),
{
    assert(seq![byte].drop_last() =~= Seq::<u8>::empty());
    assert(be_value(seq![byte].drop_last()) == 0);
    assert(seq![byte].last() == byte);
    if low.len() == 0 {
        assert(high + low =~= high);
        assert(byte_span(0) == 1);
        assert(be_value(high) * 1 == be_value(high));
    } else {
        let less = low.drop_last();
        lemma_be_value_concat(high, less, byte);
        assert((high + low).drop_last() =~= high + less);
        assert((high + low).last() == low.last());
        let (h, span, l) = (be_value(high), byte_span(less.len()), be_value(less));
        assert((h * span + l) * 256 == h * (256 * span) + l * 256) by (nonlinear_arith);
    }
}

/// Counted from the right, bytes stay where they are when they are aligned in `size` bytes; what is
/// left in front is zero.
pub proof fn lemma_adjusted_bytes(source: Seq<u8>, size: nat, back: int)
    requires
        0 <= back < size,
    ensures
        adjusted(source, size).len() == size,
        back < source.len() ==> adjusted(source, size)[size - 1 - back] == source[source.len() - 1
            - back],
        back >= source.len() ==> adjusted(source, size)[size - 1 - back] == 0,
{
}

/// A part starts at its first byte, or at the start of the value, and goes up to its end, or to the
/// end of the value; it holds these bytes in their order.
pub proof fn lemma_selected_bytes(
    source: Seq<u8>,
    start: Option<usize>,
    end: Option<usize>,
    first: int,
    last: int,
)
    requires
        start is None ==> first == 0,
        start is Some ==> first == start.unwrap(),
        end is None ==> last == source.len(),
        end is Some ==> last == end.unwrap(),
    ensures
        range_fits(None, source.len()),
        range_fits(Some((start, end)), source.len()) <==> first <= last <= source.len(),
        first <= last <= source.len() ==> {
            let part = selected(source, Some((start, end)));
            &&& part.len() == last - first
            &&& forall|i: int| 0 <= i < part.len() ==> #[trigger] part[i] == source[first + i]
        },
        selected(source, None) == source,
{
    assert(selected(source, None) =~= source);
}

/// Putting a value into a part replaces the bytes of the part, counted from its end, by those of the
/// value, counted from its end, and by zeros where the value has no more; all other bytes stay.
pub proof fn lemma_replaced_bytes(
    source: Seq<u8>,
    value: Seq<u8>,
    start: Option<usize>,
    end: Option<usize>,
    first: int,
    last: int,
    i: int,
)
    requires
        start is None ==> first == 0,
        start is Some ==> first == start.unwrap(),
        end is None ==> last == source.len(),
        end is Some ==> last == end.unwrap(),
        first <= last <= source.len(),
        0 <= i < source.len(),
    ensures
        ({
            let bytes = replaced(source, value, Some((start, end)));
            let back = last - 1 - i;
            &&& bytes.len() == source.len()
            &&& i < first || last <= i ==> bytes[i] == source[i]
            &&& first <= i < last && back < value.len() ==> bytes[i] == value[value.len() - 1
                - back]
            &&& first <= i < last && back >= value.len() ==> bytes[i] == 0
        }),
{
}

} // verus!
