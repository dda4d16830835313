//! Identifiers of Bluetooth devices, services and characteristics.

use vstd::prelude::*;

use crate::byte_slices::{
    be_value, byte_span, bytes_to_u128, le_bytes, lemma_adjusted_same_size, lemma_be_value_bound,
    lemma_le_bytes_value, u128_to_le_bytes, U128_SIZE,
};
use crate::hexadecimal::{encode, hex_text};

verus! {

/// An identifier of sixteen bytes, held as the number that they denote.
#[derive(Clone, Copy, PartialEq, Eq, Hash, Debug, Structural)]
pub struct Uuid {
    value: u128,
}

/// The bytes that the base identifier `00000000-0000-1000-8000-00805f9b34fb` has in common with
/// every identifier that can be shortened.
pub open spec fn base_tail() -> Seq<u8> {
    seq![0u8, 0, 0x10, 0, 0x80, 0, 0, 0x80, 0x5f, 0x9b, 0x34, 0xfb]
}

/// The identifier that two, four or sixteen bytes stand for.
pub open spec fn expanded(bytes: Seq<u8>) -> Seq<u8> {
    if bytes.len() == 2 {
        seq![0u8, 0u8] + bytes + base_tail()
    } else if bytes.len() == 4 {
        bytes + base_tail()
    } else {
        bytes
    }
}

/// The fewest bytes that stand for an identifier.
pub open spec fn shortened(uuid: Seq<u8>) -> Seq<u8> {
    if uuid.skip(4) != base_tail() {
        uuid
    } else if uuid[0] == 0 && uuid[1] == 0 {
        uuid.subrange(2, 4)
    } else {
        uuid.take(4)
    }
}

/// An identifier in its usual notation: lower-case hexadecimal digits in five groups.
pub open spec fn uuid_text(uuid: Seq<u8>) -> Seq<char> {
    hex_text(uuid.subrange(0, 4)) + seq!['-'] + hex_text(uuid.subrange(4, 6)) + seq!['-']
        + hex_text(uuid.subrange(6, 8)) + seq!['-'] + hex_text(uuid.subrange(8, 10)) + seq!['-']
        + hex_text(uuid.subrange(10, 16))
}

/// `len` bytes can stand for an identifier.
pub open spec fn is_uuid_len(len: nat) -> bool {
    len == 2 || len == 4 || len == 16
}

impl View for Uuid {
    type V = Seq<u8>;

    closed spec fn view(&self) -> Seq<u8> {
        le_bytes(self.value as nat, U128_SIZE as nat).reverse()
    }
}

impl Uuid {
    /// The number that the bytes of the identifier denote.
    pub closed spec fn spec_key(self) -> u128 {
        self.value
    }

    /// The identifier with the given sixteen bytes.
    pub closed spec fn of_bytes(bytes: Seq<u8>) -> Uuid {
        Uuid { value: be_value(bytes) as u128 }
    }

    /// The number that the bytes of the identifier denote, most significant byte first.
    pub fn key(&self) -> (key: u128)
        ensures
            key == self.spec_key(),
            key as nat == be_value(self@),
    {
        proof {
            lemma_key_is_value(*self);
        }
        self.value
    }

    /// The identifier whose bytes denote `key`.
    pub fn from_key(key: u128) -> (uuid: Self)
        ensures
            uuid.spec_key() == key,
            be_value(uuid@) == key as nat,
    {
        let uuid = Uuid { value: key };
        proof {
            lemma_key_is_value(uuid);
        }
        uuid
    }

    /// The identifier that `bytes` stand for: two or four bytes are put into the base identifier.
    pub fn from_slice(bytes: &[u8]) -> (uuid: Self)
        requires
            is_uuid_len(bytes@.len()),
        ensures
            uuid@ == expanded(bytes@),
            uuid == Uuid::of_bytes(expanded(bytes@)),
    {
        let mut all: Vec<u8> = Vec::with_capacity(U128_SIZE);
        if bytes.len() == 2 {
            all.push(0);
            all.push(0);
        }
        let mut head: Vec<u8> = vstd::slice::slice_to_vec(bytes);
        all.append(&mut head);
        if bytes.len() != 16 {
            let mut tail: Vec<u8> = vec![
                0,
                0,
                0x10,
                0,
                0x80,
                0,
                0,
                0x80,
                0x5f,
                0x9b,
                0x34,
                0xfb,
            ];
            assert(tail@ =~= base_tail());
            all.append(&mut tail);
        }
        assert(all@ =~= expanded(bytes@));
        let value: u128 = bytes_to_u128(&all);
        proof {
            lemma_adjusted_same_size(all@);
            lemma_be_bytes_round_trip(all@);
        }
        Uuid { value }
    }

    /// The bytes of the identifier.
    pub fn bytes(&self) -> (bytes: Vec<u8>)
        ensures
            bytes@ == self@,
            bytes@.len() == 16,
    {
        let reversed: Vec<u8> = u128_to_le_bytes(self.value);
        let mut bytes: Vec<u8> = Vec::with_capacity(U128_SIZE);
        proof {
            lemma_le_bytes_value(self.value as nat, U128_SIZE as nat);
        }
        let mut i: usize = 0;
        while i < U128_SIZE
            invariant
                i <= U128_SIZE,
                reversed@.len() == U128_SIZE,
                bytes@ =~= reversed@.reverse().take(i as int),
            decreases U128_SIZE - i,
        {
            bytes.push(reversed[U128_SIZE - 1 - i]);
            i += 1;
        }
        assert(reversed@.reverse().take(U128_SIZE as int) =~= reversed@.reverse());
        bytes
    }

    /// The fewest bytes that stand for the identifier.
    pub fn shorten(&self) -> (bytes: Vec<u8>)
        ensures
            bytes@ == shortened(self@),
    {
        let bytes: Vec<u8> = self.bytes();
        let tail: Vec<u8> = vec![0, 0, 0x10, 0, 0x80, 0, 0, 0x80, 0x5f, 0x9b, 0x34, 0xfb];
        assert(tail@ =~= base_tail());
        let mut i: usize = 0;
        while i < 12
            invariant
                i <= 12,
                bytes@ == self@,
                bytes@.len() == 16,
                tail@ == base_tail(),
                forall|k: int| 0 <= k < i ==> bytes@[k + 4] == #[trigger] tail@[k],
            decreases 12 - i,
        {
            if bytes[i + 4] != tail[i] {
                assert(bytes@.skip(4)[i as int] != base_tail()[i as int]);
                return bytes;
            }
            i += 1;
        }
        assert(bytes@.skip(4) =~= base_tail());
        let all: &[u8] = bytes.as_slice();
        if bytes[0] == 0 && bytes[1] == 0 {
            vstd::slice::slice_to_vec(vstd::slice::slice_subrange(all, 2, 4))
        } else {
            assert(bytes@.take(4) =~= bytes@.subrange(0, 4));
            vstd::slice::slice_to_vec(vstd::slice::slice_subrange(all, 0, 4))
        }
    }

    /// The identifier in its usual notation.
    pub fn to_text(&self) -> (text: String)
        ensures
            text@ == uuid_text(self@),
    {
        let bytes: Vec<u8> = self.bytes();
        let all: &[u8] = bytes.as_slice();
        let mut text: String = encode(vstd::slice::slice_subrange(all, 0, 4));
        text.push('-');
        text.append(encode(vstd::slice::slice_subrange(all, 4, 6)).as_str());
        text.push('-');
        text.append(encode(vstd::slice::slice_subrange(all, 6, 8)).as_str());
        text.push('-');
        text.append(encode(vstd::slice::slice_subrange(all, 8, 10)).as_str());
        text.push('-');
        text.append(encode(vstd::slice::slice_subrange(all, 10, 16)).as_str());
        assert(text@ =~= uuid_text(self@));
        text
    }
}

/// Splitting a number into bytes gives the bytes back that it was made of.
proof fn lemma_be_bytes_round_trip(bytes: Seq<u8>)
    ensures
        le_bytes(be_value(bytes), bytes.len()).reverse() == bytes,
    decreases bytes.len(),
{
    let split = le_bytes(be_value(bytes), bytes.len());
    if bytes.len() == 0 {
        assert(split.reverse() =~= bytes);
    } else {
        let front = bytes.drop_last();
        lemma_be_bytes_round_trip(front);
        let value = be_value(bytes);
        assert(value / 256 == be_value(front));
        assert(value % 256 == bytes.last() as nat);
        let rest = le_bytes(be_value(front), front.len());
        assert(split == seq![bytes.last()] + rest);
        assert(split.reverse() =~= rest.reverse().push(bytes.last()));
        assert(front.push(bytes.last()) =~= bytes);
    }
}

/// An identifier has sixteen bytes, and its number is the one that they denote.
pub proof fn lemma_key_is_value(uuid: Uuid)
    ensures
        uuid@.len() == 16,
        be_value(uuid@) == uuid.spec_key() as nat,
{
    lemma_le_bytes_value(uuid.value as nat, U128_SIZE as nat);
    assert(byte_span(U128_SIZE as nat) == u128::MAX + 1) by {
        reveal_with_fuel(byte_span, 17);
    }
    vstd::arithmetic::div_mod::lemma_small_mod(uuid.value as nat, byte_span(U128_SIZE as nat));
}

/// Two identifiers with the same bytes are the same, and so are two with the same number.
pub proof fn lemma_uuid_identity(a: Uuid, b: Uuid)
    ensures
        a@ == b@ <==> a == b,
        a.spec_key() == b.spec_key() <==> a == b,
{
    lemma_key_is_value(a);
    lemma_key_is_value(b);
}

/// There is an identifier for any sixteen bytes.
pub proof fn lemma_of_bytes(bytes: Seq<u8>)
    requires
        bytes.len() == 16,
    ensures
        Uuid::of_bytes(bytes)@ == bytes,
{
    lemma_be_value_bound(bytes);
    assert(byte_span(U128_SIZE as nat) == u128::MAX + 1) by {
        reveal_with_fuel(byte_span, 17);
    }
    lemma_be_bytes_round_trip(bytes);
}

/// A shortened identifier stands for the identifier, and can be read back.
pub proof fn lemma_shorten_round_trip(uuid: Uuid)
    ensures
        is_uuid_len(shortened(uuid@).len()),
        expanded(shortened(uuid@)) == uuid@,
{
    lemma_key_is_value(uuid);
    assert(expanded(shortened(uuid@)) =~= uuid@) by {
        let bytes = uuid@;
        assert(bytes =~= bytes.take(4) + bytes.skip(4));
        assert(bytes.take(4) =~= seq![bytes[0], bytes[1]] + bytes.subrange(2, 4));
        assert(seq![0u8, 0u8] + bytes.subrange(2, 4) + base_tail() =~= (seq![0u8, 0u8]
            + bytes.subrange(2, 4)) + base_tail());
    }
}

/// No other bytes that stand for an identifier are fewer than its shortened form.
pub proof fn lemma_shortest(bytes: Seq<u8>)
    requires
        is_uuid_len(bytes.len()),
    ensures
        shortened(expanded(bytes)).len() <= bytes.len(),
        expanded(shortened(expanded(bytes))) == expanded(bytes),
{
    let all = expanded(bytes);
    assert(all.len() == 16);
    if bytes.len() == 2 {
        assert(all.skip(4) =~= base_tail());
    } else if bytes.len() == 4 {
        assert(all.skip(4) =~= base_tail());
    }
    assert(all =~= all.take(4) + all.skip(4));
    assert(expanded(shortened(all)) =~= all);
}

/// Two bytes are put into the third and fourth byte of the base identifier
/// `00000000-0000-1000-8000-00805f9b34fb`, four bytes into its first four, and sixteen bytes are an
/// identifier themselves.
pub proof fn lemma_expanded_bytes(bytes: Seq<u8>)
    requires
        is_uuid_len(bytes.len()),
    ensures
        bytes.len() == 2 || bytes.len() == 4 || bytes.len() == 16,
        bytes.len() == 16 ==> expanded(bytes) == bytes,
        bytes.len() == 4 ==> expanded(bytes) == bytes + seq![
            0u8, 0, 0x10, 0, 0x80, 0, 0, 0x80, 0x5f, 0x9b, 0x34, 0xfb,
        ],
        bytes.len() == 2 ==> expanded(bytes) == expanded(seq![0u8, 0u8] + bytes),
        bytes.len() == 2 ==> expanded(bytes).subrange(2, 4) == bytes,
{
    if bytes.len() == 2 {
        assert(expanded(bytes) =~= expanded(seq![0u8, 0u8] + bytes));
        assert(expanded(bytes).subrange(2, 4) =~= bytes);
    } else if bytes.len() == 4 {
        assert(expanded(bytes) =~= bytes + seq![
            0u8, 0, 0x10, 0, 0x80, 0, 0, 0x80, 0x5f, 0x9b, 0x34, 0xfb,
        ]);
    }
}

/// The notation of an identifier has a dash behind its eighth, twelfth, sixteenth and twentieth
/// digit; without the dashes it is the hexadecimal notation of its bytes.
pub proof fn lemma_uuid_text_layout(uuid: Seq<u8>)
    requires
        uuid.len() == 16,
    ensures
        ({
            let text = uuid_text(uuid);
            &&& text.len() == 36
            &&& text[8] == '-' && text[13] == '-' && text[18] == '-' && text[23] == '-'
            &&& text.subrange(0, 8) + text.subrange(9, 13) + text.subrange(14, 18) + text.subrange(
                19,
                23,
            ) + text.subrange(24, 36) == hex_text(uuid)
        }),
{
    let text = uuid_text(uuid);
    let digits = hex_text(uuid);
    lemma_hex_part(uuid, 0, 4);
    lemma_hex_part(uuid, 4, 6);
    lemma_hex_part(uuid, 6, 8);
    lemma_hex_part(uuid, 8, 10);
    lemma_hex_part(uuid, 10, 16);
    assert(text.subrange(0, 8) =~= digits.subrange(0, 8));
    assert(text.subrange(9, 13) =~= digits.subrange(8, 12));
    assert(text.subrange(14, 18) =~= digits.subrange(12, 16));
    assert(text.subrange(19, 23) =~= digits.subrange(16, 20));
    assert(text.subrange(24, 36) =~= digits.subrange(20, 32));
    assert(text.subrange(0, 8) + text.subrange(9, 13) + text.subrange(14, 18) + text.subrange(
        19,
        23,
    ) + text.subrange(24, 36) =~= digits);
}

/// The notation of some of the bytes is a part of the notation of all.
proof fn lemma_hex_part(bytes: Seq<u8>, from: int, to: int)
    requires
        0 <= from <= to <= bytes.len(),
    ensures
        hex_text(bytes.subrange(from, to)) == hex_text(bytes).subrange(2 * from, 2 * to),
{
    assert(hex_text(bytes.subrange(from, to)) =~= hex_text(bytes).subrange(2 * from, 2 * to));
}

} // verus!
