//! Characters, decimal numbers and searching in strings.

use vstd::prelude::*;

verus! {

/// `String::push` appends one character to the end of the string.
pub assume_specification[ String::push ](text: &mut String, c: char)
    ensures
        final(text)@ == old(text)@.push(c),
;

/// `c` is one of the ten ASCII digits.
pub open spec fn is_ascii_digit(c: char) -> bool {
    '0' <= c <= '9'
}

/// The number that an ASCII digit denotes.
pub open spec fn digit_value(c: char) -> nat {
    (c as nat - '0' as nat) as nat
}

/// The ASCII digit for a number below ten.
pub open spec fn digit_char(n: nat) -> char {
    ('0' as nat + n) as char
}

/// Every character of `digits` is an ASCII digit.
pub open spec fn all_ascii_digits(digits: Seq<char>) -> bool {
    forall|i: int| 0 <= i < digits.len() ==> is_ascii_digit(#[trigger] digits[i])
}

/// The number that `digits` denote in decimal notation.
pub open spec fn decimal(digits: Seq<char>) -> nat
    decreases digits.len(),
{
    if digits.len() == 0 {
        0
    } else {
        decimal(digits.drop_last()) * 10 + digit_value(digits.last())
    }
}

/// The decimal notation of `n`, without leading zeros.
pub open spec fn decimal_text(n: nat) -> Seq<char>
    decreases n,
{
    if n < 10 {
        seq![digit_char(n)]
    } else {
        decimal_text(n / 10).push(digit_char(n % 10))
    }
}

/// The decimal notation of `n`, with a minus sign in front of a negative number.
pub open spec fn signed_decimal_text(n: int) -> Seq<char> {
    if n < 0 {
        seq!['-'] + decimal_text((-n) as nat)
    } else {
        decimal_text(n as nat)
    }
}

/// The number that `digits` denote, if there is at least one digit, all are ASCII digits and the
/// number is at most `max`.
pub open spec fn decimal_up_to(digits: Seq<char>, max: nat) -> Option<nat> {
    if digits.len() > 0 && all_ascii_digits(digits) && decimal(digits) <= max {
        Some(decimal(digits))
    } else {
        None
    }
}

/// `part` occurs in `whole` at `at`.
pub open spec fn occurs_at(whole: Seq<char>, part: Seq<char>, at: int) -> bool {
    0 <= at && at + part.len() <= whole.len() && whole.subrange(at, at + part.len()) == part
}

/// `part` occurs somewhere in `whole`.
pub open spec fn occurs_in(whole: Seq<char>, part: Seq<char>) -> bool {
    exists|at: int| occurs_at(whole, part, at)
}

/// `parts` one behind the other, with `separator` between each two.
pub open spec fn joined(parts: Seq<Seq<char>>, separator: Seq<char>) -> Seq<char>
    decreases parts.len(),
{
    if parts.len() == 0 {
        Seq::empty()
    } else if parts.len() == 1 {
        parts[0]
    } else {
        joined(parts.drop_last(), separator) + separator + parts.last()
    }
}

/// What each of `texts` holds.
pub open spec fn text_views(texts: Seq<String>) -> Seq<Seq<char>> {
    texts.map_values(|text: String| text@)
}

/// The characters of `text`.
pub fn chars_of(text: &str) -> (chars: Vec<char>)
    ensures
        chars@ == text@,
{
    let mut chars: Vec<char> = Vec::new();
    for c in it: text.chars()
        invariant
            it.seq() == text@,
            chars@ =~= text@.take(it.index() as int),
    {
        chars.push(c);
    }
    chars
}

/// `parts` one behind the other, with `separator` between each two.
pub fn join(parts: &Vec<String>, separator: &str) -> (text: String)
    ensures
        text@ == joined(text_views(parts@), separator@),
{
    let mut text: String = String::new();
    let mut i: usize = 0;
    while i < parts.len()
        invariant
            i <= parts@.len(),
            text@ == joined(text_views(parts@.take(i as int)), separator@),
        decreases parts@.len() - i,
    {
        let ghost longer = text_views(parts@.take(i + 1));
        assert(longer.drop_last() =~= text_views(parts@.take(i as int)));
        assert(longer.last() == parts@[i as int]@);
        if i > 0 {
            text.append(separator);
        }
        text.append(parts[i].as_str());
        assert(text@ =~= joined(longer, separator@));
        i += 1;
    }
    assert(parts@.take(i as int) =~= parts@);
    text
}

/// Decimal notation of `n`.
pub fn format_u64(n: u64) -> (text: String)
    ensures
        text@ == decimal_text(n as nat),
    decreases n,
{
    let mut text: String = if n < 10 {
        String::new()
    } else {
        format_u64(n / 10)
    };
    let digit: char = (48u8 + (n % 10) as u8) as char;
    text.push(digit);
    assert(text@ =~= decimal_text(n as nat));
    text
}

/// Decimal notation of `n`, with its sign where it is negative.
pub fn format_i32(n: i32) -> (text: String)
    ensures
        text@ == signed_decimal_text(n as int),
{
    if n < 0 {
        let mut text: String = String::new();
        text.push('-');
        let size: u64 = (-(n as i64)) as u64;
        let digits: String = format_u64(size);
        let result: String = text.concat(digits.as_str());
        assert(result@ =~= signed_decimal_text(n as int));
        result
    } else {
        format_u64(n as u64)
    }
}

/// The number in `chars[from..to]`, if it is a decimal number of ASCII digits that is at most `max`.
pub fn parse_decimal(chars: &Vec<char>, from: usize, to: usize, max: u64) -> (number: Option<u64>)
    requires
        from <= to <= chars@.len(),
    ensures
        match number {
            Some(n) => decimal_up_to(chars@.subrange(from as int, to as int), max as nat) == Some(
                n as nat,
            ),
            None => decimal_up_to(chars@.subrange(from as int, to as int), max as nat) is None,
        },
{
    let ghost digits = chars@.subrange(from as int, to as int);
    if from == to {
        return None;
    }
    let mut value: u64 = 0;
    let mut i: usize = from;
    while i < to
        invariant
            from <= i <= to <= chars@.len(),
            digits == chars@.subrange(from as int, to as int),
            all_ascii_digits(digits.take(i - from)),
            value as nat == decimal(digits.take(i - from)),
            value <= max,
        decreases to - i,
    {
        let c: char = chars[i];
        assert(c == digits[i - from]);
        if !(c >= '0' && c <= '9') {
            assert(!is_ascii_digit(digits[i - from]));
            return None;
        }
        let next: u128 = value as u128 * 10 + (c as u32 - '0' as u32) as u128;
        proof {
            let longer = digits.take(i + 1 - from);
            assert(longer.drop_last() =~= digits.take(i - from));
            assert(next as nat == decimal(longer));
            assert forall|k: int| 0 <= k < longer.len() implies is_ascii_digit(
                #[trigger] longer[k],
            ) by {
                if k < i - from {
                    assert(digits.take(i - from)[k] == longer[k]);
                }
            }
            if next > max {
                lemma_decimal_grows(digits, i + 1 - from);
            }
        }
        if next > max as u128 {
            return None;
        }
        value = next as u64;
        i += 1;
    }
    assert(digits.take(to - from) =~= digits);
    Some(value)
}

/// Whether `part` occurs somewhere in `whole`.
pub fn contains_text(whole: &str, part: &str) -> (found: bool)
    ensures
        found == occurs_in(whole@, part@),
{
    let text: Vec<char> = chars_of(whole);
    let wanted: Vec<char> = chars_of(part);
    let total: usize = text.len();
    if wanted.len() > total {
        return false;
    }
    let last: usize = total - wanted.len();
    let mut at: usize = 0;
    loop
        invariant
            text@ == whole@,
            wanted@ == part@,
            total == text@.len(),
            wanted@.len() <= text@.len(),
            last == text@.len() - wanted@.len(),
            at <= last,
            forall|k: int| 0 <= k < at ==> !occurs_at(whole@, part@, k),
        decreases last - at,
    {
        let mut n: usize = 0;
        while n < wanted.len() && text[at + n] == wanted[n]
            invariant
                text@ == whole@,
                wanted@ == part@,
                total == text@.len(),
                wanted@.len() <= text@.len(),
                last == text@.len() - wanted@.len(),
                at <= last,
                n <= wanted@.len(),
                forall|k: int| 0 <= k < n ==> text@[at + k] == #[trigger] wanted@[k],
            decreases wanted@.len() - n,
        {
            n += 1;
        }
        if n == wanted.len() {
            assert(whole@.subrange(at as int, at + part@.len()) =~= part@);
            assert(occurs_at(whole@, part@, at as int));
            return true;
        }
        assert(!occurs_at(whole@, part@, at as int)) by {
            if occurs_at(whole@, part@, at as int) {
                assert(whole@.subrange(at as int, at + part@.len())[n as int] == part@[n as int]);
            }
        }
        if at == last {
            return false;
        }
        at += 1;
    }
}

/// A longer string of digits denotes a number that is at least as large.
proof fn lemma_decimal_grows(digits: Seq<char>, n: int)
    requires
        0 <= n <= digits.len(),
    ensures
        decimal(digits.take(n)) <= decimal(digits),
    decreases digits.len() - n,
{
    if n == digits.len() {
        assert(digits.take(n) =~= digits);
    } else {
        lemma_decimal_grows(digits, n + 1);
        assert(digits.take(n + 1).drop_last() =~= digits.take(n));
    }
}

/// Reading the decimal notation of a number gives the number back.
pub proof fn lemma_decimal_round_trip(n: nat)
    ensures
        decimal_text(n).len() > 0,
        all_ascii_digits(decimal_text(n)),
        decimal(decimal_text(n)) == n,
    decreases n,
{
    let text = decimal_text(n);
    if n < 10 {
        assert(text.drop_last() =~= Seq::empty());
        assert(decimal(text.drop_last()) == 0);
        assert(text.last() == digit_char(n));
    } else {
        lemma_decimal_round_trip(n / 10);
        assert(text.drop_last() =~= decimal_text(n / 10));
        assert(text.last() == digit_char(n % 10));
        assert forall|i: int| 0 <= i < text.len() implies is_ascii_digit(#[trigger] text[i]) by {
            if i < text.len() - 1 {
                assert(text[i] == decimal_text(n / 10)[i]);
            }
        }
    }
}

/// One digit denotes its place among the digits, and digits in front of others count for as much
/// more as the others can hold.
pub proof fn lemma_decimal_concat(high: Seq<char>, low: Seq<char>, n: int)
    requires
        0 <= n < 10,
    ensures
        decimal(seq!["0123456789"@[n]]) == n,
        is_ascii_digit("0123456789"@[n]),
        decimal(high + low) == decimal(high) * vstd::arithmetic::power::pow(10, low.len())
            + decimal(low),
    decreases low.len(),
{
    reveal_strlit("0123456789");
    let digit = "0123456789"@[n];
    assert(seq![digit].drop_last() =~= Seq::<char>::empty());
    assert(decimal(seq![digit].drop_last()) == 0);
    assert(seq![digit].last() == digit);
    reveal(vstd::arithmetic::power::pow);
    if low.len() == 0 {
        assert(high + low =~= high);
        assert(decimal(high) * 1 == decimal(high));
    } else {
        let less = low.drop_last();
        lemma_decimal_concat(high, less, n);
        assert((high + low).drop_last() =~= high + less);
        assert((high + low).last() == low.last());
        let h = decimal(high) as int;
        let span = vstd::arithmetic::power::pow(10, less.len());
        let l = decimal(less) as int;
        assert(vstd::arithmetic::power::pow(10, low.len()) == 10 * span);
        assert((h * span + l) * 10 == h * (10 * span) + l * 10) by (nonlinear_arith);
    }
}

/// There are no other ASCII digits than the ten.
pub proof fn lemma_ascii_digits(c: char)
    ensures
        is_ascii_digit(c) <==> exists|n: int| 0 <= n < 10 && c == #[trigger] "0123456789"@[n],
{
    reveal_strlit("0123456789");
    if is_ascii_digit(c) {
        let n = c as int - '0' as int;
        assert(c == "0123456789"@[n]);
    }
}

/// The decimal notation of a number has no zero in front, and a minus sign exactly in front of a
/// negative number; what follows it denotes the size of the number.
pub proof fn lemma_signed_notation(n: int)
    ensures
        ({
            let text = signed_decimal_text(n);
            let digits = if n < 0 {
                text.skip(1)
            } else {
                text
            };
            &&& n < 0 ==> text.len() > 0 && text[0] == '-'
            &&& digits.len() > 0
            &&& all_ascii_digits(digits)
            &&& decimal(digits) == if n < 0 {
                -n
            } else {
                n
            }
            &&& digits[0] == '0' ==> n == 0 && digits.len() == 1
        }),
{
    let size = if n < 0 {
        (-n) as nat
    } else {
        n as nat
    };
    lemma_decimal_round_trip(size);
    lemma_no_leading_zero(size);
    if n < 0 {
        assert(signed_decimal_text(n).skip(1) =~= decimal_text(size));
    }
}

/// The decimal notation of a number has no zero in front, unless it is the number zero.
pub proof fn lemma_no_leading_zero(n: nat)
    ensures
        decimal_text(n).len() > 0,
        decimal_text(n)[0] == '0' ==> n == 0 && decimal_text(n).len() == 1,
    decreases n,
{
    if n >= 10 {
        lemma_no_leading_zero(n / 10);
    }
}

/// Nothing is lost or added when texts are joined: there is a separator between each two of them,
/// and nothing else.
pub proof fn lemma_joined_concat(
    front: Seq<Seq<char>>,
    back: Seq<Seq<char>>,
    part: Seq<char>,
    separator: Seq<char>,
)
    ensures
        joined(Seq::empty(), separator) == Seq::<char>::empty(),
        joined(seq![part], separator) == part,
        front.len() > 0 && back.len() > 0 ==> joined(front + back, separator) == joined(
            front,
            separator,
        ) + separator + joined(back, separator),
    decreases back.len(),
{
    if front.len() > 0 && back.len() > 0 {
        let all = front + back;
        let less = back.drop_last();
        assert(all.drop_last() =~= front + less);
        assert(all.last() == back.last());
        if back.len() == 1 {
            assert(front + less =~= front);
        } else {
            lemma_joined_concat(front, less, part, separator);
            assert(joined(all, separator) =~= joined(front, separator) + separator + joined(
                back,
                separator,
            ));
        }
    }
}

/// A part occurs in a text exactly if the text is the part with something in front of it and
/// something behind it.
pub proof fn lemma_occurs_between(whole: Seq<char>, part: Seq<char>)
    ensures
        occurs_in(whole, part) <==> exists|front: Seq<char>, back: Seq<char>|
            whole == #[trigger] (front + part + back),
{
    if occurs_in(whole, part) {
        let at = choose|at: int| occurs_at(whole, part, at);
        let front = whole.take(at);
        let back = whole.skip(at + part.len());
        assert(whole =~= front + part + back);
    }
    if exists|front: Seq<char>, back: Seq<char>| whole == #[trigger] (front + part + back) {
        let (front, back) = choose|front: Seq<char>, back: Seq<char>|
            whole == #[trigger] (front + part + back);
        let at = front.len() as int;
        assert(whole.subrange(at, at + part.len()) =~= part);
        assert(occurs_at(whole, part, at));
    }
}

/// A text is read as a number exactly if it is made of ASCII digits, of which there is at least one,
/// and denotes this number, which is not too large.
pub proof fn lemma_what_is_a_number(text: Seq<char>, max: nat, n: nat)
    ensures
        decimal_up_to(text, max) == Some(n) <==> {
            &&& text.len() > 0
            &&& forall|i: int| 0 <= i < text.len() ==> '0' <= #[trigger] text[i] <= '9'
            &&& decimal(text) == n
            &&& n <= max
        },
        n <= max ==> decimal_up_to(decimal_text(n), max) == Some(n),
        n > max ==> decimal_up_to(decimal_text(n), max) is None,
{
    lemma_decimal_round_trip(n);
    if decimal_up_to(text, max) == Some(n) {
        assert forall|i: int| 0 <= i < text.len() implies '0' <= #[trigger] text[i] <= '9' by {
            assert(is_ascii_digit(text[i]));
        }
    }
}

} // verus!
