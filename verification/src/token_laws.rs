//! What holds of every request line.

use vstd::prelude::*;

use crate::byte_slices::ByteRange;
use crate::input_token::{
    behind_token, bracket, delta_of, digits_len, first_token, index_of, is_digit, is_name_char,
    is_readable, is_signed, name_len, reading, regex_search, second_number, without_slash, Bracket,
    InputToken, Reading, TokenView,
};
use crate::text::{
    all_ascii_digits, decimal, decimal_text, is_ascii_digit, lemma_decimal_round_trip,
};

verus! {

/// Every character of `name` can stand in a name, and there is at least one.
pub open spec fn is_name(name: Seq<char>) -> bool {
    name.len() > 0 && forall|i: int| 0 <= i < name.len() ==> is_name_char(#[trigger] name[i])
}

/// `text` starts with a range in brackets whose first number has `first` digits and whose second
/// number, if it has one, has `second` digits: a match of `\[(\d*)(?:..(\d*))?\]`.
pub open spec fn is_bracket_match(text: Seq<char>, first: int, second: Option<int>) -> bool {
    &&& text.len() > 0
    &&& text[0] == '['
    &&& 0 <= first < text.len()
    &&& forall|i: int| 1 <= i <= first ==> is_digit(#[trigger] text[i])
    &&& match second {
        None => first + 1 < text.len() && text[first + 1] == ']',
        Some(second) => {
            &&& 0 <= second
            &&& first + second + 3 < text.len()
            &&& text[first + 1] != '\n'
            &&& text[first + 2] != '\n'
            &&& forall|i: int| first + 3 <= i < first + second + 3 ==> is_digit(#[trigger] text[i])
            &&& text[first + second + 3] == ']'
        },
    }
}

/// Of two matches of `\[(\d*)(?:..(\d*))?\]`, the one with more digits in the first number is
/// preferred, then one that has a second number, then the one with more digits in that.
pub open spec fn is_preferred(
    first: int,
    second: Option<int>,
    other_first: int,
    other_second: Option<int>,
) -> bool {
    ||| first > other_first
    ||| first == other_first && match (second, other_second) {
        (Some(n), Some(m)) => n >= m,
        (None, Some(_)) => false,
        _ => true,
    }
}

/// What a match of `\[(\d*)(?:..(\d*))?\]` captures, and the text behind it.
pub open spec fn captured(text: Seq<char>, first: int, second: Option<int>) -> Bracket {
    match second {
        None => Bracket {
            start: text.subrange(1, first + 1),
            end: None,
            rest: text.skip(first + 2),
        },
        Some(second) => Bracket {
            start: text.subrange(1, first + 1),
            end: Some(text.subrange(first + 3, first + second + 3)),
            rest: text.skip(first + second + 4),
        },
    }
}

/// The digits at the start of `text` are digits, and no digit follows them.
proof fn lemma_digits_len(text: Seq<char>)
    ensures
        digits_len(text) <= text.len(),
        forall|i: int| 0 <= i < digits_len(text) ==> is_digit(#[trigger] text[i]),
        digits_len(text) < text.len() ==> !is_digit(text[digits_len(text) as int]),
    decreases text.len(),
{
    if text.len() > 0 && is_digit(text[0]) {
        let tail = text.skip(1);
        lemma_digits_len(tail);
        assert forall|i: int| 0 <= i < digits_len(text) implies is_digit(#[trigger] text[i]) by {
            if i > 0 {
                assert(tail[i - 1] == text[i]);
            }
        }
    }
}

/// `n` digits with no digit behind them are all the digits at the start of `text`.
proof fn lemma_digits_len_is(text: Seq<char>, n: int)
    requires
        0 <= n <= text.len(),
        forall|i: int| 0 <= i < n ==> is_digit(#[trigger] text[i]),
        n < text.len() ==> !is_digit(text[n]),
    ensures
        digits_len(text) == n,
{
    lemma_digits_len(text);
    let m = digits_len(text) as int;
    if m < n {
        assert(is_digit(text[m]));
    } else if n < m {
        assert(is_digit(text[n]));
    }
}

/// The characters of a name in front of one that cannot stand in it are all of its characters.
proof fn lemma_name_len_is(name: Seq<char>, behind: Seq<char>)
    requires
        forall|i: int| 0 <= i < name.len() ==> is_name_char(#[trigger] name[i]),
        behind.len() > 0 ==> !is_name_char(behind[0]),
    ensures
        name_len(name + behind) == name.len(),
    decreases name.len(),
{
    let text = name + behind;
    if name.len() == 0 {
        assert(text =~= behind);
    } else {
        assert(text[0] == name[0]);
        assert(text.skip(1) =~= name.skip(1) + behind);
        lemma_name_len_is(name.skip(1), behind);
    }
}

proof fn lemma_name_len_bound(text: Seq<char>)
    ensures
        name_len(text) <= text.len(),
    decreases text.len(),
{
    if text.len() > 0 && is_name_char(text[0]) {
        lemma_name_len_bound(text.skip(1));
    }
}

/// The text behind a range in brackets is a proper suffix of the text in front of it.
proof fn lemma_bracket_suffix(text: Seq<char>)
    ensures
        bracket(text) matches Some(range) ==> range.rest.len() < text.len() && range.rest
            == text.skip(text.len() - range.rest.len()),
{
    if let Some(range) = bracket(text) {
        let inside = text.skip(1);
        lemma_digits_len(inside);
        let n = digits_len(inside) as int;
        lemma_digits_len(inside.skip(n).skip(2));
        if n > 0 {
            lemma_digits_len(inside.skip(n - 1).skip(2));
        }
        assert(range.rest =~= text.skip(text.len() - range.rest.len()));
    }
}

/// What is left behind a token is a proper suffix of the text; without a token, all of the text is
/// left.
pub proof fn lemma_token_shortens(text: Seq<char>)
    ensures
        first_token(text) is Nothing <==> reading(text) is None,
        first_token(text) is Nothing ==> behind_token(text) == text,
        !(first_token(text) is Nothing) ==> behind_token(text).len() < text.len(),
        behind_token(text) == text.skip(text.len() - behind_token(text).len()),
{
    let path = without_slash(text);
    lemma_name_len_bound(path);
    let n = name_len(path) as int;
    let behind = path.skip(n);
    lemma_bracket_suffix(behind);
    assert(behind_token(text) =~= text.skip(text.len() - behind_token(text).len()));
}

/// A slash in front of a request makes no difference.
pub proof fn lemma_leading_slash(text: Seq<char>)
    requires
        text.len() > 0,
        text[0] != '/',
        !(first_token(text) is Nothing),
    ensures
        first_token(seq!['/'] + text) == first_token(text),
        behind_token(seq!['/'] + text) == behind_token(text),
        is_readable(seq!['/'] + text) == is_readable(text),
{
    lemma_token_shortens(text);
    assert((seq!['/'] + text).skip(1) =~= text);
    assert(reading(seq!['/'] + text) == reading(text));
}

/// A text has a token unless it starts, behind one slash, with a character that cannot stand in a
/// name.
pub proof fn lemma_has_token(text: Seq<char>)
    ensures
        first_token(text) is Nothing <==> without_slash(text).len() == 0 || !is_name_char(
            without_slash(text)[0],
        ),
{
    lemma_token_shortens(text);
}

/// The tokens of a path are the names between its slashes: taking the first one leaves what stands
/// behind the slash.
pub proof fn lemma_path(name: Seq<char>, rest: Seq<char>)
    requires
        is_name(name),
    ensures
        reading(name + seq!['/'] + rest) == Some(
            Reading { name, start: None, end: None, rest },
        ),
        behind_token(name + seq!['/'] + rest) == rest,
        reading(name) == Some(Reading { name, start: None, end: None, rest: Seq::empty() }),
        behind_token(name) == Seq::<char>::empty(),
        first_token(name + seq!['/'] + rest) == first_token(name),
{
    let behind = seq!['/'] + rest;
    let text = name + seq!['/'] + rest;
    assert(text =~= name + behind);
    lemma_name_len_is(name, behind);
    assert(text[0] == name[0]);
    assert(text.take(name.len() as int) =~= name);
    assert(text.skip(name.len() as int) =~= behind);
    assert(behind.skip(1) =~= rest);

    let none = Seq::<char>::empty();
    assert(name =~= name + none);
    lemma_name_len_is(name, none);
    assert(name.take(name.len() as int) =~= name);
    assert(name.skip(name.len() as int) =~= none);
}

/// A name that starts with neither an exclamation mark nor a sign is an address.
pub proof fn lemma_plain_address(name: Seq<char>)
    requires
        is_name(name),
        name[0] != '!',
        !is_signed(name),
    ensures
        is_readable(name),
        first_token(name) == TokenView::Address(name, None),
{
    lemma_path(name, Seq::empty());
}

/// A name with a range behind it is read as the name and what the range is read as.
proof fn lemma_name_with_bracket(name: Seq<char>, behind: Seq<char>)
    requires
        is_name(name),
        bracket(behind) is Some,
    ensures
        reading(name + behind) == Some(
            Reading {
                name,
                start: Some(bracket(behind).unwrap().start),
                end: bracket(behind).unwrap().end,
                rest: without_slash(bracket(behind).unwrap().rest),
            },
        ),
{
    let text = name + behind;
    assert(behind[0] == '[');
    lemma_name_len_is(name, behind);
    assert(text[0] == name[0]);
    assert(text.take(name.len() as int) =~= name);
    assert(text.skip(name.len() as int) =~= behind);
}

/// `[start..end]` is read as its two numbers, whatever follows it.
pub proof fn lemma_two_number_range(
    name: Seq<char>,
    start: Seq<char>,
    end: Seq<char>,
    rest: Seq<char>,
)
    requires
        is_name(name),
        all_ascii_digits(start),
        all_ascii_digits(end),
    ensures
        reading(name + seq!['['] + start + seq!['.', '.'] + end + seq![']'] + rest) == Some(
            Reading { name, start: Some(start), end: Some(end), rest: without_slash(rest) },
        ),
{
    let range = seq!['['] + start + seq!['.', '.'] + end + seq![']'] + rest;
    let inside = range.skip(1);
    let n = start.len() as int;
    assert forall|i: int| 0 <= i < n implies is_digit(#[trigger] inside[i]) by {
        assert(inside[i] == start[i]);
        assert(is_ascii_digit(start[i]));
    }
    assert(inside[n] == '.');
    lemma_digits_len_is(inside, n);
    let pair = inside.skip(n);
    let number = pair.skip(2);
    let m = end.len() as int;
    assert forall|i: int| 0 <= i < m implies is_digit(#[trigger] number[i]) by {
        assert(number[i] == end[i]);
        assert(is_ascii_digit(end[i]));
    }
    assert(number[m] == ']');
    lemma_digits_len_is(number, m);
    assert(number.take(m) =~= end);
    assert(number.skip(m + 1) =~= rest);
    assert(inside.take(n) =~= start);
    lemma_name_with_bracket(name, range);
    assert(name + seq!['['] + start + seq!['.', '.'] + end + seq![']'] + rest =~= name + range);
}

/// `[start]` is read as its only number, unless the bracket, the character behind it and what
/// follows look like the end of a longer range, as in `[6]/32]`.
pub proof fn lemma_one_number_range(name: Seq<char>, start: Seq<char>, rest: Seq<char>)
    requires
        is_name(name),
        all_ascii_digits(start),
        second_number(seq![']'] + rest) is None,
    ensures
        reading(name + seq!['['] + start + seq![']'] + rest) == Some(
            Reading { name, start: Some(start), end: None, rest: without_slash(rest) },
        ),
{
    let range = seq!['['] + start + seq![']'] + rest;
    let inside = range.skip(1);
    let n = start.len() as int;
    assert forall|i: int| 0 <= i < n implies is_digit(#[trigger] inside[i]) by {
        assert(inside[i] == start[i]);
        assert(is_ascii_digit(start[i]));
    }
    assert(inside[n] == ']');
    lemma_digits_len_is(inside, n);
    assert(inside.skip(n) =~= seq![']'] + rest);
    assert(inside.take(n) =~= start);
    assert(inside.skip(n + 1) =~= rest);
    lemma_name_with_bracket(name, range);
    assert(name + seq!['['] + start + seq![']'] + rest =~= name + range);
}

/// Decimal notation of an index; nothing where there is none.
pub open spec fn index_text(index: Option<usize>) -> Seq<char> {
    match index {
        Some(n) => decimal_text(n as nat),
        None => Seq::empty(),
    }
}

proof fn lemma_index_text(index: Option<usize>)
    ensures
        all_ascii_digits(index_text(index)),
        index_of(Some(index_text(index))) == index,
{
    if let Some(n) = index {
        lemma_decimal_round_trip(n as nat);
    }
}

/// `name[start..end]` selects the bytes from `start` to `end`, and either number can be left out.
pub proof fn lemma_range_of_two(
    name: Seq<char>,
    start: Option<usize>,
    end: Option<usize>,
    rest: Seq<char>,
)
    requires
        is_name(name),
        name[0] != '!',
        !is_signed(name),
    ensures
        ({
            let text = name + seq!['['] + index_text(start) + seq!['.', '.'] + index_text(end)
                + seq![']'] + rest;
            &&& is_readable(text)
            &&& first_token(text) == TokenView::Address(name, Some((start, end)))
            &&& behind_token(text) == without_slash(rest)
        }),
{
    lemma_index_text(start);
    lemma_index_text(end);
    lemma_two_number_range(name, index_text(start), index_text(end), rest);
}

/// `name[start]` selects the byte at `start`, and `name[]` selects all bytes, unless the closing
/// bracket and what follows look like the end of a longer range.
pub proof fn lemma_range_of_one(name: Seq<char>, start: Option<usize>, rest: Seq<char>)
    requires
        is_name(name),
        name[0] != '!',
        !is_signed(name),
        second_number(seq![']'] + rest) is None,
        start != Some(usize::MAX),
    ensures
        ({
            let text = name + seq!['['] + index_text(start) + seq![']'] + rest;
            &&& is_readable(text)
            &&& first_token(text) == TokenView::Address(
                name,
                match start {
                    Some(n) => Some((Some(n), Some((n + 1) as usize))),
                    None => Some((None, None)),
                },
            )
            &&& behind_token(text) == without_slash(rest)
        }),
{
    lemma_index_text(start);
    lemma_one_number_range(name, index_text(start), rest);
}

/// A number with its sign, which is also written where it is not negative.
pub open spec fn delta_text(delta: i64) -> Seq<char> {
    if delta < 0 {
        seq!['-'] + decimal_text((-delta) as nat)
    } else {
        seq!['+'] + decimal_text(delta as nat)
    }
}

proof fn lemma_delta_text(delta: i64)
    ensures
        is_name(delta_text(delta)),
        is_signed(delta_text(delta)),
        delta_of(delta_text(delta)) == Some(delta),
{
    let size = if delta < 0 {
        (-delta) as nat
    } else {
        delta as nat
    };
    let digits = decimal_text(size);
    let name = delta_text(delta);
    lemma_decimal_round_trip(size);
    assert(name.skip(1) =~= digits);
    assert forall|i: int| 0 <= i < name.len() implies is_name_char(#[trigger] name[i]) by {
        if i > 0 {
            assert(name[i] == digits[i - 1]);
            assert(is_ascii_digit(digits[i - 1]));
        }
    }
}

/// A number with a sign asks for an addition without bounds.
pub proof fn lemma_addition(delta: i64)
    ensures
        is_readable(delta_text(delta)),
        first_token(delta_text(delta)) == TokenView::Addition(delta, 0, u128::MAX),
{
    lemma_delta_text(delta);
    lemma_path(delta_text(delta), Seq::empty());
}

/// The range behind a number with a sign holds the bounds of the addition; the lower one is zero
/// and the upper one is the largest number where they are left out.
pub proof fn lemma_bounded_addition(
    delta: i64,
    min: Option<usize>,
    max: Option<usize>,
    rest: Seq<char>,
)
    ensures
        ({
            let text = delta_text(delta) + seq!['['] + index_text(min) + seq!['.', '.']
                + index_text(max) + seq![']'] + rest;
            &&& is_readable(text)
            &&& first_token(text) == TokenView::Addition(
                delta,
                match min {
                    Some(n) => n as u128,
                    None => 0,
                },
                match max {
                    Some(n) => n as u128,
                    None => u128::MAX,
                },
            )
            &&& behind_token(text) == without_slash(rest)
        }),
{
    lemma_delta_text(delta);
    lemma_index_text(min);
    lemma_index_text(max);
    lemma_two_number_range(delta_text(delta), index_text(min), index_text(max), rest);
}

/// A name that starts with an exclamation mark asks for a negation.
pub proof fn lemma_negation(name: Seq<char>)
    requires
        is_name(name),
        name[0] == '!',
    ensures
        is_readable(name),
        first_token(name) is Negation,
{
    lemma_path(name, Seq::empty());
}

/// The range in brackets is read as the regular expression `\[(\d*)(?:..(\d*))?\]` reads it: it is
/// the match that is preferred over every other one, and is missing only where there is no match.
pub proof fn lemma_bracket_is_preferred_match(text: Seq<char>)
    ensures
        match bracket(text) {
            Some(range) => exists|first: int, second: Option<int>|
                {
                    &&& #[trigger] is_bracket_match(text, first, second)
                    &&& range == captured(text, first, second)
                    &&& forall|other_first: int, other_second: Option<int>| #[trigger]
                        is_bracket_match(text, other_first, other_second) ==> is_preferred(
                            first,
                            second,
                            other_first,
                            other_second,
                        )
                },
            None => forall|first: int, second: Option<int>|
                !#[trigger] is_bracket_match(text, first, second),
        },
{
    let inside = text.skip(1);
    lemma_digits_len(inside);
    let n = digits_len(inside) as int;
    assert forall|first: int, second: Option<int>| #[trigger]
        is_bracket_match(text, first, second) implies {
        &&& first <= n
        &&& first == n ==> match second {
            Some(k) => second_number(inside.skip(n)) matches Some((end, _)) && end.len() == k,
            None => n < inside.len() && inside[n] == ']',
        }
        &&& first == n - 1 ==> match second {
            Some(k) => second_number(inside.skip(n - 1)) matches Some((end, _)) && end.len() == k,
            None => false,
        }
        &&& first < n - 1 ==> n < inside.len() && inside[n] == ']'
    } by {
        lemma_bracket_candidates(text, first, second);
    }
    if text.len() > 0 && text[0] == '[' {
        if let Some((end, rest)) = second_number(inside.skip(n)) {
            lemma_second_number_match(text, n);
            assert(is_bracket_match(text, n, Some(end.len() as int)));
        } else if n < inside.len() && inside[n] == ']' {
            assert forall|i: int| 1 <= i <= n implies is_digit(#[trigger] text[i]) by {
                assert(inside[i - 1] == text[i]);
            }
            assert(is_bracket_match(text, n, None));
            assert(captured(text, n, None).rest =~= inside.skip(n + 1));
            assert(captured(text, n, None).start =~= inside.take(n));
        } else if n > 0 {
            if let Some((end, rest)) = second_number(inside.skip(n - 1)) {
                lemma_second_number_match(text, n - 1);
                assert(is_bracket_match(text, n - 1, Some(end.len() as int)));
            }
        }
    }
}

/// A second number behind `first` digits is a match, and captures what it is read as.
proof fn lemma_second_number_match(text: Seq<char>, first: int)
    requires
        text.len() > 0,
        text[0] == '[',
        0 <= first <= digits_len(text.skip(1)),
        second_number(text.skip(1).skip(first)) is Some,
    ensures
        ({
            let (end, rest) = second_number(text.skip(1).skip(first)).unwrap();
            &&& is_bracket_match(text, first, Some(end.len() as int))
            &&& captured(text, first, Some(end.len() as int)) == Bracket {
                start: text.skip(1).take(first),
                end: Some(end),
                rest,
            }
        }),
{
    let inside = text.skip(1);
    lemma_digits_len(inside);
    let pair = inside.skip(first);
    let number = pair.skip(2);
    lemma_digits_len(number);
    let (end, rest) = second_number(pair).unwrap();
    let second = end.len() as int;
    assert(second == digits_len(number));
    assert(pair[0] == text[first + 1]);
    assert(pair[1] == text[first + 2]);
    assert(number[second] == text[first + second + 3]);
    assert forall|i: int| 1 <= i <= first implies is_digit(#[trigger] text[i]) by {
        assert(inside[i - 1] == text[i]);
    }
    assert forall|i: int| first + 3 <= i < first + second + 3 implies is_digit(
        #[trigger] text[i],
    ) by {
        assert(number[i - first - 3] == text[i]);
    }
    let range = captured(text, first, Some(second));
    assert(range.start =~= inside.take(first));
    assert(range.end.unwrap() =~= end);
    assert(range.rest =~= rest);
}

/// The ways in which a match can end.
proof fn lemma_bracket_candidates(text: Seq<char>, first: int, second: Option<int>)
    requires
        is_bracket_match(text, first, second),
    ensures
        ({
            let inside = text.skip(1);
            let n = digits_len(inside) as int;
            &&& first <= n
            &&& first == n ==> match second {
                Some(k) => second_number(inside.skip(n)) matches Some((end, _)) && end.len() == k,
                None => n < inside.len() && inside[n] == ']',
            }
            &&& first == n - 1 ==> match second {
                Some(k) => second_number(inside.skip(n - 1)) matches Some((end, _)) && end.len()
                    == k,
                None => false,
            }
            &&& first < n - 1 ==> n < inside.len() && inside[n] == ']'
        }),
{
    let inside = text.skip(1);
    lemma_digits_len(inside);
    let n = digits_len(inside) as int;
    assert(!is_digit(']'));
    if first > n {
        assert(is_digit(text[n + 1]));
        assert(inside[n] == text[n + 1]);
    }
    match second {
        None => {
            assert(inside[first] == text[first + 1]);
            if first < n {
                assert(is_digit(inside[first]));
            }
        },
        Some(k) => {
            let pair = inside.skip(first);
            let number = pair.skip(2);
            assert forall|i: int| 0 <= i < k implies is_digit(#[trigger] number[i]) by {
                assert(number[i] == text[first + 3 + i]);
            }
            assert(number[k] == text[first + k + 3]);
            lemma_digits_len_is(number, k);
            assert(pair[0] == text[first + 1]);
            assert(pair[1] == text[first + 2]);
            assert(second_number(pair) is Some);
            if first < n - 1 {
                assert(inside[first + k + 2] == text[first + k + 3]);
                if first + k + 2 < n {
                    assert(is_digit(inside[first + k + 2]));
                } else if first + k + 2 > n {
                    assert(number[n - first - 2] == inside[n]);
                    assert(is_digit(number[n - first - 2]));
                }
            }
        },
    }
}

/// A name is made of all characters but the slash, the opening bracket and white space.
pub proof fn lemma_name_chars(c: char)
    ensures
        is_name_char(c) <==> c != '/' && c != '[' && !seq![
            '\u{9}', '\u{a}', '\u{b}', '\u{c}', '\u{d}', '\u{20}', '\u{85}', '\u{a0}',
            '\u{1680}', '\u{2000}', '\u{2001}', '\u{2002}', '\u{2003}', '\u{2004}',
            '\u{2005}', '\u{2006}', '\u{2007}', '\u{2008}', '\u{2009}', '\u{200a}',
            '\u{2028}', '\u{2029}', '\u{202f}', '\u{205f}', '\u{3000}',
        ].contains(c),
{
    let spaces = seq![
        '\u{9}', '\u{a}', '\u{b}', '\u{c}', '\u{d}', '\u{20}', '\u{85}', '\u{a0}',
        '\u{1680}', '\u{2000}', '\u{2001}', '\u{2002}', '\u{2003}', '\u{2004}',
        '\u{2005}', '\u{2006}', '\u{2007}', '\u{2008}', '\u{2009}', '\u{200a}',
        '\u{2028}', '\u{2029}', '\u{202f}', '\u{205f}', '\u{3000}',
    ];
    let code = c as int;
    if 0x09 <= code <= 0x0d {
        assert(spaces[code - 0x09] == c);
    } else if 0x2000 <= code <= 0x200a {
        assert(spaces[code - 0x2000 + 9] == c);
    } else if code == 0x20 {
        assert(spaces[5] == c);
    } else if code == 0x85 {
        assert(spaces[6] == c);
    } else if code == 0xa0 {
        assert(spaces[7] == c);
    } else if code == 0x1680 {
        assert(spaces[8] == c);
    } else if code == 0x2028 {
        assert(spaces[20] == c);
    } else if code == 0x2029 {
        assert(spaces[21] == c);
    } else if code == 0x202f {
        assert(spaces[22] == c);
    } else if code == 0x205f {
        assert(spaces[23] == c);
    } else if code == 0x3000 {
        assert(spaces[24] == c);
    }
}

/// `text` is `name`, which goes as far as a name can, and `rest`, perhaps with one slash in front.
pub open spec fn starts_with_name(text: Seq<char>, name: Seq<char>, rest: Seq<char>) -> bool {
    &&& is_name(name)
    &&& rest.len() > 0 ==> !is_name_char(rest[0])
    &&& text == name + rest || text == seq!['/'] + name + rest
}

/// The kind of a token depends on the first character of its name: an exclamation mark asks for a
/// negation; a plus or minus sign for the addition of the number that the digits behind it denote;
/// anything else is an address, with the whole name.
pub proof fn lemma_token_kinds(text: Seq<char>, name: Seq<char>, rest: Seq<char>)
    requires
        starts_with_name(text, name, rest),
    ensures
        name[0] == '!' ==> is_readable(text) && first_token(text) is Negation,
        name[0] == '+' || name[0] == '-' ==> {
            let digits = name.skip(1);
            let number = if name[0] == '-' {
                -(decimal(digits) as int)
            } else {
                decimal(digits) as int
            };
            &&& is_readable(text) <==> digits.len() > 0 && all_ascii_digits(digits) && i64::MIN
                <= number <= i64::MAX
            &&& is_readable(text) ==> (first_token(text) matches TokenView::Addition(delta, _, _)
                && delta == number)
        },
        name[0] != '!' && name[0] != '+' && name[0] != '-' ==> (first_token(text)
            matches TokenView::Address(whole, _) && whole == name),
        bracket(rest) is None ==> behind_token(text) == without_slash(rest),
        bracket(rest) is Some ==> behind_token(text) == without_slash(bracket(rest).unwrap().rest),
{
    let path = name + rest;
    lemma_name_len_is(name, rest);
    assert(path[0] == name[0]);
    assert(path.take(name.len() as int) =~= name);
    assert(path.skip(name.len() as int) =~= rest);
    if text == path {
        assert(without_slash(text) == path);
    } else {
        assert(text =~= seq!['/'] + path);
        assert(text.skip(1) =~= path);
        assert(without_slash(text) == path);
    }
}

/// Where there is an address, all that the client wrote from the start, or behind one slash, up to
/// the next slash, opening bracket or white space is its name.
pub proof fn lemma_address_is_whole_name(text: Seq<char>, name: Seq<char>, range: Option<ByteRange>)
    requires
        first_token(text) == TokenView::Address(name, range),
    ensures
        exists|rest: Seq<char>| #[trigger] starts_with_name(text, name, rest),
{
    let path = without_slash(text);
    lemma_name_run(path);
    let n = name_len(path) as int;
    let rest = path.skip(n);
    assert(path =~= path.take(n) + rest);
    if text.len() > 0 && text[0] == '/' {
        assert(text =~= seq!['/'] + name + rest);
    } else {
        assert(text =~= name + rest);
    }
    assert(starts_with_name(text, name, rest));
}

/// The characters of a name at the start of `text`, and the one behind them.
proof fn lemma_name_run(text: Seq<char>)
    ensures
        name_len(text) <= text.len(),
        forall|i: int| 0 <= i < name_len(text) ==> is_name_char(#[trigger] text[i]),
        name_len(text) < text.len() ==> !is_name_char(text[name_len(text) as int]),
    decreases text.len(),
{
    if text.len() > 0 && is_name_char(text[0]) {
        let tail = text.skip(1);
        lemma_name_run(tail);
        assert forall|i: int| 0 <= i < name_len(text) implies is_name_char(#[trigger] text[i]) by {
            if i > 0 {
                assert(tail[i - 1] == text[i]);
            }
        }
    }
}

/// Digits denote an index exactly if there are some and the number that they denote fits into
/// `usize`; nothing and too large a number count as left out.
pub open spec fn denotes(digits: Seq<char>, index: Option<usize>) -> bool {
    match index {
        Some(n) => digits.len() > 0 && decimal(digits) == n,
        None => digits.len() == 0 || decimal(digits) > usize::MAX,
    }
}

proof fn lemma_denotes(digits: Seq<char>, index: Option<usize>)
    requires
        all_ascii_digits(digits),
        denotes(digits, index),
    ensures
        index_of(Some(digits)) == index,
{
}

/// The range of an address with two numbers holds the numbers that their digits denote.
pub proof fn lemma_address_with_two_numbers(
    name: Seq<char>,
    start: Seq<char>,
    end: Seq<char>,
    rest: Seq<char>,
    first: Option<usize>,
    last: Option<usize>,
)
    requires
        is_name(name),
        name[0] != '!',
        name[0] != '+',
        name[0] != '-',
        all_ascii_digits(start),
        all_ascii_digits(end),
        denotes(start, first),
        denotes(end, last),
    ensures
        ({
            let text = name + seq!['['] + start + seq!['.', '.'] + end + seq![']'] + rest;
            &&& is_readable(text)
            &&& first_token(text) == TokenView::Address(name, Some((first, last)))
        }),
{
    lemma_two_number_range(name, start, end, rest);
    lemma_denotes(start, first);
    lemma_denotes(end, last);
}

/// The only number behind a number with a sign is the lower bound of the addition; there is no upper
/// one.
pub proof fn lemma_addition_with_one_bound(delta: i64, min: Option<usize>, rest: Seq<char>)
    requires
        second_number(seq![']'] + rest) is None,
    ensures
        ({
            let text = delta_text(delta) + seq!['['] + index_text(min) + seq![']'] + rest;
            &&& is_readable(text)
            &&& first_token(text) == TokenView::Addition(
                delta,
                match min {
                    Some(n) => n as u128,
                    None => 0,
                },
                u128::MAX,
            )
            &&& behind_token(text) == without_slash(rest)
        }),
{
    lemma_delta_text(delta);
    lemma_index_text(min);
    lemma_one_number_range(delta_text(delta), index_text(min), rest);
}

/// One slash is taken off the start of a text, and nothing else.
pub proof fn lemma_one_slash(text: Seq<char>)
    ensures
        without_slash(seq!['/'] + text) == text,
        text.len() == 0 || text[0] != '/' ==> without_slash(text) == text,
{
    assert((seq!['/'] + text).skip(1) =~= text);
}

/// The range of an address with one number is the byte with this number, or all bytes if there is no
/// number; only the largest number has no byte behind it and cannot be read.
pub proof fn lemma_address_with_one_number(
    name: Seq<char>,
    start: Seq<char>,
    rest: Seq<char>,
    index: Option<usize>,
)
    requires
        is_name(name),
        name[0] != '!',
        name[0] != '+',
        name[0] != '-',
        all_ascii_digits(start),
        second_number(seq![']'] + rest) is None,
        denotes(start, index),
    ensures
        ({
            let text = name + seq!['['] + start + seq![']'] + rest;
            &&& is_readable(text) <==> index != Some(usize::MAX)
            &&& is_readable(text) ==> (first_token(text) matches TokenView::Address(whole, Some(range))
                && whole == name && match index {
                Some(n) => range.0 == Some(n) && range.1 is Some && range.1.unwrap() == n + 1,
                None => range.0 is None && range.1 is None,
            })
        }),
{
    lemma_one_number_range(name, start, rest);
    lemma_denotes(start, index);
}

/// An address that is not followed by a range has none, and can be read.
pub proof fn lemma_address_without_range(text: Seq<char>, name: Seq<char>, rest: Seq<char>)
    requires
        starts_with_name(text, name, rest),
        name[0] != '!',
        name[0] != '+',
        name[0] != '-',
        bracket(rest) is None,
    ensures
        is_readable(text),
        first_token(text) == TokenView::Address(name, None),
{
    lemma_name_len_is(name, rest);
    let path = name + rest;
    assert(path[0] == name[0]);
    assert(path.take(name.len() as int) =~= name);
    assert(path.skip(name.len() as int) =~= rest);
    if text != path {
        assert(text.skip(1) =~= path);
    }
    assert(without_slash(text) == path);
}

/// Digits are the ten ASCII digits, and beyond ASCII what the regular expression `\d` matches; those
/// beyond ASCII can stand in a range, but denote no number.
pub proof fn lemma_digits(c: char, digits: Seq<char>)
    ensures
        (c as nat) < 128 ==> (is_digit(c) <==> "0123456789"@.contains(c)),
        (c as nat) >= 128 ==> (is_digit(c) <==> regex_search("\\d"@, seq![c]) == Some(true)),
        !all_ascii_digits(digits) ==> index_of(Some(digits)) is None,
        index_of(None) is None,
{
    reveal_strlit("0123456789");
    if is_ascii_digit(c) {
        assert("0123456789"@[c as int - '0' as int] == c);
    }
}

/// A token holds what its view holds.
pub proof fn lemma_token_fields(token: InputToken)
    ensures
        match token {
            InputToken::Address(name, range) => token@ == TokenView::Address(name@, range),
            InputToken::Negation => token@ is Negation,
            InputToken::Addition(delta, min, max) => token@ == TokenView::Addition(delta, min, max),
            InputToken::Nothing => token@ is Nothing,
        },
{
}

} // verus!
