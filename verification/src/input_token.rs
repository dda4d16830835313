//! The grammar of a request line.
//!
//! A request is a path of tokens that are separated by slashes. A token is a name, which holds
//! neither a slash, an opening bracket nor white space, and may be followed by a range in brackets:
//! `[start]`, `[start..end]`, or either of them with a number left out. As a regular expression, one
//! token with the slashes around it is
//!
//! ```text
//! ^(?:/)?([^/\[\s]+)(?:\[(\d*)(?:..(\d*))?\])?(?:/)?
//! ```
//!
//! where, of several ways to match, the earlier alternative and the longer repetition win.

use vstd::prelude::*;

pub use crate::byte_slices::{adjust_bytes, get_slice, replace_slice};

use crate::byte_slices::ByteRange;
use crate::text::{chars_of, decimal_up_to, is_ascii_digit, parse_decimal};

verus! {

/// One step of a request.
#[derive(PartialEq, Debug)]
pub enum InputToken {
    /// A name, and the range that follows it.
    Address(String, Option<ByteRange>),
    /// Turn zero into one and everything else into zero.
    Negation,
    /// Add a number, and keep the sum between two bounds.
    Addition(i64, u128, u128),
    /// There is no token.
    Nothing,
}

/// What an [`InputToken`] holds.
pub enum TokenView {
    Address(Seq<char>, Option<ByteRange>),
    Negation,
    Addition(i64, u128, u128),
    Nothing,
}

impl View for InputToken {
    type V = TokenView;

    open spec fn view(&self) -> TokenView {
        match *self {
            InputToken::Address(name, range) => TokenView::Address(name@, range),
            InputToken::Negation => TokenView::Negation,
            InputToken::Addition(delta, min, max) => TokenView::Addition(delta, min, max),
            InputToken::Nothing => TokenView::Nothing,
        }
    }
}

/// Whether `pattern` matches somewhere in `text`, or nothing if it is not a regular expression.
pub uninterp spec fn regex_search(pattern: Seq<char>, text: Seq<char>) -> Option<bool>;

/// Searches with [`regex::Regex::is_match`] for the regular expression that [`regex::Regex::new`]
/// makes of `pattern`; claims only that the answer depends on the two texts and nothing else. The
/// pattern is a small one, since the size from which on a pattern is refused is not the same on all
/// machines.
#[verifier::external_body]
fn search(pattern: &str, text: &str) -> (found: Option<bool>)
    requires
        pattern@ == "\\d"@,
    ensures
        found == regex_search(pattern@, text@),
{
    match regex::Regex::new(pattern) {
        Ok(regex) => Some(regex.is_match(text)),
        Err(_) => None,
    }
}

/// `c` is a decimal digit: an ASCII digit, or a character beyond ASCII that the regular expression
/// `\d` matches.
pub open spec fn is_digit(c: char) -> bool {
    if (c as nat) < 128 {
        is_ascii_digit(c)
    } else {
        regex_search("\\d"@, seq![c]) == Some(true)
    }
}

/// `c` has the Unicode property `White_Space`.
pub open spec fn is_white_space(c: char) -> bool {
    let code = c as nat;
    ||| 0x09 <= code <= 0x0d
    ||| code == 0x20
    ||| code == 0x85
    ||| code == 0xa0
    ||| code == 0x1680
    ||| 0x2000 <= code <= 0x200a
    ||| code == 0x2028
    ||| code == 0x2029
    ||| code == 0x202f
    ||| code == 0x205f
    ||| code == 0x3000
}

/// `c` can stand in a name.
pub open spec fn is_name_char(c: char) -> bool {
    c != '/' && c != '[' && !is_white_space(c)
}

/// Number of characters at the start of `text` that can stand in a name.
pub open spec fn name_len(text: Seq<char>) -> nat
    decreases text.len(),
{
    if text.len() > 0 && is_name_char(text[0]) {
        1 + name_len(text.skip(1))
    } else {
        0
    }
}

/// Number of digits at the start of `text`.
pub open spec fn digits_len(text: Seq<char>) -> nat
    decreases text.len(),
{
    if text.len() > 0 && is_digit(text[0]) {
        1 + digits_len(text.skip(1))
    } else {
        0
    }
}

/// `text` without one slash at its start.
pub open spec fn without_slash(text: Seq<char>) -> Seq<char> {
    if text.len() > 0 && text[0] == '/' {
        text.skip(1)
    } else {
        text
    }
}

/// A range in brackets: the digits of its two numbers, and the text behind it.
pub struct Bracket {
    pub start: Seq<char>,
    pub end: Option<Seq<char>>,
    pub rest: Seq<char>,
}

/// The digits of the second number of a range and the text behind the range, if `text` starts with
/// two characters other than line feeds, digits and a closing bracket.
pub open spec fn second_number(text: Seq<char>) -> Option<(Seq<char>, Seq<char>)> {
    let number = text.skip(2);
    let n = digits_len(number) as int;
    if text.len() >= 2 && text[0] != '\n' && text[1] != '\n' && n < number.len() && number[n]
        == ']' {
        Some((number.take(n), number.skip(n + 1)))
    } else {
        None
    }
}

/// The range in brackets at the start of `text`.
///
/// The two characters in front of the second number can be any, which leaves three ways to read a
/// range. In order of preference: a second number behind all the digits of the first one; no second
/// number; a second number behind all but the last digit of the first one.
pub open spec fn bracket(text: Seq<char>) -> Option<Bracket> {
    let inside = text.skip(1);
    let n = digits_len(inside) as int;
    if text.len() == 0 || text[0] != '[' {
        None
    } else if let Some((end, rest)) = second_number(inside.skip(n)) {
        Some(Bracket { start: inside.take(n), end: Some(end), rest })
    } else if n < inside.len() && inside[n] == ']' {
        Some(Bracket { start: inside.take(n), end: None, rest: inside.skip(n + 1) })
    } else if n > 0 {
        match second_number(inside.skip(n - 1)) {
            Some((end, rest)) => Some(Bracket { start: inside.take(n - 1), end: Some(end), rest }),
            None => None,
        }
    } else {
        None
    }
}

/// The parts of a token, and the text behind it.
pub struct Reading {
    pub name: Seq<char>,
    pub start: Option<Seq<char>>,
    pub end: Option<Seq<char>>,
    pub rest: Seq<char>,
}

/// The token at the start of `text`, with the slashes around it, if there is one.
pub open spec fn reading(text: Seq<char>) -> Option<Reading> {
    let path = without_slash(text);
    let n = name_len(path) as int;
    let behind = path.skip(n);
    if n == 0 {
        None
    } else {
        match bracket(behind) {
            Some(range) => Some(
                Reading {
                    name: path.take(n),
                    start: Some(range.start),
                    end: range.end,
                    rest: without_slash(range.rest),
                },
            ),
            None => Some(
                Reading {
                    name: path.take(n),
                    start: None,
                    end: None,
                    rest: without_slash(behind),
                },
            ),
        }
    }
}

/// The number that `digits` denote, if it is one that fits into `usize`.
pub open spec fn index_of(digits: Option<Seq<char>>) -> Option<usize> {
    match digits {
        Some(digits) => match decimal_up_to(digits, usize::MAX as nat) {
            Some(n) => Some(n as usize),
            None => None,
        },
        None => None,
    }
}

/// The range of an address: the bytes from the first number to the second one, or the one byte at
/// the first number if there is no second one.
pub open spec fn address_range(start: Option<Seq<char>>, end: Option<Seq<char>>) -> Option<
    ByteRange,
> {
    if start is None && end is None {
        None
    } else {
        match index_of(start) {
            Some(first) => Some(
                (
                    Some(first),
                    if end is Some {
                        index_of(end)
                    } else {
                        Some((first + 1) as usize)
                    },
                ),
            ),
            None => Some((None, index_of(end))),
        }
    }
}

/// `name` starts with a sign.
pub open spec fn is_signed(name: Seq<char>) -> bool {
    name.len() > 0 && (name[0] == '+' || name[0] == '-')
}

/// The number that a name with a sign denotes, if it is one that fits into `i64`.
pub open spec fn delta_of(name: Seq<char>) -> Option<i64> {
    let digits = name.skip(1);
    if !is_signed(name) {
        None
    } else if name[0] == '-' {
        match decimal_up_to(digits, (i64::MAX + 1) as nat) {
            Some(n) => Some((-n) as i64),
            None => None,
        }
    } else {
        match decimal_up_to(digits, i64::MAX as nat) {
            Some(n) => Some(n as i64),
            None => None,
        }
    }
}

/// The token that is read as `parts`.
pub open spec fn token_of(parts: Reading) -> TokenView {
    if parts.name[0] == '!' {
        TokenView::Negation
    } else if is_signed(parts.name) {
        TokenView::Addition(
            delta_of(parts.name).unwrap(),
            match index_of(parts.start) {
                Some(min) => min as u128,
                None => 0,
            },
            match index_of(parts.end) {
                Some(max) => max as u128,
                None => u128::MAX,
            },
        )
    } else {
        TokenView::Address(parts.name, address_range(parts.start, parts.end))
    }
}

/// There is no token at the start of `text`, or one whose numbers can be represented: a name that
/// starts with a sign is a number, and there is a byte behind the only number of a range.
pub open spec fn is_readable(text: Seq<char>) -> bool {
    match reading(text) {
        None => true,
        Some(parts) => {
            ||| parts.name[0] == '!'
            ||| if is_signed(parts.name) {
                delta_of(parts.name) is Some
            } else {
                parts.end is Some || index_of(parts.start) != Some(usize::MAX)
            }
        },
    }
}

/// The token at the start of `text`.
pub open spec fn first_token(text: Seq<char>) -> TokenView {
    match reading(text) {
        None => TokenView::Nothing,
        Some(parts) => token_of(parts),
    }
}

/// What is left of `text` behind its first token.
pub open spec fn behind_token(text: Seq<char>) -> Seq<char> {
    match reading(text) {
        None => text,
        Some(parts) => parts.rest,
    }
}

/// Positions of the parts of a token in the text that it was read from.
struct Spans {
    name: (usize, usize),
    start: Option<(usize, usize)>,
    end: Option<(usize, usize)>,
    rest: usize,
}

/// `span` lies inside of a text of `len` characters.
spec fn is_span(span: (usize, usize), len: nat) -> bool {
    span.0 <= span.1 <= len
}

/// What `span` selects in `text`.
spec fn spanned(span: Option<(usize, usize)>, text: Seq<char>) -> Option<Seq<char>> {
    match span {
        Some((from, to)) => Some(text.subrange(from as int, to as int)),
        None => None,
    }
}

impl Spans {
    spec fn fits(self, text: Seq<char>) -> bool {
        &&& is_span(self.name, text.len())
        &&& self.name.0 < self.name.1
        &&& self.start matches Some(span) ==> is_span(span, text.len())
        &&& self.end matches Some(span) ==> is_span(span, text.len())
        &&& self.rest <= text.len()
    }

    spec fn parts(self, text: Seq<char>) -> Reading {
        Reading {
            name: text.subrange(self.name.0 as int, self.name.1 as int),
            start: spanned(self.start, text),
            end: spanned(self.end, text),
            rest: text.skip(self.rest as int),
        }
    }
}

/// Whether `c` has the Unicode property `White_Space`.
fn white_space(c: char) -> (r: bool)
    ensures
        r == is_white_space(c),
{
    let code: u32 = c as u32;
    (0x09 <= code && code <= 0x0d) || code == 0x20 || code == 0x85 || code == 0xa0 || code == 0x1680
        || (0x2000 <= code && code <= 0x200a) || code == 0x2028 || code == 0x2029 || code == 0x202f
        || code == 0x205f || code == 0x3000
}

/// Whether `c` is a decimal digit.
fn digit(c: char) -> (r: bool)
    ensures
        r == is_digit(c),
{
    if (c as u32) < 128 {
        c >= '0' && c <= '9'
    } else {
        let mut text: String = String::new();
        text.push(c);
        assert(text@ =~= seq![c]);
        match search("\\d", text.as_str()) {
            Some(found) => found,
            None => false,
        }
    }
}

/// Position behind the characters of a name that start at `from`.
fn name_end(text: &Vec<char>, from: usize) -> (to: usize)
    requires
        from <= text@.len(),
    ensures
        from <= to <= text@.len(),
        to == from + name_len(text@.skip(from as int)),
{
    let mut to: usize = from;
    while to < text.len() && text[to] != '/' && text[to] != '[' && !white_space(text[to])
        invariant
            from <= to <= text@.len(),
            name_len(text@.skip(from as int)) == (to - from) + name_len(text@.skip(to as int)),
        decreases text@.len() - to,
    {
        assert(text@.skip(to as int).skip(1) =~= text@.skip(to + 1));
        to += 1;
    }
    to
}

/// Position behind the digits that start at `from`.
fn digits_end(text: &Vec<char>, from: usize) -> (to: usize)
    requires
        from <= text@.len(),
    ensures
        from <= to <= text@.len(),
        to == from + digits_len(text@.skip(from as int)),
{
    let mut to: usize = from;
    while to < text.len() && digit(text[to])
        invariant
            from <= to <= text@.len(),
            digits_len(text@.skip(from as int)) == (to - from) + digits_len(text@.skip(to as int)),
        decreases text@.len() - to,
    {
        assert(text@.skip(to as int).skip(1) =~= text@.skip(to + 1));
        to += 1;
    }
    to
}

/// Position behind the slash at `at`, or `at` if there is none.
fn slash_end(text: &Vec<char>, at: usize) -> (to: usize)
    requires
        at <= text@.len(),
    ensures
        at <= to <= text@.len(),
        text@.skip(to as int) == without_slash(text@.skip(at as int)),
{
    if at < text.len() && text[at] == '/' {
        assert(text@.skip(at as int).skip(1) =~= text@.skip(at + 1));
        at + 1
    } else {
        at
    }
}

/// Position of the second number of a range, if there is one behind the two characters at `at`.
fn read_second_number(text: &Vec<char>, at: usize) -> (span: Option<(usize, usize)>)
    requires
        at <= text@.len(),
    ensures
        match span {
            Some((from, to)) => at <= from <= to < text@.len() && second_number(
                text@.skip(at as int),
            ) == Some((text@.subrange(from as int, to as int), text@.skip(to + 1))),
            None => second_number(text@.skip(at as int)) is None,
        },
{
    if text.len() - at < 2 || text[at] == '\n' || text[at + 1] == '\n' {
        return None;
    }
    let from: usize = at + 2;
    let to: usize = digits_end(text, from);
    let ghost number = text@.skip(at as int).skip(2);
    assert(number =~= text@.skip(from as int));
    if to < text.len() && text[to] == ']' {
        assert(number.take(to - from) =~= text@.subrange(from as int, to as int));
        assert(number.skip(to - from + 1) =~= text@.skip(to + 1));
        Some((from, to))
    } else {
        None
    }
}

/// Positions of the numbers of the range in brackets at `at`, and of the text behind it.
fn read_bracket(text: &Vec<char>, at: usize) -> (range: Option<
    ((usize, usize), Option<(usize, usize)>, usize),
>)
    requires
        at <= text@.len(),
    ensures
        match range {
            Some((start, end, rest)) => {
                &&& is_span(start, text@.len())
                &&& end matches Some(span) ==> is_span(span, text@.len())
                &&& rest <= text@.len()
                &&& bracket(text@.skip(at as int)) == Some(
                    Bracket {
                        start: text@.subrange(start.0 as int, start.1 as int),
                        end: spanned(end, text@),
                        rest: text@.skip(rest as int),
                    },
                )
            },
            None => bracket(text@.skip(at as int)) is None,
        },
{
    if at >= text.len() || text[at] != '[' {
        return None;
    }
    let from: usize = at + 1;
    let to: usize = digits_end(text, from);
    let ghost inside = text@.skip(at as int).skip(1);
    let ghost n = to - from;
    proof {
        assert(inside =~= text@.skip(from as int));
        assert(inside.take(n) =~= text@.subrange(from as int, to as int));
        assert(inside.skip(n) =~= text@.skip(to as int));
    }
    if let Some(span) = read_second_number(text, to) {
        return Some(((from, to), Some(span), span.1 + 1));
    }
    if to < text.len() && text[to] == ']' {
        assert(inside.skip(n + 1) =~= text@.skip(to + 1));
        return Some(((from, to), None, to + 1));
    }
    if to > from {
        proof {
            assert(inside.take(n - 1) =~= text@.subrange(from as int, to - 1));
            assert(inside.skip(n - 1) =~= text@.skip(to - 1));
        }
        if let Some(span) = read_second_number(text, to - 1) {
            return Some(((from, to - 1), Some(span), span.1 + 1));
        }
    }
    None
}

/// Positions of the parts of the token at the start of `text`.
fn read_token(text: &Vec<char>) -> (spans: Option<Spans>)
    ensures
        match spans {
            Some(spans) => spans.fits(text@) && reading(text@) == Some(spans.parts(text@)),
            None => reading(text@) is None,
        },
{
    let from: usize = slash_end(text, 0);
    let to: usize = name_end(text, from);
    let ghost path = without_slash(text@);
    assert(text@.skip(0) =~= text@);
    if to == from {
        return None;
    }
    proof {
        assert(path.take(to - from) =~= text@.subrange(from as int, to as int));
        assert(path.skip(to - from) =~= text@.skip(to as int));
    }
    match read_bracket(text, to) {
        Some((start, end, behind)) => {
            let rest: usize = slash_end(text, behind);
            Some(Spans { name: (from, to), start: Some(start), end, rest })
        },
        None => {
            let rest: usize = slash_end(text, to);
            Some(Spans { name: (from, to), start: None, end: None, rest })
        },
    }
}

/// The number at `span`, if it is one that fits into `usize`.
fn read_index(text: &Vec<char>, span: Option<(usize, usize)>) -> (index: Option<usize>)
    requires
        span matches Some(span) ==> is_span(span, text@.len()),
    ensures
        index == index_of(spanned(span, text@)),
{
    match span {
        Some((from, to)) => match parse_decimal(text, from, to, usize::MAX as u64) {
            Some(n) => Some(n as usize),
            None => None,
        },
        None => None,
    }
}

/// The number that the name at `span` denotes, if the name has a sign and the number fits into
/// `i64`.
fn read_delta(text: &Vec<char>, span: (usize, usize)) -> (delta: Option<i64>)
    requires
        is_span(span, text@.len()),
        span.0 < span.1,
    ensures
        delta == delta_of(text@.subrange(span.0 as int, span.1 as int)),
{
    let ghost name = text@.subrange(span.0 as int, span.1 as int);
    assert(name.skip(1) =~= text@.subrange(span.0 + 1, span.1 as int));
    let sign: char = text[span.0];
    if sign == '-' {
        match parse_decimal(text, span.0 + 1, span.1, 0x8000_0000_0000_0000) {
            Some(n) => if n == 0x8000_0000_0000_0000 {
                Some(i64::MIN)
            } else {
                Some(-(n as i64))
            },
            None => None,
        }
    } else if sign == '+' {
        match parse_decimal(text, span.0 + 1, span.1, 0x7fff_ffff_ffff_ffff) {
            Some(n) => Some(n as i64),
            None => None,
        }
    } else {
        None
    }
}

/// Whether the numbers of the token at `spans` can be represented.
fn has_readable_numbers(text: &Vec<char>, spans: &Spans) -> (r: bool)
    requires
        spans.fits(text@),
        reading(text@) == Some(spans.parts(text@)),
    ensures
        r == is_readable(text@),
{
    let first: char = text[spans.name.0];
    assert(first == spans.parts(text@).name[0]);
    if first == '!' {
        true
    } else if first == '+' || first == '-' {
        read_delta(text, spans.name).is_some()
    } else if spans.end.is_some() {
        true
    } else {
        match read_index(text, spans.start) {
            Some(index) => index != usize::MAX,
            None => true,
        }
    }
}

/// The range of the address at `spans`.
fn read_range(text: &Vec<char>, spans: &Spans) -> (range: Option<ByteRange>)
    requires
        spans.fits(text@),
        spans.end is Some || index_of(spanned(spans.start, text@)) != Some(usize::MAX),
    ensures
        range == address_range(spanned(spans.start, text@), spanned(spans.end, text@)),
{
    if spans.start.is_none() && spans.end.is_none() {
        return None;
    }
    let end: Option<usize> = read_index(text, spans.end);
    match read_index(text, spans.start) {
        Some(first) => if spans.end.is_some() {
            Some((Some(first), end))
        } else {
            Some((Some(first), Some(first + 1)))
        },
        None => Some((None, end)),
    }
}

/// Whether [`consume_token`] can represent the token at the start of `input`.
pub fn is_token_readable(input: &str) -> (r: bool)
    ensures
        r == is_readable(input@),
{
    let text: Vec<char> = chars_of(input);
    match read_token(&text) {
        Some(spans) => has_readable_numbers(&text, &spans),
        None => true,
    }
}

/// Takes the first token, with the slashes around it, off `input`.
pub fn consume_token(input: &mut String) -> (token: InputToken)
    requires
        is_readable(old(input)@),
    ensures
        token@ == first_token(old(input)@),
        final(input)@ == behind_token(old(input)@),
{
    let text: Vec<char> = chars_of(input.as_str());
    match read_token(&text) {
        Some(spans) => {
            let name: String = input.as_str().substring_char(spans.name.0, spans.name.1).to_owned();
            let rest: String = input.as_str().substring_char(spans.rest, text.len()).to_owned();
            assert(rest@ =~= text@.skip(spans.rest as int));
            let first: char = text[spans.name.0];
            assert(first == spans.parts(text@).name[0]);
            *input = rest;
            if first == '!' {
                InputToken::Negation
            } else if first == '+' || first == '-' {
                let delta: i64 = match read_delta(&text, spans.name) {
                    Some(delta) => delta,
                    None => 0,
                };
                let min: u128 = match read_index(&text, spans.start) {
                    Some(min) => min as u128,
                    None => 0,
                };
                let max: u128 = match read_index(&text, spans.end) {
                    Some(max) => max as u128,
                    None => u128::MAX,
                };
                InputToken::Addition(delta, min, max)
            } else {
                InputToken::Address(name, read_range(&text, &spans))
            }
        },
        None => InputToken::Nothing,
    }
}

/// Takes the first token off `input`, if [`consume_token`] can represent it; leaves `input` as it is
/// if it cannot.
pub fn try_consume_token(input: &mut String) -> (token: Option<InputToken>)
    ensures
        token is Some <==> is_readable(old(input)@),
        match token {
            Some(token) => token@ == first_token(old(input)@) && final(input)@ == behind_token(
                old(input)@,
            ),
            None => final(input)@ == old(input)@,
        },
{
    if is_token_readable(input.as_str()) {
        Some(consume_token(input))
    } else {
        None
    }
}

} // verus!
