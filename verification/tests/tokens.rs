use blemacd::input_token::{consume_token, is_token_readable, try_consume_token, InputToken};

#[test]
fn negation_token() {
    let input = &mut "!/212[51..75]/32".to_string();
    assert_eq!(consume_token(input), InputToken::Negation);
    assert_eq!(input, "212[51..75]/32");

    let input = &mut "!/".to_string();
    assert_eq!(consume_token(input), InputToken::Negation);
    assert_eq!(input, "");
}

#[test]
fn addition_token() {
    let input = &mut "+10/212[51..75]/32".to_string();
    assert_eq!(
        consume_token(input),
        InputToken::Addition(10, u128::MIN, u128::MAX)
    );
    assert_eq!(input, "212[51..75]/32");

    let input = &mut "-156/".to_string();
    assert_eq!(
        consume_token(input),
        InputToken::Addition(-156, u128::MIN, u128::MAX)
    );
    assert_eq!(input, "");
}

#[test]
fn address_token() {
    let input = &mut "/212[51..75]/32".to_string();
    assert_eq!(
        consume_token(input),
        InputToken::Address("212".to_string(), Some((Some(51), Some(75))))
    );
    assert_eq!(input, "32");

    let input = &mut "212[51..75]/32".to_string();
    assert_eq!(
        consume_token(input),
        InputToken::Address("212".to_string(), Some((Some(51), Some(75))))
    );
    assert_eq!(input, "32");

    let input = &mut "212/32".to_string();
    assert_eq!(
        consume_token(input),
        InputToken::Address("212".to_string(), None)
    );
    assert_eq!(input, "32");

    let input = &mut "212".to_string();
    assert_eq!(
        consume_token(input),
        InputToken::Address("212".to_string(), None)
    );
    assert_eq!(input, "");
}

#[test]
fn range_token() {
    let input = &mut "1[51..75]/32".to_string();
    assert_eq!(
        consume_token(input),
        InputToken::Address("1".to_string(), Some((Some(51), Some(75))))
    );
    assert_eq!(input, "32");

    let input = &mut "/2[51..75]/32".to_string();
    assert_eq!(
        consume_token(input),
        InputToken::Address("2".to_string(), Some((Some(51), Some(75))))
    );
    assert_eq!(input, "32");

    let input = &mut "/3[51..]/32".to_string();
    assert_eq!(
        consume_token(input),
        InputToken::Address("3".to_string(), Some((Some(51), None)))
    );
    assert_eq!(input, "32");

    let input = &mut "/4[..75]/32".to_string();
    assert_eq!(
        consume_token(input),
        InputToken::Address("4".to_string(), Some((None, Some(75))))
    );
    assert_eq!(input, "32");

    let input = &mut "/5[6]/32".to_string();
    assert_eq!(
        consume_token(input),
        InputToken::Address("5".to_string(), Some((Some(6), Some(7))))
    );
    assert_eq!(input, "32");

    let input = &mut "/6[..]/32".to_string();
    assert_eq!(
        consume_token(input),
        InputToken::Address("6".to_string(), Some((None, None)))
    );
    assert_eq!(input, "32");

    let input = &mut "/7[]/32".to_string();
    assert_eq!(
        consume_token(input),
        InputToken::Address("7".to_string(), Some((None, None)))
    );
    assert_eq!(input, "32");
}

#[test]
fn consume_source_string() {
    let input = &mut "/32/988".to_string();
    assert_eq!(
        consume_token(input),
        InputToken::Address("32".to_string(), None)
    );
    assert_eq!(input, "988");

    let input = &mut "212/32/988".to_string();
    assert_eq!(
        consume_token(input),
        InputToken::Address("212".to_string(), None)
    );
    assert_eq!(input, "32/988");

    let input = &mut "212".to_string();
    assert_eq!(
        consume_token(input),
        InputToken::Address("212".to_string(), None)
    );
    assert_eq!(input, "");
    assert_eq!(consume_token(input), InputToken::Nothing);
}

/// Digits of a group of a match, as a number.
fn index(group: Option<regex::Match>) -> Option<usize> {
    group.and_then(|digits| digits.as_str().parse::<usize>().ok())
}

/// The token at the start of `text` and what is left behind it, as the regular expression of a
/// token reads it.
fn token_by_pattern(pattern: &regex::Regex, text: &str) -> (InputToken, String) {
    let groups = match pattern.captures(text) {
        Some(groups) => groups,
        None => return (InputToken::Nothing, text.to_string()),
    };
    let name = groups.get(1).unwrap().as_str();
    let rest = text[groups.get(0).unwrap().end()..].to_string();
    let (start, end) = (groups.get(2), groups.get(3));
    let token = match name.chars().next().unwrap() {
        '!' => InputToken::Negation,
        '+' | '-' => InputToken::Addition(
            name.parse::<i64>().unwrap(),
            index(start).map_or(u128::MIN, |n| n as u128),
            index(end).map_or(u128::MAX, |n| n as u128),
        ),
        _ => InputToken::Address(
            name.to_string(),
            if start.is_none() && end.is_none() {
                None
            } else {
                Some(match index(start) {
                    Some(first) if end.is_some() => (Some(first), index(end)),
                    Some(first) => (Some(first), Some(first + 1)),
                    None => (None, index(end)),
                })
            },
        ),
    };
    (token, rest)
}

/// Holds `consume_token` against the regular expression on every text of at most `len` of the given
/// characters behind `prefix`.
fn compare_with_pattern(prefix: &str, alphabet: &[char], len: usize) {
    let pattern =
        regex::Regex::new(r"^(?:/)?([^/\[\s]+)(?:\[(\d*)(?:..(\d*))?\])?(?:/)?").unwrap();
    let mut texts = vec![prefix.to_string()];
    for _ in 0..len {
        let mut longer = vec![];
        for text in &texts {
            for c in alphabet {
                longer.push(format!("{}{}", text, c));
            }
        }
        for text in &longer {
            if is_token_readable(text) {
                let mut input = text.clone();
                let token = consume_token(&mut input);
                assert_eq!((token, input), token_by_pattern(&pattern, text), "{:?}", text);
            }
        }
        texts = longer;
    }
}

#[test]
fn tokens_follow_the_pattern() {
    compare_with_pattern("", &['1', '[', ']', '.', '/', '\n'], 5);
    compare_with_pattern("", &['a', '+', '!', ' ', '\u{2028}', '\u{3000}', '/'], 4);
}

#[test]
fn ranges_follow_the_pattern() {
    compare_with_pattern("a[", &['1', ']', '.', '/', '\n'], 6);
    compare_with_pattern("a[", &['\u{663}', '\u{b2}', '1', ']', '.'], 3);
    compare_with_pattern("+7[", &['1', ']', '.'], 5);
}

#[test]
fn white_space_ends_a_name() {
    let spaces = [
        '\t', '\n', '\u{b}', '\u{c}', '\r', ' ', '\u{85}', '\u{a0}', '\u{1680}', '\u{2000}',
        '\u{200a}', '\u{2028}', '\u{2029}', '\u{202f}', '\u{205f}', '\u{3000}',
    ];
    for c in spaces {
        let mut input = format!("ab{}cd", c);
        assert_eq!(consume_token(&mut input), InputToken::Address("ab".to_string(), None));
        assert_eq!(input, format!("{}cd", c));
    }
    for c in (0..0x3100).filter_map(char::from_u32) {
        let mut input = format!("a{}", c);
        let is_name = c != '/' && c != '[' && !c.is_whitespace();
        consume_token(&mut input);
        assert_eq!(input.is_empty(), is_name || c == '/', "{:?}", c);
    }
}

#[test]
fn digits_beyond_ascii() {
    let input = &mut "a[\u{663}\u{664}..\u{665}]/x".to_string();
    assert_eq!(consume_token(input), InputToken::Address("a".to_string(), Some((None, None))));
    assert_eq!(input, "x");

    let input = &mut "a[\u{b2}]/x".to_string();
    assert_eq!(consume_token(input), InputToken::Address("a".to_string(), None));
    assert_eq!(input, "[\u{b2}]/x");
}

#[test]
fn unusual_ranges() {
    let cases = [
        ("a[5-7]", Some((Some(5), None)), ""),
        ("a[5-75]", Some((Some(5), Some(5))), ""),
        ("a[5.]", Some((None, None)), ""),
        ("a[6]/32]", Some((Some(6), Some(32))), ""),
        ("a[6", None, "[6"),
        ("a[x]", None, "[x]"),
        ("a[99999999999999999999999..3]", Some((None, Some(3))), ""),
    ];
    for (text, range, rest) in cases {
        let mut input = text.to_string();
        assert_eq!(consume_token(&mut input), InputToken::Address("a".to_string(), range));
        assert_eq!(input, rest);
    }
}

#[test]
fn bounded_addition() {
    let input = &mut "+10[3..40]/x".to_string();
    assert_eq!(consume_token(input), InputToken::Addition(10, 3, 40));
    assert_eq!(input, "x");

    let input = &mut "-9223372036854775808[..7]".to_string();
    assert_eq!(consume_token(input), InputToken::Addition(i64::MIN, 0, 7));

    let input = &mut "+9223372036854775807[7]".to_string();
    assert_eq!(consume_token(input), InputToken::Addition(i64::MAX, 7, u128::MAX));
}

#[test]
fn unreadable_tokens() {
    for text in ["+", "-", "+x", "+-1", "+9223372036854775808", "-9223372036854775809"] {
        assert!(!is_token_readable(text));
        let mut input = text.to_string();
        assert_eq!(try_consume_token(&mut input), None);
        assert_eq!(input, text);
    }
    let last = format!("a[{}]", usize::MAX);
    assert!(!is_token_readable(&last));
    let open = format!("a[{}..]", usize::MAX);
    assert!(is_token_readable(&open));
    let mut input = "a/b".to_string();
    assert_eq!(
        try_consume_token(&mut input),
        Some(InputToken::Address("a".to_string(), None))
    );
    assert_eq!(input, "b");
}

#[test]
fn slashes_around_tokens() {
    let mut input = "/a/b//c".to_string();
    assert_eq!(consume_token(&mut input), InputToken::Address("a".to_string(), None));
    assert_eq!(input, "b//c");
    assert_eq!(consume_token(&mut input), InputToken::Address("b".to_string(), None));
    assert_eq!(input, "/c");
    assert_eq!(consume_token(&mut input), InputToken::Address("c".to_string(), None));
    assert_eq!(input, "");

    for text in ["", "/", "//a", " a", "[1]"] {
        let mut input = text.to_string();
        assert_eq!(consume_token(&mut input), InputToken::Nothing);
        assert_eq!(input, text);
    }
}
