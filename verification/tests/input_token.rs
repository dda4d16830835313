use blemacd::input_token::{adjust_bytes, consume_token, replace_slice, InputToken};

#[test]
fn input_token_adjust_bytes_test() {
    assert_eq!(adjust_bytes(&vec![1, 2, 3], 3), &[1, 2, 3]);
    assert_eq!(adjust_bytes(&vec![1, 2, 3], 5), &[0, 0, 1, 2, 3]);
    assert_eq!(adjust_bytes(&vec![1, 2, 3], 2), &[2, 3]);
    assert_eq!(adjust_bytes(&vec![1, 2, 3], 1), &[3]);
}

#[test]
fn input_token_replace_slice_ok() {
    assert_eq!(replace_slice(&vec![1, 2, 3], &vec![1, 4], None), &[0, 1, 4]);
    assert_eq!(replace_slice(&vec![1], &vec![1, 4], None), &[4]);
    assert_eq!(replace_slice(&vec![1, 2, 3], &vec![0, 0, 0, 1, 4], None), &[0, 1, 4]);
    assert_eq!(replace_slice(&vec![1, 2, 3], &vec![4], None), &[0, 0, 4]);

    assert_eq!(replace_slice(&vec![1, 2, 3], &vec![5, 4], Some((Some(0), Some(2)))), &[5, 4, 3]);
    assert_eq!(replace_slice(&vec![1, 2, 3], &vec![4], Some((Some(0), Some(2)))), &[0, 4, 3]);
    assert_eq!(replace_slice(&vec![1, 2, 3], &vec![0, 0, 0, 5, 4], Some((Some(0), Some(2)))), &[5, 4, 3]);

    assert_eq!(replace_slice(&vec![1, 2, 3], &vec![0, 0, 0, 0, 4], Some((Some(1), Some(2)))), &[1, 4, 3]);

    assert_eq!(replace_slice(&vec![1, 2, 3, 4], &vec![6, 7], Some((None, Some(3)))), &[0, 6, 7, 4]);
    assert_eq!(replace_slice(&vec![1, 2, 3, 4], &vec![6], Some((None, Some(3)))), &[0, 0, 6, 4]);
    assert_eq!(replace_slice(&vec![1, 2, 3, 4], &vec![6, 7, 8, 9], Some((None, Some(3)))), &[7, 8, 9, 4]);

    assert_eq!(replace_slice(&vec![1, 2, 3, 4], &vec![6, 7], Some((Some(1), None))), &[1, 0, 6, 7]);
    assert_eq!(replace_slice(&vec![1, 2, 3, 4], &vec![6], Some((Some(1), None))), &[1, 0, 0, 6]);
    assert_eq!(replace_slice(&vec![1, 2, 3, 4], &vec![0, 6, 7, 8, 9], Some((Some(1), None))), &[1, 7, 8, 9]);

    assert_eq!(replace_slice(&vec![1, 2, 3, 4], &vec![6, 7], Some((None, None))), &[0, 0, 6, 7]);
    assert_eq!(replace_slice(&vec![1, 2, 3, 4], &vec![6, 7, 8, 9, 10, 11], Some((None, None))), &[8, 9, 10, 11]);
}

#[test]
#[should_panic]
fn input_token_replace_slice_incorrect_range() {
    replace_slice(&vec![1], &vec![1, 4], Some((Some(3), Some(0))));
}

#[test]
#[should_panic]
fn input_token_replace_slice_out_of_range() {
    replace_slice(&vec![1], &vec![1, 4], Some((Some(0), Some(5))));
}

#[test]
fn input_token_negation_token() {
    let input = &mut "!/212[51..75]/32".to_string();
    assert_eq!(consume_token(input), InputToken::Negation);
    assert_eq!(input, "212[51..75]/32");

    let input = &mut "!/".to_string();
    assert_eq!(consume_token(input), InputToken::Negation);
    assert_eq!(input, "");
}

#[test]
fn input_token_address_token() {
    let input = &mut "/212[51..75]/32".to_string();
    assert_eq!(consume_token(input), InputToken::Address("212".to_string(), Some((Some(51), Some(75)))));
    assert_eq!(input, "32");

    let input = &mut "212[51..75]/32".to_string();
    assert_eq!(consume_token(input), InputToken::Address("212".to_string(), Some((Some(51), Some(75)))));
    assert_eq!(input, "32");

    let input = &mut "212/32".to_string();
    assert_eq!(consume_token(input), InputToken::Address("212".to_string(), None));
    assert_eq!(input, "32");

    let input = &mut "212".to_string();
    assert_eq!(consume_token(input), InputToken::Address("212".to_string(), None));
    assert_eq!(input, "");
}

#[test]
fn input_token_range_token() {
    let input = &mut "1[51..75]/32".to_string();
    assert_eq!(consume_token(input), InputToken::Address("1".to_string(), Some((Some(51), Some(75)))));
    assert_eq!(input, "32");

    let input = &mut "/2[51..75]/32".to_string();
    assert_eq!(consume_token(input), InputToken::Address("2".to_string(), Some((Some(51), Some(75)))));
    assert_eq!(input, "32");

    let input = &mut "/3[51..]/32".to_string();
    assert_eq!(consume_token(input), InputToken::Address("3".to_string(), Some((Some(51), None))));
    assert_eq!(input, "32");

    let input = &mut "/4[..75]/32".to_string();
    assert_eq!(consume_token(input), InputToken::Address("4".to_string(), Some((None, Some(75)))));
    assert_eq!(input, "32");

    let input = &mut "/5[6]/32".to_string();
    assert_eq!(consume_token(input), InputToken::Address("5".to_string(), Some((Some(6), Some(7)))));
    assert_eq!(input, "32");

    let input = &mut "/6[..]/32".to_string();
    assert_eq!(consume_token(input), InputToken::Address("6".to_string(), Some((None, None))));
    assert_eq!(input, "32");

    let input = &mut "/7[]/32".to_string();
    assert_eq!(consume_token(input), InputToken::Address("7".to_string(), Some((None, None))));
    assert_eq!(input, "32");
}

#[test]
fn input_token_consume_source_string() {
    let input = &mut "/32/988".to_string();
    assert_eq!(consume_token(input), InputToken::Address("32".to_string(), None));
    assert_eq!(input, "988");

    let input = &mut "212/32/988".to_string();
    assert_eq!(consume_token(input), InputToken::Address("212".to_string(), None));
    assert_eq!(input, "32/988");

    let input = &mut "212".to_string();
    assert_eq!(consume_token(input), InputToken::Address("212".to_string(), None));
    assert_eq!(input, "");
    assert_eq!(consume_token(input), InputToken::Nothing);
}
