use blemacd::byte_slices::{
    adjust_bytes, bytes_to_u128, get_slice, is_range_in, replace_slice, u128_to_le_bytes, ByteRange,
};

#[test]
fn byte_slices_adjust_bytes_test() {
    assert_eq!(adjust_bytes(&vec![1, 2, 3], 3), &[1, 2, 3]);
    assert_eq!(adjust_bytes(&vec![1, 2, 3], 5), &[0, 0, 1, 2, 3]);
    assert_eq!(adjust_bytes(&vec![1, 2, 3], 2), &[2, 3]);
    assert_eq!(adjust_bytes(&vec![1, 2, 3], 1), &[3]);
}

#[test]
fn byte_slices_replace_slice_ok() {
    assert_eq!(replace_slice(&vec![1, 2, 3], &vec![1, 4], None), &[0, 1, 4]);
    assert_eq!(replace_slice(&vec![1], &vec![1, 4], None), &[4]);
    assert_eq!(replace_slice(&vec![1, 2, 3], &vec![0, 0, 0, 1, 4], None), &[0, 1, 4]);
    assert_eq!(replace_slice(&vec![1, 2, 3], &vec![4], None), &[0, 0, 4]);

    assert_eq!(replace_slice(&vec![1, 2, 3], &vec![5, 4], Some((Some(0), Some(2)))), &[5, 4, 3]);
    assert_eq!(replace_slice(&vec![1, 2, 3], &vec![4], Some((Some(0), Some(2)))), &[0, 4, 3]);
    assert_eq!(replace_slice(&vec![1, 2, 3], &vec![0, 0, 0, 5, 4], Some((Some(0), Some(2)))), &[5, 4, 3]);

    assert_eq!(replace_slice(&vec![1, 2, 3], &vec![0, 0, 0, 0, 4], Some((Some(1), Some(2)))), &[1, 4, 3]);

    assert_eq!(replace_slice(&vec![1, 2, 3, 4], &vec![6, 7], Some((None, Some(3)))), &[0, 6, 7, 4]);
    assert_eq!(replace_slice(&vec![1, 2, 3, 4], &vec![6], Some((None, Some(3)))), &[0, 0, 6, 4]);
    assert_eq!(replace_slice(&vec![1, 2, 3, 4], &vec![6, 7, 8, 9], Some((None, Some(3)))), &[7, 8, 9, 4]);

    assert_eq!(replace_slice(&vec![1, 2, 3, 4], &vec![6, 7], Some((Some(1), None))), &[1, 0, 6, 7]);
    assert_eq!(replace_slice(&vec![1, 2, 3, 4], &vec![6], Some((Some(1), None))), &[1, 0, 0, 6]);
    assert_eq!(replace_slice(&vec![1, 2, 3, 4], &vec![0, 6, 7, 8, 9], Some((Some(1), None))), &[1, 7, 8, 9]);

    assert_eq!(replace_slice(&vec![1, 2, 3, 4], &vec![6, 7], Some((None, None))), &[0, 0, 6, 7]);
    assert_eq!(replace_slice(&vec![1, 2, 3, 4], &vec![6, 7, 8, 9, 10, 11], Some((None, None))), &[8, 9, 10, 11]);
}

#[test]
#[should_panic]
fn byte_slices_replace_slice_incorrect_range() {
    replace_slice(&vec![1], &vec![1, 4], Some((Some(3), Some(0))));
}

#[test]
#[should_panic]
fn byte_slices_replace_slice_out_of_range() {
    replace_slice(&vec![1], &vec![1, 4], Some((Some(0), Some(5))));
}

/// Every range of a value of `len` bytes.
fn ranges(len: usize) -> Vec<Option<ByteRange>> {
    let mut all: Vec<Option<ByteRange>> = vec![None, Some((None, None))];
    for start in 0..len + 1 {
        all.push(Some((Some(start), None)));
        all.push(Some((None, Some(start))));
        for end in start..len + 1 {
            all.push(Some((Some(start), Some(end))));
        }
    }
    all
}

#[test]
fn get_slice_selects_range() {
    let value = vec![1, 2, 3, 4];
    assert_eq!(get_slice(&value, None), &[1, 2, 3, 4]);
    assert_eq!(get_slice(&value, Some((None, None))), &[1, 2, 3, 4]);
    assert_eq!(get_slice(&value, Some((Some(1), Some(3)))), &[2, 3]);
    assert_eq!(get_slice(&value, Some((Some(1), None))), &[2, 3, 4]);
    assert_eq!(get_slice(&value, Some((None, Some(3)))), &[1, 2, 3]);
    assert_eq!(get_slice(&value, Some((Some(4), None))), &[] as &[u8]);
}

#[test]
fn ranges_inside_and_outside() {
    assert!(is_range_in(&None, 0));
    assert!(is_range_in(&Some((None, None)), 0));
    assert!(is_range_in(&Some((Some(1), Some(3))), 3));
    assert!(!is_range_in(&Some((Some(3), Some(0))), 1));
    assert!(!is_range_in(&Some((Some(0), Some(5))), 1));
    assert!(!is_range_in(&Some((Some(2), None)), 1));
    assert!(!is_range_in(&Some((None, Some(2))), 1));
}

#[test]
fn what_is_written_is_read() {
    let source = vec![1, 2, 3, 4];
    let value = vec![9, 8, 7];
    for range in ranges(4) {
        let width = get_slice(&source, range).len();
        let written = replace_slice(&source, &value, range);
        assert_eq!(written.len(), source.len());
        assert_eq!(get_slice(&written, range), adjust_bytes(&value, width).as_slice());
        let again = replace_slice(&written, &vec![5], range);
        assert_eq!(again, replace_slice(&source, &vec![5], range));
    }
}

#[test]
fn writing_back_changes_nothing() {
    let source = vec![1, 2, 3, 4];
    for range in ranges(4) {
        let part = get_slice(&source, range).to_vec();
        assert_eq!(replace_slice(&source, &part, range), source);
    }
}

#[test]
fn whole_ranges_agree() {
    let source = vec![1, 2, 3];
    let value = vec![7, 8];
    let expected = vec![0, 7, 8];
    assert_eq!(replace_slice(&source, &value, None), expected);
    assert_eq!(replace_slice(&source, &value, Some((None, None))), expected);
    assert_eq!(replace_slice(&source, &value, Some((Some(0), Some(3)))), expected);
}

#[test]
fn numbers_are_big_endian() {
    assert_eq!(bytes_to_u128(&vec![]), 0);
    assert_eq!(bytes_to_u128(&vec![1, 2]), 0x0102);
    assert_eq!(bytes_to_u128(&vec![0xff; 16]), u128::MAX);
    let mut long = vec![7];
    long.extend(vec![0; 15]);
    long.push(5);
    assert_eq!(bytes_to_u128(&long), 5);
    assert_eq!(bytes_to_u128(&adjust_bytes(&vec![1, 2, 3], 2)), 0x0203);
}

#[test]
fn little_endian_bytes() {
    let value = 0x0102_0304_0506_0708_090a_0b0c_0d0e_0f10_u128;
    assert_eq!(u128_to_le_bytes(value), value.to_le_bytes().to_vec());
    let mut reversed = u128_to_le_bytes(value);
    reversed.reverse();
    assert_eq!(bytes_to_u128(&reversed), value);
}
