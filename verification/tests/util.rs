use tuple_space::util::{
    binary_string, find_byte, take_first_n_const, take_range, DisplayBinary, SliceU8,
    TakeIndexError, VecU8,
};

#[test]
fn first_n() {
    assert_eq!(take_first_n_const::<u8, 4>(&[1, 2, 3, 4, 5]), Ok([1, 2, 3, 4]));
    assert_eq!(take_first_n_const::<u8, 4>(&[1, 2, 3, 4]), Ok([1, 2, 3, 4]));
    assert_eq!(take_first_n_const::<u8, 4>(&[1, 2, 3]), Err(TakeIndexError(4)));
    assert_eq!(take_first_n_const::<u16, 0>(&[]), Ok([]));
}

#[test]
fn ranges() {
    let items = [10, 20, 30, 40];
    assert_eq!(take_range(&items, 1..3), Ok(&items[1..3]));
    assert_eq!(take_range(&items, 0..4), Ok(&items[..]));
    assert_eq!(take_range(&items, 2..2), Ok(&items[2..2]));
    assert_eq!(take_range(&items, 1..5), Err(TakeIndexError(5)));
    assert_eq!(take_range(&items, 3..2), Err(TakeIndexError(3)));
    assert_eq!(take_range(&items, 6..5), Err(TakeIndexError(5)));
}

#[test]
fn byte_search() {
    assert_eq!(find_byte(b"a,b,c", 0, 5, b','), 1);
    assert_eq!(find_byte(b"a,b,c", 2, 5, b','), 3);
    assert_eq!(find_byte(b"a,b,c", 4, 5, b','), 5);
    assert_eq!(find_byte(b"", 0, 0, b','), 0);
}

#[test]
fn binary_notation() {
    assert_eq!(binary_string(0), "00000000");
    assert_eq!(binary_string(0b1010_0001), "10100001");
    assert_eq!(binary_string(255), "11111111");
    assert_eq!(vec![1u8, 128].display_bin(), vec!["00000001", "10000000"]);
    assert_eq!(SliceU8::from(&[3u8][..]).display_bin(), vec!["00000011"]);
    assert_eq!(VecU8::from(vec![4u8]).display_bin(), vec!["00000100"]);
}

#[test]
fn take_index_error_message() {
    assert_eq!(
        TakeIndexError(1204).message(),
        "TakeIndexError: The provided index 1204 is outside of the bounds of the provided collection."
    );
    assert_eq!(
        TakeIndexError(0).message(),
        "TakeIndexError: The provided index 0 is outside of the bounds of the provided collection."
    );
}
