use ferric::builtin::{substr, substr_check, SubstrRefusal};

#[test]
fn substr_of_words() {
    let s = "foo bar baz";
    assert_eq!(substr_check(s, 4, 7), None);
    assert_eq!(substr(s, 4, 7), "bar");
    assert_eq!(substr(s, 0, 11), s);
    assert_eq!(substr(s, 3, 3), "");
}

#[test]
fn substr_refusals() {
    let s = "h\u{e9}llo";
    assert_eq!(substr_check(s, -1, 2), Some(SubstrRefusal::NegativeIndex));
    assert_eq!(substr_check(s, 1, -2), Some(SubstrRefusal::NegativeIndex));
    assert_eq!(substr_check(s, 6, 6), Some(SubstrRefusal::StartOutOfBounds));
    assert_eq!(substr_check(s, 0, 7), Some(SubstrRefusal::EndOutOfBounds));
    assert_eq!(substr_check(s, 3, 1), Some(SubstrRefusal::NotSliceable));
    assert_eq!(substr_check(s, 2, 4), Some(SubstrRefusal::NotSliceable));
    assert_eq!(substr_check(s, 1, 3), None);
    assert_eq!(substr(s, 1, 3), "\u{e9}");
}
