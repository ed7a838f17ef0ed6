use pcre2::bytes::RegexBuilder;
use ukstemmer::replace::replace;

#[test]
fn replace_test() {
    let reg = RegexBuilder::new()
        .utf(true)
        .ucp(true)
        .build(r"123")
        .unwrap();
    let s = "012345678".as_bytes();
    let v = reg.find(s).unwrap().unwrap();

    assert_eq!(
        replace(s, "_".as_bytes(), v.start(), v.end()),
        "0_45678".as_bytes()
    );
}

#[test]
fn replace_empty_span_inserts() {
    assert_eq!(replace(&[1u8, 2, 3], &[9u8], 1, 1), vec![1u8, 9, 2, 3]);
}

#[test]
fn replace_whole_and_end() {
    assert_eq!(replace(b"abc", b"", 0, 3), Vec::<u8>::new());
    assert_eq!(replace(b"abc", b"xy", 3, 3), b"abcxy".to_vec());
    assert_eq!(replace(&['а', 'б'], &['в'], 1, 2), vec!['а', 'в']);
}
