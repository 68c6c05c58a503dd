use bitcoin_alerts::util::{
    bytes_to_number, bytes_to_u128, format_number, is_palindrome, is_round_number,
    number_to_bytes, sha512,
};

#[test]
fn test_format_number() {
    assert_eq!(format_number(100), "100".to_string());
    assert_eq!(format_number(1000), "1,000".to_string());
    assert_eq!(format_number(10000), "10,000".to_string());
    assert_eq!(format_number(100000), "100,000".to_string());
    assert_eq!(format_number(1000000), "1,000,000".to_string());
    assert_eq!(format_number(1000000000), "1,000,000,000".to_string());
}

#[test]
fn test_is_palindrome() {
    assert!(is_palindrome(900009));
    assert!(is_palindrome(888888));
    assert!(is_palindrome(999999));
    assert!(is_palindrome(1110111));
    assert!(is_palindrome(1_111_111));
    assert!(is_palindrome(990099));
    assert!(is_palindrome(12321));
    assert!(is_palindrome(7));
    assert!(is_palindrome(0));

    assert!(!is_palindrome(123456));
    assert!(!is_palindrome(900000));
}

#[test]
fn test_round_numbers() {
    assert!(is_round_number(900_000, 4));
    assert!(is_round_number(1_000_000, 4));
    assert!(is_round_number(1_200_000, 4));
    assert!(is_round_number(1_500_000, 4));
    assert!(is_round_number(2_100_000, 4));
    assert!(is_round_number(10_500_000, 4));
    assert!(is_round_number(50_000, 4));
    assert!(is_round_number(10_000, 4));

    assert!(!is_round_number(7_000, 4));
    assert!(!is_round_number(999_000, 4));
    assert!(!is_round_number(123_456, 4));
    assert!(!is_round_number(900_009, 4));
    assert!(!is_round_number(999, 4));
    assert!(!is_round_number(1200, 4));
}

#[test]
fn format_number_small_and_largest() {
    assert_eq!(format_number(0), "0");
    assert_eq!(format_number(999), "999");
    assert_eq!(format_number(1001), "1,001");
    assert_eq!(format_number(1_000_010), "1,000,010");
    assert_eq!(format_number(usize::MAX), "18,446,744,073,709,551,615");
}

#[test]
fn palindrome_largest_values() {
    assert!(!is_palindrome(u64::MAX));
    assert!(is_palindrome(10_000_000_000_000_000_001));
    assert!(!is_palindrome(10));
}

#[test]
fn round_number_edges() {
    assert!(is_round_number(0, 19));
    assert!(is_round_number(10_000_000_000_000_000_000, 19));
    assert!(!is_round_number(u64::MAX, 1));
    assert!(is_round_number(5, 0));
}

#[test]
fn bytes_to_number_reads_decimal_text() {
    assert_eq!(bytes_to_number(b"123".to_vec()), Some(123));
    assert_eq!(bytes_to_number(b"+7".to_vec()), Some(7));
    assert_eq!(bytes_to_number(b"007".to_vec()), Some(7));
    assert_eq!(bytes_to_number(b"18446744073709551615".to_vec()), Some(u64::MAX));
    assert_eq!(bytes_to_number(b"18446744073709551616".to_vec()), None);
    assert_eq!(bytes_to_number(b"".to_vec()), None);
    assert_eq!(bytes_to_number(b"+".to_vec()), None);
    assert_eq!(bytes_to_number(b"-1".to_vec()), None);
    assert_eq!(bytes_to_number(b"12a".to_vec()), None);
    assert_eq!(bytes_to_number(b" 12".to_vec()), None);
}

#[test]
fn sha512_of_known_inputs() {
    assert_eq!(
        sha512(""),
        "cf83e1357eefb8bdf1542850d66d8007d620e4050b5715dc83f4a921d36ce9ce47d0d13c5d85f2b0ff8318d2877eec2f63b931bd47417a81a538327af927da3e"
    );
    assert_eq!(sha512("abc").len(), 128);
    assert!(sha512("abc").chars().all(|c| c.is_ascii_digit() || ('a'..='f').contains(&c)));
    assert_ne!(sha512("abc"), sha512("abd"));
}

#[test]
fn number_text_round_trip() {
    assert_eq!(number_to_bytes(0), b"0".to_vec());
    assert_eq!(number_to_bytes(840_000), b"840000".to_vec());
    for n in [0u128, 9, 10, 839_999, u64::MAX as u128, u128::MAX] {
        assert_eq!(bytes_to_u128(&number_to_bytes(n)), Some(n));
    }
    assert_eq!(bytes_to_number(number_to_bytes(u64::MAX as u128)), Some(u64::MAX));
}
