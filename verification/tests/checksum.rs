use statmm::checksum::{book_checksum, crc32, push_decimal};
use statmm::side::BookSide;

fn text_of(v: i64) -> String {
    let mut out: Vec<u8> = Vec::new();
    push_decimal(&mut out, v);
    String::from_utf8(out).unwrap()
}

#[test]
fn crc32_of_the_check_string() {
    assert_eq!(crc32(b"123456789"), 0xCBF4_3926);
    assert_eq!(crc32(b""), 0);
    assert_eq!(crc32(b"a"), 0xE8B7_BE43);
}

#[test]
fn decimal_text_is_the_shortest_writing() {
    assert_eq!(text_of(10_002_000_000), "100.02");
    assert_eq!(text_of(200_000_000), "2");
    assert_eq!(text_of(0), "0");
    assert_eq!(text_of(5), "0.00000005");
    assert_eq!(text_of(-150_000_000), "-1.5");
    assert_eq!(text_of(1_000_000_000_000_000), "10000000");
    assert_eq!(text_of(12_345_678), "0.12345678");
    assert_eq!(text_of(10_000_000), "0.1");
    assert_eq!(text_of(-1), "-0.00000001");
}

#[test]
fn decimal_text_goes_behind_what_is_there() {
    let mut out: Vec<u8> = vec![b'x'];
    push_decimal(&mut out, 9_999_000_000);
    assert_eq!(out, b"x99.99".to_vec());
}

#[test]
fn checksum_of_a_small_book() {
    let mut bids = BookSide::new();
    bids.set(10_000_000_000, 200_000_000);
    bids.set(9_999_000_000, 300_000_000);
    let mut asks = BookSide::new();
    asks.set(10_002_000_000, 100_000_000);
    asks.set(10_003_000_000, 400_000_000);
    // CRC-32 of "100:2:100.02:1:99.99:3:100.03:4", read as a signed number
    assert_eq!(book_checksum(&bids, &asks), -1_422_048_607);
    bids.set(10_000_000_000, 0);
    // CRC-32 of "99.99:3:100.02:1:100.03:4"
    assert_eq!(book_checksum(&bids, &asks), -1_012_030_955);
}

#[test]
fn checksum_of_an_empty_book_is_zero() {
    assert_eq!(book_checksum(&BookSide::new(), &BookSide::new()), 0);
}

#[test]
fn checksum_reads_no_more_than_twenty_five_ranks() {
    let mut bids = BookSide::new();
    let mut asks = BookSide::new();
    for i in 0..25i64 {
        bids.set(1_000_000_000 - i * 100_000_000, 100_000_000);
        asks.set(2_000_000_000 + i * 100_000_000, 100_000_000);
    }
    let before = book_checksum(&bids, &asks);
    bids.set(-2_000_000_000, 700_000_000);
    asks.set(9_000_000_000, 700_000_000);
    assert_eq!(book_checksum(&bids, &asks), before);
    bids.set(1_000_000_000, 700_000_000);
    assert_ne!(book_checksum(&bids, &asks), before);
}
