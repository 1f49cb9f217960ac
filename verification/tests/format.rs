use trimbit::format::{compact, decimal_string, grouped};

#[test]
fn compact_numbers() {
    assert_eq!(compact(0), "0");
    assert_eq!(compact(999), "999");
    assert_eq!(compact(1000), "1K");
    assert_eq!(compact(1234), "1.2K");
    assert_eq!(compact(10_112_582), "10.1M");
    assert_eq!(compact(245_000_000), "245M");
    assert_eq!(compact(999_999), "1M");
    assert_eq!(compact(u64::MAX), "18446744T");
}

#[test]
fn grouping_and_money() {
    assert_eq!(grouped(0), "0");
    assert_eq!(grouped(1000), "1,000");
    assert_eq!(grouped(10_112_582), "10,112,582");
}

#[test]
fn compact_units_and_rounding() {
    assert_eq!(compact(1_050), "1.1K");
    assert_eq!(compact(99_949), "99.9K");
    assert_eq!(compact(99_950), "100K");
    assert_eq!(compact(100_499), "100K");
    assert_eq!(compact(100_500), "100K");
    assert_eq!(compact(101_500), "102K");
    assert_eq!(compact(999_499), "999K");
    assert_eq!(compact(999_500), "1M");
    assert_eq!(compact(999_600), "1M");
    assert_eq!(compact(999_949), "1M");
    assert_eq!(compact(999_499_999), "999M");
    assert_eq!(compact(999_500_000), "1B");
    assert_eq!(compact(999_600_000_000), "1T");
    assert_eq!(compact(999_950), "1M");
    assert_eq!(compact(1_250_000_000), "1.2B");
    assert_eq!(compact(1_750_000_000_000), "1.8T");
    assert_eq!(compact(999_950_000_000), "1T");
    assert_eq!(compact(123_456_789_012_345), "123T");
}

#[test]
fn grouping_places_commas_from_the_right() {
    assert_eq!(grouped(7), "7");
    assert_eq!(grouped(999), "999");
    assert_eq!(grouped(12_345), "12,345");
    assert_eq!(grouped(123_456), "123,456");
    assert_eq!(grouped(1_054_759), "1,054,759");
    assert_eq!(grouped(u64::MAX), "18,446,744,073,709,551,615");
}

#[test]
fn grouping_keeps_every_digit() {
    for n in [0u64, 5, 10, 999, 1000, 65_536, 10_112_582, 987_654_321_012, u64::MAX] {
        assert_eq!(grouped(n).replace(',', ""), decimal_string(n));
        assert_eq!(decimal_string(n), n.to_string());
    }
}
