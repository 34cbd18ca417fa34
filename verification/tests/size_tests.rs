use ferret::size::{parse_size, size_bucket, SizeError};

#[test]
fn plain_bytes() {
    assert_eq!(parse_size(b"123"), Ok(123));
    assert_eq!(parse_size(b"0"), Ok(0));
}

#[test]
fn kilo_mega_giga() {
    assert_eq!(parse_size(b"1K"), Ok(1024));
    assert_eq!(parse_size(b"500K"), Ok(512000));
    assert_eq!(parse_size(b"1M"), Ok(1048576));
    assert_eq!(parse_size(b"2G"), Ok(2147483648));
}

#[test]
fn two_letter_suffixes() {
    assert_eq!(parse_size(b"10KB"), Ok(10240));
    assert_eq!(parse_size(b"3MB"), Ok(3145728));
    assert_eq!(parse_size(b"1GB"), Ok(1073741824));
}

#[test]
fn suffix_case_insensitive() {
    assert_eq!(parse_size(b"10kb"), Ok(10240));
    assert_eq!(parse_size(b"5m"), Ok(5242880));
    assert_eq!(parse_size(b"7g"), Ok(7516192768));
    assert_eq!(parse_size(b"2Kb"), Ok(2048));
}

#[test]
fn rejects_empty_and_nonnumeric() {
    assert_eq!(parse_size(b""), Err(SizeError::InvalidSizeExpression));
    assert_eq!(parse_size(b"abc"), Err(SizeError::InvalidSizeExpression));
    assert_eq!(parse_size(b"-5"), Err(SizeError::InvalidSizeExpression));
    assert_eq!(parse_size(b"K"), Err(SizeError::InvalidSizeExpression));
    assert_eq!(parse_size(b" 12"), Err(SizeError::InvalidSizeExpression));
}

#[test]
fn rejects_unknown_suffix() {
    assert_eq!(parse_size(b"12X"), Err(SizeError::InvalidSizeExpression));
    assert_eq!(parse_size(b"1.5M"), Err(SizeError::InvalidSizeExpression));
    assert_eq!(parse_size(b"12KBs"), Err(SizeError::InvalidSizeExpression));
    assert_eq!(parse_size(b"12 K"), Err(SizeError::InvalidSizeExpression));
}

#[test]
fn boundary_of_u64() {
    assert_eq!(parse_size(b"18446744073709551615"), Ok(u64::MAX));
    assert_eq!(
        parse_size(b"18446744073709551616"),
        Err(SizeError::InvalidSizeExpression)
    );
    // 2^54 KiB is 2^64 bytes: one past the largest representable count.
    assert_eq!(
        parse_size(b"18014398509481984K"),
        Err(SizeError::InvalidSizeExpression)
    );
    assert_eq!(parse_size(b"18014398509481983K"), Ok(18446744073709550592));
}

#[test]
fn bucket_bounds() {
    assert_eq!(size_bucket(0), 0);
    assert_eq!(size_bucket(1024), 0);
    assert_eq!(size_bucket(1025), 1);
    assert_eq!(size_bucket(102400), 1);
    assert_eq!(size_bucket(102401), 2);
    assert_eq!(size_bucket(1048576), 2);
    assert_eq!(size_bucket(10485760), 3);
    assert_eq!(size_bucket(104857600), 4);
    assert_eq!(size_bucket(104857601), 5);
}
