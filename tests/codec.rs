use pxinfo::convert::{
    fix_sign, gdate, px_to_date, px_to_double_bits, px_to_logical, px_to_long, px_to_time,
    px_to_timestamp, set_sign,
};
use pxinfo::types::{
    DecodeError, PX_FIELD_TYPE_ALPHA, PX_FIELD_TYPE_CURRENCY, PX_FIELD_TYPE_DATE,
    PX_FIELD_TYPE_INCREMENTAL, PX_FIELD_TYPE_LOGICAL, PX_FIELD_TYPE_LONG_INT,
    PX_FIELD_TYPE_NUMBER, PX_FIELD_TYPE_SHORT_INT, PX_FIELD_TYPE_TIME, PX_FIELD_TYPE_TIMESTAMP,
};

#[test]
fn long_int_positive_five() {
    assert_eq!(px_to_long(&[0x80, 0x00, 0x00, 0x05], PX_FIELD_TYPE_LONG_INT), Ok(Some(5)));
}

#[test]
fn long_int_negative_five() {
    assert_eq!(px_to_long(&[0x7f, 0xff, 0xff, 0xfb], PX_FIELD_TYPE_LONG_INT), Ok(Some(-5)));
}

#[test]
fn long_int_all_zero_is_null() {
    assert_eq!(px_to_long(&[0, 0, 0, 0], PX_FIELD_TYPE_LONG_INT), Ok(None));
}

#[test]
fn long_int_extremes() {
    assert_eq!(
        px_to_long(&[0xff, 0xff, 0xff, 0xff], PX_FIELD_TYPE_LONG_INT),
        Ok(Some(2147483647))
    );
    assert_eq!(
        px_to_long(&[0x00, 0x00, 0x00, 0x01], PX_FIELD_TYPE_LONG_INT),
        Ok(Some(-2147483647))
    );
    assert_eq!(px_to_long(&[0x80, 0x00, 0x00, 0x00], PX_FIELD_TYPE_LONG_INT), Ok(Some(0)));
}

#[test]
fn incremental_reads_four_bytes() {
    assert_eq!(
        px_to_long(&[0x80, 0x00, 0x01, 0x00, 0x99], PX_FIELD_TYPE_INCREMENTAL),
        Ok(Some(256))
    );
}

#[test]
fn short_int_values() {
    assert_eq!(px_to_long(&[0x80, 0x01], PX_FIELD_TYPE_SHORT_INT), Ok(Some(1)));
    assert_eq!(px_to_long(&[0x7f, 0xff], PX_FIELD_TYPE_SHORT_INT), Ok(Some(-1)));
    assert_eq!(px_to_long(&[0x00, 0x00], PX_FIELD_TYPE_SHORT_INT), Ok(None));
}

#[test]
fn long_unsupported_and_truncated() {
    assert_eq!(px_to_long(&[0x80, 0, 0, 1], PX_FIELD_TYPE_ALPHA), Err(DecodeError::Unsupported));
    assert_eq!(px_to_long(&[0x80, 0], PX_FIELD_TYPE_LONG_INT), Err(DecodeError::Truncated));
}

#[test]
fn logical_values() {
    assert_eq!(px_to_logical(&[0x81], PX_FIELD_TYPE_LOGICAL), Ok(Some(true)));
    assert_eq!(px_to_logical(&[0x80], PX_FIELD_TYPE_LOGICAL), Ok(Some(false)));
    assert_eq!(px_to_logical(&[0x00], PX_FIELD_TYPE_LOGICAL), Ok(None));
    assert_eq!(px_to_long(&[0x81], PX_FIELD_TYPE_LOGICAL), Ok(Some(1)));
    assert_eq!(px_to_logical(&[0x81], PX_FIELD_TYPE_DATE), Err(DecodeError::Unsupported));
}

#[test]
fn date_of_day_two() {
    assert_eq!(px_to_date(&[0x80, 0, 0, 2], PX_FIELD_TYPE_DATE), Ok(Some((-2743, 11, 25))));
}

#[test]
fn date_of_unix_epoch() {
    assert_eq!(
        px_to_date(&[0x80, 0x1a, 0x42, 0xe5], PX_FIELD_TYPE_DATE),
        Ok(Some((1970, 1, 1)))
    );
}

#[test]
fn date_null_and_unsupported() {
    assert_eq!(px_to_date(&[0, 0, 0, 0], PX_FIELD_TYPE_DATE), Ok(None));
    assert_eq!(px_to_date(&[0x80, 0, 0, 2], PX_FIELD_TYPE_TIME), Err(DecodeError::Unsupported));
}

#[test]
fn gdate_known_days() {
    assert_eq!(gdate(2440588), (1970, 1, 1));
    assert_eq!(gdate(1721426), (1, 1, 1));
    assert_eq!(gdate(2451605), (2000, 3, 1));
    assert_eq!(gdate(2451604), (2000, 2, 29));
}

#[test]
fn time_of_day_values() {
    assert_eq!(px_to_time(&[0x80, 0x38, 0xd0, 0xc0], PX_FIELD_TYPE_TIME), Ok(Some((1, 2, 3))));
    assert_eq!(px_to_time(&[0, 0, 0, 0], PX_FIELD_TYPE_TIME), Ok(None));
    assert_eq!(
        px_to_time(&[0x7f, 0xff, 0xff, 0xff], PX_FIELD_TYPE_TIME),
        Err(DecodeError::Negative)
    );
}

#[test]
fn timestamp_seconds_value() {
    let raw = [0xc2, 0xcc, 0x41, 0x8e, 0x73, 0xb5, 0x0c, 0x00];
    assert_eq!(px_to_timestamp(&raw, PX_FIELD_TYPE_TIMESTAMP), Ok(Some(86400)));
    assert_eq!(px_to_timestamp(&[0; 8], PX_FIELD_TYPE_TIMESTAMP), Ok(None));
    assert_eq!(px_to_timestamp(&raw[..7], PX_FIELD_TYPE_TIMESTAMP), Err(DecodeError::Truncated));
}

#[test]
fn double_positive_and_negative() {
    let pos = [0xbf, 0xf8, 0, 0, 0, 0, 0, 0];
    let bits = px_to_double_bits(&pos, PX_FIELD_TYPE_NUMBER).unwrap().unwrap();
    assert_eq!(f64::from_bits(bits), 1.5);
    let neg = [0x40, 0x07, 0xff, 0xff, 0xff, 0xff, 0xff, 0xff];
    let bits = px_to_double_bits(&neg, PX_FIELD_TYPE_CURRENCY).unwrap().unwrap();
    assert_eq!(f64::from_bits(bits), -1.5);
    assert_eq!(px_to_double_bits(&[0; 8], PX_FIELD_TYPE_NUMBER), Ok(None));
    assert_eq!(px_to_double_bits(&pos, PX_FIELD_TYPE_DATE), Err(DecodeError::Unsupported));
}

#[test]
fn sign_bit_helpers() {
    let mut v = vec![0x12, 0xff];
    fix_sign(&mut v, 2);
    assert_eq!(v, vec![0x12, 0x7f]);
    set_sign(&mut v, 1);
    assert_eq!(v, vec![0x92, 0x7f]);
}
