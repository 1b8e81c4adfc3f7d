use pg_temporal::calendar::Date;
use pg_temporal::codec::CodecError;
use pg_temporal::codec::DateTime;
use pg_temporal::codec::Zoned;
use pg_temporal::codec::decode_date;
use pg_temporal::codec::decode_time;
use pg_temporal::codec::decode_timestamp;
use pg_temporal::codec::decode_timestamptz;
use pg_temporal::codec::encode_date;
use pg_temporal::codec::encode_time;
use pg_temporal::codec::encode_timestamp;
use pg_temporal::codec::encode_timestamptz;
use pg_temporal::timeofday::Time;

fn date(year: i16, month: u8, day: u8) -> Date {
    Date { year, month, day }
}

fn time(hour: u8, minute: u8, second: u8, subsec_nanosecond: u32) -> Time {
    Time { hour, minute, second, subsec_nanosecond }
}

fn at_midnight(year: i16, month: u8, day: u8) -> DateTime {
    DateTime { date: date(year, month, day), time: time(0, 0, 0, 0) }
}

#[test]
fn unix_epoch_encodes_correctly() {
    let date_time = at_midnight(1970, 1, 1);
    assert_eq!(encode_timestamp(&date_time), Ok(-946_684_800_000_000));
}

#[test]
fn unix_epoch_decodes_correctly() {
    let date_time = at_midnight(1970, 1, 1);
    assert_eq!(decode_timestamp(-946_684_800_000_000), Ok(date_time));
}

#[test]
fn epoch_timestamp_is_the_fixed_point() {
    let epoch = at_midnight(2000, 1, 1);
    assert_eq!(encode_timestamp(&epoch), Ok(0));
    assert_eq!(decode_timestamp(0), Ok(epoch));
}

#[test]
fn epoch_date_is_the_fixed_point() {
    assert_eq!(encode_date(&date(2000, 1, 1)), Ok(0));
    assert_eq!(decode_date(0), Ok(date(2000, 1, 1)));
}

#[test]
fn dates_encode_correctly() {
    assert_eq!(encode_date(&date(1970, 1, 1)), Ok(-10957));
    assert_eq!(encode_date(&date(1999, 12, 31)), Ok(-1));
    assert_eq!(encode_date(&date(2000, 3, 1)), Ok(60));
    assert_eq!(encode_date(&date(2018, 1, 1)), Ok(6575));
    assert_eq!(encode_date(&date(-4713, 11, 24)), Ok(-2_451_545));
    assert_eq!(encode_date(&date(-9999, 1, 1)), Ok(-4_382_544));
    assert_eq!(encode_date(&date(9999, 12, 31)), Ok(2_921_939));
}

#[test]
fn dates_decode_correctly() {
    assert_eq!(decode_date(-10957), Ok(date(1970, 1, 1)));
    assert_eq!(decode_date(-1), Ok(date(1999, 12, 31)));
    assert_eq!(decode_date(60), Ok(date(2000, 3, 1)));
    assert_eq!(decode_date(6575), Ok(date(2018, 1, 1)));
    assert_eq!(decode_date(-2_451_545), Ok(date(-4713, 11, 24)));
    assert_eq!(decode_date(-4_382_544), Ok(date(-9999, 1, 1)));
    assert_eq!(decode_date(2_921_939), Ok(date(9999, 12, 31)));
}

#[test]
fn leap_year_rules_shape_the_day_counts() {
    // 2000 is a leap year: February has 29 days.
    assert_eq!(decode_date(59), Ok(date(2000, 2, 29)));
    // 1900 is not: the day after 1900-02-28 is 1900-03-01.
    assert_eq!(encode_date(&date(1900, 2, 28)), Ok(-36466));
    assert_eq!(encode_date(&date(1900, 3, 1)), Ok(-36465));
    // 2400 is again a leap year.
    assert_eq!(encode_date(&date(2400, 2, 29)), Ok(146_156));
}

#[test]
fn dates_round_trip_across_millennia() {
    let dates = [
        date(-9999, 1, 1),
        date(-4713, 11, 24),
        date(-398, 4, 11),
        date(1600, 2, 29),
        date(1970, 1, 1),
        date(2016, 1, 2),
        date(9999, 12, 31),
    ];
    for d in dates {
        let wire = encode_date(&d).unwrap();
        assert_eq!(decode_date(wire), Ok(d));
    }
}

#[test]
fn date_decoding_overflow_is_reported() {
    assert_eq!(decode_date(i32::MAX), Err(CodecError::DecodingOverflow { offset: i32::MAX as i64 }));
    assert_eq!(decode_date(i32::MIN), Err(CodecError::DecodingOverflow { offset: i32::MIN as i64 }));
    assert_eq!(decode_date(2_921_940), Err(CodecError::DecodingOverflow { offset: 2_921_940 }));
    assert_eq!(decode_date(-4_382_545), Err(CodecError::DecodingOverflow { offset: -4_382_545 }));
}

#[test]
fn times_of_day_encode_correctly() {
    assert_eq!(encode_time(&time(0, 0, 0, 0)), Ok(0));
    assert_eq!(encode_time(&time(12, 0, 0, 0)), Ok(43_200_000_000));
    let roughly_half_past_eleven = time(23, 37, 4, 2_200_000);
    assert_eq!(encode_time(&roughly_half_past_eleven), Ok(85_024_002_200));
}

#[test]
fn times_of_day_decode_correctly() {
    assert_eq!(decode_time(0), Ok(time(0, 0, 0, 0)));
    assert_eq!(decode_time(43_200_000_000), Ok(time(12, 0, 0, 0)));
    assert_eq!(decode_time(85_024_002_200), Ok(time(23, 37, 4, 2_200_000)));
}

#[test]
fn time_of_day_precision_is_preserved_exactly() {
    // 23:37:04.002200 survives the round trip to the microsecond.
    let t = time(23, 37, 4, 2_200_000);
    let wire = encode_time(&t).unwrap();
    assert_eq!(wire, 85_024_002_200);
    assert_eq!(decode_time(wire), Ok(t));
    // The last representable microsecond of the day does too.
    let last = time(23, 59, 59, 999_999_000);
    let wire = encode_time(&last).unwrap();
    assert_eq!(wire, 86_399_999_999);
    assert_eq!(decode_time(wire), Ok(last));
}

#[test]
fn sub_microsecond_times_cannot_be_encoded() {
    let t = time(1, 2, 3, 500);
    assert_eq!(encode_time(&t), Err(CodecError::EncodingOverflow { subsec_nanosecond: 500 }));
    let dt = DateTime { date: date(2000, 1, 1), time: time(0, 0, 0, 1) };
    assert_eq!(
        encode_timestamp(&dt),
        Err(CodecError::EncodingOverflow { subsec_nanosecond: 1 })
    );
}

#[test]
fn out_of_day_time_counts_wrap_around_the_clock() {
    // Documented boundary policy: a count outside [0, one day) decodes by
    // its Euclidean remainder, matching clock arithmetic that wraps at
    // midnight.
    assert_eq!(decode_time(86_400_000_000), Ok(time(0, 0, 0, 0)));
    assert_eq!(decode_time(86_400_000_001), Ok(time(0, 0, 0, 1000)));
    assert_eq!(decode_time(-1), Ok(time(23, 59, 59, 999_999_000)));
    assert_eq!(decode_time(i64::MIN), decode_time(i64::MIN % 86_400_000_000 + 86_400_000_000));
}

#[test]
fn timestamps_round_trip_with_time_of_day() {
    let dt = DateTime { date: date(2016, 1, 2), time: time(23, 37, 4, 2_200_000) };
    let wire = encode_timestamp(&dt).unwrap();
    assert_eq!(wire, 5845 * 86_400_000_000 + 85_024_002_200);
    assert_eq!(decode_timestamp(wire), Ok(dt));
}

#[test]
fn extreme_timestamps_round_trip() {
    let earliest = at_midnight(-9999, 1, 1);
    let wire = encode_timestamp(&earliest).unwrap();
    assert_eq!(wire, -4_382_544 * 86_400_000_000);
    assert_eq!(decode_timestamp(wire), Ok(earliest));

    let latest = DateTime { date: date(9999, 12, 31), time: time(23, 59, 59, 999_999_000) };
    let wire = encode_timestamp(&latest).unwrap();
    assert_eq!(wire, 2_921_939 * 86_400_000_000 + 86_399_999_999);
    assert_eq!(decode_timestamp(wire), Ok(latest));
}

#[test]
fn timestamp_decoding_overflow_is_reported() {
    let past_the_end: i64 = 2_921_939 * 86_400_000_000 + 86_400_000_000;
    assert_eq!(
        decode_timestamp(past_the_end),
        Err(CodecError::DecodingOverflow { offset: past_the_end })
    );
    let before_the_start: i64 = -4_382_544 * 86_400_000_000 - 1;
    assert_eq!(
        decode_timestamp(before_the_start),
        Err(CodecError::DecodingOverflow { offset: before_the_start })
    );
    assert_eq!(
        decode_timestamp(i64::MAX),
        Err(CodecError::DecodingOverflow { offset: i64::MAX })
    );
    assert_eq!(
        decode_timestamp(i64::MIN),
        Err(CodecError::DecodingOverflow { offset: i64::MIN })
    );
}

#[test]
fn unix_epoch_encodes_correctly_with_utc_timezone() {
    let zoned = Zoned::new(at_midnight(1970, 1, 1), 0).unwrap();
    assert_eq!(encode_timestamptz(&zoned), Ok(-946_684_800_000_000));
}

#[test]
fn unix_epoch_encodes_correctly_with_timezone() {
    // 1970-01-01 01:00:00 at +01:00 is the same instant as midnight UTC.
    let zoned = Zoned::new(
        DateTime { date: date(1970, 1, 1), time: time(1, 0, 0, 0) },
        3600,
    )
    .unwrap();
    assert_eq!(encode_timestamptz(&zoned), Ok(-946_684_800_000_000));
}

#[test]
fn same_instant_encodes_identically_across_zones() {
    let in_utc = Zoned::new(DateTime { date: date(2016, 1, 2), time: time(1, 0, 0, 0) }, 0)
        .unwrap();
    let plus_one = Zoned::new(DateTime { date: date(2016, 1, 2), time: time(2, 0, 0, 0) }, 3600)
        .unwrap();
    let minus_five = Zoned::new(
        DateTime { date: date(2016, 1, 1), time: time(20, 0, 0, 0) },
        -5 * 3600,
    )
    .unwrap();
    let wire = encode_timestamptz(&in_utc).unwrap();
    assert_eq!(encode_timestamptz(&plus_one), Ok(wire));
    assert_eq!(encode_timestamptz(&minus_five), Ok(wire));
}

#[test]
fn zoned_instants_decode_in_utc() {
    let decoded = decode_timestamptz(-946_684_800_000_000).unwrap();
    assert_eq!(decoded, Zoned::new(at_midnight(1970, 1, 1), 0).unwrap());
    assert_eq!(decode_timestamptz(0), Ok(Zoned::new(at_midnight(2000, 1, 1), 0).unwrap()));
}

#[test]
fn zoned_instants_round_trip_after_normalization() {
    let plus_one = Zoned::new(DateTime { date: date(2016, 1, 2), time: time(2, 0, 0, 0) }, 3600)
        .unwrap();
    let wire = encode_timestamptz(&plus_one).unwrap();
    let decoded = decode_timestamptz(wire).unwrap();
    // The decoded value reads in UTC: one hour earlier on the clock.
    assert_eq!(
        decoded,
        Zoned::new(DateTime { date: date(2016, 1, 2), time: time(1, 0, 0, 0) }, 0).unwrap()
    );
    // Encoding again gives the same wire value.
    assert_eq!(encode_timestamptz(&decoded), Ok(wire));
}

#[test]
fn zoned_timestamp_decoding_overflow_is_reported() {
    assert_eq!(
        decode_timestamptz(i64::MAX),
        Err(CodecError::DecodingOverflow { offset: i64::MAX })
    );
}

#[test]
fn sub_microsecond_zoned_instants_cannot_be_encoded() {
    let zoned = Zoned::new(
        DateTime { date: date(2000, 1, 1), time: time(0, 0, 0, 1500) },
        0,
    )
    .unwrap();
    assert_eq!(
        encode_timestamptz(&zoned),
        Err(CodecError::EncodingOverflow { subsec_nanosecond: 1500 })
    );
}

#[test]
fn unrepresentable_zoned_instants_are_rejected_at_construction() {
    // The instant itself would fall before the earliest representable one.
    assert_eq!(Zoned::new(at_midnight(-9999, 1, 1), 3600), None);
    // An offset beyond the fixed-offset range is refused.
    assert_eq!(Zoned::new(at_midnight(2000, 1, 1), 93_600), None);
    assert_eq!(Zoned::new(at_midnight(2000, 1, 1), -93_600), None);
    // At the boundary both are accepted.
    assert!(Zoned::new(at_midnight(-9999, 1, 1), -3600).is_some());
    assert!(Zoned::new(at_midnight(2000, 1, 1), 93_599).is_some());
}
