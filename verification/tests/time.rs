use viperstem::UnixTime;

#[test]
fn fields_of_one_day_one_hour_one_minute_one_second() {
    let t = UnixTime::from_i64(90_061);
    assert_eq!(t.secs(), 1);
    assert_eq!(t.pure_secs(), 1);
    assert_eq!(t.mins(), 1);
    assert_eq!(t.pure_mins(), 60);
    assert_eq!(t.hrs(), 1);
    assert_eq!(t.pure_hrs(), 3600);
    assert_eq!(t.days(), 1);
    assert_eq!(t.pure_days(), 86_400);
    assert_eq!(t.mths(), 0);
    assert_eq!(t.pure_mths(), 0);
    assert_eq!(t.yrs(), 0);
    assert_eq!(t.pure_yrs(), 0);
}

#[test]
fn fields_of_a_2023_timestamp() {
    let t = UnixTime::from_i64(1_700_000_000);
    assert_eq!(t.secs(), 20);
    assert_eq!(t.mins(), 13);
    assert_eq!(t.hrs(), 22);
    assert_eq!(t.days(), 25);
    assert_eq!(t.mths(), 9);
    assert_eq!(t.yrs(), 53);
    assert_eq!(t.pure_hrs(), 79_200);
    assert_eq!(t.pure_days(), 2_214_000);
    assert_eq!(t.pure_mths(), 26_298_000);
    assert_eq!(t.pure_yrs(), 1_671_408_000);
}

#[test]
fn parts_add_up_to_the_timestamp() {
    for secs in [0i64, 59, 60, 3599, 86_399, 90_061, 1_700_000_000, 4_294_967_295] {
        let t = UnixTime::from_i64(secs);
        let sum = t.pure_secs() as u64
            + t.pure_mins() as u64
            + t.pure_hrs() as u64
            + t.pure_days() as u64
            + t.pure_mths() as u64
            + t.pure_yrs() as u64;
        assert_eq!(sum, secs as u64);
        assert!(t.secs() < 60 && t.mins() < 60 && t.hrs() < 24);
        assert!(t.days() <= 31 && t.mths() <= 11 && t.yrs() <= 136);
    }
}

#[test]
fn from_i64_keeps_the_low_32_bits() {
    let t = UnixTime::from_i64(-1);
    assert_eq!(t.pure_yrs() as u64 + t.pure_mths() as u64 + t.pure_days() as u64
        + t.pure_hrs() as u64 + t.pure_mins() as u64 + t.pure_secs() as u64, u32::MAX as u64);
    let u = UnixTime::from_i64((1i64 << 32) + 61);
    assert_eq!(u.secs(), 1);
    assert_eq!(u.mins(), 1);
}

#[test]
fn display_string_formats_the_fields() {
    assert_eq!(UnixTime::from_i64(90_061).display_string(), "1/0/1970 0:1:1 AM");
    assert_eq!(UnixTime::from_i64(1_700_000_000).display_string(), "25/9/2023 1:13:20 PM");
    assert_eq!(UnixTime::from_i64(0).display_string(), "0/0/1970 0:0:0 AM");
}

#[test]
fn hour_twelve_is_still_am() {
    let t = UnixTime::from_i64(12 * 3600);
    assert_eq!(t.hrs(), 12);
    assert_eq!(t.display_string(), "0/0/1970 1:0:0 AM");
    let t = UnixTime::from_i64(13 * 3600);
    assert_eq!(t.display_string(), "0/0/1970 1:0:0 PM");
}
