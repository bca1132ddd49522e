use chrono::NaiveDate;
use s7log::calendar::Timestamp;
use s7log::s7_types::bcd_to_dec;
use s7log::s7_types::bcd_to_dec_high;
use s7log::s7_types::decode_s7_dword_as_int;
use s7log::s7_types::decode_s7_dword_as_real;
use s7log::s7_types::decode_s7_time;
use s7log::s7_types::S7Type;
use s7log::s7_types::S7TypeError;

fn pack(n: u32) -> u8 {
    ((n / 10) * 16 + n % 10) as u8
}

fn block(year: u32, month: u32, day: u32, hour: u32, minute: u32, second: u32, ms: u32) -> [u8; 8] {
    [
        pack(year - 2000),
        pack(month),
        pack(day),
        pack(hour),
        pack(minute),
        pack(second),
        pack(ms / 10),
        ((ms % 10) * 16 + 3) as u8,
    ]
}

fn leap(year: i32) -> bool {
    year % 4 == 0 && (year % 100 != 0 || year % 400 == 0)
}

fn days(year: i32, month: u32) -> u32 {
    match month {
        2 => {
            if leap(year) {
                29
            } else {
                28
            }
        }
        4 | 6 | 9 | 11 => 30,
        1 | 3 | 5 | 7 | 8 | 10 | 12 => 31,
        _ => 0,
    }
}

#[test]
fn tag_names_are_read() {
    assert_eq!(S7Type::from_str("int"), Ok(S7Type::Int));
    assert_eq!(S7Type::from_str("real"), Ok(S7Type::Real));
}

#[test]
fn tag_names_ignore_case_and_white_space() {
    assert_eq!(S7Type::from_str("  INT "), Ok(S7Type::Int));
    assert_eq!(S7Type::from_str("Real\n"), Ok(S7Type::Real));
    assert_eq!(S7Type::from_str("\tReAl"), Ok(S7Type::Real));
}

#[test]
fn other_texts_are_no_tags() {
    assert_eq!(S7Type::from_str("double"), Err(S7TypeError::TypeParseError));
    assert_eq!(S7Type::from_str(""), Err(S7TypeError::TypeParseError));
    assert_eq!(S7Type::from_str("in t"), Err(S7TypeError::TypeParseError));
    assert_eq!(S7Type::from_str("integer"), Err(S7TypeError::TypeParseError));
}

#[test]
fn tokens_are_taken_letter_for_letter() {
    assert_eq!(S7Type::from_token("int"), Ok(S7Type::Int));
    assert_eq!(S7Type::from_token("real"), Ok(S7Type::Real));
    assert_eq!(S7Type::from_token("INT"), Err(S7TypeError::TypeParseError));
    assert_eq!(S7Type::from_token(" int"), Err(S7TypeError::TypeParseError));
}

#[test]
fn a_text_that_names_no_tag_stands_for_int() {
    assert_eq!(S7Type::from_str_or_int("double"), S7Type::Int);
    assert_eq!(S7Type::from_str_or_int("REAL"), S7Type::Real);
    assert_eq!(S7Type::from_str_or_int(""), S7Type::Int);
}

#[test]
fn packed_decimals_are_decoded() {
    assert_eq!(bcd_to_dec(0x00), 0);
    assert_eq!(bcd_to_dec(0x09), 9);
    assert_eq!(bcd_to_dec(0x10), 10);
    assert_eq!(bcd_to_dec(0x59), 59);
    assert_eq!(bcd_to_dec(0x99), 99);
    assert_eq!(bcd_to_dec(0x0C), 12);
    assert_eq!(bcd_to_dec(0xFF), 165);
    assert_eq!(bcd_to_dec_high(0x70), 7);
    assert_eq!(bcd_to_dec_high(0x7F), 7);
    assert_eq!(bcd_to_dec_high(0x0F), 0);
}

#[test]
fn every_packed_number_comes_back() {
    for n in 0..100u32 {
        assert_eq!(bcd_to_dec(pack(n)) as u32, n);
    }
}

#[test]
fn integers_survive_the_wire() {
    let values: [i32; 9] = [0, 1, -1, 255, 256, -256, 123_456_789, i32::MAX, i32::MIN];
    for v in values {
        let read = decode_s7_dword_as_int(&v.to_be_bytes());
        assert_eq!(read, v);
        assert_eq!(read as f64, v as f64);
    }
}

#[test]
fn integer_bytes_are_big_endian() {
    assert_eq!(decode_s7_dword_as_int(&[0x00, 0x00, 0x01, 0x02]), 258);
    assert_eq!(decode_s7_dword_as_int(&[0x01, 0x00, 0x00, 0x00]), 16_777_216);
    assert_eq!(decode_s7_dword_as_int(&[0xFF, 0xFF, 0xFF, 0xFE]), -2);
    assert_eq!(decode_s7_dword_as_int(&[0x80, 0x00, 0x00, 0x00]), i32::MIN);
}

#[test]
fn reals_survive_the_wire() {
    let values: [f32; 7] = [0.0, 1.5, -2.25, 3.141_592_7, 1.0e-20, f32::MAX, f32::MIN_POSITIVE];
    for v in values {
        let bits = decode_s7_dword_as_real(&v.to_be_bytes());
        assert_eq!(bits, v.to_bits());
        assert_eq!(f32::from_bits(bits) as f64, v as f64);
    }
}

#[test]
fn real_bytes_are_big_endian() {
    assert_eq!(decode_s7_dword_as_real(&[0x3F, 0xC0, 0x00, 0x00]), 0x3FC0_0000);
    assert_eq!(f32::from_bits(decode_s7_dword_as_real(&[0x3F, 0xC0, 0x00, 0x00])), 1.5);
    assert_eq!(decode_s7_dword_as_real(&[0xFF, 0xFF, 0xFF, 0xFF]), u32::MAX);
}

#[test]
fn a_timestamp_block_is_read() {
    let t = decode_s7_time(&[0x21, 0x03, 0x04, 0x05, 0x06, 0x07, 0x89, 0x05]).unwrap();
    assert_eq!(t.year(), 2021);
    assert_eq!(t.month(), 3);
    assert_eq!(t.day(), 4);
    assert_eq!(t.hour(), 5);
    assert_eq!(t.minute(), 6);
    assert_eq!(t.second(), 7);
    assert_eq!(t.millisecond(), 890);
}

#[test]
fn the_last_millisecond_digit_is_the_upper_half_of_the_last_byte() {
    let t = decode_s7_time(&[0x21, 0x03, 0x04, 0x05, 0x06, 0x07, 0x12, 0x3F]).unwrap();
    assert_eq!(t.millisecond(), 123);
    let t = decode_s7_time(&[0x21, 0x03, 0x04, 0x05, 0x06, 0x07, 0x99, 0x90]).unwrap();
    assert_eq!(t.millisecond(), 999);
}

#[test]
fn every_moment_of_some_days_comes_back() {
    let days_tried: [(u32, u32, u32); 5] =
        [(2000, 1, 1), (2020, 2, 29), (2021, 12, 31), (2099, 6, 30), (2024, 2, 29)];
    for (year, month, day) in days_tried {
        for hour in 0..24u32 {
            for minute in [0u32, 1, 30, 59] {
                for second in [0u32, 9, 10, 59] {
                    for ms in [0u32, 1, 9, 10, 99, 100, 500, 999] {
                        let t = decode_s7_time(&block(year, month, day, hour, minute, second, ms))
                            .unwrap();
                        assert_eq!(t.year() as u32, year);
                        assert_eq!(t.month(), month);
                        assert_eq!(t.day(), day);
                        assert_eq!(t.hour(), hour);
                        assert_eq!(t.minute(), minute);
                        assert_eq!(t.second(), second);
                        assert_eq!(t.millisecond(), ms);
                    }
                }
            }
        }
    }
}

#[test]
fn impossible_dates_are_no_timestamps() {
    assert_eq!(decode_s7_time(&block(2021, 13, 1, 0, 0, 0, 0)), None);
    assert_eq!(decode_s7_time(&block(2021, 0, 1, 0, 0, 0, 0)), None);
    assert_eq!(decode_s7_time(&block(2021, 1, 32, 0, 0, 0, 0)), None);
    assert_eq!(decode_s7_time(&block(2021, 1, 0, 0, 0, 0, 0)), None);
    assert_eq!(decode_s7_time(&block(2021, 2, 29, 0, 0, 0, 0)), None);
    assert_eq!(decode_s7_time(&block(2021, 2, 30, 0, 0, 0, 0)), None);
    assert_eq!(decode_s7_time(&block(2021, 4, 31, 0, 0, 0, 0)), None);
    assert_eq!(decode_s7_time(&[0xFF; 8]), None);
}

#[test]
fn impossible_times_are_no_timestamps() {
    assert_eq!(decode_s7_time(&block(2021, 1, 1, 24, 0, 0, 0)), None);
    assert_eq!(decode_s7_time(&block(2021, 1, 1, 0, 60, 0, 0)), None);
    assert_eq!(decode_s7_time(&block(2021, 1, 1, 0, 0, 60, 0)), None);
}

#[test]
fn the_century_year_2000_is_a_leap_year() {
    assert!(decode_s7_time(&block(2000, 2, 29, 0, 0, 0, 0)).is_some());
    assert!(decode_s7_time(&block(2004, 2, 29, 0, 0, 0, 0)).is_some());
    assert!(decode_s7_time(&block(2001, 2, 29, 0, 0, 0, 0)).is_none());
}

#[test]
fn a_thousand_milliseconds_and_more_are_a_leap_second() {
    // The tens of milliseconds are two nibbles: 0xA0 spells 100 of them.
    let leap_second = [0x21, 0x06, 0x30, 0x23, 0x59, 0x59, 0xA0, 0x00];
    let t = decode_s7_time(&leap_second).unwrap();
    assert_eq!(t.second(), 59);
    assert_eq!(t.millisecond(), 1000);
    let not_at_59 = [0x21, 0x06, 0x30, 0x23, 0x59, 0x58, 0xA0, 0x00];
    assert_eq!(decode_s7_time(&not_at_59), None);
    // No block can spell more: 0xFF and 0xF are 165 tens and 15 ones.
    let longest = [0x21, 0x06, 0x30, 0x23, 0x59, 0x59, 0xFF, 0xF0];
    assert_eq!(decode_s7_time(&longest).unwrap().millisecond(), 1665);
    assert_eq!(decode_s7_time(&longest).unwrap().format_clock(), "23:59:60.665");
}

#[test]
fn nibbles_above_nine_count_as_they_stand() {
    let december = [0x21, 0x0C, 0x04, 0x05, 0x06, 0x07, 0x00, 0x00];
    let t = decode_s7_time(&december).unwrap();
    assert_eq!(t.month(), 12);
    let year_2165 = [0xFF, 0x01, 0x01, 0x00, 0x00, 0x00, 0x00, 0x00];
    let t = decode_s7_time(&year_2165).unwrap();
    assert_eq!(t.year(), 2165);
}

#[test]
fn the_calendar_is_the_gregorian_one() {
    let years: [i32; 12] = [0, 1, 4, 100, 400, 1900, 1999, 2000, 2023, 2024, 2100, 9999];
    for year in years {
        for month in 0..=13u32 {
            for day in 0..=32u32 {
                let expected = 1 <= month && month <= 12 && 1 <= day && day <= days(year, month);
                let made = Timestamp::new(year, month, day, 12, 0, 0, 0);
                assert_eq!(made.is_some(), expected, "{}-{}-{}", year, month, day);
                assert_eq!(
                    NaiveDate::from_ymd_opt(year, month, day).is_some(),
                    expected,
                    "{}-{}-{}",
                    year,
                    month,
                    day
                );
            }
        }
    }
}

#[test]
fn years_outside_four_digits_are_refused() {
    assert_eq!(Timestamp::new(-1, 1, 1, 0, 0, 0, 0), None);
    assert_eq!(Timestamp::new(10_000, 1, 1, 0, 0, 0, 0), None);
    assert!(Timestamp::new(0, 1, 1, 0, 0, 0, 0).is_some());
    assert!(Timestamp::new(9999, 12, 31, 23, 59, 59, 999).is_some());
}

#[test]
fn the_clock_has_a_leap_second_only_after_second_59() {
    for hour in [0u32, 23, 24, 25] {
        for minute in [0u32, 59, 60] {
            for second in [0u32, 58, 59, 60] {
                for ms in [0u32, 999, 1000, 1999, 2000, 4294, 4295, u32::MAX] {
                    let expected = hour < 24
                        && minute < 60
                        && second < 60
                        && ms < 2000
                        && (ms < 1000 || second == 59);
                    let made = Timestamp::new(2021, 6, 30, hour, minute, second, ms);
                    assert_eq!(made.is_some(), expected, "{}:{}:{}.{}", hour, minute, second, ms);
                }
            }
        }
    }
}

#[test]
fn a_timestamp_has_the_parts_it_was_made_of() {
    let t = Timestamp::new(1987, 6, 5, 4, 3, 2, 1).unwrap();
    assert_eq!(
        (t.year(), t.month(), t.day(), t.hour(), t.minute(), t.second(), t.millisecond()),
        (1987, 6, 5, 4, 3, 2, 1)
    );
}

#[test]
fn dates_are_written_with_ten_characters() {
    assert_eq!(Timestamp::new(2021, 3, 4, 5, 6, 7, 890).unwrap().format_date(), "2021-03-04");
    assert_eq!(Timestamp::new(1999, 12, 31, 0, 0, 0, 0).unwrap().format_date(), "1999-12-31");
    assert_eq!(Timestamp::new(5, 1, 1, 0, 0, 0, 0).unwrap().format_date(), "0005-01-01");
    assert_eq!(Timestamp::new(0, 1, 1, 0, 0, 0, 0).unwrap().format_date(), "0000-01-01");
    assert_eq!(Timestamp::new(987, 10, 20, 0, 0, 0, 0).unwrap().format_date(), "0987-10-20");
    assert_eq!(Timestamp::new(9999, 12, 31, 0, 0, 0, 0).unwrap().format_date(), "9999-12-31");
}

#[test]
fn times_are_written_to_the_millisecond() {
    assert_eq!(Timestamp::new(2021, 3, 4, 5, 6, 7, 890).unwrap().format_clock(), "05:06:07.890");
    assert_eq!(Timestamp::new(2021, 3, 4, 0, 0, 0, 0).unwrap().format_clock(), "00:00:00.000");
    assert_eq!(Timestamp::new(2021, 3, 4, 23, 59, 59, 999).unwrap().format_clock(), "23:59:59.999");
    assert_eq!(Timestamp::new(2021, 3, 4, 12, 30, 45, 7).unwrap().format_clock(), "12:30:45.007");
    assert_eq!(Timestamp::new(2021, 3, 4, 12, 30, 45, 70).unwrap().format_clock(), "12:30:45.070");
}

#[test]
fn a_leap_second_is_written_as_second_60() {
    let t = Timestamp::new(2016, 12, 31, 23, 59, 59, 1500).unwrap();
    assert_eq!(t.format_clock(), "23:59:60.500");
    assert_eq!(t.format_time_dashed(), "23-59-60");
    assert_eq!(t.format_date(), "2016-12-31");
}

#[test]
fn times_for_file_names_have_dashes() {
    assert_eq!(Timestamp::new(2021, 3, 4, 5, 6, 7, 890).unwrap().format_time_dashed(), "05-06-07");
    assert_eq!(
        Timestamp::new(2021, 3, 4, 23, 59, 59, 0).unwrap().format_time_dashed(),
        "23-59-59"
    );
}

#[test]
fn every_day_of_a_year_is_written_as_its_numbers() {
    for month in 1..=12u32 {
        for day in 1..=days(2024, month) {
            let t = Timestamp::new(2024, month, day, 0, 0, 0, 0).unwrap();
            assert_eq!(t.format_date(), format!("2024-{:02}-{:02}", month, day));
        }
    }
}

#[test]
fn days_are_compared_without_the_time() {
    let morning = Timestamp::new(2021, 3, 4, 5, 6, 7, 0).unwrap();
    let night = Timestamp::new(2021, 3, 4, 23, 59, 59, 0).unwrap();
    let next = Timestamp::new(2021, 3, 5, 0, 0, 1, 0).unwrap();
    assert!(morning.same_day(&night));
    assert!(!night.same_day(&next));
}
