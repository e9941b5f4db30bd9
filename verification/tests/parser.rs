use nae::clock::Timestamp;
use nae::parser::Error;
use nae::parser::ErrorCode;
use nae::parser::OptionalData;
use nae::parser::Parser;

fn fixed_timestamp() -> Timestamp {
    // Monday, 2 January 2023, 03:04:05 in the morning
    Timestamp { year: 2023, month: 1, day: 2, weekday: 0, hour: 3, minute: 4, second: 5 }
}

#[test]
fn test_parse() {
    let mut p = Parser::new();
    let ts = fixed_timestamp();

    let name = "%test%%";
    let r = p.parse(name, &ts, None);

    assert_eq!(String::from(name), r.unwrap());
}

#[test]
fn test_parse_with_zero_1() {
    let mut p = Parser::new();
    let ts = fixed_timestamp();
    let data = OptionalData { file_name: String::from("test.txt") };

    let name = "test\\0";
    let r = p.parse(name, &ts, Some(&data));

    assert_eq!(String::from("testtest.txt"), r.unwrap());
}

#[test]
fn test_parse_with_zero_missing_data() {
    let mut p = Parser::new();
    let ts = fixed_timestamp();

    let name = "test\\0";
    let r = p.parse(name, &ts, None);

    assert_eq!(
        Error {
            code: ErrorCode::NoOptionalData,
            column: 5,
            message: "OptionalData not specified".to_string(),
        },
        r.unwrap_err()
    );
}

#[test]
fn test_parse_with_incremental_1() {
    let mut p = Parser::new();
    let ts = fixed_timestamp();

    let name = "test?";
    let r = p.parse(name, &ts, None);

    assert_eq!(String::from("test1"), r.unwrap());
}

#[test]
fn test_parse_with_incremental_2() {
    let mut p = Parser::new();
    let ts = fixed_timestamp();

    let name = "test???";
    let r = p.parse(name, &ts, None);

    assert_eq!(String::from("test001"), r.unwrap());
}

#[test]
fn test_parse_with_incremental_3() {
    let mut p = Parser::new();
    let ts = fixed_timestamp();

    let name = "test???123";
    let r = p.parse(name, &ts, None);

    assert_eq!(String::from("test001123"), r.unwrap());
}

#[test]
fn test_parse_with_incremental_4() {
    let mut p = Parser::new();
    let ts = fixed_timestamp();

    let name = "???test";
    let r = p.parse(name, &ts, None);

    assert_eq!(String::from("001test"), r.unwrap());
}

#[test]
fn test_parse_with_incremental_5() {
    let mut p = Parser::new();
    let ts = fixed_timestamp();

    let name = "???";
    let r = p.parse(name, &ts, None);

    assert_eq!(String::from("001"), r.unwrap());
}

#[test]
fn test_parse_with_incremental_6() {
    let mut p = Parser::new();
    let ts = fixed_timestamp();
    let name = "???";

    {
        let r = p.parse(name, &ts, None);
        assert_eq!(String::from("001"), r.unwrap());
    }

    {
        let r = p.parse(name, &ts, None);
        assert_eq!(String::from("002"), r.unwrap());
    }
}

#[test]
fn test_parse_with_incremental_7() {
    let mut p = Parser::new();
    let ts = fixed_timestamp();
    let name = "?";

    for i in 1..1000 + 1 {
        let r = p.parse(name, &ts, None);
        assert_eq!(format!("{}", i), r.unwrap());
    }
}

#[test]
fn test_parse_with_datetime_4year_1() {
    let mut p = Parser::new();
    let ts = fixed_timestamp();

    let name = "test\\Y";
    let r = p.parse(name, &ts, None);

    assert_eq!(String::from("test2023"), r.unwrap());
}

#[test]
fn test_parse_with_datetime_2year_1() {
    let mut p = Parser::new();
    let ts = fixed_timestamp();

    let name = "test\\y";
    let r = p.parse(name, &ts, None);

    assert_eq!(String::from("test23"), r.unwrap());
}

#[test]
fn test_parse_with_datetime_month_1() {
    let mut p = Parser::new();
    let ts = fixed_timestamp();

    let name = "test\\m";
    let r = p.parse(name, &ts, None);

    assert_eq!(String::from("test01"), r.unwrap());
}

#[test]
fn test_parse_with_datetime_month_name_abbreviated_1() {
    let mut p = Parser::new();
    let ts = fixed_timestamp();

    let name = "test\\b";
    let r = p.parse(name, &ts, None);

    assert_eq!(String::from("testJan"), r.unwrap());
}

#[test]
fn test_parse_with_datetime_month_name_full_1() {
    let mut p = Parser::new();
    let ts = fixed_timestamp();

    let name = "test\\B";
    let r = p.parse(name, &ts, None);

    assert_eq!(String::from("testJanuary"), r.unwrap());
}

#[test]
fn test_parse_with_datetime_day_1() {
    let mut p = Parser::new();
    let ts = fixed_timestamp();

    let name = "test\\d";
    let r = p.parse(name, &ts, None);

    assert_eq!(String::from("test02"), r.unwrap());
}

#[test]
fn test_parse_with_datetime_weekday_name_abbreviated_1() {
    let mut p = Parser::new();
    let ts = fixed_timestamp();

    let name = "test\\a";
    let r = p.parse(name, &ts, None);

    assert_eq!(String::from("testMon"), r.unwrap());
}

#[test]
fn test_parse_with_datetime_weekday_name_full_1() {
    let mut p = Parser::new();
    let ts = fixed_timestamp();

    let name = "test\\A";
    let r = p.parse(name, &ts, None);

    assert_eq!(String::from("testMonday"), r.unwrap());
}

#[test]
fn test_parse_with_datetime_24hour_1() {
    let mut p = Parser::new();
    let ts = fixed_timestamp();

    let name = "test\\H";
    let r = p.parse(name, &ts, None);

    assert_eq!(String::from("test03"), r.unwrap());
}

#[test]
fn test_parse_with_datetime_12hour_1() {
    let mut p = Parser::new();
    let ts = fixed_timestamp();

    let name = "test\\I";
    let r = p.parse(name, &ts, None);

    assert_eq!(String::from("test03"), r.unwrap());
}

#[test]
fn test_parse_with_datetime_12hour_noon_and_midnight() {
    let mut p = Parser::new();
    let mut ts = fixed_timestamp();

    ts.hour = 0;
    assert_eq!(String::from("12"), p.parse("\\I", &ts, None).unwrap());
    ts.hour = 12;
    assert_eq!(String::from("12"), p.parse("\\I", &ts, None).unwrap());
    ts.hour = 13;
    assert_eq!(String::from("01"), p.parse("\\I", &ts, None).unwrap());
}

#[test]
fn test_parse_with_datetime_ampm_small_1() {
    let mut p = Parser::new();
    let ts = fixed_timestamp();

    let name = "test\\p";
    let r = p.parse(name, &ts, None);

    assert_eq!(String::from("testAM"), r.unwrap());
}

#[test]
fn test_parse_with_datetime_ampm_large_1() {
    let mut p = Parser::new();
    let ts = fixed_timestamp();

    let name = "test\\P";
    let r = p.parse(name, &ts, None);

    assert_eq!(String::from("testam"), r.unwrap());
}

#[test]
fn test_parse_with_datetime_ampm_afternoon() {
    let mut p = Parser::new();
    let mut ts = fixed_timestamp();
    ts.hour = 15;

    assert_eq!(String::from("PM"), p.parse("\\p", &ts, None).unwrap());
    assert_eq!(String::from("pm"), p.parse("\\P", &ts, None).unwrap());
}

#[test]
fn test_parse_with_datetime_minute_1() {
    let mut p = Parser::new();
    let ts = fixed_timestamp();

    let name = "test\\Y";
    let r = p.parse(name, &ts, None);

    assert_eq!(String::from("test2023"), r.unwrap());
}

#[test]
fn test_parse_with_datetime_second_1() {
    let mut p = Parser::new();
    let ts = fixed_timestamp();

    let name = "test\\S";
    let r = p.parse(name, &ts, None);

    assert_eq!(String::from("test05"), r.unwrap());
}

#[test]
fn test_parse_with_datetime_full_1() {
    let mut p = Parser::new();
    let ts = fixed_timestamp();

    let name = "test\\y - \\Y-\\m-\\d_\\H-\\M-\\S";
    let r = p.parse(name, &ts, None);

    assert_eq!(String::from("test23 - 2023-01-02_03-04-05"), r.unwrap());
}

#[test]
fn test_parse_with_backslash_escape_1() {
    let mut p = Parser::new();
    let ts = fixed_timestamp();

    let name = "test\\\\";
    let r = p.parse(name, &ts, None);

    assert_eq!(String::from("test\\"), r.unwrap());
}

#[test]
fn test_parse_with_backslash_escape_2() {
    let mut p = Parser::new();
    let ts = fixed_timestamp();

    let name = "test\\\\test";
    let r = p.parse(name, &ts, None);

    assert_eq!(String::from("test\\test"), r.unwrap());
}

#[test]
fn test_parse_invalid_1() {
    let mut p = Parser::new();
    let ts = fixed_timestamp();

    let name = "test\\Q";
    let r = p.parse(name, &ts, None);

    assert_eq!(
        Error {
            column: 5,
            code: ErrorCode::InvalidCharacter,
            message: "Invalid character: Q".to_string()
        },
        r.unwrap_err()
    )
}

#[test]
fn test_parse_invalid_2() {
    let mut p = Parser::new();
    let ts = fixed_timestamp();

    let name = "test\\Qtest";
    let r = p.parse(name, &ts, None);

    assert_eq!(
        Error {
            column: 5,
            code: ErrorCode::InvalidCharacter,
            message: "Invalid character: Q".to_string()
        },
        r.unwrap_err()
    )
}

#[test]
fn test_parse_invalid_3() {
    let mut p = Parser::new();
    let ts = fixed_timestamp();

    let name = "test\\Q\\W";
    let r = p.parse(name, &ts, None);

    assert_eq!(
        Error {
            column: 5,
            code: ErrorCode::InvalidCharacter,
            message: "Invalid character: Q".to_string()
        },
        r.unwrap_err()
    )
}

#[test]
fn test_parse_invalid_4() {
    let mut p = Parser::new();
    let ts = fixed_timestamp();

    let name = "\\Q";
    let r = p.parse(name, &ts, None);

    assert_eq!(
        Error {
            column: 1,
            code: ErrorCode::InvalidCharacter,
            message: "Invalid character: Q".to_string()
        },
        r.unwrap_err()
    )
}

#[test]
fn test_parse_idempotent_under_fixed_state() {
    // the same pattern, counter value and timestamp give the same output
    let ts = fixed_timestamp();
    let data = OptionalData { file_name: String::from("photo.jpg") };
    let name = "\\Y-\\m-\\d ???_\\0";

    let mut p1 = Parser::new();
    let mut p2 = Parser::new();
    let r1 = p1.parse(name, &ts, Some(&data)).unwrap();
    let r2 = p2.parse(name, &ts, Some(&data)).unwrap();
    assert_eq!(r1, r2);
    assert_eq!(r1, "2023-01-02 001_photo.jpg");
}

#[test]
fn test_parse_counter_wider_than_run() {
    // a counter whose decimal form is wider than the placeholder run is
    // printed in full, never truncated
    let ts = fixed_timestamp();
    let mut p = Parser::new();
    let mut last = String::new();
    for _ in 0..12 {
        last = p.parse("??", &ts, None).unwrap();
    }
    assert_eq!(last, "12");
}
