use optionsbot::date::{date_from_string, Simpledate};

fn ok(year: i32, month: u32, day: u32) -> Result<Simpledate, String> {
    Ok(Simpledate { year, month, day })
}

#[test]
fn simpledate_new_keeps_fields() {
    assert_eq!(Simpledate::new(2024, 12, 30), Simpledate { year: 2024, month: 12, day: 30 });
}

#[test]
fn month_first_with_two_digit_year() {
    assert_eq!(date_from_string("12/30/24".to_string()), ok(2024, 12, 30));
    assert_eq!(date_from_string("1-2-3".to_string()), ok(2003, 1, 2));
    assert_eq!(date_from_string("12/30/99".to_string()), ok(2099, 12, 30));
}

#[test]
fn year_first_forms() {
    assert_eq!(date_from_string("2024-12-30".to_string()), ok(2024, 12, 30));
    assert_eq!(date_from_string("2024/1/5".to_string()), ok(2024, 1, 5));
    assert_eq!(date_from_string("13-1-5".to_string()), ok(2013, 1, 5));
    assert_eq!(date_from_string("99-12-31".to_string()), ok(2099, 12, 31));
}

#[test]
fn month_first_with_four_digit_year() {
    assert_eq!(date_from_string("12/25/2024".to_string()), ok(2024, 12, 25));
    assert_eq!(date_from_string("5/6/2024".to_string()), ok(2024, 5, 6));
    assert_eq!(date_from_string("1-31-100".to_string()), ok(100, 1, 31));
}

#[test]
fn separators_may_be_mixed() {
    assert_eq!(date_from_string("2024-3/7".to_string()), ok(2024, 3, 7));
}

#[test]
fn zero_and_negative_years() {
    assert_eq!(date_from_string("0-1-2".to_string()), ok(2000, 1, 2));
    assert_eq!(date_from_string("-5-1-2".to_string()).is_err(), true);
    assert_eq!(date_from_string("+100-1-2".to_string()), ok(100, 1, 2));
}

#[test]
fn wrong_number_of_fields() {
    let msg = "Invalid date format. Expected 3 parts separated by - or /".to_string();
    assert_eq!(date_from_string("2024-12".to_string()), Err(msg.clone()));
    assert_eq!(date_from_string("2024-12-30-1".to_string()), Err(msg.clone()));
    assert_eq!(date_from_string("".to_string()), Err(msg.clone()));
    assert_eq!(date_from_string("20241230".to_string()), Err(msg));
}

#[test]
fn fields_that_are_not_numbers() {
    let msg = "Invalid number in date".to_string();
    assert_eq!(date_from_string("a-b-c".to_string()), Err(msg.clone()));
    assert_eq!(date_from_string("2024--30".to_string()), Err(msg.clone()));
    assert_eq!(date_from_string("2024-12-".to_string()), Err(msg.clone()));
    assert_eq!(date_from_string("2024-1 -5".to_string()), Err(msg.clone()));
    assert_eq!(date_from_string("2024--1-5".to_string()), Err("Invalid date format. Expected 3 parts separated by - or /".to_string()));
    assert_eq!(date_from_string("2024-12-4294967296".to_string()), Err(msg));
}

#[test]
fn law_ymd_roundtrip_on_values() {
    for (y, m, d) in [(100, 1, 1), (2024, 12, 30), (999999, 0, 77)] {
        let text = format!("{}-{}/{}", y, m, d);
        assert_eq!(date_from_string(text), ok(y, m, d));
    }
}
