use wallpaper::time::{TextFault, TimeOfDay, TimePart, ValidTime};

fn hms(h: u32, m: u32, s: u32) -> TimeOfDay {
    TimeOfDay::new(h * 3600 + m * 60 + s, 0).unwrap()
}

#[test]
fn parses_hour_range() {
    let w = ValidTime::parse("9-17").unwrap();
    assert_eq!(w, ValidTime::new(hms(9, 0, 0), hms(17, 0, 0)));
}

#[test]
fn parses_minutes_and_seconds() {
    let w = ValidTime::parse("10:30-12:15:20").unwrap();
    assert_eq!(w, ValidTime::new(hms(10, 30, 0), hms(12, 15, 20)));
}

#[test]
fn star_is_whole_day() {
    assert_eq!(ValidTime::parse("*").unwrap(), ValidTime::all());
    assert_eq!(ValidTime::parse("  *  ").unwrap(), ValidTime::all());
}

#[test]
fn hour_twenty_four_is_end_of_day() {
    let w = ValidTime::parse("0-24").unwrap();
    assert_eq!(w, ValidTime::all());
}

#[test]
fn single_time_opens_one_hour() {
    let w = ValidTime::parse("9").unwrap();
    assert_eq!(w, ValidTime::new(hms(9, 0, 0), hms(10, 0, 0)));
    let w = ValidTime::parse("22:30:15").unwrap();
    assert_eq!(w, ValidTime::new(hms(22, 30, 15), hms(23, 30, 15)));
}

#[test]
fn single_late_time_ends_with_the_day() {
    let w = ValidTime::parse("23").unwrap();
    assert_eq!(w, ValidTime::new(hms(23, 0, 0), TimeOfDay::max()));
    assert!(w.check().is_ok());
    assert!(w.matches(&hms(23, 30, 0)));
    let w = ValidTime::parse("22:59:59").unwrap();
    assert_eq!(w, ValidTime::new(hms(22, 59, 59), hms(23, 59, 59)));
}

#[test]
fn hour_may_carry_a_plus_sign() {
    assert_eq!(ValidTime::parse("+9").unwrap(), ValidTime::new(hms(9, 0, 0), hms(10, 0, 0)));
    let e = ValidTime::parse("-5").unwrap_err();
    assert_eq!(e.part, TimePart::Start);
    assert_eq!(e.text, "");
}

#[test]
fn overlong_hour_is_no_time() {
    let e = ValidTime::parse("99999999999").unwrap_err();
    assert_eq!(e.fault, TextFault::InvalidTime);
    let e = ValidTime::parse("4294967295").unwrap_err();
    assert_eq!(e.fault, TextFault::InvalidHour);
}

#[test]
fn unicode_blanks_are_trimmed() {
    assert_eq!(ValidTime::parse("\u{3000}*\t\n").unwrap(), ValidTime::all());
}

#[test]
fn invalid_hour_is_reported() {
    let e = ValidTime::parse("25").unwrap_err();
    assert_eq!(e.fault, TextFault::InvalidHour);
    assert_eq!(e.part, TimePart::Single);
    assert_eq!(e.text, "25");
    let e = ValidTime::parse("9-30").unwrap_err();
    assert_eq!(e.fault, TextFault::InvalidHour);
    assert_eq!(e.part, TimePart::End);
}

#[test]
fn invalid_text_is_reported() {
    let e = ValidTime::parse("noon").unwrap_err();
    assert_eq!(e.fault, TextFault::InvalidTime);
    assert_eq!(e.part, TimePart::Single);
    let e = ValidTime::parse("x-17").unwrap_err();
    assert_eq!(e.fault, TextFault::InvalidTime);
    assert_eq!(e.part, TimePart::Start);
    assert_eq!(e.text, "x");
}

#[test]
fn parts_are_not_trimmed() {
    let e = ValidTime::parse("9 - 17").unwrap_err();
    assert_eq!(e.part, TimePart::Start);
    assert_eq!(e.text, "9 ");
}

#[test]
fn matches_includes_both_bounds() {
    let w = ValidTime::new(hms(9, 0, 0), hms(17, 0, 0));
    assert!(w.matches(&hms(9, 0, 0)));
    assert!(w.matches(&hms(17, 0, 0)));
    assert!(w.matches(&hms(12, 0, 0)));
    assert!(!w.matches(&hms(8, 59, 59)));
    assert!(!w.matches(&TimeOfDay::new(17 * 3600, 1).unwrap()));
    assert!(!w.matches(&hms(20, 0, 0)));
}

#[test]
fn whole_day_matches_every_instant() {
    let all = ValidTime::all();
    assert!(all.matches(&TimeOfDay::min()));
    assert!(all.matches(&hms(23, 59, 59)));
    assert!(all.matches(&TimeOfDay::new(86_399, 999_999_999).unwrap()));
    assert!(all.matches(&TimeOfDay::max()));
}

#[test]
fn time_of_day_rejects_out_of_range() {
    assert!(TimeOfDay::new(86_400, 0).is_none());
    assert!(TimeOfDay::new(100, 1_500_000_000).is_none());
    assert!(TimeOfDay::new(119, 1_500_000_000).is_some());
}

#[test]
fn written_form_drops_zero_parts() {
    assert_eq!(ValidTime::new(hms(9, 0, 0), hms(17, 0, 0)).to_string(), "09-17");
    assert_eq!(ValidTime::new(hms(9, 30, 0), hms(17, 0, 5)).to_string(), "09:30-17:00:05");
    assert_eq!(ValidTime::to_s(&TimeOfDay::max()), "23:59:60");
}

#[test]
fn check_reports_inverted_window() {
    assert_eq!(ValidTime::new(hms(9, 0, 0), hms(17, 0, 0)).check(), Ok(()));
    assert_eq!(
        ValidTime::new(hms(17, 0, 0), hms(9, 0, 0)).check(),
        Err(String::from("invalid time: 17 must be before 09"))
    );
}
