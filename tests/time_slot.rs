use ufsc_schedule::row::ParseError;
use ufsc_schedule::time_slot::{Time, TimeOfDay, Weekday};

fn slot(weekday: Weekday, hour: u32, minute: u32, credits: u32, place: &str) -> Time {
    Time { weekday, time: TimeOfDay { hour, minute }, credits, place: place.to_string() }
}

#[test]
fn parses_the_documented_example() {
    let t = Time::parse("3.1430-4 / CTC-AUD").expect("well formed");
    assert_eq!(t.weekday, Weekday::Tue);
    assert_eq!(t.time, TimeOfDay { hour: 14, minute: 30 });
    assert_eq!(t.credits, 4);
    assert_eq!(t.place, "CTC-AUD");
}

#[test]
fn weekday_digits_map_from_sunday() {
    let days = [
        Weekday::Sun,
        Weekday::Mon,
        Weekday::Tue,
        Weekday::Wed,
        Weekday::Thu,
        Weekday::Fri,
        Weekday::Sat,
    ];
    for (i, day) in days.iter().enumerate() {
        let text = format!("{}.0820-2 / AUX-101", i + 1);
        let t = Time::parse(&text).expect("valid digit");
        assert_eq!(t.weekday, *day);
        assert_eq!(t.weekday.number() as usize, i + 1);
        assert_eq!(t.to_text(), text);
    }
}

#[test]
fn weekday_zero_and_eight_fail() {
    assert!(matches!(Time::parse("0.1430-4 / CTC-AUD"), Err(ParseError::InvalidTimeFormat)));
    assert!(matches!(Time::parse("8.1430-4 / CTC-AUD"), Err(ParseError::InvalidTimeFormat)));
}

#[test]
fn missing_delimiters_fail() {
    assert!(matches!(Time::parse("3.1430-4 CTC-AUD"), Err(ParseError::InvalidTimeFormat)));
    assert!(matches!(Time::parse("31430-4 / CTC-AUD"), Err(ParseError::InvalidTimeFormat)));
    assert!(matches!(Time::parse("3.14304 / CTC-AUD"), Err(ParseError::InvalidTimeFormat)));
    assert!(matches!(Time::parse(""), Err(ParseError::InvalidTimeFormat)));
}

#[test]
fn bad_numbers_fail() {
    assert!(matches!(Time::parse("3.2530-4 / CTC"), Err(ParseError::InvalidTimeFormat)));
    assert!(matches!(Time::parse("3.1460-4 / CTC"), Err(ParseError::InvalidTimeFormat)));
    assert!(matches!(Time::parse("3.14x0-4 / CTC"), Err(ParseError::InvalidTimeFormat)));
    assert!(matches!(Time::parse("3.1430-x / CTC"), Err(ParseError::InvalidTimeFormat)));
    assert!(matches!(Time::parse("x.1430-4 / CTC"), Err(ParseError::InvalidTimeFormat)));
}

#[test]
fn credits_are_trimmed_and_place_kept() {
    let t = Time::parse("7.0730- 2  / EFI 101 / B").expect("well formed");
    assert_eq!(t.weekday, Weekday::Sat);
    assert_eq!(t.time, TimeOfDay { hour: 7, minute: 30 });
    assert_eq!(t.credits, 2);
    assert_eq!(t.place, "EFI 101 / B");
}

#[test]
fn from_str_decodes_too() {
    let t: Time = "5.1620-2 / CSE-AUD".parse().expect("well formed");
    assert_eq!(t.weekday, Weekday::Thu);
    assert!(matches!("5.1620".parse::<Time>(), Err(ParseError::InvalidTimeFormat)));
}

#[test]
fn writes_slots_back() {
    assert_eq!(slot(Weekday::Mon, 8, 0, 2, "CTC").to_text(), "2.0800-2 / CTC");
    assert_eq!(slot(Weekday::Sat, 18, 30, 12, "").to_text(), "7.1830-12 / ");
}

#[test]
fn written_slot_reads_back() {
    let written = slot(Weekday::Fri, 9, 10, 3, "CCE-303");
    let back = Time::parse(&written.to_text()).expect("round trip");
    assert_eq!(back.weekday, written.weekday);
    assert_eq!(back.time, written.time);
    assert_eq!(back.credits, written.credits);
    assert_eq!(back.place, written.place);
}

#[test]
fn clock_reading_follows_the_hour_minute_format() {
    let t = Time::parse("3.1 30-4 / X").expect("spaced clock");
    assert_eq!(t.time, TimeOfDay { hour: 1, minute: 30 });
    let t = Time::parse("3. 0905-4 / X").expect("leading space");
    assert_eq!(t.time, TimeOfDay { hour: 9, minute: 5 });
    assert!(matches!(Time::parse("3. 905-4 / X"), Err(ParseError::InvalidTimeFormat)));
    assert!(matches!(Time::parse("3.930-4 / X"), Err(ParseError::InvalidTimeFormat)));
    assert!(matches!(Time::parse("3.0930 -4 / X"), Err(ParseError::InvalidTimeFormat)));
    assert!(matches!(Time::parse("3.-4 / X"), Err(ParseError::InvalidTimeFormat)));
}
