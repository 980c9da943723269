use status_bar::format::{
    battery_is_charging, date, fallback_line, status_line, volume_is_muted, Date, LocalTime,
};
use status_bar::statistics::{Battery, Brightness, Memory, PowerSupply, Volume};

fn file(text: &str) -> Option<Vec<u8>> {
    Some(text.as_bytes().to_vec())
}

#[test]
fn markers() {
    assert_eq!(battery_is_charging(true), "+");
    assert_eq!(battery_is_charging(false), "-");
    assert_eq!(volume_is_muted(true), "(x)");
    assert_eq!(volume_is_muted(false), "");
}

#[test]
fn local_time_is_rendered_with_two_digit_fields() {
    let t = LocalTime { year: 2026, month: 10, day: 6, hour: 9, minute: 5, second: 0 };
    let d = Date::from_local(&t);
    assert_eq!(d.time, "09:05:00");
    assert_eq!(d.date, "06/10/26");
    let t = LocalTime { year: 2000, month: 1, day: 31, hour: 23, minute: 59, second: 59 };
    let d = Date::from_local(&t);
    assert_eq!(d.time, "23:59:59");
    assert_eq!(d.date, "31/01/00");
}

#[test]
fn negative_years_wrap_into_the_century() {
    let t = LocalTime { year: -1, month: 12, day: 25, hour: 0, minute: 0, second: 0 };
    assert_eq!(Date::from_local(&t).date, "25/12/99");
    let t = LocalTime { year: -200, month: 1, day: 1, hour: 0, minute: 0, second: 0 };
    assert_eq!(Date::from_local(&t).date, "01/01/00");
}

#[test]
fn current_date_has_the_displayed_shape() {
    let d = date();
    let time = d.time.as_bytes();
    let day = d.date.as_bytes();
    assert_eq!(time.len(), 8);
    assert_eq!(day.len(), 8);
    assert_eq!(time[2], b':');
    assert_eq!(time[5], b':');
    assert_eq!(day[2], b'/');
    assert_eq!(day[5], b'/');
    assert!(d.time.as_str() < "24");
    assert!(d.date.as_str() != "00/00/00");
}

#[test]
fn end_to_end_status_line() {
    let devices = vec![
        PowerSupply {
            kind: file("Battery\n"),
            capacity: file("50\n"),
            charge_now: file("3000\n"),
            charge_full: file("6000\n"),
            online: None,
        },
        PowerSupply { kind: file("Mains\n"), capacity: None, charge_now: None, charge_full: None, online: file("1\n") },
    ];
    let battery = Battery::new(&devices).unwrap();
    let brightness = Brightness::new(&file("120\n"), &file("240\n")).unwrap();
    let memory = Memory::new(&file("MemTotal:        8000000 kB\nMemFree:         2000000 kB\n")).unwrap();
    let volume = Volume::new(
        &file("Volume: front-left: 65536 / 65% / -11.23 dB,   front-right: 65536 / 65% / -11.23 dB\n"),
        &file("Mute: yes\n"),
    )
    .unwrap();
    let when = Date::from_local(&LocalTime { year: 2026, month: 10, day: 16, hour: 12, minute: 30, second: 45 });
    let line = status_line(&battery, &brightness, &volume, &memory, &when);
    assert_eq!(line, "65%(x) | 50% | +50.0% | 6000000 / 8000000 | 12:30:45 | 16/10/26");
    assert!(line.contains("50.0"));
    assert!(line.contains("6000000 / 8000000"));
    assert!(line.contains("65%(x)"));
}

#[test]
fn status_line_without_battery_or_mute() {
    let battery = Battery { charge_now: 0, charge_full: 0, capacity: 0, is_charging: false };
    let brightness = Brightness { current: 1, max: 3 };
    let volume = Volume { volume: 0, muted: false };
    let memory = Memory { free: 10, used: 0, available: 0, total: 10 };
    let when = Date { date: "01/02/03".to_string(), time: "04:05:06".to_string() };
    let line = status_line(&battery, &brightness, &volume, &memory, &when);
    assert_eq!(line, "0% | 33% | -0.0% | 0 / 10 | 04:05:06 | 01/02/03");
    let battery = Battery { charge_now: 1, charge_full: 3, capacity: 33, is_charging: true };
    let line = status_line(&battery, &brightness, &volume, &memory, &when);
    assert!(line.contains(" | +33.3% | "));
}

#[test]
fn fallback_line_keeps_time_and_date() {
    let when = Date { date: "16/10/26".to_string(), time: "12:30:45".to_string() };
    assert_eq!(fallback_line(&when), "N/A | 12:30:45 | 16/10/26");
}
