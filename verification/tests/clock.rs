use chronos::clock::{Clock, ManualClock};

#[test]
fn manual_clock_reports_its_setting() {
    let mut c = ManualClock { micros: 42 };
    assert_eq!(c.now_micros(), 42);
    c.micros = 7;
    assert_eq!(c.now_micros(), 7);
}
