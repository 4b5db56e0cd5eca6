use pinscrape::telemetry::{rate_hundredths, Telemetry};

#[test]
fn tick_reports_growth_and_rotates_spinner() {
    let mut t = Telemetry::new();
    let a = t.tick(3);
    assert_eq!((a.count, a.delta, a.spinner), (3, 3, '|'));
    let b = t.tick(7);
    assert_eq!((b.count, b.delta, b.spinner), (7, 4, '/'));
    let c = t.tick(7);
    assert_eq!((c.delta, c.spinner), (0, '-'));
    let d = t.tick(8);
    assert_eq!(d.spinner, '\\');
    let e = t.tick(8);
    assert_eq!(e.spinner, '|');
}

#[test]
fn rates_in_hundredths() {
    assert_eq!(rate_hundredths(3, 100), 3000);
    assert_eq!(rate_hundredths(10, 3000), 333);
    assert_eq!(rate_hundredths(0, 7), 0);
    assert_eq!(rate_hundredths(2, 3000), 67);
    assert_eq!(rate_hundredths(1, 2000), 50);
}
