use makepad::counter::{push_decimal, Counter};

#[test]
fn counter_label_counts_clicks() {
    let mut c = Counter::new();
    assert_eq!(c.click(), "Counter: 1");
    for _ in 0..8 {
        c.click();
    }
    assert_eq!(c.click(), "Counter: 10");
    assert_eq!(c.count, 10);
    let mut s = String::from("n=");
    push_decimal(&mut s, 1207);
    assert_eq!(s, "n=1207");
    let mut z = String::new();
    push_decimal(&mut z, 0);
    assert_eq!(z, "0");
}
