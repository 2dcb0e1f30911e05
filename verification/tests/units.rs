//! The unit wrappers: construction, arithmetic, and rendering.

use smart_home::units::{Celsius, Watts};

#[test]
fn celsius_creation() {
    let c = Celsius::new(2500);
    assert_eq!(c.value(), 2500);
}

#[test]
fn celsius_display() {
    let c = Celsius::new(2150);
    assert_eq!(c.text(), "21.5°C");
}

#[test]
fn celsius_operations() {
    let c1 = Celsius::new(2000);
    let c2 = Celsius::new(500);

    assert_eq!(c1.plus(c2), Celsius::new(2500));
    assert_eq!(c1.minus(c2), Celsius::new(1500));
    assert_eq!(c1.plus(Celsius::new(1000)), Celsius::new(3000));
    assert_eq!(c1.minus(Celsius::new(1000)), Celsius::new(1000));
}

#[test]
fn watts_creation() {
    let w = Watts::new(10000);
    assert_eq!(w.value(), 10000);
}

#[test]
fn watts_operations() {
    let w1 = Watts::new(10000);
    let w2 = Watts::new(5000);

    assert_eq!(w1.plus(w2), Watts::new(15000));
    assert_eq!(w1.minus(w2), Watts::new(5000));
    assert_eq!(w2.minus(w1), Watts::new(0));
    assert_eq!(w1.times(2), Watts::new(20000));
    assert_eq!(w1.divided_by(2), Watts::new(5000));
}

#[test]
fn watts_display() {
    let w = Watts::new(123456);
    assert_eq!(w.text(), "1234.6W");
}
