//! The device models: outlets, thermometers, and the device sum type.

use smart_home::devices::{Device, SmartSocket, SmartTherm};
use smart_home::units::{Celsius, Watts};

#[test]
fn device_enum() {
    let mut socket = Device::Socket(SmartSocket::new(Watts::new(150000)));
    let therm = Device::Therm(SmartTherm::new(Celsius::new(2250)));

    if let Device::Socket(s) = &mut socket {
        s.turn_on();
    }

    assert!(socket.report().contains("1500.0W"));
    assert!(therm.report().contains("22.5°C"));
}

#[test]
fn device_display() {
    let socket = Device::Socket(SmartSocket::new(Watts::new(150000)));
    let therm = Device::Therm(SmartTherm::new(Celsius::new(2250)));

    let output = socket.report();
    assert!(output.starts_with("Smart Socket"));

    let output = therm.report();
    assert!(output.starts_with("Smart Thermometer"));
}

#[test]
fn device_from() {
    let socket = SmartSocket::new(Watts::new(150000));
    let therm = SmartTherm::new(Celsius::new(2250));

    let socket_device: Device = socket.into();
    let therm_device: Device = therm.into();

    assert!(matches!(socket_device, Device::Socket(_)));
    assert!(matches!(therm_device, Device::Therm(_)));

    assert!(socket_device.report().contains("1500.0W"));
    assert!(therm_device.report().contains("22.5°C"));
}

#[test]
fn socket_creation() {
    let socket = SmartSocket::new(Watts::new(150000));
    assert!(!socket.is_active());
    assert_eq!(socket.current_power(), Watts::new(0));
}

#[test]
fn power_management() {
    let mut socket = SmartSocket::new(Watts::new(200000));

    socket.turn_on();
    assert!(socket.is_active());
    assert_eq!(socket.current_power(), Watts::new(200000));

    socket.turn_off();
    assert!(!socket.is_active());
    assert_eq!(socket.current_power(), Watts::new(0));
}

#[test]
fn smart_socket_report() {
    let mut socket = SmartSocket::new(Watts::new(150000));
    assert!(socket.report().contains("INACTIVE"));

    socket.turn_on();
    assert!(socket.report().contains("ACTIVE"));
    assert!(socket.report().contains("1500.0W"));
}

#[test]
fn set_current_power() {
    let mut socket = SmartSocket::new(Watts::new(150000));
    socket.set_current_power(Watts::new(100000));
    assert_eq!(socket.current_power(), Watts::new(100000));
}

#[test]
fn smart_therm_creation() {
    let therm = SmartTherm::new(Celsius::new(2250));
    assert_eq!(therm.temperature(), Celsius::new(2250));
}

#[test]
fn temperature_update() {
    let mut therm = SmartTherm::new(Celsius::new(2250));
    assert_eq!(therm.temperature(), Celsius::new(2250));

    therm.set_temperature(Celsius::new(2500));
    assert_eq!(therm.temperature(), Celsius::new(2500));
}

#[test]
fn smart_therm_report() {
    let mut therm = SmartTherm::new(Celsius::new(2370));
    assert!(therm.report().contains("23.7°C"));

    therm.set_temperature(Celsius::new(-520));
    assert!(therm.report().contains("-5.2°C"));
}

#[test]
fn device_test_device_enum() {
    let mut socket = Device::Socket(SmartSocket::new(Watts::new(150000)));
    let therm = Device::Therm(SmartTherm::new(Celsius::new(2250)));

    if let Device::Socket(s) = &mut socket {
        s.turn_on();
    }

    assert!(socket.report().contains("1500.0W"));
    assert!(therm.report().contains("22.5°C"));
}

#[test]
fn device_test_device_display() {
    let socket = Device::Socket(SmartSocket::new(Watts::new(150000)));
    let therm = Device::Therm(SmartTherm::new(Celsius::new(2250)));

    assert!(socket.report().starts_with("Smart Socket"));
    assert!(therm.report().starts_with("Smart Thermometer"));
}

#[test]
fn test_device_from() {
    let socket = SmartSocket::new(Watts::new(150000));
    let therm = SmartTherm::new(Celsius::new(2250));

    let socket_device: Device = socket.into();
    let therm_device: Device = therm.into();

    assert!(matches!(socket_device, Device::Socket(_)));
    assert!(matches!(therm_device, Device::Therm(_)));

    assert!(socket_device.report().contains("1500.0W"));
    assert!(therm_device.report().contains("22.5°C"));
}

#[test]
fn mod_test_device_enum() {
    let mut socket = Device::Socket(SmartSocket::new(Watts::new(150000)));
    let therm = Device::Therm(SmartTherm::new(Celsius::new(2250)));

    if let Device::Socket(s) = &mut socket {
        s.turn_on();
    }

    assert!(socket.report().contains("1500.0W"));
    assert!(therm.report().contains("22.5°C"));
}

#[test]
fn mod_test_device_display() {
    let socket = Device::Socket(SmartSocket::new(Watts::new(150000)));
    let therm = Device::Therm(SmartTherm::new(Celsius::new(2250)));

    assert!(socket.report().starts_with("Smart Socket"));
    assert!(therm.report().starts_with("Smart Thermometer"));
}

#[test]
fn test_socket_creation() {
    let socket = SmartSocket::new(Watts::new(150000));
    assert!(!socket.is_active());
    assert_eq!(socket.current_power(), Watts::new(0));
}

#[test]
fn test_power_management() {
    let mut socket = SmartSocket::new(Watts::new(200000));

    socket.turn_on();
    assert!(socket.is_active());
    assert_eq!(socket.current_power(), Watts::new(200000));

    socket.turn_off();
    assert!(!socket.is_active());
    assert_eq!(socket.current_power(), Watts::new(0));
}

#[test]
fn smart_socket_test_report() {
    let mut socket = SmartSocket::new(Watts::new(150000));
    assert!(socket.report().contains("INACTIVE"));

    socket.turn_on();
    assert!(socket.report().contains("ACTIVE"));
    assert!(socket.report().contains("1500.0W"));
}

#[test]
fn test_smart_therm_creation() {
    let therm = SmartTherm::new(Celsius::new(2250));
    assert_eq!(therm.temperature(), Celsius::new(2250));
}

#[test]
fn test_temperature_update() {
    let mut therm = SmartTherm::new(Celsius::new(2250));
    assert_eq!(therm.temperature(), Celsius::new(2250));

    therm.set_temperature(Celsius::new(2500));
    assert_eq!(therm.temperature(), Celsius::new(2500));
}

#[test]
fn smart_therm_test_report() {
    let mut therm = SmartTherm::new(Celsius::new(2370));
    assert!(therm.report().contains("23.7°C"));

    therm.set_temperature(Celsius::new(-520));
    assert!(therm.report().contains("-5.2°C"));
}
