//! Rooms and the house: name lookup, filing and removal, and the
//! reports.

use smart_home::devices::{Device, SmartSocket, SmartTherm};
use smart_home::house::{SmartHouse, SmartHouseError};
use smart_home::room::{Room, RoomItem};
use smart_home::units::{Celsius, Watts};

fn test_room() -> Room {
    let mut room = Room::default();
    room.add_item(
        "kitchen_therm",
        RoomItem::Device(Device::Therm(SmartTherm::new(Celsius::new(2250)))),
    );
    room.add_item(
        "living_socket",
        RoomItem::Device(Device::Socket(SmartSocket::new(Watts::new(150000)))),
    );
    room
}

fn test_house() -> SmartHouse {
    let mut house = SmartHouse::default();
    let mut kitchen = Room::default();
    kitchen.add_item(
        "therm",
        RoomItem::Device(Device::Therm(SmartTherm::new(Celsius::new(2250)))),
    );
    house.add_room("kitchen", kitchen);
    let mut living_room = Room::default();
    living_room.add_item(
        "socket",
        RoomItem::Device(Device::Socket(SmartSocket::new(Watts::new(150000)))),
    );
    house.add_room("living_room", living_room);
    house
}

#[test]
fn device_access() {
    let mut room = test_room();

    let therm = room.device("kitchen_therm");
    assert!(matches!(therm, Some(Device::Therm(_))));

    if let Some(Device::Socket(s)) = room.device_mut("living_socket") {
        s.turn_on();
        assert!(s.is_active());
    }

    assert!(room.device("not_exists").is_none());
}

#[test]
fn add_remove_device() {
    let mut room = Room::default();

    room.add_device(
        "bedroom_therm",
        Device::Therm(SmartTherm::new(Celsius::new(2000))),
    );
    assert_eq!(room.devices_count(), 1);

    assert!(matches!(
        room.device("bedroom_therm"),
        Some(Device::Therm(_))
    ));

    let removed = room.remove_device("bedroom_therm");
    assert!(matches!(removed, Some(Device::Therm(_))));
    assert_eq!(room.devices_count(), 0);

    assert!(room.device("bedroom_therm").is_none());
}

#[test]
fn room_report_lines() {
    let mut room = test_room();

    if let Some(Device::Socket(s)) = room.device_mut("living_socket") {
        s.turn_on();
    }

    let report_lines = room.report_lines();
    assert_eq!(report_lines.len(), 2);

    let contains_socket = report_lines
        .iter()
        .any(|s| s.contains("living_socket") && s.contains("1500.0W"));
    let contains_therm = report_lines
        .iter()
        .any(|s| s.contains("kitchen_therm") && s.contains("22.5°C"));

    assert!(contains_socket);
    assert!(contains_therm);
}

#[test]
fn room_report() {
    let mut room = test_room();

    if let Some(Device::Socket(s)) = room.device_mut("living_socket") {
        s.turn_on();
    }

    let report = room.report();

    assert!(report.contains("living_socket"));
    assert!(report.contains("1500.0W"));
    assert!(report.contains("kitchen_therm"));
    assert!(report.contains("22.5°C"));

    assert_eq!(report.matches("\n").count(), 1);
}

#[test]
fn room_display() {
    let room = test_room();
    let display_output = room.report();

    assert!(display_output.contains("kitchen_therm"));
    assert!(display_output.contains("22.5°C"));
    assert!(display_output.contains("living_socket"));
    assert!(display_output.contains("1500.0W"));
}

#[test]
fn report_lines_are_spelled_exactly() {
    let room = test_room();
    let lines = room.report_lines();
    assert_eq!(
        lines[0],
        "[Device:kitchen_therm] Smart Thermometer: 22.5°C"
    );
    assert_eq!(
        lines[1],
        "[Device:living_socket] Smart Socket: INACTIVE | Power: 0.0W (Rated: 1500.0W)"
    );

    let house = test_house();
    let house_lines = house.report_lines();
    assert_eq!(house_lines[0], "Room: kitchen");
    assert_eq!(house_lines[1], "  [Device:therm] Smart Thermometer: 22.5°C");
}

#[test]
fn devices_count() {
    let room = test_room();
    assert_eq!(room.devices_count(), 2);
}

#[test]
fn room_macros() {
    let mut room = Room::default();
    room.add_item(
        "socket1",
        RoomItem::Device(Device::Socket(SmartSocket::new(Watts::new(100000)))),
    );
    room.add_item(
        "therm1",
        RoomItem::Device(Device::Therm(SmartTherm::new(Celsius::new(1800)))),
    );

    assert_eq!(room.devices_count(), 2);
    assert!(room.device("socket1").is_some());
    assert!(room.device("therm1").is_some());
}

#[test]
fn room_access() {
    let mut house = test_house();

    let kitchen = house.room("kitchen").unwrap();
    assert_eq!(kitchen.devices_count(), 1);

    if let Ok(Device::Socket(s)) = house.device_mut("living_room", "socket") {
        s.turn_on();
        assert!(s.is_active());
    }

    assert!(house.room("not_exists").is_none());
}

#[test]
fn direct_device_access() {
    let mut house = test_house();

    let result = house.device("kitchen", "therm");
    assert!(result.is_ok());
    assert!(matches!(result.unwrap(), Device::Therm(_)));

    let error = house.device("bathroom", "therm").unwrap_err();
    assert!(matches!(error, SmartHouseError::RoomNotFound(_)));

    let error = house.device("kitchen", "socket").unwrap_err();
    assert!(matches!(error, SmartHouseError::DeviceNotFound(_, _)));

    if let Ok(Device::Socket(s)) = house.device_mut("living_room", "socket") {
        s.turn_on();
        assert!(s.is_active());
    }
}

#[test]
fn add_remove_room() {
    let mut house = SmartHouse::default();

    let mut bedroom = Room::default();
    bedroom.add_item(
        "therm",
        RoomItem::Device(Device::Therm(SmartTherm::new(Celsius::new(2000)))),
    );
    house.add_room("bedroom", bedroom);
    assert_eq!(house.rooms_count(), 1);

    assert!(house.room("bedroom").is_some());

    let removed = house.remove_room("bedroom");
    assert!(removed.is_some());
    assert_eq!(house.rooms_count(), 0);

    assert!(house.room("bedroom").is_none());
}

#[test]
fn house_report_lines() {
    let mut house = test_house();

    if let Ok(Device::Socket(s)) = house.device_mut("living_room", "socket") {
        s.turn_on();
    }

    let report_lines = house.report_lines();

    assert_eq!(report_lines.len(), 4);

    let contains_kitchen = report_lines.iter().any(|s| s.contains("Room: kitchen"));
    let contains_living = report_lines.iter().any(|s| s.contains("Room: living_room"));
    let contains_therm = report_lines.iter().any(|s| s.contains("22.5°C"));
    let contains_socket = report_lines.iter().any(|s| s.contains("1500.0W"));

    assert!(contains_kitchen);
    assert!(contains_living);
    assert!(contains_therm);
    assert!(contains_socket);
}

#[test]
fn house_report() {
    let mut house = test_house();

    if let Ok(Device::Socket(s)) = house.device_mut("living_room", "socket") {
        s.turn_on();
    }

    let report = house.report();

    assert!(report.contains("Room: kitchen"));
    assert!(report.contains("Room: living_room"));
    assert!(report.contains("22.5°C"));
    assert!(report.contains("1500.0W"));

    assert_eq!(report.matches("\n").count(), 3);
}

#[test]
fn house_display() {
    let house = test_house();
    let display_output = house.report();

    assert!(display_output.contains("Room: kitchen"));
    assert!(display_output.contains("22.5°C"));
    assert!(display_output.contains("Room: living_room"));
    assert!(display_output.contains("socket"));
}

#[test]
fn rooms_count() {
    let house = test_house();
    assert_eq!(house.rooms_count(), 2);
}

#[test]
fn house_macros() {
    let mut house = SmartHouse::default();
    let mut room1 = Room::default();
    room1.add_item(
        "socket1",
        RoomItem::Device(Device::Socket(SmartSocket::new(Watts::new(100000)))),
    );
    house.add_room("room1", room1);
    let mut room2 = Room::default();
    room2.add_item(
        "therm1",
        RoomItem::Device(Device::Therm(SmartTherm::new(Celsius::new(1800)))),
    );
    house.add_room("room2", room2);

    assert_eq!(house.rooms_count(), 2);
    assert!(house.room("room1").is_some());
    assert!(house.room("room2").is_some());
}
