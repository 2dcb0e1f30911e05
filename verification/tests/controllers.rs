//! The controllers: the outlet controller's local model and round-trip
//! halves, the thermometer controller's freshness, and subscriptions.

use smart_home::controllers::therm_controller::ThermEvent;
use smart_home::controllers::{
    SocketController, SubscriptionHandle, SubscriptionRegistry, ThermController, ThermError,
};
use smart_home::protocol::now_ms;
use smart_home::protocol::socket_protocol::{SocketData, SocketResponse};
use smart_home::units::{Celsius, Watts};

#[test]
fn test_sync_device_access() {
    let controller = SocketController::new("127.0.0.1:8080", Watts::new(150000), 5000);

    let device = controller.device().unwrap();
    assert!(!device.is_active());
    assert_eq!(device.power_rating(), Watts::new(150000));
}

#[test]
fn socket_controller_test_report() {
    let controller = SocketController::new("127.0.0.1:8080", Watts::new(150000), 5000);

    let report = controller.report();
    assert!(report.contains("Smart Socket") || report.contains("SocketController"));
}

#[test]
fn controller_settings_are_kept() {
    let controller = SocketController::new("127.0.0.1:8080", Watts::new(150000), 5000);
    assert_eq!(controller.address(), "127.0.0.1:8080");
    assert_eq!(controller.timeout(), 5000);
}

#[test]
fn reply_synchronizes_the_local_model() {
    let mut controller = SocketController::new("127.0.0.1:8080", Watts::new(100000), 5000);

    // The snapshot's draw differs from the controller's own rating:
    // the model must mirror the snapshot, not the rating.
    let on = SocketResponse::Okay(SocketData {
        active: true,
        power: 200000,
        device_id: Some("outlet".to_string()),
    });
    let data = controller.apply_response(on).unwrap();
    assert!(data.active);
    let device = controller.device().unwrap();
    assert!(device.is_active());
    assert_eq!(device.current_power(), Watts::new(200000));
    assert_eq!(device.power_rating(), Watts::new(100000));

    let off = SocketResponse::Okay(SocketData {
        active: false,
        power: 0,
        device_id: Some("outlet".to_string()),
    });
    controller.apply_response(off).unwrap();
    let device = controller.device().unwrap();
    assert!(!device.is_active());
    assert_eq!(device.current_power(), Watts::new(0));
}

#[test]
fn reported_failure_leaves_the_model_alone() {
    let mut controller = SocketController::new("127.0.0.1:8080", Watts::new(200000), 5000);
    let failure = SocketResponse::Error {
        message: "Device overheating".to_string(),
    };
    let result = controller.apply_response(failure);
    assert!(result.is_err());
    assert!(!controller.device().unwrap().is_active());
}

#[test]
fn reconnect_decision_follows_the_probe() {
    let mut controller = SocketController::new("127.0.0.1:8080", Watts::new(150000), 5000);
    assert!(controller.must_reconnect(true));
    controller.mark_connected();
    assert!(!controller.must_reconnect(true));
    assert!(controller.must_reconnect(false));
    controller.disconnect();
    assert!(controller.must_reconnect(true));
}

#[test]
fn controller_creation() {
    let addr = "127.0.0.1:34567";
    let max_age = 5000u64;

    let controller = ThermController::new(Celsius::new(2250), addr, max_age);

    assert_eq!(controller.listen_addr(), addr);
    assert_eq!(controller.max_age_ms(), max_age);
    assert_eq!(controller.last_update(), 0);
    assert!(!controller.is_running());

    let device = controller.device();
    assert_eq!(device.temperature(), Celsius::new(2250));
}

#[test]
fn temperature_no_data_initially() {
    let controller = ThermController::new(Celsius::new(2000), "127.0.0.1:34568", 1000);

    let result = controller.temperature();
    assert!(matches!(result, Err(ThermError::NoFreshData)));
}

#[test]
fn temperature_with_fresh_data() {
    let mut controller = ThermController::new(Celsius::new(2000), "127.0.0.1:34569", 10000);

    controller.record_sample(Celsius::new(2550), now_ms());

    let result = controller.temperature();
    assert!(result.is_ok());
    assert_eq!(result.unwrap(), Celsius::new(2550));
}

#[test]
fn temperature_with_stale_data() {
    let mut controller = ThermController::new(Celsius::new(2000), "127.0.0.1:34570", 100);

    let old_timestamp = now_ms() - 200;
    controller.record_sample(Celsius::new(2000), old_timestamp);

    let result = controller.temperature();
    assert!(matches!(result, Err(ThermError::NoFreshData)));
}

#[test]
fn freshness_window_is_exact() {
    let mut controller = ThermController::new(Celsius::new(2000), "127.0.0.1:34571", 100);
    let base = 1_700_000_000_000u64;
    controller.record_sample(Celsius::new(2150), base);

    assert_eq!(controller.temperature_at(base + 10), Ok(Celsius::new(2150)));
    assert_eq!(controller.temperature_at(base + 100), Ok(Celsius::new(2150)));
    assert_eq!(
        controller.temperature_at(base + 200),
        Err(ThermError::NoFreshData)
    );
}

#[test]
fn datagrams_drive_the_reading() {
    let mut controller = ThermController::new(Celsius::new(2000), "127.0.0.1:34572", 100);
    let base = 1_700_000_000_000u64;

    let accepted = controller.ingest_datagram(
        "{\"temperature\":23.5,\"device_id\":\"t1\"}".as_bytes(),
        base,
    );
    assert_eq!(accepted, Some(Celsius::new(2350)));
    assert_eq!(controller.temperature_at(base + 50), Ok(Celsius::new(2350)));

    let rejected = controller.ingest_datagram("no json at all".as_bytes(), base + 60);
    assert_eq!(rejected, None);
    assert_eq!(controller.last_update(), base);

    let below_zero = controller.ingest_datagram(
        "{\"temperature\":-300.0,\"device_id\":null}".as_bytes(),
        base + 70,
    );
    assert_eq!(below_zero, None);
    assert_eq!(controller.temperature_at(base + 80), Ok(Celsius::new(2350)));
}

#[test]
fn stale_poll_raises_the_alarm() {
    let mut controller = ThermController::new(Celsius::new(2000), "127.0.0.1:34573", 100);
    let base = 1_700_000_000_000u64;

    assert_eq!(controller.poll_event(base), ThermEvent::Silent);
    controller.record_sample(Celsius::new(2100), base);
    assert_eq!(controller.poll_event(base + 50), ThermEvent::Silent);
    assert_eq!(controller.poll_event(base + 150), ThermEvent::Stale);
    assert_eq!(controller.poll_event(base + 250), ThermEvent::Stale);
}

#[test]
fn subscription_basic() {
    let mut registry: SubscriptionRegistry<u32> = SubscriptionRegistry::new();

    let _subscription = SubscriptionHandle::new(registry.register(1));

    assert_eq!(registry.len(), 1);
}

#[test]
fn subscription_unsubscribe() {
    let mut registry: SubscriptionRegistry<u32> = SubscriptionRegistry::new();

    let subscription = SubscriptionHandle::new(registry.register(1));

    assert_eq!(registry.len(), 1);

    subscription.unsubscribe(&mut registry);

    assert_eq!(registry.len(), 0);
}

#[test]
fn unsubscribing_one_of_two_leaves_one() {
    let mut registry: SubscriptionRegistry<u32> = SubscriptionRegistry::new();

    let first = SubscriptionHandle::new(registry.register(10));
    let second = SubscriptionHandle::new(registry.register(20));
    assert_eq!(registry.len(), 2);

    let second_id = second.id();
    first.unsubscribe(&mut registry);

    assert_eq!(registry.len(), 1);
    let snapshot = registry.ids();
    assert_eq!(snapshot, vec![second_id]);
    assert_eq!(registry.get(second_id), Some(&20));
}

#[test]
fn ids_keep_increasing_after_removal() {
    let mut registry: SubscriptionRegistry<u32> = SubscriptionRegistry::new();
    let a = registry.register(1);
    let b = registry.register(2);
    registry.unregister(a);
    let c = registry.register(3);
    assert!(b < c);
    assert_eq!(registry.ids(), vec![b, c]);
    registry.unregister(a);
    assert_eq!(registry.len(), 2);
}

#[test]
fn unrepresentable_wire_draw_falls_back_to_the_switch() {
    let mut controller = SocketController::new("127.0.0.1:8080", Watts::new(100000), 5000);

    // A negative draw cannot be mirrored; the model keeps the draw its
    // switch state implies.
    let odd = SocketResponse::Okay(SocketData {
        active: true,
        power: -1,
        device_id: None,
    });
    controller.apply_response(odd).unwrap();
    let device = controller.device().unwrap();
    assert!(device.is_active());
    assert_eq!(device.current_power(), Watts::new(100000));
}
