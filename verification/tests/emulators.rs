//! The emulators: scenarios, the outlet server's command handling, and
//! the thermometer sender's state.

use smart_home::emulators::{EmulationScenario, EmulatorConfig, SocketEmulator, SocketState, ThermEmulator};
use smart_home::protocol::socket_protocol::{decode_frame, parse_response, SocketCommand, SocketResponse};
use smart_home::protocol::therm_protocol::parse_therm_data;
use smart_home::units::{Celsius, Watts};

#[test]
fn scenario_display() {
    assert_eq!(
        EmulationScenario::Normal.description(),
        "🌡️ Нормальная работа"
    );
    assert_eq!(EmulationScenario::Fire.description(), "🔥 Пожар");
    assert_eq!(EmulationScenario::Freeze.description(), "🧊 Заморозка");
    assert_eq!(EmulationScenario::Fluctuate.description(), "📈 Колебания");
}

#[test]
fn scenario_debug() {
    assert_eq!(format!("{:?}", EmulationScenario::Normal), "Normal");
}

#[test]
fn socket_emulator_emulator_creation() {
    let config = EmulatorConfig::new(Watts::new(150000));
    let emulator = SocketEmulator::new(config.clone());

    assert!(!emulator.is_running());
    assert_eq!(config.power_rating, Watts::new(150000));
    assert_eq!(config.device_id, "socket_emulator");
    assert!(emulator.local_addr().is_none());
}

#[test]
fn config_builder_pattern() {
    let config = EmulatorConfig::new(Watts::new(200000))
        .with_address("127.0.0.1:9999")
        .with_device_id("test_socket");

    assert_eq!(config.power_rating, Watts::new(200000));
    assert_eq!(config.bind_address, "127.0.0.1:9999");
    assert_eq!(config.device_id, "test_socket");
}

#[test]
fn socket_state_management() {
    let state = SocketState::new().with_device_id("test".to_string());
    assert!(!state.is_active());
    assert_eq!(state.current_power(), Watts::new(0));
    assert_eq!(state.device_id(), Some("test".to_string()));

    let mut state = SocketState::new();
    state.turn_on(Watts::new(100000));
    assert!(state.is_active());
    assert_eq!(state.current_power(), Watts::new(100000));

    state.turn_off();
    assert!(!state.is_active());
    assert_eq!(state.current_power(), Watts::new(0));
}

#[test]
fn socket_data_conversion() {
    let state = SocketState::new().with_device_id("kitchen_socket".to_string());

    let data = state.to_data();
    assert!(!data.active);
    assert_eq!(data.power, 0);
    assert_eq!(data.device_id, Some("kitchen_socket".to_string()));
}

#[test]
fn command_processing() {
    let mut state = SocketState::new();
    let rating = Watts::new(150000);

    let response = SocketEmulator::process_command(SocketCommand::TurnOn, &mut state, rating);

    if let SocketResponse::Okay(data) = response {
        assert!(data.active);
        assert_eq!(data.power, 150000);
    } else {
        panic!("Expected Ok response");
    }

    let response = SocketEmulator::process_command(SocketCommand::Power, &mut state, rating);

    if let SocketResponse::Okay(data) = response {
        assert!(data.active);
        assert_eq!(data.power, 150000);
    } else {
        panic!("Expected Ok response");
    }

    let response = SocketEmulator::process_command(SocketCommand::TurnOff, &mut state, rating);

    if let SocketResponse::Okay(data) = response {
        assert!(!data.active);
        assert_eq!(data.power, 0);
    } else {
        panic!("Expected Ok response");
    }
}

#[test]
fn handled_payload_answers_in_one_frame() {
    let mut state = SocketState::new().with_device_id("kitchen".to_string());
    let rating = Watts::new(150000);

    let request = smart_home::protocol::socket_protocol::encode_command(&SocketCommand::TurnOn);
    let reply_frame = SocketEmulator::handle_payload(&mut state, rating, &request);
    let (payload, _) = decode_frame(&reply_frame).unwrap();
    match parse_response(&payload).unwrap() {
        SocketResponse::Okay(data) => {
            assert!(data.active);
            assert_eq!(data.power, 150000);
            assert_eq!(data.device_id, Some("kitchen".to_string()));
        }
        SocketResponse::Error { message } => panic!("unexpected failure: {}", message),
    }

    let reply_frame = SocketEmulator::handle_payload(&mut state, rating, b"garbage");
    let (payload, _) = decode_frame(&reply_frame).unwrap();
    match parse_response(&payload).unwrap() {
        SocketResponse::Okay(_) => panic!("garbage must not be accepted"),
        SocketResponse::Error { message } => {
            assert!(message.starts_with("Invalid command: "));
            assert_eq!(message, "Invalid command: not one of turn_on, turn_off or power");
        }
    }
    assert!(state.is_active(), "a malformed payload must not touch the outlet");
}

#[test]
fn drop_behavior() {
    let config = EmulatorConfig::new(Watts::new(100000));
    let emulator = SocketEmulator::new(config);

    assert!(!emulator.is_running());

    drop(emulator);
}

#[test]
fn emulator_lifecycle_bookkeeping() {
    let config = EmulatorConfig::new(Watts::new(100000)).with_address("127.0.0.1:0");
    let mut emulator = SocketEmulator::new(config);

    emulator.mark_started("127.0.0.1:40001").expect("First start failed");
    assert!(emulator.is_running());
    assert_eq!(emulator.local_addr(), Some("127.0.0.1:40001".to_string()));

    let result = emulator.mark_started("127.0.0.1:40002");
    assert!(result.is_err());

    emulator.mark_stopped();
    assert!(!emulator.is_running());
    assert!(emulator.local_addr().is_none());
}

#[test]
fn therm_emulator_emulator_creation() {
    let emulator = ThermEmulator::new(Celsius::new(2250));
    assert_eq!(emulator.initial_temp(), Celsius::new(2250));
    assert_eq!(emulator.device_id(), None);
    assert!(matches!(emulator.scenario(), EmulationScenario::Normal));
    assert_eq!(emulator.interval_ms(), 1000);
    assert_eq!(emulator.target_addr(), None);
    assert!(!emulator.is_running());
}

#[test]
fn builder_pattern_device_id() {
    let emulator = ThermEmulator::new(Celsius::new(2000)).with_device_id("kitchen_001");
    assert_eq!(emulator.device_id(), Some("kitchen_001".to_string()));
    assert_eq!(emulator.initial_temp(), Celsius::new(2000));
}

#[test]
fn builder_pattern_scenario() {
    let emulator = ThermEmulator::new(Celsius::new(1800)).with_scenario(EmulationScenario::Fire);
    assert!(matches!(emulator.scenario(), EmulationScenario::Fire));
}

#[test]
fn builder_pattern_interval() {
    let emulator = ThermEmulator::new(Celsius::new(2500)).with_update_interval(500);
    assert_eq!(emulator.interval_ms(), 500);
}

#[test]
fn builder_pattern_chaining() {
    let emulator = ThermEmulator::new(Celsius::new(1950))
        .with_device_id("living_room_002")
        .with_scenario(EmulationScenario::Freeze)
        .with_update_interval(200);

    assert_eq!(emulator.initial_temp(), Celsius::new(1950));
    assert_eq!(emulator.device_id(), Some("living_room_002".to_string()));
    assert!(matches!(emulator.scenario(), EmulationScenario::Freeze));
    assert_eq!(emulator.interval_ms(), 200);
}

#[test]
fn connect_to_sets_target_address() {
    let mut emulator = ThermEmulator::new(Celsius::new(2200));
    let result = emulator.connect_to("127.0.0.1:8080");
    assert!(result.is_ok());
    assert_eq!(emulator.target_addr(), Some("127.0.0.1:8080".to_string()));
}

#[test]
fn update_temperature_normal_scenario() {
    let initial_temp = 2000i64;
    for _ in 0..10 {
        let new_temp =
            ThermEmulator::update_temperature(initial_temp, EmulationScenario::Normal);
        assert!(new_temp >= initial_temp - 50);
        assert!(new_temp <= initial_temp + 50);
    }
}

#[test]
fn update_temperature_fire_scenario() {
    let initial_temp = 2000i64;
    for _ in 0..10 {
        let new_temp = ThermEmulator::update_temperature(initial_temp, EmulationScenario::Fire);
        assert!(new_temp >= initial_temp + 100);
        assert!(new_temp <= initial_temp + 300);
    }
}

#[test]
fn update_temperature_freeze_scenario() {
    let initial_temp = 2000i64;
    for _ in 0..10 {
        let new_temp =
            ThermEmulator::update_temperature(initial_temp, EmulationScenario::Freeze);
        assert!(new_temp >= initial_temp - 300);
        assert!(new_temp <= initial_temp - 100);
    }
}

#[test]
fn update_temperature_fluctuate_scenario() {
    let initial_temp = 2000i64;
    for _ in 0..10 {
        let new_temp =
            ThermEmulator::update_temperature(initial_temp, EmulationScenario::Fluctuate);
        assert!(new_temp >= initial_temp - 200);
        assert!(new_temp <= initial_temp + 200);
    }
}

#[test]
fn json_serialization() {
    let emulator = ThermEmulator::new(Celsius::new(2000)).with_device_id("test_device");

    let json_data = emulator.sample_payload(2350).expect("Failed to serialize");
    let json = String::from_utf8(json_data.clone()).unwrap();
    assert!(json.contains("23.5"));
    assert!(json.contains("test_device"));

    let parsed = parse_therm_data(&json_data).expect("Failed to deserialize");
    assert_eq!(parsed.temperature, 2350);
    assert_eq!(parsed.device_id, Some("test_device".to_string()));
}

#[test]
fn json_serialization_no_device_id() {
    let emulator = ThermEmulator::new(Celsius::new(2000));

    let json_data = emulator.sample_payload(-550).expect("Failed to serialize");
    let parsed = parse_therm_data(&json_data).expect("Failed to deserialize");

    assert_eq!(parsed.temperature, -550);
    assert_eq!(parsed.device_id, None);
}

#[test]
fn emulator_state_management() {
    let mut emulator = ThermEmulator::new(Celsius::new(2000));

    assert!(!emulator.is_running());

    emulator
        .connect_to("127.0.0.1:65432")
        .expect("Failed to set target");
    assert_eq!(emulator.target_addr(), Some("127.0.0.1:65432".to_string()));

    emulator.mark_running();
    assert!(emulator.is_running());

    emulator.mark_stopped();
    assert!(!emulator.is_running());
}

#[test]
fn escaped_labels_survive_the_reply_path() {
    let mut state = SocketState::new().with_device_id("outlet \"A\\1\"\n".to_string());
    let rating = Watts::new(150000);

    let request = smart_home::protocol::socket_protocol::encode_command(&SocketCommand::TurnOn);
    let reply_frame = SocketEmulator::handle_payload(&mut state, rating, &request);
    let (payload, _) = decode_frame(&reply_frame).unwrap();
    match parse_response(&payload).unwrap() {
        SocketResponse::Okay(data) => {
            assert!(data.active);
            assert_eq!(data.device_id, Some("outlet \"A\\1\"\n".to_string()));
        }
        SocketResponse::Error { message } => panic!("unexpected failure: {}", message),
    }
}
