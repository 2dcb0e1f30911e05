//! Device endpoints for exercising the controllers: a TCP outlet
//! server and a UDP thermometer sender, with the temperature scenarios
//! that drive the latter.

pub mod scenario;
pub mod socket_emulator;
pub mod therm_emulator;

pub use scenario::EmulationScenario;
pub use socket_emulator::EmulatorConfig;
pub use socket_emulator::SocketEmulator;
pub use socket_emulator::SocketState;
pub use therm_emulator::ThermEmulator;
