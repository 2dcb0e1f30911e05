//! End-to-end runs over in-memory transports: the library computes
//! every frame and every state change, the test moves the bytes
//! between the controller's side and the emulator's side.

use std::sync::{Arc, Mutex};

use tokio::io::{AsyncRead, AsyncReadExt, AsyncWrite, AsyncWriteExt, DuplexStream};

use smart_home::controllers::SocketController;
use smart_home::emulators::{SocketEmulator, SocketState};
use smart_home::protocol::socket_protocol::{
    header_payload_len, parse_response, SocketCommand, SocketData, SocketResponse,
};
use smart_home::units::Watts;

async fn read_frame_payload<R: AsyncRead + Unpin>(stream: &mut R) -> Option<Vec<u8>> {
    let mut header = [0u8; 4];
    if stream.read_exact(&mut header).await.is_err() {
        return None;
    }
    let len = match header_payload_len(&header) {
        Ok(n) => n as usize,
        Err(_) => return None,
    };
    let mut payload = vec![0u8; len];
    if stream.read_exact(&mut payload).await.is_err() {
        return None;
    }
    Some(payload)
}

/// One emulator-side connection handler: frames in, reply frames out,
/// against the shared outlet state, until the peer goes away.
fn spawn_connection(mut server_side: DuplexStream, state: Arc<Mutex<SocketState>>, rating: Watts) {
    tokio::spawn(async move {
        loop {
            let payload = match read_frame_payload(&mut server_side).await {
                Some(p) => p,
                None => break,
            };
            let reply = {
                let mut guard = state.lock().unwrap();
                SocketEmulator::handle_payload(&mut guard, rating, &payload)
            };
            if server_side.write_all(&reply).await.is_err() {
                break;
            }
        }
    });
}

/// Opens one client connection to the emulator behind `state`.
fn connect(state: &Arc<Mutex<SocketState>>, rating: Watts) -> DuplexStream {
    let (client_side, server_side) = tokio::io::duplex(4096);
    spawn_connection(server_side, Arc::clone(state), rating);
    client_side
}

fn shared_outlet(device_id: &str) -> Arc<Mutex<SocketState>> {
    Arc::new(Mutex::new(
        SocketState::new().with_device_id(device_id.to_string()),
    ))
}

async fn command_round_trip<S: AsyncRead + AsyncWrite + Unpin>(
    stream: &mut S,
    controller: &mut SocketController,
    command: SocketCommand,
) -> SocketData {
    let frame = controller.command_frame(&command);
    stream.write_all(&frame).await.expect("Failed to send command");
    let payload = read_frame_payload(stream).await.expect("No reply frame");
    let response = parse_response(&payload).expect("Malformed reply");
    controller.apply_response(response).expect("Device reported failure")
}

#[test]
fn client_server_communication() {
    let runtime = tokio::runtime::Runtime::new().unwrap();
    runtime.block_on(async {
        let rating = Watts::new(200000);
        let state = shared_outlet("test_socket");

        let mut controller = SocketController::new("emulator:0", rating, 2000);
        let mut client = connect(&state, rating);
        controller.mark_connected();

        let data = command_round_trip(&mut client, &mut controller, SocketCommand::TurnOn).await;
        assert!(data.active);
        assert_eq!(data.power, 200000);
        assert_eq!(data.device_id, Some("test_socket".to_string()));

        let data = command_round_trip(&mut client, &mut controller, SocketCommand::Power).await;
        assert!(data.active);
        assert_eq!(data.power, 200000);

        let data = command_round_trip(&mut client, &mut controller, SocketCommand::TurnOff).await;
        assert!(!data.active);
        assert_eq!(data.power, 0);
        assert!(!controller.device().unwrap().is_active());
    });
}

#[test]
fn multiple_clients() {
    let runtime = tokio::runtime::Runtime::new().unwrap();
    runtime.block_on(async {
        let rating = Watts::new(150000);
        let state = shared_outlet("test_socket");

        let mut controller1 = SocketController::new("emulator:0", rating, 2000);
        let mut controller2 = SocketController::new("emulator:0", rating, 2000);
        let mut client1 = connect(&state, rating);
        let mut client2 = connect(&state, rating);

        let data = command_round_trip(&mut client1, &mut controller1, SocketCommand::TurnOn).await;
        assert!(data.active);
        assert_eq!(data.power, 150000);

        let data = command_round_trip(&mut client2, &mut controller2, SocketCommand::Power).await;
        assert!(data.active, "one client's switch must be visible to the other");
        assert_eq!(data.power, 150000);
    });
}

#[test]
fn reconnect_after_transport_loss() {
    let runtime = tokio::runtime::Runtime::new().unwrap();
    runtime.block_on(async {
        let rating = Watts::new(200000);
        let state = shared_outlet("test_socket");

        let mut controller = SocketController::new("emulator:0", rating, 2000);
        let mut connection: Option<DuplexStream> = None;

        // First operation: no connection is held, so one is opened.
        assert!(controller.must_reconnect(connection.is_some()));
        connection = Some(connect(&state, rating));
        controller.mark_connected();
        let stream = connection.as_mut().unwrap();
        let data = command_round_trip(stream, &mut controller, SocketCommand::TurnOn).await;
        assert!(data.active);

        // The transport goes away under the controller.
        connection = None;

        // The next operation notices the dead transport and reconnects
        // by itself, then succeeds against the same outlet state.
        let probe_alive = connection.is_some();
        if controller.must_reconnect(probe_alive) {
            connection = Some(connect(&state, rating));
            controller.mark_connected();
        }
        let stream = connection.as_mut().unwrap();
        let data = command_round_trip(stream, &mut controller, SocketCommand::Power).await;
        assert!(data.active, "the outlet must still be on after the reconnect");
        assert_eq!(data.power, 200000);
    });
}

#[test]
fn malformed_payload_fails_only_that_exchange() {
    let runtime = tokio::runtime::Runtime::new().unwrap();
    runtime.block_on(async {
        let rating = Watts::new(150000);
        let state = shared_outlet("test_socket");

        let mut controller = SocketController::new("emulator:0", rating, 2000);
        let mut client = connect(&state, rating);
        controller.mark_connected();

        // A framed payload that is no command draws the failure reply.
        let garbage = smart_home::protocol::socket_protocol::encode_frame(b"not a command");
        client.write_all(&garbage).await.unwrap();
        let payload = read_frame_payload(&mut client).await.expect("No reply frame");
        match parse_response(&payload).expect("Malformed reply") {
            SocketResponse::Error { message } => {
                assert!(message.starts_with("Invalid command: "));
            }
            SocketResponse::Okay(_) => panic!("garbage must not be accepted"),
        }

        // The same connection still serves proper commands.
        let data = command_round_trip(&mut client, &mut controller, SocketCommand::TurnOn).await;
        assert!(data.active);
    });
}
