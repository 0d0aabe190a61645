use clever_house::codec::{decode_sample, encode_u32_be};
use clever_house::dispatch::{execute_command, handle_request, Response};
use clever_house::errors::IoFailure;
use clever_house::smart_house::SmartHouse;
use clever_house::telemetry::{
    fuse_sample, BridgeAction, BridgeEvent, BridgeState, RemoteServer, TelemetryBridge,
    BIND_RETRY_SECS, POLL_SECS,
};
use clever_house::transfer::{IoOutcome, TransferProgress, TransferStep, READ_BUFFER_SIZE};
use clever_house::Command;

fn house() -> SmartHouse {
    let mut h = SmartHouse::new("smart_house", vec!["room1", "room2"]);
    h.add_device("room1", "Smart_Socket_1").unwrap();
    h.add_device("room1", "Smart_Socket_2").unwrap();
    h.add_device("room2", "Thermo_1").unwrap();
    h
}

fn switch(room: &str, device: &str, on: bool) -> Command {
    Command::SwitchSocketCommand(room.to_string(), device.to_string(), on)
}

fn power(room: &str, device: &str) -> Command {
    Command::GetSocketConsumedPower(room.to_string(), device.to_string())
}

#[test]
fn scenario_switch_then_power() {
    let mut h = house();
    let r = handle_request(&mut h, switch("room1", "Smart_Socket_1", true).encode().as_bytes());
    assert_eq!(r, Response::Switched);
    assert_eq!(r.to_bytes(), b"OK".to_vec());
    let r = handle_request(&mut h, power("room1", "Smart_Socket_1").encode().as_bytes());
    let text = String::from_utf8(r.to_bytes()).unwrap();
    let value: f32 = text.parse().unwrap();
    assert!(5.0 <= value && value < 10.0);
}

#[test]
fn scenario_missing_room() {
    let mut h = house();
    let before = h.get_rooms().len();
    let r = handle_request(&mut h, switch("room9", "X", true).encode().as_bytes());
    assert_eq!(r, Response::Failure);
    assert_eq!(r.to_bytes(), b"ERR".to_vec());
    assert_eq!(h.get_rooms().len(), before);
    assert!(h.get_devices("room9").is_none());
}

#[test]
fn missing_device_fails() {
    let mut h = house();
    assert_eq!(execute_command(&mut h, &switch("room1", "Smart_Socket_9", false)), Response::Failure);
    assert_eq!(execute_command(&mut h, &power("room1", "Smart_Socket_9")), Response::Failure);
    assert_eq!(execute_command(&mut h, &power("room2", "Thermo_1")), Response::Failure);
    assert_eq!(execute_command(&mut h, &power("nowhere", "Thermo_1")), Response::Failure);
}

#[test]
fn switching_twice_is_like_once() {
    let mut h = house();
    assert_eq!(execute_command(&mut h, &switch("room1", "Smart_Socket_1", true)), Response::Switched);
    assert_eq!(execute_command(&mut h, &switch("room1", "Smart_Socket_1", true)), Response::Switched);
    let mut devices = h.get_devices("room1").unwrap();
    devices.sort();
    assert_eq!(devices, vec!["Smart_Socket_1", "Smart_Socket_2"]);
}

#[test]
fn disjoint_requests_in_either_order() {
    let mut a = house();
    let mut b = house();
    let c1 = switch("room1", "Smart_Socket_1", true);
    let c2 = switch("room1", "Smart_Socket_2", false);
    let a1 = execute_command(&mut a, &c1);
    let a2 = execute_command(&mut a, &c2);
    let b2 = execute_command(&mut b, &c2);
    let b1 = execute_command(&mut b, &c1);
    assert_eq!((a1, a2), (b1, b2));
    assert_eq!(execute_command(&mut a, &power("room1", "Smart_Socket_2")) != Response::Failure, true);
}

#[test]
fn garbled_payloads_fail() {
    let mut h = house();
    assert_eq!(handle_request(&mut h, &[0xff, 0xfe, 0x00]), Response::Failure);
    assert_eq!(handle_request(&mut h, b"hello"), Response::Failure);
    assert_eq!(handle_request(&mut h, b""), Response::Failure);
}

#[test]
fn telemetry_fusion() {
    let mut h = house();
    let sample = 25.5f32.to_be_bytes();
    assert!(fuse_sample(&mut h, &sample));
    assert_eq!(f32::from_bits(h.get_thermo_data()), 25.5);
    assert!(!fuse_sample(&mut h, &sample[..3]));
    assert!(!fuse_sample(&mut h, &[0x41, 0xcc, 0x00, 0x00, 0x00]));
    assert_eq!(f32::from_bits(h.get_thermo_data()), 25.5);
    assert!(!fuse_sample(&mut h, &f32::NAN.to_be_bytes()));
    assert!(!fuse_sample(&mut h, &f32::INFINITY.to_be_bytes()));
    assert_eq!(f32::from_bits(h.get_thermo_data()), 25.5);
    assert_eq!(decode_sample(&encode_u32_be((-3.25f32).to_bits())), Some((-3.25f32).to_bits()));
}

#[test]
fn telemetry_bridge_decisions() {
    let mut h = house();
    let (mut bridge, first) = TelemetryBridge::new();
    assert_eq!(first, BridgeAction::BindAfter(0));
    assert_eq!(bridge.on_event(&mut h, &BridgeEvent::BindFailed), BridgeAction::BindAfter(BIND_RETRY_SECS));
    assert_eq!(bridge.on_event(&mut h, &BridgeEvent::BindSucceeded), BridgeAction::ReceiveAfter(0));
    assert_eq!(bridge.state, BridgeState::Bound);
    let sample = 24.0f32.to_be_bytes().to_vec();
    assert_eq!(bridge.on_event(&mut h, &BridgeEvent::Received(sample)), BridgeAction::ReceiveAfter(POLL_SECS));
    assert_eq!(f32::from_bits(h.get_thermo_data()), 24.0);
    assert_eq!(bridge.on_event(&mut h, &BridgeEvent::ReceiveFailed(IoFailure::TimedOut)), BridgeAction::BindAfter(0));
    assert_eq!(bridge.state, BridgeState::Unbound);
    let t = RemoteServer::generate_temperature_data();
    assert!((2300..2800).contains(&t));
}

#[test]
fn transfer_progress() {
    let mut p = TransferProgress::new(READ_BUFFER_SIZE);
    assert_eq!(p.step(IoOutcome::WouldBlock), TransferStep::Continue);
    assert_eq!(p.step(IoOutcome::Transferred(100)), TransferStep::Continue);
    assert_eq!(p.step(IoOutcome::Transferred(28)), TransferStep::Done);
    assert!(p.is_complete());
    let mut q = TransferProgress::new(10);
    assert_eq!(q.step(IoOutcome::Transferred(0)), TransferStep::Done);
    assert!(!q.is_complete());
    assert_eq!(q.step(IoOutcome::Failed), TransferStep::Abort);
}
