use clever_house::client::{framed_request, power_outcome, read_reply, switch_outcome};
use clever_house::codec::{body_length, decode_frame, encode_frame, encode_u32_be, decode_u32_be};
use clever_house::dispatch::{decimal_digits, Response};
use clever_house::errors::HouseErrorKind;
use clever_house::protocol::parse_command;
use clever_house::Command;

fn same(a: &Command, b: &Command) -> bool {
    match (a, b) {
        (Command::SwitchSocketCommand(r1, d1, o1), Command::SwitchSocketCommand(r2, d2, o2)) => {
            r1 == r2 && d1 == d2 && o1 == o2
        }
        (Command::GetSocketConsumedPower(r1, d1), Command::GetSocketConsumedPower(r2, d2)) => {
            r1 == r2 && d1 == d2
        }
        _ => false,
    }
}

#[test]
fn encode_switch_text() {
    let c = Command::SwitchSocketCommand("room1".to_string(), "Smart_Socket_1".to_string(), true);
    assert_eq!(c.encode(), "S_M_C\nS_S_C\nARGS\nroom1 Smart_Socket_1 true\nE_M_C");
    let c = Command::GetSocketConsumedPower("room1".to_string(), "S".to_string());
    assert_eq!(c.encode(), "S_M_C\nG_S_C_P\nARGS\nroom1 S\nE_M_C");
}

#[test]
fn round_trip_of_commands() {
    let cases = vec![
        Command::SwitchSocketCommand("r".to_string(), "d".to_string(), true),
        Command::SwitchSocketCommand("room1".to_string(), "Smart_Socket_1".to_string(), false),
        Command::GetSocketConsumedPower("кухня".to_string(), "Socket".to_string()),
    ];
    for c in &cases {
        let parsed = parse_command(&c.encode()).unwrap();
        assert!(same(c, &parsed));
        let framed = framed_request(c).unwrap();
        let body = decode_frame(&framed).unwrap();
        let parsed = parse_command(std::str::from_utf8(&body).unwrap()).unwrap();
        assert!(same(c, &parsed));
    }
}

#[test]
fn lenient_flag_and_extra_blanks() {
    let text = "S_M_C\nS_S_C\nARGS\n  room1\t dev   t \nE_M_C";
    let c = parse_command(text).unwrap();
    assert!(same(&c, &Command::SwitchSocketCommand("room1".into(), "dev".into(), true)));
    let text = "S_M_C\nS_S_C\nARGS\nroom1 dev yes\nE_M_C";
    let c = parse_command(text).unwrap();
    assert!(same(&c, &Command::SwitchSocketCommand("room1".into(), "dev".into(), false)));
    let text = "S_M_C\nS_S_C\nARGS\nroom1\ndev\nfalse\nE_M_C\nignored words";
    let c = parse_command(text).unwrap();
    assert!(same(&c, &Command::SwitchSocketCommand("room1".into(), "dev".into(), false)));
}

#[test]
fn malformed_requests() {
    let bad = [
        "",
        "S_M_C",
        "X_M_C\nS_S_C\nARGS\nr d true\nE_M_C",
        "S_M_C\nS_S_C\nARGS\nr d\nE_M_C",
        "S_M_C\nS_S_C\nARGS\nr d true extra\nE_M_C",
        "S_M_C\nG_S_C_P\nARGS\nr\nE_M_C",
        "S_M_C\nNOPE\nARGS\nr d\nE_M_C",
        "S_M_C\nS_S_C\nARGS\nE_M_C\nr d true",
    ];
    for text in bad.iter() {
        let e = parse_command(text).unwrap_err();
        assert_eq!(e.kind, HouseErrorKind::MalformedRequest);
    }
}

#[test]
fn framing() {
    assert_eq!(encode_u32_be(0x0102_0304), vec![1, 2, 3, 4]);
    assert_eq!(decode_u32_be(&[0, 0, 1, 0]), 256);
    assert_eq!(encode_frame(b"OK"), vec![0, 0, 0, 2, b'O', b'K']);
    assert_eq!(body_length(&[0, 0, 0, 5]), Some(5));
    assert_eq!(body_length(&[0, 0, 5]), None);
    assert_eq!(decode_frame(&[0, 0, 0, 2, b'O', b'K']), Some(b"OK".to_vec()));
    assert_eq!(decode_frame(&[0, 0, 0, 3, b'O', b'K']), None);
    assert_eq!(decode_frame(&[0, 0]), None);
}

#[test]
fn response_bytes() {
    assert_eq!(Response::Switched.to_bytes(), b"OK".to_vec());
    assert_eq!(Response::Failure.to_bytes(), b"ERR".to_vec());
    assert_eq!(Response::Power(7345).to_bytes(), b"7.345".to_vec());
    assert_eq!(Response::Power(5).to_bytes(), b"0.005".to_vec());
    assert_eq!(Response::Power(12050).to_bytes(), b"12.050".to_vec());
    assert_eq!(decimal_digits(0), b"0".to_vec());
    assert_eq!(decimal_digits(4294967295), b"4294967295".to_vec());
}

#[test]
fn replies() {
    for r in [Response::Switched, Response::Failure, Response::Power(9999), Response::Power(4294967295)] {
        assert_eq!(read_reply(&r.to_bytes()), Some(r));
    }
    assert_eq!(read_reply(b"7.3"), Some(Response::Power(7300)));
    assert_eq!(read_reply(b"7"), Some(Response::Power(7000)));
    assert_eq!(read_reply(b"7.34567"), Some(Response::Power(7345)));
    assert_eq!(read_reply(b"4294967.295"), Some(Response::Power(4294967295)));
    assert_eq!(read_reply(b"4294967.296"), None);
    assert_eq!(read_reply(b"4294968"), None);
    assert_eq!(read_reply(b"x.345"), None);
    assert_eq!(read_reply(b"7."), None);
    assert_eq!(read_reply(b".5"), None);
    assert_eq!(read_reply(b"7.5x"), None);
    assert_eq!(read_reply(b""), None);
    assert_eq!(switch_outcome(b"OK").unwrap(), true);
    assert_eq!(switch_outcome(b"ERR").unwrap_err().kind, HouseErrorKind::RequestFailed);
    assert_eq!(switch_outcome(b"??").unwrap_err().kind, HouseErrorKind::ServerError);
    assert_eq!(power_outcome(b"6.500").unwrap(), 6500);
    assert_eq!(power_outcome(b"7.5").unwrap(), 7500);
    assert_eq!(power_outcome(b"8.123456").unwrap(), 8123);
    assert_eq!(power_outcome(b"ERR").unwrap_err().kind, HouseErrorKind::ServerError);
    assert_eq!(power_outcome(b"OK").unwrap_err().kind, HouseErrorKind::ServerError);
}
