use std::time::Duration;

use rustsheng::client::{decode_response, Client, ClientError};
use rustsheng::protocol::{xor_payload, ProtocolError};
use rustsheng::transport::mock::MockTransport;
use rustsheng::transport::{Transport, TransportError};

fn radio_reply(payload: &[u8]) -> Vec<u8> {
    let mut out = vec![0xAB, 0xCD, payload.len() as u8, 0x00];
    let mut body = payload.to_vec();
    body.push(0xFF);
    body.push(0xFF);
    xor_payload(&mut body);
    out.extend_from_slice(&body);
    out.extend_from_slice(&[0xDC, 0xBA]);
    out
}

fn hello_ack(version: &[u8]) -> Vec<u8> {
    let mut payload = vec![0x15u8, 0x05, 0x24, 0x00];
    let mut ver = [0u8; 16];
    ver[..version.len()].copy_from_slice(version);
    payload.extend_from_slice(&ver);
    payload
}

#[test]
fn hello_reports_unexpected_reply() {
    let mut c = Client::new(MockTransport::new(vec![radio_reply(&[0x28, 0x05, 0x00, 0x00])]));
    match c.hello() {
        Err(ClientError::Unexpected(m)) => assert_eq!(m, "hello reply cmd=0x28"),
        other => panic!("unexpected {other:?}"),
    }
}

#[test]
fn hello_version_invalid_utf8_is_replaced() {
    let mut c = Client::new(MockTransport::new(vec![radio_reply(&hello_ack(&[0xff, b'k']))]));
    assert_eq!(c.hello().unwrap(), "\u{fffd}k");
}

#[test]
fn hello_timeout_is_transport_error() {
    let mut c = Client::new(MockTransport::new(vec![]));
    assert!(matches!(c.hello(), Err(ClientError::Transport(TransportError::Timeout))));
}

#[test]
fn hello_bad_magic() {
    let mut c = Client::new(MockTransport::new(vec![vec![0x00, 0x00, 0x00, 0x00]]));
    assert!(matches!(c.hello(), Err(ClientError::BadMagic)));
}

#[test]
fn hello_bad_magic_when_fourth_header_byte_is_set() {
    let mut reply = radio_reply(&hello_ack(b"v"));
    reply[3] = 0x01;
    let mut c = Client::new(MockTransport::new(vec![reply]));
    assert!(matches!(c.hello(), Err(ClientError::BadMagic)));
}

#[test]
fn decode_response_checks_header_then_datagram() {
    let reply = radio_reply(&[0x15, 0x05, 0x00, 0x00]);
    assert_eq!(decode_response(&reply[..4], &reply[4..]).unwrap(), vec![0x15, 0x05, 0x00, 0x00]);
    assert!(matches!(decode_response(&[0xAB, 0xCD, 0x04, 0x01], &reply[4..]), Err(ClientError::BadMagic)));
    assert!(matches!(decode_response(&[0xAB, 0xCE, 0x04, 0x00], &reply[4..]), Err(ClientError::BadMagic)));
    let mut bad = reply.clone();
    let n = bad.len();
    bad[n - 1] = 0;
    assert!(matches!(
        decode_response(&bad[..4], &bad[4..]),
        Err(ClientError::Protocol(ProtocolError::BadFooter))
    ));
}

#[test]
fn connect_to_silent_radio_times_out() {
    let mut c = Client::new(MockTransport::new(vec![]));
    assert!(matches!(c.connect(), Err(ClientError::Transport(TransportError::Timeout))));
}

#[test]
fn hello_bad_footer_is_protocol_error() {
    let mut reply = radio_reply(&hello_ack(b"v"));
    let n = reply.len();
    reply[n - 1] = 0;
    let mut c = Client::new(MockTransport::new(vec![reply]));
    assert!(matches!(c.hello(), Err(ClientError::Protocol(ProtocolError::BadFooter))));
}

#[test]
fn connect_retries_until_answer() {
    let mut script = vec![vec![]; 9];
    script.push(radio_reply(&hello_ack(b"k5_2.01.26")));
    let mut c = Client::new(MockTransport::new(script));
    assert_eq!(c.connect().unwrap(), "k5_2.01.26");
}

#[test]
fn connect_gives_up_after_ten_tries() {
    let mut script = vec![vec![]; 10];
    script.push(radio_reply(&hello_ack(b"late")));
    let mut c = Client::new(MockTransport::new(script));
    assert!(matches!(c.connect(), Err(ClientError::Transport(TransportError::Timeout))));
}

#[test]
fn connect_stops_on_flash_mode() {
    let script = vec![
        radio_reply(&[0x18, 0x05, 0x20, 0x00]),
        radio_reply(&hello_ack(b"never")),
    ];
    let mut c = Client::new(MockTransport::new(script));
    assert!(matches!(c.connect(), Err(ClientError::RadioInFlashMode)));
}

#[test]
fn preloaded_mock_and_flush() {
    let mut t = MockTransport::new_preloaded(vec![9, 8, 7]);
    let mut buf = [0u8; 2];
    assert_eq!(t.read_exact_timeout(&mut buf, Duration::ZERO).unwrap(), 2);
    assert_eq!(buf, [9, 8]);
    t.flush_input().unwrap();
    let mut one = [0u8; 1];
    assert!(matches!(
        t.read_exact_timeout(&mut one, Duration::ZERO),
        Err(TransportError::Timeout)
    ));
}
