use std::time::Duration;

use rustsheng::transport::mock::MockTransport;
use rustsheng::transport::{Transport, TransportError};

#[test]
fn serves_scripted_response_after_write() {
    let mut t = MockTransport::new(vec![vec![1, 2, 3, 4]]);
    t.write_all(&[0xAA]).unwrap();
    let mut buf = [0u8; 4];
    assert_eq!(t.read_exact_timeout(&mut buf, Duration::ZERO).unwrap(), 4);
    assert_eq!(buf, [1, 2, 3, 4]);
    assert_eq!(t.written(), &[vec![0xAA]]);
}

#[test]
fn times_out_without_data() {
    let mut t = MockTransport::new(vec![]);
    let mut buf = [0u8; 2];
    assert!(matches!(
        t.read_exact_timeout(&mut buf, Duration::ZERO),
        Err(TransportError::Timeout)
    ));
}

#[test]
fn written_log_keeps_every_write_in_order() {
    let mut t = MockTransport::new_preloaded(vec![9, 9]);
    assert!(t.written().is_empty());
    t.write_all(&[1, 2]).unwrap();
    let mut buf = [0u8; 2];
    t.read_exact_timeout(&mut buf, Duration::ZERO).unwrap();
    t.flush_input().unwrap();
    t.write_all(&[]).unwrap();
    let mut big = [0u8; 8];
    assert!(t.read_exact_timeout(&mut big, Duration::ZERO).is_err());
    t.write_all(&[3]).unwrap();
    assert_eq!(t.written(), &[vec![1, 2], vec![], vec![3]]);
}
