use rustsheng::protocol::frame::{deframe, frame, FrameScanner, ProtocolError};
use rustsheng::protocol::{crc16_xmodem, xor_firmware, xor_payload, PAYLOAD_XOR};

#[test]
fn frame_layout_is_clear_header_obfuscated_body() {
    let payload = [0x01u8, 0x02, 0x03];
    let dg = frame(&payload);
    assert_eq!(dg.len(), payload.len() + 8);
    assert_eq!(&dg[0..4], &[0xAB, 0xCD, 0x03, 0x00]);
    let crc = crc16_xmodem(&payload);
    let mut clear = payload.to_vec();
    clear.push((crc & 0xff) as u8);
    clear.push((crc >> 8) as u8);
    for (i, b) in clear.iter().enumerate() {
        assert_eq!(dg[4 + i], b ^ PAYLOAD_XOR[i % 16]);
    }
    assert_eq!(&dg[dg.len() - 2..], &[0xDC, 0xBA]);
}

#[test]
fn empty_payload_round_trips() {
    let dg = frame(&[]);
    assert_eq!(dg.len(), 8);
    assert_eq!(deframe(&dg).unwrap(), Vec::<u8>::new());
}

#[test]
fn long_payload_round_trips() {
    let payload: Vec<u8> = (0..600u32).map(|i| (i * 7 % 256) as u8).collect();
    let dg = frame(&payload);
    assert_eq!(&dg[2..4], &[0x58, 0x02]);
    assert_eq!(deframe(&dg).unwrap(), payload);
}

#[test]
fn deframe_too_short() {
    assert_eq!(deframe(&[0xAB, 0xCD, 0, 0, 0, 0, 0xDC]), Err(ProtocolError::TooShort));
}

#[test]
fn deframe_length_mismatch() {
    let mut dg = frame(&[1, 2, 3]);
    dg.push(0);
    assert_eq!(
        deframe(&dg),
        Err(ProtocolError::LengthMismatch { declared: 3, actual: 4 })
    );
}

#[test]
fn deframe_bad_footer() {
    let mut dg = frame(&[1, 2, 3]);
    let n = dg.len();
    dg[n - 1] = 0x00;
    assert_eq!(deframe(&dg), Err(ProtocolError::BadFooter));
}

#[test]
fn deframe_reports_crc_values() {
    let payload = [1u8, 2, 3];
    let mut dg = frame(&payload);
    // Flip the low CRC byte: the de-obfuscated CRC changes by 0x0001.
    dg[7] ^= 0x01;
    let want = crc16_xmodem(&payload);
    assert_eq!(
        deframe(&dg),
        Err(ProtocolError::BadCrc { got: want ^ 0x0001, want })
    );
}

#[test]
fn deframe_accepts_clear_ffff_crc() {
    // The flash-mode beacon carries 0xFFFF in the clear on the wire.
    let payload = [0x18u8, 0x05, 0x00, 0x00];
    let mut body = payload.to_vec();
    xor_payload(&mut body);
    let mut dg = vec![0xAB, 0xCD, 0x04, 0x00];
    dg.extend_from_slice(&body);
    dg.extend_from_slice(&[0xFF, 0xFF, 0xDC, 0xBA]);
    assert_eq!(deframe(&dg).unwrap(), payload.to_vec());
}

#[test]
fn xor_twice_is_identity() {
    let original: Vec<u8> = (0..300u32).map(|i| (i % 251) as u8).collect();
    let mut v = original.clone();
    xor_payload(&mut v);
    assert_ne!(v, original);
    xor_payload(&mut v);
    assert_eq!(v, original);
    xor_firmware(&mut v);
    assert_ne!(v, original);
    xor_firmware(&mut v);
    assert_eq!(v, original);
}

#[test]
fn scanner_drops_garbage_without_marker() {
    let mut s = FrameScanner::new();
    s.push(&[0x01, 0x02, 0x03, 0x04, 0x05, 0x06, 0x07, 0x08, 0x09]);
    assert!(s.next_frame().is_none());
    // The buffer was cleared: a frame pushed now comes out whole.
    let dg = frame(&[0x27, 0x05]);
    s.push(&dg);
    assert_eq!(s.next_frame().unwrap(), dg);
}

#[test]
fn scanner_skips_implausible_length() {
    let mut s = FrameScanner::new();
    // AB CD with a declared length of 0x0300 (> 512): not a frame start.
    s.push(&[0xAB, 0xCD, 0x00, 0x03, 0x00, 0x00, 0x00, 0x00]);
    let dg = frame(&[0x14, 0x05]);
    s.push(&dg);
    assert_eq!(s.next_frame().unwrap(), dg);
    assert!(s.next_frame().is_none());
}

#[test]
fn scanner_skips_bad_footer_candidate() {
    let mut s = FrameScanner::new();
    let mut bad = frame(&[0x01]);
    let n = bad.len();
    bad[n - 1] = 0x00;
    s.push(&bad);
    let good = frame(&[0x02, 0x03]);
    s.push(&good);
    assert_eq!(s.next_frame().unwrap(), good);
}

#[test]
fn scanner_waits_on_every_prefix() {
    let dg = frame(&[0x1b, 0x05, 0x08, 0x00]);
    for k in 0..dg.len() {
        let mut s = FrameScanner::new();
        s.push(&dg[..k]);
        assert!(s.next_frame().is_none());
        s.push(&dg[k..]);
        assert_eq!(s.next_frame().unwrap(), dg);
    }
}

#[test]
fn scanned_frames_fail_only_on_crc() {
    let mut stream = vec![0x00, 0xAB, 0x13, 0xAB, 0xCD, 0x01];
    stream.extend_from_slice(&frame(&[0x14, 0x05, 0x04, 0x00]));
    let mut corrupt = frame(&[0x29, 0x05]);
    corrupt[4] ^= 0x55;
    stream.extend_from_slice(&corrupt);
    stream.extend_from_slice(&[0xAB, 0xCD, 0xff, 0xff, 0, 0, 0, 0, 0, 0]);
    stream.extend_from_slice(&frame(&[0x1b, 0x05, 0x08, 0x00]));
    let mut s = FrameScanner::new();
    s.push(&stream);
    let mut ok = 0;
    let mut bad_crc = 0;
    while let Some(f) = s.next_frame() {
        match deframe(&f) {
            Ok(_) => ok += 1,
            Err(ProtocolError::BadCrc { .. }) => bad_crc += 1,
            Err(e) => panic!("unexpected {e:?}"),
        }
    }
    assert_eq!((ok, bad_crc), (2, 1));
}
