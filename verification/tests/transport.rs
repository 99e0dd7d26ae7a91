use firmata_board::transport::mock::read_exact_from_bytes;
use firmata_board::{FlushTransport, IoErrorKind, MockTransport, Transport};

#[test]
fn writes_and_reads() {
    let mut transport = MockTransport::new();
    transport.push_read(&[1, 2, 3]);
    transport.write_all(b"abc").unwrap();
    assert_eq!(transport.written(), b"abc");
    let mut buf = [0u8; 3];
    transport.read_exact(&mut buf).unwrap();
    assert_eq!(buf, [1, 2, 3]);
}

#[test]
fn mock_reads_in_order_and_times_out_when_empty() {
    let mut transport = MockTransport::new();
    transport.push_read(&[7]);
    transport.push_read(&[8, 9]);
    assert_eq!(transport.read_byte(), Ok(7));
    let mut buf = [0u8; 3];
    assert_eq!(transport.read_exact(&mut buf), Err(IoErrorKind::TimedOut));
    assert_eq!(transport.read_byte(), Err(IoErrorKind::TimedOut));
}

#[test]
fn mock_clear_written() {
    let mut transport = MockTransport::new();
    transport.write_all(&[1, 2]).unwrap();
    transport.write_all(&[3]).unwrap();
    assert_eq!(transport.written(), &[1, 2, 3]);
    transport.clear_written();
    assert!(transport.written().is_empty());
    assert_eq!(transport.flush(), Ok(()));
    assert_eq!(transport.flush_transport(), Ok(()));
}

#[test]
fn flush_transport_wraps_its_inner() {
    let mut inner = MockTransport::new();
    inner.push_read(&[5]);
    let mut wrapped = FlushTransport::new(inner);
    wrapped.write_all(&[4]).unwrap();
    assert_eq!(wrapped.read_byte(), Ok(5));
    assert_eq!(wrapped.flush_transport(), Ok(()));
    let inner = wrapped.into_inner();
    assert_eq!(inner.written(), &[4]);
}

#[test]
fn read_exact_from_bytes_fills_from_the_position() {
    let data = vec![1u8, 2, 3, 4, 5];
    let mut buf = [0u8; 2];
    let (r, pos) = read_exact_from_bytes(&data, 1, &mut buf);
    assert_eq!(r, Ok(()));
    assert_eq!(buf, [2, 3]);
    assert_eq!(pos, 3);
}

#[test]
fn read_exact_from_bytes_fails_at_the_end() {
    let data = vec![1u8, 2, 3];
    let mut buf = [9u8; 4];
    let (r, pos) = read_exact_from_bytes(&data, 1, &mut buf);
    assert_eq!(r, Err(IoErrorKind::UnexpectedEof));
    assert_eq!(buf, [2, 3, 9, 9]);
    assert_eq!(pos, 3);
}

#[test]
fn read_exact_from_bytes_past_the_end() {
    let data = vec![1u8, 2, 3];
    let mut empty: [u8; 0] = [];
    assert_eq!(read_exact_from_bytes(&data, 7, &mut empty), (Ok(()), 7));
    let mut buf = [9u8; 1];
    assert_eq!(
        read_exact_from_bytes(&data, 7, &mut buf),
        (Err(IoErrorKind::UnexpectedEof), 7)
    );
    assert_eq!(buf, [9]);
}

#[test]
fn mock_read_takes_what_fits() {
    let mut t = MockTransport::new();
    t.push_read(&[1, 2, 3]);
    let mut buf = [0u8; 2];
    assert_eq!(t.read(&mut buf), Ok(2));
    assert_eq!(buf, [1, 2]);
    let mut big = [9u8; 4];
    assert_eq!(t.read(&mut big), Ok(1));
    assert_eq!(big, [3, 9, 9, 9]);
    assert_eq!(t.read(&mut big), Err(IoErrorKind::TimedOut));
    assert_eq!(t.write(b"xy"), Ok(2));
    assert_eq!(t.written(), b"xy");
}
