use local_ipc::fabric::{Fabric, IpcError};
use local_ipc::listener::LocalListener;
use local_ipc::stream::LocalStream;

#[test]
fn it_works() {
}

#[test]
fn round_trip_scenario() {
    let mut f = Fabric::new();
    let path = b"/tmp/sock-p".to_vec();
    let l = LocalListener::bind(&mut f, &path).unwrap();
    let c1 = LocalStream::connect(&mut f, &path).unwrap();
    let s1 = l.accept(&mut f).unwrap();

    let n = c1.write(&mut f, &b"ping".to_vec()).unwrap();
    assert_eq!(n, 4);
    let mut buf = vec![0u8; 4];
    let r = s1.read(&mut f, &mut buf).unwrap();
    assert_eq!(r, 4);
    assert_eq!(buf, b"ping".to_vec());

    let n = s1.write(&mut f, &b"pong".to_vec()).unwrap();
    assert_eq!(n, 4);
    let mut buf = vec![0u8; 4];
    let r = c1.read(&mut f, &mut buf).unwrap();
    assert_eq!(r, 4);
    assert_eq!(buf, b"pong".to_vec());
}

#[test]
fn connect_without_listener_fails() {
    let mut f = Fabric::new();
    let e = LocalStream::connect(&mut f, &b"/nowhere".to_vec()).unwrap_err();
    assert_eq!(e, IpcError::NotFound);
}

#[test]
fn connect_other_path_fails() {
    let mut f = Fabric::new();
    let _l = LocalListener::bind(&mut f, &b"/a".to_vec()).unwrap();
    let e = LocalStream::connect(&mut f, &b"/b".to_vec()).unwrap_err();
    assert_eq!(e, IpcError::NotFound);
}

#[test]
fn bind_path_collision_fails() {
    let mut f = Fabric::new();
    let path = b"/busy".to_vec();
    let _l = LocalListener::bind(&mut f, &path).unwrap();
    let e = LocalListener::bind(&mut f, &path).unwrap_err();
    assert_eq!(e, IpcError::AddrInUse);
}

#[test]
fn rebind_after_close_succeeds() {
    let mut f = Fabric::new();
    let path = b"/reuse".to_vec();
    let l = LocalListener::bind(&mut f, &path).unwrap();
    l.close(&mut f);
    let l2 = LocalListener::bind(&mut f, &path);
    assert!(l2.is_ok());
}

#[test]
fn accepted_streams_are_independent() {
    let mut f = Fabric::new();
    let path = b"/multi".to_vec();
    let l = LocalListener::bind(&mut f, &path).unwrap();
    let c1 = LocalStream::connect(&mut f, &path).unwrap();
    let c2 = LocalStream::connect(&mut f, &path).unwrap();
    let s1 = l.accept(&mut f).unwrap();
    let s2 = l.accept(&mut f).unwrap();

    c1.write(&mut f, &b"first".to_vec()).unwrap();
    c2.write(&mut f, &b"second".to_vec()).unwrap();

    let mut buf = vec![0u8; 6];
    let r = s2.read(&mut f, &mut buf).unwrap();
    assert_eq!(r, 6);
    assert_eq!(buf, b"second".to_vec());

    let mut buf = vec![0u8; 5];
    let r = s1.read(&mut f, &mut buf).unwrap();
    assert_eq!(r, 5);
    assert_eq!(buf, b"first".to_vec());

    // nothing of one conversation leaks into the other
    let e = s1.read(&mut f, &mut vec![0u8; 1]).unwrap_err();
    assert_eq!(e, IpcError::WouldBlock);
    let e = s2.read(&mut f, &mut vec![0u8; 1]).unwrap_err();
    assert_eq!(e, IpcError::WouldBlock);
}

#[test]
fn accept_pairs_in_arrival_order() {
    let mut f = Fabric::new();
    let path = b"/fifo".to_vec();
    let l = LocalListener::bind(&mut f, &path).unwrap();
    let c1 = LocalStream::connect(&mut f, &path).unwrap();
    let c2 = LocalStream::connect(&mut f, &path).unwrap();
    c1.write(&mut f, &vec![1u8]).unwrap();
    c2.write(&mut f, &vec![2u8]).unwrap();

    let s1 = l.accept(&mut f).unwrap();
    let s2 = l.accept(&mut f).unwrap();
    let mut buf = vec![0u8; 1];
    s1.read(&mut f, &mut buf).unwrap();
    assert_eq!(buf, vec![1u8]);
    s2.read(&mut f, &mut buf).unwrap();
    assert_eq!(buf, vec![2u8]);
}

#[test]
fn eof_on_peer_close() {
    let mut f = Fabric::new();
    let path = b"/eof".to_vec();
    let l = LocalListener::bind(&mut f, &path).unwrap();
    let c1 = LocalStream::connect(&mut f, &path).unwrap();
    let s1 = l.accept(&mut f).unwrap();
    c1.close(&mut f);
    let mut buf = vec![0u8; 8];
    assert_eq!(s1.read(&mut f, &mut buf).unwrap(), 0);
    // end of stream is stable: a further read still reports it
    assert_eq!(s1.read(&mut f, &mut buf).unwrap(), 0);
}

#[test]
fn eof_still_delivers_bytes_in_flight() {
    let mut f = Fabric::new();
    let path = b"/late".to_vec();
    let l = LocalListener::bind(&mut f, &path).unwrap();
    let c1 = LocalStream::connect(&mut f, &path).unwrap();
    let s1 = l.accept(&mut f).unwrap();
    c1.write(&mut f, &b"bye".to_vec()).unwrap();
    c1.close(&mut f);
    let mut buf = vec![0u8; 8];
    assert_eq!(s1.read(&mut f, &mut buf).unwrap(), 3);
    assert_eq!(&buf[..3], b"bye");
    assert_eq!(s1.read(&mut f, &mut buf).unwrap(), 0);
}

#[test]
fn incoming_yields_a_result_per_advance() {
    let mut f = Fabric::new();
    let path = b"/queue".to_vec();
    let l = LocalListener::bind(&mut f, &path).unwrap();
    let mut clients = Vec::new();
    for _ in 0..3 {
        clients.push(LocalStream::connect(&mut f, &path).unwrap());
    }
    let mut inc = l.incoming();
    let mut accepted = Vec::new();
    for _ in 0..3 {
        let r = inc.next(&mut f).expect("the sequence never ends");
        accepted.push(r.unwrap());
    }
    assert_eq!(accepted.len(), 3);

    // an error does not terminate the sequence
    let r = inc.next(&mut f).expect("the sequence never ends");
    assert_eq!(r.unwrap_err(), IpcError::WouldBlock);

    // it stays ready to produce further successes
    let _c4 = LocalStream::connect(&mut f, &path).unwrap();
    let r = inc.next(&mut f).expect("the sequence never ends");
    assert!(r.is_ok());

    // the lease can be ended and the listener used directly again
    let l = inc.into_listener();
    let e = l.accept(&mut f).unwrap_err();
    assert_eq!(e, IpcError::WouldBlock);
}

#[test]
fn accept_with_nothing_pending_reports_would_block() {
    let mut f = Fabric::new();
    let l = LocalListener::bind(&mut f, &b"/idle".to_vec()).unwrap();
    assert_eq!(l.accept(&mut f).unwrap_err(), IpcError::WouldBlock);
}

#[test]
fn write_after_peer_close_is_broken_pipe() {
    let mut f = Fabric::new();
    let path = b"/pipe".to_vec();
    let l = LocalListener::bind(&mut f, &path).unwrap();
    let c1 = LocalStream::connect(&mut f, &path).unwrap();
    let s1 = l.accept(&mut f).unwrap();
    s1.close(&mut f);
    let e = c1.write(&mut f, &b"x".to_vec()).unwrap_err();
    assert_eq!(e, IpcError::BrokenPipe);
}

#[test]
fn read_with_no_data_reports_would_block() {
    let mut f = Fabric::new();
    let path = b"/wait".to_vec();
    let l = LocalListener::bind(&mut f, &path).unwrap();
    let c1 = LocalStream::connect(&mut f, &path).unwrap();
    let _s1 = l.accept(&mut f).unwrap();
    let mut buf = vec![0u8; 4];
    assert_eq!(c1.read(&mut f, &mut buf).unwrap_err(), IpcError::WouldBlock);
}

#[test]
fn zero_capacity_read_returns_zero() {
    let mut f = Fabric::new();
    let path = b"/zero".to_vec();
    let l = LocalListener::bind(&mut f, &path).unwrap();
    let c1 = LocalStream::connect(&mut f, &path).unwrap();
    let s1 = l.accept(&mut f).unwrap();
    c1.write(&mut f, &b"kept".to_vec()).unwrap();
    let mut empty: Vec<u8> = Vec::new();
    assert_eq!(s1.read(&mut f, &mut empty).unwrap(), 0);
    // the bytes in flight were not consumed
    let mut buf = vec![0u8; 4];
    assert_eq!(s1.read(&mut f, &mut buf).unwrap(), 4);
    assert_eq!(buf, b"kept".to_vec());
}

#[test]
fn short_reads_deliver_bytes_in_order() {
    let mut f = Fabric::new();
    let path = b"/order".to_vec();
    let l = LocalListener::bind(&mut f, &path).unwrap();
    let c1 = LocalStream::connect(&mut f, &path).unwrap();
    let s1 = l.accept(&mut f).unwrap();
    c1.write(&mut f, &b"he".to_vec()).unwrap();
    c1.write(&mut f, &b"llo".to_vec()).unwrap();
    let mut buf = vec![0u8; 2];
    assert_eq!(s1.read(&mut f, &mut buf).unwrap(), 2);
    assert_eq!(buf, b"he".to_vec());
    let mut buf = vec![0u8; 3];
    assert_eq!(s1.read(&mut f, &mut buf).unwrap(), 3);
    assert_eq!(buf, b"llo".to_vec());
}

#[test]
fn flush_succeeds_and_changes_nothing() {
    let mut f = Fabric::new();
    let path = b"/flush".to_vec();
    let l = LocalListener::bind(&mut f, &path).unwrap();
    let c1 = LocalStream::connect(&mut f, &path).unwrap();
    let s1 = l.accept(&mut f).unwrap();
    c1.write(&mut f, &b"buffered".to_vec()).unwrap();
    c1.flush(&mut f).unwrap();
    let mut buf = vec![0u8; 8];
    assert_eq!(s1.read(&mut f, &mut buf).unwrap(), 8);
    assert_eq!(buf, b"buffered".to_vec());
}

#[test]
fn streams_work_both_ways_at_once() {
    let mut f = Fabric::new();
    let path = b"/duplex".to_vec();
    let l = LocalListener::bind(&mut f, &path).unwrap();
    let c1 = LocalStream::connect(&mut f, &path).unwrap();
    let s1 = l.accept(&mut f).unwrap();
    c1.write(&mut f, &b"up".to_vec()).unwrap();
    s1.write(&mut f, &b"down".to_vec()).unwrap();
    let mut buf = vec![0u8; 2];
    assert_eq!(s1.read(&mut f, &mut buf).unwrap(), 2);
    assert_eq!(buf, b"up".to_vec());
    let mut buf = vec![0u8; 4];
    assert_eq!(c1.read(&mut f, &mut buf).unwrap(), 4);
    assert_eq!(buf, b"down".to_vec());
}
