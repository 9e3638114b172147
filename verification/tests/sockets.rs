use adb_daemon::backend::ConnectionBackend;
use adb_daemon::banner::Banner;
use adb_daemon::error::{Detail, Error, ErrorKind};
use adb_daemon::message::{AdbCommand, AdbMessage};
use adb_daemon::socket::{
    Flush, PollFlush, PollRead, PollShutdown, PollWrite, SocketBackend, MAX_PAYLOAD,
};
use adb_daemon::transport::{
    Inbound, PendingSocket, PendingWrite, Socket, Transport, TransportBackend, DELAYED_ACK_BYTES,
};
use std::sync::Arc;

fn transport() -> Transport {
    let banner = Banner::parse("device::features=delayed_ack").unwrap();
    Transport { inner: TransportBackend::new(banner), inbound: true }
}

fn okay(remote: u32, local: u32, avail: u32) -> AdbMessage {
    AdbMessage::new(AdbCommand::OKAY, remote, local, avail.to_le_bytes().to_vec())
}

fn wrte(remote: u32, local: u32, data: &[u8]) -> AdbMessage {
    AdbMessage::new(AdbCommand::WRTE, remote, local, data.to_vec())
}

fn clse(remote: u32, local: u32) -> AdbMessage {
    AdbMessage::new(AdbCommand::CLSE, remote, local, vec![])
}

fn deliver(t: &mut Transport, msg: AdbMessage) -> Inbound {
    assert!(t.inner.can_handle(&msg));
    t.inner.handle_message(msg).unwrap()
}

fn opened(t: &mut Transport, remote: u32, avail: u32) -> Socket {
    let (socket, _) = t.open_socket("shell:").unwrap();
    let local = socket.local_id;
    deliver(t, okay(remote, local, avail));
    assert_eq!(t.poll_opened(&socket), Ok(Some(remote)));
    socket
}

fn error(kind: ErrorKind) -> Error {
    Error { kind, detail: Detail::Nothing }
}

#[test]
fn sockets_are_opened_by_the_first_okay() {
    let mut t = transport();
    let (socket, msg) = t.open_socket("shell:ls").unwrap();
    assert_eq!(socket.local_id, 1);
    assert_eq!(msg.header.command, AdbCommand::OPEN);
    assert_eq!((msg.header.arg0, msg.header.arg1), (1, DELAYED_ACK_BYTES));
    assert_eq!(msg.payload, b"shell:ls\0");
    assert_eq!(t.poll_opened(&socket), Ok(None));

    match deliver(&mut t, okay(9, 1, 100)) {
        Inbound::Delivered(1, d) => assert!(d.wake_writer && !d.wake_reader && !d.closed),
        other => panic!("unexpected {other:?}"),
    }
    assert_eq!(t.poll_opened(&socket), Ok(Some(9)));

    let (refused, _) = t.open_socket("none:").unwrap();
    assert_eq!(refused.local_id, 2);
    deliver(&mut t, clse(0, 2));
    assert_eq!(t.poll_opened(&refused), Err(error(ErrorKind::Closed)));
}

#[test]
fn reads_follow_arrivals() {
    let mut t = transport();
    let socket = opened(&mut t, 9, 100);
    assert!(matches!(t.inner.poll_read(&socket, Flush::Ready, 10), PollRead::Pending));

    deliver(&mut t, wrte(9, 1, b"hello "));
    deliver(&mut t, wrte(9, 1, b""));
    deliver(&mut t, wrte(9, 1, b"world"));
    let mut all = vec![];
    for expected in [8, 3] {
        match t.inner.poll_read(&socket, Flush::Ready, 8) {
            PollRead::Ready { data, acknowledge: Some(msg) } => {
                assert_eq!(data.len(), expected);
                assert_eq!(msg.header.command, AdbCommand::OKAY);
                assert_eq!((msg.header.arg0, msg.header.arg1), (1, 9));
                assert_eq!(msg.payload, (expected as u32).to_le_bytes());
                all.extend(data);
            }
            other => panic!("unexpected {other:?}"),
        }
    }
    assert_eq!(all, b"hello world");
    assert!(matches!(t.inner.poll_read(&socket, Flush::Ready, 8), PollRead::Pending));
}

#[test]
fn what_arrived_can_be_read_after_the_end() {
    let mut t = transport();
    let socket = opened(&mut t, 9, 100);
    deliver(&mut t, wrte(9, 1, b"rest"));
    match deliver(&mut t, clse(9, 1)) {
        Inbound::Delivered(1, d) => assert!(d.closed && d.wake_reader && d.wake_writer),
        other => panic!("unexpected {other:?}"),
    }
    match t.inner.poll_read(&socket, Flush::Ready, 8) {
        PollRead::Ready { data, acknowledge: None } => assert_eq!(data, b"rest"),
        other => panic!("unexpected {other:?}"),
    }
    match t.inner.poll_read(&socket, Flush::Ready, 8) {
        PollRead::Ready { data, acknowledge: None } => assert!(data.is_empty()),
        other => panic!("unexpected {other:?}"),
    }
    assert!(matches!(
        t.inner.poll_write(&socket, Flush::Ready, true, b"x"),
        PollWrite::Failed(Error { kind: ErrorKind::Closed, .. })
    ));
    assert!(matches!(deliver(&mut t, wrte(9, 1, b"late")), Inbound::NotFound(1)));
}

fn written(t: &mut Transport, socket: &Socket, tick: bool, data: &[u8]) -> Option<usize> {
    match t.inner.poll_write(socket, Flush::Ready, tick, data) {
        PollWrite::Ready { len, write } => {
            assert_eq!(write.header.command, AdbCommand::WRTE);
            assert_eq!(write.payload, &data[..len]);
            Some(len)
        }
        PollWrite::Pending => None,
        PollWrite::Failed(err) => panic!("unexpected {err:?}"),
    }
}

#[test]
fn writes_stay_within_the_window() {
    let mut t = transport();
    let socket = opened(&mut t, 9, 4);
    // Twice the first window may be under way; the second half only as fast as the throttle.
    assert_eq!(written(&mut t, &socket, false, b"123"), Some(3));
    assert!(!t.inner.throttled(&socket));
    assert_eq!(written(&mut t, &socket, false, b"456"), Some(3));
    assert!(t.inner.throttled(&socket));
    assert_eq!(written(&mut t, &socket, false, b"789"), None);
    assert_eq!(written(&mut t, &socket, true, b"789"), Some(2));
    assert_eq!(written(&mut t, &socket, true, b"9"), None);
    assert!(!t.inner.throttled(&socket));
    assert_eq!(t.inner.poll_flush(&socket, Flush::Ready), PollFlush::Pending);

    deliver(&mut t, okay(9, 1, 8));
    assert_eq!(t.inner.poll_flush(&socket, Flush::Ready), PollFlush::Ready);
    assert_eq!(written(&mut t, &socket, false, b"9"), Some(1));
}

#[test]
fn one_message_carries_no_more_than_its_limit() {
    let mut t = transport();
    let socket = opened(&mut t, 9, 4 * MAX_PAYLOAD);
    let data = vec![7; MAX_PAYLOAD as usize + 1];
    assert_eq!(written(&mut t, &socket, false, &data), Some(MAX_PAYLOAD as usize));
}

#[test]
fn shutdown_waits_for_acknowledgments() {
    let mut t = transport();
    let socket = opened(&mut t, 9, 10);
    written(&mut t, &socket, false, b"abc");
    assert!(matches!(t.inner.poll_shutdown(&socket, Flush::Ready), PollShutdown::Pending));
    deliver(&mut t, okay(9, 1, 3));
    match t.inner.poll_shutdown(&socket, Flush::Ready) {
        PollShutdown::Send(msg) => assert_eq!(msg, clse(1, 9)),
        other => panic!("unexpected {other:?}"),
    }
    assert!(matches!(t.inner.poll_shutdown(&socket, Flush::Ready), PollShutdown::Done));
    assert_eq!(t.inner.drop_socket(socket), None);
}

#[test]
fn a_flush_fails_where_the_peer_closed_first() {
    let mut t = transport();
    let socket = opened(&mut t, 9, 10);
    written(&mut t, &socket, false, b"abc");
    deliver(&mut t, clse(9, 1));
    let failed = Error { kind: ErrorKind::Flush, detail: Detail::Closed };
    assert_eq!(
        t.inner.poll_flush(&socket, Flush::Ready),
        PollFlush::Failed(failed.clone())
    );
    match t.inner.poll_shutdown(&socket, Flush::Ready) {
        PollShutdown::Failed(err) => assert_eq!(err, failed),
        other => panic!("unexpected {other:?}"),
    }
}

#[test]
fn a_failing_connection_is_passed_on() {
    let mut t = transport();
    let socket = opened(&mut t, 9, 10);
    let flush = error(ErrorKind::WriteFlush);
    assert!(matches!(
        t.inner.poll_read(&socket, Flush::Failed(flush.clone()), 1),
        PollRead::Failed(err) if err == flush
    ));
    assert!(matches!(t.inner.poll_read(&socket, Flush::Pending, 1), PollRead::Pending));
    assert!(matches!(
        t.inner.poll_write(&socket, Flush::Failed(flush.clone()), true, b"x"),
        PollWrite::Failed(err) if err == flush
    ));
    assert!(matches!(t.inner.poll_write(&socket, Flush::Pending, true, b"x"), PollWrite::Pending));
}

#[test]
fn the_first_error_stays() {
    let mut t = transport();
    let socket = opened(&mut t, 9, 10);
    let failed = error(ErrorKind::TransportError(Arc::new(error(ErrorKind::Write))));
    let first = t.inner.on_error(error(ErrorKind::Write));
    assert!(first.first);
    assert_eq!(first.error, failed);
    assert!(t.is_closed());
    let second = t.close();
    assert!(!second.first);

    assert_eq!(t.inner.check_error(), Err(failed.clone()));
    assert_eq!(t.open_socket("x").err(), Some(failed.clone()));
    assert_eq!(t.poll_opened(&socket), Err(failed.clone()));
    assert!(matches!(deliver(&mut t, wrte(9, 1, b"x")), Inbound::NotFound(1)));
    assert!(matches!(
        t.inner.poll_read(&socket, Flush::Ready, 1),
        PollRead::Failed(err) if err == failed
    ));
    assert!(matches!(
        t.inner.poll_shutdown(&socket, Flush::Ready),
        PollShutdown::Failed(err) if err == failed
    ));
    assert_eq!(t.inner.drop_socket(socket), None);
}

#[test]
fn sockets_do_not_get_in_each_others_way() {
    let mut t = transport();
    let a = opened(&mut t, 7, 10);
    let b = opened(&mut t, 8, 20);
    assert_ne!(a.local_id, b.local_id);
    deliver(&mut t, wrte(7, a.local_id, b"a"));
    deliver(&mut t, clse(7, a.local_id));
    assert!(matches!(t.inner.poll_read(&b, Flush::Ready, 9), PollRead::Pending));
    assert_eq!(written(&mut t, &b, false, b"bb"), Some(2));
    assert!(t.inner.is_live(&a) && t.inner.is_live(&b));

    let msg = t.inner.drop_socket(b).unwrap();
    assert_eq!(msg, clse(2, 8));
    assert!(t.inner.is_live(&a));
    let c = opened(&mut t, 9, 5);
    assert_eq!(c.local_id, 3);
}

#[test]
fn devices_open_sockets_too() {
    let mut t = transport();
    let open = AdbMessage::new(AdbCommand::OPEN, 5, 1000, b"tcp:80\0".to_vec());
    let pending = match deliver(&mut t, open) {
        Inbound::Open(pending) => pending,
        other => panic!("unexpected {other:?}"),
    };
    assert_eq!(pending.service(), "tcp:80");
    let pending = t.accept_socket(Some(pending)).unwrap();
    let (socket, msg) = pending.accept(&mut t.inner);
    assert_eq!(msg, okay(socket.local_id, 5, DELAYED_ACK_BYTES));
    assert_eq!(t.poll_opened(&socket), Ok(Some(5)));
    assert_eq!(written(&mut t, &socket, false, &[1; 1001]), Some(1001));

    let refused = PendingSocket { remote_id: 6, acknowledged: 0, service: "x".into() };
    assert_eq!(refused.close(), clse(0, 6));
    assert_eq!(t.accept_socket(None).err(), Some(error(ErrorKind::Closed)));
    t.drop_inbound();
    assert_eq!(
        t.accept_socket(None).err(),
        Some(Error { kind: ErrorKind::Closed, detail: Detail::NoReceiver })
    );
}

#[test]
fn malformed_messages_are_errors() {
    let mut t = transport();
    opened(&mut t, 9, 10);
    let open = AdbMessage::new(AdbCommand::OPEN, 5, 0, b"\xff".to_vec());
    assert_eq!(
        t.inner.handle_message(open).err(),
        Some(Error { kind: ErrorKind::InvalidData, detail: Detail::ServiceNotUtf8 })
    );
    let empty = AdbMessage::new(AdbCommand::OKAY, 9, 1, vec![]);
    assert_eq!(
        t.inner.handle_message(empty).err(),
        Some(Error { kind: ErrorKind::Other, detail: Detail::NoAvailInOkay })
    );
    let unknown = AdbMessage::new(AdbCommand::CNXN, 9, 1, vec![]);
    assert!(matches!(deliver(&mut t, unknown), Inbound::Ignored));
}

#[test]
fn a_message_that_is_written_is_flushed_before_and_after() {
    let mut write = PendingWrite::new(clse(1, 2));
    assert_eq!(write.on_flushed(), Some(clse(1, 2)));
    assert_eq!(write.on_flushed(), None);
}

#[test]
fn single_sockets_shut_down_once() {
    let mut socket = SocketBackend::new(1, 2, 10);
    assert!(socket.can_handle(&okay(2, 1, 5)));
    assert!(!socket.can_handle(&AdbMessage::new(AdbCommand::OPEN, 0, 0, vec![])));
    assert_eq!(socket.shutdown(&Some(Arc::new(error(ErrorKind::Closed)))), None);
    assert_eq!(socket.shutdown(&None), Some(clse(1, 2)));
    assert_eq!(socket.shutdown(&None), None);
}

#[test]
fn backends_hand_on_to_what_they_speak() {
    let mut backend = ConnectionBackend::AProto(transport());
    assert_eq!(backend.banner().features_str(), "delayed_ack");
    let (socket, msg) = backend.open_socket("x").unwrap();
    assert_eq!(socket.local_id, 1);
    assert_eq!(msg.payload, b"x\0");
    assert!(!backend.is_closed());
    assert!(backend.close().first);
    assert!(backend.is_closed());
    assert!(backend.open_socket("x").is_err());
    let ConnectionBackend::AProto(transport) = backend;
    assert!(transport.inbound);
}

#[test]
fn numbers_of_sockets_wrap_around() {
    let mut t = transport();
    t.inner.last_id = u32::MAX;
    let (last, _) = t.open_socket("a").unwrap();
    let (first, _) = t.open_socket("b").unwrap();
    assert_eq!((last.local_id, first.local_id), (u32::MAX, 0));
    assert!(t.inner.is_live(&last) && t.inner.is_live(&first));
}
