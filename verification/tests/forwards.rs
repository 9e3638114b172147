use adb_daemon::banner::Banner;
use adb_daemon::connection::{ConnectionMgr, IdSource, MaybeConnection, Standing};
use adb_daemon::forward::{
    forward_task, ForwardCommand, ForwardingMgr, PendingForward, TaskEvent, TaskStep,
};
use adb_daemon::proto::Proto;
use adb_daemon::services::{failed_reply, Step};
use adb_daemon::smart_socket::{DeviceSelector, Selection, ServiceError, SmartSocket};

const SERIAL: &str = "forward-test-device";

fn pstring(data: &str) -> String {
    format!("{:04x}{data}", data.len())
}

/// A daemon with one device, on a host whose ports are only counted.
struct Fixture {
    connections: ConnectionMgr,
    forwardings: ForwardingMgr,
    standing: Standing,
    finished: Vec<u64>,
    next_port: u16,
    next_task: u64,
    /// The ports that are listened at, with the tasks that do.
    listening: Vec<(u16, u64)>,
}

impl Fixture {
    fn new() -> Self {
        let mut connections = ConnectionMgr::new();
        let mut ids = IdSource::new();
        let banner = Banner::parse("device::features=delayed_ack").unwrap();
        connections.new_connection(MaybeConnection::allocate(&mut ids, SERIAL), banner);
        Fixture {
            connections,
            forwardings: ForwardingMgr::new(),
            standing: Standing { closed: vec![], gone: vec![] },
            finished: vec![],
            next_port: 40000,
            next_task: 1,
            listening: vec![],
        }
    }

    fn stop(&mut self, tasks: &[u64]) {
        self.listening.retain(|(_, task)| !tasks.contains(task));
    }

    fn bind(&mut self, pending: PendingForward) -> Result<Vec<u8>, ServiceError> {
        let port = if pending.port == 0 {
            self.next_port += 1;
            self.next_port
        } else {
            pending.port
        };
        if self.listening.iter().any(|(p, _)| *p == port) {
            return Err(ServiceError::Bind);
        }
        let task = self.next_task;
        self.next_task += 1;
        self.listening.push((port, task));
        let (stopped, reply) = self.forwardings.bound(pending, port, task);
        self.stop(&stopped);
        Ok(reply)
    }

    fn serve(&mut self, request: &str) -> Result<Vec<u8>, ServiceError> {
        let mut socket = SmartSocket::new();
        let service =
            match socket.consume_device_selector(&self.connections, &self.standing, request)? {
                Selection::Service(service) => service,
                Selection::Chosen(_) => panic!("a device was chosen for nothing"),
            };
        let result = socket.handle_service(
            &self.connections,
            &self.standing,
            &mut self.forwardings,
            &self.finished,
            &service,
        );
        self.stop(&result.stopped);
        match result.res? {
            Step::Reply(bytes) => Ok(bytes),
            Step::Bind(pending) => self.bind(pending),
            other => panic!("unexpected step {other:?}"),
        }
    }

    fn request(&mut self, service: &str) -> String {
        let reply = match self.serve(&format!("host-serial:{SERIAL}:{service}")) {
            Ok(bytes) => bytes,
            Err(err) => failed_reply(&err, false).unwrap(),
        };
        String::from_utf8(reply).unwrap()
    }

    fn allocate(&mut self, remote: &str, norebind: bool) -> u16 {
        let prefix = if norebind { "norebind:" } else { "" };
        let response = self.request(&format!("forward:{prefix}tcp:0;{remote}"));
        assert!(response.starts_with("OKAYOKAY"), "{response:?}");
        assert!(response.len() > 12, "missing allocated port: {response:?}");

        let port: u16 = response[12..].parse().unwrap();
        assert_ne!(port, 0);
        assert_eq!(response, format!("OKAYOKAY{}", pstring(&port.to_string())));
        port
    }

    fn assert_list(&mut self, entries: &[(u16, &str)]) {
        let response = self.request("list-forward");
        assert!(response.starts_with("OKAY"), "{response:?}");
        assert!(response.len() >= 8, "{response:?}");
        assert_eq!(response, format!("OKAY{}", pstring(&response[8..])));

        let mut actual: Vec<_> = response[8..].lines().collect();
        let mut expected: Vec<_> =
            entries.iter().map(|(port, remote)| format!("{SERIAL} tcp:{port} {remote}")).collect();
        actual.sort_unstable();
        expected.sort_unstable();
        assert_eq!(actual, expected);
    }

    fn assert_forward(&self, port: u16, remote: &str) {
        let (_, task) = *self.listening.iter().find(|(p, _)| *p == port).unwrap();
        let forward = self.forwardings.listeners.iter().find(|f| f.task == task).unwrap();
        assert!(matches!(
            forward_task(forward, &self.standing, TaskEvent::Started),
            TaskStep::Accept
        ));
        match forward_task(forward, &self.standing, TaskEvent::Accepted) {
            TaskStep::Open(conn, service) => {
                assert_eq!(conn.serial, SERIAL);
                assert_eq!(service, remote);
            }
            other => panic!("unexpected step {other:?}"),
        }
    }

    fn assert_removed(&self, port: u16) {
        assert!(self.listening.iter().all(|(p, _)| *p != port));
    }
}

fn check_automatic_allocations(norebind: bool) {
    let mut fixture = Fixture::new();
    let remote_a = "localabstract:first";
    let remote_b = "localabstract:second";

    let first = fixture.allocate(remote_a, norebind);
    let second = fixture.allocate(remote_b, norebind);

    assert_ne!(first, second);
    fixture.assert_list(&[(first, remote_a), (second, remote_b)]);
    fixture.assert_forward(first, remote_a);
    fixture.assert_forward(second, remote_b);

    assert_eq!(fixture.request(&format!("killforward:tcp:{first}")), "OKAYOKAY");

    fixture.assert_list(&[(second, remote_b)]);
    fixture.assert_removed(first);
    fixture.assert_forward(second, remote_b);
}

#[test]
fn automatic_ports_are_returned_listed_and_independently_removable() {
    check_automatic_allocations(false);
}

#[test]
fn norebind_automatic_ports_allocate_independently() {
    check_automatic_allocations(true);
}

#[test]
fn fixed_port_rebind_preserves_listener_and_norebind_preserves_target() {
    let mut fixture = Fixture::new();
    let original = "localabstract:original";
    let replacement = "localabstract:replacement";
    let port = fixture.allocate(original, false);
    let listening = fixture.listening.clone();

    let response = fixture.request(&format!("forward:tcp:{port};{replacement}"));

    assert_eq!(response, "OKAYOKAY");
    assert_eq!(fixture.listening, listening);
    fixture.assert_list(&[(port, replacement)]);
    fixture.assert_forward(port, replacement);

    let response = fixture.request(&format!("forward:norebind:tcp:{port};{original}"));

    assert_eq!(response, format!("FAIL{}", pstring("already bound")));
    fixture.assert_list(&[(port, replacement)]);
    fixture.assert_forward(port, replacement);

    assert_eq!(fixture.request(&format!("killforward:tcp:{port}")), "OKAYOKAY");
    fixture.assert_removed(port);

    // Recreate using a fixed port to cover the initial bind path as well as rebinds.
    assert_eq!(fixture.request(&format!("forward:norebind:tcp:{port};{original}")), "OKAYOKAY");
    fixture.assert_list(&[(port, original)]);
    fixture.assert_forward(port, original);

    assert_eq!(fixture.request("killforward-all"), "OKAYOKAY");
    fixture.assert_list(&[]);
    fixture.assert_removed(port);
}

#[test]
fn two_automatic_ports_are_listed_in_order() {
    for norebind in [false, true] {
        let mut fixture = Fixture::new();
        let first = fixture.allocate("localabstract:first", norebind);
        let second = fixture.allocate("localabstract:second", norebind);
        let lines = format!(
            "{SERIAL} tcp:{first} localabstract:first\n{SERIAL} tcp:{second} localabstract:second\n"
        );
        assert_eq!(fixture.request("list-forward"), format!("OKAY{}", pstring(&lines)));
    }
}

#[test]
fn forwards_of_closed_connections_and_finished_tasks_are_dropped() {
    let mut fixture = Fixture::new();
    let first = fixture.allocate("a", false);
    let second = fixture.allocate("b", false);

    fixture.finished = vec![1];
    fixture.assert_list(&[(second, "b")]);
    fixture.assert_removed(first);

    fixture.finished = vec![];
    fixture.standing.closed = vec![1];
    fixture.assert_list(&[]);
    fixture.assert_removed(second);
}

#[test]
fn forwards_need_a_port_a_device_and_both_ends() {
    let mut fixture = Fixture::new();
    let fail = |text: &str| format!("FAIL{}", pstring(text));
    assert_eq!(fixture.request("forward:tcp:1"), fail("invalid"));
    assert_eq!(fixture.request("forward:tcp:x;tcp:1"), fail("parse local"));
    assert_eq!(fixture.request("forward:tcp:1;tcp:65536"), fail("parse remote"));
    assert_eq!(fixture.request("killforward:tcp:"), fail("parse port"));
    assert_eq!(
        fixture.request("forward:local:/tmp/x;tcp:1"),
        fail("unsupported protocol: local:/tmp/x")
    );
    assert_eq!(fixture.request("forwards"), fail("service not found"));

    fixture.listening.push((7, 99));
    assert_eq!(fixture.request("forward:tcp:7;tcp:1"), fail("bind"));

    fixture.standing.closed = vec![1];
    assert_eq!(
        fixture.request("forward:tcp:1;tcp:2"),
        fail("device 'forward-test-device' not found")
    );
}

#[test]
fn lists_name_what_is_left_of_a_connection() {
    let mut fixture = Fixture::new();
    let port = fixture.allocate("a", false);
    let standing = Standing { closed: vec![], gone: vec![1] };
    assert_eq!(fixture.forwardings.list(&standing), format!("disconnected tcp:{port} a\n"));
}

#[test]
fn the_forwarding_task_ends_with_its_connection_or_its_port() {
    let mut fixture = Fixture::new();
    fixture.allocate("a", false);
    let forward = &fixture.forwardings.listeners[0];
    let gone = Standing { closed: vec![], gone: vec![1] };
    assert!(matches!(forward_task(forward, &gone, TaskEvent::Accepted), TaskStep::End));
    assert!(matches!(
        forward_task(forward, &fixture.standing, TaskEvent::AcceptFailed),
        TaskStep::End
    ));
    assert!(matches!(
        forward_task(forward, &fixture.standing, TaskEvent::OpenFailed),
        TaskStep::Accept
    ));
    assert!(matches!(
        forward_task(forward, &fixture.standing, TaskEvent::Opened),
        TaskStep::Relay
    ));
}

#[test]
fn protocols_read_back() {
    assert_eq!(Proto::parse("tcp:80"), Some(Proto::Tcp(80)));
    assert_eq!(Proto::parse("tcp:+80"), Some(Proto::Tcp(80)));
    assert_eq!(Proto::parse("tcp:65535"), Some(Proto::Tcp(65535)));
    assert_eq!(Proto::parse("tcp:65536"), None);
    assert_eq!(Proto::parse("tcp:-1"), None);
    assert_eq!(Proto::parse("localabstract:x"), Some(Proto::Other("localabstract:x".into())));
    for proto in [Proto::Tcp(0), Proto::Tcp(65535), Proto::Other("dev:/null".into())] {
        assert_eq!(Proto::parse(&proto.text()), Some(proto));
    }
    assert_eq!(Proto::Tcp(5037).text(), "tcp:5037");
}

#[test]
fn forward_commands_are_told_apart() {
    assert_eq!(
        ForwardCommand::parse("forward:norebind:tcp:1;local;x"),
        Ok(Some(ForwardCommand::Add {
            left: Proto::Tcp(1),
            right: Proto::Other("local;x".into()),
            norebind: true,
        }))
    );
    assert_eq!(
        ForwardCommand::parse("killforward:tcp:1"),
        Ok(Some(ForwardCommand::Remove(Proto::Tcp(1))))
    );
    assert_eq!(ForwardCommand::parse("killforward-all"), Ok(Some(ForwardCommand::RemoveAll)));
    assert_eq!(ForwardCommand::parse("list-forward"), Ok(Some(ForwardCommand::List)));
    assert_eq!(ForwardCommand::parse("version"), Ok(None));
}

#[test]
fn a_forward_fixes_the_choice_of_device() {
    let mut fixture = Fixture::new();
    let mut socket = SmartSocket { device: DeviceSelector::Any };
    let result = fixture.forwardings.handle_forward(
        &mut socket,
        &fixture.connections,
        &fixture.standing,
        &vec![],
        "forward:tcp:0;a",
    );
    assert!(result.stopped.is_empty());
    assert!(matches!(result.res, Ok(Some(_))));
    match socket.device {
        DeviceSelector::Connection(conn) => assert_eq!(conn.id, 1),
        other => panic!("unexpected choice {other:?}"),
    }
}
