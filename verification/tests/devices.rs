use adb_daemon::banner::Banner;
use adb_daemon::connection::{
    ConnectionMgr, DeviceUpdate, Disconnected, IdSource, LifeEvent, MaybeConnection, Standing,
};
use adb_daemon::discovery::{
    authenticated, created, opened, wants_device, Context, Discovery, Offer, Setup,
};
use adb_daemon::config::UsbConfig;
use adb_daemon::error::{Detail, Error, ErrorKind, TransferError, UsbError};
use adb_daemon::forward::ForwardingMgr;
use adb_daemon::reverse::{socket_step, Refusal, ReverseForwards, SocketEvent, SocketStep};
use adb_daemon::services::{
    failed_reply, open_service, relay_step, service_opened, track_devices, wait_for, HostService,
    RelayEvent, RelayStep, Step, WaitEvent,
};
use adb_daemon::smart_socket::{
    DeviceSelector, PickDeviceError, Selection, ServiceError, SmartSocket, Status,
};
use adb_daemon::transport::PendingSocket;

struct World {
    ids: IdSource,
    mgr: ConnectionMgr,
    forwards: ForwardingMgr,
    standing: Standing,
}

impl World {
    fn new() -> World {
        World {
            ids: IdSource::new(),
            mgr: ConnectionMgr::new(),
            forwards: ForwardingMgr::new(),
            standing: Standing { closed: vec![], gone: vec![] },
        }
    }

    fn add(&mut self, serial: &str, banner: &str) -> u64 {
        let conn = MaybeConnection::allocate(&mut self.ids, serial);
        let (conn, update) = self.mgr.new_connection(conn, Banner::parse(banner).unwrap());
        match update {
            DeviceUpdate::Added(added) => assert_eq!(added.id, conn.id),
            DeviceUpdate::Removed(_) => panic!("the device was removed"),
        }
        conn.id
    }

    fn serve(&mut self, device: DeviceSelector, service: &str) -> Result<Step, ServiceError> {
        let mut socket = SmartSocket { device };
        socket
            .handle_service(&self.mgr, &self.standing, &mut self.forwards, &vec![], service)
            .res
    }

    fn reply(&mut self, device: DeviceSelector, service: &str) -> String {
        match self.serve(device, service) {
            Ok(Step::Reply(bytes)) => String::from_utf8(bytes).unwrap(),
            Ok(step) => panic!("unexpected step {step:?}"),
            Err(err) => String::from_utf8(failed_reply(&err, false).unwrap()).unwrap(),
        }
    }
}

const DEVICE: &str = "device::ro.product.name=p n;ro.product.device=d;features=delayed_ack,x";

#[test]
fn connections_are_numbered_from_one() {
    let mut ids = IdSource::new();
    assert_eq!(
        MaybeConnection::allocate(&mut ids, "a"),
        MaybeConnection { id: 1, serial: "a".into() }
    );
    assert_eq!(MaybeConnection::allocate(&mut ids, "a").id, 2);
    let mut last = IdSource { next: u64::MAX };
    assert_eq!(MaybeConnection::allocate(&mut last, "a").id, u64::MAX);
    assert_eq!(last.next, 0);
}

#[test]
fn connections_are_found_until_they_close() {
    let mut world = World::new();
    let a = world.add("a", DEVICE);
    let b = world.add("b", DEVICE);
    assert_eq!(world.mgr.get(&world.standing, "a").unwrap().id, a);
    assert!(world.mgr.get(&world.standing, "c").is_none());
    assert!(world.mgr.is_known("b") && !world.mgr.is_known("c"));

    world.standing.closed.push(a);
    assert!(world.mgr.get(&world.standing, "a").is_none());
    assert!(world.mgr.is_known("a"));
    let open = world.mgr.iter(&world.standing);
    assert_eq!(open.iter().map(|c| c.id).collect::<Vec<_>>(), vec![b]);

    let updates = world.mgr.remove_closed_connections(&world.standing);
    assert_eq!(updates.len(), 1);
    assert!(matches!(&updates[0], DeviceUpdate::Removed(c) if c.id == a && c.serial == "a"));
    assert!(!world.mgr.is_known("a") && world.mgr.is_known("b"));
    assert!(world.mgr.remove_closed_connections(&world.standing).is_empty());
}

#[test]
fn a_new_connection_takes_the_place_of_an_earlier_one() {
    let mut world = World::new();
    let first = world.add("a", DEVICE);
    let second = world.add("a", DEVICE);
    assert_ne!(first, second);
    assert_eq!(world.mgr.get(&world.standing, "a").unwrap().id, second);
    assert_eq!(world.mgr.iter(&world.standing).len(), 1);
}

#[test]
fn connections_that_are_gone_cannot_be_used() {
    let mut world = World::new();
    let id = world.add("a", DEVICE);
    let conn = world.mgr.get(&world.standing, "a").unwrap();
    assert_eq!(conn.upgrade(&world.standing), Ok(()));
    assert!(!conn.is_closed(&world.standing));
    let gone = Standing { closed: vec![], gone: vec![id] };
    assert_eq!(conn.upgrade(&gone), Err(Disconnected));
    assert!(conn.is_closed(&gone));
    assert_eq!(Disconnected.text(), "device disconnected");
}

#[test]
fn connections_that_are_gone_stay_gone() {
    let mut world = World::new();
    let id = world.add("a", DEVICE);
    let conn = world.mgr.get(&world.standing, "a").unwrap();
    let mut standing = Standing::new();
    standing.note(LifeEvent::Closed(id));
    assert_eq!(conn.upgrade(&standing), Ok(()));
    assert!(conn.is_closed(&standing));
    standing.note(LifeEvent::Gone(id));
    standing.note(LifeEvent::Gone(id));
    standing.note(LifeEvent::Closed(id + 1));
    assert_eq!(conn.upgrade(&standing), Err(Disconnected));
    assert!(conn.is_closed(&standing));
    assert_eq!((conn.id, conn.serial.as_str()), (id, "a"));
    assert_eq!((standing.closed, standing.gone), (vec![id, id + 1], vec![id]));
}

#[test]
fn devices_are_picked_as_asked() {
    let mut world = World::new();
    let pick = |world: &World, device: DeviceSelector| {
        let mut socket = SmartSocket { device };
        socket.pick_connection(&world.mgr, &world.standing).map(|c| c.id)
    };
    assert_eq!(pick(&world, DeviceSelector::Unset), Err(PickDeviceError::NotSelected));
    assert_eq!(pick(&world, DeviceSelector::Any), Err(PickDeviceError::NoDevices));
    let a = world.add("a", DEVICE);
    assert_eq!(pick(&world, DeviceSelector::Any), Ok(a));
    let b = world.add("b", DEVICE);
    assert_eq!(pick(&world, DeviceSelector::Any), Err(PickDeviceError::MoreThanOne));
    assert_eq!(pick(&world, DeviceSelector::Serial("b".into())), Ok(b));
    assert_eq!(
        pick(&world, DeviceSelector::Serial("c".into())),
        Err(PickDeviceError::NotFound("c".into()))
    );
    world.standing.closed.push(b);
    assert_eq!(pick(&world, DeviceSelector::Any), Ok(a));

    let texts: Vec<String> = [
        PickDeviceError::NotSelected,
        PickDeviceError::NoDevices,
        PickDeviceError::MoreThanOne,
        PickDeviceError::NotFound("x".into()),
    ]
    .iter()
    .map(PickDeviceError::text)
    .collect();
    assert_eq!(
        texts,
        [
            "no device selected",
            "no devices/emulators found",
            "more than one device/emulator",
            "device 'x' not found"
        ]
    );
}

#[test]
fn a_picked_device_stays_picked() {
    let mut world = World::new();
    let a = world.add("a", DEVICE);
    let mut socket = SmartSocket { device: DeviceSelector::Any };
    socket.pick_connection(&world.mgr, &world.standing).unwrap();
    world.add("b", DEVICE);
    world.standing.closed.push(a);
    assert_eq!(socket.pick_connection(&world.mgr, &world.standing).unwrap().id, a);
}

fn select(world: &World, socket: &mut SmartSocket, service: &str) -> Result<Selection, ServiceError> {
    socket.consume_device_selector(&world.mgr, &world.standing, service)
}

#[test]
fn requests_choose_their_device() {
    let mut world = World::new();
    world.add("a", DEVICE);
    world.add("b", DEVICE);
    let mut socket = SmartSocket::new();

    for (request, reply) in [
        ("host:transport:b", b"OKAY".to_vec()),
        ("host:tport:serial:b", b"OKAY\x02\0\0\0\0\0\0\0".to_vec()),
    ] {
        match select(&world, &mut socket, request).unwrap() {
            Selection::Chosen(bytes) => assert_eq!(bytes, reply),
            Selection::Service(service) => panic!("unexpected service {service}"),
        }
        assert!(matches!(&socket.device, DeviceSelector::Connection(c) if c.serial == "b"));
    }
    assert!(matches!(
        select(&world, &mut socket, "host:tport:any"),
        Err(ServiceError::Pick(PickDeviceError::MoreThanOne))
    ));
    assert!(matches!(socket.device, DeviceSelector::Any));

    match select(&world, &mut socket, "host-serial:a:get:state").unwrap() {
        Selection::Service(service) => assert_eq!(service, "host:get:state"),
        Selection::Chosen(_) => panic!("a device was chosen"),
    }
    assert!(matches!(&socket.device, DeviceSelector::Serial(s) if s == "a"));
    assert!(matches!(
        select(&world, &mut socket, "host-serial:a"),
        Err(ServiceError::Malformed)
    ));

    match select(&world, &mut socket, "shell:ls").unwrap() {
        Selection::Service(service) => assert_eq!(service, "shell:ls"),
        Selection::Chosen(_) => panic!("a device was chosen"),
    }
    assert!(matches!(&socket.device, DeviceSelector::Serial(s) if s == "a"));
    select(&world, &mut socket, "host:version").unwrap();
    assert!(matches!(socket.device, DeviceSelector::Any));
}

#[test]
fn the_daemon_answers_for_itself() {
    let mut world = World::new();
    let any = || DeviceSelector::Any;
    assert_eq!(world.reply(any(), "host:version"), "OKAY00040029");
    assert_eq!(world.reply(any(), "host:is-adb-daemon-rs"), "OKAY");
    assert_eq!(world.reply(any(), "host:reconnect-offline"), "OKAY0000");
    assert_eq!(world.reply(any(), "host:nonsense"), "FAIL0011service not found");
    assert_eq!(world.reply(any(), "host:features"), "FAIL001ano devices/emulators found");
    assert_eq!(world.reply(any(), "host:devices"), "OKAY0000");
    match world.serve(any(), "host:kill") {
        Ok(Step::Exit(bytes)) => assert_eq!(bytes, b"OKAY"),
        other => panic!("unexpected {other:?}"),
    }
    assert_eq!(HostService::named("devices-l"), HostService::Devices { long: true });
    assert_eq!(SmartSocket::respond(Status::Fail), b"FAIL");
}

#[test]
fn the_daemon_answers_for_devices() {
    let mut world = World::new();
    let id = world.add("serial", DEVICE);
    let any = || DeviceSelector::Any;
    assert_eq!(world.reply(any(), "host:get-state"), "OKAY0006device");
    assert_eq!(world.reply(any(), "host:features"), "OKAY000ddelayed_ack,x");
    assert_eq!(world.reply(any(), "host:devices"), "OKAY000eserial\tdevice\n");
    let line = "serial                \tdevice 1 product:p_n model:Unknown device:d transport_id:1\n";
    assert_eq!(
        world.reply(any(), "host:devices-l"),
        format!("OKAY{:04x}{line}", line.len())
    );
    match world.serve(any(), "host:reconnect") {
        Ok(Step::Close(conn, bytes)) => {
            assert_eq!(conn.id, id);
            assert_eq!(bytes, b"OKAY0000");
        }
        other => panic!("unexpected {other:?}"),
    }
    match world.serve(any(), "shell:ls") {
        Ok(Step::Open(conn)) => assert_eq!(conn.id, id),
        other => panic!("unexpected {other:?}"),
    }

    let conn = world.mgr.get(&world.standing, "serial").unwrap();
    world.standing.gone.push(id);
    for service in ["host:features", "host:reconnect"] {
        assert_eq!(
            world.reply(DeviceSelector::Connection(conn.clone()), service),
            "FAIL0013device disconnected"
        );
    }
}

#[test]
fn devices_are_followed() {
    let mut world = World::new();
    match world.serve(DeviceSelector::Any, "host:track-devices-l") {
        Ok(Step::Track { reply, long }) => {
            assert_eq!(reply, b"OKAY");
            assert!(long);
        }
        other => panic!("unexpected {other:?}"),
    }
    let track = |world: &World, event| track_devices(&world.mgr, &world.standing, false, event);
    assert_eq!(track(&world, WaitEvent::Started), Ok(Some(b"0000".to_vec())));
    world.add("x", "recovery::");
    assert_eq!(track(&world, WaitEvent::Updated), Ok(Some(b"000bx\trecovery\n".to_vec())));
    assert_eq!(track(&world, WaitEvent::ClientClosed), Ok(None));
    assert_eq!(track(&world, WaitEvent::ClientSent), Err(ServiceError::UnexpectedData));
    assert_eq!(
        wait_for(WaitEvent::Failed("channel closed".into())),
        Err(ServiceError::Outside("channel closed".into()))
    );
}

#[test]
fn devices_are_waited_for() {
    let mut world = World::new();
    let selector = match world.serve(DeviceSelector::Any, "host:wait-for-any-device") {
        Ok(Step::Wait { reply, selector }) => {
            assert_eq!(reply, b"OKAY");
            selector
        }
        other => panic!("unexpected {other:?}"),
    };
    let mut socket = SmartSocket::new();
    let mut wait = |world: &World, event| {
        socket.wait_for_device(&world.mgr, &world.standing, &selector, event)
    };
    assert_eq!(wait(&world, WaitEvent::Started), Ok(None));
    let first = world.add("x", "recovery::");
    assert_eq!(wait(&world, WaitEvent::Updated), Ok(None));
    world.standing.closed.push(first);
    world.add("x", DEVICE);
    assert_eq!(wait(&world, WaitEvent::Updated), Ok(Some(b"OKAY".to_vec())));
    world.add("y", DEVICE);
    assert_eq!(
        wait(&world, WaitEvent::Updated),
        Err(ServiceError::Pick(PickDeviceError::MoreThanOne))
    );
    assert_eq!(wait(&world, WaitEvent::ClientClosed), Ok(Some(b"OKAY".to_vec())));
    assert_eq!(wait(&world, WaitEvent::ClientSent), Err(ServiceError::UnexpectedData));
}

#[test]
fn failures_are_told_unless_the_client_is_gone() {
    assert_eq!(failed_reply(&ServiceError::ReadService, true), None);
    let texts = [
        (ServiceError::ReadService, "read service"),
        (ServiceError::Malformed, "malformed service"),
        (ServiceError::Disconnected, "device disconnected"),
        (ServiceError::UnexpectedData, "should not read anything"),
        (ServiceError::OpenSocket, "open socket"),
        (ServiceError::MalformedReverse, "malformed reverse service"),
        (ServiceError::WouldFail, "already bound, would fail"),
        (ServiceError::Outside("reset".into()), "reset"),
    ];
    for (error, text) in texts {
        let reply = format!("FAIL{:04x}{text}", text.len());
        assert_eq!(failed_reply(&error, false), Some(reply.into_bytes()));
    }
}

fn ask(table: &ReverseForwards, service: &str) -> Result<u16, Refusal> {
    let socket = PendingSocket { remote_id: 1, acknowledged: 0, service: service.into() };
    ForwardingMgr::new().handle_socket(table, &socket)
}

#[test]
fn devices_get_only_to_reverse_forwards() {
    let forwards = ForwardingMgr::new();
    let mut table = ReverseForwards::new();
    assert_eq!(ask(&table, "tcp:80"), Err(Refusal::Denied));
    assert_eq!(forwards.handle_reverse(&mut table, "reverse:forward:tcp:5000;tcp:80"), Ok(()));
    assert_eq!(ask(&table, "tcp:80"), Ok(80));
    assert_eq!(ask(&table, "tcp:5000"), Err(Refusal::Denied));
    assert_eq!(ask(&table, "tcp:x"), Err(Refusal::ParseProto));
    assert_eq!(ask(&table, "local:x"), Err(Refusal::UnsupportedProtocol));

    assert_eq!(
        forwards.handle_reverse(&mut table, "reverse:forward:norebind:tcp:5000;tcp:81"),
        Err(ServiceError::WouldFail)
    );
    assert_eq!(ask(&table, "tcp:80"), Ok(80));
    forwards.handle_reverse(&mut table, "reverse:forward:tcp:5000;tcp:81").unwrap();
    forwards.handle_reverse(&mut table, "reverse:forward:norebind:tcp:5001;tcp:82").unwrap();
    assert_eq!(ask(&table, "tcp:80"), Err(Refusal::Denied));
    assert_eq!(ask(&table, "tcp:81"), Ok(81));
    assert_eq!(ask(&table, "tcp:82"), Ok(82));
    forwards.handle_reverse(&mut table, "reverse:killforward:tcp:5000").unwrap();
    assert_eq!(ask(&table, "tcp:81"), Err(Refusal::Denied));
    assert_eq!(forwards.handle_reverse(&mut table, "reverse:list-forward"), Ok(()));
    assert_eq!(ask(&table, "tcp:82"), Ok(82));
    forwards.handle_reverse(&mut table, "reverse:killforward-all").unwrap();
    assert_eq!(ask(&table, "tcp:82"), Err(Refusal::Denied));
    assert_eq!(forwards.handle_reverse(&mut table, "reverse:x"), Err(ServiceError::MalformedReverse));
    assert_eq!(forwards.handle_reverse(&mut table, "shell:"), Ok(()));
}

#[test]
fn services_of_a_device_need_its_connection() {
    let mut world = World::new();
    let id = world.add("a", DEVICE);
    let conn = world.mgr.get(&world.standing, "a").unwrap();
    let mut table = ReverseForwards::new();
    let request = "reverse:forward:tcp:1;tcp:2";
    assert_eq!(open_service(&world.forwards, &mut table, &conn, &world.standing, request), Ok(()));
    assert_eq!(ask(&table, "tcp:2"), Ok(2));
    assert_eq!(
        open_service(&world.forwards, &mut table, &conn, &world.standing, "reverse:forward:tcp:1"),
        Err(ServiceError::Invalid)
    );
    world.standing.gone.push(id);
    assert_eq!(
        open_service(&world.forwards, &mut table, &conn, &world.standing, "shell:"),
        Err(ServiceError::Disconnected)
    );
}

#[test]
fn sockets_of_devices_are_connected_then_accepted() {
    let steps = [
        (SocketEvent::Considered(Ok(80)), SocketStep::Connect(80)),
        (SocketEvent::Considered(Err(Refusal::Denied)), SocketStep::Close),
        (SocketEvent::Connected, SocketStep::Accept),
        (SocketEvent::ConnectFailed, SocketStep::Close),
        (SocketEvent::Accepted, SocketStep::Relay),
        (SocketEvent::AcceptFailed, SocketStep::Leave),
    ];
    for (event, step) in steps {
        assert_eq!(socket_step(event), step);
    }
}

#[test]
fn only_new_devices_that_are_served_are_opened() {
    let mut world = World::new();
    world.add("known", DEVICE);
    let config = UsbConfig::new(None, vec![], vec!["bad".into()]);
    let wants = |serial| wants_device(&config, &world.mgr, serial);
    assert!(wants(Some("new")));
    assert!(!wants(Some("bad")));
    assert!(!wants(Some("known")));
    assert!(!wants(None));

    let error = |kind| Error { kind, detail: Detail::Nothing };
    assert!(matches!(opened(Ok(())), Discovery::Connect));
    let unsupported = error(ErrorKind::Usb(UsbError::Unsupported));
    assert!(matches!(opened(Err(unsupported)), Discovery::Ignore));
    let claim = error(ErrorKind::Usb(UsbError::Claim));
    assert!(matches!(opened(Err(claim)), Discovery::Warn(_)));
}

#[test]
fn a_new_key_is_the_last_offer() {
    let error = |kind| Error { kind, detail: Detail::Nothing };
    assert!(matches!(created(Ok(())), Setup::Authenticate(Offer::Existing)));
    let fault = error(ErrorKind::Usb(UsbError::Transfer(TransferError::Fault)));
    assert!(matches!(created(Err(fault)), Setup::Reset));
    let stall = error(ErrorKind::Usb(UsbError::Transfer(TransferError::Stall)));
    match created(Err(stall.clone())) {
        Setup::Fail(context, err) => {
            assert_eq!(context.text(), "create transport");
            assert_eq!(err, stall);
        }
        other => panic!("unexpected {other:?}"),
    }
    assert!(matches!(authenticated(Offer::Existing, Ok(true)), Setup::Connect));
    assert!(matches!(
        authenticated(Offer::Existing, Ok(false)),
        Setup::Authenticate(Offer::New)
    ));
    assert!(matches!(
        authenticated(Offer::Existing, Err(error(ErrorKind::Sign))),
        Setup::Fail(Context::AuthError, _)
    ));
    assert!(matches!(
        authenticated(Offer::Existing, Err(error(ErrorKind::AuthRejected))),
        Setup::Authenticate(Offer::New)
    ));
    assert!(matches!(
        authenticated(Offer::New, Err(error(ErrorKind::AuthRejected))),
        Setup::Fail(Context::OfferKey, _)
    ));
    assert!(matches!(authenticated(Offer::New, Ok(true)), Setup::Connect));
    match authenticated(Offer::New, Ok(false)) {
        Setup::Fail(context, err) => {
            assert_eq!(context.text(), "offer key");
            assert_eq!(err.kind, ErrorKind::AuthRejected);
        }
        other => panic!("unexpected {other:?}"),
    }
}

#[test]
fn clients_are_told_whether_the_service_is_open() {
    assert_eq!(service_opened(true), Ok(b"OKAY".to_vec()));
    let failed = service_opened(false).unwrap_err();
    assert_eq!(failed, ServiceError::OpenSocket);
    assert_eq!(failed_reply(&failed, false), Some(b"FAIL000bopen socket".to_vec()));
}

#[test]
fn data_is_passed_on_until_the_device_ends() {
    let steps = [
        (RelayEvent::Opened, RelayStep::Relay),
        (RelayEvent::ClientEnded, RelayStep::CloseDevice),
        (RelayEvent::DeviceClosed, RelayStep::Relay),
        (RelayEvent::ClientFailed, RelayStep::Relay),
        (RelayEvent::DeviceEnded, RelayStep::CloseClient),
        (RelayEvent::ClientClosed, RelayStep::Drain(5)),
        (RelayEvent::DeviceFailed, RelayStep::Drain(5)),
    ];
    for (event, step) in steps {
        assert_eq!(relay_step(event), step);
    }
}
