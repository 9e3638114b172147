//! The requests of clients.

use std::sync::Arc;
use vstd::prelude::*;
use vstd::utf8::encode_utf8;
use crate::banner::{joined, Banner, DeviceType};
use crate::connection::{ConnectionMgr, MgrView, Standing, WeakConnection};
use crate::forward::{
    forward_outcome, parsed_command, Command, ForwardResult, ForwardStep, ForwardView,
    ForwardingMgr, PendingForward, StepView,
};
use crate::protocol::{
    framed, law_read_back, read_text, write_protocol_string, ProtocolError,
};
use crate::reverse::{after_reverse, ReverseForwards};
use crate::smart_socket::{
    after_pick, failure_reply, failure_text, is_device_list, picked, status_bytes, status_with,
    DeviceSelector, Failed, PickDeviceError, PickError, Selector, ServiceError, SmartSocket, Status,
};
use crate::text::{has_prefix, law_prefix_comes_off, same_text, strip_prefix, stripped};

verus! {

/// The version that clients are told.
pub const SERVER_VERSION: &'static str = "0029";

/// The requests to the daemon itself.
#[derive(Debug, Clone, Copy, PartialEq, Eq)]
pub enum HostService {
    Version,
    IsAdbDaemonRs,
    Kill,
    Features,
    Devices { long: bool },
    TrackDevices { long: bool },
    GetState,
    WaitForAnyDevice,
    Reconnect,
    ReconnectOffline,
    /// Perhaps something about forwards.
    Other,
}

/// The request with this name.
pub open spec fn named_service(s: Seq<char>) -> HostService {
    if s == "version"@ {
        HostService::Version
    } else if s == "is-adb-daemon-rs"@ {
        HostService::IsAdbDaemonRs
    } else if s == "kill"@ {
        HostService::Kill
    } else if s == "features"@ {
        HostService::Features
    } else if s == "devices"@ {
        HostService::Devices { long: false }
    } else if s == "devices-l"@ {
        HostService::Devices { long: true }
    } else if s == "track-devices"@ {
        HostService::TrackDevices { long: false }
    } else if s == "track-devices-l"@ {
        HostService::TrackDevices { long: true }
    } else if s == "get-state"@ {
        HostService::GetState
    } else if s == "wait-for-any-device"@ {
        HostService::WaitForAnyDevice
    } else if s == "reconnect"@ {
        HostService::Reconnect
    } else if s == "reconnect-offline"@ {
        HostService::ReconnectOffline
    } else {
        HostService::Other
    }
}

impl HostService {
    /// The request with this name.
    pub fn named(s: &str) -> (service: HostService)
        ensures
            service == named_service(s@),
    {
        if same_text(s, "version") {
            HostService::Version
        } else if same_text(s, "is-adb-daemon-rs") {
            HostService::IsAdbDaemonRs
        } else if same_text(s, "kill") {
            HostService::Kill
        } else if same_text(s, "features") {
            HostService::Features
        } else if same_text(s, "devices") {
            HostService::Devices { long: false }
        } else if same_text(s, "devices-l") {
            HostService::Devices { long: true }
        } else if same_text(s, "track-devices") {
            HostService::TrackDevices { long: false }
        } else if same_text(s, "track-devices-l") {
            HostService::TrackDevices { long: true }
        } else if same_text(s, "get-state") {
            HostService::GetState
        } else if same_text(s, "wait-for-any-device") {
            HostService::WaitForAnyDevice
        } else if same_text(s, "reconnect") {
            HostService::Reconnect
        } else if same_text(s, "reconnect-offline") {
            HostService::ReconnectOffline
        } else {
            HostService::Other
        }
    }
}

/// What is to be done about a request.
#[derive(Debug)]
pub enum Step {
    /// Send this, and that is all.
    Reply(Vec<u8>),
    /// Send this, then end the daemon.
    Exit(Vec<u8>),
    /// Close the connection, then send this.
    Close(Arc<WeakConnection>, Vec<u8>),
    /// Send this, then go on with `track_devices`.
    Track { reply: Vec<u8>, long: bool },
    /// Send this, then go on with `wait_for_device`.
    Wait { reply: Vec<u8>, selector: DeviceSelector },
    /// Listen at a port, then go on with `ForwardingMgr::bound`.
    Bind(PendingForward),
    /// Go on with `open_service`, then open the service of the device and go on
    /// with `service_opened` and `relay_step`.
    Open(Arc<WeakConnection>),
}

/// What a request led to.
#[derive(Debug)]
pub struct ServiceResult {
    /// The tasks of forwards to stop.
    pub stopped: Vec<u64>,
    /// What is to be done.
    pub res: Result<Step, ServiceError>,
}

/// Whether the result is this reply.
pub open spec fn replies(res: Result<Step, ServiceError>, reply: Seq<u8>) -> bool {
    res matches Ok(Step::Reply(bytes)) && bytes@ == reply
}

/// Whether the result is this error.
pub open spec fn fails_with(res: Result<Step, ServiceError>, e: Failed) -> bool {
    res matches Err(err) && err@ == e
}

/// Whether the result is what is to be done about forwards.
pub open spec fn follows(res: Result<Step, ServiceError>, step: Result<Option<StepView>, Failed>) -> bool {
    match step {
        Ok(Some(StepView::Reply(bytes))) => replies(res, bytes),
        Ok(Some(StepView::Bind { port, conn, remote })) => res matches Ok(Step::Bind(pending))
            && pending.port == port && pending.conn@ == conn && pending.remote@ == remote,
        Ok(None) => fails_with(res, Failed::NotFound),
        Err(e) => fails_with(res, e),
    }
}

/// Whether the result is right for a request to the daemon that is not about
/// forwards, with the device `pick` where it needs one.
pub open spec fn host_served(
    service: HostService,
    all: MgrView,
    standing: Standing,
    selector: Selector,
    after: Selector,
    res: Result<Step, ServiceError>,
) -> bool {
    let pick = picked(all, standing, selector);
    match service {
        HostService::Version => after == selector && replies(
            res,
            status_with(Status::Okay, SERVER_VERSION@),
        ),
        HostService::IsAdbDaemonRs => after == selector && replies(
            res,
            status_bytes(Status::Okay),
        ),
        HostService::Kill => {
            &&& after == selector
            &&& res matches Ok(Step::Exit(bytes))
            &&& bytes@ == status_bytes(Status::Okay)
        },
        HostService::Features => {
            &&& after == after_pick(all, standing, selector)
            &&& match pick {
                Err(e) => fails_with(res, Failed::Pick(e)),
                Ok(conn) => if standing.is_gone(conn.id) {
                    fails_with(res, Failed::Disconnected)
                } else {
                    replies(res, status_with(Status::Okay, joined(conn.banner.features, ',')))
                },
            }
        },
        HostService::Devices { long } => {
            &&& after == selector
            &&& exists|text: Seq<char>| #[trigger]
                is_device_list(text, all, standing, long) && replies(
                    res,
                    status_with(Status::Okay, text),
                )
        },
        HostService::TrackDevices { long } => {
            &&& after == selector
            &&& res matches Ok(Step::Track { reply, long: l })
            &&& reply@ == status_bytes(Status::Okay)
            &&& l == long
        },
        HostService::GetState => {
            &&& after == after_pick(all, standing, selector)
            &&& match pick {
                Err(e) => fails_with(res, Failed::Pick(e)),
                Ok(_) => replies(res, status_with(Status::Okay, "device"@)),
            }
        },
        HostService::WaitForAnyDevice => {
            &&& after == selector
            &&& res matches Ok(Step::Wait { reply, selector: s })
            &&& reply@ == status_bytes(Status::Okay)
            &&& s@ == selector
            &&& s.wf()
        },
        HostService::Reconnect => {
            &&& after == after_pick(all, standing, selector)
            &&& match pick {
                Err(e) => fails_with(res, Failed::Pick(e)),
                Ok(conn) => if standing.is_gone(conn.id) {
                    fails_with(res, Failed::Disconnected)
                } else {
                    &&& res matches Ok(Step::Close(c, bytes))
                    &&& c@ == conn
                    &&& bytes@ == status_with(Status::Okay, ""@)
                },
            }
        },
        HostService::ReconnectOffline => after == selector && replies(
            res,
            status_with(Status::Okay, ""@),
        ),
        HostService::Other => false,
    }
}

/// Whether a request was served rightly: what became of the forwards and of
/// the choice of device, which tasks are to be stopped, and what is to be done.
pub open spec fn served(
    service: Seq<char>,
    all: MgrView,
    standing: Standing,
    finished: Seq<u64>,
    list: Seq<ForwardView>,
    selector: Selector,
    list_after: Seq<ForwardView>,
    selector_after: Selector,
    stopped: Seq<u64>,
    res: Result<Step, ServiceError>,
) -> bool {
    match stripped(service, "host:"@) {
        None => {
            &&& list_after == list
            &&& stopped == Seq::<u64>::empty()
            &&& selector_after == after_pick(all, standing, selector)
            &&& match picked(all, standing, selector) {
                Ok(conn) => res matches Ok(Step::Open(c)) && c@ == conn,
                Err(e) => fails_with(res, Failed::Pick(e)),
            }
        },
        Some(s) => if named_service(s) is Other {
            let outcome = forward_outcome(list, all, standing, finished, selector, s);
            &&& list_after == outcome.list
            &&& stopped == outcome.stopped
            &&& selector_after == outcome.selector
            &&& follows(res, outcome.res)
        } else {
            &&& list_after == list
            &&& stopped == Seq::<u64>::empty()
            &&& host_served(named_service(s), all, standing, selector, selector_after, res)
        },
    }
}

/// What happened while a client waits.
#[derive(Debug)]
pub enum WaitEvent {
    /// The waiting starts.
    Started,
    /// A device came or went.
    Updated,
    /// The client closed its side.
    ClientClosed,
    /// The client sent something.
    ClientSent,
    /// The waiting failed.
    Failed(String),
}

/// Whether a client goes on to wait, or has gone, or why the waiting failed.
pub open spec fn waited(event: WaitEvent) -> Result<bool, Failed> {
    match event {
        WaitEvent::Started => Ok(true),
        WaitEvent::Updated => Ok(true),
        WaitEvent::ClientClosed => Ok(false),
        WaitEvent::ClientSent => Err(Failed::UnexpectedData),
        WaitEvent::Failed(text) => Err(Failed::Outside(text@)),
    }
}

/// Tells whether a client goes on to wait, or has gone.
pub fn wait_for(event: WaitEvent) -> (res: Result<bool, ServiceError>)
    ensures
        match waited(event) {
            Ok(more) => res == Ok::<bool, ServiceError>(more),
            Err(e) => res matches Err(err) && err@ == e,
        },
{
    match event {
        WaitEvent::Started => Ok(true),
        WaitEvent::Updated => Ok(true),
        WaitEvent::ClientClosed => Ok(false),
        WaitEvent::ClientSent => Err(ServiceError::UnexpectedData),
        WaitEvent::Failed(text) => Err(ServiceError::Outside(text)),
    }
}

/// Follows the devices for a client: the list to send before it waits for the
/// next event, or nothing once the client has gone.
pub fn track_devices(mgr: &ConnectionMgr, standing: &Standing, long: bool, event: WaitEvent) -> (res:
    Result<Option<Vec<u8>>, ServiceError>)
    requires
        mgr.wf(),
    ensures
        match waited(event) {
            Ok(true) => exists|text: Seq<char>| #[trigger]
                is_device_list(text, mgr@, *standing, long) && (res matches Ok(Some(bytes))
                    && bytes@ == framed(encode_utf8(text))),
            Ok(false) => res matches Ok(None),
            Err(e) => res matches Err(err) && err@ == e,
        },
{
    match wait_for(event) {
        Ok(true) => {
            let text = SmartSocket::list_devices(mgr, standing, long);
            let data = text.as_str().as_bytes_vec();
            let bytes = write_protocol_string(data.as_slice());
            assert(is_device_list(text@, mgr@, *standing, long));
            Ok(Some(bytes))
        },
        Ok(false) => Ok(None),
        Err(e) => Err(e),
    }
}

/// Whether a client that waits for a device has what it waits for, must wait
/// on, or cannot get it.
pub open spec fn awaited(all: MgrView, standing: Standing, selector: Selector) -> Result<
    bool,
    Failed,
> {
    match picked(all, standing, selector) {
        Ok(conn) => Ok(conn.banner.device_type == "device"@),
        Err(PickError::NoDevices) => Ok(false),
        Err(PickError::NotFound(_)) => Ok(false),
        Err(e) => Err(Failed::Pick(e)),
    }
}

impl SmartSocket {
    /// Waits for a device for a client: the reply to send once it is there or
    /// the client has gone, or nothing as long as the next event is to be
    /// waited for. `selector` is the choice with which the waiting started.
    pub fn wait_for_device(
        &mut self,
        mgr: &ConnectionMgr,
        standing: &Standing,
        selector: &DeviceSelector,
        event: WaitEvent,
    ) -> (res: Result<Option<Vec<u8>>, ServiceError>)
        requires
            mgr.wf(),
            old(self).device.wf(),
            selector.wf(),
        ensures
            final(self).device.wf(),
            match waited(event) {
                Err(e) => final(self).device@ == old(self).device@ && (res matches Err(err)
                    && err@ == e),
                Ok(false) => final(self).device@ == old(self).device@ && (res matches Ok(
                    Some(bytes),
                ) && bytes@ == status_bytes(Status::Okay)),
                Ok(true) => {
                    &&& final(self).device@ == after_pick(mgr@, *standing, selector@)
                    &&& match awaited(mgr@, *standing, selector@) {
                        Ok(true) => res matches Ok(Some(bytes)) && bytes@ == status_bytes(
                            Status::Okay,
                        ),
                        Ok(false) => res matches Ok(None),
                        Err(e) => res matches Err(err) && err@ == e,
                    }
                },
            },
    {
        match wait_for(event) {
            Ok(true) => {},
            Ok(false) => {
                return Ok(Some(Self::respond(Status::Okay)));
            },
            Err(e) => {
                return Err(e);
            },
        }
        self.device = selector.copy();
        match self.pick_connection(mgr, standing) {
            Ok(conn) => match &conn.banner.device_type {
                DeviceType::Device => Ok(Some(Self::respond(Status::Okay))),
                DeviceType::Other(_) => Ok(None),
            },
            Err(PickDeviceError::NoDevices) => Ok(None),
            Err(PickDeviceError::NotFound(_)) => Ok(None),
            Err(e) => Err(ServiceError::Pick(e)),
        }
    }

    fn pick_present(&mut self, mgr: &ConnectionMgr, standing: &Standing) -> (res: Result<
        Arc<WeakConnection>,
        ServiceError,
    >)
        requires
            mgr.wf(),
            old(self).device.wf(),
        ensures
            final(self).device.wf(),
            final(self).device@ == after_pick(mgr@, *standing, old(self).device@),
            match picked(mgr@, *standing, old(self).device@) {
                Err(e) => res matches Err(err) && err@ == Failed::Pick(e),
                Ok(conn) => if standing.is_gone(conn.id) {
                    res matches Err(err) && err@ == Failed::Disconnected
                } else {
                    res matches Ok(c) && c@ == conn
                },
            },
    {
        let conn = match self.pick_connection(mgr, standing) {
            Ok(conn) => conn,
            Err(e) => {
                return Err(ServiceError::Pick(e));
            },
        };
        match conn.upgrade(standing) {
            Ok(()) => Ok(conn),
            Err(_) => Err(ServiceError::Disconnected),
        }
    }

    fn handle_host_service(
        &mut self,
        mgr: &ConnectionMgr,
        standing: &Standing,
        service: HostService,
    ) -> (res: Result<Step, ServiceError>)
        requires
            mgr.wf(),
            old(self).device.wf(),
            service !is Other,
        ensures
            final(self).device.wf(),
            host_served(service, mgr@, *standing, old(self).device@, final(self).device@, res),
    {
        match service {
            HostService::Version => Ok(Step::Reply(Self::respond_data(Status::Okay, SERVER_VERSION))),
            HostService::IsAdbDaemonRs => Ok(Step::Reply(Self::respond(Status::Okay))),
            HostService::Kill => Ok(Step::Exit(Self::respond(Status::Okay))),
            HostService::Features => match self.pick_present(mgr, standing) {
                Ok(conn) => Ok(
                    Step::Reply(
                        Self::respond_data(Status::Okay, conn.banner.features_str().as_str()),
                    ),
                ),
                Err(e) => Err(e),
            },
            HostService::Devices { long } => {
                let text = SmartSocket::list_devices(mgr, standing, long);
                let res = Ok(Step::Reply(Self::respond_data(Status::Okay, text.as_str())));
                assert(is_device_list(text@, mgr@, *standing, long) && replies(
                    res,
                    status_with(Status::Okay, text@),
                ));
                res
            },
            HostService::TrackDevices { long } => Ok(
                Step::Track { reply: Self::respond(Status::Okay), long },
            ),
            HostService::GetState => match self.pick_connection(mgr, standing) {
                Ok(_) => Ok(Step::Reply(Self::respond_data(Status::Okay, "device"))),
                Err(e) => Err(ServiceError::Pick(e)),
            },
            HostService::WaitForAnyDevice => Ok(
                Step::Wait { reply: Self::respond(Status::Okay), selector: self.device.copy() },
            ),
            HostService::Reconnect => match self.pick_present(mgr, standing) {
                Ok(conn) => Ok(Step::Close(conn, Self::respond_data(Status::Okay, ""))),
                Err(e) => Err(e),
            },
            HostService::ReconnectOffline => Ok(Step::Reply(Self::respond_data(Status::Okay, ""))),
            HostService::Other => Err(ServiceError::NotFound),
        }
    }

    /// Serves a request, after the choice of a device was taken out of it.
    pub fn handle_service(
        &mut self,
        mgr: &ConnectionMgr,
        standing: &Standing,
        forwards: &mut ForwardingMgr,
        finished: &Vec<u64>,
        service: &str,
    ) -> (result: ServiceResult)
        requires
            mgr.wf(),
            old(self).device.wf(),
            old(forwards).wf(),
        ensures
            final(self).device.wf(),
            final(forwards).wf(),
            served(
                service@,
                mgr@,
                *standing,
                finished@,
                old(forwards)@,
                old(self).device@,
                final(forwards)@,
                final(self).device@,
                result.stopped@,
                result.res,
            ),
    {
        let name = match strip_prefix(service, "host:") {
            Some(name) => name,
            None => {
                let res = match self.pick_connection(mgr, standing) {
                    Ok(conn) => Ok(Step::Open(conn)),
                    Err(e) => Err(ServiceError::Pick(e)),
                };
                return ServiceResult { stopped: Vec::new(), res };
            },
        };
        match HostService::named(name) {
            HostService::Other => {
                let done = forwards.handle_forward(self, mgr, standing, finished, name);
                let res = match done.res {
                    Ok(Some(ForwardStep::Reply(bytes))) => Ok(Step::Reply(bytes)),
                    Ok(Some(ForwardStep::Bind(pending))) => Ok(Step::Bind(pending)),
                    Ok(None) => Err(ServiceError::NotFound),
                    Err(e) => Err(e),
                };
                ServiceResult { stopped: done.stopped, res }
            },
            host => {
                let res = self.handle_host_service(mgr, standing, host);
                ServiceResult { stopped: Vec::new(), res }
            },
        }
    }
}

/// Before a service of a device is opened: follows what the request says of
/// reverse forwards, and sees that the connection is still there.
pub fn open_service(
    forwards: &ForwardingMgr,
    reverse: &mut ReverseForwards,
    conn: &WeakConnection,
    standing: &Standing,
    service: &str,
) -> (res: Result<(), ServiceError>)
    requires
        old(reverse).wf(),
    ensures
        final(reverse).wf(),
        match after_reverse(old(reverse)@, service@) {
            Err(e) => (res matches Err(err) && err@ == e) && final(reverse)@ == old(reverse)@,
            Ok(table) => {
                &&& final(reverse)@ == table
                &&& if standing.is_gone(conn.id) {
                    res matches Err(err) && err@ == Failed::Disconnected
                } else {
                    res is Ok
                }
            },
        },
{
    if let Err(e) = forwards.handle_reverse(reverse, service) {
        return Err(e);
    }
    match conn.upgrade(standing) {
        Ok(()) => Ok(()),
        Err(_) => Err(ServiceError::Disconnected),
    }
}

/// What is sent once the service of the device was asked for: a word of
/// success, before anything that the service sends, or the reason why there is
/// none.
pub fn service_opened(opened: bool) -> (reply: Result<Vec<u8>, ServiceError>)
    ensures
        opened ==> (reply matches Ok(bytes) && bytes@ == status_bytes(Status::Okay)),
        !opened ==> (reply matches Err(e) && e@ == Failed::OpenSocket),
{
    if opened {
        Ok(SmartSocket::respond(Status::Okay))
    } else {
        Err(ServiceError::OpenSocket)
    }
}

/// For how many seconds what a client still sends is read at the end.
pub const DRAIN_SECONDS: u64 = 5;

/// What happened while data is passed on between a client and a service of a
/// device.
#[derive(Debug, Clone, Copy, PartialEq, Eq)]
pub enum RelayEvent {
    /// The client was told that the service is open.
    Opened,
    /// All that the device sent has reached the client.
    DeviceEnded,
    /// What the device sends cannot be passed on any further.
    DeviceFailed,
    /// The stream to the client was ended, or could not be.
    ClientClosed,
    /// All that the client sent has reached the device.
    ClientEnded,
    /// What the client sends cannot be passed on any further.
    ClientFailed,
    /// The stream to the device was ended, or could not be.
    DeviceClosed,
}

/// What is done next while data is passed on.
#[derive(Debug, Clone, Copy, PartialEq, Eq)]
pub enum RelayStep {
    /// Pass data on in each direction that has not ended.
    Relay,
    /// End the stream to the client, which can still read what is on its way.
    CloseClient,
    /// End the stream to the device, and pass on what it sends.
    CloseDevice,
    /// Stop. Read the client's stream to its end, for this many seconds at
    /// most, so that it is closed in order; that is all.
    Drain(u64),
}

/// What is done next while data is passed on.
pub open spec fn relayed(event: RelayEvent) -> RelayStep {
    match event {
        RelayEvent::Opened => RelayStep::Relay,
        RelayEvent::DeviceEnded => RelayStep::CloseClient,
        RelayEvent::DeviceFailed => RelayStep::Drain(DRAIN_SECONDS),
        RelayEvent::ClientClosed => RelayStep::Drain(DRAIN_SECONDS),
        RelayEvent::ClientEnded => RelayStep::CloseDevice,
        RelayEvent::ClientFailed => RelayStep::Relay,
        RelayEvent::DeviceClosed => RelayStep::Relay,
    }
}

/// What is done next while data is passed on between a client and a service of
/// a device.
pub fn relay_step(event: RelayEvent) -> (step: RelayStep)
    ensures
        step == relayed(event),
{
    match event {
        RelayEvent::Opened => RelayStep::Relay,
        RelayEvent::DeviceEnded => RelayStep::CloseClient,
        RelayEvent::DeviceFailed => RelayStep::Drain(DRAIN_SECONDS),
        RelayEvent::ClientClosed => RelayStep::Drain(DRAIN_SECONDS),
        RelayEvent::ClientEnded => RelayStep::CloseDevice,
        RelayEvent::ClientFailed => RelayStep::Relay,
        RelayEvent::DeviceClosed => RelayStep::Relay,
    }
}

/// What is sent where a request failed: nothing where the client went away in
/// the middle of it, else the reason.
pub fn failed_reply(error: &ServiceError, client_gone: bool) -> (reply: Option<Vec<u8>>)
    ensures
        match reply {
            Some(bytes) => !client_gone && bytes@ == status_with(
                Status::Fail,
                failure_text(error@),
            ),
            None => client_gone,
        },
{
    if client_gone {
        None
    } else {
        Some(failure_reply(error))
    }
}

/// Only the device ends the relay. What it sends is passed on whatever becomes
/// of the client's own direction; once it has ended, the stream to the client is
/// ended; and only then, or where it could not be passed on, is the rest of the
/// client's stream read.
pub proof fn law_only_the_device_ends_the_relay(event: RelayEvent)
    ensures
        relayed(event) is CloseClient <==> event is DeviceEnded,
        relayed(event) is Drain <==> event is ClientClosed || event is DeviceFailed,
        event is ClientEnded || event is ClientFailed || event is DeviceClosed ==> relayed(
            event,
        ) is Relay || relayed(event) is CloseDevice,
{
}

/// A request to the daemon that is neither known by its name nor about forwards
/// fails, and changes nothing.
pub proof fn law_unknown_request_changes_nothing(
    service: Seq<char>,
    name: Seq<char>,
    all: MgrView,
    standing: Standing,
    finished: Seq<u64>,
    list: Seq<ForwardView>,
    selector: Selector,
    list_after: Seq<ForwardView>,
    selector_after: Selector,
    stopped: Seq<u64>,
    res: Result<Step, ServiceError>,
)
    requires
        stripped(service, "host:"@) == Some(name),
        named_service(name) is Other,
        parsed_command(name) == Ok::<Option<Command>, Failed>(None),
        served(
            service,
            all,
            standing,
            finished,
            list,
            selector,
            list_after,
            selector_after,
            stopped,
            res,
        ),
    ensures
        list_after == list,
        selector_after == selector,
        stopped == Seq::<u64>::empty(),
        fails_with(res, Failed::NotFound),
{
}

/// Only requests about forwards change forwards: every other request leaves
/// them alone and stops no task.
pub proof fn law_other_requests_keep_forwards(
    service: Seq<char>,
    all: MgrView,
    standing: Standing,
    finished: Seq<u64>,
    list: Seq<ForwardView>,
    selector: Selector,
    list_after: Seq<ForwardView>,
    selector_after: Selector,
    stopped: Seq<u64>,
    res: Result<Step, ServiceError>,
)
    requires
        stripped(service, "host:"@) matches Some(name) ==> parsed_command(name) == Ok::<
            Option<Command>,
            Failed,
        >(None) || named_service(name) !is Other,
        served(
            service,
            all,
            standing,
            finished,
            list,
            selector,
            list_after,
            selector_after,
            stopped,
            res,
        ),
    ensures
        list_after == list,
        stopped == Seq::<u64>::empty(),
{
}

/// Each request to the daemon is known by its name.
pub proof fn law_requests_are_named()
    ensures
        named_service("version"@) == (HostService::Version),
        named_service("is-adb-daemon-rs"@) == (HostService::IsAdbDaemonRs),
        named_service("kill"@) == (HostService::Kill),
        named_service("features"@) == (HostService::Features),
        named_service("devices"@) == (HostService::Devices { long: false }),
        named_service("devices-l"@) == (HostService::Devices { long: true }),
        named_service("track-devices"@) == (HostService::TrackDevices { long: false }),
        named_service("track-devices-l"@) == (HostService::TrackDevices { long: true }),
        named_service("get-state"@) == (HostService::GetState),
        named_service("wait-for-any-device"@) == (HostService::WaitForAnyDevice),
        named_service("reconnect"@) == (HostService::Reconnect),
        named_service("reconnect-offline"@) == (HostService::ReconnectOffline),
{
    reveal_strlit("version");
    reveal_strlit("is-adb-daemon-rs");
    reveal_strlit("kill");
    reveal_strlit("features");
    reveal_strlit("devices");
    reveal_strlit("devices-l");
    reveal_strlit("track-devices");
    reveal_strlit("track-devices-l");
    reveal_strlit("get-state");
    reveal_strlit("wait-for-any-device");
    reveal_strlit("reconnect");
    reveal_strlit("reconnect-offline");
    assert("version"@.len() == 7);
    assert("is-adb-daemon-rs"@.len() == 16);
    assert("kill"@.len() == 4);
    assert("features"@.len() == 8);
    assert("devices"@.len() == 7);
    assert("devices-l"@.len() == 9);
    assert("track-devices"@.len() == 13);
    assert("track-devices-l"@.len() == 15);
    assert("get-state"@.len() == 9);
    assert("wait-for-any-device"@.len() == 19);
    assert("reconnect"@.len() == 9);
    assert("reconnect-offline"@.len() == 17);
    assert("devices"@[0] != "version"@[0]);
    assert("get-state"@[0] != "devices-l"@[0]);
    assert("reconnect"@[0] != "devices-l"@[0]);
    assert("reconnect"@[0] != "get-state"@[0]);
}

/// The word of success.
spec fn okay() -> Seq<u8> {
    seq!['O' as u8, 'K' as u8, 'A' as u8, 'Y' as u8]
}

proof fn lemma_okay()
    ensures
        status_bytes(Status::Okay) == okay(),
{
    assert(status_bytes(Status::Okay) =~= okay());
}

proof fn lemma_reply(text: Seq<char>)
    requires
        encode_utf8(text).len() <= 0xffff,
    ensures
        status_with(Status::Okay, text).take(4) == okay(),
        read_text(status_with(Status::Okay, text).skip(4)) == Ok::<_, ProtocolError>(
            (text, status_with(Status::Okay, text).len() - 4),
        ),
{
    let body = framed(encode_utf8(text));
    let reply = status_with(Status::Okay, text);
    assert(reply.take(4) =~= okay());
    assert(reply.skip(4) =~= body);
    law_read_back(text, seq![]);
    assert(body + Seq::<u8>::empty() =~= body);
}

proof fn lemma_plain(name: Seq<char>)
    ensures
        stripped("host:"@ + name, "host:"@) == Some(name),
{
    law_prefix_comes_off("host:"@, name);
}

/// What a client asks of the daemon itself is answered without a device: the
/// version, that it is this daemon, that it ends, and that it has nothing to
/// reconnect. Nothing else changes.
pub proof fn law_the_daemon_answers_for_itself(
    socket: &mut SmartSocket,
    mgr: &ConnectionMgr,
    standing: &Standing,
    forwards: &mut ForwardingMgr,
    finished: &Vec<u64>,
    service: &str,
    result: ServiceResult,
    name: Seq<char>,
)
    requires
        call_ensures(
            SmartSocket::handle_service,
            (socket, mgr, standing, forwards, finished, service),
            result,
        ),
        service@ == "host:"@ + name,
        name == "version"@ || name == "is-adb-daemon-rs"@ || name == "kill"@ || name
            == "reconnect-offline"@,
    ensures
        final(forwards)@ == old(forwards)@,
        result.stopped@.len() == 0,
        final(socket).device@ == old(socket).device@,
        name == "version"@ ==> (result.res matches Ok(Step::Reply(bytes)) && bytes@.take(4)
            == seq!['O' as u8, 'K' as u8, 'A' as u8, 'Y' as u8] && read_text(
            bytes@.skip(4),
        ) == Ok::<_, ProtocolError>(("0029"@, bytes@.len() - 4))),
        name == "is-adb-daemon-rs"@ ==> (result.res matches Ok(Step::Reply(bytes)) && bytes@
            == seq!['O' as u8, 'K' as u8, 'A' as u8, 'Y' as u8]),
        name == "kill"@ ==> (result.res matches Ok(Step::Exit(bytes)) && bytes@
            == seq!['O' as u8, 'K' as u8, 'A' as u8, 'Y' as u8]),
        name == "reconnect-offline"@ ==> (result.res matches Ok(Step::Reply(bytes))
            && bytes@.take(4) == seq!['O' as u8, 'K' as u8, 'A' as u8, 'Y' as u8] && read_text(
            bytes@.skip(4),
        ) == Ok::<_, ProtocolError>((""@, bytes@.len() - 4))),
{
    law_requests_are_named();
    lemma_plain(name);
    lemma_okay();
    lemma_short_literal();
    lemma_reply("0029"@);
    lemma_reply(""@);
    reveal_strlit("version");
    reveal_strlit("is-adb-daemon-rs");
    reveal_strlit("kill");
    reveal_strlit("reconnect-offline");
}

proof fn lemma_short_literal()
    ensures
        encode_utf8("0029"@).len() <= 0xffff,
        encode_utf8(""@).len() <= 0xffff,
        encode_utf8("device"@).len() <= 0xffff,
{
    reveal_strlit("0029");
    reveal_strlit("");
    reveal_strlit("device");
    lemma_ascii("0029"@);
    lemma_ascii(""@);
    lemma_ascii("device"@);
}

proof fn lemma_ascii(text: Seq<char>)
    requires
        forall|i: int| 0 <= i < text.len() ==> '\0' <= #[trigger] text[i] <= '\u{7f}',
    ensures
        encode_utf8(text).len() == text.len(),
{
    vstd::utf8::is_ascii_chars_encode_utf8(text);
}

/// What a client asks about one device is answered for the device that its
/// choice comes down to, and fails where there is none: its features, as the
/// device lists them, and its state. To reconnect closes that connection. Where
/// the connection is gone, its features cannot be told, and it cannot be closed.
pub proof fn law_requests_for_the_picked_device(
    socket: &mut SmartSocket,
    mgr: &ConnectionMgr,
    standing: &Standing,
    forwards: &mut ForwardingMgr,
    finished: &Vec<u64>,
    service: &str,
    result: ServiceResult,
    name: Seq<char>,
    picker: &mut SmartSocket,
    pick: Result<Arc<WeakConnection>, PickDeviceError>,
    features: String,
)
    requires
        call_ensures(
            SmartSocket::handle_service,
            (socket, mgr, standing, forwards, finished, service),
            result,
        ),
        service@ == "host:"@ + name,
        name == "features"@ || name == "get-state"@ || name == "reconnect"@,
        old(picker).device@ == old(socket).device@,
        call_ensures(SmartSocket::pick_connection, (picker, mgr, standing), pick),
        pick matches Ok(conn) ==> call_ensures(Banner::features_str, (&conn.banner,), features),
    ensures
        final(forwards)@ == old(forwards)@,
        result.stopped@.len() == 0,
        final(socket).device@ == final(picker).device@,
        pick matches Err(e) ==> (result.res matches Err(err) && err@ == Failed::Pick(e@)),
        pick matches Ok(conn) ==> {
            &&& standing.is_gone(conn.id) && name != "get-state"@ ==> (result.res matches Err(err)
                && err@ is Disconnected)
            &&& name == "get-state"@ ==> (result.res matches Ok(Step::Reply(bytes))
                && bytes@.take(4) == seq!['O' as u8, 'K' as u8, 'A' as u8, 'Y' as u8] && read_text(
                bytes@.skip(4),
            ) == Ok::<_, ProtocolError>(("device"@, bytes@.len() - 4)))
            &&& name == "features"@ && !standing.is_gone(conn.id) && encode_utf8(
                features@,
            ).len() <= 0xffff ==> (result.res matches Ok(Step::Reply(bytes)) && bytes@.take(4)
                == seq!['O' as u8, 'K' as u8, 'A' as u8, 'Y' as u8] && read_text(
                bytes@.skip(4),
            ) == Ok::<_, ProtocolError>((features@, bytes@.len() - 4)))
            &&& name == "reconnect"@ && !standing.is_gone(conn.id) ==> (result.res matches Ok(
                Step::Close(closed, bytes),
            ) && closed@ == conn@ && bytes@.take(4) == seq!['O' as u8, 'K' as u8, 'A' as u8, 'Y' as u8]
                && read_text(bytes@.skip(4)) == Ok::<_, ProtocolError>((""@, bytes@.len() - 4)))
        },
{
    law_requests_are_named();
    lemma_plain(name);
    lemma_short_literal();
    lemma_reply("device"@);
    lemma_reply(""@);
    if encode_utf8(features@).len() <= 0xffff {
        lemma_reply(features@);
    }
    reveal_strlit("features");
    reveal_strlit("get-state");
    reveal_strlit("reconnect");
    assert("features"@[0] != "get-state"@[0]);
}

/// Whether the result is a word of success and the text, as a client reads it.
pub open spec fn tells(res: Result<Step, ServiceError>, text: Seq<char>) -> bool {
    &&& res matches Ok(Step::Reply(bytes))
    &&& bytes@.take(4) == seq!['O' as u8, 'K' as u8, 'A' as u8, 'Y' as u8]
    &&& encode_utf8(text).len() <= 0xffff ==> read_text(bytes@.skip(4)) == Ok::<_, ProtocolError>(
        (text, bytes@.len() - 4),
    )
}

/// A client that asks for the devices gets the list of the open ones, short or
/// long as it asked, and one that wants to follow them is told that it will.
pub proof fn law_devices_are_told(
    socket: &mut SmartSocket,
    mgr: &ConnectionMgr,
    standing: &Standing,
    forwards: &mut ForwardingMgr,
    finished: &Vec<u64>,
    service: &str,
    result: ServiceResult,
    name: Seq<char>,
)
    requires
        call_ensures(
            SmartSocket::handle_service,
            (socket, mgr, standing, forwards, finished, service),
            result,
        ),
        service@ == "host:"@ + name,
        name == "devices"@ || name == "devices-l"@ || name == "track-devices"@ || name
            == "track-devices-l"@,
    ensures
        final(forwards)@ == old(forwards)@,
        result.stopped@.len() == 0,
        final(socket).device@ == old(socket).device@,
        name == "devices"@ ==> exists|text: Seq<char>| #[trigger]
            is_device_list(text, mgr@, *standing, false) && tells(result.res, text),
        name == "devices-l"@ ==> exists|text: Seq<char>| #[trigger]
            is_device_list(text, mgr@, *standing, true) && tells(result.res, text),
        name == "track-devices"@ ==> (result.res matches Ok(Step::Track { reply, long }) && !long
            && reply@ == seq!['O' as u8, 'K' as u8, 'A' as u8, 'Y' as u8]),
        name == "track-devices-l"@ ==> (result.res matches Ok(Step::Track { reply, long }) && long
            && reply@ == seq!['O' as u8, 'K' as u8, 'A' as u8, 'Y' as u8]),
{
    law_requests_are_named();
    lemma_plain(name);
    lemma_okay();
    reveal_strlit("devices");
    reveal_strlit("devices-l");
    reveal_strlit("track-devices");
    reveal_strlit("track-devices-l");
    if name == "devices"@ || name == "devices-l"@ {
        let long = name == "devices-l"@;
        let text = choose|text: Seq<char>| #[trigger]
            is_device_list(text, mgr@, *standing, long) && replies(
                result.res,
                status_with(Status::Okay, text),
            );
        if encode_utf8(text).len() <= 0xffff {
            lemma_reply(text);
        }
        let reply = status_with(Status::Okay, text);
        assert(reply.take(4) =~= okay());
        assert(is_device_list(text, mgr@, *standing, long) && tells(result.res, text));
    }
}

/// A client that waits for a device is told that it will, and waits for the
/// device that it had chosen.
pub proof fn law_waiting_starts_with_the_choice(
    socket: &mut SmartSocket,
    mgr: &ConnectionMgr,
    standing: &Standing,
    forwards: &mut ForwardingMgr,
    finished: &Vec<u64>,
    service: &str,
    result: ServiceResult,
)
    requires
        call_ensures(
            SmartSocket::handle_service,
            (socket, mgr, standing, forwards, finished, service),
            result,
        ),
        service@ == "host:wait-for-any-device"@,
    ensures
        final(forwards)@ == old(forwards)@,
        result.stopped@.len() == 0,
        final(socket).device@ == old(socket).device@,
        result.res matches Ok(Step::Wait { reply, selector }) && selector@ == old(socket).device@
            && reply@ == seq!['O' as u8, 'K' as u8, 'A' as u8, 'Y' as u8],
{
    law_requests_are_named();
    reveal_strlit("host:");
    reveal_strlit("wait-for-any-device");
    reveal_strlit("host:wait-for-any-device");
    assert("host:wait-for-any-device"@ =~= "host:"@ + "wait-for-any-device"@);
    lemma_plain("wait-for-any-device"@);
    lemma_okay();
}

/// A request that is not for the daemon is for a service of the device that the
/// choice comes down to, and fails where there is none.
pub proof fn law_services_of_devices_are_opened(
    socket: &mut SmartSocket,
    mgr: &ConnectionMgr,
    standing: &Standing,
    forwards: &mut ForwardingMgr,
    finished: &Vec<u64>,
    service: &str,
    result: ServiceResult,
    picker: &mut SmartSocket,
    pick: Result<Arc<WeakConnection>, PickDeviceError>,
)
    requires
        call_ensures(
            SmartSocket::handle_service,
            (socket, mgr, standing, forwards, finished, service),
            result,
        ),
        !has_prefix(service@, "host:"@),
        old(picker).device@ == old(socket).device@,
        call_ensures(SmartSocket::pick_connection, (picker, mgr, standing), pick),
    ensures
        final(forwards)@ == old(forwards)@,
        result.stopped@.len() == 0,
        final(socket).device@ == final(picker).device@,
        match pick {
            Ok(conn) => result.res matches Ok(Step::Open(c)) && c@ == conn@,
            Err(e) => result.res matches Err(err) && err@ == Failed::Pick(e@),
        },
{

}

/// A request to the daemon about forwards is served as the forwards say: what
/// becomes of them and of the choice of device, which listeners stop, and what is
/// to be done.
pub proof fn law_forward_requests_reach_the_forwards(
    socket: &mut SmartSocket,
    mgr: &ConnectionMgr,
    standing: &Standing,
    forwards: &mut ForwardingMgr,
    finished: &Vec<u64>,
    service: &str,
    result: ServiceResult,
    name: &str,
    same: &mut ForwardingMgr,
    chooser: &mut SmartSocket,
    direct: ForwardResult,
)
    requires
        call_ensures(
            SmartSocket::handle_service,
            (socket, mgr, standing, forwards, finished, service),
            result,
        ),
        service@ == "host:"@ + name@,
        has_prefix(name@, "forward:"@) || has_prefix(name@, "killforward:"@) || name@
            == "killforward-all"@ || name@ == "list-forward"@,
        *old(same) == *old(forwards),
        *old(chooser) == *old(socket),
        call_ensures(
            ForwardingMgr::handle_forward,
            (same, chooser, mgr, standing, finished, name),
            direct,
        ),
    ensures
        final(forwards)@ == final(same)@,
        final(socket).device@ == final(chooser).device@,
        result.stopped@ == direct.stopped@,
        match direct.res {
            Ok(Some(ForwardStep::Reply(bytes))) => result.res matches Ok(Step::Reply(b)) && b@
                == bytes@,
            Ok(Some(ForwardStep::Bind(p))) => result.res matches Ok(Step::Bind(q)) && q.port
                == p.port && q.conn@ == p.conn@ && q.remote@ == p.remote@,
            Ok(None) => false,
            Err(e) => result.res matches Err(err) && err@ == e@,
        },
{
    lemma_plain(name@);
    lemma_forward_names(name@);
}

proof fn lemma_forward_names(name: Seq<char>)
    requires
        has_prefix(name, "forward:"@) || has_prefix(name, "killforward:"@) || name
            == "killforward-all"@ || name == "list-forward"@,
    ensures
        named_service(name) is Other,
        parsed_command(name) != Ok::<Option<Command>, Failed>(None),
{
    reveal_strlit("version");
    reveal_strlit("is-adb-daemon-rs");
    reveal_strlit("kill");
    reveal_strlit("features");
    reveal_strlit("devices");
    reveal_strlit("devices-l");
    reveal_strlit("track-devices");
    reveal_strlit("track-devices-l");
    reveal_strlit("get-state");
    reveal_strlit("wait-for-any-device");
    reveal_strlit("reconnect");
    reveal_strlit("reconnect-offline");
    reveal_strlit("forward:");
    reveal_strlit("killforward:");
    reveal_strlit("killforward-all");
    reveal_strlit("list-forward");
    assert("version"@.len() == 7);
    assert("is-adb-daemon-rs"@.len() == 16);
    assert("kill"@.len() == 4);
    assert("features"@.len() == 8);
    assert("devices"@.len() == 7);
    assert("devices-l"@.len() == 9);
    assert("track-devices"@.len() == 13);
    assert("track-devices-l"@.len() == 15);
    assert("get-state"@.len() == 9);
    assert("wait-for-any-device"@.len() == 19);
    assert("reconnect"@.len() == 9);
    assert("reconnect-offline"@.len() == 17);
    assert("killforward-all"@.len() == 15);
    assert("list-forward"@.len() == 12);
    assert("features"@[1] == 'e');
    if has_prefix(name, "forward:"@) {
        assert(name.take(8)[0] == 'f' && name.take(8)[1] == 'o');
    }
    if has_prefix(name, "killforward:"@) {
        assert(name.take(12)[0] == 'k' && name.take(12)[4] == 'f');
    }
}

/// A request to the daemon that has none of the names, and is not about forwards,
/// is not found, and changes nothing.
pub proof fn law_unknown_requests_are_not_found(
    socket: &mut SmartSocket,
    mgr: &ConnectionMgr,
    standing: &Standing,
    forwards: &mut ForwardingMgr,
    finished: &Vec<u64>,
    service: &str,
    result: ServiceResult,
    name: Seq<char>,
)
    requires
        call_ensures(
            SmartSocket::handle_service,
            (socket, mgr, standing, forwards, finished, service),
            result,
        ),
        service@ == "host:"@ + name,
        name != "version"@,
        name != "is-adb-daemon-rs"@,
        name != "kill"@,
        name != "features"@,
        name != "devices"@,
        name != "devices-l"@,
        name != "track-devices"@,
        name != "track-devices-l"@,
        name != "get-state"@,
        name != "wait-for-any-device"@,
        name != "reconnect"@,
        name != "reconnect-offline"@,
        !has_prefix(name, "forward:"@),
        !has_prefix(name, "killforward:"@),
        name != "killforward-all"@,
        name != "list-forward"@,
    ensures
        final(forwards)@ == old(forwards)@,
        result.stopped@.len() == 0,
        final(socket).device@ == old(socket).device@,
        result.res matches Err(e) && e@ is NotFound,
{
    lemma_plain(name);
}

/// A client that waits for a device is told as soon as the device that its choice
/// comes down to is one that has booted. It waits on where there is no such
/// device yet, and fails where its choice cannot be followed.
pub proof fn law_waiting_ends_with_the_device(
    socket: &mut SmartSocket,
    mgr: &ConnectionMgr,
    standing: &Standing,
    selector: &DeviceSelector,
    event: WaitEvent,
    res: Result<Option<Vec<u8>>, ServiceError>,
    picker: &mut SmartSocket,
    pick: Result<Arc<WeakConnection>, PickDeviceError>,
)
    requires
        call_ensures(
            SmartSocket::wait_for_device,
            (socket, mgr, standing, selector, event),
            res,
        ),
        event is Started || event is Updated,
        old(picker).device@ == selector@,
        call_ensures(SmartSocket::pick_connection, (picker, mgr, standing), pick),
    ensures
        final(socket).device@ == final(picker).device@,
        match pick {
            Ok(conn) => if conn@.banner.device_type == "device"@ {
                res matches Ok(Some(bytes)) && bytes@ == seq![
                    'O' as u8,
                    'K' as u8,
                    'A' as u8,
                    'Y' as u8,
                ]
            } else {
                res matches Ok(None)
            },
            Err(PickDeviceError::NoDevices) => res matches Ok(None),
            Err(PickDeviceError::NotFound(_)) => res matches Ok(None),
            Err(e) => res matches Err(err) && err@ == Failed::Pick(e@),
        },
{
    lemma_okay();
}

/// A client that goes away while it waits ends the waiting, one that sends
/// something while it should wait is at fault, and what else goes wrong is told
/// in its own words. The choice of device stays.
pub proof fn law_waiting_ends_with_the_client(
    socket: &mut SmartSocket,
    mgr: &ConnectionMgr,
    standing: &Standing,
    selector: &DeviceSelector,
    event: WaitEvent,
    res: Result<Option<Vec<u8>>, ServiceError>,
    long: bool,
    followed: Result<Option<Vec<u8>>, ServiceError>,
)
    requires
        call_ensures(
            SmartSocket::wait_for_device,
            (socket, mgr, standing, selector, event),
            res,
        ),
        call_ensures(track_devices, (mgr, standing, long, event), followed),
        !(event is Started) && !(event is Updated),
    ensures
        final(socket).device@ == old(socket).device@,
        match event {
            WaitEvent::ClientClosed => (res matches Ok(Some(bytes)) && bytes@ == seq![
                'O' as u8,
                'K' as u8,
                'A' as u8,
                'Y' as u8,
            ]) && followed == Ok::<Option<Vec<u8>>, ServiceError>(None),
            WaitEvent::ClientSent => (res matches Err(e) && e@ is UnexpectedData) && (
            followed matches Err(e) && e@ is UnexpectedData),
            WaitEvent::Failed(text) => (res matches Err(e) && e@ == Failed::Outside(text@)) && (
            followed matches Err(e) && e@ == Failed::Outside(text@)),
            _ => false,
        },
{
    lemma_okay();
}

/// A client that follows the devices gets the whole list at first, and again
/// whenever a device came or went.
pub proof fn law_followers_get_every_list(
    mgr: &ConnectionMgr,
    standing: &Standing,
    long: bool,
    event: WaitEvent,
    res: Result<Option<Vec<u8>>, ServiceError>,
)
    requires
        call_ensures(track_devices, (mgr, standing, long, event), res),
        event is Started || event is Updated,
    ensures
        res matches Ok(Some(bytes)) && exists|text: Seq<char>| #[trigger]
            is_device_list(text, mgr@, *standing, long) && (encode_utf8(text).len() <= 0xffff
                ==> read_text(bytes@) == Ok::<_, ProtocolError>((text, bytes@.len() as int))),
{
    let text = choose|text: Seq<char>| #[trigger]
        is_device_list(text, mgr@, *standing, long) && (res matches Ok(Some(bytes)) && bytes@
            == framed(encode_utf8(text)));
    let body = framed(encode_utf8(text));
    if encode_utf8(text).len() <= 0xffff {
        law_read_back(text, seq![]);
        assert(body + Seq::<u8>::empty() =~= body);
    }
    assert(is_device_list(text, mgr@, *standing, long));
}

/// Before a service is opened, what the request says of reverse forwards is
/// followed, and where that fails, or the connection is gone, it is not opened.
pub proof fn law_reverse_requests_are_followed_first(
    forwards: &ForwardingMgr,
    reverse: &mut ReverseForwards,
    conn: &WeakConnection,
    standing: &Standing,
    service: &str,
    res: Result<(), ServiceError>,
    same: &mut ReverseForwards,
    followed: Result<(), ServiceError>,
)
    requires
        call_ensures(open_service, (forwards, reverse, conn, standing, service), res),
        *old(same) == *old(reverse),
        call_ensures(ForwardingMgr::handle_reverse, (forwards, same, service), followed),
    ensures
        final(reverse)@ == final(same)@,
        res is Ok <==> followed is Ok && !standing.is_gone(conn.id),
        followed matches Err(e) ==> (res matches Err(err) && err@ == e@),
        followed is Ok && standing.is_gone(conn.id) ==> (res matches Err(err)
            && err@ is Disconnected),
{
}

/// A client is told why its request failed, unless it went away in the middle of
/// it, and told that a service is open before anything that the service sends.
pub proof fn law_clients_are_told(
    error: &ServiceError,
    gone: bool,
    reply: Option<Vec<u8>>,
    text: String,
    opened: Result<Vec<u8>, ServiceError>,
    unopened: Result<Vec<u8>, ServiceError>,
)
    requires
        call_ensures(failed_reply, (error, gone), reply),
        call_ensures(ServiceError::text, (error,), text),
        encode_utf8(text@).len() <= 0xffff,
        call_ensures(service_opened, (true,), opened),
        call_ensures(service_opened, (false,), unopened),
    ensures
        reply is None <==> gone,
        reply matches Some(bytes) ==> bytes@.take(4) == seq![
            'F' as u8,
            'A' as u8,
            'I' as u8,
            'L' as u8,
        ] && read_text(bytes@.skip(4)) == Ok::<_, ProtocolError>((text@, bytes@.len() - 4)),
        opened matches Ok(bytes) && bytes@ == seq!['O' as u8, 'K' as u8, 'A' as u8, 'Y' as u8],
        unopened matches Err(e) && e@ is OpenSocket,
{
    lemma_okay();
    let body = framed(encode_utf8(text@));
    let fail = status_with(Status::Fail, text@);
    assert(fail.take(4) =~= seq![0x46u8, 0x41, 0x49, 0x4c]);
    assert(fail.skip(4) =~= body);
    law_read_back(text@, seq![]);
    assert(body + Seq::<u8>::empty() =~= body);
}

/// What is done while data is passed on: it is passed on from the start and
/// whatever becomes of the client's direction, the end of which is passed on to
/// the device; and when the device's direction ends, that is passed on to the
/// client, whose stream is then read for five seconds at most.
pub proof fn law_data_is_passed_on(event: RelayEvent, step: RelayStep)
    requires
        call_ensures(relay_step, (event,), step),
    ensures
        event is Opened || event is ClientFailed || event is DeviceClosed <==> step is Relay,
        event is ClientEnded <==> step is CloseDevice,
        event is DeviceEnded <==> step is CloseClient,
        event is DeviceFailed || event is ClientClosed <==> step == RelayStep::Drain(5),
{
}

/// A client goes on to wait while devices come and go, and until it closes its
/// side; it must say nothing meanwhile.
pub proof fn law_waiting_goes_on(event: WaitEvent, res: Result<bool, ServiceError>)
    requires
        call_ensures(wait_for, (event,), res),
    ensures
        event is Started || event is Updated <==> res == Ok::<bool, ServiceError>(true),
        event is ClientClosed <==> res == Ok::<bool, ServiceError>(false),
        event is ClientSent ==> (res matches Err(e) && e@ is UnexpectedData),
        event matches WaitEvent::Failed(text) ==> (res matches Err(e) && e@ == Failed::Outside(
            text@,
        )),
{
}

/// A name that a request has is read as that request.
pub proof fn law_names_are_read(name: &str, service: HostService)
    requires
        call_ensures(HostService::named, (name,), service),
    ensures
        name@ == "version"@ ==> service is Version,
        name@ == "is-adb-daemon-rs"@ ==> service is IsAdbDaemonRs,
        name@ == "kill"@ ==> service is Kill,
        name@ == "features"@ ==> service is Features,
        name@ == "devices"@ ==> service == (HostService::Devices { long: false }),
        name@ == "devices-l"@ ==> service == (HostService::Devices { long: true }),
        name@ == "track-devices"@ ==> service == (HostService::TrackDevices { long: false }),
        name@ == "track-devices-l"@ ==> service == (HostService::TrackDevices { long: true }),
        name@ == "get-state"@ ==> service is GetState,
        name@ == "wait-for-any-device"@ ==> service is WaitForAnyDevice,
        name@ == "reconnect"@ ==> service is Reconnect,
        name@ == "reconnect-offline"@ ==> service is ReconnectOffline,
        !(service is Other) ==> {
            ||| name@ == "version"@
            ||| name@ == "is-adb-daemon-rs"@
            ||| name@ == "kill"@
            ||| name@ == "features"@
            ||| name@ == "devices"@
            ||| name@ == "devices-l"@
            ||| name@ == "track-devices"@
            ||| name@ == "track-devices-l"@
            ||| name@ == "get-state"@
            ||| name@ == "wait-for-any-device"@
            ||| name@ == "reconnect"@
            ||| name@ == "reconnect-offline"@
        },
{
    law_requests_are_named();
}

} // verus!
