//! A device connection: the sockets that run over it, and how it is opened.

use dashmap::DashMap;
use std::sync::Arc;
use vstd::prelude::*;
use vstd::utf8::{decode_utf8, encode_utf8, valid_utf8};
use crate::banner::{Banner, BannerView};
use crate::error::{Detail, Error, ErrorKind};
use crate::le::{from_le32, law_le32_reads_back, le32, write_u32};
use crate::message::{message, AdbCommand, AdbMessage, MessageView};
use crate::socket::{
    after_message, check_transport_error, failed_transport, flush_outcome, fresh_socket, overflows,
    read_outcome, shutdown_outcome, write_outcome, Delivery, Flush, PollFlush, PollRead,
    PollShutdown, PollWrite, SocketBackend, SocketView,
};
use crate::tables::{id_get, id_insert, id_remove, id_retain_none, id_table, new_id_table};

verus! {

/// How much the device may send into a socket before it is acknowledged.
pub const DELAYED_ACK_BYTES: u32 = 0x200_0000;

/// A socket, as the side that uses it holds it.
#[derive(Debug)]
pub struct Socket {
    pub local_id: u32,
    pub slot: usize,
}

/// A socket that the device wants to open.
#[derive(Debug)]
pub struct PendingSocket {
    pub remote_id: u32,
    pub acknowledged: u32,
    pub service: String,
}

impl PendingSocket {
    /// The service that the device asks for.
    pub fn service(&self) -> (service: &str)
        ensures
            service@ == self.service@,
    {
        self.service.as_str()
    }

    /// Takes the socket on; gives it and the message that tells the device.
    pub fn accept(self, backend: &mut TransportBackend) -> (res: (Socket, AdbMessage))
        requires
            old(backend).wf(),
        ensures
            final(backend).wf(),
            live(final(backend)@, res.0),
            after_adding(
                old(backend)@,
                final(backend)@,
                res.0,
                self.remote_id,
                self.acknowledged,
            ),
            res.1@ == message(
                AdbCommand::OKAY,
                res.0.local_id,
                self.remote_id,
                le32(DELAYED_ACK_BYTES),
            ),
    {
        let socket = backend.add_socket(self.remote_id, self.acknowledged);
        let msg = AdbMessage::new(
            AdbCommand::OKAY,
            socket.local_id,
            self.remote_id,
            write_u32(DELAYED_ACK_BYTES),
        );
        (socket, msg)
    }

    /// The message that refuses the socket.
    pub fn close(self) -> (msg: AdbMessage)
        ensures
            msg@ == message(AdbCommand::CLSE, 0, self.remote_id, seq![]),
    {
        let empty: Vec<u8> = Vec::new();
        assert(empty@ =~= Seq::<u8>::empty());
        AdbMessage::new(AdbCommand::CLSE, 0, self.remote_id, empty)
    }
}

/// What a message from the device led to.
#[derive(Debug)]
pub enum Inbound {
    /// The device wants to open a socket.
    Open(PendingSocket),
    /// The message went to the socket of this number.
    Delivered(u32, Delivery),
    /// There is no socket of this number.
    NotFound(u32),
    /// The message is of no interest.
    Ignored,
}

/// What became of an error.
#[derive(Debug)]
pub struct Failure {
    /// The error to hand on.
    pub error: Error,
    /// Whether it is the first: then everyone who waits has to be woken, and
    /// the connection dropped.
    pub first: bool,
}

/// The state of a device connection.
pub struct TransportBackend {
    pub last_id: u32,
    pub error: Option<Arc<Error>>,
    pub sockets: DashMap<u64, u64>,
    pub slots: Vec<Option<SocketBackend>>,
    pub banner: Banner,
}

/// What a device connection is: the sockets that messages find by number
/// (`routes`), and all sockets that are in use (`slots`).
#[verifier::ext_equal]
pub struct TransportView {
    pub last_id: u32,
    pub error: Option<Arc<Error>>,
    pub routes: Map<u64, u64>,
    pub slots: Seq<Option<SocketView>>,
    pub banner: BannerView,
}

/// What a slot holds.
pub open spec fn slot_view(slot: Option<SocketBackend>) -> Option<SocketView> {
    match slot {
        Some(s) => Some(s@),
        None => None,
    }
}

/// What each slot holds.
pub open spec fn slot_views(slots: Seq<Option<SocketBackend>>) -> Seq<Option<SocketView>> {
    Seq::new(slots.len(), |i: int| slot_view(slots[i]))
}

impl View for TransportBackend {
    type V = TransportView;

    open spec fn view(&self) -> TransportView {
        TransportView {
            last_id: self.last_id,
            error: self.error,
            routes: id_table(self.sockets),
            slots: slot_views(self.slots@),
            banner: self.banner@,
        }
    }
}

/// Whether the number leads to the slot in which the socket of that number is.
pub open spec fn leads_home(t: TransportView, id: u64) -> bool {
    &&& t.routes[id] < t.slots.len()
    &&& t.slots[t.routes[id] as int] matches Some(s) && s.local_id == id
}

/// Whether every number leads to the socket of that number.
pub open spec fn routed(t: TransportView) -> bool {
    forall|id: u64| #[trigger] t.routes.contains_key(id) ==> leads_home(t, id)
}

/// Whether the socket is in use.
pub open spec fn live(t: TransportView, socket: Socket) -> bool {
    &&& socket.slot < t.slots.len()
    &&& t.slots[socket.slot as int] matches Some(s) && s.local_id == socket.local_id
}

/// The socket that is in use.
pub open spec fn state_of(t: TransportView, socket: Socket) -> SocketView {
    t.slots[socket.slot as int]->0
}

/// The connection with another state of this socket.
pub open spec fn with_socket(t: TransportView, socket: Socket, s: SocketView) -> TransportView {
    TransportView { slots: t.slots.update(socket.slot as int, Some(s)), ..t }
}

/// Whether everything is as it was but for the state of this socket.
pub open spec fn only_changes(before: TransportView, after: TransportView, socket: Socket) -> bool {
    &&& live(after, socket)
    &&& after == with_socket(before, socket, state_of(after, socket))
}

/// The service in the payload of a message that opens a socket: without the
/// zero at its end, if it has one.
pub open spec fn requested_service(payload: Seq<u8>) -> Seq<u8> {
    if payload.len() > 0 && payload.last() == 0 {
        payload.drop_last()
    } else {
        payload
    }
}

/// Whether the message is for a socket that exists.
pub open spec fn for_socket(msg: MessageView) -> bool {
    msg.header.command is OKAY || msg.header.command is WRTE || msg.header.command is CLSE
}

/// The socket to which the message goes.
pub open spec fn addressee(t: TransportView, msg: MessageView) -> SocketView {
    t.slots[t.routes[msg.header.arg1 as u64] as int]->0
}

/// The connection after its socket `id` took in the message: the number is
/// given up once the socket is closed.
pub open spec fn after_delivery(t: TransportView, id: u64, s: SocketView) -> TransportView {
    TransportView {
        slots: t.slots.update(t.routes[id] as int, Some(s)),
        routes: if s.closed {
            t.routes.remove(id)
        } else {
            t.routes
        },
        ..t
    }
}

/// The connection after a new socket was put into `slot`.
pub open spec fn after_adding(
    before: TransportView,
    after: TransportView,
    socket: Socket,
    remote_id: u32,
    acknowledged: u32,
) -> bool {
    let slot = socket.slot as int;
    &&& socket.local_id == before.last_id
    &&& after.last_id == (before.last_id + 1) % 0x1_0000_0000
    &&& after.error == before.error
    &&& after.banner == before.banner
    &&& after.routes == before.routes.insert(socket.local_id as u64, socket.slot as u64)
    &&& slot < before.slots.len() ==> before.slots[slot] is None
    &&& slot <= before.slots.len()
    &&& after.slots == if slot < before.slots.len() {
        before.slots.update(
            slot,
            Some(fresh_socket(socket.local_id, remote_id, acknowledged)),
        )
    } else {
        before.slots.push(Some(fresh_socket(socket.local_id, remote_id, acknowledged)))
    }
}

/// The connection after an error: the first one stays, and from then on no
/// number leads to a socket.
pub open spec fn after_error(t: TransportView, err: Error) -> TransportView {
    if t.error is None {
        TransportView { error: Some(Arc::new(err)), routes: Map::empty(), ..t }
    } else {
        t
    }
}

impl TransportBackend {
    /// Whether the connection is in order.
    pub open spec fn wf(self) -> bool {
        &&& routed(self@)
        &&& forall|i: int|
            0 <= i < self.slots@.len() ==> (#[trigger] self.slots@[i] matches Some(s) ==> s.wf())
    }

    /// A connection over which no socket runs.
    pub fn new(banner: Banner) -> (t: TransportBackend)
        ensures
            t.wf(),
            t.banner == banner,
            t@ == (TransportView {
                last_id: 1,
                error: None,
                routes: Map::empty(),
                slots: seq![],
                banner: banner@,
            }),
    {
        let t = TransportBackend {
            last_id: 1,
            error: None,
            sockets: new_id_table(),
            slots: Vec::new(),
            banner,
        };
        assert(t@.slots =~= seq![]);
        t
    }

    /// Fails if the connection has failed.
    pub fn check_error(&self) -> (res: Result<(), Error>)
        ensures
            match self@.error {
                Some(e) => res == Err::<(), Error>(failed_transport(e)),
                None => res is Ok,
            },
    {
        check_transport_error(&self.error)
    }

    /// Takes note of an error. The first one stays; from then on no number
    /// leads to a socket.
    pub fn on_error(&mut self, err: Error) -> (failure: Failure)
        requires
            old(self).wf(),
        ensures
            final(self).wf(),
            failure.error == failed_transport(Arc::new(err)),
            failure.first == (old(self)@.error is None),
            final(self)@ == after_error(old(self)@, err),
    {
        let err = Arc::new(err);
        let first = self.error.is_none();
        if first {
            self.error = Some(err.clone());
            id_retain_none(&mut self.sockets);
        }
        Failure { error: Error::new(ErrorKind::TransportError(err)), first }
    }

    /// The first slot that is not in use.
    fn free_slot(&self) -> (slot: usize)
        ensures
            slot <= self.slots@.len(),
            slot < self.slots@.len() ==> self.slots@[slot as int] is None,
    {
        let mut i: usize = 0;
        while i < self.slots.len()
            invariant
                i <= self.slots@.len(),
            decreases self.slots@.len() - i,
        {
            if self.slots[i].is_none() {
                return i;
            }
            i += 1;
        }
        i
    }

    /// Starts a socket under the next number.
    fn add_socket(&mut self, remote_id: u32, acknowledged: u32) -> (socket: Socket)
        requires
            old(self).wf(),
        ensures
            final(self).wf(),
            live(final(self)@, socket),
            after_adding(old(self)@, final(self)@, socket, remote_id, acknowledged),
    {
        let ghost before = self@;
        let local_id = self.last_id;
        self.last_id = self.last_id.wrapping_add(1);
        let slot = self.free_slot();
        let state = SocketBackend::new(local_id, remote_id, acknowledged);
        let ghost fresh = Some(state@);
        let ghost old_slots = self.slots@;
        if slot < self.slots.len() {
            self.slots[slot] = Some(state);
            assert(self@.slots =~= before.slots.update(slot as int, fresh));
        } else {
            self.slots.push(Some(state));
            assert(self@.slots =~= before.slots.push(fresh));
        }
        id_insert(&mut self.sockets, local_id as u64, slot as u64);
        proof {
            assert forall|id: u64| #[trigger] self@.routes.contains_key(id) implies leads_home(
                self@,
                id,
            ) by {
                if id != local_id {
                    assert(before.routes.contains_key(id));
                    assert(leads_home(before, id));
                }
            }
        }
        Socket { local_id, slot }
    }

    /// Whether `handle_message` can take the message: the socket that it is
    /// for does not count acknowledged bytes further than it can.
    pub fn can_handle(&self, msg: &AdbMessage) -> (yes: bool)
        requires
            self.wf(),
        ensures
            yes == !(for_socket(msg@) && self@.routes.contains_key(msg.header.arg1 as u64)
                && overflows(addressee(self@, msg@), msg@)),
    {
        match msg.header.command {
            AdbCommand::OKAY | AdbCommand::WRTE | AdbCommand::CLSE => {
                match id_get(&self.sockets, msg.header.arg1 as u64) {
                    Some(slot) => {
                        assert(leads_home(self@, msg.header.arg1 as u64));
                        assert(slot < self.slots.len());
                        let slot = slot as usize;
                        assert(self@.slots[slot as int] is Some);
                        match &self.slots[slot] {
                            Some(socket) => socket.can_handle(msg),
                            None => true,
                        }
                    },
                    None => true,
                }
            },
            _ => true,
        }
    }

    /// Takes in a message from the device.
    pub fn handle_message(&mut self, msg: AdbMessage) -> (res: Result<Inbound, Error>)
        requires
            old(self).wf(),
            !(for_socket(msg@) && old(self)@.routes.contains_key(msg.header.arg1 as u64)
                && overflows(addressee(old(self)@, msg@), msg@)),
        ensures
            final(self).wf(),
            match msg.header.command {
                AdbCommand::OPEN => {
                    let service = requested_service(msg.payload@);
                    &&& final(self)@ == old(self)@
                    &&& if valid_utf8(service) {
                        &&& res matches Ok(Inbound::Open(p))
                        &&& p.remote_id == msg.header.arg0
                        &&& p.acknowledged == msg.header.arg1
                        &&& p.service@ == decode_utf8(service)
                    } else {
                        res == Err::<Inbound, Error>(
                            Error { kind: ErrorKind::InvalidData, detail: Detail::ServiceNotUtf8 },
                        )
                    }
                },
                AdbCommand::OKAY | AdbCommand::WRTE | AdbCommand::CLSE => {
                    let id = msg.header.arg1;
                    if old(self)@.routes.contains_key(id as u64) {
                        match after_message(addressee(old(self)@, msg@), msg@) {
                            Ok(s) => {
                                &&& final(self)@ == after_delivery(old(self)@, id as u64, s)
                                &&& res == Ok::<Inbound, Error>(
                                    Inbound::Delivered(
                                        id,
                                        Delivery {
                                            closed: s.closed,
                                            wake_reader: !(msg.header.command is OKAY),
                                            wake_writer: !(msg.header.command is WRTE),
                                        },
                                    ),
                                )
                            },
                            Err(e) => res == Err::<Inbound, Error>(e) && final(self)@ == old(self)@,
                        }
                    } else {
                        res == Ok::<Inbound, Error>(Inbound::NotFound(id)) && final(self)@ == old(
                            self,
                        )@
                    }
                },
                _ => res == Ok::<Inbound, Error>(Inbound::Ignored) && final(self)@ == old(self)@,
            },
    {
        let ghost before = self@;
        match msg.header.command {
            AdbCommand::OPEN => {
                let mut payload = msg.payload;
                if payload.len() > 0 && payload[payload.len() - 1] == 0 {
                    payload.pop();
                }
                assert(payload@ =~= requested_service(msg.payload@));
                match String::from_utf8(payload) {
                    Ok(service) => Ok(
                        Inbound::Open(
                            PendingSocket {
                                remote_id: msg.header.arg0,
                                acknowledged: msg.header.arg1,
                                service,
                            },
                        ),
                    ),
                    Err(_) => Err(Error::with(ErrorKind::InvalidData, Detail::ServiceNotUtf8)),
                }
            },
            AdbCommand::OKAY | AdbCommand::WRTE | AdbCommand::CLSE => {
                let id = msg.header.arg1;
                match id_get(&self.sockets, id as u64) {
                    None => Ok(Inbound::NotFound(id)),
                    Some(slot) => {
                        assert(leads_home(before, id as u64));
                        assert(slot < self.slots.len());
                        let slot = slot as usize;
                        assert(before.slots[slot as int] is Some);
                        let ghost old_slots = self.slots@;
                        let taken = self.slots[slot].take();
                        assert(taken == old_slots[slot as int]);
                        let mut socket = taken.unwrap();
                        let res = socket.handle_message(msg);
                        let ghost after = socket@;
                        self.slots[slot] = Some(socket);
                        assert(self@.slots =~= before.slots.update(slot as int, Some(after)));
                        match res {
                            Err(e) => {
                                assert(self@ =~= before);
                                Err(e)
                            },
                            Ok(delivery) => {
                                if delivery.closed {
                                    id_remove(&mut self.sockets, id as u64);
                                }
                                assert(self@ =~= after_delivery(before, id as u64, after));
                                proof {
                                    assert forall|k: u64| #[trigger]
                                        self@.routes.contains_key(k) implies leads_home(
                                        self@,
                                        k,
                                    ) by {
                                        assert(before.routes.contains_key(k));
                                        assert(leads_home(before, k));
                                    }
                                }
                                Ok(Inbound::Delivered(id, delivery))
                            },
                        }
                    },
                }
            },
            _ => Ok(Inbound::Ignored),
        }
    }

    /// Whether the socket is one that is in use here.
    pub fn is_live(&self, socket: &Socket) -> (yes: bool)
        ensures
            yes == live(self@, *socket),
    {
        if socket.slot < self.slots.len() {
            match &self.slots[socket.slot] {
                Some(s) => s.local_id == socket.local_id,
                None => false,
            }
        } else {
            false
        }
    }

    /// Reads from the socket up to `capacity` bytes.
    pub fn poll_read(&mut self, socket: &Socket, flush: Flush, capacity: usize) -> (res: PollRead)
        requires
            old(self).wf(),
            live(old(self)@, *socket),
        ensures
            final(self).wf(),
            only_changes(old(self)@, final(self)@, *socket),
            read_outcome(
                state_of(old(self)@, *socket),
                state_of(final(self)@, *socket),
                old(self)@.error,
                flush,
                capacity as int,
                res,
            ),
    {
        let ghost before = self@;
        let slot = socket.slot;
        let ghost old_slots = self.slots@;
        let taken = self.slots[slot].take();
        assert(taken == old_slots[slot as int]);
        let mut state = taken.unwrap();
        let res = state.poll_read(&self.error, flush, capacity);
        let ghost after = state@;
        self.slots[slot] = Some(state);
        proof {
            assert(self@.slots =~= before.slots.update(slot as int, Some(after)));
            assert(self@ =~= with_socket(before, *socket, after));
            lemma_routes_survive(before, self@, *socket);
        }
        res
    }

    /// Whether a write to the socket waits for the throttle: the peer has
    /// acknowledged less than it was sent, but not so little that nothing may
    /// be sent at all.
    pub fn throttled(&self, socket: &Socket) -> (yes: bool)
        requires
            self.wf(),
            live(self@, *socket),
        ensures
            ({
                let s = state_of(self@, *socket);
                yes == (s.acknowledged <= 0 && s.acknowledged > -s.initial)
            }),
    {
        assert(self@.slots[socket.slot as int] is Some);
        match &self.slots[socket.slot] {
            Some(s) => {
                assert(s.wf());
                s.state.acknowledged <= 0 && s.state.acknowledged
                    > -s.state.initial_acknowledgment
            },
            None => false,
        }
    }

    /// Writes to the socket as much of `buf` as the device has room for.
    pub fn poll_write(&mut self, socket: &Socket, flush: Flush, tick: bool, buf: &[u8]) -> (res: PollWrite)
        requires
            old(self).wf(),
            live(old(self)@, *socket),
        ensures
            final(self).wf(),
            only_changes(old(self)@, final(self)@, *socket),
            write_outcome(
                state_of(old(self)@, *socket),
                state_of(final(self)@, *socket),
                old(self)@.error,
                flush,
                tick,
                buf@,
                res,
            ),
    {
        let ghost before = self@;
        let slot = socket.slot;
        let ghost old_slots = self.slots@;
        let taken = self.slots[slot].take();
        assert(taken == old_slots[slot as int]);
        let mut state = taken.unwrap();
        let res = state.poll_write(&self.error, flush, tick, buf);
        let ghost after = state@;
        self.slots[slot] = Some(state);
        proof {
            assert(self@.slots =~= before.slots.update(slot as int, Some(after)));
            assert(self@ =~= with_socket(before, *socket, after));
            lemma_routes_survive(before, self@, *socket);
        }
        res
    }

    /// Flushes the socket, then closes it and tells the device.
    pub fn poll_shutdown(&mut self, socket: &Socket, flush: Flush) -> (res: PollShutdown)
        requires
            old(self).wf(),
            live(old(self)@, *socket),
        ensures
            final(self).wf(),
            only_changes(old(self)@, final(self)@, *socket),
            shutdown_outcome(
                state_of(old(self)@, *socket),
                state_of(final(self)@, *socket),
                old(self)@.error,
                flush,
                res,
            ),
    {
        let ghost before = self@;
        let slot = socket.slot;
        let ghost old_slots = self.slots@;
        let taken = self.slots[slot].take();
        assert(taken == old_slots[slot as int]);
        let mut state = taken.unwrap();
        let res = state.poll_shutdown(&self.error, flush);
        let ghost after = state@;
        self.slots[slot] = Some(state);
        proof {
            assert(self@.slots =~= before.slots.update(slot as int, Some(after)));
            assert(self@ =~= with_socket(before, *socket, after));
            lemma_routes_survive(before, self@, *socket);
        }
        res
    }

    /// Whether everything that was written to the socket is acknowledged.
    pub fn poll_flush(&self, socket: &Socket, flush: Flush) -> (res: PollFlush)
        requires
            self.wf(),
            live(self@, *socket),
        ensures
            flush_outcome(state_of(self@, *socket), self@.error, flush, res),
    {
        assert(self@.slots[socket.slot as int] is Some);
        match &self.slots[socket.slot] {
            Some(state) => state.poll_flush(&self.error, flush),
            None => PollFlush::Pending,
        }
    }

    /// Gives the socket up; gives the message that tells the device, if it has
    /// to be told.
    pub fn drop_socket(&mut self, socket: Socket) -> (msg: Option<AdbMessage>)
        requires
            old(self).wf(),
            live(old(self)@, socket),
        ensures
            final(self).wf(),
            final(self)@ == (TransportView {
                routes: old(self)@.routes.remove(socket.local_id as u64),
                slots: old(self)@.slots.update(socket.slot as int, None),
                ..old(self)@
            }),
            if old(self)@.error is Some || state_of(old(self)@, socket).closed {
                msg is None
            } else {
                msg matches Some(m) && m@ == message(
                    AdbCommand::CLSE,
                    socket.local_id,
                    state_of(old(self)@, socket).remote_id,
                    seq![],
                )
            },
    {
        let ghost before = self@;
        let slot = socket.slot;
        id_remove(&mut self.sockets, socket.local_id as u64);
        let ghost old_slots = self.slots@;
        let taken = self.slots[slot].take();
        assert(taken == old_slots[slot as int]);
        let mut state = taken.unwrap();
        let msg = state.shutdown(&self.error);
        proof {
            assert(self@.slots =~= before.slots.update(slot as int, None));
            assert forall|id: u64| #[trigger] self@.routes.contains_key(id) implies leads_home(
                self@,
                id,
            ) by {
                assert(before.routes.contains_key(id));
                assert(leads_home(before, id));
            }
        }
        msg
    }
}

/// Another state of a socket, under the same number, leaves every number
/// leading where it led.
proof fn lemma_routes_survive(before: TransportView, after: TransportView, socket: Socket)
    requires
        routed(before),
        live(before, socket),
        after.routes == before.routes,
        after.slots.len() == before.slots.len(),
        live(after, socket),
        forall|i: int|
            0 <= i < before.slots.len() && i != socket.slot ==> after.slots[i] == before.slots[i],
    ensures
        routed(after),
{
    assert forall|id: u64| #[trigger] after.routes.contains_key(id) implies leads_home(
        after,
        id,
    ) by {
        assert(before.routes.contains_key(id));
        assert(leads_home(before, id));
    }
}

/// A device connection, as the side that uses it holds it.
pub struct Transport {
    pub inner: TransportBackend,
    /// Whether sockets that the device opens are still waited for.
    pub inbound: bool,
}

impl Transport {
    /// Whether the connection is in order.
    pub open spec fn wf(self) -> bool {
        self.inner.wf()
    }

    /// Closes the connection.
    pub fn close(&mut self) -> (failure: Failure)
        requires
            old(self).wf(),
        ensures
            final(self).wf(),
            final(self).inbound == old(self).inbound,
            failure.first == (old(self).inner@.error is None),
            final(self).inner@ == after_error(
                old(self).inner@,
                Error { kind: ErrorKind::Closed, detail: Detail::Nothing },
            ),
            failure.error == failed_transport(
                Arc::new(Error { kind: ErrorKind::Closed, detail: Detail::Nothing }),
            ),
    {
        self.inner.on_error(Error::new(ErrorKind::Closed))
    }

    /// Whether the connection has failed or was closed.
    pub fn is_closed(&self) -> (closed: bool)
        ensures
            closed == (self.inner@.error is Some),
    {
        self.inner.error.is_some()
    }

    /// What the device said of itself.
    pub fn banner(&self) -> (banner: &Banner)
        ensures
            *banner == self.inner.banner,
            banner@ == self.inner@.banner,
    {
        &self.inner.banner
    }

    /// Starts a socket to a service of the device; gives the message that
    /// asks for it.
    pub fn open_socket(&mut self, service: &str) -> (res: Result<(Socket, AdbMessage), Error>)
        requires
            old(self).wf(),
        ensures
            final(self).wf(),
            final(self).inbound == old(self).inbound,
            match old(self).inner@.error {
                Some(e) => {
                    &&& final(self).inner@ == old(self).inner@
                    &&& res == Err::<(Socket, AdbMessage), Error>(failed_transport(e))
                },
                None => {
                    &&& res matches Ok((socket, msg))
                    &&& live(final(self).inner@, socket)
                    &&& after_adding(old(self).inner@, final(self).inner@, socket, 0, 0)
                    &&& msg@ == message(
                        AdbCommand::OPEN,
                        socket.local_id,
                        DELAYED_ACK_BYTES,
                        encode_utf8(service@).push(0),
                    )
                },
            },
    {
        if let Err(e) = self.inner.check_error() {
            return Err(e);
        }
        let socket = self.inner.add_socket(0, 0);
        let mut payload = service.as_bytes_vec();
        payload.push(0);
        let msg = AdbMessage::new(AdbCommand::OPEN, socket.local_id, DELAYED_ACK_BYTES, payload);
        Ok((socket, msg))
    }

    /// The number that the device gave the socket, once it did.
    pub fn poll_opened(&self, socket: &Socket) -> (res: Result<Option<u32>, Error>)
        requires
            self.wf(),
            live(self.inner@, *socket),
        ensures
            match self.inner@.error {
                Some(e) => res == Err::<Option<u32>, Error>(failed_transport(e)),
                None => {
                    let s = state_of(self.inner@, *socket);
                    if s.remote_id != 0 {
                        res == Ok::<Option<u32>, Error>(Some(s.remote_id))
                    } else if s.closed {
                        res == Err::<Option<u32>, Error>(
                            Error { kind: ErrorKind::Closed, detail: Detail::Nothing },
                        )
                    } else {
                        res == Ok::<Option<u32>, Error>(None)
                    }
                },
            },
    {
        if let Err(e) = self.inner.check_error() {
            return Err(e);
        }
        assert(self.inner@.slots[socket.slot as int] is Some);
        match &self.inner.slots[socket.slot] {
            Some(s) => if s.state.remote_id != 0 {
                Ok(Some(s.state.remote_id))
            } else if s.state.closed {
                Err(Error::new(ErrorKind::Closed))
            } else {
                Ok(None)
            },
            None => Ok(None),
        }
    }

    /// No longer waits for sockets that the device opens.
    pub fn drop_inbound(&mut self)
        ensures
            !final(self).inbound,
            final(self).inner == old(self).inner,
    {
        self.inbound = false;
    }

    /// The next socket that the device wants to open; `received` is what came
    /// out of the queue of such sockets, `None` once nothing can come any more.
    pub fn accept_socket(&self, received: Option<PendingSocket>) -> (res: Result<
        PendingSocket,
        Error,
    >)
        ensures
            if !self.inbound {
                res == Err::<PendingSocket, Error>(
                    Error { kind: ErrorKind::Closed, detail: Detail::NoReceiver },
                )
            } else {
                match received {
                    Some(p) => res == Ok::<PendingSocket, Error>(p),
                    None => res == Err::<PendingSocket, Error>(
                        Error { kind: ErrorKind::Closed, detail: Detail::Nothing },
                    ),
                }
            },
    {
        if !self.inbound {
            return Err(Error::with(ErrorKind::Closed, Detail::NoReceiver));
        }
        match received {
            Some(p) => Ok(p),
            None => Err(Error::new(ErrorKind::Closed)),
        }
    }
}

/// A message that is to be written once the connection is flushed.
#[derive(Debug)]
pub struct PendingWrite {
    pub msg: Option<AdbMessage>,
}

impl PendingWrite {
    /// The message that is to be written.
    pub fn new(msg: AdbMessage) -> (w: PendingWrite)
        ensures
            w.msg == Some(msg),
    {
        PendingWrite { msg: Some(msg) }
    }

    /// What to do now that the connection is flushed: write the message and
    /// flush again, or, where that was done, nothing more.
    pub fn on_flushed(&mut self) -> (msg: Option<AdbMessage>)
        ensures
            msg == old(self).msg,
            final(self).msg is None,
    {
        self.msg.take()
    }
}

/// After an error the connection is closed for good: a later error changes
/// nothing, and no message finds a socket.
pub proof fn law_first_error_stays(t: TransportView, first: Error, second: Error)
    ensures
        after_error(t, first).error is Some,
        after_error(after_error(t, first), second) == after_error(t, first),
        t.error is None ==> after_error(t, first).routes == Map::<u64, u64>::empty(),
{
}

/// A message reaches one socket: every other socket, and every other number,
/// stays as it was.
pub proof fn law_sockets_are_independent(t: TransportView, id: u64, s: SocketView)
    requires
        routed(t),
        t.routes.contains_key(id),
        s.local_id == id,
    ensures
        routed(after_delivery(t, id, s)),
        forall|i: int|
            0 <= i < t.slots.len() && i != t.routes[id] ==> after_delivery(t, id, s).slots[i]
                == t.slots[i],
        forall|other: u64|
            other != id && t.routes.contains_key(other) ==> #[trigger] after_delivery(
                t,
                id,
                s,
            ).routes.contains_key(other) && after_delivery(t, id, s).routes[other]
                == t.routes[other],
{
    let u = after_delivery(t, id, s);
    assert(leads_home(t, id));
    assert forall|k: u64| #[trigger] u.routes.contains_key(k) implies leads_home(u, k) by {
        assert(t.routes.contains_key(k));
        assert(leads_home(t, k));
    }
}

/// A socket in use stays in use, under its number, whatever message arrives.
pub proof fn law_messages_keep_sockets(t: TransportView, msg: MessageView, socket: Socket)
    requires
        routed(t),
        live(t, socket),
        for_socket(msg),
        t.routes.contains_key(msg.header.arg1 as u64),
        after_message(addressee(t, msg), msg) is Ok,
    ensures
        live(
            after_delivery(
                t,
                msg.header.arg1 as u64,
                after_message(addressee(t, msg), msg)->Ok_0,
            ),
            socket,
        ),
{
    assert(leads_home(t, msg.header.arg1 as u64));
}

/// Opening a socket and the answer of the device fit together: after the
/// device acknowledges under the number that was asked with, the socket knows
/// the number of the device and may be written to.
pub proof fn law_open_then_okay(
    before: TransportView,
    opened: TransportView,
    socket: Socket,
    msg: MessageView,
)
    requires
        routed(before),
        live(opened, socket),
        after_adding(before, opened, socket, 0, 0),
        msg.header.command is OKAY,
        msg.header.arg1 == socket.local_id,
        msg.payload.len() == 4,
    ensures
        opened.routes.contains_key(msg.header.arg1 as u64),
        addressee(opened, msg) == fresh_socket(socket.local_id, 0, 0),
        after_message(addressee(opened, msg), msg) matches Ok(s) && ({
            let t = after_delivery(opened, socket.local_id as u64, s);
            &&& live(t, socket)
            &&& state_of(t, socket).remote_id == msg.header.arg0
            &&& state_of(t, socket).initial == crate::le::from_le32(msg.payload)
            &&& t.routes == opened.routes
        }),
{
}

/// When the device closes a socket, its number is given up, but what had
/// arrived can still be read.
pub proof fn law_close_keeps_what_arrived(t: TransportView, socket: Socket, msg: MessageView)
    requires
        routed(t),
        live(t, socket),
        msg.header.command is CLSE,
        msg.header.arg1 == socket.local_id,
        t.routes.contains_pair(socket.local_id as u64, socket.slot as u64),
    ensures
        after_message(addressee(t, msg), msg) matches Ok(s) && ({
            let u = after_delivery(t, socket.local_id as u64, s);
            &&& !u.routes.contains_key(socket.local_id as u64)
            &&& live(u, socket)
            &&& state_of(u, socket).closed
            &&& state_of(u, socket).unread == state_of(t, socket).unread
        }),
{
}

/// The number after `n` further sockets were started.
pub open spec fn id_after(last_id: u32, n: nat) -> u32 {
    ((last_id + n) % 0x1_0000_0000) as u32
}

/// Of 2^32 sockets started one after the other, no two have the same number.
pub proof fn law_numbers_differ(last_id: u32, i: nat, j: nat)
    requires
        i < j < i + 0x1_0000_0000,
    ensures
        id_after(last_id, i) != id_after(last_id, j),
{
}

/// Starting a socket uses up one number.
pub proof fn law_starting_uses_one_number(
    before: TransportView,
    after: TransportView,
    socket: Socket,
    remote_id: u32,
    acknowledged: u32,
)
    requires
        after_adding(before, after, socket, remote_id, acknowledged),
    ensures
        socket.local_id == id_after(before.last_id, 0),
        after.last_id == id_after(before.last_id, 1),
{
}

/// A socket and the device agree on their numbers from the first answer on: the
/// request to open names the number of the socket, the device's first
/// acknowledgment names its own, and every byte that is then written goes out
/// under the number of the socket to that number of the device.
pub proof fn law_writes_go_to_the_number_of_the_device(
    opener: &mut Transport,
    service: &str,
    socket: Socket,
    open: AdbMessage,
    receiver: &mut TransportBackend,
    okay: AdbMessage,
    inbound: Result<Inbound, Error>,
    writer: &mut TransportBackend,
    flush: Flush,
    tick: bool,
    buf: &[u8],
    len: usize,
    write: AdbMessage,
)
    requires
        call_ensures(Transport::open_socket, (opener, service), Ok((socket, open))),
        *old(receiver) == final(opener).inner,
        call_ensures(TransportBackend::handle_message, (receiver, okay), inbound),
        okay.header.command is OKAY,
        okay.header.arg1 == socket.local_id,
        okay.payload@.len() == 4,
        *old(writer) == *final(receiver),
        call_ensures(
            TransportBackend::poll_write,
            (writer, &socket, flush, tick, buf),
            (PollWrite::Ready { len, write }),
        ),
    ensures
        open.header.command == AdbCommand::OPEN,
        open.header.arg0 == socket.local_id,
        write.header.command == AdbCommand::WRTE,
        write.header.arg0 == socket.local_id,
        write.header.arg1 == okay.header.arg0,
        write.payload@ == buf@.take(len as int),
{
    let t = final(opener).inner@;
    assert(t.routes.contains_key(okay.header.arg1 as u64));
    assert(open@.header == open.header);
    assert(write@.header == write.header && write@.payload == write.payload@);
}

/// Whether the socket is in use under its number.
pub open spec fn reachable(t: TransportView, socket: Socket) -> bool {
    &&& live(t, socket)
    &&& t.routes.contains_key(socket.local_id as u64)
    &&& t.routes[socket.local_id as u64] == socket.slot as u64
}

/// What is written into one end of a stream arrives at the other: the message
/// finds the paired socket by the number that it names, and the bytes stand
/// behind those that had arrived before.
pub proof fn law_written_bytes_arrive(
    here: &mut TransportBackend,
    socket: &Socket,
    flush: Flush,
    tick: bool,
    buf: &[u8],
    len: usize,
    write: AdbMessage,
    there: &mut TransportBackend,
    peer: &Socket,
    res: Result<Inbound, Error>,
)
    requires
        live(old(here)@, *socket),
        state_of(old(here)@, *socket).remote_id == peer.local_id,
        call_ensures(
            TransportBackend::poll_write,
            (here, socket, flush, tick, buf),
            (PollWrite::Ready { len, write }),
        ),
        reachable(old(there)@, *peer),
        call_ensures(TransportBackend::handle_message, (there, write), res),
    ensures
        write.header.arg0 == socket.local_id,
        res matches Ok(Inbound::Delivered(id, d)) && id == peer.local_id && d.wake_reader,
        live(final(there)@, *peer),
        state_of(final(there)@, *peer).unread == state_of(old(there)@, *peer).unread + buf@.take(
            len as int,
        ),
        forall|other: Socket|
            live(old(there)@, other) && other.slot != peer.slot ==> live(final(there)@, other)
                && #[trigger] state_of(final(there)@, other) == state_of(old(there)@, other),
{
    assert(write@.header == write.header && write@.payload == write.payload@);
}

/// What is read at one end of a stream makes room at the other: the
/// acknowledgment finds the paired socket, which may then send as many bytes
/// more as were read.
pub proof fn law_read_bytes_make_room(
    here: &mut TransportBackend,
    socket: &Socket,
    flush: Flush,
    capacity: usize,
    data: Vec<u8>,
    okay: AdbMessage,
    there: &mut TransportBackend,
    peer: &Socket,
    res: Result<Inbound, Error>,
)
    requires
        live(old(here)@, *socket),
        state_of(old(here)@, *socket).remote_id == peer.local_id,
        call_ensures(
            TransportBackend::poll_read,
            (here, socket, flush, capacity),
            (PollRead::Ready { data, acknowledge: Some(okay) }),
        ),
        data@.len() < 0x1_0000_0000,
        reachable(old(there)@, *peer),
        call_ensures(TransportBackend::handle_message, (there, okay), res),
    ensures
        okay.header.arg0 == socket.local_id,
        data@ + state_of(final(here)@, *socket).unread == state_of(old(here)@, *socket).unread,
        res matches Ok(Inbound::Delivered(id, d)) && id == peer.local_id && d.wake_writer,
        live(final(there)@, *peer),
        state_of(final(there)@, *peer).acknowledged == state_of(old(there)@, *peer).acknowledged
            + data@.len(),
{
    let s = state_of(old(here)@, *socket);
    let n = data@.len() as int;
    assert(okay@.header == okay.header && okay@.payload == okay.payload@);
    law_le32_reads_back((n % 0x1_0000_0000) as u32);
    assert(s.unread =~= s.unread.take(n) + s.unread.skip(n));
}

/// When one end of a stream is closed or given up, the other closes: the message
/// finds the paired socket, its number is given up, and what had arrived there
/// can still be read. An end that is closed already says nothing.
pub proof fn law_closing_reaches_the_peer(
    here: &mut TransportBackend,
    socket: &Socket,
    flush: Flush,
    closing: PollShutdown,
    giver: &mut TransportBackend,
    given_up: Socket,
    dropped: Option<AdbMessage>,
    msg: AdbMessage,
    there: &mut TransportBackend,
    peer: &Socket,
    res: Result<Inbound, Error>,
)
    requires
        live(old(here)@, *socket),
        state_of(old(here)@, *socket).remote_id == peer.local_id,
        call_ensures(TransportBackend::poll_shutdown, (here, socket, flush), closing),
        live(old(giver)@, given_up),
        state_of(old(giver)@, given_up).remote_id == peer.local_id,
        call_ensures(TransportBackend::drop_socket, (giver, given_up), dropped),
        closing == PollShutdown::Send(msg) || dropped == Some(msg),
        reachable(old(there)@, *peer),
        call_ensures(TransportBackend::handle_message, (there, msg), res),
    ensures
        closing == PollShutdown::Send(msg) ==> msg.header.arg0 == socket.local_id && state_of(
            final(here)@,
            *socket,
        ).closed,
        dropped == Some(msg) ==> msg.header.arg0 == given_up.local_id,
        !live(final(giver)@, given_up),
        !final(giver)@.routes.contains_key(given_up.local_id as u64),
        dropped is Some <==> old(giver)@.error is None && !state_of(old(giver)@, given_up).closed,
        res matches Ok(Inbound::Delivered(id, d)) && id == peer.local_id && d.closed,
        live(final(there)@, *peer),
        !final(there)@.routes.contains_key(peer.local_id as u64),
        state_of(final(there)@, *peer).closed,
        state_of(final(there)@, *peer).unread == state_of(old(there)@, *peer).unread,
{
    assert(msg@.header == msg.header);
}

/// A socket that one side opens and the other takes on is one stream: each end
/// knows the number of the other, the service is asked for under its own name,
/// and either end may send as much as was offered before anything is read.
pub proof fn law_opening_meets_accepting(
    opener: &mut Transport,
    service: &str,
    socket: Socket,
    open: AdbMessage,
    receiver: &mut TransportBackend,
    inbound: Result<Inbound, Error>,
    pending: PendingSocket,
    acceptor: &mut TransportBackend,
    peer: Socket,
    okay: AdbMessage,
    answered: &mut TransportBackend,
    res: Result<Inbound, Error>,
    at_last: &Transport,
    opened: Result<Option<u32>, Error>,
)
    requires
        call_ensures(Transport::open_socket, (opener, service), Ok((socket, open))),
        call_ensures(TransportBackend::handle_message, (receiver, open), inbound),
        inbound == Ok::<Inbound, Error>(Inbound::Open(pending)),
        call_ensures(PendingSocket::accept, (pending, acceptor), (peer, okay)),
        *old(answered) == final(opener).inner,
        call_ensures(TransportBackend::handle_message, (answered, okay), res),
        at_last.inner == *final(answered),
        call_ensures(Transport::poll_opened, (at_last, &socket), opened),
        peer.local_id != 0,
    ensures
        pending.service@ == service@,
        final(receiver)@ == old(receiver)@,
        live(final(acceptor)@, peer),
        state_of(final(acceptor)@, peer).remote_id == socket.local_id,
        state_of(final(acceptor)@, peer).initial == 0x200_0000,
        state_of(final(acceptor)@, peer).acknowledged == 0x200_0000,
        reachable(final(acceptor)@, peer),
        live(final(answered)@, socket),
        state_of(final(answered)@, socket).remote_id == peer.local_id,
        state_of(final(answered)@, socket).initial == 0x200_0000,
        state_of(final(answered)@, socket).acknowledged == 0x200_0000,
        reachable(final(answered)@, socket),
        final(answered)@.error is None ==> opened == Ok::<Option<u32>, Error>(Some(peer.local_id)),
{
    assert(open@.header == open.header && open@.payload == open.payload@);
    assert(okay@.header == okay.header && okay@.payload == okay.payload@);
    let bytes = encode_utf8(service@);
    assert(bytes.push(0).drop_last() =~= bytes);
    vstd::utf8::encode_utf8_valid_utf8(service@);
    vstd::utf8::encode_utf8_decode_utf8(service@);
    law_le32_reads_back(DELAYED_ACK_BYTES);
}

/// Every request to open is taken in, for the service that it names up to an
/// optional zero at the end, unless that is no text.
pub proof fn law_requests_to_open_are_taken_in(
    t: &mut TransportBackend,
    open: AdbMessage,
    res: Result<Inbound, Error>,
)
    requires
        open.header.command is OPEN,
        call_ensures(TransportBackend::handle_message, (t, open), res),
    ensures
        final(t)@ == old(t)@,
        ({
            let payload = open.payload@;
            let name = if payload.len() > 0 && payload[payload.len() - 1] == 0 {
                payload.take(payload.len() - 1)
            } else {
                payload
            };
            match res {
                Ok(Inbound::Open(p)) => valid_utf8(name) && encode_utf8(p.service@) == name
                    && p.remote_id == open.header.arg0 && p.acknowledged == open.header.arg1,
                Ok(_) => false,
                Err(e) => !valid_utf8(name) && e.kind == ErrorKind::InvalidData,
            }
        }),
{
    let payload = open.payload@;
    if payload.len() > 0 {
        assert(payload.drop_last() =~= payload.take(payload.len() - 1));
    }
    if valid_utf8(requested_service(payload)) {
        vstd::utf8::decode_utf8_encode_utf8(requested_service(payload));
    }
}

/// A refusal closes the socket at the side that asked, which then learns that
/// it was not opened.
pub proof fn law_refusing_closes(
    pending: PendingSocket,
    msg: AdbMessage,
    asker: &mut TransportBackend,
    socket: &Socket,
    res: Result<Inbound, Error>,
    later: &Transport,
    opened: Result<Option<u32>, Error>,
)
    requires
        call_ensures(PendingSocket::close, (pending,), msg),
        reachable(old(asker)@, *socket),
        pending.remote_id == socket.local_id,
        state_of(old(asker)@, *socket).remote_id == 0,
        old(asker)@.error is None,
        call_ensures(TransportBackend::handle_message, (asker, msg), res),
        later.inner == *final(asker),
        call_ensures(Transport::poll_opened, (later, socket), opened),
    ensures
        res matches Ok(Inbound::Delivered(id, d)) && id == socket.local_id && d.closed
            && d.wake_writer,
        opened matches Err(e) && e.kind == ErrorKind::Closed,
{
    assert(msg@.header == msg.header);
}

/// Before the device has answered, a socket is neither open nor refused.
pub proof fn law_an_unanswered_socket_waits(
    opener: &mut Transport,
    service: &str,
    socket: Socket,
    open: AdbMessage,
    later: &Transport,
    opened: Result<Option<u32>, Error>,
)
    requires
        call_ensures(Transport::open_socket, (opener, service), Ok((socket, open))),
        later.inner == final(opener).inner,
        call_ensures(Transport::poll_opened, (later, &socket), opened),
    ensures
        opened == Ok::<Option<u32>, Error>(None),
        reachable(final(opener).inner@, socket),
        open.payload@.len() == encode_utf8(service@).len() + 1,
        open.payload@.last() == 0,
        open.header.arg1 == 0x200_0000,
{
    assert(open@.header == open.header && open@.payload == open.payload@);
}

/// A message that is for no socket changes nothing: one whose number nobody
/// has, and one of another kind.
pub proof fn law_stray_messages_change_nothing(
    t: &mut TransportBackend,
    msg: AdbMessage,
    res: Result<Inbound, Error>,
)
    requires
        call_ensures(TransportBackend::handle_message, (t, msg), res),
        !(msg.header.command is OPEN),
    ensures
        msg.header.command is CNXN || msg.header.command is AUTH || msg.header.command is Unknown
            ==> res == Ok::<Inbound, Error>(Inbound::Ignored) && final(t)@ == old(t)@,
        msg.header.command is OKAY || msg.header.command is WRTE || msg.header.command is CLSE ==> {
            &&& !old(t)@.routes.contains_key(msg.header.arg1 as u64) ==> res == Ok::<
                Inbound,
                Error,
            >(Inbound::NotFound(msg.header.arg1)) && final(t)@ == old(t)@
            &&& old(t)@.routes.contains_key(msg.header.arg1 as u64) ==> !(res matches Ok(
                Inbound::NotFound(_),
            )) && !(res matches Ok(Inbound::Ignored))
        },
        final(t)@.last_id == old(t)@.last_id,
        final(t)@.error == old(t)@.error,
        final(t)@.banner == old(t)@.banner,
{
}

/// Each socket has a number of its own, and to start one leaves the others
/// alone.
pub proof fn law_started_sockets_are_apart(
    opener: &mut Transport,
    service: &str,
    socket: Socket,
    open: AdbMessage,
    other: Socket,
)
    requires
        call_ensures(Transport::open_socket, (opener, service), Ok((socket, open))),
        live(old(opener).inner@, other),
    ensures
        socket.slot != other.slot,
        live(final(opener).inner@, other),
        state_of(final(opener).inner@, other) == state_of(old(opener).inner@, other),
        live(final(opener).inner@, socket),
        state_of(final(opener).inner@, socket).unread.len() == 0,
        !state_of(final(opener).inner@, socket).closed,
        final(opener).inner@.last_id != socket.local_id,
        final(opener).inbound == old(opener).inbound,
{
}

/// Whatever is read, written or closed concerns one socket: all others, and the
/// numbers that lead to them, stay as they are.
pub proof fn law_use_of_a_socket_leaves_the_others(
    t: &mut TransportBackend,
    socket: &Socket,
    flush: Flush,
    capacity: usize,
    read: PollRead,
    w: &mut TransportBackend,
    tick: bool,
    buf: &[u8],
    written: PollWrite,
    c: &mut TransportBackend,
    closed: PollShutdown,
    other: Socket,
)
    requires
        call_ensures(TransportBackend::poll_read, (t, socket, flush, capacity), read),
        call_ensures(TransportBackend::poll_write, (w, socket, flush, tick, buf), written),
        call_ensures(TransportBackend::poll_shutdown, (c, socket, flush), closed),
        other.slot != socket.slot,
        live(old(t)@, *socket) && live(old(t)@, other),
        live(old(w)@, *socket) && live(old(w)@, other),
        live(old(c)@, *socket) && live(old(c)@, other),
    ensures
        live(final(t)@, other) && state_of(final(t)@, other) == state_of(old(t)@, other),
        live(final(w)@, other) && state_of(final(w)@, other) == state_of(old(w)@, other),
        live(final(c)@, other) && state_of(final(c)@, other) == state_of(old(c)@, other),
        final(t)@.routes == old(t)@.routes && final(t)@.error == old(t)@.error,
        final(w)@.routes == old(w)@.routes && final(w)@.error == old(w)@.error,
        final(c)@.routes == old(c)@.routes && final(c)@.error == old(c)@.error,
{
}

/// The first error of a connection is the one that everything fails with: no
/// message finds a socket any longer, no socket can be opened, and a later error
/// changes nothing.
pub proof fn law_a_failed_connection_stays_failed(
    t: &mut TransportBackend,
    err: Error,
    failure: Failure,
    again: &mut TransportBackend,
    later: Error,
    second: Failure,
    asked: &mut Transport,
    service: &str,
    opened: Result<(Socket, AdbMessage), Error>,
    checked: Result<(), Error>,
)
    requires
        old(t)@.error is None,
        call_ensures(TransportBackend::on_error, (t, err), failure),
        *old(again) == *final(t),
        call_ensures(TransportBackend::on_error, (again, later), second),
        old(asked).inner == *final(again),
        call_ensures(Transport::open_socket, (asked, service), opened),
        call_ensures(TransportBackend::check_error, (&*final(again),), checked),
    ensures
        failure.first,
        !second.first,
        failure.error.kind == ErrorKind::TransportError(Arc::new(err)),
        second.error.kind == ErrorKind::TransportError(Arc::new(later)),
        final(again)@ == final(t)@,
        final(t)@.error == Some(Arc::new(err)),
        final(t)@.slots == old(t)@.slots,
        forall|id: u64| !final(t)@.routes.contains_key(id),
        opened matches Err(e) && e.kind == ErrorKind::TransportError(Arc::new(err)),
        checked matches Err(e) && e.kind == ErrorKind::TransportError(Arc::new(err)),
        final(asked).inner@ == old(asked).inner@,
{
}

/// A connection is closed as by an error, and counts as closed from then on.
pub proof fn law_closing_a_connection(
    t: &mut Transport,
    failure: Failure,
    now: bool,
    before: bool,
)
    requires
        call_ensures(Transport::close, (t,), failure),
        call_ensures(Transport::is_closed, (&*final(t),), now),
        call_ensures(Transport::is_closed, (&*old(t),), before),
    ensures
        now,
        failure.first == !before,
        before == (old(t).inner@.error is Some),
        !before ==> (final(t).inner@.error matches Some(e) && e.kind == ErrorKind::Closed),
        before ==> final(t).inner@ == old(t).inner@,
{
}

/// Sockets that the device opens are handed out in turn until they are not
/// waited for any longer.
pub proof fn law_inbound_sockets_are_handed_out(
    t: &Transport,
    received: Option<PendingSocket>,
    res: Result<PendingSocket, Error>,
)
    requires
        call_ensures(Transport::accept_socket, (t, received), res),
    ensures
        res is Ok <==> t.inbound && received is Some,
        res matches Ok(p) ==> received == Some(p),
        res matches Err(e) ==> e.kind == ErrorKind::Closed && (e.detail == Detail::NoReceiver
            <==> !t.inbound),
{
}

/// A message is written once: first it is handed out, then nothing more.
pub proof fn law_messages_are_written_once(
    msg: AdbMessage,
    write: PendingWrite,
    first: &mut PendingWrite,
    now: Option<AdbMessage>,
    second: &mut PendingWrite,
    then: Option<AdbMessage>,
)
    requires
        call_ensures(PendingWrite::new, (msg,), write),
        *old(first) == write,
        call_ensures(PendingWrite::on_flushed, (first,), now),
        *old(second) == *final(first),
        call_ensures(PendingWrite::on_flushed, (second,), then),
    ensures
        now == Some(msg),
        then is None,
{
}

/// A write waits for the throttle exactly where only the throttle decides
/// whether it goes out.
pub proof fn law_the_throttle_is_asked_where_it_decides(
    t: &TransportBackend,
    socket: &Socket,
    yes: bool,
    slow: &mut TransportBackend,
    fast: &mut TransportBackend,
    buf: &[u8],
    without: PollWrite,
    with: PollWrite,
)
    requires
        t.wf(),
        live(t@, *socket),
        t@.error is None,
        !state_of(t@, *socket).closed,
        call_ensures(TransportBackend::throttled, (t, socket), yes),
        old(slow)@ == t@,
        old(fast)@ == t@,
        call_ensures(
            TransportBackend::poll_write,
            (slow, socket, Flush::Ready, false, buf),
            without,
        ),
        call_ensures(TransportBackend::poll_write, (fast, socket, Flush::Ready, true, buf), with),
    ensures
        yes <==> with is Ready && without is Pending,
        without is Ready ==> with is Ready,
{
    assert(t.slots@[socket.slot as int] is Some);
}

/// A new connection has not failed, knows what the device said, and no socket
/// runs over it.
pub proof fn law_new_connections_are_empty(
    banner: Banner,
    t: TransportBackend,
    socket: Socket,
    live_now: bool,
)
    requires
        call_ensures(TransportBackend::new, (banner,), t),
        call_ensures(TransportBackend::is_live, (&t, &socket), live_now),
    ensures
        t@.error is None,
        t@.banner == banner@,
        t@.last_id == 1,
        forall|id: u64| !t@.routes.contains_key(id),
        !live_now,
{
}

/// A message is taken unless the socket that it is for would count too far; one
/// that is for no socket that is open always is.
pub proof fn law_a_connection_takes_what_its_sockets_take(
    t: &TransportBackend,
    msg: &AdbMessage,
    yes: bool,
)
    requires
        call_ensures(TransportBackend::can_handle, (t, msg), yes),
    ensures
        !t@.routes.contains_key(msg.header.arg1 as u64) ==> yes,
        !(msg.header.command is OKAY) ==> yes,
        msg.payload@.len() != 4 ==> yes,
        msg.header.command is OKAY && msg.payload@.len() == 4 && t@.routes.contains_key(
            msg.header.arg1 as u64,
        ) ==> (yes <==> (t@.slots[t@.routes[msg.header.arg1 as u64] as int]->0).acknowledged
            + from_le32(msg.payload@) <= 0x7fff_ffff_0000_0000),
{
    assert(msg@.header == msg.header && msg@.payload == msg.payload@);
}

/// To flush a socket is done once everything that was written to it is
/// acknowledged; it fails where the connection or the socket cannot bring that
/// about any more, and else waits.
pub proof fn law_a_socket_is_flushed_once_acknowledged(
    t: &TransportBackend,
    socket: &Socket,
    flush: Flush,
    res: PollFlush,
)
    requires
        t@.error is None,
        call_ensures(TransportBackend::poll_flush, (t, socket, flush), res),
    ensures
        res is Ready <==> flush is Ready && (t@.slots[socket.slot as int]->0).acknowledged == (
        t@.slots[socket.slot as int]->0).initial,
        flush is Pending ==> res is Pending,
        flush matches Flush::Failed(e) ==> res == PollFlush::Failed(e),
        flush is Ready && !(res is Ready) ==> (res is Failed <==> (
        t@.slots[socket.slot as int]->0).closed),
{
}

/// A connection that no longer waits for the device to open sockets still does
/// all the rest; and a socket that the device opens tells what it is for.
pub proof fn law_not_to_wait_changes_nothing_else(
    t: &mut Transport,
    pending: &PendingSocket,
    service: &str,
)
    requires
        call_ensures(Transport::drop_inbound, (t,), ()),
        call_ensures(PendingSocket::service, (pending,), service),
    ensures
        !final(t).inbound,
        final(t).inner@ == old(t).inner@,
        service@ == pending.service@,
{
}

/// A socket is open once the device gave it a number, and stays so when either
/// side has closed it since; one that is closed before it had a number was
/// refused. On a connection that has failed, no socket is open.
pub proof fn law_a_socket_is_open_once_it_has_a_number(
    t: &Transport,
    socket: &Socket,
    opened: Result<Option<u32>, Error>,
)
    requires
        call_ensures(Transport::poll_opened, (t, socket), opened),
    ensures
        t.inner@.error is Some ==> opened is Err,
        t.inner@.error is None ==> {
            let s = t.inner@.slots[socket.slot as int]->0;
            &&& s.remote_id != 0 ==> opened == Ok::<Option<u32>, Error>(Some(s.remote_id))
            &&& s.remote_id == 0 && !s.closed ==> opened == Ok::<Option<u32>, Error>(None)
            &&& s.remote_id == 0 && s.closed ==> (opened matches Err(e) && e.kind
                == ErrorKind::Closed)
        },
{
}

/// A socket that is taken on may send as much as the device said in its request,
/// and the device as much as this side always takes; the device is told so under
/// the number that it gave, and learns the number that the socket has here.
pub proof fn law_each_side_states_its_own_window(
    pending: PendingSocket,
    backend: &mut TransportBackend,
    socket: Socket,
    msg: AdbMessage,
)
    requires
        call_ensures(PendingSocket::accept, (pending, backend), (socket, msg)),
    ensures
        ({
            let s = final(backend)@.slots[socket.slot as int]->0;
            &&& s.local_id == socket.local_id
            &&& s.remote_id == pending.remote_id
            &&& s.initial == pending.acknowledged
            &&& s.acknowledged == pending.acknowledged
            &&& s.unread.len() == 0
            &&& !s.closed
        }),
        msg.header.command == AdbCommand::OKAY,
        msg.header.arg0 == socket.local_id,
        msg.header.arg1 == pending.remote_id,
        msg.payload@.len() == 4,
        from_le32(msg.payload@) == 0x200_0000,
{
    assert(msg@.header == msg.header && msg@.payload == msg.payload@);
    law_le32_reads_back(DELAYED_ACK_BYTES);
}

/// A socket that this side opens may send nothing before the device answers; the
/// device may send as much as this side always takes, and is asked for exactly
/// the service.
pub proof fn law_an_opened_socket_waits_for_its_window(
    t: &mut Transport,
    service: &str,
    socket: Socket,
    msg: AdbMessage,
)
    requires
        call_ensures(Transport::open_socket, (t, service), Ok((socket, msg))),
    ensures
        ({
            let s = final(t).inner@.slots[socket.slot as int]->0;
            &&& s.local_id == socket.local_id
            &&& s.remote_id == 0
            &&& s.initial == 0
            &&& s.acknowledged == 0
            &&& s.unread.len() == 0
            &&& !s.closed
        }),
        msg.header.command == AdbCommand::OPEN,
        msg.header.arg0 == socket.local_id,
        msg.header.arg1 == 0x200_0000,
        msg.payload@ == encode_utf8(service@).push(0),
{
    assert(msg@.header == msg.header && msg@.payload == msg.payload@);
}

} // verus!
