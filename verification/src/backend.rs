//! What a connection to a device is made of, whatever it speaks.

use std::sync::Arc;
use vstd::prelude::*;
use vstd::utf8::encode_utf8;
use crate::banner::Banner;
use crate::error::{Detail, Error, ErrorKind};
use crate::message::{message, AdbCommand, AdbMessage};
use crate::socket::failed_transport;
use crate::transport::{
    after_adding, after_error, live, Failure, Socket, Transport, TransportView, DELAYED_ACK_BYTES,
};

verus! {

/// A connection to a device, by what it speaks.
pub enum ConnectionBackend {
    AProto(Transport),
}

impl ConnectionBackend {
    /// Whether the connection is in order.
    pub open spec fn wf(self) -> bool {
        match self {
            ConnectionBackend::AProto(t) => t.wf(),
        }
    }

    /// The state of the connection.
    pub open spec fn state(self) -> TransportView {
        match self {
            ConnectionBackend::AProto(t) => t.inner@,
        }
    }

    /// Whether sockets that the device opens are waited for.
    pub open spec fn inbound(self) -> bool {
        match self {
            ConnectionBackend::AProto(t) => t.inbound,
        }
    }

    /// Closes the connection.
    pub fn close(&mut self) -> (failure: Failure)
        requires
            old(self).wf(),
        ensures
            final(self).wf(),
            final(self).inbound() == old(self).inbound(),
            failure.first == (old(self).state().error is None),
            failure.error == failed_transport(
                Arc::new(Error { kind: ErrorKind::Closed, detail: Detail::Nothing }),
            ),
            final(self).state() == after_error(
                old(self).state(),
                Error { kind: ErrorKind::Closed, detail: Detail::Nothing },
            ),
    {
        match self {
            ConnectionBackend::AProto(t) => t.close(),
        }
    }

    /// Whether the connection has failed or was closed.
    pub fn is_closed(&self) -> (closed: bool)
        ensures
            closed == (self.state().error is Some),
    {
        match self {
            ConnectionBackend::AProto(t) => t.is_closed(),
        }
    }

    /// What the device said of itself.
    pub fn banner(&self) -> (banner: &Banner)
        ensures
            banner@ == self.state().banner,
    {
        match self {
            ConnectionBackend::AProto(t) => t.banner(),
        }
    }

    /// Starts a socket to a service of the device; gives the message that
    /// asks for it.
    pub fn open_socket(&mut self, service: &str) -> (res: Result<(Socket, AdbMessage), Error>)
        requires
            old(self).wf(),
        ensures
            final(self).wf(),
            final(self).inbound() == old(self).inbound(),
            match old(self).state().error {
                Some(e) => {
                    &&& final(self).state() == old(self).state()
                    &&& res == Err::<(Socket, AdbMessage), Error>(failed_transport(e))
                },
                None => {
                    &&& res matches Ok((socket, msg))
                    &&& live(final(self).state(), socket)
                    &&& after_adding(old(self).state(), final(self).state(), socket, 0, 0)
                    &&& msg@ == message(
                        AdbCommand::OPEN,
                        socket.local_id,
                        DELAYED_ACK_BYTES,
                        encode_utf8(service@).push(0),
                    )
                },
            },
    {
        match self {
            ConnectionBackend::AProto(t) => t.open_socket(service),
        }
    }
}

/// A connection does what that which it speaks does: it closes, tells whether it
/// is closed, what the device said, and opens sockets in the same way.
pub proof fn law_a_connection_is_what_it_speaks(
    backend: &mut ConnectionBackend,
    transport: &mut Transport,
    failure: Failure,
    same: Failure,
    opener: &mut ConnectionBackend,
    direct: &mut Transport,
    service: &str,
    res: Result<(Socket, AdbMessage), Error>,
    closed: bool,
    is_closed: bool,
    banner: &Banner,
    said: &Banner,
)
    requires
        *old(backend) == ConnectionBackend::AProto(*old(transport)),
        call_ensures(ConnectionBackend::close, (backend,), failure),
        call_ensures(Transport::close, (transport,), same),
        *old(opener) == ConnectionBackend::AProto(*old(direct)),
        call_ensures(ConnectionBackend::open_socket, (opener, service), res),
        call_ensures(ConnectionBackend::is_closed, (&*old(opener),), closed),
        call_ensures(Transport::is_closed, (&*old(direct),), is_closed),
        call_ensures(ConnectionBackend::banner, (&*old(opener),), banner),
        call_ensures(Transport::banner, (&*old(direct),), said),
    ensures
        failure == same,
        (*final(backend))->AProto_0.inner@ == final(transport).inner@,
        (*final(backend))->AProto_0.inbound == old(transport).inbound,
        closed == is_closed,
        banner@ == said@,
        res is Ok <==> !closed,
        closed ==> (*final(opener))->AProto_0.inner@ == old(direct).inner@,
        res matches Ok((socket, msg)) ==> {
            &&& live((*final(opener))->AProto_0.inner@, socket)
            &&& msg.header.command == AdbCommand::OPEN
            &&& msg.header.arg0 == socket.local_id
            &&& msg.header.arg1 == 0x200_0000
            &&& msg.payload@ == encode_utf8(service@).push(0)
        },
{
    if let Ok((socket, msg)) = res {
        assert(msg@.header == msg.header && msg@.payload == msg.payload@);
    }
}

} // verus!
