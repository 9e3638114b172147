//! One stream over a device connection: what has arrived and is not read yet,
//! and how much may be written before the peer acknowledges.

use std::collections::VecDeque;
use std::sync::Arc;
use vstd::prelude::*;
use crate::error::{Detail, Error, ErrorKind};
use crate::le::{from_le32, law_le32_reads_back, le32, read_u32, write_u32};
use crate::message::{message, AdbCommand, AdbMessage, MessageView};

verus! {

/// The most that one message carries.
pub const MAX_PAYLOAD: u32 = 0x10_0000;

/// The most that the count of acknowledged bytes may reach.
pub const MAX_ACKNOWLEDGED: i64 = 0x7fff_ffff_0000_0000;

/// A payload that was read up to some position.
#[derive(Debug, Clone)]
pub struct Chunk {
    pub data: Vec<u8>,
    pub pos: usize,
}

impl Chunk {
    /// Whether the position is within the payload.
    pub open spec fn wf(self) -> bool {
        self.pos <= self.data@.len()
    }

    /// The bytes that are still to be read.
    pub open spec fn rest(self) -> Seq<u8> {
        self.data@.skip(self.pos as int)
    }
}

/// The bytes that are still to be read, over all chunks.
pub open spec fn unread_bytes(chunks: Seq<Chunk>) -> Seq<u8>
    decreases chunks.len(),
{
    if chunks.len() == 0 {
        seq![]
    } else {
        chunks[0].rest() + unread_bytes(chunks.skip(1))
    }
}

proof fn lemma_unread_push(chunks: Seq<Chunk>, c: Chunk)
    ensures
        unread_bytes(chunks.push(c)) == unread_bytes(chunks) + c.rest(),
    decreases chunks.len(),
{
    let all = chunks.push(c);
    if chunks.len() == 0 {
        assert(all[0] == c);
        assert(all.skip(1).len() == 0);
        assert(unread_bytes(all.skip(1)) =~= Seq::<u8>::empty());
        assert(unread_bytes(all) =~= unread_bytes(chunks) + c.rest());
    } else {
        assert(all.skip(1) =~= chunks.skip(1).push(c));
        lemma_unread_push(chunks.skip(1), c);
        assert(unread_bytes(all) =~= unread_bytes(chunks) + c.rest());
    }
}

/// What a socket remembers.
#[derive(Debug)]
pub struct State {
    pub remote_id: u32,
    pub closed: bool,
    pub read_buffer: VecDeque<Chunk>,
    pub initial_acknowledgment: i64,
    pub acknowledged: i64,
}

/// One stream over a device connection.
#[derive(Debug)]
pub struct SocketBackend {
    pub local_id: u32,
    pub state: State,
}

/// What a socket is, without how the unread bytes are cut into chunks.
#[verifier::ext_equal]
pub struct SocketView {
    pub local_id: u32,
    pub remote_id: u32,
    pub closed: bool,
    pub unread: Seq<u8>,
    pub initial: int,
    pub acknowledged: int,
}

impl View for SocketBackend {
    type V = SocketView;

    open spec fn view(&self) -> SocketView {
        SocketView {
            local_id: self.local_id,
            remote_id: self.state.remote_id,
            closed: self.state.closed,
            unread: unread_bytes(self.state.read_buffer@),
            initial: self.state.initial_acknowledgment as int,
            acknowledged: self.state.acknowledged as int,
        }
    }
}

/// How flushing the connection ended.
#[derive(Debug, Clone, PartialEq, Eq)]
pub enum Flush {
    Ready,
    Pending,
    Failed(Error),
}

/// What a message did to a socket.
#[derive(Debug, Clone, Copy, PartialEq, Eq)]
pub struct Delivery {
    /// Whether the socket is closed now.
    pub closed: bool,
    /// Whether a reader has to be woken.
    pub wake_reader: bool,
    /// Whether a writer has to be woken.
    pub wake_writer: bool,
}

/// What an attempt to read gave.
#[derive(Debug)]
pub enum PollRead {
    Failed(Error),
    Pending,
    /// These bytes; the message, if there is one, has to be sent.
    Ready { data: Vec<u8>, acknowledge: Option<AdbMessage> },
}

/// What an attempt to write gave.
#[derive(Debug)]
pub enum PollWrite {
    Failed(Error),
    Pending,
    /// So many bytes were taken; the message has to be sent.
    Ready { len: usize, write: AdbMessage },
}

/// What an attempt to flush gave.
#[derive(Debug, Clone, PartialEq, Eq)]
pub enum PollFlush {
    Failed(Error),
    Pending,
    Ready,
}

/// What an attempt to shut down gave.
#[derive(Debug)]
pub enum PollShutdown {
    Failed(Error),
    Pending,
    /// The message has to be sent, then the connection flushed.
    Send(AdbMessage),
    Done,
}

/// The error that everything fails with once the connection has failed.
pub open spec fn failed_transport(error: Arc<Error>) -> Error {
    Error { kind: ErrorKind::TransportError(error), detail: Detail::Nothing }
}

/// The smaller of two numbers.
pub open spec fn smaller(a: int, b: int) -> int {
    if a <= b {
        a
    } else {
        b
    }
}

/// The socket after a message for it arrived; `Err` leaves it as it was.
pub open spec fn after_message(s: SocketView, msg: MessageView) -> Result<SocketView, Error> {
    match msg.header.command {
        AdbCommand::OKAY => if msg.payload.len() != 4 {
            Err(Error { kind: ErrorKind::Other, detail: Detail::NoAvailInOkay })
        } else {
            let avail = from_le32(msg.payload);
            let credited = SocketView { acknowledged: s.acknowledged + avail, ..s };
            if s.remote_id == 0 {
                Ok(SocketView { remote_id: msg.header.arg0, initial: avail as int, ..credited })
            } else {
                Ok(credited)
            }
        },
        AdbCommand::WRTE => Ok(SocketView { unread: s.unread + msg.payload, ..s }),
        AdbCommand::CLSE => Ok(SocketView { closed: true, ..s }),
        _ => Ok(s),
    }
}

/// How many bytes an attempt to write takes, if it may write at all.
pub open spec fn writable(s: SocketView, len: int) -> int {
    smaller(smaller(len, s.acknowledged + s.initial), MAX_PAYLOAD as int)
}

/// A socket to which nothing has happened.
pub open spec fn fresh_socket(local_id: u32, remote_id: u32, acknowledged: u32) -> SocketView {
    SocketView {
        local_id,
        remote_id,
        closed: false,
        unread: seq![],
        initial: acknowledged as int,
        acknowledged: acknowledged as int,
    }
}

/// How many bytes a read into `capacity` bytes takes.
pub open spec fn readable(s: SocketView, capacity: int) -> int {
    smaller(capacity, s.unread.len() as int)
}

/// The socket after a read into `capacity` bytes.
pub open spec fn after_read(s: SocketView, capacity: int) -> SocketView {
    SocketView { unread: s.unread.skip(readable(s, capacity)), ..s }
}

/// Whether the peer has room for a write, or the throttle lets it through.
pub open spec fn may_write(s: SocketView, tick: bool) -> bool {
    s.acknowledged > -s.initial && (s.acknowledged > 0 || tick)
}

/// The socket after a write out of `len` bytes, where it may write.
pub open spec fn after_write(s: SocketView, len: int) -> SocketView {
    SocketView { acknowledged: s.acknowledged - writable(s, len), ..s }
}

/// The number of bytes that went out and were not acknowledged yet, where the
/// window was `initial` at first.
pub open spec fn in_flight(s: SocketView) -> int {
    s.initial - s.acknowledged
}

/// What reading into `capacity` bytes does and gives.
pub open spec fn read_outcome(
    before: SocketView,
    after: SocketView,
    error: Option<Arc<Error>>,
    flush: Flush,
    capacity: int,
    res: PollRead,
) -> bool {
    match (error, flush) {
        (Some(e), _) => res == PollRead::Failed(failed_transport(e)) && after == before,
        (None, Flush::Failed(e)) => res == PollRead::Failed(e) && after == before,
        (None, Flush::Pending) => res is Pending && after == before,
        (None, Flush::Ready) => {
            let s = before;
            let n = readable(s, capacity);
            &&& after == after_read(s, capacity)
            &&& if n == 0 && !s.closed {
                res is Pending
            } else {
                &&& res matches PollRead::Ready { data, acknowledge }
                &&& data@ == s.unread.take(n)
                &&& if s.closed {
                    acknowledge is None
                } else {
                    acknowledge matches Some(m) && m@ == message(
                        AdbCommand::OKAY,
                        s.local_id,
                        s.remote_id,
                        le32((n % 0x1_0000_0000) as u32),
                    )
                }
            }
        },
    }
}

/// What writing out of `buf` does and gives.
pub open spec fn write_outcome(
    before: SocketView,
    after: SocketView,
    error: Option<Arc<Error>>,
    flush: Flush,
    tick: bool,
    buf: Seq<u8>,
    res: PollWrite,
) -> bool {
    match (error, flush) {
        (Some(e), _) => res == PollWrite::Failed(failed_transport(e)) && after == before,
        (None, _) if before.closed => after == before && res == PollWrite::Failed(
            Error { kind: ErrorKind::Closed, detail: Detail::Nothing },
        ),
        (None, Flush::Failed(e)) => res == PollWrite::Failed(e) && after == before,
        (None, Flush::Pending) => res is Pending && after == before,
        (None, Flush::Ready) => {
            let s = before;
            if !may_write(s, tick) {
                res is Pending && after == s
            } else {
                let n = writable(s, buf.len() as int);
                &&& after == after_write(s, buf.len() as int)
                &&& res matches PollWrite::Ready { len, write }
                &&& len == n
                &&& write@ == message(AdbCommand::WRTE, s.local_id, s.remote_id, buf.take(n))
            }
        },
    }
}

/// What flushing gives.
pub open spec fn flush_outcome(
    s: SocketView,
    error: Option<Arc<Error>>,
    flush: Flush,
    res: PollFlush,
) -> bool {
    match (error, flush) {
        (Some(e), _) => res == PollFlush::Failed(failed_transport(e)),
        (None, Flush::Failed(e)) => res == PollFlush::Failed(e),
        (None, Flush::Pending) => res is Pending,
        (None, Flush::Ready) => if s.acknowledged == s.initial {
            res is Ready
        } else if s.closed {
            res == PollFlush::Failed(Error { kind: ErrorKind::Flush, detail: Detail::Closed })
        } else {
            res is Pending
        },
    }
}

/// What shutting down does and gives.
pub open spec fn shutdown_outcome(
    before: SocketView,
    after: SocketView,
    error: Option<Arc<Error>>,
    flush: Flush,
    res: PollShutdown,
) -> bool {
    match (error, flush) {
        (Some(e), _) => res == PollShutdown::Failed(failed_transport(e)) && after == before,
        (None, Flush::Failed(e)) => res == PollShutdown::Failed(e) && after == before,
        (None, Flush::Pending) => res is Pending && after == before,
        (None, Flush::Ready) => {
            let s = before;
            if s.acknowledged == s.initial {
                if s.closed {
                    res is Done && after == s
                } else {
                    &&& after == (SocketView { closed: true, ..s })
                    &&& res matches PollShutdown::Send(m) && m@ == message(
                        AdbCommand::CLSE,
                        s.local_id,
                        s.remote_id,
                        seq![],
                    )
                }
            } else if s.closed {
                after == s && res == PollShutdown::Failed(
                    Error { kind: ErrorKind::Flush, detail: Detail::Closed },
                )
            } else {
                res is Pending && after == s
            }
        },
    }
}

/// Whether the message counts up further than the counter goes.
pub open spec fn overflows(s: SocketView, msg: MessageView) -> bool {
    msg.header.command is OKAY && msg.payload.len() == 4 && s.acknowledged + from_le32(
        msg.payload,
    ) > MAX_ACKNOWLEDGED
}

/// Fails if the connection has failed.
pub fn check_transport_error(error: &Option<Arc<Error>>) -> (res: Result<(), Error>)
    ensures
        match *error {
            Some(e) => res == Err::<(), Error>(failed_transport(e)),
            None => res is Ok,
        },
{
    match error {
        Some(e) => Err(Error::new(ErrorKind::TransportError(e.clone()))),
        None => Ok(()),
    }
}

impl SocketBackend {
    /// Whether the socket is in order.
    pub open spec fn wf(self) -> bool {
        &&& forall|i: int|
            0 <= i < self.state.read_buffer@.len() ==> (
            #[trigger] self.state.read_buffer@[i]).wf()
        &&& 0 <= self.state.initial_acknowledgment <= u32::MAX
        &&& -u32::MAX <= self.state.acknowledged <= MAX_ACKNOWLEDGED
    }

    /// A socket into which nothing has arrived, and into which `acknowledged`
    /// bytes may be written before the peer acknowledges.
    pub fn new(local_id: u32, remote_id: u32, acknowledged: u32) -> (socket: SocketBackend)
        ensures
            socket.wf(),
            socket@ == fresh_socket(local_id, remote_id, acknowledged),
    {
        SocketBackend {
            local_id,
            state: State {
                remote_id,
                closed: false,
                read_buffer: VecDeque::new(),
                initial_acknowledgment: acknowledged as i64,
                acknowledged: acknowledged as i64,
            },
        }
    }

    /// Marks the socket as closed; gives the message that tells the peer, if
    /// it has to be told.
    pub fn shutdown(&mut self, error: &Option<Arc<Error>>) -> (msg: Option<AdbMessage>)
        requires
            old(self).wf(),
        ensures
            final(self).wf(),
            if *error is Some || old(self)@.closed {
                msg is None && final(self)@ == old(self)@
            } else {
                &&& final(self)@ == (SocketView { closed: true, ..old(self)@ })
                &&& msg matches Some(m) && m@ == message(
                    AdbCommand::CLSE,
                    old(self)@.local_id,
                    old(self)@.remote_id,
                    seq![],
                )
            },
    {
        if error.is_none() && !self.state.closed {
            self.state.closed = true;
            let empty: Vec<u8> = Vec::new();
            assert(empty@ =~= Seq::<u8>::empty());
            return Some(
                AdbMessage::new(AdbCommand::CLSE, self.local_id, self.state.remote_id, empty),
            );
        }
        None
    }

    /// Whether `handle_message` can take the message: it is one for a socket,
    /// and the count of acknowledged bytes does not overflow.
    pub fn can_handle(&self, msg: &AdbMessage) -> (yes: bool)
        requires
            self.wf(),
        ensures
            yes == ((msg.header.command is OKAY || msg.header.command is WRTE
                || msg.header.command is CLSE) && !overflows(self@, msg@)),
    {
        match msg.header.command {
            AdbCommand::OKAY => {
                if msg.payload.len() == 4 {
                    let avail = read_u32(msg.payload.as_slice(), 0);
                    assert(msg.payload@.subrange(0, 4) =~= msg.payload@);
                    self.state.acknowledged + avail as i64 <= MAX_ACKNOWLEDGED
                } else {
                    true
                }
            },
            AdbCommand::WRTE => true,
            AdbCommand::CLSE => true,
            _ => false,
        }
    }

    /// Takes in a message for this socket.
    pub fn handle_message(&mut self, msg: AdbMessage) -> (res: Result<Delivery, Error>)
        requires
            old(self).wf(),
            msg.header.command is OKAY || msg.header.command is WRTE || msg.header.command is CLSE,
            !overflows(old(self)@, msg@),
        ensures
            final(self).wf(),
            match after_message(old(self)@, msg@) {
                Ok(s) => {
                    &&& final(self)@ == s
                    &&& res == Ok::<Delivery, Error>(
                        Delivery {
                            closed: s.closed,
                            wake_reader: msg.header.command is WRTE || msg.header.command is CLSE,
                            wake_writer: msg.header.command is OKAY || msg.header.command is CLSE,
                        },
                    )
                },
                Err(e) => final(self)@ == old(self)@ && res == Err::<Delivery, Error>(e),
            },
    {
        match msg.header.command {
            AdbCommand::OKAY => {
                if msg.payload.len() != 4 {
                    return Err(Error::with(ErrorKind::Other, Detail::NoAvailInOkay));
                }
                let avail = read_u32(msg.payload.as_slice(), 0);
                assert(msg.payload@.subrange(0, 4) =~= msg.payload@);
                if self.state.remote_id == 0 {
                    self.state.initial_acknowledgment = avail as i64;
                    self.state.remote_id = msg.header.arg0;
                }
                self.state.acknowledged = self.state.acknowledged + avail as i64;
                Ok(Delivery { closed: self.state.closed, wake_reader: false, wake_writer: true })
            },
            AdbCommand::WRTE => {
                let chunk = Chunk { data: msg.payload, pos: 0 };
                proof {
                    lemma_unread_push(self.state.read_buffer@, chunk);
                    assert(chunk.rest() =~= msg.payload@);
                }
                self.state.read_buffer.push_back(chunk);
                Ok(Delivery { closed: self.state.closed, wake_reader: true, wake_writer: false })
            },
            _ => {
                self.state.closed = true;
                Ok(Delivery { closed: true, wake_reader: true, wake_writer: true })
            },
        }
    }

    /// Takes up to `capacity` bytes of what has arrived.
    fn fill(&mut self, capacity: usize) -> (data: Vec<u8>)
        requires
            old(self).wf(),
        ensures
            final(self).wf(),
            ({
                let n = readable(old(self)@, capacity as int);
                &&& data@ == old(self)@.unread.take(n)
                &&& final(self)@ == after_read(old(self)@, capacity as int)
            }),
    {
        let mut data: Vec<u8> = Vec::new();
        let ghost all = self@.unread;
        assert(data@ + all =~= all);
        while data.len() < capacity && self.state.read_buffer.len() > 0
            invariant
                self.wf(),
                self.local_id == old(self).local_id,
                self.state.remote_id == old(self).state.remote_id,
                self.state.closed == old(self).state.closed,
                self.state.initial_acknowledgment == old(self).state.initial_acknowledgment,
                self.state.acknowledged == old(self).state.acknowledged,
                all == old(self)@.unread,
                data@ + self@.unread == all,
                data@.len() <= capacity,
            decreases self.state.read_buffer@.len(), capacity - data@.len(),
        {
            let ghost chunks = self.state.read_buffer@;
            let ghost before = data@;
            let popped = self.state.read_buffer.pop_front();
            assert(popped is Some);
            if let Some(front) = popped {
                assert(front == chunks[0]);
                assert(self.state.read_buffer@ =~= chunks.skip(1));
                assert(chunks[0].wf());
                assert forall|i: int| 0 <= i < self.state.read_buffer@.len() implies (
                #[trigger] self.state.read_buffer@[i]).wf() by {
                    assert(self.state.read_buffer@[i] == chunks[i + 1]);
                }
                let left: usize = front.data.len() - front.pos;
                let room: usize = capacity - data.len();
                let n: usize = if left <= room {
                    left
                } else {
                    room
                };
                let end: usize = front.pos + n;
                let part = vstd::slice::slice_subrange(front.data.as_slice(), front.pos, end);
                data.extend_from_slice(part);
                assert(data@ =~= before + front.rest().take(n as int));
                if n < left {
                    let rest = Chunk { data: front.data, pos: end };
                    assert(rest.rest() =~= front.rest().skip(n as int));
                    let ghost behind = self.state.read_buffer@;
                    self.state.read_buffer.push_front(rest);
                    assert(self.state.read_buffer@ =~= seq![rest] + behind);
                    assert(self.state.read_buffer@.skip(1) =~= behind);
                    assert forall|i: int| 0 <= i < self.state.read_buffer@.len() implies (
                    #[trigger] self.state.read_buffer@[i]).wf() by {
                        if i > 0 {
                            assert(self.state.read_buffer@[i] == behind[i - 1]);
                        }
                    }
                    assert(front.rest() =~= front.rest().take(n as int) + rest.rest());
                    assert(data@ + self@.unread =~= before + unread_bytes(chunks));
                } else {
                    assert(front.rest().take(n as int) =~= front.rest());
                    assert(data@ + self@.unread =~= before + unread_bytes(chunks));
                }
            }
        }
        proof {
            let n = smaller(capacity as int, all.len() as int);
            assert(data@.len() == n);
            assert(data@ =~= all.take(n));
            assert(self@.unread =~= all.skip(n));
        }
        data
    }

    /// Reads up to `capacity` bytes. `flush` is how flushing the connection
    /// ended; it counts only while the connection has not failed.
    pub fn poll_read(
        &mut self,
        error: &Option<Arc<Error>>,
        flush: Flush,
        capacity: usize,
    ) -> (res: PollRead)
        requires
            old(self).wf(),
        ensures
            final(self).wf(),
            read_outcome(old(self)@, final(self)@, *error, flush, capacity as int, res),
    {
        if let Err(e) = check_transport_error(error) {
            return PollRead::Failed(e);
        }
        match flush {
            Flush::Failed(e) => {
                return PollRead::Failed(e);
            },
            Flush::Pending => {
                return PollRead::Pending;
            },
            Flush::Ready => {},
        }
        let data = self.fill(capacity);
        if self.state.closed {
            return PollRead::Ready { data, acknowledge: None };
        }
        if data.len() == 0 {
            return PollRead::Pending;
        }
        let filled: u32 = (data.len() as u64 % 0x1_0000_0000) as u32;
        let acknowledge = AdbMessage::new(
            AdbCommand::OKAY,
            self.local_id,
            self.state.remote_id,
            write_u32(filled),
        );
        PollRead::Ready { data, acknowledge: Some(acknowledge) }
    }

    /// Writes as much of `buf` as the peer has room for. `flush` is how
    /// flushing the connection ended; `tick` is whether the throttle lets a
    /// write through that the peer has not made room for yet.
    pub fn poll_write(
        &mut self,
        error: &Option<Arc<Error>>,
        flush: Flush,
        tick: bool,
        buf: &[u8],
    ) -> (res: PollWrite)
        requires
            old(self).wf(),
        ensures
            final(self).wf(),
            write_outcome(old(self)@, final(self)@, *error, flush, tick, buf@, res),
    {
        if let Err(e) = check_transport_error(error) {
            return PollWrite::Failed(e);
        }
        if self.state.closed {
            return PollWrite::Failed(Error::new(ErrorKind::Closed));
        }
        match flush {
            Flush::Failed(e) => {
                return PollWrite::Failed(e);
            },
            Flush::Pending => {
                return PollWrite::Pending;
            },
            Flush::Ready => {},
        }
        if self.state.acknowledged <= -self.state.initial_acknowledgment {
            return PollWrite::Pending;
        }
        if self.state.acknowledged <= 0 && !tick {
            return PollWrite::Pending;
        }
        let window: u64 = (self.state.acknowledged + self.state.initial_acknowledgment) as u64;
        let mut len: usize = buf.len();
        if len as u64 > window {
            len = window as usize;
        }
        if len > MAX_PAYLOAD as usize {
            len = MAX_PAYLOAD as usize;
        }
        assert(len == writable(self@, buf@.len() as int));
        self.state.acknowledged = self.state.acknowledged - len as i64;
        let payload = vstd::slice::slice_to_vec(vstd::slice::slice_subrange(buf, 0, len));
        assert(payload@ =~= buf@.take(len as int));
        let write = AdbMessage::new(
            AdbCommand::WRTE,
            self.local_id,
            self.state.remote_id,
            payload,
        );
        PollWrite::Ready { len, write }
    }

    /// Whether everything that was written is acknowledged. `flush` is how
    /// flushing the connection ended.
    pub fn poll_flush(&self, error: &Option<Arc<Error>>, flush: Flush) -> (res: PollFlush)
        requires
            self.wf(),
        ensures
            flush_outcome(self@, *error, flush, res),
    {
        if let Err(e) = check_transport_error(error) {
            return PollFlush::Failed(e);
        }
        match flush {
            Flush::Failed(e) => {
                return PollFlush::Failed(e);
            },
            Flush::Pending => {
                return PollFlush::Pending;
            },
            Flush::Ready => {},
        }
        if self.state.acknowledged == self.state.initial_acknowledgment {
            PollFlush::Ready
        } else if self.state.closed {
            PollFlush::Failed(Error::with(ErrorKind::Flush, Detail::Closed))
        } else {
            PollFlush::Pending
        }
    }

    /// Flushes the socket, then closes it and tells the peer. `flush` is how
    /// flushing the connection ended.
    pub fn poll_shutdown(&mut self, error: &Option<Arc<Error>>, flush: Flush) -> (res: PollShutdown)
        requires
            old(self).wf(),
        ensures
            final(self).wf(),
            shutdown_outcome(old(self)@, final(self)@, *error, flush, res),
    {
        match self.poll_flush(error, flush) {
            PollFlush::Failed(e) => PollShutdown::Failed(e),
            PollFlush::Pending => PollShutdown::Pending,
            PollFlush::Ready => match self.shutdown(error) {
                Some(msg) => PollShutdown::Send(msg),
                None => PollShutdown::Done,
            },
        }
    }
}

/// Something that happens to a socket.
pub enum Step {
    /// A message for it arrives.
    Message(MessageView),
    /// Up to so many bytes are read.
    Read(nat),
    /// So many bytes are to be written; the throttle lets them through or not.
    Write(nat, bool),
}

/// The socket after the step.
pub open spec fn step(s: SocketView, event: Step) -> SocketView {
    match event {
        Step::Message(msg) => match after_message(s, msg) {
            Ok(t) => t,
            Err(_) => s,
        },
        Step::Read(n) => after_read(s, n as int),
        Step::Write(n, tick) => if !s.closed && may_write(s, tick) {
            after_write(s, n as int)
        } else {
            s
        },
    }
}

/// The bytes that a step hands to the reader.
pub open spec fn handed_out(s: SocketView, event: Step) -> Seq<u8> {
    match event {
        Step::Read(n) => s.unread.take(readable(s, n as int)),
        _ => seq![],
    }
}

/// The bytes that a step brings in.
pub open spec fn brought_in(event: Step) -> Seq<u8> {
    match event {
        Step::Message(msg) => if msg.header.command is WRTE {
            msg.payload
        } else {
            seq![]
        },
        _ => seq![],
    }
}

/// The socket after all steps.
pub open spec fn after_steps(s: SocketView, events: Seq<Step>) -> SocketView
    decreases events.len(),
{
    if events.len() == 0 {
        s
    } else {
        step(after_steps(s, events.drop_last()), events.last())
    }
}

/// All that was handed to the reader.
pub open spec fn all_handed_out(s: SocketView, events: Seq<Step>) -> Seq<u8>
    decreases events.len(),
{
    if events.len() == 0 {
        seq![]
    } else {
        all_handed_out(s, events.drop_last()) + handed_out(
            after_steps(s, events.drop_last()),
            events.last(),
        )
    }
}

/// All that came in.
pub open spec fn all_brought_in(events: Seq<Step>) -> Seq<u8>
    decreases events.len(),
{
    if events.len() == 0 {
        seq![]
    } else {
        all_brought_in(events.drop_last()) + brought_in(events.last())
    }
}

/// Nothing is lost, doubled or reordered: what was read, followed by what is
/// still unread, is what was unread at first, followed by all that arrived.
pub proof fn law_reads_follow_arrivals(s: SocketView, events: Seq<Step>)
    ensures
        all_handed_out(s, events) + after_steps(s, events).unread == s.unread + all_brought_in(
            events,
        ),
    decreases events.len(),
{
    if events.len() == 0 {
        assert(all_handed_out(s, events) + s.unread =~= s.unread + all_brought_in(events));
    } else {
        let before = events.drop_last();
        law_reads_follow_arrivals(s, before);
        let mid = after_steps(s, before);
        let event = events.last();
        assert(handed_out(mid, event) + step(mid, event).unread =~= mid.unread + brought_in(event));
        assert(all_handed_out(s, events) + after_steps(s, events).unread =~= all_handed_out(
            s,
            before,
        ) + (handed_out(mid, event) + step(mid, event).unread));
        assert(s.unread + all_brought_in(events) =~= (s.unread + all_brought_in(before))
            + brought_in(event));
        assert(all_handed_out(s, before) + (mid.unread + brought_in(event)) =~= (all_handed_out(
            s,
            before,
        ) + mid.unread) + brought_in(event));
    }
}

/// Once the peer is known, the window stays what it is, and however the socket
/// is used, never more than twice the window is in flight.
pub proof fn law_window_is_kept(s: SocketView, events: Seq<Step>)
    requires
        s.remote_id != 0,
        s.initial >= 0,
        in_flight(s) <= 2 * s.initial,
    ensures
        after_steps(s, events).remote_id == s.remote_id,
        after_steps(s, events).initial == s.initial,
        in_flight(after_steps(s, events)) <= 2 * s.initial,
    decreases events.len(),
{
    if events.len() > 0 {
        law_window_is_kept(s, events.drop_last());
    }
}

/// A socket that the peer opened starts with nothing in flight.
pub proof fn law_new_socket_keeps_its_window(
    local_id: u32,
    remote_id: u32,
    acknowledged: u32,
    events: Seq<Step>,
)
    requires
        remote_id != 0,
    ensures
        in_flight(fresh_socket(local_id, remote_id, acknowledged)) == 0,
        in_flight(after_steps(fresh_socket(local_id, remote_id, acknowledged), events)) <= 2
            * acknowledged,
{
    law_window_is_kept(fresh_socket(local_id, remote_id, acknowledged), events);
}

/// A socket that was opened from this side knows no peer and writes nothing
/// until the first acknowledgment, which names the peer and opens the window
/// with nothing in flight.
pub proof fn law_first_okay_opens_the_window(local_id: u32, tick: bool, msg: MessageView)
    requires
        msg.header.command is OKAY,
        msg.payload.len() == 4,
    ensures
        !may_write(fresh_socket(local_id, 0, 0), tick),
        after_message(fresh_socket(local_id, 0, 0), msg) matches Ok(t) && t.remote_id
            == msg.header.arg0 && t.initial == from_le32(msg.payload) && in_flight(t) == 0,
{
}

/// Once closed, a socket stays closed.
pub proof fn law_closed_stays_closed(s: SocketView, events: Seq<Step>)
    requires
        s.closed,
    ensures
        after_steps(s, events).closed,
    decreases events.len(),
{
    if events.len() > 0 {
        law_closed_stays_closed(s, events.drop_last());
    }
}

/// Whatever is done with a socket, it keeps the number it was started under,
/// and the number of the peer from the moment that it knows it.
pub proof fn law_numbers_stay(s: SocketView, events: Seq<Step>)
    ensures
        after_steps(s, events).local_id == s.local_id,
        s.remote_id != 0 ==> after_steps(s, events).remote_id == s.remote_id,
    decreases events.len(),
{
    if events.len() > 0 {
        law_numbers_stay(s, events.drop_last());
    }
}

/// Every message that a socket sends names the socket first, by its own number,
/// and then the peer, by the number that the peer gave it: what it writes, what
/// it acknowledges, and that it closes.
pub proof fn law_messages_name_the_socket_then_the_peer(
    socket: &mut SocketBackend,
    error: &Option<Arc<Error>>,
    flush: Flush,
    tick: bool,
    buf: &[u8],
    len: usize,
    write: AdbMessage,
    reader: &mut SocketBackend,
    capacity: usize,
    data: Vec<u8>,
    okay: AdbMessage,
    closer: &mut SocketBackend,
    close: AdbMessage,
    dropped: &mut SocketBackend,
    last: AdbMessage,
)
    requires
        call_ensures(
            SocketBackend::poll_write,
            (socket, error, flush, tick, buf),
            (PollWrite::Ready { len, write }),
        ),
        call_ensures(
            SocketBackend::poll_read,
            (reader, error, flush, capacity),
            (PollRead::Ready { data, acknowledge: Some(okay) }),
        ),
        call_ensures(
            SocketBackend::poll_shutdown,
            (closer, error, flush),
            PollShutdown::Send(close),
        ),
        call_ensures(SocketBackend::shutdown, (dropped, error), Some(last)),
    ensures
        write.header.command == AdbCommand::WRTE,
        write.header.arg0 == old(socket).local_id,
        write.header.arg1 == old(socket).state.remote_id,
        write.payload@ == buf@.take(len as int),
        okay.header.command == AdbCommand::OKAY,
        okay.header.arg0 == old(reader).local_id,
        okay.header.arg1 == old(reader).state.remote_id,
        close.header.command == AdbCommand::CLSE,
        close.header.arg0 == old(closer).local_id,
        close.header.arg1 == old(closer).state.remote_id,
        close.payload@.len() == 0,
        last.header.command == AdbCommand::CLSE,
        last.header.arg0 == old(dropped).local_id,
        last.header.arg1 == old(dropped).state.remote_id,
        last.payload@.len() == 0,
{
    assert(write@.header == write.header);
    assert(okay@.header == okay.header);
    assert(close@.header == close.header && close@.payload == close.payload@);
    assert(last@.header == last.header && last@.payload == last.payload@);
}

/// Over a connection that works, a read hands out the oldest bytes that have
/// arrived, as many as there is room for, and keeps the rest. It tells the peer
/// how many, unless the socket is closed. It waits where there is nothing to
/// hand out and more can come, and gives nothing at the end.
pub proof fn law_reads_hand_out_what_arrived(
    socket: &mut SocketBackend,
    capacity: usize,
    res: PollRead,
)
    requires
        call_ensures(
            SocketBackend::poll_read,
            (socket, &None::<Arc<Error>>, Flush::Ready, capacity),
            res,
        ),
    ensures
        ({
            let before = old(socket)@;
            let after = final(socket)@;
            let nothing = before.unread.len() == 0 || capacity == 0;
            &&& res is Pending <==> nothing && !before.closed
            &&& !(res is Failed)
            &&& res is Pending ==> after == before
            &&& res matches PollRead::Ready { data, acknowledge } ==> {
                &&& data@ + after.unread == before.unread
                &&& data@.len() <= capacity
                &&& data@.len() < capacity ==> after.unread.len() == 0
                &&& acknowledge is None <==> before.closed
                &&& acknowledge matches Some(m) ==> data@.len() < 0x1_0000_0000 ==> from_le32(
                    m.payload@,
                ) == data@.len() && m.payload@.len() == 4
                &&& after == (SocketView { unread: after.unread, ..before })
            }
        }),
{
    let before = old(socket)@;
    let n = readable(before, capacity as int);
    assert(before.unread =~= before.unread.take(n) + before.unread.skip(n));
    law_le32_reads_back((n % 0x1_0000_0000) as u32);
    if let PollRead::Ready { data, acknowledge } = res {
        if let Some(m) = acknowledge {
            assert(m@.payload == m.payload@);
        }
    }
    if n == 0 {
        assert(before.unread.skip(0) =~= before.unread);
    }
}

/// Over a connection that works, a write to an open socket takes bytes as long
/// as less than the window is in flight, up to twice the window as fast as the
/// throttle lets it, and none beyond. It takes bytes from the front, and all of
/// them but for the window and the most that one message carries.
pub proof fn law_writes_fill_the_window(
    socket: &mut SocketBackend,
    tick: bool,
    buf: &[u8],
    res: PollWrite,
)
    requires
        old(socket).wf(),
        !old(socket).state.closed,
        call_ensures(
            SocketBackend::poll_write,
            (socket, &None::<Arc<Error>>, Flush::Ready, tick, buf),
            res,
        ),
    ensures
        ({
            let before = old(socket)@;
            let after = final(socket)@;
            let window = before.initial;
            let sent = before.initial - before.acknowledged;
            &&& res is Ready <==> sent < window || sent < 2 * window && tick
            &&& res is Pending <==> !(res is Ready)
            &&& res is Pending ==> after == before
            &&& res matches PollWrite::Ready { len, write } ==> {
                &&& write.payload@.len() == len
                &&& buf@.len() > 0 ==> len > 0
                &&& len <= buf@.len()
                &&& len <= 0x10_0000
                &&& len < buf@.len() && len < 0x10_0000 ==> sent + len == 2 * window
                &&& after == (SocketView { acknowledged: before.acknowledged - len, ..before })
            }
        }),
{
    if let PollWrite::Ready { len, write } = res {
        assert(write@.payload == write.payload@);
    }
}

/// A socket is flushed exactly when every byte that it sent was acknowledged.
pub proof fn law_flushed_is_acknowledged(socket: &SocketBackend, flush: Flush, res: PollFlush)
    requires
        call_ensures(SocketBackend::poll_flush, (socket, &None::<Arc<Error>>, flush), res),
    ensures
        res is Ready <==> flush is Ready && socket@.initial == socket@.acknowledged,
        flush is Ready && !(res is Ready) ==> if socket@.closed {
            res == PollFlush::Failed(Error { kind: ErrorKind::Flush, detail: Detail::Closed })
        } else {
            res is Pending
        },
        flush is Pending ==> res is Pending,
        flush matches Flush::Failed(e) ==> res == PollFlush::Failed(e),
{
}

/// A socket closes once: it is not closed before every byte is acknowledged, it
/// then tells the peer, and it never tells the peer again.
pub proof fn law_closing_is_told_once(
    first: &mut SocketBackend,
    flush: Flush,
    res: PollShutdown,
    second: &mut SocketBackend,
    again: PollShutdown,
    third: &mut SocketBackend,
    dropped: Option<AdbMessage>,
)
    requires
        call_ensures(SocketBackend::poll_shutdown, (first, &None::<Arc<Error>>, flush), res),
        *old(second) == *final(first),
        call_ensures(
            SocketBackend::poll_shutdown,
            (second, &None::<Arc<Error>>, Flush::Ready),
            again,
        ),
        *old(third) == *final(second),
        call_ensures(SocketBackend::shutdown, (third, &None::<Arc<Error>>), dropped),
    ensures
        res is Send <==> flush is Ready && !old(first)@.closed && old(first)@.initial == old(
            first,
        )@.acknowledged,
        res is Send ==> final(first)@ == (SocketView { closed: true, ..old(first)@ }),
        !(res is Send) ==> final(first)@ == old(first)@,
        res is Send ==> again is Done && dropped is None,
        final(third)@.closed,
        dropped is Some <==> !old(third)@.closed,
{
}

/// What arrives does to a socket what it says, and wakes those who wait for it:
/// bytes go behind those that are there, an acknowledgment makes room for as
/// many bytes as it counts, and a close closes.
pub proof fn law_messages_do_what_they_say(
    socket: &mut SocketBackend,
    msg: AdbMessage,
    res: Result<Delivery, Error>,
)
    requires
        call_ensures(SocketBackend::handle_message, (socket, msg), res),
        msg.header.command is OKAY || msg.header.command is WRTE || msg.header.command is CLSE,
    ensures
        ({
            let before = old(socket)@;
            let after = final(socket)@;
            &&& after.local_id == before.local_id
            &&& res is Err <==> msg.header.command is OKAY && msg.payload@.len() != 4
            &&& res is Err ==> after == before
            &&& msg.header.command is WRTE ==> {
                &&& after == (SocketView { unread: before.unread + msg.payload@, ..before })
                &&& res matches Ok(d) && d.wake_reader && !d.wake_writer && d.closed
                    == before.closed
            }
            &&& msg.header.command is CLSE ==> {
                &&& after == (SocketView { closed: true, ..before })
                &&& res matches Ok(d) && d.wake_reader && d.wake_writer && d.closed
            }
            &&& msg.header.command is OKAY && res is Ok ==> {
                &&& after.acknowledged == before.acknowledged + from_le32(msg.payload@)
                &&& after.unread == before.unread && after.closed == before.closed
                &&& before.remote_id != 0 ==> after.remote_id == before.remote_id && after.initial
                    == before.initial
                &&& before.remote_id == 0 ==> after.remote_id == msg.header.arg0 && after.initial
                    == from_le32(msg.payload@)
                &&& res matches Ok(d) && d.wake_writer && !d.wake_reader && d.closed
                    == before.closed
            }
        }),
{
}

/// Once the connection has failed, everything that is tried with a socket fails
/// for that reason, and the socket stays as it is.
pub proof fn law_a_failed_connection_fails_its_sockets(
    e: Arc<Error>,
    flush: Flush,
    tick: bool,
    buf: &[u8],
    capacity: usize,
    reader: &mut SocketBackend,
    read: PollRead,
    writer: &mut SocketBackend,
    written: PollWrite,
    flusher: &SocketBackend,
    flushed: PollFlush,
    closer: &mut SocketBackend,
    closed: PollShutdown,
)
    requires
        call_ensures(SocketBackend::poll_read, (reader, &Some(e), flush, capacity), read),
        call_ensures(SocketBackend::poll_write, (writer, &Some(e), flush, tick, buf), written),
        call_ensures(SocketBackend::poll_flush, (flusher, &Some(e), flush), flushed),
        call_ensures(SocketBackend::poll_shutdown, (closer, &Some(e), flush), closed),
    ensures
        read matches PollRead::Failed(err) && err.kind == ErrorKind::TransportError(e),
        written matches PollWrite::Failed(err) && err.kind == ErrorKind::TransportError(e),
        flushed matches PollFlush::Failed(err) && err.kind == ErrorKind::TransportError(e),
        closed matches PollShutdown::Failed(err) && err.kind == ErrorKind::TransportError(e),
        final(reader)@ == old(reader)@,
        final(writer)@ == old(writer)@,
        final(closer)@ == old(closer)@,
{
}

/// While the connection cannot be flushed, nothing is read, written or closed;
/// why it cannot is handed on, unless a write finds the socket closed.
pub proof fn law_sockets_wait_for_the_flush(
    flush: Flush,
    tick: bool,
    buf: &[u8],
    capacity: usize,
    reader: &mut SocketBackend,
    read: PollRead,
    writer: &mut SocketBackend,
    written: PollWrite,
)
    requires
        !(flush is Ready),
        call_ensures(
            SocketBackend::poll_read,
            (reader, &None::<Arc<Error>>, flush, capacity),
            read,
        ),
        call_ensures(
            SocketBackend::poll_write,
            (writer, &None::<Arc<Error>>, flush, tick, buf),
            written,
        ),
    ensures
        final(reader)@ == old(reader)@,
        final(writer)@ == old(writer)@,
        match flush {
            Flush::Failed(e) => read == PollRead::Failed(e) && (!old(writer)@.closed ==> written
                == PollWrite::Failed(e)),
            _ => read is Pending && (!old(writer)@.closed ==> written is Pending),
        },
        old(writer)@.closed ==> written == PollWrite::Failed(
            Error { kind: ErrorKind::Closed, detail: Detail::Nothing },
        ),
{
}

/// A message is taken by a socket unless it counts further than the counter
/// goes; only acknowledgments count.
pub proof fn law_only_counting_too_far_is_not_taken(
    socket: &SocketBackend,
    msg: &AdbMessage,
    yes: bool,
)
    requires
        call_ensures(SocketBackend::can_handle, (socket, msg), yes),
    ensures
        msg.header.command is WRTE || msg.header.command is CLSE ==> yes,
        msg.header.command is OKAY && msg.payload@.len() == 4 ==> (yes <==> socket@.acknowledged
            + from_le32(msg.payload@) <= 0x7fff_ffff_0000_0000),
        msg.header.command is OKAY && msg.payload@.len() != 4 ==> yes,
        msg.header.command is OPEN || msg.header.command is CNXN || msg.header.command is AUTH
            || msg.header.command is Unknown ==> !yes,
{
}

/// A new socket has the numbers and the window that it is made with; it is open,
/// and nothing has arrived in it.
pub proof fn law_new_sockets_are_open_and_empty(
    local_id: u32,
    remote_id: u32,
    window: u32,
    socket: SocketBackend,
)
    requires
        call_ensures(SocketBackend::new, (local_id, remote_id, window), socket),
    ensures
        socket@.local_id == local_id,
        socket@.remote_id == remote_id,
        socket@.initial == window,
        socket@.acknowledged == window,
        socket@.unread.len() == 0,
        !socket@.closed,
{
}

/// A connection that has failed is told to have failed with that error, and one
/// that has not is not.
pub proof fn law_failed_connections_are_told(
    error: Arc<Error>,
    failed: Result<(), Error>,
    fine: Result<(), Error>,
)
    requires
        call_ensures(check_transport_error, (&Some(error),), failed),
        call_ensures(check_transport_error, (&None,), fine),
    ensures
        failed matches Err(e) && e.kind == ErrorKind::TransportError(error),
        fine is Ok,
{
}

} // verus!
