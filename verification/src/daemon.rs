//! How the daemon takes the place of another ADB server.

use vstd::prelude::*;
use vstd::utf8::encode_utf8;
use crate::protocol::{
    framed, law_read_back, read_text, write_protocol_string, ProtocolError,
};
use crate::smart_socket::{status_bytes, Status};

verus! {

/// The request that only this daemon knows.
pub const PROBE: &'static str = "host:is-adb-daemon-rs";

/// The request that ends a server.
pub const KILL: &'static str = "host:kill";

/// A request to another server, as it is sent.
pub fn service_request(service: &str) -> (bytes: Vec<u8>)
    ensures
        bytes@ == framed(encode_utf8(service@)),
{
    let data = service.as_bytes_vec();
    write_protocol_string(data.as_slice())
}

/// Whether another server did what it was asked.
pub fn is_okay(status: &[u8; 4]) -> (okay: bool)
    ensures
        okay == (status@ == status_bytes(Status::Okay)),
{
    let okay = status[0] == 0x4f && status[1] == 0x4b && status[2] == 0x41 && status[3] == 0x59;
    proof {
        if okay {
            assert(status@ =~= status_bytes(Status::Okay));
        } else {
            assert(status@[0] == status[0] && status@[1] == status[1] && status@[2] == status[2]
                && status@[3] == status[3]);
        }
    }
    okay
}

/// What came of a request to another server.
#[derive(Debug, Clone, Copy, PartialEq, Eq)]
pub enum Probed {
    /// It answered, with `OKAY` or otherwise.
    Answered { okay: bool },
    /// Nothing listens there.
    Refused,
    /// Something else went wrong.
    Failed,
}

/// What came of an attempt to listen where clients connect.
#[derive(Debug, Clone, Copy, PartialEq, Eq)]
pub enum Bound {
    Listening,
    /// Somebody else got there first.
    InUse,
    Failed,
}

/// At what the daemon failed to take the place of another server.
#[derive(Debug, Clone, Copy, PartialEq, Eq)]
pub enum StartError {
    /// The other server could not be asked.
    Probe,
    /// The other server could not be asked to end.
    Kill,
    /// The other server did not end.
    NotKilled,
    Bind,
}

impl StartError {
    /// What is said of it, unless the error itself is told.
    pub open spec fn spec_text(self) -> Option<Seq<char>> {
        match self {
            StartError::Probe => None,
            StartError::Kill => Some("kill"@),
            StartError::NotKilled => Some("failed to kill adb"@),
            StartError::Bind => Some("bind smartsocket"@),
        }
    }

    /// What is said of it, unless the error itself is told.
    pub fn text(&self) -> (text: Option<String>)
        ensures
            match text {
                Some(t) => self.spec_text() == Some(t@),
                None => self.spec_text() is None,
            },
    {
        match self {
            StartError::Probe => None,
            StartError::Kill => Some("kill".to_owned()),
            StartError::NotKilled => Some("failed to kill adb".to_owned()),
            StartError::Bind => Some("bind smartsocket".to_owned()),
        }
    }
}

/// What happened on the way to listening where clients connect.
#[derive(Debug, Clone, Copy, PartialEq, Eq)]
pub enum StartEvent {
    Started,
    Probed(Probed),
    Killed(Probed),
    Bound(Bound),
}

/// What to do next on the way to listening where clients connect.
#[derive(Debug, Clone, Copy, PartialEq, Eq)]
pub enum StartStep {
    /// Ask whether this daemon runs already.
    Probe,
    /// Ask the other server to end.
    Kill,
    /// Listen.
    Bind,
    /// This daemon runs already.
    Running,
    /// Clients can connect.
    Listening,
    Fail(StartError),
}

/// What to do next on the way to listening where clients connect.
pub open spec fn start_step(event: StartEvent) -> StartStep {
    match event {
        StartEvent::Started => StartStep::Probe,
        StartEvent::Probed(Probed::Answered { okay }) => if okay {
            StartStep::Running
        } else {
            StartStep::Kill
        },
        StartEvent::Probed(Probed::Refused) => StartStep::Bind,
        StartEvent::Probed(Probed::Failed) => StartStep::Fail(StartError::Probe),
        StartEvent::Killed(Probed::Answered { okay }) => if okay {
            StartStep::Bind
        } else {
            StartStep::Fail(StartError::NotKilled)
        },
        StartEvent::Killed(_) => StartStep::Fail(StartError::Kill),
        StartEvent::Bound(Bound::Listening) => StartStep::Listening,
        StartEvent::Bound(Bound::InUse) => StartStep::Probe,
        StartEvent::Bound(Bound::Failed) => StartStep::Fail(StartError::Bind),
    }
}

/// What to do next on the way to listening where clients connect.
pub fn bind_smartsocket(event: StartEvent) -> (step: StartStep)
    ensures
        step == start_step(event),
{
    match event {
        StartEvent::Started => StartStep::Probe,
        StartEvent::Probed(probed) => match probed {
            Probed::Answered { okay: true } => StartStep::Running,
            Probed::Answered { okay: false } => StartStep::Kill,
            Probed::Refused => StartStep::Bind,
            Probed::Failed => StartStep::Fail(StartError::Probe),
        },
        StartEvent::Killed(probed) => match probed {
            Probed::Answered { okay: true } => StartStep::Bind,
            Probed::Answered { okay: false } => StartStep::Fail(StartError::NotKilled),
            Probed::Refused => StartStep::Fail(StartError::Kill),
            Probed::Failed => StartStep::Fail(StartError::Kill),
        },
        StartEvent::Bound(bound) => match bound {
            Bound::Listening => StartStep::Listening,
            Bound::InUse => StartStep::Probe,
            Bound::Failed => StartStep::Fail(StartError::Bind),
        },
    }
}

/// Only a server that answered and is not this daemon is asked to end.
pub proof fn law_only_other_servers_are_killed(event: StartEvent)
    ensures
        start_step(event) is Kill <==> event == StartEvent::Probed(
            Probed::Answered { okay: false },
        ),
{
}

/// Clients are listened to only where no server answers, or the one that did
/// has agreed to end.
pub proof fn law_listening_takes_a_free_place(event: StartEvent)
    ensures
        start_step(event) is Bind <==> event == StartEvent::Probed(Probed::Refused) || event
            == StartEvent::Killed(Probed::Answered { okay: true }),
{
}

/// On the way to listening, the daemon asks first, and again where somebody else
/// got there first; it is content where it runs already, and listens once it can.
/// Everything else is a failure, and each is told apart.
pub proof fn law_the_way_to_listening(event: StartEvent, step: StartStep)
    requires
        call_ensures(bind_smartsocket, (event,), step),
    ensures
        step is Probe <==> event is Started || event == StartEvent::Bound(Bound::InUse),
        step is Running <==> event == StartEvent::Probed(Probed::Answered { okay: true }),
        step is Kill <==> event == StartEvent::Probed(Probed::Answered { okay: false }),
        step is Bind <==> event == StartEvent::Probed(Probed::Refused) || event
            == StartEvent::Killed(Probed::Answered { okay: true }),
        step is Listening <==> event == StartEvent::Bound(Bound::Listening),
        step == StartStep::Fail(StartError::Probe) <==> event == StartEvent::Probed(Probed::Failed),
        step == StartStep::Fail(StartError::Kill) <==> event == StartEvent::Killed(Probed::Refused)
            || event == StartEvent::Killed(Probed::Failed),
        step == StartStep::Fail(StartError::NotKilled) <==> event == StartEvent::Killed(
            Probed::Answered { okay: false },
        ),
        step == StartStep::Fail(StartError::Bind) <==> event == StartEvent::Bound(Bound::Failed),
{
}

/// A request to another server is read there as it was meant, and an answer
/// counts as success exactly if it is spelled so.
pub proof fn law_other_servers_understand(
    service: &str,
    bytes: Vec<u8>,
    status: &[u8; 4],
    okay: bool,
)
    requires
        call_ensures(service_request, (service,), bytes),
        encode_utf8(service@).len() <= 0xffff,
        call_ensures(is_okay, (status,), okay),
    ensures
        read_text(bytes@) == Ok::<_, ProtocolError>((service@, bytes@.len() as int)),
        okay <==> status@ == seq!['O' as u8, 'K' as u8, 'A' as u8, 'Y' as u8],
{
    law_read_back(service@, seq![]);
    assert(bytes@ + Seq::<u8>::empty() =~= bytes@);
    assert(status_bytes(Status::Okay) =~= seq!['O' as u8, 'K' as u8, 'A' as u8, 'Y' as u8]);
}

/// Each failure to take the place of another server has its words, but for the
/// one of which the error itself is told.
pub proof fn law_failures_to_start_have_their_words(
    probe: Option<String>,
    kill: Option<String>,
    not_killed: Option<String>,
    bind: Option<String>,
)
    requires
        call_ensures(StartError::text, (&StartError::Probe,), probe),
        call_ensures(StartError::text, (&StartError::Kill,), kill),
        call_ensures(StartError::text, (&StartError::NotKilled,), not_killed),
        call_ensures(StartError::text, (&StartError::Bind,), bind),
    ensures
        probe is None,
        kill matches Some(t) && t@ == "kill"@,
        not_killed matches Some(t) && t@ == "failed to kill adb"@,
        bind matches Some(t) && t@ == "bind smartsocket"@,
{
}

} // verus!
