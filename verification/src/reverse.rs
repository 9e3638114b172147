//! Reverse forwarding: the services of the host that a device may connect to.

use vstd::prelude::*;
use crate::forward::{
    forward_request, law_forward_request_is_read, law_other_forward_requests_are_read,
    parsed_command, Command, ForwardCommand, ForwardingMgr,
};
use crate::number::digits;
use crate::proto::{
    law_ends_are_named, law_proto_reads_back, parsed_proto, proto_text, Proto, ProtoView,
};
use crate::smart_socket::{Failed, ServiceError};
use crate::text::{has_prefix, law_prefix_comes_off, strip_prefix, stripped};
use crate::transport::PendingSocket;

verus! {

/// Where a reverse forward leads.
#[derive(Debug, PartialEq, Eq)]
pub struct Reverse {
    pub local: Proto,
}

/// The reverse forwards of a device, by the end on the device.
#[derive(Debug)]
pub struct ReverseForwards {
    pub entries: Vec<(Proto, Reverse)>,
}

/// Whether the end on the device is that of the entry at `i`.
pub open spec fn entry_at(entries: Seq<(Proto, Reverse)>, remote: ProtoView, i: int) -> bool {
    0 <= i < entries.len() && entries[i].0@ == remote
}

impl View for ReverseForwards {
    type V = Map<ProtoView, ProtoView>;

    open spec fn view(&self) -> Map<ProtoView, ProtoView> {
        Map::new(
            |remote: ProtoView| exists|i: int| entry_at(self.entries@, remote, i),
            |remote: ProtoView|
                self.entries@[choose|i: int| entry_at(self.entries@, remote, i)].1.local@,
        )
    }
}

/// The reverse forwards after a request to the device.
pub open spec fn after_reverse(table: Map<ProtoView, ProtoView>, service: Seq<char>) -> Result<
    Map<ProtoView, ProtoView>,
    Failed,
> {
    match stripped(service, "reverse:"@) {
        None => Ok(table),
        Some(s) => match parsed_command(s) {
            Err(e) => Err(e),
            Ok(None) => Err(Failed::MalformedReverse),
            Ok(Some(Command::Add { left, right, norebind })) => if norebind && table.contains_key(
                left,
            ) {
                Err(Failed::WouldFail)
            } else {
                Ok(table.insert(left, right))
            },
            Ok(Some(Command::Remove(remote))) => Ok(table.remove(remote)),
            Ok(Some(Command::RemoveAll)) => Ok(Map::empty()),
            Ok(Some(Command::List)) => Ok(table),
        },
    }
}

/// Why a device may not connect to a service of the host.
#[derive(Debug, Clone, Copy, PartialEq, Eq)]
pub enum Refusal {
    /// The service has no proper name.
    ParseProto,
    /// The service is no port.
    UnsupportedProtocol,
    /// No reverse forward leads there.
    Denied,
}

/// Whether a reverse forward leads to the service.
pub open spec fn leads_to(table: Map<ProtoView, ProtoView>, local: ProtoView) -> bool {
    exists|remote: ProtoView| #[trigger] table.contains_key(remote) && table[remote] == local
}

/// The port that a device gets to with this request.
pub open spec fn admitted(table: Map<ProtoView, ProtoView>, service: Seq<char>) -> Result<
    u16,
    Refusal,
> {
    match parsed_proto(service) {
        None => Err(Refusal::ParseProto),
        Some(ProtoView::Other(_)) => Err(Refusal::UnsupportedProtocol),
        Some(ProtoView::Tcp(port)) => if leads_to(table, ProtoView::Tcp(port)) {
            Ok(port)
        } else {
            Err(Refusal::Denied)
        },
    }
}

impl ReverseForwards {
    /// Whether no two entries share their end on the device.
    pub open spec fn wf(self) -> bool {
        forall|i: int, j: int|
            0 <= i < j < self.entries@.len() ==> (#[trigger] self.entries@[i]).0@ != (
            #[trigger] self.entries@[j]).0@
    }

    proof fn lemma_entry(self, i: int)
        requires
            self.wf(),
            0 <= i < self.entries@.len(),
        ensures
            self@.contains_pair(self.entries@[i].0@, self.entries@[i].1.local@),
    {
        let remote = self.entries@[i].0@;
        assert(entry_at(self.entries@, remote, i));
        let j = choose|j: int| entry_at(self.entries@, remote, j);
        if i < j {
            assert(self.entries@[i].0@ != self.entries@[j].0@);
        }
        if j < i {
            assert(self.entries@[j].0@ != self.entries@[i].0@);
        }
    }

    proof fn lemma_all_entries(self)
        requires
            self.wf(),
        ensures
            forall|i: int|
                0 <= i < self.entries@.len() ==> self@.contains_pair(
                    (#[trigger] self.entries@[i]).0@,
                    self.entries@[i].1.local@,
                ),
            forall|remote: ProtoView| #[trigger]
                self@.contains_key(remote) ==> exists|i: int| entry_at(self.entries@, remote, i),
    {
        assert forall|i: int| 0 <= i < self.entries@.len() implies self@.contains_pair(
            (#[trigger] self.entries@[i]).0@,
            self.entries@[i].1.local@,
        ) by {
            self.lemma_entry(i);
        }
    }

    /// No reverse forwards.
    pub fn new() -> (table: ReverseForwards)
        ensures
            table.wf(),
            table@ == Map::<ProtoView, ProtoView>::empty(),
    {
        let table = ReverseForwards { entries: Vec::new() };
        assert(table@ =~= Map::empty());
        table
    }

    fn position(&self, remote: &Proto) -> (found: Option<usize>)
        ensures
            match found {
                Some(i) => entry_at(self.entries@, remote@, i as int),
                None => !self@.contains_key(remote@),
            },
    {
        let mut i: usize = 0;
        while i < self.entries.len()
            invariant
                i <= self.entries@.len(),
                forall|j: int| 0 <= j < i ==> !entry_at(self.entries@, remote@, j),
            decreases self.entries@.len() - i,
        {
            if self.entries[i].0.same(remote) {
                return Some(i);
            }
            i += 1;
        }
        None
    }

    fn insert(&mut self, remote: Proto, local: Proto)
        requires
            old(self).wf(),
        ensures
            final(self).wf(),
            final(self)@ == old(self)@.insert(remote@, local@),
    {
        let ghost before = *self;
        let ghost key = remote@;
        let ghost value = local@;
        match self.position(&remote) {
            Some(i) => {
                self.entries[i] = (remote, Reverse { local });
                proof {
                    assert forall|j: int, k: int| 0 <= j < k < self.entries@.len() implies (
                    #[trigger] self.entries@[j]).0@ != (#[trigger] self.entries@[k]).0@ by {
                        assert(before.entries@[j].0@ != before.entries@[k].0@);
                    }
                    self.lemma_all_entries();
                    before.lemma_all_entries();
                    let want = before@.insert(key, value);
                    assert forall|k: ProtoView|
                        #![trigger self@.dom().contains(k)]
                        #![trigger want.dom().contains(k)]
                        self@.dom().contains(k) == want.dom().contains(k) && (
                        self@.dom().contains(k) ==> self@[k] == want[k]) by {
                        if before@.contains_key(k) {
                            let j = choose|j: int| entry_at(before.entries@, k, j);
                            assert(entry_at(self.entries@, k, j));
                            assert(before@.contains_pair(
                                before.entries@[j].0@,
                                before.entries@[j].1.local@,
                            ));
                            assert(self@.contains_pair(
                                self.entries@[j].0@,
                                self.entries@[j].1.local@,
                            ));
                        }
                        if self@.contains_key(k) {
                            let j = choose|j: int| entry_at(self.entries@, k, j);
                            assert(entry_at(before.entries@, k, j));
                        }
                        assert(self@.contains_pair(
                            self.entries@[i as int].0@,
                            self.entries@[i as int].1.local@,
                        ));
                    }
                    assert(self@ =~= want);
                }
            },
            None => {
                self.entries.push((remote, Reverse { local }));
                proof {
                    let n = before.entries@.len() as int;
                    assert forall|j: int, k: int| 0 <= j < k < self.entries@.len() implies (
                    #[trigger] self.entries@[j]).0@ != (#[trigger] self.entries@[k]).0@ by {
                        assert(self.entries@[j] == before.entries@[j]);
                        if k < n {
                            assert(before.entries@[j].0@ != before.entries@[k].0@);
                        } else {
                            assert(entry_at(before.entries@, before.entries@[j].0@, j));
                        }
                    }
                    self.lemma_all_entries();
                    before.lemma_all_entries();
                    let want = before@.insert(key, value);
                    assert forall|k: ProtoView|
                        #![trigger self@.dom().contains(k)]
                        #![trigger want.dom().contains(k)]
                        self@.dom().contains(k) == want.dom().contains(k) && (
                        self@.dom().contains(k) ==> self@[k] == want[k]) by {
                        if before@.contains_key(k) {
                            let j = choose|j: int| entry_at(before.entries@, k, j);
                            assert(self.entries@[j] == before.entries@[j]);
                            assert(entry_at(self.entries@, k, j));
                        }
                        if self@.contains_key(k) {
                            let j = choose|j: int| entry_at(self.entries@, k, j);
                            if j < n {
                                assert(self.entries@[j] == before.entries@[j]);
                                assert(entry_at(before.entries@, k, j));
                            }
                        }
                        assert(entry_at(self.entries@, key, n));
                        assert(self@.contains_pair(
                            self.entries@[n].0@,
                            self.entries@[n].1.local@,
                        ));
                    }
                    assert(self@ =~= want);
                }
            },
        }
    }

    fn remove(&mut self, remote: &Proto)
        requires
            old(self).wf(),
        ensures
            final(self).wf(),
            final(self)@ == old(self)@.remove(remote@),
    {
        let ghost before = *self;
        match self.position(remote) {
            Some(i) => {
                self.entries.remove(i);
                proof {
                    let at = i as int;
                    assert forall|j: int, k: int| 0 <= j < k < self.entries@.len() implies (
                    #[trigger] self.entries@[j]).0@ != (#[trigger] self.entries@[k]).0@ by {
                        let j0 = if j < at {
                            j
                        } else {
                            j + 1
                        };
                        let k0 = if k < at {
                            k
                        } else {
                            k + 1
                        };
                        assert(before.entries@[j0].0@ != before.entries@[k0].0@);
                    }
                    self.lemma_all_entries();
                    before.lemma_all_entries();
                    assert forall|k: ProtoView|
                        self@.contains_key(k) == before@.remove(remote@).contains_key(k) && (
                        self@.contains_key(k) ==> self@[k] == before@[k]) by {
                        if before@.contains_key(k) && k != remote@ {
                            let j = choose|j: int| entry_at(before.entries@, k, j);
                            let j1 = if j < at {
                                j
                            } else {
                                j - 1
                            };
                            assert(self.entries@[j1] == before.entries@[j]);
                            assert(entry_at(self.entries@, k, j1));
                        }
                        if self@.contains_key(k) {
                            let j = choose|j: int| entry_at(self.entries@, k, j);
                            let j0 = if j < at {
                                j
                            } else {
                                j + 1
                            };
                            assert(self.entries@[j] == before.entries@[j0]);
                            assert(entry_at(before.entries@, k, j0));
                            if j0 < at {
                                assert(before.entries@[j0].0@ != before.entries@[at].0@);
                            } else {
                                assert(before.entries@[at].0@ != before.entries@[j0].0@);
                            }
                        }
                    }
                    assert(self@ =~= before@.remove(remote@));
                }
            },
            None => {
                assert(self@ =~= before@.remove(remote@));
            },
        }
    }

    fn leads(&self, local: &Proto) -> (yes: bool)
        requires
            self.wf(),
        ensures
            yes == leads_to(self@, local@),
    {
        proof {
            self.lemma_all_entries();
        }
        let mut i: usize = 0;
        while i < self.entries.len()
            invariant
                self.wf(),
                i <= self.entries@.len(),
                forall|j: int| 0 <= j < i ==> (#[trigger] self.entries@[j]).1.local@ != local@,
            decreases self.entries@.len() - i,
        {
            if self.entries[i].1.local.same(local) {
                proof {
                    self.lemma_entry(i as int);
                    assert(self@.contains_key(self.entries@[i as int].0@));
                }
                return true;
            }
            i += 1;
        }
        proof {
            if leads_to(self@, local@) {
                let remote = choose|remote: ProtoView| #[trigger]
                    self@.contains_key(remote) && self@[remote] == local@;
                let j = choose|j: int| entry_at(self.entries@, remote, j);
                assert(self.entries@[j].1.local@ == local@);
            }
        }
        false
    }
}

impl ForwardingMgr {
    /// Follows a request to the device, if it is about reverse forwards.
    pub fn handle_reverse(&self, forwards: &mut ReverseForwards, service: &str) -> (res: Result<
        (),
        ServiceError,
    >)
        requires
            old(forwards).wf(),
        ensures
            final(forwards).wf(),
            match after_reverse(old(forwards)@, service@) {
                Ok(table) => res is Ok && final(forwards)@ == table,
                Err(e) => res matches Err(err) && err@ == e && final(forwards)@ == old(forwards)@,
            },
    {
        let service = match strip_prefix(service, "reverse:") {
            Some(s) => s,
            None => {
                return Ok(());
            },
        };
        match ForwardCommand::parse(service) {
            Err(e) => Err(e),
            Ok(None) => Err(ServiceError::MalformedReverse),
            Ok(Some(ForwardCommand::Add { left, right, norebind })) => {
                if norebind {
                    if let Some(i) = forwards.position(&left) {
                        assert(entry_at(forwards.entries@, left@, i as int));
                        return Err(ServiceError::WouldFail);
                    }
                }
                forwards.insert(left, right);
                Ok(())
            },
            Ok(Some(ForwardCommand::Remove(remote))) => {
                forwards.remove(&remote);
                Ok(())
            },
            Ok(Some(ForwardCommand::RemoveAll)) => {
                forwards.entries = Vec::new();
                assert(forwards@ =~= Map::empty());
                Ok(())
            },
            Ok(Some(ForwardCommand::List)) => Ok(()),
        }
    }

    /// The port to connect to for a socket that the device wants to open.
    pub fn handle_socket(&self, forwards: &ReverseForwards, socket: &PendingSocket) -> (res: Result<u16, Refusal>)
        requires
            forwards.wf(),
        ensures
            res == admitted(forwards@, socket.service@),
    {
        let proto = match Proto::parse(socket.service()) {
            Some(proto) => proto,
            None => {
                return Err(Refusal::ParseProto);
            },
        };
        let port = match &proto {
            Proto::Tcp(port) => *port,
            Proto::Other(_) => {
                return Err(Refusal::UnsupportedProtocol);
            },
        };
        if forwards.leads(&proto) {
            Ok(port)
        } else {
            Err(Refusal::Denied)
        }
    }
}

/// What happened to a socket that the device wants to open.
#[derive(Debug, Clone, Copy, PartialEq, Eq)]
pub enum SocketEvent {
    /// It was looked at by `handle_socket`.
    Considered(Result<u16, Refusal>),
    /// The service of the host was connected to.
    Connected,
    /// It could not be.
    ConnectFailed,
    /// The socket was taken on.
    Accepted,
    /// It could not be.
    AcceptFailed,
}

/// What is done next about a socket that the device wants to open.
#[derive(Debug, Clone, Copy, PartialEq, Eq)]
pub enum SocketStep {
    /// Connect to this port of the host.
    Connect(u16),
    /// Take the socket on.
    Accept,
    /// Pass data on between the two.
    Relay,
    /// Refuse the socket.
    Close,
    /// Nothing more.
    Leave,
}

/// What is done next about a socket that the device wants to open.
pub fn socket_step(event: SocketEvent) -> (step: SocketStep)
    ensures
        step == match event {
            SocketEvent::Considered(Ok(port)) => SocketStep::Connect(port),
            SocketEvent::Considered(Err(_)) => SocketStep::Close,
            SocketEvent::Connected => SocketStep::Accept,
            SocketEvent::ConnectFailed => SocketStep::Close,
            SocketEvent::Accepted => SocketStep::Relay,
            SocketEvent::AcceptFailed => SocketStep::Leave,
        },
{
    match event {
        SocketEvent::Considered(Ok(port)) => SocketStep::Connect(port),
        SocketEvent::Considered(Err(_)) => SocketStep::Close,
        SocketEvent::Connected => SocketStep::Accept,
        SocketEvent::ConnectFailed => SocketStep::Close,
        SocketEvent::Accepted => SocketStep::Relay,
        SocketEvent::AcceptFailed => SocketStep::Leave,
    }
}

/// Without reverse forwards, a device gets nowhere.
pub proof fn law_nothing_is_open_by_default(service: Seq<char>)
    ensures
        admitted(Map::<ProtoView, ProtoView>::empty(), service) is Err,
{
}

/// A device gets to a port exactly if one of its reverse forwards leads there.
pub proof fn law_only_forwarded_ports_are_open(table: Map<ProtoView, ProtoView>, service: Seq<char>)
    ensures
        admitted(table, service) is Ok ==> parsed_proto(service) == Some(
            ProtoView::Tcp(admitted(table, service)->Ok_0),
        ) && leads_to(table, ProtoView::Tcp(admitted(table, service)->Ok_0)),
{
}

/// A reverse forward that was added opens its port to the device.
pub proof fn law_added_reverse_is_open(
    table: Map<ProtoView, ProtoView>,
    remote: ProtoView,
    port: u16,
)
    ensures
        leads_to(table.insert(remote, ProtoView::Tcp(port)), ProtoView::Tcp(port)),
{
    assert(table.insert(remote, ProtoView::Tcp(port)).contains_key(remote));
}

/// Whether the text of an end reads back as that end.
spec fn reads_back(p: ProtoView) -> bool {
    p matches ProtoView::Other(name) ==> stripped(name, "tcp:"@) is None
}

proof fn lemma_reverse_request(remote: ProtoView, local: ProtoView, norebind: bool)
    requires
        reads_back(remote),
        reads_back(local),
        !proto_text(remote).contains(';'),
        norebind || !has_prefix(proto_text(remote) + ";"@ + proto_text(local), "norebind:"@),
    ensures
        parsed_command(forward_request(proto_text(remote), proto_text(local), norebind)) == Ok::<
            _,
            Failed,
        >(Some(Command::Add { left: remote, right: local, norebind })),
{
    law_proto_reads_back(remote);
    law_proto_reads_back(local);
    law_forward_request_is_read(proto_text(remote), proto_text(local), norebind);
}

/// A request for a reverse forward that succeeds opens the way that it names,
/// whatever the end on the device is called: the table leads from that end to
/// the end on the host, every other entry stays as it was, and, where the end on
/// the host is a port, a socket of the device for that port gets there. A
/// request that must not replace an entry fails exactly where there is one, and
/// then changes nothing.
pub proof fn law_requested_reverse_is_open(
    mgr: &ForwardingMgr,
    table: &mut ReverseForwards,
    service: &str,
    res: Result<(), ServiceError>,
    remote: ProtoView,
    local: ProtoView,
    norebind: bool,
    other: ProtoView,
    later: &ReverseForwards,
    socket: &PendingSocket,
    port: Result<u16, Refusal>,
)
    requires
        call_ensures(ForwardingMgr::handle_reverse, (mgr, table, service), res),
        remote matches ProtoView::Other(name) ==> stripped(name, "tcp:"@) is None,
        local matches ProtoView::Other(name) ==> stripped(name, "tcp:"@) is None,
        !proto_text(remote).contains(';'),
        norebind || !has_prefix(proto_text(remote) + ";"@ + proto_text(local), "norebind:"@),
        service@ == "reverse:"@ + forward_request(
            proto_text(remote),
            proto_text(local),
            norebind,
        ),
        later@ == final(table)@,
        socket.service@ == proto_text(local),
        call_ensures(ForwardingMgr::handle_socket, (mgr, later, socket), port),
    ensures
        res is Ok <==> !(norebind && old(table)@.contains_key(remote)),
        res matches Err(e) ==> e@ == Failed::WouldFail && final(table)@ == old(table)@,
        res is Ok ==> {
            &&& final(table)@.contains_pair(remote, local)
            &&& other != remote ==> (final(table)@.contains_key(other) <==> old(
                table,
            )@.contains_key(other))
            &&& other != remote && old(table)@.contains_key(other) ==> final(table)@[other] == old(
                table,
            )@[other]
            &&& local matches ProtoView::Tcp(p) ==> port == Ok::<u16, Refusal>(p)
        },
{
    lemma_reverse_request(remote, local, norebind);
    law_prefix_comes_off(
        "reverse:"@,
        forward_request(proto_text(remote), proto_text(local), norebind),
    );
    law_proto_reads_back(local);
    if res is Ok {
        assert(final(table)@.contains_key(remote));
        assert(leads_to(final(table)@, local));
    }
}

/// A request to remove a reverse forward, or all, takes out exactly that one, or
/// all. A request for their list changes nothing, and neither does a request
/// that is about something else.
pub proof fn law_removed_reverse_is_closed(
    mgr: &ForwardingMgr,
    table: &mut ReverseForwards,
    service: &str,
    res: Result<(), ServiceError>,
    remote: ProtoView,
    other: ProtoView,
)
    requires
        call_ensures(ForwardingMgr::handle_reverse, (mgr, table, service), res),
        remote matches ProtoView::Other(name) ==> stripped(name, "tcp:"@) is None,
    ensures
        service@ == "reverse:killforward:"@ + proto_text(remote) ==> {
            &&& res is Ok
            &&& final(table)@.contains_key(other) <==> old(table)@.contains_key(other) && other
                != remote
            &&& final(table)@.contains_key(other) ==> final(table)@[other] == old(table)@[other]
        },
        service@ == "reverse:killforward-all"@ ==> res is Ok && !final(table)@.contains_key(other),
        service@ == "reverse:list-forward"@ ==> res is Ok && final(table)@ == old(table)@,
        !has_prefix(service@, "reverse:"@) ==> res is Ok && final(table)@ == old(table)@,
        res is Err ==> final(table)@ == old(table)@,
{
    reveal_strlit("reverse:");
    reveal_strlit("killforward:");
    reveal_strlit("killforward-all");
    reveal_strlit("list-forward");
    reveal_strlit("reverse:killforward:");
    reveal_strlit("reverse:killforward-all");
    reveal_strlit("reverse:list-forward");
    let text = proto_text(remote);
    law_proto_reads_back(remote);
    law_other_forward_requests_are_read(text);
    law_prefix_comes_off("reverse:"@, "killforward:"@ + text);
    law_prefix_comes_off("reverse:"@, "killforward-all"@);
    law_prefix_comes_off("reverse:"@, "list-forward"@);
    assert("reverse:killforward:"@ + text =~= "reverse:"@ + ("killforward:"@ + text));
    assert("reverse:killforward-all"@ =~= "reverse:"@ + "killforward-all"@);
    assert("reverse:list-forward"@ =~= "reverse:"@ + "list-forward"@);
}

/// A request for reverse forwards that cannot be read fails, and says why.
pub proof fn law_malformed_reverse_requests_fail(
    mgr: &ForwardingMgr,
    table: &mut ReverseForwards,
    service: &str,
    res: Result<(), ServiceError>,
    rest: Seq<char>,
)
    requires
        call_ensures(ForwardingMgr::handle_reverse, (mgr, table, service), res),
        service@ == "reverse:"@ + rest,
    ensures
        parsed_command(rest) matches Err(e) ==> (res matches Err(err) && err@ == e),
        parsed_command(rest) == Ok::<Option<Command>, Failed>(None) ==> (res matches Err(err)
            && err@ == Failed::MalformedReverse),
{
    law_prefix_comes_off("reverse:"@, rest);
}

/// A socket of the device gets to a port of the host exactly if it names that
/// port and an entry leads to it; it is told apart why it does not.
pub proof fn law_a_socket_needs_an_open_way(
    mgr: &ForwardingMgr,
    table: &ReverseForwards,
    socket: &PendingSocket,
    res: Result<u16, Refusal>,
    port: u16,
    name: Seq<char>,
)
    requires
        call_ensures(ForwardingMgr::handle_socket, (mgr, table, socket), res),
    ensures
        socket.service@ == "tcp:"@ + digits(port as int, 10) ==> {
            &&& res == Ok::<u16, Refusal>(port) <==> exists|remote: ProtoView| #[trigger]
                table@.contains_key(remote) && table@[remote] == ProtoView::Tcp(port)
            &&& res is Err ==> res == Err::<u16, _>(Refusal::Denied)
        },
        socket.service@ == name && !has_prefix(name, "tcp:"@) ==> res == Err::<u16, _>(
            Refusal::UnsupportedProtocol,
        ),
        res matches Ok(p) ==> exists|remote: ProtoView| #[trigger]
            table@.contains_key(remote) && table@[remote] == ProtoView::Tcp(p),
{
    law_ends_are_named(port, name);
    if socket.service@ == "tcp:"@ + digits(port as int, 10) {
        assert(res is Ok <==> leads_to(table@, ProtoView::Tcp(port)));
    }
}

/// A socket of the device is connected to the host before it is taken on, is
/// refused where it may not or cannot be connected, and passes data on once it
/// is taken on; what could not be taken on is left.
pub proof fn law_sockets_are_connected_then_accepted(
    considered: Result<u16, Refusal>,
    first: SocketStep,
    connected: SocketStep,
    unconnected: SocketStep,
    accepted: SocketStep,
    unaccepted: SocketStep,
)
    requires
        call_ensures(socket_step, (SocketEvent::Considered(considered),), first),
        call_ensures(socket_step, (SocketEvent::Connected,), connected),
        call_ensures(socket_step, (SocketEvent::ConnectFailed,), unconnected),
        call_ensures(socket_step, (SocketEvent::Accepted,), accepted),
        call_ensures(socket_step, (SocketEvent::AcceptFailed,), unaccepted),
    ensures
        considered is Err <==> first is Close,
        considered matches Ok(port) ==> first == SocketStep::Connect(port),
        connected is Accept,
        unconnected is Close,
        accepted is Relay,
        unaccepted is Leave,
{
}

/// At first there are no reverse forwards.
pub proof fn law_there_are_no_reverse_forwards_at_first(table: ReverseForwards, end: ProtoView)
    requires
        call_ensures(ReverseForwards::new, (), table),
    ensures
        !table@.contains_key(end),
{
}

} // verus!
