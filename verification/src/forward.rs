//! Forwarding: local ports that lead to services of a device, and services of
//! the host that a device may connect to.

use std::sync::Arc;
use vstd::prelude::*;
use vstd::utf8::encode_utf8;
use crate::connection::{listed, ConnView, ConnectionMgr, MgrView, Standing, WeakConnection};
use crate::number::{decimal, digits, lemma_digits_read_back};
use crate::proto::{
    law_ends_are_named, law_proto_reads_back, parsed_proto, proto_text, Proto, ProtoView,
};
use crate::protocol::{framed, write_protocol_string};
use crate::smart_socket::{
    picked, status_bytes, status_with, Failed, PickError, Selector, ServiceError, SmartSocket,
    Status,
};
use crate::text::{
    has_prefix, law_cut_at_the_first, law_cut_takes_one_separator_out, law_prefix_comes_off,
    lemma_first_index, same_text, split_at_first, split_once, strip_prefix, stripped,
};

verus! {

/// What is asked of the forwards.
#[derive(Debug, PartialEq, Eq)]
pub enum ForwardCommand {
    Add { left: Proto, right: Proto, norebind: bool },
    Remove(Proto),
    RemoveAll,
    List,
}

/// What is asked of the forwards.
#[verifier::ext_equal]
pub enum Command {
    Add { left: ProtoView, right: ProtoView, norebind: bool },
    Remove(ProtoView),
    RemoveAll,
    List,
}

impl View for ForwardCommand {
    type V = Command;

    open spec fn view(&self) -> Command {
        match self {
            ForwardCommand::Add { left, right, norebind } => Command::Add {
                left: left@,
                right: right@,
                norebind: *norebind,
            },
            ForwardCommand::Remove(proto) => Command::Remove(proto@),
            ForwardCommand::RemoveAll => Command::RemoveAll,
            ForwardCommand::List => Command::List,
        }
    }
}

/// What the two ends of a forward, `left;right`, ask for.
pub open spec fn parsed_addition(s: Seq<char>, norebind: bool) -> Result<Option<Command>, Failed> {
    match split_at_first(s, ';') {
        None => Err(Failed::Invalid),
        Some((left, right)) => match parsed_proto(left) {
            None => Err(Failed::ParseLocal),
            Some(left) => match parsed_proto(right) {
                None => Err(Failed::ParseRemote),
                Some(right) => Ok(Some(Command::Add { left, right, norebind })),
            },
        },
    }
}

/// What the request asks of the forwards, if it is about them at all.
pub open spec fn parsed_command(service: Seq<char>) -> Result<Option<Command>, Failed> {
    match stripped(service, "forward:"@) {
        Some(s) => match stripped(s, "norebind:"@) {
            Some(s) => parsed_addition(s, true),
            None => parsed_addition(s, false),
        },
        None => match stripped(service, "killforward:"@) {
            Some(s) => match parsed_proto(s) {
                Some(proto) => Ok(Some(Command::Remove(proto))),
                None => Err(Failed::ParsePort),
            },
            None => if service == "killforward-all"@ {
                Ok(Some(Command::RemoveAll))
            } else if service == "list-forward"@ {
                Ok(Some(Command::List))
            } else {
                Ok(None)
            },
        },
    }
}

/// The views of a parsed command.
pub open spec fn command_view(res: Result<Option<ForwardCommand>, ServiceError>) -> Result<
    Option<Command>,
    Failed,
> {
    match res {
        Ok(Some(command)) => Ok(Some(command@)),
        Ok(None) => Ok(None),
        Err(e) => Err(e@),
    }
}

impl ForwardCommand {
    fn parse_addition(s: &str, norebind: bool) -> (res: Result<
        Option<ForwardCommand>,
        ServiceError,
    >)
        ensures
            command_view(res) == parsed_addition(s@, norebind),
    {
        let (left, right) = match split_once(s, ';') {
            Some(ends) => ends,
            None => {
                return Err(ServiceError::Invalid);
            },
        };
        let left = match Proto::parse(left) {
            Some(left) => left,
            None => {
                return Err(ServiceError::ParseLocal);
            },
        };
        let right = match Proto::parse(right) {
            Some(right) => right,
            None => {
                return Err(ServiceError::ParseRemote);
            },
        };
        Ok(Some(ForwardCommand::Add { left, right, norebind }))
    }

    /// Reads what a request asks of the forwards.
    pub fn parse(service: &str) -> (res: Result<Option<ForwardCommand>, ServiceError>)
        ensures
            command_view(res) == parsed_command(service@),
    {
        if let Some(s) = strip_prefix(service, "forward:") {
            match strip_prefix(s, "norebind:") {
                Some(s) => Self::parse_addition(s, true),
                None => Self::parse_addition(s, false),
            }
        } else if let Some(s) = strip_prefix(service, "killforward:") {
            match Proto::parse(s) {
                Some(proto) => Ok(Some(ForwardCommand::Remove(proto))),
                None => Err(ServiceError::ParsePort),
            }
        } else if same_text(service, "killforward-all") {
            Ok(Some(ForwardCommand::RemoveAll))
        } else if same_text(service, "list-forward") {
            Ok(Some(ForwardCommand::List))
        } else {
            Ok(None)
        }
    }
}

/// A local port, and where it leads.
#[derive(Debug)]
pub struct Forward {
    pub local: Proto,
    pub conn: Arc<WeakConnection>,
    pub remote: Proto,
    /// The number of the task that listens at the port.
    pub task: u64,
}

/// A local port, and where it leads.
#[verifier::ext_equal]
pub struct ForwardView {
    pub local: ProtoView,
    pub conn: ConnView,
    pub remote: ProtoView,
    pub task: u64,
}

impl View for Forward {
    type V = ForwardView;

    open spec fn view(&self) -> ForwardView {
        ForwardView {
            local: self.local@,
            conn: self.conn@,
            remote: self.remote@,
            task: self.task,
        }
    }
}

/// All forwards.
#[derive(Debug)]
pub struct ForwardingMgr {
    pub listeners: Vec<Forward>,
}

impl View for ForwardingMgr {
    type V = Seq<ForwardView>;

    open spec fn view(&self) -> Seq<ForwardView> {
        self.listeners@.map_values(|f: Forward| f@)
    }
}

/// Whether no two forwards share their local end.
pub open spec fn distinct(list: Seq<ForwardView>) -> bool {
    forall|i: int, j: int|
        0 <= i < j < list.len() ==> (#[trigger] list[i]).local != (#[trigger] list[j]).local
}

/// The forward at a local end.
pub open spec fn target(list: Seq<ForwardView>, local: ProtoView) -> Option<ForwardView>
    decreases list.len(),
{
    if list.len() == 0 {
        None
    } else if list.last().local == local {
        Some(list.last())
    } else {
        target(list.drop_last(), local)
    }
}

/// Whether a forward still works: its connection has not closed, and its task
/// is not among the finished ones.
pub open spec fn works(standing: Standing, finished: Seq<u64>) -> spec_fn(ForwardView) -> bool {
    |f: ForwardView| !standing.is_closed(f.conn.id) && !finished.contains(f.task)
}

/// Whether a forward works no longer.
pub open spec fn fails(standing: Standing, finished: Seq<u64>) -> spec_fn(ForwardView) -> bool {
    |f: ForwardView| standing.is_closed(f.conn.id) || finished.contains(f.task)
}

/// Whether a forward is at the local end.
pub open spec fn at(local: ProtoView) -> spec_fn(ForwardView) -> bool {
    |f: ForwardView| f.local == local
}

/// Whether a forward is not at the local end.
pub open spec fn away_from(local: ProtoView) -> spec_fn(ForwardView) -> bool {
    |f: ForwardView| f.local != local
}

/// The tasks of forwards.
pub open spec fn tasks_of(list: Seq<ForwardView>) -> Seq<u64> {
    list.map_values(|f: ForwardView| f.task)
}

/// The forwards, with the one at the local end leading elsewhere.
pub open spec fn retargeted(
    list: Seq<ForwardView>,
    local: ProtoView,
    conn: ConnView,
    remote: ProtoView,
) -> Seq<ForwardView> {
    list.map_values(
        |f: ForwardView|
            if f.local == local {
                ForwardView { local, conn, remote, task: f.task }
            } else {
                f
            },
    )
}

/// The line of a forward in a list.
pub open spec fn forward_line(f: ForwardView, standing: Standing) -> Seq<char> {
    (if standing.is_gone(f.conn.id) {
        "disconnected"@
    } else {
        f.conn.serial
    }) + " "@ + proto_text(f.local) + " "@ + proto_text(f.remote) + "\n"@
}

/// The lines of forwards, one after the other.
pub open spec fn forward_lines(list: Seq<ForwardView>, standing: Standing) -> Seq<char>
    decreases list.len(),
{
    if list.len() == 0 {
        seq![]
    } else {
        forward_lines(list.drop_last(), standing) + forward_line(list.last(), standing)
    }
}

/// The reply to a change of the forwards that needs no further word.
pub open spec fn changed_reply() -> Seq<u8> {
    status_bytes(Status::Okay) + status_bytes(Status::Okay)
}

/// What is to be done about a request for forwards.
#[derive(Debug)]
pub enum ForwardStep {
    /// Send this, and that is all.
    Reply(Vec<u8>),
    /// Listen at a port, then go on with `bound`.
    Bind(PendingForward),
}

/// A forward to which only the local port is missing.
#[derive(Debug)]
pub struct PendingForward {
    /// The port to listen at; with 0, any that is free.
    pub port: u16,
    pub conn: Arc<WeakConnection>,
    pub remote: Proto,
}

/// What is to be done about a request for forwards.
#[verifier::ext_equal]
pub enum StepView {
    Reply(Seq<u8>),
    Bind { port: u16, conn: ConnView, remote: ProtoView },
}

impl View for ForwardStep {
    type V = StepView;

    open spec fn view(&self) -> StepView {
        match self {
            ForwardStep::Reply(bytes) => StepView::Reply(bytes@),
            ForwardStep::Bind(pending) => StepView::Bind {
                port: pending.port,
                conn: pending.conn@,
                remote: pending.remote@,
            },
        }
    }
}

/// What a request for forwards led to.
#[verifier::ext_equal]
pub struct Outcome {
    /// The forwards after it.
    pub list: Seq<ForwardView>,
    /// The choice of device after it.
    pub selector: Selector,
    /// The tasks to stop.
    pub stopped: Seq<u64>,
    /// What is to be done; nothing where the request is about something else.
    pub res: Result<Option<StepView>, Failed>,
}

/// What a request to add a forward leads to, once the forwards that work no
/// longer are gone.
pub open spec fn addition(
    list: Seq<ForwardView>,
    all: MgrView,
    standing: Standing,
    selector: Selector,
    local: ProtoView,
    remote: ProtoView,
    norebind: bool,
) -> (Seq<ForwardView>, Selector, Result<Option<StepView>, Failed>) {
    match local {
        ProtoView::Other(_) => (list, selector, Err(Failed::UnsupportedProtocol(local))),
        ProtoView::Tcp(port) => match picked(all, standing, selector) {
            Err(e) => (list, selector, Err(Failed::Pick(e))),
            Ok(conn) => {
                let selector = Selector::Connection(conn);
                if port == 0 || target(list, local) is None {
                    (list, selector, Ok(Some(StepView::Bind { port, conn, remote })))
                } else if norebind {
                    (list, selector, Err(Failed::AlreadyBound))
                } else {
                    (
                        retargeted(list, local, conn, remote),
                        selector,
                        Ok(Some(StepView::Reply(changed_reply()))),
                    )
                }
            },
        },
    }
}

/// What a request leads to, as far as it is about forwards.
pub open spec fn forward_outcome(
    list: Seq<ForwardView>,
    all: MgrView,
    standing: Standing,
    finished: Seq<u64>,
    selector: Selector,
    service: Seq<char>,
) -> Outcome {
    let kept = list.filter(works(standing, finished));
    let dropped = tasks_of(list.filter(fails(standing, finished)));
    match parsed_command(service) {
        Err(e) => Outcome { list, selector, stopped: seq![], res: Err(e) },
        Ok(None) => Outcome { list, selector, stopped: seq![], res: Ok(None) },
        Ok(Some(Command::Add { left, right, norebind })) => {
            let (after, selector, res) = addition(
                kept,
                all,
                standing,
                selector,
                left,
                right,
                norebind,
            );
            Outcome { list: after, selector, stopped: dropped, res }
        },
        Ok(Some(Command::Remove(local))) => Outcome {
            list: kept.filter(away_from(local)),
            selector,
            stopped: dropped + tasks_of(kept.filter(at(local))),
            res: Ok(Some(StepView::Reply(changed_reply()))),
        },
        Ok(Some(Command::RemoveAll)) => Outcome {
            list: seq![],
            selector,
            stopped: tasks_of(list),
            res: Ok(Some(StepView::Reply(changed_reply()))),
        },
        Ok(Some(Command::List)) => Outcome {
            list: kept,
            selector,
            stopped: dropped,
            res: Ok(
                Some(StepView::Reply(status_with(Status::Okay, forward_lines(kept, standing)))),
            ),
        },
    }
}

/// The local end of a forward that listens at a port.
pub open spec fn bound_at(port: u16, actual: u16) -> ProtoView {
    ProtoView::Tcp(
        if port == 0 {
            actual
        } else {
            port
        },
    )
}

/// The forwards, with a new one whose task listens.
pub open spec fn with_forward(
    list: Seq<ForwardView>,
    port: u16,
    conn: ConnView,
    remote: ProtoView,
    actual: u16,
    task: u64,
) -> Seq<ForwardView> {
    let local = bound_at(port, actual);
    list.filter(away_from(local)).push(ForwardView { local, conn, remote, task })
}

/// The reply once a port is listened at; it tells a port that was not asked
/// for.
pub open spec fn bound_reply(port: u16, actual: u16) -> Seq<u8> {
    if port == 0 {
        changed_reply() + framed(encode_utf8(digits(actual as int, 10)))
    } else {
        changed_reply()
    }
}

/// What a request for forwards led to.
#[derive(Debug)]
pub struct ForwardResult {
    /// The tasks to stop.
    pub stopped: Vec<u64>,
    /// What is to be done; nothing where the request is about something else.
    pub res: Result<Option<ForwardStep>, ServiceError>,
}

/// What is to be done, or why not.
pub open spec fn step_view(res: Result<Option<ForwardStep>, ServiceError>) -> Result<
    Option<StepView>,
    Failed,
> {
    match res {
        Ok(Some(step)) => Ok(Some(step@)),
        Ok(None) => Ok(None),
        Err(e) => Err(e@),
    }
}

proof fn lemma_filter_distinct(list: Seq<ForwardView>, keep: spec_fn(ForwardView) -> bool)
    requires
        distinct(list),
    ensures
        distinct(list.filter(keep)),
    decreases list.len(),
{
    reveal(Seq::filter);
    if list.len() > 0 {
        let front = list.drop_last();
        lemma_filter_distinct(front, keep);
        let sub = front.filter(keep);
        assert forall|i: int| 0 <= i < sub.len() implies (#[trigger] sub[i]).local
            != list.last().local by {
            lemma_filter_from(front, keep, i);
            let j = choose|j: int| 0 <= j < front.len() && (#[trigger] front[j]) == sub[i];
            assert(list[j] == front[j]);
        }
    }
}

proof fn lemma_filter_from(list: Seq<ForwardView>, keep: spec_fn(ForwardView) -> bool, i: int)
    requires
        0 <= i < list.filter(keep).len(),
    ensures
        exists|j: int| 0 <= j < list.len() && (#[trigger] list[j]) == list.filter(keep)[i],
    decreases list.len(),
{
    reveal(Seq::filter);
    if list.len() > 0 {
        let front = list.drop_last();
        let sub = front.filter(keep);
        if i < sub.len() {
            lemma_filter_from(front, keep, i);
            let j = choose|j: int| 0 <= j < front.len() && (#[trigger] front[j]) == sub[i];
            assert(list[j] == sub[i]);
        } else {
            assert(list[list.len() - 1] == list.filter(keep)[i]);
        }
    }
}

proof fn lemma_target(list: Seq<ForwardView>, local: ProtoView, i: int)
    requires
        distinct(list),
        0 <= i < list.len(),
        list[i].local == local,
    ensures
        target(list, local) == Some(list[i]),
    decreases list.len(),
{
    if i < list.len() - 1 {
        assert(list[list.len() - 1].local != local);
        lemma_target(list.drop_last(), local, i);
    }
}

proof fn lemma_no_target(list: Seq<ForwardView>, local: ProtoView)
    requires
        forall|i: int| 0 <= i < list.len() ==> (#[trigger] list[i]).local != local,
    ensures
        target(list, local) is None,
    decreases list.len(),
{
    if list.len() > 0 {
        assert(list[list.len() - 1].local != local);
        assert forall|i: int| 0 <= i < list.drop_last().len() implies (
        #[trigger] list.drop_last()[i]).local != local by {
            assert(list[i].local != local);
        }
        lemma_no_target(list.drop_last(), local);
    }
}

/// The request was answered with two status replies.
fn changed() -> (bytes: Vec<u8>)
    ensures
        bytes@ == changed_reply(),
{
    let mut bytes = SmartSocket::respond(Status::Okay);
    let mut again = SmartSocket::respond(Status::Okay);
    bytes.append(&mut again);
    bytes
}

impl ForwardingMgr {
    /// Whether no two forwards share their local end.
    pub open spec fn wf(self) -> bool {
        distinct(self@)
    }

    /// No forwards.
    pub fn new() -> (mgr: ForwardingMgr)
        ensures
            mgr.wf(),
            mgr@ == Seq::<ForwardView>::empty(),
    {
        let mgr = ForwardingMgr { listeners: Vec::new() };
        assert(mgr@ =~= seq![]);
        mgr
    }

    /// Drops the forwards that work no longer; gives their tasks.
    pub fn clean_forwards(&mut self, standing: &Standing, finished: &Vec<u64>) -> (stopped: Vec<
        u64,
    >)
        requires
            old(self).wf(),
        ensures
            final(self).wf(),
            final(self)@ == old(self)@.filter(works(*standing, finished@)),
            stopped@ == tasks_of(old(self)@.filter(fails(*standing, finished@))),
    {
        let ghost all = self@;
        let ghost keep = works(*standing, finished@);
        let ghost lose = fails(*standing, finished@);
        let ghost mut n: int = 0;
        let mut stopped: Vec<u64> = Vec::new();
        let mut i: usize = 0;
        proof {
            reveal(Seq::filter);
            assert(all.take(0) =~= seq![]);
            assert(stopped@ =~= tasks_of(all.take(0).filter(lose)));
            assert(self@ =~= all.take(0).filter(keep) + all.skip(0));
        }
        while i < self.listeners.len()
            invariant
                keep == works(*standing, finished@),
                lose == fails(*standing, finished@),
                0 <= n <= all.len(),
                i == all.take(n).filter(keep).len(),
                self@ == all.take(n).filter(keep) + all.skip(n),
                stopped@ == tasks_of(all.take(n).filter(lose)),
            decreases self.listeners@.len() - i,
        {
            let ghost here = self@;
            let ghost f = all[n];
            assert(here[i as int] == all.skip(n)[0]);
            proof {
                assert(all.take(n + 1) =~= all.take(n).push(f));
                all.take(n).lemma_filter_push(f, keep);
                all.take(n).lemma_filter_push(f, lose);
            }
            if self.listeners[i].conn.is_closed(standing) || listed(
                finished,
                self.listeners[i].task,
            ) {
                let dropped = self.listeners.remove(i);
                stopped.push(dropped.task);
                assert(self@ =~= here.remove(i as int));
                assert(self@ =~= all.take(n + 1).filter(keep) + all.skip(n + 1));
                assert(stopped@ =~= tasks_of(all.take(n + 1).filter(lose)));
            } else {
                i += 1;
                assert(self@ =~= all.take(n + 1).filter(keep) + all.skip(n + 1));
            }
            proof {
                n = n + 1;
            }
        }
        proof {
            assert(n == all.len());
            assert(all.take(n) =~= all);
            assert(self@ =~= all.filter(keep));
            lemma_filter_distinct(all, keep);
        }
        stopped
    }

    /// Drops the forward at a local end; gives its task.
    fn remove(&mut self, local: &Proto) -> (stopped: Vec<u64>)
        requires
            old(self).wf(),
        ensures
            final(self).wf(),
            final(self)@ == old(self)@.filter(away_from(local@)),
            stopped@ == tasks_of(old(self)@.filter(at(local@))),
    {
        let ghost all = self@;
        let ghost keep = away_from(local@);
        let ghost lose = at(local@);
        let ghost mut n: int = 0;
        let mut stopped: Vec<u64> = Vec::new();
        let mut i: usize = 0;
        proof {
            reveal(Seq::filter);
            assert(all.take(0) =~= seq![]);
            assert(stopped@ =~= tasks_of(all.take(0).filter(lose)));
            assert(self@ =~= all.take(0).filter(keep) + all.skip(0));
        }
        while i < self.listeners.len()
            invariant
                keep == away_from(local@),
                lose == at(local@),
                0 <= n <= all.len(),
                i == all.take(n).filter(keep).len(),
                self@ == all.take(n).filter(keep) + all.skip(n),
                stopped@ == tasks_of(all.take(n).filter(lose)),
            decreases self.listeners@.len() - i,
        {
            let ghost here = self@;
            let ghost f = all[n];
            assert(here[i as int] == all.skip(n)[0]);
            proof {
                assert(all.take(n + 1) =~= all.take(n).push(f));
                all.take(n).lemma_filter_push(f, keep);
                all.take(n).lemma_filter_push(f, lose);
            }
            if self.listeners[i].local.same(local) {
                let dropped = self.listeners.remove(i);
                stopped.push(dropped.task);
                assert(self@ =~= here.remove(i as int));
                assert(self@ =~= all.take(n + 1).filter(keep) + all.skip(n + 1));
                assert(stopped@ =~= tasks_of(all.take(n + 1).filter(lose)));
            } else {
                i += 1;
                assert(self@ =~= all.take(n + 1).filter(keep) + all.skip(n + 1));
            }
            proof {
                n = n + 1;
            }
        }
        proof {
            assert(n == all.len());
            assert(all.take(n) =~= all);
            assert(self@ =~= all.filter(keep));
            lemma_filter_distinct(all, keep);
        }
        stopped
    }

    fn remove_all(&mut self) -> (stopped: Vec<u64>)
        ensures
            final(self).wf(),
            final(self)@ == Seq::<ForwardView>::empty(),
            stopped@ == tasks_of(old(self)@),
    {
        let mut stopped: Vec<u64> = Vec::new();
        let ghost all = self@;
        let mut i: usize = 0;
        while i < self.listeners.len()
            invariant
                all == self@,
                i <= self.listeners@.len(),
                stopped@ == tasks_of(all).take(i as int),
            decreases self.listeners@.len() - i,
        {
            stopped.push(self.listeners[i].task);
            assert(all[i as int] == self.listeners@[i as int]@);
            i += 1;
            assert(stopped@ =~= tasks_of(all).take(i as int));
        }
        assert(stopped@ =~= tasks_of(all));
        self.listeners = Vec::new();
        assert(self@ =~= seq![]);
        stopped
    }

    fn position(&self, local: &Proto) -> (found: Option<usize>)
        requires
            self.wf(),
        ensures
            match found {
                Some(i) => i < self.listeners@.len() && self.listeners@[i as int].local@ == local@
                    && target(self@, local@) == Some(self.listeners@[i as int]@),
                None => target(self@, local@) is None,
            },
    {
        let mut i: usize = 0;
        while i < self.listeners.len()
            invariant
                self.wf(),
                i <= self.listeners@.len(),
                forall|j: int| 0 <= j < i ==> (#[trigger] self@[j]).local != local@,
            decreases self.listeners@.len() - i,
        {
            if self.listeners[i].local.same(local) {
                proof {
                    assert(self@[i as int].local == local@);
                    lemma_target(self@, local@, i as int);
                }
                return Some(i);
            }
            assert(self@[i as int].local != local@);
            i += 1;
        }
        proof {
            lemma_no_target(self@, local@);
        }
        None
    }

    /// The list of the forwards.
    pub fn list(&self, standing: &Standing) -> (text: String)
        ensures
            text@ == forward_lines(self@, *standing),
    {
        let mut text = String::new();
        let ghost all = self@;
        let mut i: usize = 0;
        assert(all.take(0) =~= seq![]);
        while i < self.listeners.len()
            invariant
                all == self@,
                i <= self.listeners@.len(),
                text@ == forward_lines(all.take(i as int), *standing),
            decreases self.listeners@.len() - i,
        {
            let ghost before = text@;
            let ghost head = all.take(i + 1);
            assert(head.drop_last() =~= all.take(i as int));
            let forward = &self.listeners[i];
            assert(head.last() == forward@);
            match forward.conn.upgrade(standing) {
                Ok(()) => {
                    text.append(forward.conn.serial.as_str());
                },
                Err(_) => {
                    text.append("disconnected");
                },
            }
            text.append(" ");
            text.append(forward.local.text().as_str());
            text.append(" ");
            text.append(forward.remote.text().as_str());
            text.append("\n");
            assert(text@ =~= before + forward_line(forward@, *standing));
            i += 1;
        }
        assert(all.take(i as int) =~= all);
        text
    }

    fn add(
        &mut self,
        socket: &mut SmartSocket,
        mgr: &ConnectionMgr,
        standing: &Standing,
        local: Proto,
        remote: Proto,
        norebind: bool,
    ) -> (res: Result<Option<ForwardStep>, ServiceError>)
        requires
            old(self).wf(),
            mgr.wf(),
            old(socket).device.wf(),
        ensures
            final(self).wf(),
            final(socket).device.wf(),
            (final(self)@, final(socket).device@, step_view(res)) == addition(
                old(self)@,
                mgr@,
                *standing,
                old(socket).device@,
                local@,
                remote@,
                norebind,
            ),
    {
        let port = match &local {
            Proto::Tcp(port) => *port,
            Proto::Other(_) => {
                return Err(ServiceError::UnsupportedProtocol(local));
            },
        };
        let conn = match socket.pick_connection(mgr, standing) {
            Ok(conn) => conn,
            Err(e) => {
                return Err(ServiceError::Pick(e));
            },
        };
        if port != 0 {
            if let Some(i) = self.position(&local) {
                if norebind {
                    return Err(ServiceError::AlreadyBound);
                }
                let ghost before = self@;
                let ghost to = conn@;
                let ghost end = remote@;
                let task = self.listeners[i].task;
                self.listeners[i] = Forward { local, conn, remote, task };
                assert(self@ =~= retargeted(before, local@, to, end)) by {
                    assert(before[i as int].local == local@);
                    assert forall|j: int| 0 <= j < before.len() && j != i implies (
                    #[trigger] before[j]).local != local@ by {
                        if j < i {
                            assert(before[j].local != before[i as int].local);
                        } else {
                            assert(before[i as int].local != before[j].local);
                        }
                    }
                }
                assert(self.wf()) by {
                    assert forall|j: int, k: int| 0 <= j < k < self@.len() implies (
                    #[trigger] self@[j]).local != (#[trigger] self@[k]).local by {
                        assert(before[j].local != before[k].local);
                    }
                }
                return Ok(Some(ForwardStep::Reply(changed())));
            }
        }
        Ok(Some(ForwardStep::Bind(PendingForward { port, conn, remote })))
    }

    /// Serves a request, if it is about forwards.
    pub fn handle_forward(
        &mut self,
        socket: &mut SmartSocket,
        mgr: &ConnectionMgr,
        standing: &Standing,
        finished: &Vec<u64>,
        service: &str,
    ) -> (result: ForwardResult)
        requires
            old(self).wf(),
            mgr.wf(),
            old(socket).device.wf(),
        ensures
            final(self).wf(),
            final(socket).device.wf(),
            (Outcome {
                list: final(self)@,
                selector: final(socket).device@,
                stopped: result.stopped@,
                res: step_view(result.res),
            }) == forward_outcome(
                old(self)@,
                mgr@,
                *standing,
                finished@,
                old(socket).device@,
                service@,
            ),
    {
        match ForwardCommand::parse(service) {
            Err(e) => ForwardResult { stopped: Vec::new(), res: Err(e) },
            Ok(None) => ForwardResult { stopped: Vec::new(), res: Ok(None) },
            Ok(Some(ForwardCommand::Add { left, right, norebind })) => {
                let stopped = self.clean_forwards(standing, finished);
                let res = self.add(socket, mgr, standing, left, right, norebind);
                ForwardResult { stopped, res }
            },
            Ok(Some(ForwardCommand::Remove(local))) => {
                let mut stopped = self.clean_forwards(standing, finished);
                let mut more = self.remove(&local);
                stopped.append(&mut more);
                ForwardResult { stopped, res: Ok(Some(ForwardStep::Reply(changed()))) }
            },
            Ok(Some(ForwardCommand::RemoveAll)) => {
                let stopped = self.remove_all();
                ForwardResult { stopped, res: Ok(Some(ForwardStep::Reply(changed()))) }
            },
            Ok(Some(ForwardCommand::List)) => {
                let stopped = self.clean_forwards(standing, finished);
                let text = self.list(standing);
                let reply = SmartSocket::respond_data(Status::Okay, text.as_str());
                ForwardResult { stopped, res: Ok(Some(ForwardStep::Reply(reply))) }
            },
        }
    }

    /// Takes in a forward whose port is listened at by a task; gives the tasks
    /// to stop, and the reply.
    pub fn bound(&mut self, pending: PendingForward, actual: u16, task: u64) -> (res: (
        Vec<u64>,
        Vec<u8>,
    ))
        requires
            old(self).wf(),
        ensures
            final(self).wf(),
            final(self)@ == with_forward(
                old(self)@,
                pending.port,
                pending.conn@,
                pending.remote@,
                actual,
                task,
            ),
            res.0@ == tasks_of(old(self)@.filter(at(bound_at(pending.port, actual)))),
            res.1@ == bound_reply(pending.port, actual),
    {
        let port = if pending.port == 0 {
            actual
        } else {
            pending.port
        };
        let local = Proto::Tcp(port);
        let ghost all = self@;
        let stopped = self.remove(&local);
        let ghost rest = self@;
        let ghost added = ForwardView {
            local: local@,
            conn: pending.conn@,
            remote: pending.remote@,
            task,
        };
        let forward = Forward { local, conn: pending.conn, remote: pending.remote, task };
        self.listeners.push(forward);
        proof {
            assert(self@ =~= rest.push(added));
            assert forall|j: int| 0 <= j < rest.len() implies (#[trigger] rest[j]).local
                != added.local by {
                all.lemma_filter_pred(away_from(added.local), j);
            }
        }
        let mut reply = changed();
        if pending.port == 0 {
            let text = decimal(actual as u64);
            let data = text.as_str().as_bytes_vec();
            let mut framed = write_protocol_string(data.as_slice());
            reply.append(&mut framed);
        }
        (stopped, reply)
    }
}

/// What happened to the task that listens at a local port.
#[derive(Debug, Clone, Copy, PartialEq, Eq)]
pub enum TaskEvent {
    /// It starts.
    Started,
    /// A client connected.
    Accepted,
    /// The port cannot be listened at any longer.
    AcceptFailed,
    /// The service of the device was opened.
    Opened,
    /// It could not be.
    OpenFailed,
}

/// What the task that listens at a local port does next.
#[derive(Debug)]
pub enum TaskStep {
    /// Wait for a client.
    Accept,
    /// Open the service for the client that connected.
    Open(Arc<WeakConnection>, String),
    /// Pass data on between the client and the service, and wait for the next
    /// client meanwhile.
    Relay,
    /// End.
    End,
}

/// What the task that listens at a local port does next; `forward` is where
/// the port leads at that moment.
pub fn forward_task(forward: &Forward, standing: &Standing, event: TaskEvent) -> (step: TaskStep)
    ensures
        match event {
            TaskEvent::Started => step is Accept,
            TaskEvent::Accepted => if standing.is_gone(forward.conn.id) {
                step is End
            } else {
                step matches TaskStep::Open(conn, service) && conn@ == forward@.conn && service@
                    == proto_text(forward@.remote)
            },
            TaskEvent::AcceptFailed => step is End,
            TaskEvent::Opened => step is Relay,
            TaskEvent::OpenFailed => step is Accept,
        },
{
    match event {
        TaskEvent::Started => TaskStep::Accept,
        TaskEvent::Accepted => match forward.conn.upgrade(standing) {
            Ok(()) => TaskStep::Open(Arc::clone(&forward.conn), forward.remote.text()),
            Err(_) => TaskStep::End,
        },
        TaskEvent::AcceptFailed => TaskStep::End,
        TaskEvent::Opened => TaskStep::Relay,
        TaskEvent::OpenFailed => TaskStep::Accept,
    }
}

/// To change where a local port leads keeps its listener, and changes no other
/// forward.
pub proof fn law_rebind_keeps_the_listener(
    list: Seq<ForwardView>,
    local: ProtoView,
    conn: ConnView,
    remote: ProtoView,
    other: ProtoView,
)
    ensures
        ({
            let after = retargeted(list, local, conn, remote);
            &&& tasks_of(after) == tasks_of(list)
            &&& target(after, other) == if other == local {
                match target(list, local) {
                    Some(f) => Some(ForwardView { local, conn, remote, task: f.task }),
                    None => None,
                }
            } else {
                target(list, other)
            }
        }),
    decreases list.len(),
{
    let after = retargeted(list, local, conn, remote);
    assert(tasks_of(after) =~= tasks_of(list));
    if list.len() > 0 {
        law_rebind_keeps_the_listener(list.drop_last(), local, conn, remote, other);
        assert(after.drop_last() =~= retargeted(list.drop_last(), local, conn, remote));
        assert(after.last() == after[list.len() - 1]);
    }
}

/// A request that must not rebind fails at a port that is taken, and every
/// forward that works stays as it is.
pub proof fn law_norebind_keeps_the_target(
    list: Seq<ForwardView>,
    all: MgrView,
    standing: Standing,
    finished: Seq<u64>,
    selector: Selector,
    service: Seq<char>,
    port: u16,
    remote: ProtoView,
)
    requires
        port != 0,
        parsed_command(service) == Ok::<_, Failed>(
            Some(Command::Add { left: ProtoView::Tcp(port), right: remote, norebind: true }),
        ),
        picked(all, standing, selector) is Ok,
        target(list.filter(works(standing, finished)), ProtoView::Tcp(port)) is Some,
    ensures
        ({
            let outcome = forward_outcome(list, all, standing, finished, selector, service);
            &&& outcome.res == Err::<Option<StepView>, _>(Failed::AlreadyBound)
            &&& outcome.list == list.filter(works(standing, finished))
        }),
{
}

/// A forward that was removed is gone, and the others stay.
pub proof fn law_removal_is_independent(
    list: Seq<ForwardView>,
    local: ProtoView,
    other: ProtoView,
)
    ensures
        target(list.filter(away_from(local)), other) == if other == local {
            None
        } else {
            target(list, other)
        },
    decreases list.len(),
{
    reveal(Seq::filter);
    if list.len() > 0 {
        law_removal_is_independent(list.drop_last(), local, other);
        if list.last().local != local {
            let after = list.filter(away_from(local));
            assert(after.drop_last() =~= list.drop_last().filter(away_from(local)));
        }
    }
}

/// A forward whose port is listened at is found there, and the others stay:
/// ports that were given out automatically do not get in each other's way.
pub proof fn law_bound_forward_is_found(
    list: Seq<ForwardView>,
    port: u16,
    conn: ConnView,
    remote: ProtoView,
    actual: u16,
    task: u64,
    other: ProtoView,
)
    ensures
        ({
            let local = bound_at(port, actual);
            target(with_forward(list, port, conn, remote, actual, task), other) == if other
                == local {
                Some(ForwardView { local, conn, remote, task })
            } else {
                target(list, other)
            }
        }),
{
    let local = bound_at(port, actual);
    law_removal_is_independent(list, local, other);
    let after = with_forward(list, port, conn, remote, actual, task);
    assert(after.drop_last() =~= list.filter(away_from(local)));
}

/// Cleaning up drops exactly the forwards that work no longer.
pub proof fn law_cleaning_keeps_what_works(
    list: Seq<ForwardView>,
    standing: Standing,
    finished: Seq<u64>,
    local: ProtoView,
)
    requires
        distinct(list),
    ensures
        target(list.filter(works(standing, finished)), local) == match target(list, local) {
            Some(f) => if works(standing, finished)(f) {
                Some(f)
            } else {
                None
            },
            None => None,
        },
    decreases list.len(),
{
    reveal(Seq::filter);
    let keep = works(standing, finished);
    if list.len() > 0 {
        let front = list.drop_last();
        law_cleaning_keeps_what_works(front, standing, finished, local);
        let after = list.filter(keep);
        if keep(list.last()) {
            assert(after.drop_last() =~= front.filter(keep));
        } else if list.last().local == local {
            assert forall|i: int| 0 <= i < front.len() implies (#[trigger] front[i]).local
                != local by {
                assert(list[i].local != list[list.len() - 1].local);
            }
            lemma_no_target(front, local);
        }
    }
}

/// A port that is asked for without a number is always listened at anew,
/// whether or not a rebind is allowed.
pub proof fn law_automatic_port_is_always_bound(
    list: Seq<ForwardView>,
    all: MgrView,
    standing: Standing,
    selector: Selector,
    remote: ProtoView,
    norebind: bool,
)
    requires
        picked(all, standing, selector) is Ok,
    ensures
        addition(list, all, standing, selector, ProtoView::Tcp(0), remote, norebind).2 == Ok::<
            _,
            Failed,
        >(Some(StepView::Bind { port: 0, conn: picked(all, standing, selector)->Ok_0, remote })),
{
}

/// A request that may rebind a port that is taken is answered with two status
/// replies; the port then leads to the new target through the same listener,
/// every other forward that works stays, and only tasks of forwards that work
/// no longer are stopped.
pub proof fn law_rebind_request(
    list: Seq<ForwardView>,
    all: MgrView,
    standing: Standing,
    finished: Seq<u64>,
    selector: Selector,
    service: Seq<char>,
    port: u16,
    remote: ProtoView,
    other: ProtoView,
)
    requires
        port != 0,
        parsed_command(service) == Ok::<_, Failed>(
            Some(Command::Add { left: ProtoView::Tcp(port), right: remote, norebind: false }),
        ),
        picked(all, standing, selector) is Ok,
        target(list.filter(works(standing, finished)), ProtoView::Tcp(port)) is Some,
    ensures
        ({
            let kept = list.filter(works(standing, finished));
            let local = ProtoView::Tcp(port);
            let conn = picked(all, standing, selector)->Ok_0;
            let outcome = forward_outcome(list, all, standing, finished, selector, service);
            &&& outcome.res == Ok::<_, Failed>(Some(StepView::Reply(changed_reply())))
            &&& outcome.stopped == tasks_of(list.filter(fails(standing, finished)))
            &&& target(outcome.list, other) == if other == local {
                Some(
                    ForwardView { local, conn, remote, task: (target(kept, local)->0).task },
                )
            } else {
                target(kept, other)
            }
        }),
{
    let kept = list.filter(works(standing, finished));
    law_rebind_keeps_the_listener(
        kept,
        ProtoView::Tcp(port),
        picked(all, standing, selector)->Ok_0,
        remote,
        other,
    );
}

proof fn lemma_target_among(list: Seq<ForwardView>, local: ProtoView)
    requires
        target(list, local) is Some,
    ensures
        tasks_of(list.filter(at(local))).contains((target(list, local)->0).task),
    decreases list.len(),
{
    reveal(Seq::filter);
    let hits = list.filter(at(local));
    if list.last().local == local {
        assert(hits.last() == list.last());
        assert(tasks_of(hits)[hits.len() - 1] == list.last().task);
    } else {
        lemma_target_among(list.drop_last(), local);
    }
}

/// A request to remove a forward is answered with two status replies; the
/// forward is gone and its task stopped, and every other forward that works
/// stays.
pub proof fn law_removal_request(
    list: Seq<ForwardView>,
    all: MgrView,
    standing: Standing,
    finished: Seq<u64>,
    selector: Selector,
    service: Seq<char>,
    local: ProtoView,
    other: ProtoView,
)
    requires
        parsed_command(service) == Ok::<_, Failed>(Some(Command::Remove(local))),
    ensures
        ({
            let kept = list.filter(works(standing, finished));
            let outcome = forward_outcome(list, all, standing, finished, selector, service);
            &&& outcome.res == Ok::<_, Failed>(Some(StepView::Reply(changed_reply())))
            &&& target(outcome.list, other) == if other == local {
                None
            } else {
                target(kept, other)
            }
            &&& target(kept, local) matches Some(f) ==> outcome.stopped.contains(f.task)
        }),
{
    let kept = list.filter(works(standing, finished));
    law_removal_is_independent(kept, local, other);
    if target(kept, local) is Some {
        let dropped = tasks_of(list.filter(fails(standing, finished)));
        let removed = tasks_of(kept.filter(at(local)));
        lemma_target_among(kept, local);
        let i = choose|i: int|
            0 <= i < removed.len() && removed[i] == (target(kept, local)->0).task;
        assert((dropped + removed)[dropped.len() + i] == removed[i]);
    }
}

/// A forward whose port was given out automatically is told to the client by
/// its port, and found there afterwards.
pub proof fn law_automatic_port_is_told(
    list: Seq<ForwardView>,
    conn: ConnView,
    remote: ProtoView,
    actual: u16,
    task: u64,
)
    ensures
        bound_reply(0, actual) == changed_reply() + framed(encode_utf8(digits(actual as int, 10))),
        target(with_forward(list, 0, conn, remote, actual, task), ProtoView::Tcp(actual)) == Some(
            ForwardView { local: ProtoView::Tcp(actual), conn, remote, task },
        ),
{
    law_bound_forward_is_found(list, 0, conn, remote, actual, task, ProtoView::Tcp(actual));
}

/// The request for a forward from any free port to a service of the device.
pub open spec fn automatic_request(name: Seq<char>, norebind: bool) -> Seq<char> {
    if norebind {
        "forward:norebind:tcp:0;"@ + name
    } else {
        "forward:tcp:0;"@ + name
    }
}

proof fn lemma_automatic_ends(name: Seq<char>, norebind: bool)
    requires
        stripped(name, "tcp:"@) is None,
    ensures
        parsed_addition("tcp:0;"@ + name, norebind) == Ok::<_, Failed>(
            Some(
                Command::Add {
                    left: ProtoView::Tcp(0),
                    right: ProtoView::Other(name),
                    norebind,
                },
            ),
        ),
{
    reveal_strlit("tcp:0;");
    reveal_strlit("tcp:");
    let ends = "tcp:0;"@ + name;
    lemma_first_index(ends, ';', 5);
    let left = ends.take(5);
    assert(ends.skip(6) =~= name);
    assert(left.take(4) =~= "tcp:"@);
    assert(left.skip(4) =~= digits(0, 10));
    lemma_digits_read_back(0, 10);
}

/// The request for a forward from any free port is read as that.
pub proof fn law_automatic_request_is_read(name: Seq<char>, norebind: bool)
    requires
        stripped(name, "tcp:"@) is None,
    ensures
        parsed_command(automatic_request(name, norebind)) == Ok::<_, Failed>(
            Some(
                Command::Add {
                    left: ProtoView::Tcp(0),
                    right: ProtoView::Other(name),
                    norebind,
                },
            ),
        ),
{
    reveal_strlit("forward:");
    reveal_strlit("norebind:");
    reveal_strlit("tcp:0;");
    reveal_strlit("forward:tcp:0;");
    reveal_strlit("forward:norebind:tcp:0;");
    let ends = "tcp:0;"@ + name;
    let service = automatic_request(name, norebind);
    lemma_automatic_ends(name, norebind);
    assert(service.take(8) =~= "forward:"@);
    let rest = service.skip(8);
    if norebind {
        assert(rest.take(9) =~= "norebind:"@);
        assert(rest.skip(9) =~= ends);
    } else {
        assert(rest =~= ends);
        if has_prefix(rest, "norebind:"@) {
            assert(rest.take(9)[0] == "norebind:"@[0]);
        }
    }
}

proof fn lemma_list_request()
    ensures
        parsed_command("list-forward"@) == Ok::<_, Failed>(Some(Command::List)),
{
    reveal_strlit("list-forward");
    reveal_strlit("forward:");
    reveal_strlit("killforward:");
    reveal_strlit("killforward-all");
    let service = "list-forward"@;
    if has_prefix(service, "forward:"@) {
        assert(service.take(8)[0] == "forward:"@[0]);
    }
    if has_prefix(service, "killforward:"@) {
        assert(service.take(12)[0] == "killforward:"@[0]);
    }
    assert("killforward-all"@.len() != service.len());
}

proof fn lemma_all_kept(list: Seq<ForwardView>, keep: spec_fn(ForwardView) -> bool)
    requires
        forall|i: int| 0 <= i < list.len() ==> keep(#[trigger] list[i]),
    ensures
        list.filter(keep) == list,
    decreases list.len(),
{
    reveal(Seq::filter);
    if list.len() > 0 {
        assert(keep(list[list.len() - 1]));
        assert forall|i: int| 0 <= i < list.drop_last().len() implies keep(
            #[trigger] list.drop_last()[i],
        ) by {
            assert(keep(list[i]));
        }
        lemma_all_kept(list.drop_last(), keep);
        assert(list.filter(keep) =~= list);
    } else {
        assert(list.filter(keep) =~= list);
    }
}

/// From no forwards, two requests for any free port are both granted. Once
/// the system has given out two ports, a list holds both forwards and nothing
/// else, each under its own port with its own target. `first`, `second` and
/// `third` are how things stand at the three requests: the connections, which
/// of them have closed, and which tasks have ended.
pub proof fn law_two_automatic_ports_are_listed(
    first: (MgrView, Standing, Seq<u64>, Selector),
    second: (MgrView, Standing, Seq<u64>, Selector),
    third: (MgrView, Standing, Seq<u64>, Selector),
    conn: ConnView,
    name1: Seq<char>,
    name2: Seq<char>,
    norebind: bool,
    port1: u16,
    port2: u16,
    task1: u64,
    task2: u64,
)
    requires
        stripped(name1, "tcp:"@) is None,
        stripped(name2, "tcp:"@) is None,
        picked(first.0, first.1, first.3) == Ok::<_, PickError>(conn),
        picked(second.0, second.1, second.3) == Ok::<_, PickError>(conn),
        !second.1.is_closed(conn.id) && !second.2.contains(task1),
        !third.1.is_closed(conn.id) && !third.2.contains(task1) && !third.2.contains(task2),
        port1 != port2,
    ensures
        ({
            let remote1 = ProtoView::Other(name1);
            let remote2 = ProtoView::Other(name2);
            let asked1 = forward_outcome(
                seq![],
                first.0,
                first.1,
                first.2,
                first.3,
                automatic_request(name1, norebind),
            );
            let one = with_forward(asked1.list, 0, conn, remote1, port1, task1);
            let asked2 = forward_outcome(
                one,
                second.0,
                second.1,
                second.2,
                second.3,
                automatic_request(name2, norebind),
            );
            let two = with_forward(asked2.list, 0, conn, remote2, port2, task2);
            let listed = forward_outcome(
                two,
                third.0,
                third.1,
                third.2,
                third.3,
                "list-forward"@,
            );
            &&& asked1.res == Ok::<_, Failed>(
                Some(StepView::Bind { port: 0, conn, remote: remote1 }),
            )
            &&& asked2.res == Ok::<_, Failed>(
                Some(StepView::Bind { port: 0, conn, remote: remote2 }),
            )
            &&& asked2.stopped == Seq::<u64>::empty()
            &&& listed.list == two
            &&& listed.stopped == Seq::<u64>::empty()
            &&& listed.res == Ok::<_, Failed>(
                Some(
                    StepView::Reply(
                        status_with(
                            Status::Okay,
                            conn.serial + " "@ + ("tcp:"@ + digits(port1 as int, 10)) + " "@
                                + name1 + "\n"@ + (conn.serial + " "@ + ("tcp:"@ + digits(
                                port2 as int,
                                10,
                            )) + " "@ + name2 + "\n"@),
                        ),
                    ),
                ),
            )
        }),
{
    reveal(Seq::filter);
    reveal_with_fuel(forward_lines, 3);
    law_automatic_request_is_read(name1, norebind);
    law_automatic_request_is_read(name2, norebind);
    lemma_list_request();
    let none = Seq::<ForwardView>::empty();
    let f1 = ForwardView {
        local: ProtoView::Tcp(port1),
        conn,
        remote: ProtoView::Other(name1),
        task: task1,
    };
    let f2 = ForwardView {
        local: ProtoView::Tcp(port2),
        conn,
        remote: ProtoView::Other(name2),
        task: task2,
    };
    assert(none.filter(works(first.1, first.2)) =~= none);
    assert(none.filter(away_from(f1.local)) =~= none);
    let one = none.push(f1);
    lemma_all_kept(one, works(second.1, second.2));
    one.lemma_all_neg_filter_empty(fails(second.1, second.2));
    lemma_all_kept(one, away_from(f2.local));
    let two = one.push(f2);
    lemma_all_kept(two, works(third.1, third.2));
    two.lemma_all_neg_filter_empty(fails(third.1, third.2));
    assert(tasks_of(none) =~= Seq::<u64>::empty());
    assert(two.drop_last() =~= one);
    assert(one.drop_last() =~= none);
    assert(forward_lines(two, third.1) =~= forward_line(f1, third.1) + forward_line(f2, third.1));
}

/// The request for a forward from the one end to the other.
pub open spec fn forward_request(local: Seq<char>, remote: Seq<char>, norebind: bool) -> Seq<char> {
    (if norebind {
        "forward:norebind:"@
    } else {
        "forward:"@
    }) + local + ";"@ + remote
}

/// A request for a forward is read as the two ends that stand in front of and
/// behind its first semicolon, and fails where one of them names nothing.
pub proof fn law_forward_request_is_read(local: Seq<char>, remote: Seq<char>, norebind: bool)
    requires
        !local.contains(';'),
        norebind || !has_prefix(local + ";"@ + remote, "norebind:"@),
    ensures
        parsed_command(forward_request(local, remote, norebind)) == match (
            parsed_proto(local),
            parsed_proto(remote),
        ) {
            (None, _) => Err(Failed::ParseLocal),
            (Some(_), None) => Err(Failed::ParseRemote),
            (Some(left), Some(right)) => Ok::<_, Failed>(
                Some(Command::Add { left, right, norebind }),
            ),
        },
{
    reveal_strlit("forward:");
    reveal_strlit("norebind:");
    reveal_strlit("forward:norebind:");
    reveal_strlit(";");
    let ends = local + ";"@ + remote;
    let service = forward_request(local, remote, norebind);
    law_cut_at_the_first(local, ';', remote);
    assert(";"@ =~= seq![';']);
    law_prefix_comes_off("forward:"@, "norebind:"@ + ends);
    law_prefix_comes_off("norebind:"@, ends);
    law_prefix_comes_off("forward:"@, ends);
    if norebind {
        assert(service =~= "forward:"@ + ("norebind:"@ + ends));
    } else {
        assert(service =~= "forward:"@ + ends);
    }
}

/// The requests about forwards that are there are read as what they say: one is
/// to be removed, all are, or they are to be listed.
pub proof fn law_other_forward_requests_are_read(local: Seq<char>)
    ensures
        parsed_command("killforward:"@ + local) == match parsed_proto(local) {
            Some(end) => Ok::<_, Failed>(Some(Command::Remove(end))),
            None => Err(Failed::ParsePort),
        },
        parsed_command("killforward-all"@) == Ok::<_, Failed>(Some(Command::RemoveAll)),
        parsed_command("list-forward"@) == Ok::<_, Failed>(Some(Command::List)),
{
    reveal_strlit("forward:");
    reveal_strlit("killforward:");
    reveal_strlit("killforward-all");
    lemma_list_request();
    law_prefix_comes_off("killforward:"@, local);
    let one = "killforward:"@ + local;
    if has_prefix(one, "forward:"@) {
        assert(one.take(8)[0] == "forward:"@[0]);
    }
    let all = "killforward-all"@;
    if has_prefix(all, "forward:"@) {
        assert(all.take(8)[0] == "forward:"@[0]);
    }
    if has_prefix(all, "killforward:"@) {
        assert(all.take(12)[11] == "killforward:"@[11]);
    }
}

/// A request for a forward without a second end is refused.
pub proof fn law_forwards_have_two_ends(rest: Seq<char>)
    requires
        !rest.contains(';'),
    ensures
        parsed_command("forward:"@ + rest) == Err::<Option<Command>, _>(Failed::Invalid),
        parsed_command("forward:norebind:"@ + rest) == Err::<Option<Command>, _>(Failed::Invalid),
{
    reveal_strlit("forward:");
    reveal_strlit("norebind:");
    reveal_strlit("forward:norebind:");
    law_prefix_comes_off("forward:"@, rest);
    law_prefix_comes_off("forward:"@, "norebind:"@ + rest);
    law_prefix_comes_off("norebind:"@, rest);
    assert("forward:norebind:"@ + rest =~= "forward:"@ + ("norebind:"@ + rest));
    law_cut_takes_one_separator_out(rest, ';');
    lemma_no_semicolon(rest);
    match stripped(rest, "norebind:"@) {
        Some(s) => {
            assert forall|i: int| 0 <= i < s.len() implies s[i] != ';' by {
                assert(s[i] == rest[i + 9]);
                assert(rest.contains(rest[i + 9]));
            }
            lemma_no_semicolon(s);
        },
        None => {},
    }
}

proof fn lemma_no_semicolon(s: Seq<char>)
    requires
        !s.contains(';'),
    ensures
        split_at_first(s, ';') is None,
{
    law_cut_takes_one_separator_out(s, ';');
    if let Some((a, b)) = split_at_first(s, ';') {
        assert(s[a.len() as int] == ';');
    }
}

proof fn lemma_among(list: Seq<ForwardView>, keep: spec_fn(ForwardView) -> bool, f: ForwardView)
    ensures
        list.filter(keep).contains(f) <==> list.contains(f) && keep(f),
    decreases list.len(),
{
    reveal(Seq::filter);
    if list.len() > 0 {
        let front = list.drop_last();
        let last = list.last();
        lemma_among(front, keep, f);
        assert(list =~= front.push(last));
        assert(list.contains(f) <==> front.contains(f) || last == f) by {
            if front.contains(f) {
                let i = choose|i: int| 0 <= i < front.len() && front[i] == f;
                assert(list[i] == f);
            }
            if list.contains(f) {
                let i = choose|i: int| 0 <= i < list.len() && list[i] == f;
                if i < front.len() {
                    assert(front[i] == f);
                }
            }
            assert(list[list.len() - 1] == last);
        }
        let sub = front.filter(keep);
        if keep(last) {
            assert(list.filter(keep) == sub.push(last));
            if sub.contains(f) {
                let i = choose|i: int| 0 <= i < sub.len() && sub[i] == f;
                assert(sub.push(last)[i] == f);
            }
            if sub.push(last).contains(f) {
                let i = choose|i: int| 0 <= i < sub.push(last).len() && sub.push(last)[i] == f;
                if i < sub.len() {
                    assert(sub[i] == f);
                }
            }
            assert(sub.push(last)[sub.len() as int] == last);
        }
    } else {
        assert(list.filter(keep) =~= list);
    }
}

/// Whether a forward works: its connection is open, and its task runs.
pub open spec fn is_up(f: ForwardView, standing: Standing, finished: Seq<u64>) -> bool {
    !standing.is_closed(f.conn.id) && !finished.contains(f.task)
}

/// Whether the port is free for a new forward: none that works is there. Any
/// free port is always free.
pub open spec fn is_free(
    list: Seq<ForwardView>,
    standing: Standing,
    finished: Seq<u64>,
    port: u16,
) -> bool {
    port == 0 || forall|f: ForwardView| #[trigger]
        list.contains(f) && f.local == ProtoView::Tcp(port) ==> !is_up(f, standing, finished)
}

proof fn lemma_free(list: Seq<ForwardView>, standing: Standing, finished: Seq<u64>, port: u16)
    requires
        port != 0,
        is_free(list, standing, finished, port),
    ensures
        target(list.filter(works(standing, finished)), ProtoView::Tcp(port)) is None,
{
    let kept = list.filter(works(standing, finished));
    assert forall|i: int| 0 <= i < kept.len() implies (#[trigger] kept[i]).local
        != ProtoView::Tcp(port) by {
        assert(kept.contains(kept[i]));
        lemma_among(list, works(standing, finished), kept[i]);
    }
    lemma_no_target(kept, ProtoView::Tcp(port));
}

proof fn lemma_port_text(port: u16)
    ensures
        !("tcp:"@ + digits(port as int, 10)).contains(';'),
        parsed_proto("tcp:"@ + digits(port as int, 10)) == Some(ProtoView::Tcp(port)),
{
    reveal_strlit("tcp:");
    law_ends_are_named(port, ""@);
    lemma_digits_read_back(port as int, 10);
    let s = "tcp:"@ + digits(port as int, 10);
    assert forall|i: int| 0 <= i < s.len() implies s[i] != ';' by {
        if i >= 4 {
            assert(s[i] == digits(port as int, 10)[i - 4]);
            assert(crate::number::digit_value(digits(port as int, 10)[i - 4], 10) >= 0);
        }
    }
}

proof fn lemma_port_request(port: u16, remote: ProtoView, norebind: bool)
    requires
        remote matches ProtoView::Other(name) ==> stripped(name, "tcp:"@) is None,
    ensures
        parsed_command(
            forward_request(
                "tcp:"@ + digits(port as int, 10),
                proto_text(remote),
                norebind,
            ),
        ) == Ok::<_, Failed>(
            Some(Command::Add { left: ProtoView::Tcp(port), right: remote, norebind }),
        ),
{
    reveal_strlit("tcp:");
    reveal_strlit("norebind:");
    let local = "tcp:"@ + digits(port as int, 10);
    lemma_port_text(port);
    law_proto_reads_back(remote);
    let ends = local + ";"@ + proto_text(remote);
    if has_prefix(ends, "norebind:"@) {
        assert(ends.take(9)[0] == "norebind:"@[0]);
        assert(ends[0] == 't');
    }
    law_forward_request_is_read(local, proto_text(remote), norebind);
}

/// A request for a forward from a port that is free asks to listen at that very
/// port, for the device that is picked, and with exactly the target that the
/// request names; whatever the port, and whatever the target. Once the port is
/// listened at, one forward is there, and it leads to that target; every other
/// forward that works stays.
pub proof fn law_forward_leads_to_its_target(
    forwards: &mut ForwardingMgr,
    socket: &mut SmartSocket,
    conns: &ConnectionMgr,
    standing: &Standing,
    finished: &Vec<u64>,
    service: &str,
    result: ForwardResult,
    conn: ConnView,
    port: u16,
    remote: ProtoView,
    norebind: bool,
    pending: PendingForward,
    after: &mut ForwardingMgr,
    actual: u16,
    task: u64,
    done: (Vec<u64>, Vec<u8>),
    other: ForwardView,
)
    requires
        call_ensures(
            ForwardingMgr::handle_forward,
            (forwards, socket, conns, standing, finished, service),
            result,
        ),
        service@ == forward_request(
            "tcp:"@ + digits(port as int, 10),
            proto_text(remote),
            norebind,
        ),
        remote matches ProtoView::Other(name) ==> stripped(name, "tcp:"@) is None,
        picked(conns@, *standing, old(socket).device@) == Ok::<_, PickError>(conn),
        is_free(old(forwards)@, *standing, finished@, port),
        result.res == Ok::<_, ServiceError>(Some(ForwardStep::Bind(pending))) ==> *old(after)
            == *final(forwards) && call_ensures(
            ForwardingMgr::bound,
            (after, pending, actual, task),
            done,
        ),
        result.res matches Ok(Some(ForwardStep::Bind(p))) ==> p == pending,
    ensures
        result.res == Ok::<_, ServiceError>(Some(ForwardStep::Bind(pending))),
        pending.port == port,
        pending.conn@ == conn,
        pending.remote@ == remote,
        final(socket).device@ == Selector::Connection(conn),
        ({
            let local = ProtoView::Tcp(
                if port == 0 {
                    actual
                } else {
                    port
                },
            );
            let there = final(after)@.contains(other);
            &&& final(after)@.contains(ForwardView { local, conn, remote, task })
            &&& there && other.local == local ==> other == (ForwardView {
                local,
                conn,
                remote,
                task,
            })
            &&& other.local != local ==> (there <==> old(forwards)@.contains(other) && is_up(
                other,
                *standing,
                finished@,
            ))
        }),
{
    lemma_port_request(port, remote, norebind);
    if port != 0 {
        lemma_free(old(forwards)@, *standing, finished@, port);
    }
    let list = old(forwards)@;
    let kept = list.filter(works(*standing, finished@));
    let local = bound_at(port, actual);
    let rest = kept.filter(away_from(local));
    let added = ForwardView { local, conn, remote, task };
    assert(step_view(result.res) == Ok::<_, Failed>(
        Some(StepView::Bind { port, conn, remote }),
    ));
    assert(final(after)@ == rest.push(added));
    lemma_among(list, works(*standing, finished@), other);
    lemma_among(kept, away_from(local), other);
    assert(rest.push(added)[rest.len() as int] == added);
    if rest.contains(other) {
        let i = choose|i: int| 0 <= i < rest.len() && rest[i] == other;
        assert(rest.push(added)[i] == other);
    }
    if rest.push(added).contains(other) {
        let i = choose|i: int| 0 <= i < rest.push(added).len() && rest.push(added)[i] == other;
        if i < rest.len() {
            assert(rest[i] == other);
        }
    }
}

proof fn lemma_target_contained(list: Seq<ForwardView>, f: ForwardView)
    requires
        distinct(list),
        list.contains(f),
    ensures
        target(list, f.local) == Some(f),
{
    let i = choose|i: int| 0 <= i < list.len() && list[i] == f;
    lemma_target(list, f.local, i);
}

/// A request for a forward from a port at which a forward works changes where
/// that one leads, through the same listener, and is answered with two words of
/// success; or, where it must not, it fails and changes nothing about it. Every
/// other forward that works stays.
pub proof fn law_forward_from_a_taken_port(
    forwards: &mut ForwardingMgr,
    socket: &mut SmartSocket,
    conns: &ConnectionMgr,
    standing: &Standing,
    finished: &Vec<u64>,
    service: &str,
    result: ForwardResult,
    conn: ConnView,
    port: u16,
    remote: ProtoView,
    norebind: bool,
    there: ForwardView,
    other: ForwardView,
)
    requires
        old(forwards).wf(),
        call_ensures(
            ForwardingMgr::handle_forward,
            (forwards, socket, conns, standing, finished, service),
            result,
        ),
        service@ == forward_request(
            "tcp:"@ + digits(port as int, 10),
            proto_text(remote),
            norebind,
        ),
        remote matches ProtoView::Other(name) ==> stripped(name, "tcp:"@) is None,
        picked(conns@, *standing, old(socket).device@) == Ok::<_, PickError>(conn),
        port != 0,
        old(forwards)@.contains(there),
        there.local == ProtoView::Tcp(port),
        is_up(there, *standing, finished@),
    ensures
        norebind ==> (result.res matches Err(e) && e@ == Failed::AlreadyBound),
        !norebind ==> (result.res matches Ok(Some(ForwardStep::Reply(bytes))) && bytes@ == seq![
            'O' as u8,
            'K' as u8,
            'A' as u8,
            'Y' as u8,
            'O' as u8,
            'K' as u8,
            'A' as u8,
            'Y' as u8,
        ]),
        final(forwards)@.contains(
            if norebind {
                there
            } else {
                ForwardView { local: there.local, conn, remote, task: there.task }
            },
        ),
        other.local != there.local ==> (final(forwards)@.contains(other) <==> old(
            forwards,
        )@.contains(other) && is_up(other, *standing, finished@)),
        final(forwards)@.len() == old(forwards)@.filter(
            |f: ForwardView| is_up(f, *standing, finished@),
        ).len(),
{
    lemma_port_request(port, remote, norebind);
    let list = old(forwards)@;
    let keep = works(*standing, finished@);
    let kept = list.filter(keep);
    assert(keep =~= |f: ForwardView| is_up(f, *standing, finished@));
    lemma_filter_distinct(list, keep);
    lemma_among(list, keep, there);
    lemma_target_contained(kept, there);
    lemma_among(list, keep, other);
    let after = final(forwards)@;
    if !norebind {
        let moved = ForwardView { local: there.local, conn, remote, task: there.task };
        assert(after == retargeted(kept, there.local, conn, remote));
        let i = choose|i: int| 0 <= i < kept.len() && kept[i] == there;
        assert(after[i] == moved);
        if other.local != there.local {
            if kept.contains(other) {
                let j = choose|j: int| 0 <= j < kept.len() && kept[j] == other;
                assert(after[j] == other);
            }
            if after.contains(other) {
                let j = choose|j: int| 0 <= j < after.len() && after[j] == other;
                assert(kept[j] == other);
            }
        }
        assert(changed_reply() =~= seq![0x4fu8, 0x4b, 0x41, 0x59, 0x4f, 0x4b, 0x41, 0x59]);
    } else {
        assert(after == kept);
    }
}

/// A request for a forward fails where the local end is no port, or where no
/// device is picked; no forward that works is lost by it.
pub proof fn law_forwards_that_cannot_be(
    forwards: &mut ForwardingMgr,
    socket: &mut SmartSocket,
    conns: &ConnectionMgr,
    standing: &Standing,
    finished: &Vec<u64>,
    service: &str,
    result: ForwardResult,
    local: ProtoView,
    remote: ProtoView,
    norebind: bool,
    other: ForwardView,
)
    requires
        call_ensures(
            ForwardingMgr::handle_forward,
            (forwards, socket, conns, standing, finished, service),
            result,
        ),
        parsed_command(service@) == Ok::<_, Failed>(
            Some(Command::Add { left: local, right: remote, norebind }),
        ),
        local is Other || picked(conns@, *standing, old(socket).device@) is Err,
    ensures
        result.res matches Err(e) && e@ == if local is Other {
            Failed::UnsupportedProtocol(local)
        } else {
            Failed::Pick(picked(conns@, *standing, old(socket).device@)->Err_0)
        },
        final(socket).device@ == old(socket).device@,
        final(forwards)@.contains(other) <==> old(forwards)@.contains(other) && is_up(
            other,
            *standing,
            finished@,
        ),
{
    lemma_among(old(forwards)@, works(*standing, finished@), other);
}

/// A request to remove a forward, or all, takes out exactly that one, or all,
/// and is answered with two words of success. A forward that works no longer is
/// taken out with it.
pub proof fn law_killed_forwards_are_gone(
    forwards: &mut ForwardingMgr,
    socket: &mut SmartSocket,
    conns: &ConnectionMgr,
    standing: &Standing,
    finished: &Vec<u64>,
    service: &str,
    result: ForwardResult,
    local: ProtoView,
    other: ForwardView,
)
    requires
        call_ensures(
            ForwardingMgr::handle_forward,
            (forwards, socket, conns, standing, finished, service),
            result,
        ),
        local matches ProtoView::Other(name) ==> stripped(name, "tcp:"@) is None,
        service@ == "killforward:"@ + proto_text(local) || service@ == "killforward-all"@,
    ensures
        result.res matches Ok(Some(ForwardStep::Reply(bytes))) && bytes@ == seq![
            'O' as u8,
            'K' as u8,
            'A' as u8,
            'Y' as u8,
            'O' as u8,
            'K' as u8,
            'A' as u8,
            'Y' as u8,
        ],
        final(socket).device@ == old(socket).device@,
        service@ == "killforward-all"@ ==> final(forwards)@.len() == 0,
        service@ == "killforward:"@ + proto_text(local) ==> (final(forwards)@.contains(other)
            <==> old(forwards)@.contains(other) && other.local != local && is_up(
            other,
            *standing,
            finished@,
        )),
{
    law_proto_reads_back(local);
    law_other_forward_requests_are_read(proto_text(local));
    let kept = old(forwards)@.filter(works(*standing, finished@));
    lemma_among(old(forwards)@, works(*standing, finished@), other);
    lemma_among(kept, away_from(local), other);
    assert(changed_reply() =~= seq![0x4fu8, 0x4b, 0x41, 0x59, 0x4f, 0x4b, 0x41, 0x59]);
    reveal_strlit("killforward:");
    reveal_strlit("killforward-all");
    assert(("killforward:"@ + proto_text(local))[11] != "killforward-all"@[11]);
}

/// The list of forwards holds one line for each of them and nothing else, in
/// their order: one forward more is one line more, which says the device, or
/// that it is gone, and both ends.
pub proof fn law_every_forward_has_its_line(
    mgr: &ForwardingMgr,
    standing: &Standing,
    text: String,
    longer: &ForwardingMgr,
    more: String,
    f: ForwardView,
)
    requires
        call_ensures(ForwardingMgr::list, (mgr, standing), text),
        longer@ == mgr@.push(f),
        call_ensures(ForwardingMgr::list, (longer, standing), more),
    ensures
        mgr@.len() == 0 ==> text@.len() == 0,
        more@ == text@ + (if standing.is_gone(f.conn.id) {
            "disconnected"@
        } else {
            f.conn.serial
        }) + " "@ + proto_text(f.local) + " "@ + proto_text(f.remote) + "\n"@,
{
    assert(longer@.drop_last() =~= mgr@);
    let line = forward_line(f, *standing);
    assert(more@ == text@ + line);
    assert(more@ =~= text@ + (if standing.is_gone(f.conn.id) {
        "disconnected"@
    } else {
        f.conn.serial
    }) + " "@ + proto_text(f.local) + " "@ + proto_text(f.remote) + "\n"@);
}

/// A request for the list of forwards is answered with the lines of those that
/// work, and with nothing else; those that work no longer are taken out.
pub proof fn law_the_list_tells_what_works(
    forwards: &mut ForwardingMgr,
    socket: &mut SmartSocket,
    conns: &ConnectionMgr,
    standing: &Standing,
    finished: &Vec<u64>,
    service: &str,
    result: ForwardResult,
    other: ForwardView,
    after: &ForwardingMgr,
    text: String,
)
    requires
        call_ensures(
            ForwardingMgr::handle_forward,
            (forwards, socket, conns, standing, finished, service),
            result,
        ),
        service@ == "list-forward"@,
        after@ == final(forwards)@,
        call_ensures(ForwardingMgr::list, (after, standing), text),
    ensures
        final(forwards)@.contains(other) <==> old(forwards)@.contains(other) && is_up(
            other,
            *standing,
            finished@,
        ),
        final(forwards)@ == old(forwards)@.filter(
            |f: ForwardView| is_up(f, *standing, finished@),
        ),
        final(socket).device@ == old(socket).device@,
        result.res matches Ok(Some(ForwardStep::Reply(bytes))) && ({
            &&& bytes@.take(4) == seq!['O' as u8, 'K' as u8, 'A' as u8, 'Y' as u8]
            &&& encode_utf8(text@).len() <= 0xffff ==> crate::protocol::read_text(bytes@.skip(4))
                == Ok::<_, crate::protocol::ProtocolError>((text@, bytes@.len() - 4))
        }),
{
    lemma_list_request();
    let keep = works(*standing, finished@);
    assert(keep =~= |f: ForwardView| is_up(f, *standing, finished@));
    lemma_among(old(forwards)@, keep, other);
    let text = forward_lines(final(forwards)@, *standing);
    let body = framed(encode_utf8(text));
    let reply = status_with(Status::Okay, text);
    assert(reply.take(4) =~= seq![0x4fu8, 0x4b, 0x41, 0x59]);
    assert(reply.skip(4) =~= body);
    if encode_utf8(text).len() <= 0xffff {
        crate::protocol::law_read_back(text, seq![]);
        assert(body + Seq::<u8>::empty() =~= body);
    }
}

/// Whether no two forwards share their task.
pub open spec fn own_tasks(list: Seq<ForwardView>) -> bool {
    forall|f: ForwardView, g: ForwardView| #[trigger]
        list.contains(f) && #[trigger] list.contains(g) && f.task == g.task ==> f == g
}

proof fn lemma_tasks(list: Seq<ForwardView>, keep: spec_fn(ForwardView) -> bool, f: ForwardView)
    requires
        own_tasks(list),
        list.contains(f),
    ensures
        tasks_of(list.filter(keep)).contains(f.task) <==> keep(f),
        list.filter(keep).contains(f) <==> keep(f),
{
    let sub = list.filter(keep);
    lemma_among(list, keep, f);
    if keep(f) {
        let i = choose|i: int| 0 <= i < sub.len() && sub[i] == f;
        assert(tasks_of(sub)[i] == f.task);
    }
    if tasks_of(sub).contains(f.task) {
        let i = choose|i: int| 0 <= i < tasks_of(sub).len() && tasks_of(sub)[i] == f.task;
        assert(sub.contains(sub[i]));
        lemma_among(list, keep, sub[i]);
        assert(list.contains(sub[i]));
    }
}

/// Whether the task is that of one of the forwards.
pub open spec fn has_task(list: Seq<ForwardView>, task: u64) -> bool {
    exists|f: ForwardView| #[trigger] list.contains(f) && f.task == task
}

/// Whatever is asked, a listener is stopped exactly if its forward is taken out,
/// and no listener is lost: every forward that was there is still there under
/// its listener, or its listener is to be stopped.
pub proof fn law_listeners_are_kept_or_stopped(
    forwards: &mut ForwardingMgr,
    socket: &mut SmartSocket,
    conns: &ConnectionMgr,
    standing: &Standing,
    finished: &Vec<u64>,
    service: &str,
    result: ForwardResult,
    f: ForwardView,
)
    requires
        own_tasks(old(forwards)@),
        call_ensures(
            ForwardingMgr::handle_forward,
            (forwards, socket, conns, standing, finished, service),
            result,
        ),
        old(forwards)@.contains(f),
    ensures
        result.stopped@.contains(f.task) <==> !has_task(final(forwards)@, f.task),
{
    let list = old(forwards)@;
    let after = final(forwards)@;
    let keep = works(*standing, finished@);
    let lose = fails(*standing, finished@);
    let kept = list.filter(keep);
    lemma_tasks(list, keep, f);
    lemma_tasks(list, lose, f);
    lemma_own_tasks(list, keep);
    lemma_has_task(list, keep, f);
    if list.contains(f) {
        assert(has_task(list, f.task));
    }
    match parsed_command(service@) {
        Ok(Some(Command::Add { left, right, norebind })) => {
            let (added, _, _) = addition(
                kept,
                conns@,
                *standing,
                old(socket).device@,
                left,
                right,
                norebind,
            );
            assert(added == after);
            if after != kept {
                let conn = picked(conns@, *standing, old(socket).device@)->Ok_0;
                assert(after == retargeted(kept, left, conn, right));
                lemma_retargeted_tasks(kept, left, conn, right, f.task);
            }
        },
        Ok(Some(Command::Remove(local))) => {
            lemma_removed_tasks(list, kept, keep, local, f);
            let dropped = tasks_of(list.filter(lose));
            let removed = tasks_of(kept.filter(at(local)));
            lemma_either(dropped, removed, f.task);
        },
        Ok(Some(Command::RemoveAll)) => {
            let i = choose|i: int| 0 <= i < list.len() && list[i] == f;
            assert(tasks_of(list)[i] == f.task);
        },
        _ => {},
    }
}

proof fn lemma_either(a: Seq<u64>, b: Seq<u64>, x: u64)
    ensures
        (a + b).contains(x) <==> a.contains(x) || b.contains(x),
{
    if a.contains(x) {
        let i = choose|i: int| 0 <= i < a.len() && a[i] == x;
        assert((a + b)[i] == x);
    }
    if b.contains(x) {
        let i = choose|i: int| 0 <= i < b.len() && b[i] == x;
        assert((a + b)[a.len() + i] == x);
    }
}

proof fn lemma_own_tasks(list: Seq<ForwardView>, keep: spec_fn(ForwardView) -> bool)
    requires
        own_tasks(list),
    ensures
        own_tasks(list.filter(keep)),
{
    let sub = list.filter(keep);
    assert forall|f: ForwardView, g: ForwardView| #[trigger]
        sub.contains(f) && #[trigger] sub.contains(g) && f.task == g.task implies f == g by {
        lemma_among(list, keep, f);
        lemma_among(list, keep, g);
    }
}

proof fn lemma_has_task(list: Seq<ForwardView>, keep: spec_fn(ForwardView) -> bool, f: ForwardView)
    requires
        own_tasks(list),
        list.contains(f),
    ensures
        has_task(list.filter(keep), f.task) <==> keep(f),
{
    let sub = list.filter(keep);
    lemma_among(list, keep, f);
    if has_task(sub, f.task) {
        let g = choose|g: ForwardView| #[trigger] sub.contains(g) && g.task == f.task;
        lemma_among(list, keep, g);
    }
}

proof fn lemma_removed_tasks(
    list: Seq<ForwardView>,
    kept: Seq<ForwardView>,
    keep: spec_fn(ForwardView) -> bool,
    local: ProtoView,
    f: ForwardView,
)
    requires
        own_tasks(list),
        kept == list.filter(keep),
        list.contains(f),
    ensures
        has_task(kept.filter(away_from(local)), f.task) <==> keep(f) && f.local != local,
        tasks_of(kept.filter(at(local))).contains(f.task) <==> keep(f) && f.local == local,
{
    lemma_own_tasks(list, keep);
    lemma_among(list, keep, f);
    if keep(f) {
        lemma_has_task(kept, away_from(local), f);
        lemma_tasks(kept, at(local), f);
    } else {
        let away = kept.filter(away_from(local));
        if has_task(away, f.task) {
            let g = choose|g: ForwardView| #[trigger] away.contains(g) && g.task == f.task;
            lemma_among(kept, away_from(local), g);
            lemma_among(list, keep, g);
        }
        let hits = kept.filter(at(local));
        if tasks_of(hits).contains(f.task) {
            let i = choose|i: int| 0 <= i < tasks_of(hits).len() && tasks_of(hits)[i] == f.task;
            assert(hits.contains(hits[i]));
            lemma_among(kept, at(local), hits[i]);
            lemma_among(list, keep, hits[i]);
        }
    }
}

proof fn lemma_retargeted_tasks(
    list: Seq<ForwardView>,
    local: ProtoView,
    conn: ConnView,
    remote: ProtoView,
    task: u64,
)
    ensures
        has_task(retargeted(list, local, conn, remote), task) <==> has_task(list, task),
{
    let after = retargeted(list, local, conn, remote);
    if has_task(list, task) {
        let f = choose|f: ForwardView| #[trigger] list.contains(f) && f.task == task;
        let i = choose|i: int| 0 <= i < list.len() && list[i] == f;
        assert(after.contains(after[i]) && after[i].task == task);
    }
    if has_task(after, task) {
        let f = choose|f: ForwardView| #[trigger] after.contains(f) && f.task == task;
        let i = choose|i: int| 0 <= i < after.len() && after[i] == f;
        assert(list.contains(list[i]) && list[i].task == task);
    }
}

/// A request that is not about forwards, or cannot be read, changes nothing and
/// stops nothing.
pub proof fn law_other_requests_leave_forwards_alone(
    forwards: &mut ForwardingMgr,
    socket: &mut SmartSocket,
    conns: &ConnectionMgr,
    standing: &Standing,
    finished: &Vec<u64>,
    service: &str,
    result: ForwardResult,
)
    requires
        call_ensures(
            ForwardingMgr::handle_forward,
            (forwards, socket, conns, standing, finished, service),
            result,
        ),
    ensures
        result.res == Ok::<Option<ForwardStep>, ServiceError>(None) <==> !has_prefix(
            service@,
            "forward:"@,
        ) && !has_prefix(service@, "killforward:"@) && service@ != "killforward-all"@ && service@
            != "list-forward"@,
        result.res == Ok::<Option<ForwardStep>, ServiceError>(None) || parsed_command(
            service@,
        ) is Err ==> {
            &&& final(forwards)@ == old(forwards)@
            &&& final(socket).device@ == old(socket).device@
            &&& result.stopped@.len() == 0
        },
        parsed_command(service@) matches Err(e) ==> (result.res matches Err(err) && err@ == e),
{
}

/// Once a port is listened at, the client is told so: with two words of success,
/// and behind them, where any free port would do, the number of the port.
pub proof fn law_the_port_is_told(
    mgr: &mut ForwardingMgr,
    pending: PendingForward,
    actual: u16,
    task: u64,
    done: (Vec<u64>, Vec<u8>),
)
    requires
        call_ensures(ForwardingMgr::bound, (mgr, pending, actual, task), done),
    ensures
        done.1@.take(8) == seq![
            'O' as u8,
            'K' as u8,
            'A' as u8,
            'Y' as u8,
            'O' as u8,
            'K' as u8,
            'A' as u8,
            'Y' as u8,
        ],
        pending.port != 0 ==> done.1@.len() == 8,
        pending.port == 0 ==> crate::protocol::read_text(done.1@.skip(8)) == Ok::<
            _,
            crate::protocol::ProtocolError,
        >((digits(actual as int, 10), done.1@.len() - 8)),
        forall|f: ForwardView| #[trigger]
            old(mgr)@.contains(f) ==> (done.0@.contains(f.task) ==> exists|g: ForwardView|
                #![trigger old(mgr)@.contains(g)]
                old(mgr)@.contains(g) && g.task == f.task && g.local == bound_at(
                    pending.port,
                    actual,
                )),
{
    let text = digits(actual as int, 10);
    let body = framed(encode_utf8(text));
    let reply = bound_reply(pending.port, actual);
    assert(reply.take(8) =~= seq![0x4fu8, 0x4b, 0x41, 0x59, 0x4f, 0x4b, 0x41, 0x59]);
    if pending.port == 0 {
        assert(reply.skip(8) =~= body);
        lemma_short_text(actual);
        crate::protocol::law_read_back(text, seq![]);
        assert(body + Seq::<u8>::empty() =~= body);
    }
    let local = bound_at(pending.port, actual);
    let hits = old(mgr)@.filter(at(local));
    assert forall|f: ForwardView| #[trigger] old(mgr)@.contains(f) && done.0@.contains(
        f.task,
    ) implies exists|g: ForwardView|
        #![trigger old(mgr)@.contains(g)]
        old(mgr)@.contains(g) && g.task == f.task && g.local == local by {
        let i = choose|i: int| 0 <= i < tasks_of(hits).len() && tasks_of(hits)[i] == f.task;
        assert(hits.contains(hits[i]));
        lemma_among(old(mgr)@, at(local), hits[i]);
    }
}

proof fn lemma_short_text(port: u16)
    ensures
        encode_utf8(digits(port as int, 10)).len() <= 0xffff,
{
    let text = digits(port as int, 10);
    lemma_digits_read_back(port as int, 10);
    reveal_with_fuel(vstd::arithmetic::power::pow, 7);
    assert(vstd::arithmetic::power::pow(10, 6) == 1_000_000);
    crate::number::lemma_digits_len(port as int, 10, 6);
    assert(vstd::utf8::is_ascii_chars(text)) by {
        assert forall|i: int| 0 <= i < text.len() implies '\0' <= #[trigger] text[i]
            <= '\u{7f}' by {
            assert(crate::number::digit_value(text[i], 10) >= 0);
        }
    }
    vstd::utf8::is_ascii_chars_encode_utf8(text);
}

/// For each client that connects to a forwarded port, the service that the
/// forward names is opened over the connection of the forward, and data is
/// passed on; the port is listened at until the connection is gone or it cannot
/// be listened at, whatever becomes of single clients.
pub proof fn law_clients_reach_the_target(
    forward: &Forward,
    standing: &Standing,
    started: TaskStep,
    accepted: TaskStep,
    opened: TaskStep,
    failed: TaskStep,
    broken: TaskStep,
)
    requires
        call_ensures(forward_task, (forward, standing, TaskEvent::Started), started),
        call_ensures(forward_task, (forward, standing, TaskEvent::Accepted), accepted),
        call_ensures(forward_task, (forward, standing, TaskEvent::Opened), opened),
        call_ensures(forward_task, (forward, standing, TaskEvent::OpenFailed), failed),
        call_ensures(forward_task, (forward, standing, TaskEvent::AcceptFailed), broken),
    ensures
        started is Accept,
        accepted is End <==> standing.is_gone(forward.conn.id),
        !standing.is_gone(forward.conn.id) ==> {
            &&& accepted matches TaskStep::Open(conn, service)
            &&& conn@ == forward.conn@
            &&& service@ == match forward.remote {
                Proto::Tcp(port) => "tcp:"@ + digits(port as int, 10),
                Proto::Other(name) => name@,
            }
        },
        opened is Relay,
        failed is Accept,
        broken is End,
{
}

/// At first there are no forwards.
pub proof fn law_there_are_no_forwards_at_first(mgr: ForwardingMgr, f: ForwardView)
    requires
        call_ensures(ForwardingMgr::new, (), mgr),
    ensures
        !mgr@.contains(f),
        mgr@.len() == 0,
{
}

/// To clean up keeps the forwards that work, and only those, and stops the
/// listeners of the others.
pub proof fn law_to_clean_up_keeps_what_works(
    forwards: &mut ForwardingMgr,
    standing: &Standing,
    finished: &Vec<u64>,
    stopped: Vec<u64>,
    f: ForwardView,
)
    requires
        call_ensures(ForwardingMgr::clean_forwards, (forwards, standing, finished), stopped),
        old(forwards)@.contains(f),
    ensures
        final(forwards)@.contains(f) <==> !standing.is_closed(f.conn.id) && !finished@.contains(
            f.task,
        ),
        own_tasks(old(forwards)@) ==> (stopped@.contains(f.task) <==> !final(forwards)@.contains(f)),
{
    let list = old(forwards)@;
    let keep = works(*standing, finished@);
    let lose = fails(*standing, finished@);
    lemma_among(list, keep, f);
    if own_tasks(list) {
        lemma_tasks(list, lose, f);
    }
}

/// What is asked of the forwards is read from the request: an addition has the
/// ends that stand in it, in their order.
pub proof fn law_additions_are_read_from_requests(
    left: &str,
    right: &str,
    norebind: bool,
    service: &str,
    local: Option<Proto>,
    remote: Option<Proto>,
    res: Result<Option<ForwardCommand>, ServiceError>,
)
    requires
        !left@.contains(';'),
        norebind || !has_prefix(left@ + ";"@ + right@, "norebind:"@),
        service@ == if norebind {
            "forward:norebind:"@ + left@ + ";"@ + right@
        } else {
            "forward:"@ + left@ + ";"@ + right@
        },
        call_ensures(Proto::parse, (left,), local),
        call_ensures(Proto::parse, (right,), remote),
        call_ensures(ForwardCommand::parse, (service,), res),
    ensures
        local is None ==> (res matches Err(e) && e@ is ParseLocal),
        local is Some && remote is None ==> (res matches Err(e) && e@ is ParseRemote),
        local is Some && remote is Some ==> (res matches Ok(
            Some(ForwardCommand::Add { left: l, right: r, norebind: n }),
        ) && l@ == local->0@ && r@ == remote->0@ && n == norebind),
{
    law_forward_request_is_read(left@, right@, norebind);
    assert(service@ =~= forward_request(left@, right@, norebind));
}

} // verus!
