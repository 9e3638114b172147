//! The devices that are connected, and where they are found.

use dashmap::DashMap;
use std::sync::Arc;
use vstd::prelude::*;
use crate::banner::{Banner, BannerView};
use crate::tables::{
    id_insert, id_remove, id_table, new_id_table, new_serial_table, serial_contains,
    serial_entries, serial_get, serial_insert, serial_remove, serial_table, walks,
};

verus! {

/// Gives every connection a number of its own.
#[derive(Debug, PartialEq, Eq)]
pub struct IdSource {
    pub next: u64,
}

impl IdSource {
    /// The numbers start at 1.
    pub fn new() -> (ids: IdSource)
        ensures
            ids.next == 1,
    {
        IdSource { next: 1 }
    }
}

/// A connection that is being set up.
#[derive(Debug, PartialEq, Eq)]
pub struct MaybeConnection {
    pub id: u64,
    pub serial: String,
}

/// What is known of a connection, whether or not it is still there.
#[derive(Debug)]
pub struct WeakConnection {
    pub id: u64,
    pub serial: String,
    pub banner: Banner,
}

/// What is known of a connection.
#[verifier::ext_equal]
pub struct ConnView {
    pub id: u64,
    pub serial: Seq<char>,
    pub banner: BannerView,
}

impl View for WeakConnection {
    type V = ConnView;

    open spec fn view(&self) -> ConnView {
        ConnView { id: self.id, serial: self.serial@, banner: self.banner@ }
    }
}

impl MaybeConnection {
    /// Takes a number for a connection to the device with this serial number.
    pub fn allocate(ids: &mut IdSource, serial: &str) -> (conn: MaybeConnection)
        ensures
            conn.id == old(ids).next,
            conn.serial@ == serial@,
            final(ids).next == (old(ids).next + 1) % 0x1_0000_0000_0000_0000,
    {
        let id = ids.next;
        ids.next = ids.next.wrapping_add(1);
        MaybeConnection { id, serial: serial.to_owned() }
    }

    /// The connection, once it is set up and the device has said what it is.
    pub fn create(self, banner: Banner) -> (conn: Arc<WeakConnection>)
        ensures
            conn@ == (ConnView { id: self.id, serial: self.serial@, banner: banner@ }),
            conn.banner == banner,
    {
        Arc::new(WeakConnection { id: self.id, serial: self.serial, banner })
    }
}

/// The connection is not there any more.
#[derive(Debug, Clone, Copy, PartialEq, Eq)]
pub struct Disconnected;

/// What is said where a connection is not there any more.
pub const DISCONNECTED: &'static str = "device disconnected";

impl Disconnected {
    /// What is said of it.
    pub fn text(&self) -> (text: String)
        ensures
            text@ == DISCONNECTED@,
    {
        DISCONNECTED.to_owned()
    }
}

/// How the connections stand: which have closed, and which are not there any
/// more at all. Those that are not there count as closed.
#[derive(Debug)]
pub struct Standing {
    /// The numbers of those that are there and have closed.
    pub closed: Vec<u64>,
    /// The numbers of those that are not there.
    pub gone: Vec<u64>,
}

/// What happens to a connection after it was added.
#[derive(Debug, Clone, Copy, PartialEq, Eq)]
pub enum LifeEvent {
    /// The connection with this number has closed.
    Closed(u64),
    /// Nothing holds the connection with this number any longer.
    Gone(u64),
}

/// How the connections stand.
#[verifier::ext_equal]
pub struct StandingView {
    pub closed: Set<u64>,
    pub gone: Set<u64>,
}

impl View for Standing {
    type V = StandingView;

    open spec fn view(&self) -> StandingView {
        StandingView { closed: self.closed@.to_set(), gone: self.gone@.to_set() }
    }
}

/// How the connections stand after something happened to one of them.
pub open spec fn after_life(s: StandingView, event: LifeEvent) -> StandingView {
    match event {
        LifeEvent::Closed(id) => StandingView { closed: s.closed.insert(id), ..s },
        LifeEvent::Gone(id) => StandingView { gone: s.gone.insert(id), ..s },
    }
}

/// How the connections stand after all this happened to them.
pub open spec fn after_lives(s: StandingView, events: Seq<LifeEvent>) -> StandingView
    decreases events.len(),
{
    if events.len() == 0 {
        s
    } else {
        after_life(after_lives(s, events.drop_last()), events.last())
    }
}

fn add_id(list: &mut Vec<u64>, id: u64)
    ensures
        final(list)@.to_set() == old(list)@.to_set().insert(id),
{
    let ghost before = list@;
    if !listed(list, id) {
        list.push(id);
        proof {
            assert forall|x: u64| list@.contains(x) == (before.contains(x) || x == id) by {
                if before.contains(x) {
                    let i = choose|i: int| 0 <= i < before.len() && before[i] == x;
                    assert(list@[i] == x);
                }
                assert(list@[before.len() as int] == id);
            }
        }
    }
    assert(list@.to_set() =~= before.to_set().insert(id));
}

impl Standing {
    /// Nothing has closed.
    pub fn new() -> (standing: Standing)
        ensures
            standing@ == (StandingView { closed: Set::empty(), gone: Set::empty() }),
    {
        let standing = Standing { closed: Vec::new(), gone: Vec::new() };
        assert(standing@.closed =~= Set::empty());
        assert(standing@.gone =~= Set::empty());
        standing
    }

    /// Takes in what happened to a connection.
    pub fn note(&mut self, event: LifeEvent)
        ensures
            final(self)@ == after_life(old(self)@, event),
    {
        match event {
            LifeEvent::Closed(id) => add_id(&mut self.closed, id),
            LifeEvent::Gone(id) => add_id(&mut self.gone, id),
        }
    }

    /// Whether the connection with this number is not there.
    pub open spec fn is_gone(self, id: u64) -> bool {
        self.gone@.contains(id)
    }

    /// Whether the connection with this number has closed or is not there.
    pub open spec fn is_closed(self, id: u64) -> bool {
        self.gone@.contains(id) || self.closed@.contains(id)
    }
}

/// Whether the number is in the list.
pub fn listed(list: &Vec<u64>, id: u64) -> (found: bool)
    ensures
        found == list@.contains(id),
{
    let mut i: usize = 0;
    while i < list.len()
        invariant
            i <= list@.len(),
            forall|j: int| 0 <= j < i ==> list@[j] != id,
        decreases list@.len() - i,
    {
        if list[i] == id {
            assert(list@[i as int] == id);
            return true;
        }
        i += 1;
    }
    false
}

impl WeakConnection {
    /// Tells whether the connection is still there.
    pub fn upgrade(&self, standing: &Standing) -> (res: Result<(), Disconnected>)
        ensures
            res == if standing.is_gone(self.id) {
                Err::<(), Disconnected>(Disconnected)
            } else {
                Ok(())
            },
    {
        if listed(&standing.gone, self.id) {
            Err(Disconnected)
        } else {
            Ok(())
        }
    }

    /// Whether the connection has closed, or is not there any more.
    pub fn is_closed(&self, standing: &Standing) -> (closed: bool)
        ensures
            closed == standing.is_closed(self.id),
    {
        match self.upgrade(standing) {
            Ok(()) => listed(&standing.closed, self.id),
            Err(_) => true,
        }
    }
}

/// A device came or went.
#[derive(Debug, Clone)]
pub enum DeviceUpdate {
    Added(Arc<WeakConnection>),
    Removed(Arc<WeakConnection>),
}

/// All connections.
pub struct ConnectionMgr {
    /// From serial numbers to slots.
    pub by_serial: DashMap<String, u64>,
    /// From the numbers of connections to slots.
    pub by_id: DashMap<u64, u64>,
    pub slots: Vec<Option<Arc<WeakConnection>>>,
}

/// All connections, by serial number and by their own number.
#[verifier::ext_equal]
pub struct MgrView {
    pub by_serial: Map<Seq<char>, ConnView>,
    pub by_id: Map<u64, ConnView>,
}

/// What stands in the slot.
pub open spec fn in_slot(slots: Seq<Option<Arc<WeakConnection>>>, slot: u64) -> ConnView {
    (slots[slot as int]->0)@
}

/// Whether a connection stands in the slot.
pub open spec fn taken(slots: Seq<Option<Arc<WeakConnection>>>, slot: u64) -> bool {
    slot < slots.len() && slots[slot as int] is Some
}

impl View for ConnectionMgr {
    type V = MgrView;

    open spec fn view(&self) -> MgrView {
        MgrView {
            by_serial: serial_table(self.by_serial).map_values(
                |slot: u64| in_slot(self.slots@, slot),
            ),
            by_id: id_table(self.by_id).map_values(|slot: u64| in_slot(self.slots@, slot)),
        }
    }
}

/// The connections that have not closed.
pub open spec fn open_part(all: Map<Seq<char>, ConnView>, standing: Standing) -> Map<
    Seq<char>,
    ConnView,
> {
    all.restrict(
        Set::new(|serial: Seq<char>| all.contains_key(serial) && !standing.is_closed(all[serial].id)),
    )
}

/// The connections that have closed.
pub open spec fn closed_part(all: Map<Seq<char>, ConnView>, standing: Standing) -> Map<
    Seq<char>,
    ConnView,
> {
    all.restrict(
        Set::new(|serial: Seq<char>| all.contains_key(serial) && standing.is_closed(all[serial].id)),
    )
}

/// Whether `list` holds every one of the connections once, in some order.
pub open spec fn lists(list: Seq<ConnView>, all: Map<Seq<char>, ConnView>) -> bool {
    &&& forall|i: int|
        0 <= i < list.len() ==> all.contains_pair((#[trigger] list[i]).serial, list[i])
    &&& forall|i: int, j: int|
        0 <= i < j < list.len() ==> (#[trigger] list[i]).serial != (#[trigger] list[j]).serial
    &&& forall|serial: Seq<char>| #[trigger]
        all.contains_key(serial) ==> exists|i: int|
            0 <= i < list.len() && (#[trigger] list[i]).serial == serial
}

/// The connections in the list.
pub open spec fn conn_views(list: Seq<Arc<WeakConnection>>) -> Seq<ConnView> {
    Seq::new(list.len(), |i: int| list[i]@)
}

/// The connections that the updates say have gone.
pub open spec fn removals(list: Seq<DeviceUpdate>) -> Seq<ConnView> {
    Seq::new(list.len(), |i: int| (list[i]->Removed_0)@)
}

/// The open connection to the device with this serial number.
pub open spec fn found(all: MgrView, standing: Standing, serial: Seq<char>) -> Option<ConnView> {
    if open_part(all.by_serial, standing).contains_key(serial) {
        Some(all.by_serial[serial])
    } else {
        None
    }
}

/// All connections, with one more, or one in place of another.
pub open spec fn with_connection(all: MgrView, conn: ConnView) -> MgrView {
    MgrView {
        by_serial: all.by_serial.insert(conn.serial, conn),
        by_id: all.by_id.insert(conn.id, conn),
    }
}

/// Whether a connection with this number is among those that have closed.
pub open spec fn swept(all: MgrView, standing: Standing, id: u64) -> bool {
    exists|serial: Seq<char>| #[trigger]
        closed_part(all.by_serial, standing).contains_key(serial) && all.by_serial[serial].id == id
}

/// All connections, without those that have closed.
pub open spec fn without_closed(all: MgrView, standing: Standing) -> MgrView {
    MgrView {
        by_serial: open_part(all.by_serial, standing),
        by_id: all.by_id.restrict(Set::new(|id: u64| !swept(all, standing, id))),
    }
}

/// Whether the serial number is among the first `n` entries of a walk.
spec fn among(walk: Seq<(String, u64)>, n: int, serial: Seq<char>) -> bool {
    exists|j: int| 0 <= j < n && (#[trigger] walk[j]).0@ == serial
}

/// The serial numbers among the first `n` entries of a walk that are wanted.
spec fn taken_out(wanted: Map<Seq<char>, ConnView>, walk: Seq<(String, u64)>, n: int) -> Set<
    Seq<char>,
> {
    Set::new(|serial: Seq<char>| wanted.contains_key(serial) && among(walk, n, serial))
}

/// The numbers of those connections.
spec fn ids_taken_out(wanted: Map<Seq<char>, ConnView>, walk: Seq<(String, u64)>, n: int) -> Set<
    u64,
> {
    Set::new(
        |id: u64|
            exists|serial: Seq<char>| #[trigger]
                taken_out(wanted, walk, n).contains(serial) && wanted[serial].id == id,
    )
}

proof fn lemma_taken_out_grows(
    wanted: Map<Seq<char>, ConnView>,
    walk: Seq<(String, u64)>,
    n: int,
)
    requires
        0 <= n < walk.len(),
    ensures
        ({
            let serial = walk[n].0@;
            let before = taken_out(wanted, walk, n);
            let ids = ids_taken_out(wanted, walk, n);
            if wanted.contains_key(serial) {
                &&& taken_out(wanted, walk, n + 1) == before.insert(serial)
                &&& ids_taken_out(wanted, walk, n + 1) == ids.insert(wanted[serial].id)
            } else {
                &&& taken_out(wanted, walk, n + 1) == before
                &&& ids_taken_out(wanted, walk, n + 1) == ids
            }
        }),
{
    let serial = walk[n].0@;
    let before = taken_out(wanted, walk, n);
    let after = taken_out(wanted, walk, n + 1);
    assert forall|s: Seq<char>| among(walk, n + 1, s) == (among(walk, n, s) || s == serial) by {
        if among(walk, n, s) {
            let j = choose|j: int| 0 <= j < n && (#[trigger] walk[j]).0@ == s;
            assert(walk[j].0@ == s);
        }
        assert(walk[n].0@ == serial);
    }
    if wanted.contains_key(serial) {
        assert(after =~= before.insert(serial));
        let ids = ids_taken_out(wanted, walk, n);
        let now = ids_taken_out(wanted, walk, n + 1);
        assert forall|id: u64| now.contains(id) == ids.insert(wanted[serial].id).contains(id) by {
            if ids.contains(id) {
                let s = choose|s: Seq<char>| #[trigger] before.contains(s) && wanted[s].id == id;
                assert(after.contains(s));
            }
            assert(after.contains(serial));
            if now.contains(id) {
                let s = choose|s: Seq<char>| #[trigger] after.contains(s) && wanted[s].id == id;
                assert(before.contains(s) || s == serial);
            }
        }
        assert(now =~= ids.insert(wanted[serial].id));
    } else {
        assert(after =~= before);
    }
}

/// Whether `list` holds those of the connections once that are among the first
/// `n` entries of a walk.
spec fn lists_first(
    list: Seq<ConnView>,
    all: Map<Seq<char>, ConnView>,
    walk: Seq<(String, u64)>,
    n: int,
) -> bool {
    lists(list, all.restrict(Set::new(|serial: Seq<char>| among(walk, n, serial))))
}

proof fn lemma_lists_one_more(
    list: Seq<ConnView>,
    all: Map<Seq<char>, ConnView>,
    walk: Seq<(String, u64)>,
    n: int,
    conn: ConnView,
)
    requires
        0 <= n < walk.len(),
        forall|i: int, j: int|
            0 <= i < j < walk.len() ==> (#[trigger] walk[i]).0@ != (#[trigger] walk[j]).0@,
        lists_first(list, all, walk, n),
        conn.serial == walk[n].0@,
        all.contains_pair(conn.serial, conn),
    ensures
        lists_first(list.push(conn), all, walk, n + 1),
{
    let after = list.push(conn);
    let first = all.restrict(Set::new(|serial: Seq<char>| among(walk, n, serial)));
    let now = all.restrict(Set::new(|serial: Seq<char>| among(walk, n + 1, serial)));
    assert(!among(walk, n, conn.serial));
    assert forall|i: int| 0 <= i < after.len() implies now.contains_pair(
        (#[trigger] after[i]).serial,
        after[i],
    ) by {
        if i < list.len() {
            assert(after[i] == list[i]);
            assert(among(walk, n, list[i].serial));
            let j = choose|j: int| 0 <= j < n && (#[trigger] walk[j]).0@ == list[i].serial;
            assert(walk[j].0@ == list[i].serial);
        } else {
            assert(walk[n].0@ == conn.serial);
        }
    }
    assert forall|i: int, j: int| 0 <= i < j < after.len() implies (#[trigger] after[i]).serial != (
    #[trigger] after[j]).serial by {
        assert(after[i] == list[i]);
        if j < list.len() {
            assert(after[j] == list[j]);
        } else {
            assert(among(walk, n, list[i].serial));
        }
    }
    assert forall|serial: Seq<char>| #[trigger] now.contains_key(serial) implies exists|i: int|
        0 <= i < after.len() && (#[trigger] after[i]).serial == serial by {
        if serial == conn.serial {
            assert(after[list.len() as int].serial == serial);
        } else {
            let j = choose|j: int| 0 <= j < n + 1 && (#[trigger] walk[j]).0@ == serial;
            assert(among(walk, n, serial));
            assert(first.contains_key(serial));
            let i = choose|i: int| 0 <= i < list.len() && (#[trigger] list[i]).serial == serial;
            assert(after[i] == list[i]);
        }
    }
}

proof fn lemma_lists_no_more(
    list: Seq<ConnView>,
    all: Map<Seq<char>, ConnView>,
    walk: Seq<(String, u64)>,
    n: int,
)
    requires
        0 <= n < walk.len(),
        lists_first(list, all, walk, n),
        !all.contains_key(walk[n].0@),
    ensures
        lists_first(list, all, walk, n + 1),
{
    let before = all.restrict(Set::new(|serial: Seq<char>| among(walk, n, serial)));
    let now = all.restrict(Set::new(|serial: Seq<char>| among(walk, n + 1, serial)));
    assert forall|serial: Seq<char>| before.contains_key(serial) == now.contains_key(serial) by {
        if among(walk, n, serial) {
            let j = choose|j: int| 0 <= j < n && (#[trigger] walk[j]).0@ == serial;
            assert(walk[j].0@ == serial);
        }
    }
    assert(before =~= now);
}

proof fn lemma_lists_all(
    list: Seq<ConnView>,
    all: Map<Seq<char>, ConnView>,
    walk: Seq<(String, u64)>,
    table: Map<Seq<char>, u64>,
)
    requires
        walks(walk, table),
        all.dom().subset_of(table.dom()),
        lists_first(list, all, walk, walk.len() as int),
    ensures
        lists(list, all),
{
    let now = all.restrict(
        Set::new(|serial: Seq<char>| among(walk, walk.len() as int, serial)),
    );
    assert forall|serial: Seq<char>| all.contains_key(serial) implies now.contains_key(serial) by {
        assert(table.contains_key(serial));
    }
    assert(now =~= all);
}

impl ConnectionMgr {
    /// Whether every entry leads to its connection.
    pub open spec fn wf(self) -> bool {
        &&& forall|serial: Seq<char>| #[trigger]
            serial_table(self.by_serial).contains_key(serial) ==> self.serial_leads_home(serial)
        &&& forall|id: u64| #[trigger]
            id_table(self.by_id).contains_key(id) ==> self.id_leads_home(id)
        &&& forall|i: int|
            0 <= i < self.slots@.len() && (#[trigger] self.slots@[i]) is Some
                ==> self.slots@[i]->0.banner.wf()
    }

    /// Whether the entry under the serial number leads to such a connection.
    pub open spec fn serial_leads_home(self, serial: Seq<char>) -> bool {
        let slot = serial_table(self.by_serial)[serial];
        taken(self.slots@, slot) && in_slot(self.slots@, slot).serial == serial
    }

    /// Whether the entry under the number leads to such a connection.
    pub open spec fn id_leads_home(self, id: u64) -> bool {
        let slot = id_table(self.by_id)[id];
        taken(self.slots@, slot) && in_slot(self.slots@, slot).id == id
    }

    /// No connections.
    pub fn new() -> (mgr: ConnectionMgr)
        ensures
            mgr.wf(),
            mgr@ == (MgrView { by_serial: Map::empty(), by_id: Map::empty() }),
    {
        let mgr = ConnectionMgr {
            by_serial: new_serial_table(),
            by_id: new_id_table(),
            slots: Vec::new(),
        };
        assert(mgr@.by_serial =~= Map::empty());
        assert(mgr@.by_id =~= Map::empty());
        mgr
    }

    /// The open connection to the device with this serial number.
    pub fn get(&self, standing: &Standing, serial: &str) -> (conn: Option<Arc<WeakConnection>>)
        requires
            self.wf(),
        ensures
            match conn {
                Some(c) => found(self@, *standing, serial@) == Some(c@) && c.banner.wf(),
                None => found(self@, *standing, serial@) is None,
            },
    {
        match serial_get(&self.by_serial, serial) {
            None => None,
            Some(slot) => {
                assert(self.serial_leads_home(serial@));
                assert(slot < self.slots.len());
                assert(self@.by_serial.contains_key(serial@));
                match &self.slots[slot as usize] {
                    Some(conn) => if conn.is_closed(standing) {
                        None
                    } else {
                        Some(Arc::clone(conn))
                    },
                    None => None,
                }
            },
        }
    }

    /// Whether there is a connection, open or closed, to the device with this
    /// serial number.
    pub fn is_known(&self, serial: &str) -> (known: bool)
        ensures
            known == self@.by_serial.contains_key(serial@),
    {
        serial_contains(&self.by_serial, serial)
    }

    /// The open connections, in no particular order.
    pub fn iter(&self, standing: &Standing) -> (list: Vec<Arc<WeakConnection>>)
        requires
            self.wf(),
        ensures
            lists(conn_views(list@), open_part(self@.by_serial, *standing)),
            forall|i: int| 0 <= i < list@.len() ==> (#[trigger] list@[i]).banner.wf(),
    {
        let walk = serial_entries(&self.by_serial);
        let mut list: Vec<Arc<WeakConnection>> = Vec::new();
        let ghost all = self@.by_serial;
        let ghost wanted = open_part(all, *standing);
        let mut i: usize = 0;
        while i < walk.len()
            invariant
                self.wf(),
                all == self@.by_serial,
                wanted == open_part(all, *standing),
                walks(walk@, serial_table(self.by_serial)),
                i <= walk@.len(),
                lists_first(conn_views(list@), wanted, walk@, i as int),
                forall|k: int| 0 <= k < list@.len() ==> (#[trigger] list@[k]).banner.wf(),
            decreases walk@.len() - i,
        {
            let ghost serial = walk@[i as int].0@;
            let ghost before = conn_views(list@);
            let slot = walk[i].1;
            assert(serial_table(self.by_serial).contains_pair(serial, slot));
            assert(self.serial_leads_home(serial));
            assert(slot < self.slots.len());
            assert(all[serial] == in_slot(self.slots@, slot));
            if let Some(conn) = &self.slots[slot as usize] {
                if !conn.is_closed(standing) {
                    list.push(Arc::clone(conn));
                    assert(conn_views(list@) =~= before.push(all[serial]));
                    proof {
                        lemma_lists_one_more(before, wanted, walk@, i as int, all[serial]);
                    }
                } else {
                    proof {
                        lemma_lists_no_more(before, wanted, walk@, i as int);
                    }
                }
            }
            i += 1;
        }
        proof {
            lemma_lists_all(conn_views(list@), wanted, walk@, serial_table(self.by_serial));
        }
        list
    }

    fn free_slot(&self) -> (slot: usize)
        ensures
            slot <= self.slots@.len(),
            slot < self.slots@.len() ==> self.slots@[slot as int] is None,
    {
        let mut i: usize = 0;
        while i < self.slots.len()
            invariant
                i <= self.slots@.len(),
            decreases self.slots@.len() - i,
        {
            if self.slots[i].is_none() {
                return i;
            }
            i += 1;
        }
        i
    }

    /// Adds a connection, in place of an earlier one to the same device.
    pub fn new_connection(&mut self, conn: MaybeConnection, banner: Banner) -> (res: (
        Arc<WeakConnection>,
        DeviceUpdate,
    ))
        requires
            old(self).wf(),
            banner.wf(),
        ensures
            final(self).wf(),
            res.0@ == (ConnView { id: conn.id, serial: conn.serial@, banner: banner@ }),
            res.0.banner == banner,
            res.1 == DeviceUpdate::Added(res.0),
            final(self)@ == with_connection(old(self)@, res.0@),
    {
        let ghost before = *self;
        let connection = conn.create(banner);
        let slot = self.free_slot();
        let serial = connection.serial.clone();
        let id = connection.id;
        if slot < self.slots.len() {
            self.slots[slot] = Some(Arc::clone(&connection));
        } else {
            self.slots.push(Some(Arc::clone(&connection)));
        }
        serial_insert(&mut self.by_serial, serial, slot as u64);
        id_insert(&mut self.by_id, id, slot as u64);
        proof {
            assert(in_slot(self.slots@, slot as u64) == connection@);
            assert forall|s: u64| #[trigger] taken(before.slots@, s) implies taken(self.slots@, s)
                && in_slot(self.slots@, s) == in_slot(before.slots@, s) by {
                assert(s != slot);
            }
            assert forall|serial: Seq<char>| #[trigger]
                serial_table(self.by_serial).contains_key(
                    serial,
                ) implies self.serial_leads_home(serial) by {
                if serial != connection@.serial {
                    assert(before.serial_leads_home(serial));
                    assert(taken(before.slots@, serial_table(before.by_serial)[serial]));
                }
            }
            assert forall|id: u64| #[trigger]
                id_table(self.by_id).contains_key(id) implies self.id_leads_home(id) by {
                if id != connection@.id {
                    assert(before.id_leads_home(id));
                    assert(taken(before.slots@, id_table(before.by_id)[id]));
                }
            }
            let want = with_connection(before@, connection@);
            assert forall|serial: Seq<char>| #[trigger]
                want.by_serial.contains_key(serial) implies self@.by_serial[serial]
                == want.by_serial[serial] by {
                if serial != connection@.serial {
                    assert(before.serial_leads_home(serial));
                    assert(taken(before.slots@, serial_table(before.by_serial)[serial]));
                }
            }
            assert forall|id: u64| #[trigger] want.by_id.contains_key(id) implies self@.by_id[id]
                == want.by_id[id] by {
                if id != connection@.id {
                    assert(before.id_leads_home(id));
                    assert(taken(before.slots@, id_table(before.by_id)[id]));
                }
            }
            assert(self@.by_serial =~= want.by_serial);
            assert(self@.by_id =~= want.by_id);
        }
        let update = DeviceUpdate::Added(Arc::clone(&connection));
        (connection, update)
    }

    fn take_out(&mut self, serial: &str, slot: u64, conn: &Arc<WeakConnection>)
        requires
            old(self).wf(),
            serial_table(old(self).by_serial).contains_pair(serial@, slot),
            taken(old(self).slots@, slot),
            old(self).slots@[slot as int] == Some(*conn),
        ensures
            final(self).wf(),
            serial_table(final(self).by_serial) == serial_table(old(self).by_serial).remove(
                serial@,
            ),
            final(self)@.by_serial == old(self)@.by_serial.remove(serial@),
            final(self)@.by_id == old(self)@.by_id.remove(conn@.id),
    {
        let ghost before = *self;
        assert(before.serial_leads_home(serial@));
        serial_remove(&mut self.by_serial, serial);
        id_remove(&mut self.by_id, conn.id);
        assert(slot < self.slots.len());
        self.slots[slot as usize] = None;
        proof {
            assert forall|s: Seq<char>| #[trigger]
                serial_table(self.by_serial).contains_key(s) implies self.serial_leads_home(s)
                && in_slot(self.slots@, serial_table(self.by_serial)[s]) == in_slot(
                before.slots@,
                serial_table(before.by_serial)[s],
            ) by {
                assert(before.serial_leads_home(s));
            }
            assert forall|id: u64| #[trigger]
                id_table(self.by_id).contains_key(id) implies self.id_leads_home(id) && in_slot(
                self.slots@,
                id_table(self.by_id)[id],
            ) == in_slot(before.slots@, id_table(before.by_id)[id]) by {
                assert(before.id_leads_home(id));
            }
            assert(self@.by_serial =~= before@.by_serial.remove(serial@));
            assert(self@.by_id =~= before@.by_id.remove(conn@.id));
        }
    }

    /// Removes the connections that have closed; gives an update for each, in
    /// no particular order.
    pub fn remove_closed_connections(&mut self, standing: &Standing) -> (updates: Vec<DeviceUpdate>)
        requires
            old(self).wf(),
        ensures
            final(self).wf(),
            final(self)@ == without_closed(old(self)@, *standing),
            forall|i: int| 0 <= i < updates@.len() ==> (#[trigger] updates@[i]) is Removed,
            lists(removals(updates@), closed_part(old(self)@.by_serial, *standing)),
    {
        let ghost before = self@;
        let ghost all = before.by_serial;
        let ghost table = serial_table(self.by_serial);
        let ghost wanted = closed_part(all, *standing);
        let walk = serial_entries(&self.by_serial);
        let mut updates: Vec<DeviceUpdate> = Vec::new();
        let mut i: usize = 0;
        proof {
            assert(removals(updates@) =~= seq![]);
            assert(serial_table(self.by_serial) =~= table.remove_keys(taken_out(wanted, walk@, 0)));
            assert(self@.by_serial =~= all.remove_keys(taken_out(wanted, walk@, 0)));
            assert(self@.by_id =~= before.by_id.remove_keys(ids_taken_out(wanted, walk@, 0)));
        }
        while i < walk.len()
            invariant
                self.wf(),
                all == before.by_serial,
                wanted == closed_part(all, *standing),
                all.dom() == table.dom(),
                walks(walk@, table),
                i <= walk@.len(),
                serial_table(self.by_serial) == table.remove_keys(
                    taken_out(wanted, walk@, i as int),
                ),
                self@.by_serial == all.remove_keys(taken_out(wanted, walk@, i as int)),
                self@.by_id == before.by_id.remove_keys(ids_taken_out(wanted, walk@, i as int)),
                lists_first(removals(updates@), wanted, walk@, i as int),
                forall|k: int| 0 <= k < updates@.len() ==> (#[trigger] updates@[k]) is Removed,
            decreases walk@.len() - i,
        {
            let ghost serial = walk@[i as int].0@;
            let ghost done = removals(updates@);
            let slot = walk[i].1;
            proof {
                lemma_taken_out_grows(wanted, walk@, i as int);
                assert(table.contains_pair(serial, slot));
                assert(!among(walk@, i as int, serial));
                assert(serial_table(self.by_serial).contains_pair(serial, slot));
                assert(self.serial_leads_home(serial));
                assert(!taken_out(wanted, walk@, i as int).contains(serial));
                assert(self@.by_serial.contains_key(serial));
                assert(self@.by_serial[serial] == all[serial]);
                assert(all[serial] == in_slot(self.slots@, slot));
            }
            assert(slot < self.slots.len());
            let conn = match &self.slots[slot as usize] {
                Some(c) => Some(Arc::clone(c)),
                None => None,
            };
            if let Some(conn) = conn {
                if conn.is_closed(standing) {
                    self.take_out(walk[i].0.as_str(), slot, &conn);
                    updates.push(DeviceUpdate::Removed(conn));
                    proof {
                        assert(removals(updates@) =~= done.push(all[serial]));
                        lemma_lists_one_more(done, wanted, walk@, i as int, all[serial]);
                    }
                } else {
                    proof {
                        lemma_lists_no_more(done, wanted, walk@, i as int);
                    }
                }
            }
            i += 1;
            proof {
                assert(serial_table(self.by_serial) =~= table.remove_keys(
                    taken_out(wanted, walk@, i as int),
                ));
                assert(self@.by_serial =~= all.remove_keys(taken_out(wanted, walk@, i as int)));
                assert(self@.by_id =~= before.by_id.remove_keys(
                    ids_taken_out(wanted, walk@, i as int),
                ));
            }
        }
        proof {
            let n = walk@.len() as int;
            lemma_lists_all(removals(updates@), wanted, walk@, table);
            assert forall|serial: Seq<char>| #[trigger] wanted.contains_key(serial) implies among(
                walk@,
                n,
                serial,
            ) by {
                assert(table.contains_key(serial));
            }
            assert(self@.by_serial =~= open_part(all, *standing));
            assert forall|id: u64| ids_taken_out(wanted, walk@, n).contains(id) == swept(
                before,
                *standing,
                id,
            ) by {
                if swept(before, *standing, id) {
                    let serial = choose|serial: Seq<char>| #[trigger]
                        wanted.contains_key(serial) && all[serial].id == id;
                    assert(taken_out(wanted, walk@, n).contains(serial));
                }
                if ids_taken_out(wanted, walk@, n).contains(id) {
                    let serial = choose|serial: Seq<char>| #[trigger]
                        taken_out(wanted, walk@, n).contains(serial) && wanted[serial].id == id;
                    assert(closed_part(before.by_serial, *standing).contains_key(serial));
                }
            }
            assert(self@.by_id =~= without_closed(before, *standing).by_id);
        }
        updates
    }
}

proof fn lemma_after_lives(s: StandingView, events: Seq<LifeEvent>, id: u64)
    ensures
        after_lives(s, events).gone.contains(id) == (s.gone.contains(id) || events.contains(
            LifeEvent::Gone(id),
        )),
        after_lives(s, events).closed.contains(id) == (s.closed.contains(id) || events.contains(
            LifeEvent::Closed(id),
        )),
    decreases events.len(),
{
    if events.len() > 0 {
        let front = events.drop_last();
        lemma_after_lives(s, front, id);
        assert forall|e: LifeEvent| events.contains(e) == (front.contains(e) || events.last()
            == e) by {
            if front.contains(e) {
                let i = choose|i: int| 0 <= i < front.len() && front[i] == e;
                assert(events[i] == e);
            }
            if events.contains(e) {
                let i = choose|i: int| 0 <= i < events.len() && events[i] == e;
                if i < front.len() {
                    assert(front[i] == e);
                }
            }
            assert(events[events.len() - 1] == events.last());
        }
    }
}

/// A connection can be used as long as something holds it, and never again
/// after that, whatever happens to other connections; and it counts as closed
/// from the moment that it closes or nothing holds it.
pub proof fn law_gone_stays_gone(
    earlier: Standing,
    events: Seq<LifeEvent>,
    later: Standing,
    id: u64,
)
    requires
        later@ == after_lives(earlier@, events),
    ensures
        later.is_gone(id) == (earlier.is_gone(id) || events.contains(LifeEvent::Gone(id))),
        later.is_closed(id) == (earlier.is_closed(id) || events.contains(LifeEvent::Gone(id))
            || events.contains(LifeEvent::Closed(id))),
{
    lemma_after_lives(earlier@, events, id);
    assert(later@.gone.contains(id) == later.gone@.contains(id));
    assert(later@.closed.contains(id) == later.closed@.contains(id));
    assert(earlier@.gone.contains(id) == earlier.gone@.contains(id));
    assert(earlier@.closed.contains(id) == earlier.closed@.contains(id));
}

/// A connection that was added is found under its serial number until it
/// closes, and the other connections are found as before.
pub proof fn law_added_connection_is_found(
    all: MgrView,
    standing: Standing,
    conn: ConnView,
    serial: Seq<char>,
)
    ensures
        found(with_connection(all, conn), standing, serial) == if serial == conn.serial {
            if standing.is_closed(conn.id) {
                None
            } else {
                Some(conn)
            }
        } else {
            found(all, standing, serial)
        },
{
}

/// To remove closed connections changes nothing about which open connections
/// are found, and leaves none that has closed.
pub proof fn law_removal_keeps_open_connections(all: MgrView, standing: Standing, serial: Seq<char>)
    ensures
        found(without_closed(all, standing), standing, serial) == found(all, standing, serial),
        without_closed(all, standing).by_serial.contains_key(serial) ==> !standing.is_closed(
            without_closed(all, standing).by_serial[serial].id,
        ),
{
}

/// Whether there is an open connection to the device with this serial number.
pub open spec fn is_open(all: MgrView, standing: Standing, serial: Seq<char>) -> bool {
    all.by_serial.contains_key(serial) && !standing.is_closed(all.by_serial[serial].id)
}

/// Exactly the open connections are found, each under its serial number.
pub proof fn law_open_connections_are_found(
    mgr: &ConnectionMgr,
    standing: &Standing,
    serial: &str,
    conn: Option<Arc<WeakConnection>>,
    known: bool,
)
    requires
        call_ensures(ConnectionMgr::get, (mgr, standing, serial), conn),
        call_ensures(ConnectionMgr::is_known, (mgr, serial), known),
    ensures
        conn is Some <==> is_open(mgr@, *standing, serial@),
        conn matches Some(c) ==> c@ == mgr@.by_serial[serial@],
        known <==> mgr@.by_serial.contains_key(serial@),
{
}

/// Every open connection is walked over once, and no other.
pub proof fn law_every_open_connection_is_walked_over(
    mgr: &ConnectionMgr,
    standing: &Standing,
    list: Vec<Arc<WeakConnection>>,
    serial: Seq<char>,
    i: int,
    j: int,
)
    requires
        call_ensures(ConnectionMgr::iter, (mgr, standing), list),
    ensures
        is_open(mgr@, *standing, serial) <==> exists|k: int|
            0 <= k < list@.len() && (#[trigger] list@[k])@.serial == serial,
        0 <= i < list@.len() ==> is_open(mgr@, *standing, list@[i]@.serial) && list@[i]@
            == mgr@.by_serial[list@[i]@.serial],
        0 <= i < j < list@.len() ==> list@[i]@.serial != list@[j]@.serial,
{
    let views = conn_views(list@);
    let open = open_part(mgr@.by_serial, *standing);
    assert(is_open(mgr@, *standing, serial) <==> open.contains_key(serial));
    if open.contains_key(serial) {
        let k = choose|k: int| 0 <= k < views.len() && (#[trigger] views[k]).serial == serial;
        assert(list@[k]@.serial == serial);
    }
    if exists|k: int| 0 <= k < list@.len() && (#[trigger] list@[k])@.serial == serial {
        let k = choose|k: int| 0 <= k < list@.len() && (#[trigger] list@[k])@.serial == serial;
        assert(open.contains_pair(views[k].serial, views[k]));
    }
    if 0 <= i < list@.len() {
        assert(open.contains_pair(views[i].serial, views[i]));
    }
    if 0 <= i < j < list@.len() {
        assert(views[i].serial != views[j].serial);
    }
}

/// A connection that is added stands under its serial number and under its own
/// number, in place of what stood there, and is announced; nothing else changes.
pub proof fn law_added_connections_are_announced(
    mgr: &mut ConnectionMgr,
    conn: MaybeConnection,
    banner: Banner,
    res: (Arc<WeakConnection>, DeviceUpdate),
    serial: Seq<char>,
    id: u64,
)
    requires
        call_ensures(ConnectionMgr::new_connection, (mgr, conn, banner), res),
    ensures
        res.0.id == conn.id,
        res.0.serial@ == conn.serial@,
        res.0.banner == banner,
        res.1 == DeviceUpdate::Added(res.0),
        final(mgr)@.by_serial.contains_pair(conn.serial@, res.0@),
        final(mgr)@.by_id.contains_pair(conn.id, res.0@),
        serial != conn.serial@ ==> final(mgr)@.by_serial.contains_key(serial) == old(
            mgr,
        )@.by_serial.contains_key(serial) && final(mgr)@.by_serial[serial] == old(
            mgr,
        )@.by_serial[serial],
        id != conn.id ==> final(mgr)@.by_id.contains_key(id) == old(mgr)@.by_id.contains_key(id)
            && final(mgr)@.by_id[id] == old(mgr)@.by_id[id],
{
    assert(res.0@.id == res.0.id && res.0@.serial == res.0.serial@);
}

/// To clean up takes out exactly the connections that have closed, under both
/// of their numbers, and announces each of them once.
pub proof fn law_closed_connections_are_taken_out(
    mgr: &mut ConnectionMgr,
    standing: &Standing,
    updates: Vec<DeviceUpdate>,
    serial: Seq<char>,
    id: u64,
    i: int,
    j: int,
)
    requires
        call_ensures(ConnectionMgr::remove_closed_connections, (mgr, standing), updates),
    ensures
        final(mgr)@.by_serial.contains_key(serial) <==> is_open(old(mgr)@, *standing, serial),
        final(mgr)@.by_serial.contains_key(serial) ==> final(mgr)@.by_serial[serial] == old(
            mgr,
        )@.by_serial[serial],
        final(mgr)@.by_id.contains_key(id) <==> old(mgr)@.by_id.contains_key(id) && forall|
            s: Seq<char>,
        | #[trigger]
            old(mgr)@.by_serial.contains_key(s) && old(mgr)@.by_serial[s].id == id
                ==> !standing.is_closed(id),
        final(mgr)@.by_id.contains_key(id) ==> final(mgr)@.by_id[id] == old(mgr)@.by_id[id],
        0 <= i < updates@.len() ==> (updates@[i] matches DeviceUpdate::Removed(c) && old(
            mgr,
        )@.by_serial.contains_pair(c@.serial, c@) && standing.is_closed(c@.id)),
        0 <= i < j < updates@.len() ==> (updates@[i]->Removed_0)@.serial != (
        updates@[j]->Removed_0)@.serial,
        old(mgr)@.by_serial.contains_key(serial) && !is_open(old(mgr)@, *standing, serial)
            ==> exists|k: int|
            0 <= k < updates@.len() && (#[trigger] updates@[k] matches DeviceUpdate::Removed(c)
                && c@.serial == serial),
{
    let all = old(mgr)@;
    let closed = closed_part(all.by_serial, *standing);
    let gone = removals(updates@);
    if 0 <= i < updates@.len() {
        assert(updates@[i] is Removed);
        assert(closed.contains_pair(gone[i].serial, gone[i]));
    }
    if 0 <= i < j < updates@.len() {
        assert(gone[i].serial != gone[j].serial);
    }
    if all.by_serial.contains_key(serial) && !is_open(all, *standing, serial) {
        assert(closed.contains_key(serial));
        let k = choose|k: int| 0 <= k < gone.len() && (#[trigger] gone[k]).serial == serial;
        assert(updates@[k] is Removed);
    }
    assert(swept(all, *standing, id) <==> exists|s: Seq<char>| #[trigger]
        all.by_serial.contains_key(s) && all.by_serial[s].id == id && standing.is_closed(id)) by {
        if swept(all, *standing, id) {
            let s = choose|s: Seq<char>| #[trigger]
                closed.contains_key(s) && all.by_serial[s].id == id;
            assert(all.by_serial.contains_key(s));
        }
        if exists|s: Seq<char>| #[trigger]
            all.by_serial.contains_key(s) && all.by_serial[s].id == id && standing.is_closed(id) {
            let s = choose|s: Seq<char>| #[trigger]
                all.by_serial.contains_key(s) && all.by_serial[s].id == id && standing.is_closed(
                    id,
                );
            assert(closed.contains_key(s));
        }
    }
}

/// Two connections that are set up one after the other have different numbers,
/// and each is for the device that it was set up for.
pub proof fn law_connections_have_numbers_of_their_own(
    ids: &mut IdSource,
    serial: &str,
    first: MaybeConnection,
    later: &mut IdSource,
    other: &str,
    second: MaybeConnection,
    banner: Banner,
    conn: Arc<WeakConnection>,
)
    requires
        call_ensures(MaybeConnection::allocate, (ids, serial), first),
        *old(later) == *final(ids),
        call_ensures(MaybeConnection::allocate, (later, other), second),
        call_ensures(MaybeConnection::create, (first, banner), conn),
    ensures
        first.id != second.id,
        first.serial@ == serial@,
        second.serial@ == other@,
        old(ids).next < 0xffff_ffff_ffff_ffff ==> second.id == first.id + 1,
        conn.id == first.id,
        conn.serial@ == serial@,
        conn.banner == banner,
{
    assert(conn@.id == conn.id && conn@.serial == conn.serial@);
}

/// What happened to one connection is known of it from then on, and of no other:
/// a connection that nothing holds cannot be used, and one that has closed or is
/// not held counts as closed.
pub proof fn law_what_happened_is_known(
    standing: &mut Standing,
    event: LifeEvent,
    conn: &WeakConnection,
    used: Result<(), Disconnected>,
    closed: bool,
    before: Result<(), Disconnected>,
    closed_before: bool,
)
    requires
        call_ensures(Standing::note, (standing, event), ()),
        call_ensures(WeakConnection::upgrade, (conn, &*final(standing)), used),
        call_ensures(WeakConnection::is_closed, (conn, &*final(standing)), closed),
        call_ensures(WeakConnection::upgrade, (conn, &*old(standing)), before),
        call_ensures(WeakConnection::is_closed, (conn, &*old(standing)), closed_before),
    ensures
        used is Err <==> before is Err || event == LifeEvent::Gone(conn.id),
        closed <==> closed_before || event == LifeEvent::Gone(conn.id) || event
            == LifeEvent::Closed(conn.id),
        used is Err ==> closed,
{
    let a = *old(standing);
    let b = *final(standing);
    assert(a@.gone.contains(conn.id) == a.gone@.contains(conn.id));
    assert(a@.closed.contains(conn.id) == a.closed@.contains(conn.id));
    assert(b@.gone.contains(conn.id) == b.gone@.contains(conn.id));
    assert(b@.closed.contains(conn.id) == b.closed@.contains(conn.id));
}

/// At first there are no connections, nothing has closed, and the first number is
/// 1.
pub proof fn law_there_is_nothing_at_first(
    ids: IdSource,
    standing: Standing,
    mgr: ConnectionMgr,
    id: u64,
    serial: Seq<char>,
)
    requires
        call_ensures(IdSource::new, (), ids),
        call_ensures(Standing::new, (), standing),
        call_ensures(ConnectionMgr::new, (), mgr),
    ensures
        ids.next == 1,
        !standing.is_closed(id),
        !mgr@.by_serial.contains_key(serial),
        !mgr@.by_id.contains_key(id),
{
    assert(standing@.gone.contains(id) == standing.gone@.contains(id));
    assert(standing@.closed.contains(id) == standing.closed@.contains(id));
}

/// A number is listed exactly if it stands somewhere in the list.
pub proof fn law_listed_numbers_stand_in_the_list(list: &Vec<u64>, id: u64, found: bool)
    requires
        call_ensures(listed, (list, id), found),
    ensures
        found <==> exists|i: int| 0 <= i < list@.len() && #[trigger] list@[i] == id,
{
}

/// A client of a device that is gone is told so.
pub proof fn law_disconnected_devices_are_told(error: &Disconnected, text: String)
    requires
        call_ensures(Disconnected::text, (error,), text),
    ensures
        text@ == "device disconnected"@,
{
}

} // verus!
