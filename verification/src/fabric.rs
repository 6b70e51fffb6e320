//! The model of the machine-local IPC facility: which endpoint paths are
//! bound, which client connections are waiting to be accepted, and the
//! two byte queues and two open flags of every established connection.
//!
//! Every operation of the library is a step of this state machine and is
//! specified exactly against it.

use vstd::prelude::*;

verus! {

/// The kind of transport failure an operation can surface.  There is a
/// single flat taxonomy: each fallible operation reports the concrete
/// condition it ran into, and nothing is retried internally.
#[derive(Clone, Copy, Debug, PartialEq, Eq, Structural)]
pub enum IpcError {
    /// `connect` found no live listener bound at the path.
    NotFound,
    /// `bind` found the path already occupied by a live listener.
    AddrInUse,
    /// The operation would have to wait for the peer (an `accept` with no
    /// pending connection, or a read from an empty queue whose peer is
    /// still open).  The blocking of the OS facility is rendered as this
    /// immediate report.
    WouldBlock,
    /// A write was attempted after the peer end was closed.
    BrokenPipe,
}

/// Which end of a connection a stream handle owns: the end created by
/// `connect`, or the end completed by `accept`.
#[derive(Clone, Copy, Debug, PartialEq, Eq, Structural)]
pub enum Side {
    Client,
    Server,
}

/// The opposite end of a connection.
pub open spec fn peer(s: Side) -> Side {
    match s {
        Side::Client => Side::Server,
        Side::Server => Side::Client,
    }
}

/// The smaller of two integers.
pub open spec fn lesser(a: int, b: int) -> int {
    if a < b {
        a
    } else {
        b
    }
}

/// How many bytes a read with capacity `cap` takes from queue `q`.
pub open spec fn read_count(q: Seq<u8>, cap: int) -> int {
    lesser(cap, q.len() as int)
}

/// The bytes a read with capacity `cap` returns from queue `q`: the
/// front of the queue, in order.
pub open spec fn read_front(q: Seq<u8>, cap: int) -> Seq<u8> {
    q.take(read_count(q, cap))
}

/// What remains of queue `q` after a read with capacity `cap`.
pub open spec fn read_remainder(q: Seq<u8>, cap: int) -> Seq<u8> {
    q.skip(read_count(q, cap))
}

/// The queue after `data` is written: appended whole, at the back.
pub open spec fn write_back(q: Seq<u8>, data: Seq<u8>) -> Seq<u8> {
    q + data
}

/// One established connection: the bytes in flight in each direction and
/// whether each end is still open.  `to_server` holds what the client end
/// has written and the server end has not yet read; `to_client` the
/// reverse.
pub struct Conn {
    pub to_server: Vec<u8>,
    pub to_client: Vec<u8>,
    pub client_open: bool,
    pub server_open: bool,
}

impl Conn {
    /// The queue the given end reads from.
    pub open spec fn inbound(self, s: Side) -> Seq<u8> {
        match s {
            Side::Client => self.to_client@,
            Side::Server => self.to_server@,
        }
    }

    /// The queue the given end writes to.
    pub open spec fn outbound(self, s: Side) -> Seq<u8> {
        self.inbound(peer(s))
    }

    /// Whether the given end is still open.
    pub open spec fn side_open(self, s: Side) -> bool {
        match s {
            Side::Client => self.client_open,
            Side::Server => self.server_open,
        }
    }

    /// A connection as `connect` creates it: both ends open, nothing in
    /// flight yet.
    pub open spec fn is_fresh(self) -> bool {
        &&& self.to_server@ == Seq::<u8>::empty()
        &&& self.to_client@ == Seq::<u8>::empty()
        &&& self.client_open
        &&& self.server_open
    }
}

/// One bound endpoint: its path, whether the listener is still live, and
/// the connections that have arrived and not yet been accepted, oldest
/// first.  A slot whose listener was closed stays in the record with
/// `open == false`; connections still pending there are discarded with
/// the endpoint and are never served.
pub struct ListenerSlot {
    pub path: Vec<u8>,
    pub open: bool,
    pub pending: Vec<usize>,
}

/// The machine-local IPC facility: every endpoint ever bound and every
/// connection ever established.  Slots and connections are appended and
/// never removed, so an index identifies one forever.
pub struct Fabric {
    pub listeners: Vec<ListenerSlot>,
    pub conns: Vec<Conn>,
}

/// The first live listener bound at `path`, searching from index `i`.
pub open spec fn find_bound_from(ls: Seq<ListenerSlot>, path: Seq<u8>, i: int) -> Option<int>
    decreases ls.len() - i when 0 <= i <= ls.len()
{
    if i >= ls.len() {
        None
    } else if ls[i].open && ls[i].path@ == path {
        Some(i)
    } else {
        find_bound_from(ls, path, i + 1)
    }
}

/// The first live listener bound at `path`, if any.
pub open spec fn find_bound(ls: Seq<ListenerSlot>, path: Seq<u8>) -> Option<int> {
    find_bound_from(ls, path, 0)
}

impl Fabric {
    /// Whether some live listener is bound at `path`.
    pub open spec fn has_bound(self, path: Seq<u8>) -> bool {
        find_bound(self.listeners@, path) is Some
    }

    /// Whether connection `c` is still waiting in some pending queue.
    pub open spec fn pending_contains(self, c: int) -> bool {
        exists|i: int, k: int|
            0 <= i < self.listeners@.len() && 0 <= k < self.listeners@[i].pending@.len()
                && #[trigger] self.listeners@[i].pending@[k] == c
    }

    /// Every pending entry names an existing connection whose server end
    /// is still unclaimed.
    pub open spec fn pending_ok(self) -> bool {
        forall|i: int, k: int|
            0 <= i < self.listeners@.len() && 0 <= k < self.listeners@[i].pending@.len()
                ==> (#[trigger] self.listeners@[i].pending@[k]) < self.conns@.len()
                    && self.conns@[self.listeners@[i].pending@[k] as int].server_open
    }

    /// No connection waits in two places: the server end of a pending
    /// connection can be claimed by exactly one accept.
    pub open spec fn pending_distinct(self) -> bool {
        forall|i1: int, k1: int, i2: int, k2: int|
            0 <= i1 < self.listeners@.len() && 0 <= k1 < self.listeners@[i1].pending@.len()
                && 0 <= i2 < self.listeners@.len() && 0 <= k2 < self.listeners@[i2].pending@.len()
                && (i1 != i2 || k1 != k2)
                ==> #[trigger] self.listeners@[i1].pending@[k1]
                    != #[trigger] self.listeners@[i2].pending@[k2]
    }

    /// Well-formedness of the whole facility.
    pub open spec fn wf(self) -> bool {
        &&& self.pending_ok()
        &&& self.pending_distinct()
    }

    /// `post` is `pre` with at most connection `c` changed: same
    /// endpoints, same pending queues, every other connection untouched.
    pub open spec fn touches_only(pre: Fabric, post: Fabric, c: int) -> bool {
        &&& post.listeners@ == pre.listeners@
        &&& post.conns@.len() == pre.conns@.len()
        &&& forall|j: int|
            0 <= j < pre.conns@.len() && j != c ==> post.conns@[j] == pre.conns@[j]
    }

    /// A facility with nothing bound and nothing connected.
    pub fn new() -> (r: Fabric)
        ensures
            r.wf(),
            r.listeners@ == Seq::<ListenerSlot>::empty(),
            r.conns@ == Seq::<Conn>::empty(),
    {
        Fabric { listeners: Vec::new(), conns: Vec::new() }
    }

    /// Finds the live listener bound at `path`, if any.
    pub fn lookup_bound(&self, path: &Vec<u8>) -> (r: Option<usize>)
        ensures
            match r {
                Some(i) => find_bound(self.listeners@, path@) == Some(i as int),
                None => find_bound(self.listeners@, path@) is None,
            },
    {
        let mut j: usize = 0;
        while j < self.listeners.len()
            invariant
                j <= self.listeners@.len(),
                find_bound(self.listeners@, path@) == find_bound_from(
                    self.listeners@,
                    path@,
                    j as int,
                ),
            decreases self.listeners@.len() - j,
        {
            if self.listeners[j].open && bytes_eq(&self.listeners[j].path, path) {
                return Some(j);
            }
            j += 1;
        }
        None
    }
}

/// A found index from `find_bound` really names a live listener at the
/// path, and it lies within the record.
proof fn lemma_find_bound_from_props(ls: Seq<ListenerSlot>, path: Seq<u8>, i: int)
    requires
        0 <= i <= ls.len(),
        find_bound_from(ls, path, i) is Some,
    ensures
        ({
            let j = find_bound_from(ls, path, i)->Some_0;
            &&& i <= j < ls.len()
            &&& ls[j].open
            &&& ls[j].path@ == path
        }),
    decreases ls.len() - i,
{
    if i >= ls.len() {
    } else if ls[i].open && ls[i].path@ == path {
    } else {
        lemma_find_bound_from_props(ls, path, i + 1);
    }
}

/// As `lemma_find_bound_from_props`, for a search of the whole record.
pub proof fn lemma_find_bound_props(ls: Seq<ListenerSlot>, path: Seq<u8>)
    requires
        find_bound(ls, path) is Some,
    ensures
        ({
            let j = find_bound(ls, path)->Some_0;
            &&& 0 <= j < ls.len()
            &&& ls[j].open
            &&& ls[j].path@ == path
        }),
{
    lemma_find_bound_from_props(ls, path, 0);
}

/// Whether two byte vectors hold the same bytes.
pub fn bytes_eq(a: &Vec<u8>, b: &Vec<u8>) -> (r: bool)
    ensures
        r <==> a@ == b@,
{
    if a.len() != b.len() {
        return false;
    }
    let mut i: usize = 0;
    while i < a.len()
        invariant
            i <= a@.len(),
            a@.len() == b@.len(),
            forall|k: int| 0 <= k < i ==> a@[k] == b@[k],
        decreases a@.len() - i,
    {
        if a[i] != b[i] {
            return false;
        }
        i += 1;
    }
    proof {
        assert(a@ =~= b@);
    }
    true
}

} // verus!
