//! The server side: `bind`, `accept`, and the lazy `Incoming` sequence
//! of accepted connections, each specified as an exact step of the
//! [`crate::fabric::Fabric`] state machine.

use vstd::prelude::*;
use crate::fabric::{Fabric, IpcError, ListenerSlot, Side};
use crate::stream::LocalStream;

verus! {

/// A bound server endpoint, able to complete incoming client
/// connections into streams one at a time.  The handle owns its endpoint
/// exclusively; `close` consumes it and releases the path.
#[derive(Debug)]
pub struct LocalListener {
    pub idx: usize,
}

impl LocalListener {
    /// The handle names a slot of the facility whose listener is live.
    pub open spec fn wf(self, f: Fabric) -> bool {
        &&& (self.idx as int) < f.listeners@.len()
        &&& f.listeners@[self.idx as int].open
    }

    /// The path this listener is bound at.
    pub open spec fn path_of(self, f: Fabric) -> Seq<u8> {
        f.listeners@[self.idx as int].path@
    }

    /// The connections waiting to be accepted here, oldest first.
    pub open spec fn pending_of(self, f: Fabric) -> Seq<usize> {
        f.listeners@[self.idx as int].pending@
    }
}

/// What a successful or failed `bind` does to the facility: on success a
/// fresh live slot for `path`, with nothing pending, is appended; on
/// failure (the path is occupied by a live listener) nothing changes.
pub open spec fn bind_transition(
    pre: Fabric,
    post: Fabric,
    path: Seq<u8>,
    r: Result<LocalListener, IpcError>,
) -> bool {
    &&& (r is Ok <==> !pre.has_bound(path))
    &&& match r {
        Ok(l) => {
            &&& l.idx == pre.listeners@.len()
            &&& post.conns@ == pre.conns@
            &&& post.listeners@.len() == pre.listeners@.len() + 1
            &&& forall|j: int|
                0 <= j < pre.listeners@.len() ==> post.listeners@[j] == pre.listeners@[j]
            &&& l.path_of(post) == path
            &&& post.listeners@[l.idx as int].open
            &&& l.pending_of(post) == Seq::<usize>::empty()
        },
        Err(e) => {
            &&& e == IpcError::AddrInUse
            &&& post == pre
        },
    }
}

/// What one `accept` does: if a connection is waiting, the oldest one is
/// taken off this listener's pending queue and its server end is handed
/// out as a stream; everything else, the connection's queues included, is
/// untouched.  With nothing waiting, the wait of the OS facility is
/// rendered as an immediate `WouldBlock` and nothing changes.
pub open spec fn accept_transition(
    pre: Fabric,
    post: Fabric,
    l: LocalListener,
    r: Result<LocalStream, IpcError>,
) -> bool {
    &&& (r is Ok <==> l.pending_of(pre).len() > 0)
    &&& match r {
        Ok(s) => {
            &&& s.side is Server
            &&& s.conn == l.pending_of(pre)[0]
            &&& post.conns@ == pre.conns@
            &&& post.listeners@.len() == pre.listeners@.len()
            &&& forall|j: int|
                0 <= j < pre.listeners@.len() && j != l.idx ==> post.listeners@[j]
                    == pre.listeners@[j]
            &&& l.path_of(post) == l.path_of(pre)
            &&& post.listeners@[l.idx as int].open == pre.listeners@[l.idx as int].open
            &&& l.pending_of(post) == l.pending_of(pre).skip(1)
        },
        Err(e) => {
            &&& e == IpcError::WouldBlock
            &&& post == pre
        },
    }
}

impl LocalListener {
    /// Creates and binds a new listening endpoint at `path`.  Succeeds if
    /// and only if no live listener occupies the path; otherwise it fails
    /// with `AddrInUse` and the facility is untouched.  Construction is
    /// all or nothing: on failure no partial listener exists.
    pub fn bind(fabric: &mut Fabric, path: &Vec<u8>) -> (r: Result<LocalListener, IpcError>)
        requires
            old(fabric).wf(),
        ensures
            final(fabric).wf(),
            bind_transition(*old(fabric), *final(fabric), path@, r),
            r is Ok ==> r->Ok_0.wf(*final(fabric)),
            forall|c: int|
                final(fabric).pending_contains(c) <==> old(fabric).pending_contains(c),
    {
        let occupied = fabric.lookup_bound(path);
        match occupied {
            Some(_) => Err(IpcError::AddrInUse),
            None => {
                let idx = fabric.listeners.len();
                let mut bound_path: Vec<u8> = Vec::new();
                append_path(&mut bound_path, path);
                fabric.listeners.push(
                    ListenerSlot { path: bound_path, open: true, pending: Vec::new() },
                );
                proof {
                    lemma_bind_preserves_wf(*old(fabric), *fabric, idx as int);
                }
                Ok(LocalListener { idx })
            },
        }
    }

    /// Completes the oldest waiting client connection into a stream, or
    /// reports `WouldBlock` when none is waiting.  The accepted stream is
    /// an independent end: no state is shared with this listener.
    pub fn accept(&self, fabric: &mut Fabric) -> (r: Result<LocalStream, IpcError>)
        requires
            old(fabric).wf(),
            self.wf(*old(fabric)),
        ensures
            final(fabric).wf(),
            self.wf(*final(fabric)),
            accept_transition(*old(fabric), *final(fabric), *self, r),
            r is Ok ==> r->Ok_0.wf(*final(fabric)),
    {
        let idx = self.idx;
        if fabric.listeners[idx].pending.len() == 0 {
            return Err(IpcError::WouldBlock);
        }
        let c = fabric.listeners[idx].pending.remove(0);
        proof {
            lemma_accept_preserves_wf(*old(fabric), *fabric, idx as int, c);
        }
        Ok(LocalStream { conn: c, side: Side::Server })
    }

    /// Takes an exclusive lease on this listener and presents its
    /// repeated accepts as a lazy sequence.  No connection is accepted
    /// eagerly.  `Incoming::into_listener` gives the listener back.
    pub fn incoming(self) -> (r: Incoming)
        ensures
            r.listener == self,
    {
        Incoming { listener: self }
    }

    /// Releases the bound endpoint: the handle is consumed and the slot
    /// is marked closed, so the path can be bound anew.  Connections
    /// still waiting here are discarded with the endpoint and are never
    /// served.
    pub fn close(self, fabric: &mut Fabric)
        requires
            old(fabric).wf(),
            self.wf(*old(fabric)),
        ensures
            final(fabric).wf(),
            final(fabric).conns@ == old(fabric).conns@,
            final(fabric).listeners@.len() == old(fabric).listeners@.len(),
            forall|j: int|
                0 <= j < old(fabric).listeners@.len() && j != self.idx
                    ==> final(fabric).listeners@[j] == old(fabric).listeners@[j],
            !final(fabric).listeners@[self.idx as int].open,
            final(fabric).listeners@[self.idx as int].path@ == old(fabric).listeners@[self.idx as int].path@,
            final(fabric).listeners@[self.idx as int].pending@ == old(fabric).listeners@[self.idx as int].pending@,
    {
        let idx = self.idx;
        fabric.listeners[idx].open = false;
        proof {
            lemma_flag_preserves_wf(*old(fabric), *fabric, idx as int);
        }
    }
}

/// A lazy, potentially unbounded sequence of accepted connections over
/// an exclusively leased listener.  It holds no state of its own beyond
/// the lease.
#[derive(Debug)]
pub struct Incoming {
    pub listener: LocalListener,
}

impl Incoming {
    /// One advance of the sequence: exactly one accept on the leased
    /// listener.  The sequence never terminates of itself — the result is
    /// always `Some` — and an error does not end it: the listener stays
    /// live and a further advance is always possible.
    pub fn next(&mut self, fabric: &mut Fabric) -> (r: Option<
        Result<LocalStream, IpcError>,
    >)
        requires
            old(fabric).wf(),
            old(self).listener.wf(*old(fabric)),
        ensures
            r is Some,
            *final(self) == *old(self),
            final(fabric).wf(),
            final(self).listener.wf(*final(fabric)),
            accept_transition(*old(fabric), *final(fabric), old(self).listener, r->Some_0),
            r->Some_0 is Ok ==> (r->Some_0)->Ok_0.wf(*final(fabric)),
    {
        Some(self.listener.accept(fabric))
    }

    /// Ends the iteration, giving the leased listener back.
    pub fn into_listener(self) -> (r: LocalListener)
        ensures
            r == self.listener,
    {
        self.listener
    }
}

/// Copies the bytes of `path` into `dst`.
fn append_path(dst: &mut Vec<u8>, path: &Vec<u8>)
    requires
        old(dst)@.len() == 0,
    ensures
        final(dst)@ == path@,
{
    let mut i: usize = 0;
    while i < path.len()
        invariant
            i <= path@.len(),
            dst@ == path@.take(i as int),
        decreases path@.len() - i,
    {
        let b = path[i];
        dst.push(b);
        proof {
            assert(path@.take(i as int).push(path@[i as int]) =~= path@.take(i as int + 1));
        }
        i += 1;
    }
    proof {
        assert(path@.take(path@.len() as int) =~= path@);
    }
}

/// Appending a fresh slot with an empty pending queue keeps the facility
/// well formed and moves no waiting connection.
proof fn lemma_bind_preserves_wf(pre: Fabric, post: Fabric, li: int)
    requires
        pre.wf(),
        li == pre.listeners@.len(),
        post.conns@ == pre.conns@,
        post.listeners@.len() == pre.listeners@.len() + 1,
        forall|j: int| 0 <= j < pre.listeners@.len() ==> post.listeners@[j] == pre.listeners@[j],
        post.listeners@[li].pending@ == Seq::<usize>::empty(),
    ensures
        post.wf(),
        forall|c: int| post.pending_contains(c) <==> pre.pending_contains(c),
{
    assert forall|i: int, k: int|
        0 <= i < post.listeners@.len() && 0 <= k < post.listeners@[i].pending@.len()
        implies (#[trigger] post.listeners@[i].pending@[k]) < post.conns@.len()
            && post.conns@[post.listeners@[i].pending@[k] as int].server_open by {
        assert(i < pre.listeners@.len());
        assert(pre.listeners@[i].pending@[k] < pre.conns@.len());
    }
    assert forall|i1: int, k1: int, i2: int, k2: int|
        0 <= i1 < post.listeners@.len() && 0 <= k1 < post.listeners@[i1].pending@.len() && 0 <= i2
            < post.listeners@.len() && 0 <= k2 < post.listeners@[i2].pending@.len() && (i1 != i2
            || k1 != k2) implies #[trigger] post.listeners@[i1].pending@[k1]
        != #[trigger] post.listeners@[i2].pending@[k2] by {
        assert(pre.listeners@[i1].pending@[k1] != pre.listeners@[i2].pending@[k2]);
    }
    assert forall|c: int| post.pending_contains(c) <==> pre.pending_contains(c) by {
        if pre.pending_contains(c) {
            let (i, k): (int, int) = choose|i: int, k: int|
                0 <= i < pre.listeners@.len() && 0 <= k < pre.listeners@[i].pending@.len()
                    && #[trigger] pre.listeners@[i].pending@[k] == c;
            assert(post.listeners@[i].pending@[k] == c);
        }
        if post.pending_contains(c) {
            let (i, k): (int, int) = choose|i: int, k: int|
                0 <= i < post.listeners@.len() && 0 <= k < post.listeners@[i].pending@.len()
                    && #[trigger] post.listeners@[i].pending@[k] == c;
            assert(i < pre.listeners@.len());
            assert(pre.listeners@[i].pending@[k] == c);
        }
    }
}

/// Taking the oldest waiting connection off one pending queue keeps the
/// facility well formed, and that connection then waits nowhere.
proof fn lemma_accept_preserves_wf(pre: Fabric, post: Fabric, li: int, c: usize)
    requires
        pre.wf(),
        0 <= li < pre.listeners@.len(),
        pre.listeners@[li].pending@.len() > 0,
        c == pre.listeners@[li].pending@[0],
        post.conns@ == pre.conns@,
        post.listeners@.len() == pre.listeners@.len(),
        forall|j: int|
            0 <= j < pre.listeners@.len() && j != li ==> post.listeners@[j] == pre.listeners@[j],
        post.listeners@[li].pending@ == pre.listeners@[li].pending@.skip(1),
    ensures
        post.wf(),
        !post.pending_contains(c as int),
        (c as int) < post.conns@.len(),
        post.conns@[c as int].server_open,
{
    assert forall|i: int, k: int|
        0 <= i < post.listeners@.len() && 0 <= k < post.listeners@[i].pending@.len()
        implies (#[trigger] post.listeners@[i].pending@[k]) < post.conns@.len()
            && post.conns@[post.listeners@[i].pending@[k] as int].server_open by {
        if i == li {
            assert(post.listeners@[i].pending@[k] == pre.listeners@[i].pending@[k + 1]);
            assert(pre.listeners@[i].pending@[k + 1] < pre.conns@.len());
        } else {
            assert(pre.listeners@[i].pending@[k] < pre.conns@.len());
        }
    }
    assert forall|i1: int, k1: int, i2: int, k2: int|
        0 <= i1 < post.listeners@.len() && 0 <= k1 < post.listeners@[i1].pending@.len() && 0 <= i2
            < post.listeners@.len() && 0 <= k2 < post.listeners@[i2].pending@.len() && (i1 != i2
            || k1 != k2) implies #[trigger] post.listeners@[i1].pending@[k1]
        != #[trigger] post.listeners@[i2].pending@[k2] by {
        if i1 == li {
            assert(post.listeners@[i1].pending@[k1] == pre.listeners@[i1].pending@[k1 + 1]);
        } else {
            assert(post.listeners@[i1].pending@[k1] == pre.listeners@[i1].pending@[k1]);
        }
        if i2 == li {
            assert(post.listeners@[i2].pending@[k2] == pre.listeners@[i2].pending@[k2 + 1]);
        } else {
            assert(post.listeners@[i2].pending@[k2] == pre.listeners@[i2].pending@[k2]);
        }
    }
    assert forall|i: int, k: int|
        0 <= i < post.listeners@.len() && 0 <= k < post.listeners@[i].pending@.len()
        implies #[trigger] post.listeners@[i].pending@[k] != c by {
        if i == li {
            assert(post.listeners@[i].pending@[k] == pre.listeners@[i].pending@[k + 1]);
            assert(pre.listeners@[i].pending@[k + 1] != pre.listeners@[li].pending@[0]);
        } else {
            assert(post.listeners@[i].pending@[k] == pre.listeners@[i].pending@[k]);
            assert(pre.listeners@[i].pending@[k] != pre.listeners@[li].pending@[0]);
        }
    }
    assert(pre.listeners@[li].pending@[0] < pre.conns@.len());
}

/// Clearing the live flag of one slot keeps the facility well formed:
/// the pending queues and the connections are untouched.
proof fn lemma_flag_preserves_wf(pre: Fabric, post: Fabric, li: int)
    requires
        pre.wf(),
        0 <= li < pre.listeners@.len(),
        post.conns@ == pre.conns@,
        post.listeners@.len() == pre.listeners@.len(),
        forall|j: int|
            0 <= j < pre.listeners@.len() && j != li ==> post.listeners@[j] == pre.listeners@[j],
        post.listeners@[li].pending@ == pre.listeners@[li].pending@,
    ensures
        post.wf(),
{
    assert forall|i: int, k: int|
        0 <= i < post.listeners@.len() && 0 <= k < post.listeners@[i].pending@.len()
        implies (#[trigger] post.listeners@[i].pending@[k]) < post.conns@.len()
            && post.conns@[post.listeners@[i].pending@[k] as int].server_open by {
        assert(post.listeners@[i].pending@[k] == pre.listeners@[i].pending@[k]);
        assert(pre.listeners@[i].pending@[k] < pre.conns@.len());
    }
    assert forall|i1: int, k1: int, i2: int, k2: int|
        0 <= i1 < post.listeners@.len() && 0 <= k1 < post.listeners@[i1].pending@.len() && 0 <= i2
            < post.listeners@.len() && 0 <= k2 < post.listeners@[i2].pending@.len() && (i1 != i2
            || k1 != k2) implies #[trigger] post.listeners@[i1].pending@[k1]
        != #[trigger] post.listeners@[i2].pending@[k2] by {
        assert(post.listeners@[i1].pending@[k1] == pre.listeners@[i1].pending@[k1]);
        assert(post.listeners@[i2].pending@[k2] == pre.listeners@[i2].pending@[k2]);
        assert(pre.listeners@[i1].pending@[k1] != pre.listeners@[i2].pending@[k2]);
    }
}

} // verus!
