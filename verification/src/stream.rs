//! The stream end of one established connection: `connect`, `read`,
//! `write`, `flush` and `close`, each specified as an exact step of the
//! [`crate::fabric::Fabric`] state machine.

use vstd::prelude::*;
use crate::fabric::{
    Conn, Fabric, IpcError, Side, find_bound, peer, read_count, read_front, read_remainder,
    write_back,
};

verus! {

/// One end of one established, bidirectional, ordered byte-stream
/// connection.  A stream owns its end exclusively: the library never
/// duplicates a handle, and `close` consumes it.
#[derive(Debug)]
pub struct LocalStream {
    pub conn: usize,
    pub side: Side,
}

impl LocalStream {
    /// The handle names a live connection of the facility whose own end
    /// is still open; an accepted end is no longer waiting anywhere.
    pub open spec fn wf(self, f: Fabric) -> bool {
        &&& (self.conn as int) < f.conns@.len()
        &&& f.conns@[self.conn as int].side_open(self.side)
        &&& self.side is Server ==> !f.pending_contains(self.conn as int)
    }

    /// The bytes this end could read, oldest first.
    pub open spec fn inbound(self, f: Fabric) -> Seq<u8> {
        f.conns@[self.conn as int].inbound(self.side)
    }

    /// The bytes this end has written that the peer has not yet read.
    pub open spec fn outbound(self, f: Fabric) -> Seq<u8> {
        f.conns@[self.conn as int].outbound(self.side)
    }

    /// Whether the peer end of this connection is still open.
    pub open spec fn peer_open(self, f: Fabric) -> bool {
        f.conns@[self.conn as int].side_open(peer(self.side))
    }
}

/// What a successful or failed `connect` does to the facility: on
/// success a fresh connection is appended and queued, in arrival order,
/// at the live listener bound at `path`; on failure (no such listener)
/// nothing changes.
pub open spec fn connect_transition(
    pre: Fabric,
    post: Fabric,
    path: Seq<u8>,
    r: Result<LocalStream, IpcError>,
) -> bool {
    &&& (r is Ok <==> pre.has_bound(path))
    &&& match r {
        Ok(s) => {
            let li = find_bound(pre.listeners@, path)->Some_0;
            &&& s.side is Client
            &&& s.conn == pre.conns@.len()
            &&& post.conns@.len() == pre.conns@.len() + 1
            &&& forall|j: int| 0 <= j < pre.conns@.len() ==> post.conns@[j] == pre.conns@[j]
            &&& post.conns@[s.conn as int].is_fresh()
            &&& post.listeners@.len() == pre.listeners@.len()
            &&& forall|j: int|
                0 <= j < pre.listeners@.len() && j != li ==> post.listeners@[j]
                    == pre.listeners@[j]
            &&& post.listeners@[li].path@ == pre.listeners@[li].path@
            &&& post.listeners@[li].open == pre.listeners@[li].open
            &&& post.listeners@[li].pending@ == pre.listeners@[li].pending@.push(s.conn)
        },
        Err(e) => {
            &&& e == IpcError::NotFound
            &&& post == pre
        },
    }
}

/// What a `write` of `data` does: if the peer end is open, the whole of
/// `data` is appended to the queue towards the peer and nothing else of
/// the facility changes; if the peer end is closed, the write fails and
/// nothing changes.
pub open spec fn write_transition(
    pre: Fabric,
    post: Fabric,
    s: LocalStream,
    data: Seq<u8>,
    r: Result<usize, IpcError>,
) -> bool {
    &&& (r is Ok <==> pre.conns@[s.conn as int].side_open(peer(s.side)))
    &&& match r {
        Ok(n) => {
            let c_pre = pre.conns@[s.conn as int];
            let c_post = post.conns@[s.conn as int];
            &&& n == data.len()
            &&& Fabric::touches_only(pre, post, s.conn as int)
            &&& c_post.outbound(s.side) == write_back(c_pre.outbound(s.side), data)
            &&& c_post.inbound(s.side) == c_pre.inbound(s.side)
            &&& c_post.client_open == c_pre.client_open
            &&& c_post.server_open == c_pre.server_open
        },
        Err(e) => {
            &&& e == IpcError::BrokenPipe
            &&& post == pre
        },
    }
}

/// What a `read` into a buffer of capacity `cap` does: it takes
/// `read_count` bytes (the lesser of capacity and what is in flight) off
/// the front of the inbound queue, in order.  A read of zero with
/// capacity to spare means end of stream: the peer end is closed.  Only
/// when the queue is empty, the peer is still open and the capacity is
/// not zero does the operation have to wait, and the waiting of the OS
/// facility is rendered as an immediate `WouldBlock`; nothing changes
/// then.
pub open spec fn read_transition(
    pre: Fabric,
    post: Fabric,
    s: LocalStream,
    cap: int,
    r: Result<usize, IpcError>,
) -> bool {
    let q = pre.conns@[s.conn as int].inbound(s.side);
    let c_pre = pre.conns@[s.conn as int];
    let c_post = post.conns@[s.conn as int];
    &&& (r is Err <==> (cap > 0 && q.len() == 0 && c_pre.side_open(peer(s.side))))
    &&& match r {
        Ok(n) => {
            &&& n as int == read_count(q, cap)
            &&& Fabric::touches_only(pre, post, s.conn as int)
            &&& c_post.inbound(s.side) == read_remainder(q, cap)
            &&& c_post.outbound(s.side) == c_pre.outbound(s.side)
            &&& c_post.client_open == c_pre.client_open
            &&& c_post.server_open == c_pre.server_open
            &&& (cap > 0 && n == 0 ==> !c_pre.side_open(peer(s.side)))
        },
        Err(e) => {
            &&& e == IpcError::WouldBlock
            &&& post == pre
        },
    }
}

impl LocalStream {
    /// Opens a client connection to the endpoint at `path`.  Succeeds if
    /// and only if a live listener is bound there; otherwise it fails
    /// with `NotFound` and the facility is untouched.  Construction is
    /// all or nothing: on failure no partial stream exists.
    pub fn connect(fabric: &mut Fabric, path: &Vec<u8>) -> (r: Result<LocalStream, IpcError>)
        requires
            old(fabric).wf(),
        ensures
            final(fabric).wf(),
            connect_transition(*old(fabric), *final(fabric), path@, r),
            r is Ok ==> r->Ok_0.wf(*final(fabric)),
            // which connections wait where is otherwise unchanged
            forall|c: int|
                0 <= c < old(fabric).conns@.len() ==> (final(fabric).pending_contains(c)
                    <==> old(fabric).pending_contains(c)),
    {
        let li_opt = fabric.lookup_bound(path);
        match li_opt {
            None => Err(IpcError::NotFound),
            Some(li) => {
                proof {
                    crate::fabric::lemma_find_bound_props(fabric.listeners@, path@);
                }
                let c = fabric.conns.len();
                fabric.conns.push(
                    Conn {
                        to_server: Vec::new(),
                        to_client: Vec::new(),
                        client_open: true,
                        server_open: true,
                    },
                );
                fabric.listeners[li].pending.push(c);
                let s = LocalStream { conn: c, side: Side::Client };
                proof {
                    lemma_connect_preserves_wf(*old(fabric), *fabric, li as int, c);
                }
                Ok(s)
            },
        }
    }
}

impl LocalStream {
    /// Reads up to `buf.len()` bytes from the connection into the front
    /// of `buf`, returning how many were read.  Zero with capacity to
    /// spare means the peer closed its end; an empty queue under a live
    /// peer reports `WouldBlock` instead of blocking the caller.
    pub fn read(&self, fabric: &mut Fabric, buf: &mut Vec<u8>) -> (r: Result<usize, IpcError>)
        requires
            old(fabric).wf(),
            self.wf(*old(fabric)),
        ensures
            final(fabric).wf(),
            self.wf(*final(fabric)),
            read_transition(*old(fabric), *final(fabric), *self, old(buf)@.len() as int, r),
            final(buf)@.len() == old(buf)@.len(),
            r is Ok ==> final(buf)@ == read_front(
                old(fabric).conns@[self.conn as int].inbound(self.side),
                old(buf)@.len() as int,
            ) + old(buf)@.skip(
                read_count(
                    old(fabric).conns@[self.conn as int].inbound(self.side),
                    old(buf)@.len() as int,
                ),
            ),
            r is Err ==> final(buf)@ == old(buf)@,
            // end of stream: once the peer end is closed and nothing is in
            // flight, a read returns zero rather than blocking or failing
            (old(buf)@.len() > 0 && old(fabric).conns@[self.conn as int].inbound(self.side).len()
                == 0 && !old(fabric).conns@[self.conn as int].side_open(peer(self.side))) ==> r
                == Ok::<usize, IpcError>(0),
    {
        let idx = self.conn;
        let cap = buf.len();
        let peer_open = match self.side {
            Side::Client => fabric.conns[idx].server_open,
            Side::Server => fabric.conns[idx].client_open,
        };
        let avail = match self.side {
            Side::Client => fabric.conns[idx].to_client.len(),
            Side::Server => fabric.conns[idx].to_server.len(),
        };
        if cap == 0 || avail == 0 {
            if cap > 0 && avail == 0 && peer_open {
                return Err(IpcError::WouldBlock);
            }
            proof {
                let q = fabric.conns@[idx as int].inbound(self.side);
                assert(read_front(q, cap as int) + old(buf)@.skip(read_count(q, cap as int)) =~= old(
                    buf,
                )@);
                assert(read_remainder(q, cap as int) =~= q);
            }
            return Ok(0);
        }
        let n = if cap < avail {
            cap
        } else {
            avail
        };
        match self.side {
            Side::Client => {
                copy_prefix(&fabric.conns[idx].to_client, buf, n);
                drop_prefix(&mut fabric.conns[idx].to_client, n);
            },
            Side::Server => {
                copy_prefix(&fabric.conns[idx].to_server, buf, n);
                drop_prefix(&mut fabric.conns[idx].to_server, n);
            },
        }
        proof {
            lemma_queues_preserve_wf(*old(fabric), *fabric, idx as int);
            let q = old(fabric).conns@[idx as int].inbound(self.side);
            assert(buf@ =~= read_front(q, cap as int) + old(buf)@.skip(read_count(q, cap as int)));
        }
        Ok(n)
    }

    /// Writes the whole of `data` to the connection, returning the count
    /// written, or fails with `BrokenPipe` when the peer end is closed.
    pub fn write(&self, fabric: &mut Fabric, data: &Vec<u8>) -> (r: Result<usize, IpcError>)
        requires
            old(fabric).wf(),
            self.wf(*old(fabric)),
        ensures
            final(fabric).wf(),
            self.wf(*final(fabric)),
            write_transition(*old(fabric), *final(fabric), *self, data@, r),
    {
        let idx = self.conn;
        let peer_open = match self.side {
            Side::Client => fabric.conns[idx].server_open,
            Side::Server => fabric.conns[idx].client_open,
        };
        if !peer_open {
            return Err(IpcError::BrokenPipe);
        }
        match self.side {
            Side::Client => append_bytes(&mut fabric.conns[idx].to_server, data),
            Side::Server => append_bytes(&mut fabric.conns[idx].to_client, data),
        }
        proof {
            lemma_queues_preserve_wf(*old(fabric), *fabric, idx as int);
        }
        Ok(data.len())
    }

    /// Forces buffered data out to the peer.  The model keeps no buffer
    /// of its own — every accepted write is already in the connection's
    /// queue — so a flush always succeeds and changes nothing.
    pub fn flush(&self, fabric: &mut Fabric) -> (r: Result<(), IpcError>)
        requires
            old(fabric).wf(),
            self.wf(*old(fabric)),
        ensures
            *final(fabric) == *old(fabric),
            r is Ok,
    {
        Ok(())
    }

    /// Releases this end of the connection: the handle is consumed, the
    /// end is marked closed, and everything else — both queues, the peer's
    /// end, every other connection and endpoint — is untouched.
    pub fn close(self, fabric: &mut Fabric)
        requires
            old(fabric).wf(),
            self.wf(*old(fabric)),
        ensures
            final(fabric).wf(),
            Fabric::touches_only(*old(fabric), *final(fabric), self.conn as int),
            !final(fabric).conns@[self.conn as int].side_open(self.side),
            final(fabric).conns@[self.conn as int].side_open(peer(self.side)) == old(
                fabric,
            ).conns@[self.conn as int].side_open(peer(self.side)),
            final(fabric).conns@[self.conn as int].to_server@ == old(fabric).conns@[self.conn as int].to_server@,
            final(fabric).conns@[self.conn as int].to_client@ == old(fabric).conns@[self.conn as int].to_client@,
    {
        let idx = self.conn;
        match self.side {
            Side::Client => {
                fabric.conns[idx].client_open = false;
                proof {
                    lemma_queues_preserve_wf(*old(fabric), *fabric, idx as int);
                }
            },
            Side::Server => {
                fabric.conns[idx].server_open = false;
                proof {
                    lemma_close_server_preserves_wf(*old(fabric), *fabric, idx);
                }
            },
        }
    }
}

/// Copies the first `n` bytes of `src` over the front of `dst`; the rest
/// of `dst` keeps its old contents.
fn copy_prefix(src: &Vec<u8>, dst: &mut Vec<u8>, n: usize)
    requires
        n <= src@.len(),
        n <= old(dst)@.len(),
    ensures
        final(dst)@.len() == old(dst)@.len(),
        forall|k: int| 0 <= k < n ==> final(dst)@[k] == src@[k],
        forall|k: int| n <= k < old(dst)@.len() ==> final(dst)@[k] == old(dst)@[k],
{
    let mut i: usize = 0;
    while i < n
        invariant
            i <= n,
            n <= src@.len(),
            n <= dst@.len(),
            dst@.len() == old(dst)@.len(),
            forall|k: int| 0 <= k < i ==> dst@[k] == src@[k],
            forall|k: int| i <= k < old(dst)@.len() ==> dst@[k] == old(dst)@[k],
        decreases n - i,
    {
        let b = src[i];
        dst[i] = b;
        i += 1;
    }
}

/// Removes the first `n` bytes of `q`, keeping the rest in order.
fn drop_prefix(q: &mut Vec<u8>, n: usize)
    requires
        n <= old(q)@.len(),
    ensures
        final(q)@ == old(q)@.skip(n as int),
{
    let tail = q.split_off(n);
    *q = tail;
    proof {
        assert(q@ =~= old(q)@.skip(n as int));
    }
}

/// Appends the whole of `data` to the back of `q`, in order.
fn append_bytes(q: &mut Vec<u8>, data: &Vec<u8>)
    ensures
        final(q)@ == old(q)@ + data@,
{
    let mut i: usize = 0;
    while i < data.len()
        invariant
            i <= data@.len(),
            q@ == old(q)@ + data@.take(i as int),
        decreases data@.len() - i,
    {
        let b = data[i];
        q.push(b);
        proof {
            assert(old(q)@ + data@.take(i as int) + seq![data@[i as int]] =~= old(q)@ + data@.take(
                i as int + 1,
            ));
        }
        i += 1;
    }
    proof {
        assert(old(q)@ + data@.take(data@.len() as int) =~= old(q)@ + data@);
    }
}

/// A step that only touches the byte queues or the client flag of one
/// connection — and never clears a server flag — keeps the facility well
/// formed: no pending queue is involved.
proof fn lemma_queues_preserve_wf(pre: Fabric, post: Fabric, c: int)
    requires
        pre.wf(),
        post.listeners@ == pre.listeners@,
        post.conns@.len() == pre.conns@.len(),
        forall|j: int| 0 <= j < pre.conns@.len() && j != c ==> post.conns@[j] == pre.conns@[j],
        0 <= c < pre.conns@.len() ==> post.conns@[c].server_open == pre.conns@[c].server_open,
    ensures
        post.wf(),
        forall|d: int| post.pending_contains(d) <==> pre.pending_contains(d),
{
    assert forall|i: int, k: int|
        0 <= i < post.listeners@.len() && 0 <= k < post.listeners@[i].pending@.len()
        implies (#[trigger] post.listeners@[i].pending@[k]) < post.conns@.len()
            && post.conns@[post.listeners@[i].pending@[k] as int].server_open by {
        assert(pre.listeners@[i].pending@[k] == post.listeners@[i].pending@[k]);
        assert(pre.listeners@[i].pending@[k] < pre.conns@.len());
    }
    assert forall|d: int| post.pending_contains(d) <==> pre.pending_contains(d) by {
        assert(post.listeners@ =~= pre.listeners@);
    }
}

/// Closing the accepted end of connection `c` keeps the facility well
/// formed, because an accepted connection no longer waits in any pending
/// queue.
proof fn lemma_close_server_preserves_wf(pre: Fabric, post: Fabric, c: usize)
    requires
        pre.wf(),
        !pre.pending_contains(c as int),
        post.listeners@ == pre.listeners@,
        post.conns@.len() == pre.conns@.len(),
        forall|j: int| 0 <= j < pre.conns@.len() && j != c ==> post.conns@[j] == pre.conns@[j],
    ensures
        post.wf(),
{
    assert forall|i: int, k: int|
        0 <= i < post.listeners@.len() && 0 <= k < post.listeners@[i].pending@.len()
        implies (#[trigger] post.listeners@[i].pending@[k]) < post.conns@.len()
            && post.conns@[post.listeners@[i].pending@[k] as int].server_open by {
        assert(pre.listeners@[i].pending@[k] == post.listeners@[i].pending@[k]);
        assert(pre.listeners@[i].pending@[k] < pre.conns@.len());
        assert(pre.listeners@[i].pending@[k] != c);
    }
}

/// After queueing fresh connection `c` at listener `li`, the facility is
/// still well formed and no previously waiting connection moved.
proof fn lemma_connect_preserves_wf(pre: Fabric, post: Fabric, li: int, c: usize)
    requires
        pre.wf(),
        0 <= li < pre.listeners@.len(),
        c == pre.conns@.len(),
        post.conns@.len() == pre.conns@.len() + 1,
        forall|j: int| 0 <= j < pre.conns@.len() ==> post.conns@[j] == pre.conns@[j],
        post.conns@[c as int].server_open,
        post.listeners@.len() == pre.listeners@.len(),
        forall|j: int|
            0 <= j < pre.listeners@.len() && j != li ==> post.listeners@[j] == pre.listeners@[j],
        post.listeners@[li].pending@ == pre.listeners@[li].pending@.push(c),
    ensures
        post.wf(),
        forall|d: int|
            0 <= d < pre.conns@.len() ==> (post.pending_contains(d) <==> pre.pending_contains(d)),
{
    assert forall|i: int, k: int|
        0 <= i < post.listeners@.len() && 0 <= k < post.listeners@[i].pending@.len()
        implies (#[trigger] post.listeners@[i].pending@[k]) < post.conns@.len()
            && post.conns@[post.listeners@[i].pending@[k] as int].server_open by {
        if i == li && k == pre.listeners@[li].pending@.len() {
            assert(post.listeners@[i].pending@[k] == c);
        } else {
            assert(post.listeners@[i].pending@[k] == pre.listeners@[i].pending@[k]);
            assert(pre.listeners@[i].pending@[k] < pre.conns@.len());
        }
    }
    assert forall|i1: int, k1: int, i2: int, k2: int|
        0 <= i1 < post.listeners@.len() && 0 <= k1 < post.listeners@[i1].pending@.len() && 0 <= i2
            < post.listeners@.len() && 0 <= k2 < post.listeners@[i2].pending@.len() && (i1 != i2
            || k1 != k2) implies #[trigger] post.listeners@[i1].pending@[k1]
        != #[trigger] post.listeners@[i2].pending@[k2] by {
        let last = pre.listeners@[li].pending@.len() as int;
        if i1 == li && k1 == last {
            assert(post.listeners@[i2].pending@[k2] == pre.listeners@[i2].pending@[k2]);
            assert(pre.listeners@[i2].pending@[k2] < pre.conns@.len());
        } else if i2 == li && k2 == last {
            assert(post.listeners@[i1].pending@[k1] == pre.listeners@[i1].pending@[k1]);
            assert(pre.listeners@[i1].pending@[k1] < pre.conns@.len());
        } else {
            assert(post.listeners@[i1].pending@[k1] == pre.listeners@[i1].pending@[k1]);
            assert(post.listeners@[i2].pending@[k2] == pre.listeners@[i2].pending@[k2]);
        }
    }
    assert forall|d: int| 0 <= d < pre.conns@.len() implies (post.pending_contains(d)
        <==> pre.pending_contains(d)) by {
        if pre.pending_contains(d) {
            let (i, k): (int, int) = choose|i: int, k: int|
                0 <= i < pre.listeners@.len() && 0 <= k < pre.listeners@[i].pending@.len()
                    && #[trigger] pre.listeners@[i].pending@[k] == d;
            assert(post.listeners@[i].pending@[k] == d);
        }
        if post.pending_contains(d) {
            let (i, k): (int, int) = choose|i: int, k: int|
                0 <= i < post.listeners@.len() && 0 <= k < post.listeners@[i].pending@.len()
                    && #[trigger] post.listeners@[i].pending@[k] == d;
            if i == li && k == pre.listeners@[li].pending@.len() {
                assert(d == c);
                assert(false);
            } else {
                assert(pre.listeners@[i].pending@[k] == d);
            }
        }
    }
}

} // verus!
