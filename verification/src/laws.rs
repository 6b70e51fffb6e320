//! The general guarantees of the library, each proved from the
//! contracts of the operations alone: what a round trip delivers, when
//! connect and bind succeed, that connections do not interfere, and what
//! end of stream means.

use vstd::prelude::*;
use crate::fabric::{Fabric, IpcError, ListenerSlot, find_bound_from, peer, read_front};
use crate::stream::{LocalStream, connect_transition, read_transition, write_transition};
use crate::listener::{LocalListener, accept_transition, bind_transition};

verus! {

/// A live listener is found at `path`, searching from `i`, exactly when
/// one stands at or after `i`.
proof fn lemma_find_bound_from_iff(ls: Seq<ListenerSlot>, path: Seq<u8>, i: int)
    requires
        0 <= i <= ls.len(),
    ensures
        find_bound_from(ls, path, i) is Some <==> exists|j: int|
            i <= j < ls.len() && (#[trigger] ls[j]).open && ls[j].path@ == path,
    decreases ls.len() - i,
{
    if i >= ls.len() {
    } else if ls[i].open && ls[i].path@ == path {
        assert(i <= i < ls.len() && ls[i].open && ls[i].path@ == path);
    } else {
        lemma_find_bound_from_iff(ls, path, i + 1);
        if exists|j: int| i <= j < ls.len() && (#[trigger] ls[j]).open && ls[j].path@ == path {
            let j = choose|j: int|
                i <= j < ls.len() && (#[trigger] ls[j]).open && ls[j].path@ == path;
            assert(j != i);
            assert(i + 1 <= j < ls.len() && ls[j].open && ls[j].path@ == path);
        }
    }
}

/// Law: a path is bound exactly when some live listener stands at it.
pub proof fn lemma_has_bound_iff(f: Fabric, path: Seq<u8>)
    ensures
        f.has_bound(path) <==> exists|j: int|
            0 <= j < f.listeners@.len() && (#[trigger] f.listeners@[j]).open
                && f.listeners@[j].path@ == path,
{
    lemma_find_bound_from_iff(f.listeners@, path, 0);
}

/// Law (connect without listener fails): a connect succeeds exactly when
/// a live listener is bound at the path; with none there it fails with
/// `NotFound`, returns no stream, and leaves the facility untouched.
pub proof fn lemma_connect_iff_bound(
    pre: Fabric,
    post: Fabric,
    path: Seq<u8>,
    r: Result<LocalStream, IpcError>,
)
    requires
        connect_transition(pre, post, path, r),
    ensures
        r is Ok <==> exists|j: int|
            0 <= j < pre.listeners@.len() && (#[trigger] pre.listeners@[j]).open
                && pre.listeners@[j].path@ == path,
        r is Err ==> r->Err_0 == IpcError::NotFound && post == pre,
{
    lemma_has_bound_iff(pre, path);
}

/// Law (bind collision fails): a bind fails exactly when a live listener
/// already occupies the path; it then fails with `AddrInUse` and leaves
/// the facility untouched, and no partial listener exists.
pub proof fn lemma_bind_collision(
    pre: Fabric,
    post: Fabric,
    path: Seq<u8>,
    r: Result<LocalListener, IpcError>,
)
    requires
        bind_transition(pre, post, path, r),
    ensures
        r is Err <==> exists|j: int|
            0 <= j < pre.listeners@.len() && (#[trigger] pre.listeners@[j]).open
                && pre.listeners@[j].path@ == path,
        r is Err ==> r->Err_0 == IpcError::AddrInUse && post == pre,
{
    lemma_has_bound_iff(pre, path);
}

/// Law (round trip): whatever byte sequence one end writes, the other
/// end reads back, byte for byte and in order.  After a write of `data`
/// into an empty connection, a read at the peer with capacity `|data|`
/// returns exactly `|data|` bytes, they are exactly `data`, and the
/// connection is drained.
pub proof fn lemma_round_trip(
    f0: Fabric,
    f1: Fabric,
    f2: Fabric,
    s: LocalStream,
    t: LocalStream,
    data: Seq<u8>,
    rw: Result<usize, IpcError>,
    rr: Result<usize, IpcError>,
)
    requires
        t.conn == s.conn,
        t.side == peer(s.side),
        (s.conn as int) < f0.conns@.len(),
        t.inbound(f0) == Seq::<u8>::empty(),
        write_transition(f0, f1, s, data, rw),
        rw is Ok,
        read_transition(f1, f2, t, data.len() as int, rr),
    ensures
        rr is Ok,
        rr->Ok_0 == data.len(),
        read_front(t.inbound(f1), data.len() as int) == data,
        t.inbound(f2) == Seq::<u8>::empty(),
{
    assert(peer(t.side) == s.side);
    assert(t.inbound(f1) == t.inbound(f0) + data);
    assert(t.inbound(f1) =~= data);
    assert(read_front(data, data.len() as int) =~= data);
    assert(t.inbound(f2) =~= Seq::<u8>::empty());
}

/// Law (order is kept): two writes on the same end put their bytes in
/// flight back to back, first write first.
pub proof fn lemma_writes_in_order(
    f0: Fabric,
    f1: Fabric,
    f2: Fabric,
    s: LocalStream,
    d1: Seq<u8>,
    d2: Seq<u8>,
    r1: Result<usize, IpcError>,
    r2: Result<usize, IpcError>,
)
    requires
        (s.conn as int) < f0.conns@.len(),
        write_transition(f0, f1, s, d1, r1),
        r1 is Ok,
        write_transition(f1, f2, s, d2, r2),
        r2 is Ok,
    ensures
        s.outbound(f2) == s.outbound(f0) + d1 + d2,
{
    assert(s.outbound(f2) =~= s.outbound(f0) + d1 + d2);
}

/// Law (no cross-talk): a step that touches only one connection leaves
/// every stream of every other connection exactly as it was — same bytes
/// in flight in both directions, same peer state, still well formed.
pub proof fn lemma_streams_independent(pre: Fabric, post: Fabric, c: int, t: LocalStream)
    requires
        Fabric::touches_only(pre, post, c),
        t.conn != c,
        (t.conn as int) < pre.conns@.len(),
    ensures
        t.inbound(post) == t.inbound(pre),
        t.outbound(post) == t.outbound(pre),
        t.peer_open(post) == t.peer_open(pre),
        t.wf(post) <==> t.wf(pre),
{
    assert(post.conns@[t.conn as int] == pre.conns@[t.conn as int]);
    assert(post.listeners@ =~= pre.listeners@);
    if pre.pending_contains(t.conn as int) {
        let (i, k): (int, int) = choose|i: int, k: int|
            0 <= i < pre.listeners@.len() && 0 <= k < pre.listeners@[i].pending@.len()
                && #[trigger] pre.listeners@[i].pending@[k] == t.conn as int;
        assert(post.listeners@[i].pending@[k] == t.conn as int);
    }
    if post.pending_contains(t.conn as int) {
        let (i, k): (int, int) = choose|i: int, k: int|
            0 <= i < post.listeners@.len() && 0 <= k < post.listeners@[i].pending@.len()
                && #[trigger] post.listeners@[i].pending@[k] == t.conn as int;
        assert(pre.listeners@[i].pending@[k] == t.conn as int);
    }
}

/// Law (accepted streams are independent): successive accepts on one
/// listener hand out distinct connections, so by the law of no
/// cross-talk each carries only the bytes exchanged with its own client.
pub proof fn lemma_accepts_distinct(
    f0: Fabric,
    f1: Fabric,
    f2: Fabric,
    l: LocalListener,
    r1: Result<LocalStream, IpcError>,
    r2: Result<LocalStream, IpcError>,
)
    requires
        f0.wf(),
        l.wf(f0),
        accept_transition(f0, f1, l, r1),
        r1 is Ok,
        accept_transition(f1, f2, l, r2),
        r2 is Ok,
    ensures
        r1->Ok_0.conn != r2->Ok_0.conn,
{
    let q = f0.listeners@[l.idx as int].pending@;
    assert(f1.listeners@[l.idx as int].pending@ == q.skip(1));
    assert(q.len() >= 2);
    assert(r2->Ok_0.conn == q.skip(1)[0]);
    assert(q.skip(1)[0] == q[1]);
    assert(q[0] != q[1]);
}

/// Law (end of stream): once the peer end is closed and nothing is left
/// in flight, a read yields zero bytes — it neither blocks nor fails —
/// and the connection stays drained.
pub proof fn lemma_eof_on_peer_close(
    pre: Fabric,
    post: Fabric,
    t: LocalStream,
    cap: int,
    r: Result<usize, IpcError>,
)
    requires
        (t.conn as int) < pre.conns@.len(),
        t.inbound(pre) == Seq::<u8>::empty(),
        !t.peer_open(pre),
        read_transition(pre, post, t, cap, r),
    ensures
        r is Ok,
        r->Ok_0 == 0,
        t.inbound(post) == Seq::<u8>::empty(),
{
    assert(t.inbound(post) =~= Seq::<u8>::empty());
}

} // verus!
