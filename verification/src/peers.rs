//! The table of running copies of the peer-discovery app: who announced
//! itself, at which address, and when it was last heard. Times are
//! milliseconds on a monotonic clock; identifiers are 128-bit.
use vstd::prelude::*;

verus! {

/// What a peer announces.
#[derive(Clone, Copy, Debug, PartialEq, Eq, Structural)]
pub enum MessageType {
    Started,
    Alive,
    Leaving,
}

/// An announcement from a peer.
#[derive(Clone, Copy, Debug)]
pub struct PeerMessage<A> {
    pub sender_id: u128,
    pub address: A,
    pub payload: MessageType,
}

/// What to send back after an announcement.
#[derive(Clone, Copy, Debug)]
pub enum PeerAction<A> {
    Nothing,
    /// Tell the peer at this address that this copy is alive.
    ReplyAlive(A),
}

/// A known peer.
#[derive(Clone, Copy, Debug)]
pub struct PeerInfo<A> {
    pub id: u128,
    pub addr: A,
    pub last_seen: u64,
}

/// Known peers in the order they were first heard, identifiers distinct.
pub struct PeerTable<A> {
    peers: Vec<PeerInfo<A>>,
}

/// Index of the peer `id` in `s` from `from` on, or `s.len()`.
pub open spec fn find_from<A>(s: Seq<PeerInfo<A>>, id: u128, from: int) -> int
    decreases s.len() - from,
{
    if from >= s.len() {
        s.len() as int
    } else if s[from].id == id {
        from
    } else {
        find_from(s, id, from + 1)
    }
}

/// The table after `id` is heard at `addr` at `now`: its entry is
/// refreshed in place, or added at the end.
pub open spec fn upsert<A>(s: Seq<PeerInfo<A>>, id: u128, addr: A, now: u64) -> Seq<PeerInfo<A>> {
    let i = find_from(s, id, 0);
    if i < s.len() {
        s.update(i, PeerInfo { id, addr, last_seen: now })
    } else {
        s.push(PeerInfo { id, addr, last_seen: now })
    }
}

/// The table without `id`.
pub open spec fn remove_id<A>(s: Seq<PeerInfo<A>>, id: u128) -> Seq<PeerInfo<A>> {
    let i = find_from(s, id, 0);
    if i < s.len() {
        s.remove(i)
    } else {
        s
    }
}

/// Milliseconds from `since` to `now`, zero when `now` is earlier.
pub open spec fn elapsed(now: u64, since: u64) -> u64 {
    if now >= since {
        (now - since) as u64
    } else {
        0
    }
}

/// The peers heard less than `timeout` ago, in order.
pub open spec fn still_alive<A>(s: Seq<PeerInfo<A>>, now: u64, timeout: u64) -> Seq<PeerInfo<A>>
    decreases s.len(),
{
    if s.len() == 0 {
        s
    } else {
        let prev = still_alive(s.drop_last(), now, timeout);
        if elapsed(now, s.last().last_seen) < timeout {
            prev.push(s.last())
        } else {
            prev
        }
    }
}

/// Identifiers are pairwise distinct.
pub open spec fn distinct_ids<A>(s: Seq<PeerInfo<A>>) -> bool {
    forall|i: int, j: int| 0 <= i < j < s.len() ==> #[trigger] s[i].id != #[trigger] s[j].id
}

proof fn lemma_find<A>(s: Seq<PeerInfo<A>>, id: u128, from: int)
    requires
        0 <= from <= s.len(),
    ensures
        from <= find_from(s, id, from) <= s.len(),
        find_from(s, id, from) < s.len() ==> s[find_from(s, id, from)].id == id,
        forall|k: int| from <= k < find_from(s, id, from) ==> s[k].id != id,
    decreases s.len() - from,
{
    if from < s.len() && s[from].id != id {
        lemma_find(s, id, from + 1);
    }
}

proof fn lemma_still_alive_sub<A>(s: Seq<PeerInfo<A>>, now: u64, timeout: u64)
    ensures
        forall|x: PeerInfo<A>| #[trigger] still_alive(s, now, timeout).contains(x) ==> s.contains(x),
        distinct_ids(s) ==> distinct_ids(still_alive(s, now, timeout)),
    decreases s.len(),
{
    if s.len() > 0 {
        let d = s.drop_last();
        lemma_still_alive_sub(d, now, timeout);
        let prev = still_alive(d, now, timeout);
        assert forall|x: PeerInfo<A>| still_alive(s, now, timeout).contains(x) implies s.contains(x) by {
            let r = still_alive(s, now, timeout);
            let q = choose|q: int| 0 <= q < r.len() && r[q] == x;
            if q < prev.len() {
                assert(prev[q] == x);
                assert(prev.contains(x));
                let k = choose|k: int| 0 <= k < d.len() && d[k] == x;
                assert(s[k] == x);
            } else {
                assert(s[s.len() - 1] == x);
            }
        }
        if distinct_ids(s) {
            assert(distinct_ids(d));
            let r = still_alive(s, now, timeout);
            if elapsed(now, s.last().last_seen) < timeout {
                assert forall|i: int, j: int| 0 <= i < j < r.len() implies #[trigger] r[i].id
                    != #[trigger] r[j].id by {
                    if j == r.len() - 1 {
                        assert(prev.contains(r[i]));
                        let k = choose|k: int| 0 <= k < d.len() && d[k] == r[i];
                        assert(s[k] == r[i]);
                        assert(r[j] == s[s.len() - 1]);
                    } else {
                        assert(r[i] == prev[i] && r[j] == prev[j]);
                    }
                }
            }
        }
    }
}

/// No peer in `s` has identifier `id`.
pub open spec fn excludes_id<A>(s: Seq<PeerInfo<A>>, id: u128) -> bool {
    forall|k: int| 0 <= k < s.len() ==> (#[trigger] s[k]).id != id
}

/// Law: recording a peer other than `id`, forgetting a peer, and dropping
/// the peers that timed out never bring `id` into a table that lacks it;
/// so a copy never lists itself among its peers.
pub proof fn lemma_excluded_id_stays_out<A>(
    s: Seq<PeerInfo<A>>,
    id: u128,
    other: u128,
    addr: A,
    now: u64,
    timeout: u64,
)
    requires
        excludes_id(s, id),
        other != id,
    ensures
        excludes_id(upsert(s, other, addr, now), id),
        excludes_id(remove_id(s, other), id),
        excludes_id(still_alive(s, now, timeout), id),
{
    lemma_find(s, other, 0);
    let r = remove_id(s, other);
    let i = find_from(s, other, 0);
    if i < s.len() {
        assert forall|k: int| 0 <= k < r.len() implies (#[trigger] r[k]).id != id by {
            if k < i {
                assert(r[k] == s[k]);
            } else {
                assert(r[k] == s[k + 1]);
            }
        }
    }
    lemma_still_alive_sub(s, now, timeout);
    let a = still_alive(s, now, timeout);
    assert forall|k: int| 0 <= k < a.len() implies (#[trigger] a[k]).id != id by {
        assert(a.contains(a[k]));
        assert(s.contains(a[k]));
    }
}

impl<A: Copy> PeerTable<A> {
    pub closed spec fn view(&self) -> Seq<PeerInfo<A>> {
        self.peers@
    }

    pub open spec fn wf(&self) -> bool {
        distinct_ids(self@)
    }

    pub fn new() -> (res: Self)
        ensures
            res@ == Seq::<PeerInfo<A>>::empty(),
            res.wf(),
            forall|id: u128| #[trigger] excludes_id(res@, id),
    {
        PeerTable { peers: Vec::new() }
    }

    fn find(&self, id: u128) -> (res: usize)
        ensures
            res == find_from(self@, id, 0),
            res <= self@.len(),
    {
        proof {
            lemma_find(self@, id, 0);
        }
        let n = self.peers.len();
        let mut i: usize = 0;
        while i < n && self.peers[i].id != id
            invariant
                i <= n,
                n == self@.len(),
                find_from(self@, id, i as int) == find_from(self@, id, 0),
            decreases n - i,
        {
            i = i + 1;
        }
        i
    }

    /// Handles an announcement heard at `now` by the copy `my_id`: its own
    /// announcements are ignored; a start or an alive message records the
    /// sender (and a start is answered); a leave forgets it.
    pub fn handle_message(&mut self, my_id: u128, msg: PeerMessage<A>, now: u64) -> (res: PeerAction<A>)
        requires
            old(self).wf(),
        ensures
            final(self).wf(),
            msg.sender_id == my_id ==> final(self)@ == old(self)@ && res is Nothing,
            msg.sender_id != my_id && msg.payload != MessageType::Leaving ==> final(self)@ == upsert(
                old(self)@,
                msg.sender_id,
                msg.address,
                now,
            ),
            msg.sender_id != my_id && msg.payload == MessageType::Started ==> res == PeerAction::<
                A,
            >::ReplyAlive(msg.address),
            msg.sender_id != my_id && msg.payload == MessageType::Alive ==> res is Nothing,
            msg.sender_id != my_id && msg.payload == MessageType::Leaving ==> final(self)@
                == remove_id(old(self)@, msg.sender_id) && res is Nothing,
            excludes_id(old(self)@, my_id) ==> excludes_id(final(self)@, my_id),
    {
        proof {
            if excludes_id(self@, my_id) && msg.sender_id != my_id {
                lemma_excluded_id_stays_out(self@, my_id, msg.sender_id, msg.address, now, 0);
            }
        }
        if msg.sender_id == my_id {
            return PeerAction::Nothing;
        }
        let i = self.find(msg.sender_id);
        proof {
            lemma_find(self@, msg.sender_id, 0);
        }
        match msg.payload {
            MessageType::Started | MessageType::Alive => {
                let info = PeerInfo { id: msg.sender_id, addr: msg.address, last_seen: now };
                if i < self.peers.len() {
                    self.peers.set(i, info);
                } else {
                    self.peers.push(info);
                }
                assert(self.wf()) by {
                    let s = self@;
                    assert forall|a: int, b: int| 0 <= a < b < s.len() implies #[trigger] s[a].id
                        != #[trigger] s[b].id by {
                        if a == i as int || b == i as int {
                            let o = if a == i as int { b } else { a };
                            assert(old(self)@[o].id != msg.sender_id);
                        } else {
                            assert(s[a] == old(self)@[a] && s[b] == old(self)@[b]);
                        }
                    }
                }
                match msg.payload {
                    MessageType::Started => PeerAction::ReplyAlive(msg.address),
                    _ => PeerAction::Nothing,
                }
            },
            MessageType::Leaving => {
                if i < self.peers.len() {
                    self.peers.remove(i);
                    assert(self.wf()) by {
                        let s = self@;
                        let o = old(self)@;
                        assert forall|a: int, b: int| 0 <= a < b < s.len() implies #[trigger] s[a].id
                            != #[trigger] s[b].id by {
                            let a2 = if a < i { a } else { a + 1 };
                            let b2 = if b < i { b } else { b + 1 };
                            assert(s[a] == o[a2] && s[b] == o[b2]);
                        }
                    }
                }
                PeerAction::Nothing
            },
        }
    }

    /// Forgets the peers not heard for `timeout` milliseconds or more.
    pub fn expire(&mut self, now: u64, timeout: u64)
        requires
            old(self).wf(),
        ensures
            final(self).wf(),
            final(self)@ == still_alive(old(self)@, now, timeout),
            forall|id: u128| excludes_id(old(self)@, id) ==> #[trigger] excludes_id(final(self)@, id),
    {
        proof {
            assert forall|id: u128| excludes_id(self@, id) implies #[trigger] excludes_id(
                still_alive(self@, now, timeout),
                id,
            ) by {
                lemma_still_alive_sub(self@, now, timeout);
                let a = still_alive(self@, now, timeout);
                assert forall|k: int| 0 <= k < a.len() implies (#[trigger] a[k]).id != id by {
                    assert(a.contains(a[k]));
                    assert(self@.contains(a[k]));
                }
            }
        }
        let ghost s = self@;
        let n = self.peers.len();
        let mut kept: Vec<PeerInfo<A>> = Vec::new();
        let mut i: usize = 0;
        while i < n
            invariant
                i <= n,
                n == s.len(),
                self@ == s,
                kept@ == still_alive(s.take(i as int), now, timeout),
            decreases n - i,
        {
            let p = self.peers[i];
            assert(s.take(i + 1).drop_last() =~= s.take(i as int));
            let e = if now >= p.last_seen {
                now - p.last_seen
            } else {
                0
            };
            if e < timeout {
                kept.push(p);
            }
            i = i + 1;
        }
        assert(s.take(n as int) =~= s);
        self.peers = kept;
        proof {
            lemma_still_alive_sub(s, now, timeout);
        }
    }

    /// The identifiers and addresses of the known peers, by increasing
    /// identifier.
    pub fn sorted_peers(&self) -> (res: Vec<(u128, A)>)
        requires
            self.wf(),
        ensures
            res@.len() == self@.len(),
            forall|i: int, j: int| 0 <= i < j < res@.len() ==> #[trigger] res@[i].0 < #[trigger] res@[j].0,
            forall|x: (u128, A)| #[trigger] res@.contains(x) <==> exists|k: int|
                0 <= k < self@.len() && x == (#[trigger] self@[k].id, self@[k].addr),
    {
        let n = self.peers.len();
        let mut out: Vec<(u128, A)> = Vec::new();
        let mut i: usize = 0;
        while i < n
            invariant
                i <= n,
                n == self@.len(),
                self.wf(),
                out@.len() == i,
                forall|a: int, b: int| 0 <= a < b < out@.len() ==> #[trigger] out@[a].0 < #[trigger] out@[b].0,
                forall|x: (u128, A)| #[trigger] out@.contains(x) <==> exists|k: int|
                    0 <= k < i && x == (#[trigger] self@[k].id, self@[k].addr),
            decreases n - i,
        {
            let p = self.peers[i];
            let item = (p.id, p.addr);
            let mut pos: usize = 0;
            while pos < out.len() && out[pos].0 < p.id
                invariant
                    pos <= out@.len(),
                    forall|a: int| 0 <= a < pos ==> #[trigger] out@[a].0 < p.id,
                decreases out@.len() - pos,
            {
                pos = pos + 1;
            }
            let ghost before = out@;
            proof {
                // the new identifier differs from all those already placed
                assert forall|a: int| 0 <= a < before.len() implies #[trigger] before[a].0 != p.id by {
                    assert(before.contains(before[a]));
                    let k = choose|k: int| 0 <= k < i && before[a] == (#[trigger] self@[k].id, self@[k].addr);
                    assert(self@[k].id != self@[i as int].id);
                }
            }
            out.insert(pos, item);
            proof {
                let after = out@;
                assert(after == before.insert(pos as int, item));
                assert forall|a: int, b: int| 0 <= a < b < after.len() implies #[trigger] after[a].0
                    < #[trigger] after[b].0 by {
                    if a < pos && b < pos {
                        assert(after[a] == before[a] && after[b] == before[b]);
                    } else if a < pos && b == pos {
                        assert(after[a] == before[a]);
                    } else if a < pos && b > pos {
                        assert(after[a] == before[a] && after[b] == before[b - 1]);
                        assert(before[a].0 < before[b - 1].0 || a == b - 1);
                    } else if a == pos {
                        assert(after[b] == before[b - 1]);
                        assert(before[b - 1].0 != p.id);
                        if pos < before.len() {
                            assert(!(before[pos as int].0 < p.id));
                            if b - 1 > pos {
                                assert(before[pos as int].0 < before[b - 1].0);
                            }
                        }
                    } else {
                        assert(after[a] == before[a - 1] && after[b] == before[b - 1]);
                    }
                }
                assert forall|x: (u128, A)| #[trigger] after.contains(x) <==> exists|k: int|
                    0 <= k < i + 1 && x == (#[trigger] self@[k].id, self@[k].addr) by {
                    if after.contains(x) {
                        let q = choose|q: int| 0 <= q < after.len() && after[q] == x;
                        if q == pos {
                            assert(x == (self@[i as int].id, self@[i as int].addr));
                        } else {
                            let q2 = if q < pos { q } else { q - 1 };
                            assert(before[q2] == x);
                            assert(before.contains(x));
                        }
                    }
                    if exists|k: int| 0 <= k < i + 1 && x == (#[trigger] self@[k].id, self@[k].addr) {
                        let k = choose|k: int| 0 <= k < i + 1 && x == (#[trigger] self@[k].id, self@[k].addr);
                        if k == i {
                            assert(after[pos as int] == x);
                        } else {
                            assert(before.contains(x));
                            let q = choose|q: int| 0 <= q < before.len() && before[q] == x;
                            let q2 = if q < pos { q } else { q + 1 };
                            assert(after[q2] == x);
                        }
                    }
                }
            }
            i = i + 1;
        }
        out
    }
}

/// Law: after a peer `id` is heard at `addr` at `now`, the table holds
/// exactly one entry for it, with that address and last heard at `now`,
/// and every other peer's entry as before.
pub proof fn lemma_heard_peer_is_refreshed<A>(s: Seq<PeerInfo<A>>, id: u128, addr: A, now: u64)
    requires
        distinct_ids(s),
    ensures
        forall|x: PeerInfo<A>|
            #[trigger] upsert(s, id, addr, now).contains(x) <==> (x == PeerInfo { id, addr, last_seen: now }
                || (s.contains(x) && x.id != id)),
        distinct_ids(upsert(s, id, addr, now)),
{
    lemma_find(s, id, 0);
    let i = find_from(s, id, 0);
    let r = upsert(s, id, addr, now);
    let fresh = PeerInfo { id, addr, last_seen: now };
    assert forall|x: PeerInfo<A>| #[trigger] r.contains(x) <==> (x == fresh || (s.contains(x) && x.id != id)) by {
        if r.contains(x) {
            let k = choose|k: int| 0 <= k < r.len() && r[k] == x;
            if i < s.len() {
                if k != i {
                    assert(r[k] == s[k]);
                    if k < i {
                        assert(s[k].id != s[i].id);
                    } else {
                        assert(s[i].id != s[k].id);
                    }
                }
            } else if k < s.len() {
                assert(r[k] == s[k]);
            }
        }
        if x == fresh {
            if i < s.len() {
                assert(r[i] == fresh);
            } else {
                assert(r[s.len() as int] == fresh);
            }
        }
        if s.contains(x) && x.id != id {
            let k = choose|k: int| 0 <= k < s.len() && s[k] == x;
            if i < s.len() {
                assert(k != i);
                assert(r[k] == x);
            } else {
                assert(r[k] == x);
            }
        }
    }
    assert forall|a: int, b: int| 0 <= a < b < r.len() implies #[trigger] r[a].id != #[trigger] r[b].id by {
        if i < s.len() {
            if a == i {
                assert(s[i].id != s[b].id);
            } else if b == i {
                assert(s[a].id != s[i].id);
            }
        }
    }
}

} // verus!
