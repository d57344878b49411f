//! The heartbeat server's table of clients and when each was last heard.
//! Times are milliseconds on a monotonic clock.
use vstd::prelude::*;
use crate::strmap::StrMap;
use crate::text::views;

verus! {

/// Clients by address, with the time each was last heard.
pub struct ClientTable {
    last_seen: StrMap<u64>,
}

/// Milliseconds from `since` to `now`, zero when `now` is earlier.
pub open spec fn elapsed(now: u64, since: u64) -> u64 {
    if now >= since {
        (now - since) as u64
    } else {
        0
    }
}

impl ClientTable {
    pub closed spec fn view(&self) -> Map<Seq<char>, u64> {
        self.last_seen@
    }

    pub closed spec fn wf(&self) -> bool {
        self.last_seen.wf()
    }

    pub fn new() -> (res: Self)
        ensures
            res.wf(),
            res@ == Map::<Seq<char>, u64>::empty(),
    {
        ClientTable { last_seen: StrMap::new() }
    }

    /// A heartbeat from `addr` at `now`; returns whether the client is new.
    pub fn heartbeat(&mut self, addr: &str, now: u64) -> (res: bool)
        requires
            old(self).wf(),
        ensures
            final(self).wf(),
            res == !old(self)@.contains_key(addr@),
            final(self)@ == old(self)@.insert(addr@, now),
    {
        let is_new = self.last_seen.get(addr).is_none();
        self.last_seen.insert(addr.to_owned(), now);
        is_new
    }

    /// Drops the clients not heard for more than `timeout` milliseconds at
    /// `now`, and returns their addresses.
    pub fn expire(&mut self, now: u64, timeout: u64) -> (res: Vec<String>)
        requires
            old(self).wf(),
        ensures
            final(self).wf(),
            final(self)@ == old(self)@.restrict(
                old(self)@.dom().filter(|a: Seq<char>| elapsed(now, old(self)@[a]) <= timeout),
            ),
            forall|a: Seq<char>|
                #[trigger] views(res@).contains(a) <==> old(self)@.contains_key(a) && elapsed(
                    now,
                    old(self)@[a],
                ) > timeout,
    {
        let ghost before = self@;
        let ghost keys0 = self.last_seen.keys();
        proof {
            self.last_seen.lemma_entries();
        }
        let n = self.last_seen.len();
        let mut gone: Vec<String> = Vec::new();
        let mut i: usize = 0;
        while i < n
            invariant
                self.wf(),
                self@ == before,
                self.last_seen.keys() == keys0,
                n == keys0.len(),
                i <= n,
                forall|j: int| 0 <= j < n ==> #[trigger] before[keys0[j]] == self.last_seen.values()[j],
                forall|a: Seq<char>|
                    #[trigger] views(gone@).contains(a) <==> exists|j: int|
                        0 <= j < i && #[trigger] keys0[j] == a && elapsed(now, before[a]) > timeout,
            decreases n - i,
        {
            let ghost g0 = views(gone@);
            let last = *self.last_seen.value_at(i);
            let e = if now >= last {
                now - last
            } else {
                0
            };
            assert(last == before[keys0[i as int]]);
            if e > timeout {
                gone.push(self.last_seen.key_at(i).clone());
                assert(views(gone@) =~= g0.push(keys0[i as int]));
            } else {
                assert(views(gone@) =~= g0);
            }
            proof {
                let g = views(gone@);
                assert forall|a: Seq<char>| #[trigger] g.contains(a) <==> exists|j: int|
                    0 <= j < i + 1 && #[trigger] keys0[j] == a && elapsed(now, before[a]) > timeout by {
                    if g.contains(a) {
                        let q = choose|q: int| 0 <= q < g.len() && g[q] == a;
                        if q < g0.len() {
                            assert(g0[q] == a);
                            assert(g0.contains(a));
                        } else {
                            assert(keys0[i as int] == a);
                        }
                    }
                    if exists|j: int| 0 <= j < i + 1 && #[trigger] keys0[j] == a && elapsed(now, before[a]) > timeout {
                        let j = choose|j: int| 0 <= j < i + 1 && #[trigger] keys0[j] == a && elapsed(now, before[a]) > timeout;
                        if j < i {
                            assert(g0.contains(a));
                            let q = choose|q: int| 0 <= q < g0.len() && g0[q] == a;
                            assert(g[q] == a);
                        } else {
                            assert(g[g.len() - 1] == a);
                        }
                    }
                }
            }
            i = i + 1;
        }
        let ghost gv = views(gone@);
        let m = gone.len();
        let mut r: usize = 0;
        while r < m
            invariant
                self.wf(),
                m == gone@.len(),
                gv == views(gone@),
                r <= m,
                forall|a: Seq<char>|
                    #[trigger] self@.contains_key(a) <==> before.contains_key(a) && !gv.take(
                        r as int,
                    ).contains(a),
                forall|a: Seq<char>| #[trigger] self@.contains_key(a) ==> self@[a] == before[a],
            decreases m - r,
        {
            let ghost b4 = self@;
            self.last_seen.remove(gone[r].as_str());
            proof {
                let pre = gv.take(r as int);
                let post = gv.take(r + 1);
                assert forall|a: Seq<char>| #[trigger] self@.contains_key(a) <==> before.contains_key(a)
                    && !post.contains(a) by {
                    assert(self@.contains_key(a) == (b4.contains_key(a) && a != gv[r as int]));
                    if a == gv[r as int] {
                        assert(post[r as int] == a);
                    }
                    if post.contains(a) && !pre.contains(a) {
                        let q = choose|q: int| 0 <= q < post.len() && post[q] == a;
                        if q < r {
                            assert(pre[q] == a);
                        }
                    }
                    if pre.contains(a) {
                        let q = choose|q: int| 0 <= q < pre.len() && pre[q] == a;
                        assert(post[q] == a);
                    }
                }
            }
            r = r + 1;
        }
        proof {
            assert(gv.take(m as int) =~= gv);
            let target = before.restrict(before.dom().filter(|a: Seq<char>| elapsed(now, before[a]) <= timeout));
            assert forall|a: Seq<char>| #[trigger] views(gone@).contains(a) <==> before.contains_key(a) && elapsed(
                now,
                before[a],
            ) > timeout by {
                if before.contains_key(a) && elapsed(now, before[a]) > timeout {
                    assert(keys0.contains(a));
                    let j = choose|j: int| 0 <= j < keys0.len() && keys0[j] == a;
                }
                if views(gone@).contains(a) {
                    let j = choose|j: int| 0 <= j < n && #[trigger] keys0[j] == a && elapsed(now, before[a]) > timeout;
                    assert(before.contains_key(keys0[j]));
                }
            }
            assert(self@ =~= target);
        }
        gone
    }
}

} // verus!
