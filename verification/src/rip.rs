//! Routing table of a RIP-style router: routes learnt from neighbours'
//! responses, timed out to an infinite metric and then flushed. Time is
//! given by the caller as milliseconds on a monotonic clock.
use vstd::prelude::*;
use crate::strmap::StrMap;
use crate::text::{str_eq, views, pad_right, decimal, push_str, push_char, push_padded, push_decimal};
use crate::listing::{sorted_listing, sort_strings};

verus! {

/// The metric that stands for "unreachable".
pub const MAX_DISTANCE: u32 = 16;

/// Milliseconds without refresh after which a route becomes unreachable.
pub const INVALID_TIMEOUT_MS: u64 = 6000;

/// Milliseconds without refresh after which an unreachable route is removed.
pub const FLUSH_TIMEOUT_MS: u64 = 10000;

/// Milliseconds without table change after which the router stops.
pub const IDLE_TIMEOUT_MS: u64 = 30000;

/// Milliseconds between two unsolicited responses.
pub const UPDATE_INTERVAL_MS: u64 = 2000;

/// One destination with its metric, as carried in a response.
#[derive(Debug, Clone)]
pub struct RipEntry {
    pub destination: String,
    pub distance: u32,
}

/// A route: next hop, metric, time of the last refresh, and whether it has
/// been declared unreachable.
#[derive(Debug, Clone)]
pub struct RouteRecord {
    pub next_hop: String,
    pub distance: u32,
    pub last_updated: u64,
    pub is_invalid: bool,
}

/// A route as plain values.
pub struct RouteModel {
    pub next_hop: Seq<char>,
    pub distance: u32,
    pub last_updated: u64,
    pub is_invalid: bool,
}

impl RouteRecord {
    pub open spec fn model(&self) -> RouteModel {
        RouteModel {
            next_hop: self.next_hop@,
            distance: self.distance,
            last_updated: self.last_updated,
            is_invalid: self.is_invalid,
        }
    }
}

pub type Table = Map<Seq<char>, RouteModel>;

/// The table after a route to `dest` through `next_hop` with metric
/// `distance` is heard at time `now`, and whether a metric or next hop
/// changed. A route through the same next hop is refreshed and takes the
/// new metric; a route through another hop replaces it only when strictly
/// better; an unknown destination is added only when reachable.
pub open spec fn route_update(
    table: Table,
    dest: Seq<char>,
    next_hop: Seq<char>,
    distance: u32,
    now: u64,
) -> (Table, bool) {
    if table.contains_key(dest) {
        let r = table[dest];
        if r.next_hop == next_hop {
            (
                table.insert(
                    dest,
                    RouteModel {
                        next_hop: r.next_hop,
                        distance,
                        last_updated: now,
                        is_invalid: distance >= MAX_DISTANCE,
                    },
                ),
                r.distance != distance,
            )
        } else if distance < r.distance {
            (
                table.insert(
                    dest,
                    RouteModel {
                        next_hop,
                        distance,
                        last_updated: now,
                        is_invalid: distance >= MAX_DISTANCE,
                    },
                ),
                true,
            )
        } else {
            (table, false)
        }
    } else if distance < MAX_DISTANCE {
        (
            table.insert(dest, RouteModel { next_hop, distance, last_updated: now, is_invalid: false }),
            true,
        )
    } else {
        (table, false)
    }
}

/// The metric of a route learnt through a link of cost `cost`: the
/// advertised metric plus the cost, capped at `MAX_DISTANCE`.
pub open spec fn learnt_metric(advertised: u32, cost: u32) -> u32 {
    if advertised + cost < MAX_DISTANCE {
        (advertised + cost) as u32
    } else {
        MAX_DISTANCE
    }
}

/// The table after the entries of a response from `sender` (a neighbour
/// reached at cost `cost`) are heard in order, skipping entries about the
/// router `id` itself, and whether anything changed.
pub open spec fn apply_response(
    table: Table,
    id: Seq<char>,
    sender: Seq<char>,
    cost: u32,
    entries: Seq<(Seq<char>, u32)>,
    now: u64,
) -> (Table, bool)
    decreases entries.len(),
{
    if entries.len() == 0 {
        (table, false)
    } else {
        let (t, c) = apply_response(table, id, sender, cost, entries.drop_last(), now);
        let (dest, dist) = entries.last();
        if dest == id {
            (t, c)
        } else {
            let (t2, c2) = route_update(t, dest, sender, learnt_metric(dist, cost), now);
            (t2, c || c2)
        }
    }
}

/// Milliseconds from `since` to `now`, zero when `now` is earlier.
pub open spec fn elapsed(now: u64, since: u64) -> u64 {
    if now >= since {
        (now - since) as u64
    } else {
        0
    }
}

/// Whether the route times out now: it is still valid and was not
/// refreshed for `INVALID_TIMEOUT_MS`.
pub open spec fn times_out(r: RouteModel, now: u64) -> bool {
    !r.is_invalid && elapsed(now, r.last_updated) >= INVALID_TIMEOUT_MS
}

/// The route after a timeout check: unreachable once timed out.
pub open spec fn after_timeout(r: RouteModel, now: u64) -> RouteModel {
    if times_out(r, now) {
        RouteModel { distance: MAX_DISTANCE, is_invalid: true, ..r }
    } else {
        r
    }
}

/// Whether the route is flushed now: unreachable (possibly just now) and
/// not refreshed for `FLUSH_TIMEOUT_MS`.
pub open spec fn flushed(r: RouteModel, now: u64) -> bool {
    after_timeout(r, now).is_invalid && elapsed(now, r.last_updated) >= FLUSH_TIMEOUT_MS
}

/// The table after the timeout check at `now`; the route to `id` itself is
/// never touched.
pub open spec fn expire_table(table: Table, id: Seq<char>, now: u64) -> Table {
    Map::new(
        |k: Seq<char>| table.contains_key(k) && (k == id || !flushed(table[k], now)),
        |k: Seq<char>|
            if k == id {
                table[k]
            } else {
                after_timeout(table[k], now)
            },
    )
}

/// Whether the timeout check at `now` changes the table.
pub open spec fn expire_changes(table: Table, id: Seq<char>, now: u64) -> bool {
    exists|k: Seq<char>|
        #![trigger table[k]]
        table.contains_key(k) && k != id && (times_out(table[k], now) || flushed(table[k], now))
}

/// Every metric is at most `MAX_DISTANCE`, and a route is marked
/// unreachable exactly when its metric is `MAX_DISTANCE`.
pub open spec fn metrics_consistent(table: Table) -> bool {
    forall|k: Seq<char>|
        #[trigger] table.contains_key(k) ==> table[k].distance <= MAX_DISTANCE && (table[k].is_invalid
            <==> table[k].distance == MAX_DISTANCE)
}

/// One line of the printed table: source, destination, next hop and
/// metric, left-aligned in columns of 18, 20, 18 and 8 characters.
pub open spec fn table_row(id: Seq<char>, dest: Seq<char>, next_hop: Seq<char>, distance: u32) -> Seq<
    char,
> {
    pad_right(id, 18) + seq![' '] + pad_right(dest, 20) + seq![' '] + pad_right(next_hop, 18) + seq![' ']
        + pad_right(decimal(distance as nat), 8) + seq!['\n']
}

/// The column titles of the printed table.
pub open spec fn table_header() -> Seq<char> {
    pad_right("[Source IP]"@, 18) + seq![' '] + pad_right("[Destination IP]"@, 20) + seq![' ']
        + pad_right("[Next Hop]"@, 18) + seq![' '] + pad_right("[Metric]"@, 8) + seq!['\n']
}

/// The rows for the destinations `dests`, in that order.
pub open spec fn table_rows(id: Seq<char>, dests: Seq<Seq<char>>, table: Table) -> Seq<char>
    decreases dests.len(),
{
    if dests.len() == 0 {
        Seq::empty()
    } else {
        table_rows(id, dests.drop_last(), table) + table_row(
            id,
            dests.last(),
            table[dests.last()].next_hop,
            table[dests.last()].distance,
        )
    }
}

/// The printed table: a title naming `label` and the router, the column
/// titles, and one row per destination in code-point order.
pub open spec fn table_text(label: Seq<char>, id: Seq<char>, table: Table) -> Seq<char> {
    label + " of router "@ + id + " table"@ + seq!['\n'] + table_header() + table_rows(
        id,
        sorted_listing(table.dom()),
        table,
    )
}

/// The label of the table printed after the `step`-th change.
pub open spec fn step_label(step: u64) -> Seq<char> {
    "Simulation step "@ + decimal(step as nat)
}

pub struct Router {
    id: String,
    neighbors: StrMap<u32>,
    table: StrMap<RouteRecord>,
}

fn elapsed_ms(now: u64, since: u64) -> (res: u64)
    ensures
        res == elapsed(now, since),
{
    if now >= since {
        now - since
    } else {
        0
    }
}

impl Router {
    pub closed spec fn router_id(&self) -> Seq<char> {
        self.id@
    }

    /// The cost of the link to each neighbour.
    pub closed spec fn links(&self) -> Map<Seq<char>, u32> {
        self.neighbors@
    }

    /// The neighbours in the order given.
    pub closed spec fn neighbor_seq(&self) -> Seq<Seq<char>> {
        self.neighbors.keys()
    }

    /// The routing table.
    pub closed spec fn routes(&self) -> Table {
        Map::new(|k: Seq<char>| self.table@.contains_key(k), |k: Seq<char>| self.table@[k].model())
    }

    /// The destinations in table order.
    pub closed spec fn destinations(&self) -> Seq<Seq<char>> {
        self.table.keys()
    }

    pub closed spec fn wf(&self) -> bool {
        self.neighbors.wf() && self.table.wf()
    }

    /// A router that knows only the route to itself, refreshed at `now`.
    pub fn new(id: String, neighbors: StrMap<u32>, now: u64) -> (res: Self)
        requires
            neighbors.wf(),
        ensures
            res.wf(),
            res.router_id() == id@,
            res.links() == neighbors@,
            res.routes() == Map::<Seq<char>, RouteModel>::empty().insert(
                id@,
                RouteModel { next_hop: id@, distance: 0, last_updated: now, is_invalid: false },
            ),
    {
        let mut table = StrMap::new();
        let record = RouteRecord { next_hop: id.clone(), distance: 0, last_updated: now, is_invalid: false };
        table.insert(id.clone(), record);
        let res = Router { id, neighbors, table };
        assert(res.routes() =~= Map::<Seq<char>, RouteModel>::empty().insert(
            res.id@,
            RouteModel { next_hop: res.id@, distance: 0, last_updated: now, is_invalid: false },
        ));
        res
    }

    pub fn id(&self) -> (res: &String)
        ensures
            res@ == self.router_id(),
    {
        &self.id
    }

    pub fn neighbors(&self) -> (res: &StrMap<u32>)
        requires
            self.wf(),
        ensures
            res@ == self.links(),
            res.keys() == self.neighbor_seq(),
            res.wf(),
    {
        &self.neighbors
    }

    /// Hears a route to `dest` through `next_hop` with metric `distance` at
    /// time `now`; returns whether a metric or next hop changed.
    pub fn update_route(&mut self, dest: &str, next_hop: &str, distance: u32, now: u64) -> (res: bool)
        requires
            old(self).wf(),
        ensures
            final(self).wf(),
            final(self).router_id() == old(self).router_id(),
            final(self).links() == old(self).links(),
            (final(self).routes(), res) == route_update(
                old(self).routes(),
                dest@,
                next_hop@,
                distance,
                now,
            ),
    {
        let ghost before = self.routes();
        let mut changed = false;
        match self.table.find(dest) {
            Some(i) => {
                proof {
                    self.table.lemma_entries();
                }
                let record = self.table.value_at(i);
                if str_eq(record.next_hop.as_str(), next_hop) {
                    if record.distance != distance {
                        changed = true;
                    }
                    let updated = RouteRecord {
                        next_hop: record.next_hop.clone(),
                        distance,
                        last_updated: now,
                        is_invalid: distance >= MAX_DISTANCE,
                    };
                    self.table.set_value_at(i, updated);
                } else if distance < record.distance {
                    let updated = RouteRecord {
                        next_hop: next_hop.to_owned(),
                        distance,
                        last_updated: now,
                        is_invalid: distance >= MAX_DISTANCE,
                    };
                    self.table.set_value_at(i, updated);
                    changed = true;
                }
            },
            None => {
                if distance < MAX_DISTANCE {
                    self.table.insert(
                        dest.to_owned(),
                        RouteRecord {
                            next_hop: next_hop.to_owned(),
                            distance,
                            last_updated: now,
                            is_invalid: false,
                        },
                    );
                    changed = true;
                }
            },
        }
        assert(self.routes() =~= route_update(before, dest@, next_hop@, distance, now).0);
        changed
    }

    /// Hears a response from `sender` at `now`. Nothing happens unless the
    /// sender is a neighbour; then each entry not about this router is
    /// heard through the sender at the advertised metric plus the link
    /// cost, capped at `MAX_DISTANCE`. Returns whether the table changed.
    pub fn handle_response(&mut self, sender: &str, entries: &[RipEntry], now: u64) -> (res: bool)
        requires
            old(self).wf(),
            old(self).links().contains_key(sender@) ==> forall|i: int|
                0 <= i < entries@.len() && entries@[i].destination@ != old(self).router_id()
                    ==> #[trigger] entries@[i].distance + old(self).links()[sender@] <= u32::MAX,
        ensures
            final(self).wf(),
            final(self).router_id() == old(self).router_id(),
            final(self).links() == old(self).links(),
            old(self).links().contains_key(sender@) ==> (final(self).routes(), res)
                == apply_response(
                old(self).routes(),
                old(self).router_id(),
                sender@,
                old(self).links()[sender@],
                entries@.map_values(|e: RipEntry| (e.destination@, e.distance)),
                now,
            ),
            !old(self).links().contains_key(sender@) ==> final(self).routes() == old(
                self,
            ).routes() && !res,
    {
        let cost = match self.neighbors.get(sender) {
            Some(c) => *c,
            None => {
                return false;
            },
        };
        let ghost view = entries@.map_values(|e: RipEntry| (e.destination@, e.distance));
        let ghost t0 = self.routes();
        let ghost id = self.router_id();
        let ghost links = self.links();
        let mut changed = false;
        let n = entries.len();
        let mut i: usize = 0;
        while i < n
            invariant
                self.wf(),
                n == entries@.len(),
                i <= n,
                self.router_id() == id,
                self.links() == links,
                links.contains_key(sender@),
                cost == links[sender@],
                forall|j: int|
                    0 <= j < entries@.len() && entries@[j].destination@ != id
                        ==> #[trigger] entries@[j].distance + cost <= u32::MAX,
                view == entries@.map_values(|e: RipEntry| (e.destination@, e.distance)),
                (self.routes(), changed) == apply_response(t0, id, sender@, cost, view.take(i as int), now),
            decreases n - i,
        {
            let entry = &entries[i];
            assert(view.take(i + 1).drop_last() =~= view.take(i as int));
            assert(view[i as int] == (entry.destination@, entry.distance));
            if !str_eq(entry.destination.as_str(), self.id.as_str()) {
                let sum = entry.distance + cost;
                let new_distance = if sum < MAX_DISTANCE {
                    sum
                } else {
                    MAX_DISTANCE
                };
                if self.update_route(entry.destination.as_str(), sender, new_distance, now) {
                    changed = true;
                }
            }
            i = i + 1;
        }
        assert(view.take(n as int) =~= view);
        changed
    }

    /// The timeout check at `now`: routes (other than the one to the
    /// router itself) not refreshed for `INVALID_TIMEOUT_MS` become
    /// unreachable, and unreachable routes not refreshed for
    /// `FLUSH_TIMEOUT_MS` are removed. Returns whether the table changed.
    pub fn expire(&mut self, now: u64) -> (res: bool)
        requires
            old(self).wf(),
        ensures
            final(self).wf(),
            final(self).router_id() == old(self).router_id(),
            final(self).links() == old(self).links(),
            final(self).routes() == expire_table(old(self).routes(), old(self).router_id(), now),
            res == expire_changes(old(self).routes(), old(self).router_id(), now),
    {
        let ghost t0 = self.routes();
        let ghost keys0 = self.table.keys();
        let ghost vals0 = self.table.values();
        let ghost id = self.router_id();
        proof {
            self.table.lemma_entries();
            assert forall|k: Seq<char>| #[trigger] t0.contains_key(k) <==> keys0.contains(k) by {}
            assert forall|j: int| 0 <= j < keys0.len() implies #[trigger] t0[keys0[j]] == vals0[j].model() by {}
        }
        let n = self.table.len();
        let mut changed = false;
        let mut to_remove: Vec<String> = Vec::new();
        let mut i: usize = 0;
        while i < n
            invariant
                self.wf(),
                self.router_id() == id,
                self.links() == old(self).links(),
                n == keys0.len(),
                vals0.len() == n,
                i <= n,
                self.table.keys() == keys0,
                self.table.values().len() == n,
                forall|a: int, b: int| 0 <= a < b < n ==> #[trigger] keys0[a] != #[trigger] keys0[b],
                forall|j: int|
                    0 <= j < n ==> #[trigger] self.table.values()[j].model() == if j < i && keys0[j]
                        != id {
                        after_timeout(vals0[j].model(), now)
                    } else {
                        vals0[j].model()
                    },
                forall|s: Seq<char>|
                    #[trigger] views(to_remove@).contains(s) <==> exists|j: int|
                        0 <= j < i && #[trigger] keys0[j] == s && s != id && flushed(vals0[j].model(), now),
                changed <==> exists|j: int|
                    0 <= j < i && keys0[j] != id && (times_out(#[trigger] vals0[j].model(), now)
                        || flushed(vals0[j].model(), now)),
            decreases n - i,
        {
            let ghost rm_before = views(to_remove@);
            let ghost vi = vals0[i as int].model();
            let ghost flush_here = keys0[i as int] != id && flushed(vi, now);
            let is_self = str_eq(self.table.key_at(i).as_str(), self.id.as_str());
            if !is_self {
                let record = self.table.value_at(i);
                assert(record.model() == vi);
                let e = elapsed_ms(now, record.last_updated);
                let mut invalid = record.is_invalid;
                if !record.is_invalid && e >= INVALID_TIMEOUT_MS {
                    let updated = RouteRecord {
                        next_hop: record.next_hop.clone(),
                        distance: MAX_DISTANCE,
                        last_updated: record.last_updated,
                        is_invalid: true,
                    };
                    self.table.set_value_at(i, updated);
                    invalid = true;
                    changed = true;
                }
                assert(invalid == after_timeout(vi, now).is_invalid);
                if invalid && e >= FLUSH_TIMEOUT_MS {
                    let key = self.table.key_at(i).clone();
                    to_remove.push(key);
                    changed = true;
                    assert(views(to_remove@) =~= rm_before.push(keys0[i as int]));
                } else {
                    assert(views(to_remove@) =~= rm_before);
                }
            } else {
                assert(views(to_remove@) =~= rm_before);
            }
            proof {
                let rm = views(to_remove@);
                assert(flush_here ==> rm == rm_before.push(keys0[i as int]));
                assert(!flush_here ==> rm == rm_before);
                assert forall|s: Seq<char>|
                    rm.contains(s) <==> exists|j: int|
                        0 <= j < i + 1 && #[trigger] keys0[j] == s && s != id && flushed(
                            vals0[j].model(),
                            now,
                        ) by {
                    if rm.contains(s) {
                        let q = choose|q: int| 0 <= q < rm.len() && rm[q] == s;
                        if q < rm_before.len() {
                            assert(rm_before[q] == s);
                            assert(rm_before.contains(s));
                        } else {
                            assert(keys0[i as int] == s);
                        }
                    }
                    if exists|j: int|
                        0 <= j < i + 1 && #[trigger] keys0[j] == s && s != id && flushed(
                            vals0[j].model(),
                            now,
                        ) {
                        let j = choose|j: int|
                            0 <= j < i + 1 && #[trigger] keys0[j] == s && s != id && flushed(
                                vals0[j].model(),
                                now,
                            );
                        if j < i {
                            assert(rm_before.contains(s));
                            let q = choose|q: int| 0 <= q < rm_before.len() && rm_before[q] == s;
                            assert(rm[q] == s);
                        } else {
                            assert(rm[rm.len() - 1] == s);
                        }
                    }
                }
            }
            i = i + 1;
        }
        let ghost mid = self.routes();
        proof {
            self.table.lemma_entries();
            assert forall|j: int| 0 <= j < n implies #[trigger] mid[keys0[j]] == if keys0[j] != id {
                after_timeout(vals0[j].model(), now)
            } else {
                vals0[j].model()
            } by {
                assert(self.table.keys()[j] == keys0[j]);
            }
            assert forall|k: Seq<char>| #[trigger] mid.contains_key(k) <==> t0.contains_key(k) by {
                assert(mid.contains_key(k) == keys0.contains(k));
            }
        }
        let ghost removed = views(to_remove@);
        let m = to_remove.len();
        let mut r: usize = 0;
        while r < m
            invariant
                self.wf(),
                self.router_id() == id,
                self.links() == old(self).links(),
                m == to_remove@.len(),
                removed == views(to_remove@),
                r <= m,
                forall|k: Seq<char>|
                    #[trigger] self.routes().contains_key(k) <==> mid.contains_key(k)
                        && !removed.take(r as int).contains(k),
                forall|k: Seq<char>| #[trigger]
                    self.routes().contains_key(k) ==> self.routes()[k] == mid[k],
            decreases m - r,
        {
            let ghost before = self.routes();
            let ghost tb = self.table@;
            self.table.remove(to_remove[r].as_str());
            proof {
                assert(self.table@ == tb.remove(removed[r as int]));
                assert forall|k: Seq<char>| #[trigger] self.routes().contains_key(k) implies self.routes()[k]
                    == mid[k] by {
                    assert(self.table@[k] == tb[k]);
                    assert(before.contains_key(k));
                }
                assert(removed.take(r + 1) =~= removed.take(r as int).push(removed[r as int]));
                assert forall|k: Seq<char>| #[trigger] self.routes().contains_key(k) <==> mid.contains_key(
                    k,
                ) && !removed.take(r + 1).contains(k) by {
                    let pre = removed.take(r as int);
                    let post = removed.take(r + 1);
                    assert(self.routes().contains_key(k) == (before.contains_key(k) && k != removed[r as int]));
                    if k == removed[r as int] {
                        assert(post[r as int] == k);
                    }
                    if post.contains(k) && !pre.contains(k) {
                        let q = choose|q: int| 0 <= q < post.len() && post[q] == k;
                        if q < r {
                            assert(pre[q] == k);
                        }
                    }
                    if pre.contains(k) {
                        let q = choose|q: int| 0 <= q < pre.len() && pre[q] == k;
                        assert(post[q] == k);
                    }
                }
            }
            r = r + 1;
        }
        assert(removed.take(m as int) =~= removed);
        proof {
            let target = expire_table(t0, id, now);
            assert forall|k: Seq<char>| #[trigger] self.routes().contains_key(k) <==> target.contains_key(k) by {
                if t0.contains_key(k) {
                    assert(keys0.contains(k));
                    let j = choose|j: int| 0 <= j < keys0.len() && keys0[j] == k;
                    assert(t0[k] == vals0[j].model());
                    if removed.contains(k) {
                        assert(exists|j2: int| 0 <= j2 < n && #[trigger] keys0[j2] == k && k != id && flushed(vals0[j2].model(), now));
                        let j2 = choose|j2: int| 0 <= j2 < n && #[trigger] keys0[j2] == k && k != id && flushed(vals0[j2].model(), now);
                        assert(j2 == j);
                    }
                    if k != id && flushed(t0[k], now) {
                        assert(removed.contains(k));
                    }
                }
            }
            assert forall|k: Seq<char>| #[trigger] self.routes().contains_key(k) implies self.routes()[k]
                == target[k] by {
                assert(keys0.contains(k));
                let j = choose|j: int| 0 <= j < keys0.len() && keys0[j] == k;
                assert(t0[k] == vals0[j].model());
                assert(mid[keys0[j]] == target[k]);
            }
            assert(self.routes() =~= target);
            if changed {
                let j = choose|j: int|
                    0 <= j < n && keys0[j] != id && (times_out(#[trigger] vals0[j].model(), now)
                        || flushed(vals0[j].model(), now));
                assert(t0[keys0[j]] == vals0[j].model());
            }
            if expire_changes(t0, id, now) {
                let k = choose|k: Seq<char>|
                    #![trigger t0[k]]
                    t0.contains_key(k) && k != id && (times_out(t0[k], now) || flushed(t0[k], now));
                assert(keys0.contains(k));
                let j = choose|j: int| 0 <= j < keys0.len() && keys0[j] == k;
                assert(t0[k] == vals0[j].model());
            }
        }
        changed
    }

    /// The entries of a response: every destination with its metric, in
    /// table order.
    pub fn response_entries(&self) -> (res: Vec<RipEntry>)
        requires
            self.wf(),
        ensures
            res@.map_values(|e: RipEntry| (e.destination@, e.distance)) == self.destinations().map_values(
                |d: Seq<char>| (d, self.routes()[d].distance),
            ),
    {
        proof {
            self.table.lemma_entries();
        }
        let n = self.table.len();
        let mut out: Vec<RipEntry> = Vec::new();
        let mut i: usize = 0;
        while i < n
            invariant
                self.wf(),
                n == self.destinations().len(),
                self.table.values().len() == n,
                i <= n,
                out@.len() == i,
                forall|j: int|
                    0 <= j < i ==> (#[trigger] out@[j]).destination@ == self.destinations()[j]
                        && out@[j].distance == self.routes()[self.destinations()[j]].distance,
            decreases n - i,
        {
            let key = self.table.key_at(i).clone();
            let dist = self.table.value_at(i).distance;
            proof {
                self.table.lemma_entries();
                assert(self.routes()[self.destinations()[i as int]].distance == dist);
            }
            out.push(RipEntry { destination: key, distance: dist });
            i = i + 1;
        }
        assert(out@.map_values(|e: RipEntry| (e.destination@, e.distance)) =~= self.destinations().map_values(
            |d: Seq<char>| (d, self.routes()[d].distance),
        ));
        out
    }

    fn destination_strings(&self) -> (res: Vec<String>)
        requires
            self.wf(),
        ensures
            views(res@) == self.destinations(),
            forall|a: int, b: int| 0 <= a < b < res@.len() ==> res@[a]@ != res@[b]@,
            forall|k: Seq<char>| self.routes().contains_key(k) <==> self.destinations().contains(k),
    {
        proof {
            self.table.lemma_entries();
        }
        let n = self.table.len();
        let mut keys: Vec<String> = Vec::new();
        let mut i: usize = 0;
        while i < n
            invariant
                self.wf(),
                n == self.destinations().len(),
                i <= n,
                views(keys@) == self.destinations().subrange(0, i as int),
            decreases n - i,
        {
            let key = self.table.key_at(i).clone();
            assert(key@ == self.destinations()[i as int]);
            let ghost before = keys@;
            assert(views(before) == self.destinations().subrange(0, i as int));
            assert(views(before).len() == i);
            assert(before.len() == i);
            keys.push(key);
            assert(keys@ == before.push(key));
            assert(keys@.len() == i + 1);
            i = i + 1;
            assert forall|q: int| 0 <= q < i implies views(keys@)[q] == self.destinations()[q] by {
                assert(views(keys@)[q] == keys@[q]@);
                if q < i - 1 {
                    assert(keys@[q] == before[q]);
                    assert(views(before)[q] == before[q]@);
                    assert(views(before)[q] == self.destinations().subrange(0, i - 1)[q]);
                }
            }
            assert(views(keys@) =~= self.destinations().subrange(0, i as int));
        }
        proof {
            assert(views(keys@) =~= self.destinations());
            assert forall|a: int, b: int| 0 <= a < b < keys@.len() implies keys@[a]@ != keys@[b]@ by {
                assert(views(keys@)[a] == keys@[a]@ && views(keys@)[b] == keys@[b]@);
            }
        }
        keys
    }

    /// The routing table as printed under `label`.
    pub fn table_report(&self, label: &str) -> (res: String)
        requires
            self.wf(),
        ensures
            res@ == table_text(label@, self.router_id(), self.routes()),
    {
        proof {
            self.table.lemma_entries();
        }
        let mut out = String::new();
        push_str(&mut out, label);
        push_str(&mut out, " of router ");
        push_str(&mut out, self.id.as_str());
        push_str(&mut out, " table");
        push_char(&mut out, '\n');
        push_padded(&mut out, "[Source IP]", 18);
        push_char(&mut out, ' ');
        push_padded(&mut out, "[Destination IP]", 20);
        push_char(&mut out, ' ');
        push_padded(&mut out, "[Next Hop]", 18);
        push_char(&mut out, ' ');
        push_padded(&mut out, "[Metric]", 8);
        push_char(&mut out, '\n');
        let ghost prefix = out@;
        assert(prefix =~= label@ + " of router "@ + self.id@ + " table"@ + seq!['\n'] + table_header());
        let keys = self.destination_strings();
        let ghost dom = self.routes().dom();
        proof {
            assert(views(keys@).to_set() =~= dom);
        }
        let sorted = sort_strings(&keys);
        let ghost order = sorted_listing(dom);
        let m = sorted.len();
        let mut j: usize = 0;
        while j < m
            invariant
                self.wf(),
                m == order.len(),
                views(sorted@) == order,
                forall|x: Seq<char>| order.contains(x) <==> dom.contains(x),
                dom == self.routes().dom(),
                j <= m,
                out@ == prefix + table_rows(self.router_id(), order.subrange(0, j as int), self.routes()),
            decreases m - j,
        {
            let dest = sorted[j].as_str();
            assert(views(sorted@)[j as int] == dest@);
            assert(order.contains(dest@));
            match self.table.get(dest) {
                Some(record) => {
                    push_row(&mut out, self.id.as_str(), dest, record.next_hop.as_str(), record.distance);
                    proof {
                        let sub = order.subrange(0, j + 1);
                        assert(sub.drop_last() =~= order.subrange(0, j as int));
                        assert(sub.last() == dest@);
                        assert(self.routes()[dest@] == record.model());
                    }
                },
                None => {},
            }
            j = j + 1;
        }
        assert(order.subrange(0, m as int) =~= order);
        out
    }
}

/// Law: hearing a response never touches the route to the router itself.
pub proof fn lemma_response_keeps_own_route(
    table: Table,
    id: Seq<char>,
    sender: Seq<char>,
    cost: u32,
    entries: Seq<(Seq<char>, u32)>,
    now: u64,
)
    ensures
        apply_response(table, id, sender, cost, entries, now).0.contains_key(id) == table.contains_key(
            id,
        ),
        table.contains_key(id) ==> apply_response(table, id, sender, cost, entries, now).0[id]
            == table[id],
    decreases entries.len(),
{
    if entries.len() > 0 {
        lemma_response_keeps_own_route(table, id, sender, cost, entries.drop_last(), now);
    }
}

/// Law: the timeout check never touches the route to the router itself.
pub proof fn lemma_expire_keeps_own_route(table: Table, id: Seq<char>, now: u64)
    ensures
        expire_table(table, id, now).contains_key(id) == table.contains_key(id),
        table.contains_key(id) ==> expire_table(table, id, now)[id] == table[id],
{
}

/// Law: hearing responses keeps every metric at most `MAX_DISTANCE` and
/// marks a route unreachable exactly when its metric is `MAX_DISTANCE`.
pub proof fn lemma_response_keeps_metrics(
    table: Table,
    id: Seq<char>,
    sender: Seq<char>,
    cost: u32,
    entries: Seq<(Seq<char>, u32)>,
    now: u64,
)
    requires
        metrics_consistent(table),
    ensures
        metrics_consistent(apply_response(table, id, sender, cost, entries, now).0),
    decreases entries.len(),
{
    if entries.len() > 0 {
        lemma_response_keeps_metrics(table, id, sender, cost, entries.drop_last(), now);
        let t = apply_response(table, id, sender, cost, entries.drop_last(), now).0;
        let (dest, dist) = entries.last();
        let t2 = route_update(t, dest, sender, learnt_metric(dist, cost), now).0;
        assert forall|k: Seq<char>| #[trigger] t2.contains_key(k) implies t2[k].distance
            <= MAX_DISTANCE && (t2[k].is_invalid <==> t2[k].distance == MAX_DISTANCE) by {
            if k != dest {
                assert(t.contains_key(k));
            }
        }
    }
}

/// Law: the timeout check keeps every metric at most `MAX_DISTANCE` and
/// marks a route unreachable exactly when its metric is `MAX_DISTANCE`.
pub proof fn lemma_expire_keeps_metrics(table: Table, id: Seq<char>, now: u64)
    requires
        metrics_consistent(table),
    ensures
        metrics_consistent(expire_table(table, id, now)),
{
    let t = expire_table(table, id, now);
    assert forall|k: Seq<char>| #[trigger] t.contains_key(k) implies t[k].distance <= MAX_DISTANCE
        && (t[k].is_invalid <==> t[k].distance == MAX_DISTANCE) by {
        assert(table.contains_key(k));
    }
}

/// Whether the router has been idle long enough to stop: no table change
/// for `IDLE_TIMEOUT_MS`.
pub fn is_idle(now: u64, last_table_update: u64) -> (res: bool)
    ensures
        res == (elapsed(now, last_table_update) >= IDLE_TIMEOUT_MS),
{
    elapsed_ms(now, last_table_update) >= IDLE_TIMEOUT_MS
}

fn push_row(out: &mut String, id: &str, dest: &str, next_hop: &str, distance: u32)
    ensures
        final(out)@ == old(out)@ + table_row(id@, dest@, next_hop@, distance),
{
    push_padded(out, id, 18);
    push_char(out, ' ');
    push_padded(out, dest, 20);
    push_char(out, ' ');
    push_padded(out, next_hop, 18);
    push_char(out, ' ');
    let mut metric = String::new();
    push_decimal(&mut metric, distance as u64);
    push_padded(out, metric.as_str(), 8);
    push_char(out, '\n');
    assert(out@ =~= old(out)@ + table_row(id@, dest@, next_hop@, distance));
}

/// The label of the table printed after the `step`-th change.
pub fn simulation_step_label(step: u64) -> (res: String)
    ensures
        res@ == step_label(step),
{
    let mut out = String::new();
    push_str(&mut out, "Simulation step ");
    push_decimal(&mut out, step);
    out
}

/// A link between two routers of the simulated network.
#[derive(Debug, Clone)]
pub struct ConnectionConfig {
    pub from: String,
    pub to: String,
}

/// The simulated network: its routers and the links between them.
#[derive(Debug, Clone)]
pub struct NetworkConfig {
    pub routers: Vec<String>,
    pub connections: Vec<ConnectionConfig>,
}

/// Whether one of the first `upto` links joins `r` and `n`, in either
/// direction.
pub open spec fn linked(conns: Seq<ConnectionConfig>, upto: int, r: Seq<char>, n: Seq<char>) -> bool {
    exists|j: int|
        0 <= j < upto && ((#[trigger] conns[j].from@ == r && conns[j].to@ == n) || (conns[j].to@ == r
            && conns[j].from@ == n))
}

/// The neighbours of `r` among the first `upto` links, each at cost 1.
pub open spec fn planned_links(conns: Seq<ConnectionConfig>, upto: int, r: Seq<char>) -> Map<
    Seq<char>,
    u32,
> {
    Map::new(|n: Seq<char>| linked(conns, upto, r, n), |n: Seq<char>| 1u32)
}

/// Whether the `i`-th router's name occurs there for the first time.
pub open spec fn first_occurrence(routers: Seq<Seq<char>>, i: int) -> bool {
    forall|j: int| 0 <= j < i ==> routers[j] != routers[i]
}

fn neighbors_of(connections: &Vec<ConnectionConfig>, r: &str) -> (res: StrMap<u32>)
    ensures
        res.wf(),
        res@ == planned_links(connections@, connections@.len() as int, r@),
{
    let mut map: StrMap<u32> = StrMap::new();
    let n = connections.len();
    let mut k: usize = 0;
    assert(map@ =~= planned_links(connections@, 0, r@));
    while k < n
        invariant
            n == connections@.len(),
            k <= n,
            map.wf(),
            map@ == planned_links(connections@, k as int, r@),
        decreases n - k,
    {
        let c = &connections[k];
        if str_eq(c.from.as_str(), r) {
            map.insert(c.to.clone(), 1);
        }
        if str_eq(c.to.as_str(), r) {
            map.insert(c.from.clone(), 1);
        }
        proof {
            let next = planned_links(connections@, k + 1, r@);
            assert forall|q: Seq<char>| #[trigger] map@.contains_key(q) == next.contains_key(q) by {
                if linked(connections@, k + 1, r@, q) && !linked(connections@, k as int, r@, q) {
                    let j = choose|j: int|
                        0 <= j < k + 1 && ((#[trigger] connections@[j].from@ == r@ && connections@[j].to@
                            == q) || (connections@[j].to@ == r@ && connections@[j].from@ == q));
                    assert(j == k);
                }
                if linked(connections@, k as int, r@, q) {
                    let j = choose|j: int|
                        0 <= j < k && ((#[trigger] connections@[j].from@ == r@ && connections@[j].to@
                            == q) || (connections@[j].to@ == r@ && connections@[j].from@ == q));
                    assert(0 <= j < k + 1);
                }
            }
            assert(map@ =~= next);
        }
        k = k + 1;
    }
    map
}

/// The neighbours of each router of `config`, in the order of its routers:
/// every router linked to it, at cost 1. A name listed again gets no
/// neighbours the second time.
pub fn neighbor_plan(config: &NetworkConfig) -> (res: Vec<StrMap<u32>>)
    ensures
        res@.len() == config.routers@.len(),
        forall|i: int|
            0 <= i < res@.len() ==> (#[trigger] res@[i]).wf() && res@[i]@ == (if first_occurrence(
                views(config.routers@),
                i,
            ) {
                planned_links(config.connections@, config.connections@.len() as int, config.routers@[i]@)
            } else {
                Map::empty()
            }),
{
    let routers = &config.routers;
    let n = routers.len();
    let mut out: Vec<StrMap<u32>> = Vec::new();
    let mut i: usize = 0;
    while i < n
        invariant
            n == routers@.len(),
            routers == &config.routers,
            i <= n,
            out@.len() == i,
            forall|q: int|
                0 <= q < i ==> (#[trigger] out@[q]).wf() && out@[q]@ == (if first_occurrence(
                    views(config.routers@),
                    q,
                ) {
                    planned_links(config.connections@, config.connections@.len() as int, config.routers@[q]@)
                } else {
                    Map::empty()
                }),
        decreases n - i,
    {
        let r = routers[i].as_str();
        let mut seen = false;
        let mut j: usize = 0;
        while j < i
            invariant
                n == routers@.len(),
                i < n,
                j <= i,
                r@ == routers@[i as int]@,
                seen <==> exists|p: int| 0 <= p < j && routers@[p]@ == r@,
            decreases i - j,
        {
            if str_eq(routers[j].as_str(), r) {
                seen = true;
            }
            j = j + 1;
        }
        proof {
            let vs = views(config.routers@);
            if seen {
                let p = choose|p: int| 0 <= p < i && routers@[p]@ == r@;
                assert(vs[p] == vs[i as int]);
            } else {
                assert forall|p: int| 0 <= p < i implies vs[p] != vs[i as int] by {
                    if vs[p] == vs[i as int] {
                        assert(routers@[p]@ == r@);
                    }
                }
            }
        }
        if seen {
            let empty: StrMap<u32> = StrMap::new();
            out.push(empty);
        } else {
            out.push(neighbors_of(&config.connections, r));
        }
        i = i + 1;
    }
    out
}

/// What the periodic check decided.
pub enum CheckOutcome {
    /// The router has been idle for `IDLE_TIMEOUT_MS`: stop it.
    Stop,
    /// Routes timed out or were flushed: print this table.
    Print(String),
    /// Nothing changed.
    Quiet,
}

/// A running router: its table, the number of table changes printed so
/// far, and the time of the last change.
pub struct RipNode {
    router: Router,
    steps: u64,
    last_table_update: u64,
}

impl RipNode {
    pub closed spec fn state(&self) -> Router {
        self.router
    }

    /// The number of table changes so far.
    pub closed spec fn step_count(&self) -> u64 {
        self.steps
    }

    /// The time of the last table change, or of the start.
    pub closed spec fn last_change(&self) -> u64 {
        self.last_table_update
    }

    /// A router started at `now`.
    pub fn new(id: String, neighbors: StrMap<u32>, now: u64) -> (res: Self)
        requires
            neighbors.wf(),
        ensures
            res.state().wf(),
            res.state().router_id() == id@,
            res.state().links() == neighbors@,
            res.state().routes() == Map::<Seq<char>, RouteModel>::empty().insert(
                id@,
                RouteModel { next_hop: id@, distance: 0, last_updated: now, is_invalid: false },
            ),
            res.step_count() == 0,
            res.last_change() == now,
    {
        RipNode { router: Router::new(id, neighbors, now), steps: 0, last_table_update: now }
    }

    /// The router.
    pub fn router(&self) -> (res: &Router)
        ensures
            *res == self.state(),
    {
        &self.router
    }

    /// The number of table changes so far.
    pub fn steps(&self) -> (res: u64)
        ensures
            res == self.step_count(),
    {
        self.steps
    }

    /// A response from `sender` arrived at `now`: it is heard, and when
    /// the table changed the change is counted and the table to print is
    /// returned.
    pub fn on_response(&mut self, sender: &str, entries: &[RipEntry], now: u64) -> (res: Option<
        String,
    >)
        requires
            old(self).state().wf(),
            old(self).step_count() < u64::MAX,
            old(self).state().links().contains_key(sender@) ==> forall|i: int|
                0 <= i < entries@.len() && entries@[i].destination@ != old(self).state().router_id()
                    ==> #[trigger] entries@[i].distance + old(self).state().links()[sender@]
                    <= u32::MAX,
        ensures
            final(self).state().wf(),
            final(self).state().router_id() == old(self).state().router_id(),
            final(self).state().links() == old(self).state().links(),
            old(self).state().links().contains_key(sender@) ==> final(self).state().routes()
                == apply_response(
                old(self).state().routes(),
                old(self).state().router_id(),
                sender@,
                old(self).state().links()[sender@],
                entries@.map_values(|e: RipEntry| (e.destination@, e.distance)),
                now,
            ).0,
            !old(self).state().links().contains_key(sender@) ==> final(self).state().routes() == old(
                self,
            ).state().routes() && res is None,
            res is Some ==> final(self).step_count() == old(self).step_count() + 1
                && final(self).last_change() == now,
            res is None ==> final(self).step_count() == old(self).step_count()
                && final(self).last_change() == old(self).last_change(),
            res matches Some(text) ==> text@ == table_text(
                step_label(final(self).step_count()),
                final(self).state().router_id(),
                final(self).state().routes(),
            ),
            old(self).state().links().contains_key(sender@) ==> (res is Some <==> apply_response(
                old(self).state().routes(),
                old(self).state().router_id(),
                sender@,
                old(self).state().links()[sender@],
                entries@.map_values(|e: RipEntry| (e.destination@, e.distance)),
                now,
            ).1),
    {
        let changed = self.router.handle_response(sender, entries, now);
        if changed {
            self.steps = self.steps + 1;
            self.last_table_update = now;
            let label = simulation_step_label(self.steps);
            Some(self.router.table_report(label.as_str()))
        } else {
            None
        }
    }

    /// The periodic check at `now`: stop when idle for `IDLE_TIMEOUT_MS`;
    /// otherwise time routes out, and when that changed the table, count
    /// the change and return the table to print.
    pub fn on_check(&mut self, now: u64) -> (res: CheckOutcome)
        requires
            old(self).state().wf(),
            old(self).step_count() < u64::MAX,
        ensures
            final(self).state().wf(),
            final(self).state().router_id() == old(self).state().router_id(),
            final(self).state().links() == old(self).state().links(),
            (res is Stop) == (elapsed(now, old(self).last_change()) >= IDLE_TIMEOUT_MS),
            res is Stop ==> *final(self) == *old(self),
            !(res is Stop) ==> final(self).state().routes() == expire_table(
                old(self).state().routes(),
                old(self).state().router_id(),
                now,
            ) && ((res is Print) == expire_changes(
                old(self).state().routes(),
                old(self).state().router_id(),
                now,
            )),
            res is Print ==> final(self).step_count() == old(self).step_count() + 1
                && final(self).last_change() == now,
            res is Quiet ==> final(self).step_count() == old(self).step_count()
                && final(self).last_change() == old(self).last_change(),
            res matches CheckOutcome::Print(text) ==> text@ == table_text(
                step_label(final(self).step_count()),
                final(self).state().router_id(),
                final(self).state().routes(),
            ),
    {
        if is_idle(now, self.last_table_update) {
            return CheckOutcome::Stop;
        }
        let changed = self.router.expire(now);
        if changed {
            self.steps = self.steps + 1;
            self.last_table_update = now;
            let label = simulation_step_label(self.steps);
            CheckOutcome::Print(self.router.table_report(label.as_str()))
        } else {
            CheckOutcome::Quiet
        }
    }
}

/// Law: an offer through a next hop other than the current route's never
/// replaces the route unless its metric is strictly smaller; an offer of
/// an equal or larger metric leaves the table as it was and reports no
/// change.
pub proof fn lemma_other_hop_needs_strictly_better(
    table: Table,
    dest: Seq<char>,
    next_hop: Seq<char>,
    distance: u32,
    now: u64,
)
    requires
        table.contains_key(dest),
        table[dest].next_hop != next_hop,
    ensures
        distance >= table[dest].distance ==> route_update(table, dest, next_hop, distance, now) == (
        table,
        false,
        ),
        distance < table[dest].distance ==> ({
            let (t, changed) = route_update(table, dest, next_hop, distance, now);
            changed && t.contains_key(dest) && t[dest].next_hop == next_hop && t[dest].distance
                == distance && t[dest].last_updated == now
        }),
{
}

/// Law: for a known destination, the change flag says exactly whether the
/// route's next hop or metric changed, and the other routes are untouched.
pub proof fn lemma_update_flag_is_change(
    table: Table,
    dest: Seq<char>,
    next_hop: Seq<char>,
    distance: u32,
    now: u64,
)
    requires
        table.contains_key(dest),
    ensures
        ({
            let (t, changed) = route_update(table, dest, next_hop, distance, now);
            &&& t.contains_key(dest)
            &&& changed == (t[dest].next_hop != table[dest].next_hop || t[dest].distance
                != table[dest].distance)
            &&& forall|k: Seq<char>|
                k != dest ==> (#[trigger] t.contains_key(k) == table.contains_key(k) && (
                table.contains_key(k) ==> t[k] == table[k]))
        }),
{
}

} // verus!
