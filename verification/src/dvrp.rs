//! A distance-vector router. The router keeps its routing table, the cost
//! of the link to each neighbour and the last distance each neighbour
//! reported for each destination; every operation returns the
//! advertisements to send, as (neighbour, advertisement) pairs.
use vstd::prelude::*;
use crate::assoc::U64Map;
use crate::listing::{sorted_numbers, sort_numbers};
use crate::text::{decimal, push_decimal, push_str};

verus! {

/// Route to a destination: the neighbour to forward to and the total cost.
#[derive(Clone, Copy, Debug)]
pub struct DirectionRecord {
    pub next_router: u64,
    pub distance: u64,
}

/// A distance advertisement sent to a neighbour.
#[derive(Clone, Copy, Debug)]
pub struct Packet {
    pub destination: u64,
    pub distance: u64,
}

/// Advertisements to send, each with the neighbour it goes to.
pub type Outbox = Vec<(u64, Packet)>;

/// The title of the logged routing table.
pub open spec fn table_title(id: u64) -> Seq<char> {
    "Router "@ + decimal(id as nat) + " routing table:"@
}

/// A line of the logged routing table: the route from `id` through the
/// next router to `dest`, with its cost.
pub open spec fn route_line(id: u64, dest: u64, rec: DirectionRecord) -> Seq<char> {
    decimal(id as nat) + " -> "@ + decimal(rec.next_router as nat) + " -> ... -> "@ + decimal(
        dest as nat,
    ) + ", cost "@ + decimal(rec.distance as nat)
}

pub struct Router {
    id: u64,
    distances: U64Map<DirectionRecord>,
    connections: U64Map<u64>,
    neighbor_vectors: U64Map<U64Map<u64>>,
}

/// The advertisement of `distance` to `destination` for every neighbour in
/// `neighbors` other than the destination itself, in that order.
pub open spec fn notifications(neighbors: Seq<u64>, destination: u64, distance: u64) -> Seq<
    (u64, Packet),
>
    decreases neighbors.len(),
{
    if neighbors.len() == 0 {
        Seq::empty()
    } else {
        let prev = notifications(neighbors.drop_last(), destination, distance);
        if neighbors.last() != destination {
            prev.push((neighbors.last(), Packet { destination, distance }))
        } else {
            prev
        }
    }
}

/// The whole table, advertised to `neighbor`, in table order.
pub open spec fn table_adverts(neighbor: u64, entries: Seq<(u64, DirectionRecord)>) -> Seq<
    (u64, Packet),
> {
    entries.map_values(
        |e: (u64, DirectionRecord)| (neighbor, Packet { destination: e.0, distance: e.1.distance }),
    )
}

/// Whether the record `rec` for `destination` replaces the current route:
/// there is none, or `rec` is strictly shorter.
pub open spec fn improves(
    table: Map<u64, DirectionRecord>,
    destination: u64,
    rec: DirectionRecord,
) -> bool {
    !table.contains_key(destination) || rec.distance < table[destination].distance
}

/// The table after offering `rec` for `destination`.
pub open spec fn offer(
    table: Map<u64, DirectionRecord>,
    destination: u64,
    rec: DirectionRecord,
) -> Map<u64, DirectionRecord> {
    if improves(table, destination, rec) {
        table.insert(destination, rec)
    } else {
        table
    }
}

/// The advertisements caused by offering `rec` for `destination`.
pub open spec fn offer_out(
    table: Map<u64, DirectionRecord>,
    neighbors: Seq<u64>,
    destination: u64,
    rec: DirectionRecord,
) -> Seq<(u64, Packet)> {
    if improves(table, destination, rec) {
        notifications(neighbors, destination, rec.distance)
    } else {
        Seq::empty()
    }
}

/// No route is lost and none gets longer.
pub open spec fn no_worse(old: Map<u64, DirectionRecord>, new: Map<u64, DirectionRecord>) -> bool {
    forall|d: u64|
        old.contains_key(d) ==> #[trigger] new.contains_key(d) && new[d].distance
            <= old[d].distance
}

/// The routes offered when the link to `neighbor` gets cost `cost`: for
/// every destination the neighbour reported, other than `self_id`, the
/// reported distance plus the cost (saturating), through the neighbour.
pub open spec fn relink_offers(reports: Seq<(u64, u64)>, neighbor: u64, cost: u64, self_id: u64) -> Seq<
    (u64, DirectionRecord),
>
    decreases reports.len(),
{
    if reports.len() == 0 {
        Seq::empty()
    } else {
        let prev = relink_offers(reports.drop_last(), neighbor, cost, self_id);
        let (dest, dist) = reports.last();
        if dest != self_id {
            prev.push((dest, DirectionRecord { next_router: neighbor, distance: sat_add(cost, dist) }))
        } else {
            prev
        }
    }
}

/// Offers the routes in order, collecting the table and the advertisements.
pub open spec fn offer_all(
    table: Map<u64, DirectionRecord>,
    neighbors: Seq<u64>,
    offers: Seq<(u64, DirectionRecord)>,
) -> (Map<u64, DirectionRecord>, Seq<(u64, Packet)>)
    decreases offers.len(),
{
    if offers.len() == 0 {
        (table, Seq::empty())
    } else {
        let (t, o) = offer_all(table, neighbors, offers.drop_last());
        let (d, r) = offers.last();
        (offer(t, d, r), o + offer_out(t, neighbors, d, r))
    }
}

/// Saturating addition of `u64`s.
pub open spec fn sat_add(a: u64, b: u64) -> u64 {
    if a + b > u64::MAX {
        u64::MAX
    } else {
        (a + b) as u64
    }
}

proof fn lemma_offer_all_no_worse(
    t: Map<u64, DirectionRecord>,
    ns: Seq<u64>,
    offers: Seq<(u64, DirectionRecord)>,
)
    ensures
        no_worse(t, offer_all(t, ns, offers).0),
    decreases offers.len(),
{
    if offers.len() > 0 {
        lemma_offer_all_no_worse(t, ns, offers.drop_last());
    }
}

fn saturating_add(a: u64, b: u64) -> (res: u64)
    ensures
        res == sat_add(a, b),
{
    if a > u64::MAX - b {
        u64::MAX
    } else {
        a + b
    }
}

impl Router {
    /// The router's own identifier.
    pub closed spec fn router_id(&self) -> u64 {
        self.id
    }

    /// The routing table.
    pub closed spec fn table(&self) -> Map<u64, DirectionRecord> {
        self.distances@
    }

    /// The destinations in table order.
    pub closed spec fn table_entries(&self) -> Seq<(u64, DirectionRecord)> {
        self.distances.entry_seq()
    }

    /// The cost of the link to each neighbour.
    pub closed spec fn links(&self) -> Map<u64, u64> {
        self.connections@
    }

    /// The neighbours, in the order their links were added.
    pub closed spec fn neighbors(&self) -> Seq<u64> {
        self.connections.keys()
    }

    /// The last distance each neighbour reported for each destination.
    pub closed spec fn reports(&self) -> Map<u64, Map<u64, u64>> {
        Map::new(
            |n: u64| self.neighbor_vectors@.contains_key(n),
            |n: u64| self.neighbor_vectors@[n]@,
        )
    }

    /// The reports of `n` in the order they were first made.
    pub closed spec fn report_seq(&self, n: u64) -> Seq<(u64, u64)> {
        self.neighbor_vectors@[n].entry_seq()
    }

    /// Well-formedness: the maps have distinct keys, and the route to the
    /// router itself goes through itself at distance 0.
    pub closed spec fn wf(&self) -> bool {
        &&& self.distances.wf()
        &&& self.connections.wf()
        &&& self.neighbor_vectors.wf()
        &&& forall|n: u64| #[trigger]
            self.neighbor_vectors@.contains_key(n) ==> self.neighbor_vectors@[n].wf()
        &&& self.distances@.contains_key(self.id)
        &&& self.distances@[self.id] == DirectionRecord { next_router: self.id, distance: 0 }
    }

    /// A router that only knows the route to itself.
    pub fn new(id: u64) -> (res: Self)
        ensures
            res.wf(),
            res.router_id() == id,
            res.table() == Map::<u64, DirectionRecord>::empty().insert(
                id,
                DirectionRecord { next_router: id, distance: 0 },
            ),
            res.links() == Map::<u64, u64>::empty(),
            res.neighbors() == Seq::<u64>::empty(),
            res.reports() == Map::<u64, Map<u64, u64>>::empty(),
    {
        let mut distances = U64Map::new();
        distances.insert(id, DirectionRecord { next_router: id, distance: 0 });
        let res = Router {
            id,
            distances,
            connections: U64Map::new(),
            neighbor_vectors: U64Map::new(),
        };
        assert(res.reports() =~= Map::<u64, Map<u64, u64>>::empty());
        res
    }

    pub fn id(&self) -> (res: u64)
        ensures
            res == self.router_id(),
    {
        self.id
    }

    /// Advertises `distance` to `destination` to every neighbour except the
    /// destination.
    pub fn notify_neighbors(&self, destination: u64, distance: u64) -> (res: Outbox)
        requires
            self.wf(),
        ensures
            res@ == notifications(self.neighbors(), destination, distance),
    {
        let n = self.connections.len();
        let mut out: Outbox = Vec::new();
        let mut i: usize = 0;
        while i < n
            invariant
                n == self.neighbors().len(),
                i <= n,
                out@ == notifications(self.neighbors().take(i as int), destination, distance),
            decreases n - i,
        {
            let nb = self.connections.key_at(i);
            assert(self.neighbors().take(i + 1).drop_last() =~= self.neighbors().take(i as int));
            if nb != destination {
                out.push((nb, Packet { destination, distance }));
            }
            i = i + 1;
        }
        assert(self.neighbors().take(n as int) =~= self.neighbors());
        out
    }

    /// Sends the whole table to `neighbour_id`, if it is a neighbour.
    pub fn send_full_table_to(&self, neighbour_id: u64) -> (res: Outbox)
        requires
            self.wf(),
        ensures
            res@ == if self.links().contains_key(neighbour_id) {
                table_adverts(neighbour_id, self.table_entries())
            } else {
                Seq::empty()
            },
    {
        let mut out: Outbox = Vec::new();
        if self.connections.get(neighbour_id).is_none() {
            return out;
        }
        let n = self.distances.len();
        proof {
            self.distances.lemma_entries();
        }
        let mut i: usize = 0;
        while i < n
            invariant
                self.wf(),
                n == self.table_entries().len(),
                self.distances.keys().len() == n,
                i <= n,
                out@ == table_adverts(neighbour_id, self.table_entries().take(i as int)),
            decreases n - i,
        {
            let dest = self.distances.key_at(i);
            let rec = *self.distances.value_at(i);
            proof {
                self.distances.lemma_entries();
            }
            out.push((neighbour_id, Packet { destination: dest, distance: rec.distance }));
            i = i + 1;
            assert(table_adverts(neighbour_id, self.table_entries().take(i as int)) =~= table_adverts(
                neighbour_id,
                self.table_entries().take((i - 1) as int),
            ).push((neighbour_id, Packet { destination: dest, distance: rec.distance })));
        }
        assert(self.table_entries().take(n as int) =~= self.table_entries());
        out
    }

    /// Offers a route to `destination`; it replaces the current one when
    /// there is none or it is strictly shorter, and then every neighbour
    /// but the destination is told the new distance.
    pub fn update_distance(&mut self, destination: u64, new_record: DirectionRecord) -> (res: Outbox)
        requires
            old(self).wf(),
        ensures
            final(self).wf(),
            final(self).router_id() == old(self).router_id(),
            final(self).table() == offer(old(self).table(), destination, new_record),
            res@ == offer_out(old(self).table(), old(self).neighbors(), destination, new_record),
            final(self).links() == old(self).links(),
            final(self).neighbors() == old(self).neighbors(),
            final(self).reports() == old(self).reports(),
            no_worse(old(self).table(), final(self).table()),
    {
        let changed = match self.distances.get(destination) {
            Some(current) => {
                if new_record.distance < current.distance {
                    self.distances.insert(destination, new_record);
                    true
                } else {
                    false
                }
            },
            None => {
                self.distances.insert(destination, new_record);
                true
            },
        };
        if changed {
            self.notify_neighbors(destination, new_record.distance)
        } else {
            Vec::new()
        }
    }

    /// Remembers that `from` reported `distance` for `destination`.
    fn record_report(&mut self, from: u64, destination: u64, distance: u64)
        requires
            old(self).wf(),
        ensures
            final(self).wf(),
            final(self).router_id() == old(self).router_id(),
            final(self).table() == old(self).table(),
            final(self).table_entries() == old(self).table_entries(),
            final(self).links() == old(self).links(),
            final(self).neighbors() == old(self).neighbors(),
            final(self).reports() == old(self).reports().insert(
                from,
                if old(self).reports().contains_key(from) {
                    old(self).reports()[from].insert(destination, distance)
                } else {
                    Map::<u64, u64>::empty().insert(destination, distance)
                },
            ),
    {
        let ghost before = self.reports();
        let mut inner = match self.neighbor_vectors.get(from) {
            Some(v) => v.duplicate(),
            None => U64Map::new(),
        };
        inner.insert(destination, distance);
        let ghost inner_view = inner@;
        self.neighbor_vectors.insert(from, inner);
        assert(self.reports() =~= before.insert(from, inner_view));
    }

    /// Adds a link to a neighbour: records its cost, takes the neighbour
    /// as a route to itself, and sends it the whole table.
    pub fn add_connection(&mut self, neighbour_id: u64, cost: u64) -> (res: Outbox)
        requires
            old(self).wf(),
        ensures
            final(self).wf(),
            final(self).router_id() == old(self).router_id(),
            final(self).links() == old(self).links().insert(neighbour_id, cost),
            final(self).table() == offer(
                old(self).table(),
                neighbour_id,
                DirectionRecord { next_router: neighbour_id, distance: cost },
            ),
            res@ == offer_out(
                old(self).table(),
                final(self).neighbors(),
                neighbour_id,
                DirectionRecord { next_router: neighbour_id, distance: cost },
            ) + table_adverts(neighbour_id, final(self).table_entries()),
            no_worse(old(self).table(), final(self).table()),
    {
        self.connections.insert(neighbour_id, cost);
        self.record_report(neighbour_id, neighbour_id, cost);
        let mut out = self.update_distance(
            neighbour_id,
            DirectionRecord { next_router: neighbour_id, distance: cost },
        );
        let mut full = self.send_full_table_to(neighbour_id);
        out.append(&mut full);
        out
    }

    /// Handles an advertisement from neighbour `from`: remembers it and,
    /// unless it is about this router or `from` is not a neighbour, offers
    /// the route through `from` at the link cost plus the advertised
    /// distance (saturating).
    pub fn process_packet(&mut self, from: u64, packet: Packet) -> (res: Outbox)
        requires
            old(self).wf(),
        ensures
            final(self).wf(),
            final(self).router_id() == old(self).router_id(),
            final(self).links() == old(self).links(),
            final(self).neighbors() == old(self).neighbors(),
            final(self).reports() == old(self).reports().insert(
                from,
                if old(self).reports().contains_key(from) {
                    old(self).reports()[from].insert(packet.destination, packet.distance)
                } else {
                    Map::<u64, u64>::empty().insert(packet.destination, packet.distance)
                },
            ),
            ({
                let offered = DirectionRecord {
                    next_router: from,
                    distance: sat_add(old(self).links()[from], packet.distance),
                };
                if packet.destination == old(self).router_id() || !old(self).links().contains_key(
                    from,
                ) {
                    final(self).table() == old(self).table() && res@ == Seq::<(u64, Packet)>::empty()
                } else {
                    final(self).table() == offer(old(self).table(), packet.destination, offered)
                        && res@ == offer_out(
                        old(self).table(),
                        old(self).neighbors(),
                        packet.destination,
                        offered,
                    )
                }
            }),
            no_worse(old(self).table(), final(self).table()),
    {
        self.record_report(from, packet.destination, packet.distance);
        if packet.destination == self.id {
            return Vec::new();
        }
        let link_cost = match self.connections.get(from) {
            Some(c) => *c,
            None => {
                return Vec::new();
            },
        };
        let new_distance = saturating_add(link_cost, packet.distance);
        self.update_distance(
            packet.destination,
            DirectionRecord { next_router: from, distance: new_distance },
        )
    }

    /// Changes the cost of the link to `neighbour` (when it is one) and
    /// offers, in report order, every route through it at the new cost
    /// plus what it reported, then the neighbour itself at the new cost.
    /// Only shorter routes are taken: a more expensive link does not
    /// lengthen existing routes.
    pub fn update_link_cost(&mut self, neighbour: u64, new_cost: u64) -> (res: Outbox)
        requires
            old(self).wf(),
        ensures
            final(self).wf(),
            final(self).router_id() == old(self).router_id(),
            final(self).links() == if old(self).links().contains_key(neighbour) {
                old(self).links().insert(neighbour, new_cost)
            } else {
                old(self).links()
            },
            final(self).neighbors() == old(self).neighbors(),
            final(self).reports() == old(self).reports(),
            ({
                let offers = relink_offers(
                    if old(self).reports().contains_key(neighbour) {
                        old(self).report_seq(neighbour)
                    } else {
                        Seq::empty()
                    },
                    neighbour,
                    new_cost,
                    old(self).router_id(),
                ).push((neighbour, DirectionRecord { next_router: neighbour, distance: new_cost }));
                let (t, o) = offer_all(old(self).table(), old(self).neighbors(), offers);
                final(self).table() == t && res@ == o
            }),
            no_worse(old(self).table(), final(self).table()),
    {
        if self.connections.get(neighbour).is_some() {
            self.connections.insert(neighbour, new_cost);
        }
        let ghost neighbors = self.neighbors();
        let ghost t0 = self.table();
        let reports: Vec<(u64, u64)> = match self.neighbor_vectors.get(neighbour) {
            Some(v) => v.duplicate().into_entries(),
            None => Vec::new(),
        };
        let ghost offers_base = relink_offers(reports@, neighbour, new_cost, self.id);
        let mut out: Outbox = Vec::new();
        let n = reports.len();
        let mut i: usize = 0;
        let mut k: Ghost<Seq<(u64, DirectionRecord)>> = Ghost(Seq::empty());
        while i < n
            invariant
                self.wf(),
                n == reports@.len(),
                i <= n,
                self.neighbors() == neighbors,
                self.router_id() == old(self).router_id(),
                self.links() == if old(self).links().contains_key(neighbour) {
                    old(self).links().insert(neighbour, new_cost)
                } else {
                    old(self).links()
                },
                self.reports() == old(self).reports(),
                k@ == relink_offers(reports@.take(i as int), neighbour, new_cost, self.id),
                offer_all(t0, neighbors, k@) == (self.table(), out@),
            decreases n - i,
        {
            let (dest, dist) = reports[i];
            assert(reports@.take(i + 1).drop_last() =~= reports@.take(i as int));
            if dest != self.id {
                let new_dist = saturating_add(new_cost, dist);
                let rec = DirectionRecord { next_router: neighbour, distance: new_dist };
                let ghost t_before = self.table();
                let mut more = self.update_distance(dest, rec);
                out.append(&mut more);
                proof {
                    let k2 = k@.push((dest, rec));
                    assert(k2.drop_last() =~= k@);
                    k@ = k2;
                }
            }
            i = i + 1;
        }
        assert(reports@.take(n as int) =~= reports@);
        let ghost t1 = self.table();
        let mut last = self.update_distance(
            neighbour,
            DirectionRecord { next_router: neighbour, distance: new_cost },
        );
        out.append(&mut last);
        proof {
            let offers = k@.push((neighbour, DirectionRecord { next_router: neighbour, distance: new_cost }));
            assert(offers.drop_last() =~= k@);
            lemma_offer_all_no_worse(t0, neighbors, offers);
        }
        out
    }

    /// The logged routing table: a title, then one line per destination in
    /// increasing order.
    pub fn table_report(&self) -> (res: Vec<String>)
        requires
            self.wf(),
        ensures
            res@.len() == sorted_numbers(self.table().dom()).len() + 1,
            res@[0]@ == table_title(self.router_id()),
            forall|i: int|
                0 <= i < sorted_numbers(self.table().dom()).len() ==> (#[trigger] res@[i + 1])@
                    == route_line(
                    self.router_id(),
                    sorted_numbers(self.table().dom())[i],
                    self.table()[sorted_numbers(self.table().dom())[i]],
                ),
    {
        proof {
            self.distances.lemma_entries();
        }
        let mut title = String::new();
        push_str(&mut title, "Router ");
        push_decimal(&mut title, self.id);
        push_str(&mut title, " routing table:");
        let mut out: Vec<String> = Vec::new();
        out.push(title);
        let n = self.distances.len();
        let mut keys: Vec<u64> = Vec::new();
        let mut i: usize = 0;
        while i < n
            invariant
                self.wf(),
                n == self.distances.keys().len(),
                i <= n,
                keys@ == self.distances.keys().subrange(0, i as int),
            decreases n - i,
        {
            keys.push(self.distances.key_at(i));
            i = i + 1;
            assert(keys@ =~= self.distances.keys().subrange(0, i as int));
        }
        let ghost dom = self.table().dom();
        proof {
            assert(keys@ =~= self.distances.keys());
            assert(keys@.to_set() =~= dom);
        }
        let sorted = sort_numbers(&keys);
        let ghost order = sorted_numbers(dom);
        let m = sorted.len();
        let mut j: usize = 0;
        while j < m
            invariant
                self.wf(),
                m == order.len(),
                sorted@ == order,
                forall|x: u64| order.contains(x) <==> dom.contains(x),
                dom == self.table().dom(),
                j <= m,
                out@.len() == j + 1,
                out@[0]@ == table_title(self.router_id()),
                forall|q: int|
                    0 <= q < j ==> (#[trigger] out@[q + 1])@ == route_line(
                        self.router_id(),
                        order[q],
                        self.table()[order[q]],
                    ),
            decreases m - j,
        {
            let dest = sorted[j];
            assert(order.contains(dest));
            match self.distances.get(dest) {
                Some(rec) => {
                    let mut line = String::new();
                    push_decimal(&mut line, self.id);
                    push_str(&mut line, " -> ");
                    push_decimal(&mut line, rec.next_router);
                    push_str(&mut line, " -> ... -> ");
                    push_decimal(&mut line, dest);
                    push_str(&mut line, ", cost ");
                    push_decimal(&mut line, rec.distance);
                    out.push(line);
                },
                None => {},
            }
            j = j + 1;
        }
        out
    }
}

/// Law: a well-formed router always routes to itself through itself at
/// distance 0; since every operation keeps the router well-formed, no
/// advertisement can change that route.
pub proof fn lemma_self_route(r: &Router)
    requires
        r.wf(),
    ensures
        r.table().contains_key(r.router_id()),
        r.table()[r.router_id()] == (DirectionRecord { next_router: r.router_id(), distance: 0 }),
{
}

} // verus!
