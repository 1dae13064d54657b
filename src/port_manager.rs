//! Allocation of TCP ports from an inclusive range to named services.

use vstd::prelude::*;

verus! {

/// The lowest free port in `[p, hi]`, if any.
pub open spec fn first_free_from(m: Map<u16, Seq<char>>, p: int, hi: int) -> Option<u16>
    decreases hi + 1 - p,
{
    if p > hi || p < 0 || p > u16::MAX {
        None
    } else if !m.contains_key(p as u16) {
        Some(p as u16)
    } else {
        first_free_from(m, p + 1, hi)
    }
}

/// One allocation for `service`: the lowest free port of the range goes to
/// it; with no free port nothing changes.
pub open spec fn allocate_spec(m: Map<u16, Seq<char>>, lo: u16, hi: u16, service: Seq<char>) -> (
    Map<u16, Seq<char>>,
    Option<u16>,
) {
    match first_free_from(m, lo as int, hi as int) {
        Some(p) => (m.insert(p, service), Some(p)),
        None => (m, None),
    }
}

/// Allocations for each service in turn: the final map and the ports
/// handed out, in order.
pub open spec fn allocate_all_spec(m: Map<u16, Seq<char>>, lo: u16, hi: u16, services: Seq<Seq<char>>) -> (
    Map<u16, Seq<char>>,
    Seq<u16>,
)
    decreases services.len(),
{
    if services.len() == 0 {
        (m, Seq::empty())
    } else {
        let (m1, r) = allocate_spec(m, lo, hi, services[0]);
        let (m2, ports) = allocate_all_spec(m1, lo, hi, services.drop_first());
        match r {
            Some(p) => (m2, seq![p] + ports),
            None => (m2, ports),
        }
    }
}

/// Releasing each of `ports` in turn.
pub open spec fn release_all_spec(m: Map<u16, Seq<char>>, ports: Seq<u16>) -> Map<u16, Seq<char>>
    decreases ports.len(),
{
    if ports.len() == 0 {
        m
    } else {
        release_all_spec(m.remove(ports[0]), ports.drop_first())
    }
}

/// The number of ports in `[lo, hi]` that `m` leaves free.
pub open spec fn free_count(m: Map<u16, Seq<char>>, lo: int, hi: int) -> nat
    decreases hi + 1 - lo,
{
    if lo > hi || lo < 0 || lo > u16::MAX {
        0
    } else if m.contains_key(lo as u16) {
        free_count(m, lo + 1, hi)
    } else {
        1 + free_count(m, lo + 1, hi)
    }
}

/// Port allocator over the inclusive range `[start, end]`: each port is
/// free or owned by exactly one service.
pub struct PortManager {
    start: u16,
    end: u16,
    slots: Vec<Option<String>>,
}

impl PortManager {
    pub closed spec fn range_len(&self) -> int {
        if self.start <= self.end {
            self.end - self.start + 1
        } else {
            0
        }
    }

    /// The slots cover the range, one per port.
    pub closed spec fn wf(&self) -> bool {
        self.slots@.len() == self.range_len()
    }

    pub closed spec fn spec_start(&self) -> u16 {
        self.start
    }

    pub closed spec fn spec_end(&self) -> u16 {
        self.end
    }

    /// Allocated port to owning service.
    pub closed spec fn allocations(&self) -> Map<u16, Seq<char>> {
        Map::new(
            |p: u16|
                self.start <= p <= self.end && (p - self.start) < self.slots@.len()
                    && self.slots@[p - self.start] is Some,
            |p: u16| self.slots@[p - self.start]->0@,
        )
    }

    pub fn new(start: u16, end: u16) -> (r: Self)
        ensures
            r.wf(),
            r.spec_start() == start,
            r.spec_end() == end,
            r.allocations() == Map::<u16, Seq<char>>::empty(),
    {
        let mut slots: Vec<Option<String>> = Vec::new();
        if start <= end {
            let n: usize = (end - start) as usize + 1;
            let mut i: usize = 0;
            while i < n
                invariant
                    i <= n,
                    n == end - start + 1,
                    slots@.len() == i,
                    forall|j: int| 0 <= j < i ==> slots@[j] is None,
                decreases n - i,
            {
                slots.push(None);
                i += 1;
            }
        }
        let r = PortManager { start, end, slots };
        assert(r.allocations() =~= Map::<u16, Seq<char>>::empty());
        r
    }

    /// A manager over the default range 9000 to 10000.
    pub fn instance() -> (r: Self)
        ensures
            r.wf(),
            r.spec_start() == 9000,
            r.spec_end() == 10000,
            r.allocations() == Map::<u16, Seq<char>>::empty(),
    {
        Self::new(9000, 10000)
    }

    /// Gives the lowest free port of the range to `service_id`, or `None`
    /// when every port is taken.
    pub fn allocate_port(&mut self, service_id: String) -> (r: Option<u16>)
        requires
            old(self).wf(),
        ensures
            final(self).wf(),
            final(self).spec_start() == old(self).spec_start(),
            final(self).spec_end() == old(self).spec_end(),
            (final(self).allocations(), r) == allocate_spec(
                old(self).allocations(),
                old(self).spec_start(),
                old(self).spec_end(),
                service_id@,
            ),
    {
        let ghost m = self.allocations();
        if self.start > self.end {
            return None;
        }
        let n = self.slots.len();
        let mut i: usize = 0;
        while i < n
            invariant
                n == self.slots@.len(),
                self.wf(),
                self.start == old(self).start,
                self.end == old(self).end,
                self.start <= self.end,
                i <= n,
                m == self.allocations(),
                m == old(self).allocations(),
                first_free_from(m, self.start as int, self.end as int) == first_free_from(
                    m,
                    self.start + i,
                    self.end as int,
                ),
            decreases n - i,
        {
            let ghost p: u16 = (self.start + i) as u16;
            if self.slots[i].is_none() {
                assert(!m.contains_key(p));
                assert(first_free_from(m, self.start + i, self.end as int) == Some(p));
                self.slots.set(i, Some(service_id));
                proof {
                    assert(self.allocations() =~= m.insert(p, service_id@));
                }
                return Some(self.start + i as u16);
            }
            assert(m.contains_key(p));
            i += 1;
        }
        None
    }

    /// Frees `port`; a port that is not allocated stays free.
    pub fn release_port(&mut self, port: u16)
        requires
            old(self).wf(),
        ensures
            final(self).wf(),
            final(self).spec_start() == old(self).spec_start(),
            final(self).spec_end() == old(self).spec_end(),
            final(self).allocations() == old(self).allocations().remove(port),
    {
        let ghost m = self.allocations();
        if self.start <= port && port <= self.end {
            let i = (port - self.start) as usize;
            self.slots.set(i, None);
        }
        assert(self.allocations() =~= m.remove(port));
    }

    /// Frees every port owned by `service_id` and returns them, lowest
    /// first.
    pub fn release_all_ports_for_service(&mut self, service_id: &str) -> (r: Vec<u16>)
        requires
            old(self).wf(),
        ensures
            final(self).wf(),
            final(self).spec_start() == old(self).spec_start(),
            final(self).spec_end() == old(self).spec_end(),
            forall|p: u16|
                #[trigger] final(self).allocations().contains_key(p) <==> old(self).allocations().contains_key(p)
                    && old(self).allocations()[p] != service_id@,
            forall|p: u16|
                #[trigger] final(self).allocations().contains_key(p) ==> final(self).allocations()[p]
                    == old(self).allocations()[p],
            forall|p: u16|
                r@.contains(p) <==> (#[trigger] old(self).allocations().contains_key(p)
                    && old(self).allocations()[p] == service_id@),
            forall|a: int, b: int| 0 <= a < b < r@.len() ==> r@[a] < r@[b],
    {
        let ghost m = self.allocations();
        let sid = String::from_str(service_id);
        let mut released: Vec<u16> = Vec::new();
        let n = self.slots.len();
        let mut i: usize = 0;
        while i < n
            invariant
                n == self.slots@.len(),
                n == old(self).slots@.len(),
                self.wf(),
                self.start == old(self).start,
                self.end == old(self).end,
                i <= n,
                m == old(self).allocations(),
                sid@ == service_id@,
                forall|j: int|
                    i <= j < n ==> #[trigger] self.slots@[j] == old(self).slots@[j],
                forall|j: int|
                    0 <= j < i ==> (#[trigger] self.slots@[j] is Some <==> (old(self).slots@[j] is Some
                        && old(self).slots@[j]->0@ != service_id@)),
                forall|j: int|
                    0 <= j < i && self.slots@[j] is Some ==> #[trigger] self.slots@[j] == old(
                        self,
                    ).slots@[j],
                forall|k: int| 0 <= k < released@.len() ==> self.start <= #[trigger] released@[k] < self.start + i,
                forall|j: int|
                    0 <= j < i ==> ((old(self).slots@[j] is Some && old(self).slots@[j]->0@
                        == service_id@) <==> #[trigger] released@.contains((self.start + j) as u16)),
                forall|a: int, b: int| 0 <= a < b < released@.len() ==> released@[a] < released@[b],
            decreases n - i,
        {
            let owned = match &self.slots[i] {
                Some(s) => *s == sid,
                None => false,
            };
            if owned {
                let ghost p: u16 = (self.start + i) as u16;
                proof {
                    assert forall|j: int| 0 <= j < i implies !(#[trigger] released@.contains(
                        (self.start + j) as u16,
                    ) && (self.start + j) as u16 == p) by {}
                }
                let ghost before = released@;
                assert(old(self).slots@[i as int] is Some && old(self).slots@[i as int]->0@ == service_id@);
                self.slots.set(i, None);
                released.push((self.start as usize + i) as u16);
                proof {
                    assert(released@ == before.push(p));
                    assert forall|x: u16| released@.contains(x) <==> (before.contains(x) || x == p) by {
                        if released@.contains(x) {
                            let k = choose|k: int| 0 <= k < released@.len() && released@[k] == x;
                            if k < before.len() {
                                assert(before[k] == x);
                            }
                        }
                        if before.contains(x) {
                            let k = choose|k: int| 0 <= k < before.len() && before[k] == x;
                            assert(released@[k] == x);
                        }
                        if x == p {
                            assert(released@[before.len() as int] == p);
                        }
                    }
                    assert forall|j: int| 0 <= j < i + 1 implies ((old(self).slots@[j] is Some
                        && old(self).slots@[j]->0@ == service_id@) <==> #[trigger] released@.contains(
                        (self.start + j) as u16)) by {
                        let x = (self.start + j) as u16;
                        if j == i {
                            assert(x == p);
                            assert(released@[released@.len() - 1] == p);
                            assert(released@.contains(p));
                        }
                        if j < i {
                            assert(x != p);
                            assert(before.contains(x) <==> (old(self).slots@[j] is Some
                                && old(self).slots@[j]->0@ == service_id@));
                        }
                    }
                }
            } else {
                proof {
                    let q = (self.start + i) as u16;
                    if released@.contains(q) {
                        let k = choose|k: int| 0 <= k < released@.len() && released@[k] == q;
                        assert(released@[k] < self.start + i);
                    }
                }
            }
            i += 1;
        }
        proof {
            assert forall|p: u16| released@.contains(p) <==> (#[trigger] m.contains_key(p) && m[p] == service_id@) by {
                if released@.contains(p) {
                    let k = choose|k: int| 0 <= k < released@.len() && released@[k] == p;
                    assert(self.start <= released@[k] < self.start + n);
                    let j = p - self.start;
                    assert((self.start + j) as u16 == p);
                }
                if m.contains_key(p) && m[p] == service_id@ {
                    let j = p - self.start;
                    assert((self.start + j) as u16 == p);
                }
            }
            assert forall|p: u16| #[trigger] self.allocations().contains_key(p) <==> m.contains_key(p)
                && m[p] != service_id@ by {}
        }
        released
    }

    /// The number of free ports in the range.
    pub fn available_port_count(&self) -> (r: usize)
        requires
            self.wf(),
        ensures
            r == free_count(self.allocations(), self.spec_start() as int, self.spec_end() as int),
    {
        let n = self.slots.len();
        let mut count: usize = 0;
        let mut i: usize = n;
        proof {
            assert(free_count(self.allocations(), self.start + n, self.end as int) == 0);
        }
        while i > 0
            invariant
                n == self.slots@.len(),
                self.wf(),
                i <= n,
                count <= n - i,
                count == free_count(self.allocations(), self.start + i, self.end as int),
            decreases i,
        {
            i -= 1;
            let ghost p: u16 = (self.start + i) as u16;
            if self.slots[i].is_none() {
                assert(!self.allocations().contains_key(p));
                count += 1;
            } else {
                assert(self.allocations().contains_key(p));
            }
        }
        count
    }

    /// Every allocated port lies in the range.
    pub proof fn lemma_allocations_in_range(&self)
        ensures
            forall|p: u16|
                #[trigger] self.allocations().contains_key(p) ==> self.spec_start() <= p
                    <= self.spec_end(),
    {
    }
}

/// One allocation followed by the release of the port it handed out gives
/// back the allocations there were; with no port free nothing changed.
pub proof fn lemma_allocate_then_release(m: Map<u16, Seq<char>>, lo: u16, hi: u16, service: Seq<char>)
    ensures
        match allocate_spec(m, lo, hi, service) {
            (m2, Some(p)) => m2.remove(p) == m && lo <= p <= hi && !m.contains_key(p),
            (m2, None) => m2 == m,
        },
{
    lemma_first_free(m, lo as int, hi as int);
    if let Some(p) = first_free_from(m, lo as int, hi as int) {
        assert(m.insert(p, service).remove(p) =~= m);
    }
}

/// Releasing a list of ports commutes with removing one more port.
proof fn lemma_release_all_remove(m: Map<u16, Seq<char>>, p: u16, ports: Seq<u16>)
    ensures
        release_all_spec(m.remove(p), ports) == release_all_spec(m, ports).remove(p),
    decreases ports.len(),
{
    if ports.len() > 0 {
        assert(m.remove(p).remove(ports[0]) =~= m.remove(ports[0]).remove(p));
        lemma_release_all_remove(m.remove(ports[0]), p, ports.drop_first());
    }
}

/// The port `first_free_from` finds is free and in range.
proof fn lemma_first_free(m: Map<u16, Seq<char>>, p: int, hi: int)
    ensures
        first_free_from(m, p, hi) matches Some(q) ==> !m.contains_key(q) && p <= q <= hi,
    decreases hi + 1 - p,
{
    if !(p > hi || p < 0 || p > u16::MAX) && m.contains_key(p as u16) {
        lemma_first_free(m, p + 1, hi);
    }
}

/// Allocating ports for a list of services and then releasing the ports
/// handed out, in the same order, gives back the allocations there were.
pub proof fn lemma_allocate_release_round_trip(
    m: Map<u16, Seq<char>>,
    lo: u16,
    hi: u16,
    services: Seq<Seq<char>>,
)
    ensures
        release_all_spec(allocate_all_spec(m, lo, hi, services).0, allocate_all_spec(m, lo, hi, services).1) == m,
    decreases services.len(),
{
    if services.len() > 0 {
        let (m1, r) = allocate_spec(m, lo, hi, services[0]);
        let (m2, ports) = allocate_all_spec(m1, lo, hi, services.drop_first());
        lemma_allocate_release_round_trip(m1, lo, hi, services.drop_first());
        lemma_first_free(m, lo as int, hi as int);
        match r {
            Some(p) => {
                let all = seq![p] + ports;
                assert(all[0] == p);
                assert(all.drop_first() =~= ports);
                lemma_release_all_remove(m2, p, ports);
                assert(m.insert(p, services[0]).remove(p) =~= m);
            },
            None => {},
        }
    }
}

/// Releasing a list of ports removes exactly the ports of the list,
/// whatever their order.
pub proof fn lemma_release_all_is_removal(m: Map<u16, Seq<char>>, ports: Seq<u16>)
    ensures
        release_all_spec(m, ports) == m.remove_keys(ports.to_set()),
    decreases ports.len(),
{
    if ports.len() == 0 {
        assert(m.remove_keys(ports.to_set()) =~= m);
    } else {
        let rest = ports.drop_first();
        lemma_release_all_is_removal(m.remove(ports[0]), rest);
        assert forall|q: u16| ports.to_set().contains(q) <==> (rest.to_set().contains(q) || q == ports[0]) by {
            if ports.contains(q) && q != ports[0] {
                let i = choose|i: int| 0 <= i < ports.len() && ports[i] == q;
                assert(rest[i - 1] == q);
            }
            if rest.contains(q) {
                let i = choose|i: int| 0 <= i < rest.len() && rest[i] == q;
                assert(ports[i + 1] == q);
            }
            if q == ports[0] {
                assert(ports.contains(q));
            }
        }
        assert(m.remove(ports[0]).remove_keys(rest.to_set()) =~= m.remove_keys(ports.to_set()));
    }
}

/// Workers that each got a port for their service (allocations for
/// `services` in turn) and are then stopped, in any order, leave the
/// allocations as they were before the first start.
pub proof fn lemma_workers_start_stop_any_order(
    m: Map<u16, Seq<char>>,
    lo: u16,
    hi: u16,
    services: Seq<Seq<char>>,
    stop_order: Seq<u16>,
)
    requires
        stop_order.to_set() == allocate_all_spec(m, lo, hi, services).1.to_set(),
    ensures
        release_all_spec(allocate_all_spec(m, lo, hi, services).0, stop_order) == m,
{
    let (m2, ports) = allocate_all_spec(m, lo, hi, services);
    lemma_allocate_release_round_trip(m, lo, hi, services);
    lemma_release_all_is_removal(m2, ports);
    lemma_release_all_is_removal(m2, stop_order);
}

} // verus!
