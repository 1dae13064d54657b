//! Round-robin choice of upstream servers, and the registry that keeps one
//! balancer per proxy processor.

use vstd::prelude::*;

verus! {

/// The cursor after `c` on a list of `n` servers.
pub open spec fn step(c: int, n: int) -> int {
    if c + 1 >= n {
        0
    } else {
        c + 1
    }
}

/// `i` taken back into `[0, n)` for `0 <= i < 2n`.
pub open spec fn wrap(i: int, n: int) -> int {
    if i < n {
        i
    } else {
        i - n
    }
}

/// The servers that `k` calls of `get_next_server` hand out from cursor
/// `c`.
pub open spec fn rr_run(servers: Seq<Seq<char>>, c: int, k: nat) -> Seq<Seq<char>>
    decreases k,
{
    if k == 0 || servers.len() == 0 {
        Seq::empty()
    } else {
        seq![servers[c]] + rr_run(servers, step(c, servers.len() as int), (k - 1) as nat)
    }
}

/// The strings of `v` as character sequences.
pub open spec fn strings_view(v: Seq<String>) -> Seq<Seq<char>> {
    v.map_values(|s: String| s@)
}

/// Round-robin balancer: an ordered server list and a cursor on it.
pub struct RoundRobin {
    servers: Vec<String>,
    cursor: usize,
}

impl View for RoundRobin {
    type V = (Seq<Seq<char>>, int);

    closed spec fn view(&self) -> Self::V {
        (strings_view(self.servers@), self.cursor as int)
    }
}

impl RoundRobin {
    /// The cursor points into the list, or is 0 on an empty list.
    pub closed spec fn wf(&self) -> bool {
        if self.servers@.len() == 0 {
            self.cursor == 0
        } else {
            self.cursor < self.servers@.len()
        }
    }

    pub fn new(servers: Vec<String>) -> (r: Self)
        ensures
            r.wf(),
            r@ == (strings_view(servers@), 0int),
    {
        RoundRobin { servers, cursor: 0 }
    }

    /// The server at the cursor, the cursor moving one place on (back to
    /// the start after the last); `None` exactly when the list is empty.
    pub fn get_next_server(&mut self) -> (r: Option<String>)
        requires
            old(self).wf(),
        ensures
            final(self).wf(),
            final(self)@.0 == old(self)@.0,
            old(self)@.0.len() == 0 <==> r is None,
            match r {
                Some(s) => s@ == old(self)@.0[old(self)@.1] && final(self)@.1 == step(
                    old(self)@.1,
                    old(self)@.0.len() as int,
                ),
                None => final(self)@ == old(self)@,
            },
    {
        let n = self.servers.len();
        if n == 0 {
            return None;
        }
        let s = self.servers[self.cursor].clone();
        if self.cursor + 1 >= n {
            self.cursor = 0;
        } else {
            self.cursor = self.cursor + 1;
        }
        Some(s)
    }

    pub fn server_count(&self) -> (r: usize)
        ensures
            r == self@.0.len(),
    {
        self.servers.len()
    }
}

/// `k` calls from cursor `c` (with `k` at most the list length) hand out
/// the servers from the cursor on, wrapping round: element `j` is the
/// server at `(c + j) mod n`.
proof fn lemma_rr_run_index(servers: Seq<Seq<char>>, c: int, k: nat, j: int)
    requires
        0 <= c < servers.len(),
        k <= servers.len(),
        0 <= j < k,
    ensures
        rr_run(servers, c, k).len() == k,
        rr_run(servers, c, k)[j] == servers[wrap(c + j, servers.len() as int)],
    decreases k,
{
    let n = servers.len() as int;
    let rest = rr_run(servers, step(c, n), (k - 1) as nat);
    if k > 1 {
        lemma_rr_run_index(servers, step(c, n), (k - 1) as nat, if j > 0 { j - 1 } else { 0 });
    } else {
        assert(rest.len() == 0);
    }
    if j > 0 {
        assert(rr_run(servers, c, k)[j] == rest[j - 1]);
    }
}

/// Any `n` consecutive calls on a list of `n` servers hand out every
/// server once, in list order starting at the cursor.
pub proof fn lemma_window_is_rotation(servers: Seq<Seq<char>>, c: int)
    requires
        0 <= c < servers.len(),
    ensures
        rr_run(servers, c, servers.len()).len() == servers.len(),
        forall|j: int|
            0 <= j < servers.len() ==> #[trigger] rr_run(servers, c, servers.len())[j] == servers[wrap(
                c + j,
                servers.len() as int,
            )],
        forall|a: int, b: int|
            0 <= a < b < servers.len() ==> #[trigger] wrap(c + a, servers.len() as int) != #[trigger] wrap(
                c + b,
                servers.len() as int,
            ),
        forall|i: int|
            0 <= i < servers.len() ==> rr_run(servers, c, servers.len()).contains(#[trigger] servers[i]),
{
    let n = servers.len();
    assert forall|j: int| 0 <= j < n implies #[trigger] rr_run(servers, c, n)[j] == servers[wrap(c + j, n as int)] by {
        lemma_rr_run_index(servers, c, n, j);
    }
    lemma_rr_run_index(servers, c, n, 0);
    assert forall|i: int| 0 <= i < n implies rr_run(servers, c, n).contains(#[trigger] servers[i]) by {
        let j = if i >= c { i - c } else { i + n - c };
        assert(wrap(c + j, n as int) == i);
        assert(rr_run(servers, c, n)[j] == servers[i]);
    }
}

fn clone_strings(v: &Vec<String>) -> (r: Vec<String>)
    ensures
        r@ == v@,
{
    let mut r: Vec<String> = Vec::new();
    let mut i: usize = 0;
    while i < v.len()
        invariant
            i <= v@.len(),
            r@ == v@.subrange(0, i as int),
        decreases v@.len() - i,
    {
        r.push(v[i].clone());
        i += 1;
        proof {
            assert(r@ =~= v@.subrange(0, i as int));
        }
    }
    proof {
        assert(v@.subrange(0, v@.len() as int) =~= v@);
    }
    r
}

/// The cursor after `k` calls from cursor `c` on a list of `n` servers.
pub open spec fn step_iter(c: int, n: int, k: nat) -> int
    decreases k,
{
    if k == 0 {
        c
    } else {
        step(step_iter(c, n, (k - 1) as nat), n)
    }
}

/// After `k` calls (at most `n`) the cursor is at `(c + k) mod n`; after
/// `n` calls it is back at `c`.
pub proof fn lemma_step_iter(c: int, n: int, k: nat)
    requires
        0 <= c < n,
        k <= n,
    ensures
        step_iter(c, n, k) == wrap(c + k, n),
        k == n ==> step_iter(c, n, k) == c,
    decreases k,
{
    if k > 0 {
        lemma_step_iter(c, n, (k - 1) as nat);
    }
}

/// One balancer per proxy processor id.
pub struct LoadBalancerRegistry {
    balancers: Vec<(String, RoundRobin)>,
}

/// Whether `id` has a balancer in `b`.
pub open spec fn has_balancer(b: Seq<(String, RoundRobin)>, id: Seq<char>) -> bool {
    exists|i: int| 0 <= i < b.len() && (#[trigger] b[i]).0@ == id
}

impl LoadBalancerRegistry {
    /// Ids are unique and every balancer is well formed.
    pub closed spec fn wf(&self) -> bool {
        &&& forall|i: int, j: int|
            0 <= i < j < self.balancers@.len() ==> self.balancers@[i].0@ != self.balancers@[j].0@
        &&& forall|i: int| 0 <= i < self.balancers@.len() ==> (#[trigger] self.balancers@[i]).1.wf()
    }

    /// Processor id to the balancer's list and cursor.
    pub closed spec fn balancers_map(&self) -> Map<Seq<char>, (Seq<Seq<char>>, int)> {
        Map::new(
            |id: Seq<char>| has_balancer(self.balancers@, id),
            |id: Seq<char>|
                {
                    let i = choose|i: int| 0 <= i < self.balancers@.len() && self.balancers@[i].0@ == id;
                    self.balancers@[i].1@
                },
        )
    }

    pub fn new() -> (r: Self)
        ensures
            r.wf(),
            r.balancers_map().dom() == Set::<Seq<char>>::empty(),
    {
        let r = LoadBalancerRegistry { balancers: Vec::new() };
        assert(r.balancers_map().dom() =~= Set::<Seq<char>>::empty());
        r
    }

    fn find(&self, id: &str) -> (r: Option<usize>)
        ensures
            match r {
                Some(i) => i < self.balancers@.len() && self.balancers@[i as int].0@ == id@,
                None => !has_balancer(self.balancers@, id@),
            },
    {
        let target = String::from_str(id);
        let mut i: usize = 0;
        while i < self.balancers.len()
            invariant
                i <= self.balancers@.len(),
                target@ == id@,
                forall|j: int| 0 <= j < i ==> self.balancers@[j].0@ != id@,
            decreases self.balancers@.len() - i,
        {
            if self.balancers[i].0 == target {
                return Some(i);
            }
            i += 1;
        }
        None
    }

    pub fn check_load_balancer_exists(&self, id: &str) -> (r: bool)
        ensures
            r == self.balancers_map().contains_key(id@),
    {
        self.find(id).is_some()
    }

    /// Registers `lb` under `id` unless `id` already has a balancer.
    pub fn create_load_balancer(&mut self, id: &str, lb: RoundRobin)
        requires
            old(self).wf(),
            lb.wf(),
        ensures
            final(self).wf(),
            old(self).balancers_map().contains_key(id@) ==> final(self).balancers_map() == old(
                self,
            ).balancers_map(),
            !old(self).balancers_map().contains_key(id@) ==> final(self).balancers_map() == old(
                self,
            ).balancers_map().insert(id@, lb@),
    {
        let ghost m = self.balancers_map();
        match self.find(id) {
            Some(_) => {},
            None => {
                let ghost old_b = self.balancers@;
                self.balancers.push((String::from_str(id), lb));
                proof {
                    let b = self.balancers@;
                    assert forall|k: Seq<char>| has_balancer(b, k) <==> (has_balancer(old_b, k) || k == id@) by {
                        if has_balancer(b, k) {
                            let i = choose|i: int| 0 <= i < b.len() && (#[trigger] b[i]).0@ == k;
                            if i < old_b.len() {
                                assert(old_b[i] == b[i]);
                            }
                        }
                        if has_balancer(old_b, k) {
                            let i = choose|i: int| 0 <= i < old_b.len() && (#[trigger] old_b[i]).0@ == k;
                            assert(old_b[i] == b[i]);
                        }
                        if k == id@ {
                            assert(b[old_b.len() as int].0@ == id@);
                        }
                    }
                    assert forall|k: Seq<char>| #[trigger] self.balancers_map().contains_key(k) implies
                        self.balancers_map()[k] == m.insert(id@, lb@)[k] by {
                        let i = choose|i: int| 0 <= i < b.len() && b[i].0@ == k;
                        if k == id@ {
                            assert(i == old_b.len());
                        } else {
                            assert(i < old_b.len());
                            assert(old_b[i] == b[i]);
                            let i0 = choose|i0: int| 0 <= i0 < old_b.len() && old_b[i0].0@ == k;
                            assert(i0 == i);
                        }
                    }
                    assert(self.balancers_map() =~= m.insert(id@, lb@));
                }
            },
        }
    }

    /// The next server of `id`'s balancer, creating the balancer over
    /// `servers` first when `id` has none.
    pub fn get_next_server(&mut self, id: &str, servers: &Vec<String>) -> (r: Option<String>)
        requires
            old(self).wf(),
        ensures
            final(self).wf(),
            final(self).balancers_map().contains_key(id@),
            ({
                let before = if old(self).balancers_map().contains_key(id@) {
                    old(self).balancers_map()[id@]
                } else {
                    (strings_view(servers@), 0int)
                };
                &&& final(self).balancers_map()[id@].0 == before.0
                &&& (before.0.len() == 0 <==> r is None)
                &&& (r is Some ==> r->0@ == before.0[before.1] && final(self).balancers_map()[id@].1
                    == step(before.1, before.0.len() as int))
            }),
    {
        match self.find(id) {
            Some(i) => {
                assert(has_balancer(self.balancers@, id@));
            },
            None => {
                self.create_load_balancer(id, RoundRobin::new(clone_strings(servers)));
                assert(self.balancers_map().contains_key(id@));
            },
        }
        assert(has_balancer(self.balancers@, id@));
        let ghost mid = self.balancers_map();
        let i = match self.find(id) {
            Some(i) => i,
            None => {
                proof {
                    assert(false);
                }
                0
            },
        };
        let ghost old_b = self.balancers@;
        proof {
            let i0 = choose|i0: int| 0 <= i0 < old_b.len() && old_b[i0].0@ == id@;
            assert(i0 == i);
        }
        assert(mid[id@] == old_b[i as int].1@);
        let mut entry = self.balancers.remove(i);
        let r = entry.1.get_next_server();
        let ghost after_rr = entry.1@;
        self.balancers.insert(i, entry);
        proof {
            let b = self.balancers@;
            assert forall|j: int| 0 <= j < b.len() && j != i implies b[j] == old_b[j] by {}
            assert(b[i as int].0 == old_b[i as int].0);
            assert forall|k: Seq<char>| has_balancer(b, k) <==> has_balancer(old_b, k) by {
                if has_balancer(b, k) {
                    let j = choose|j: int| 0 <= j < b.len() && (#[trigger] b[j]).0@ == k;
                    assert(old_b[j].0@ == k);
                }
                if has_balancer(old_b, k) {
                    let j = choose|j: int| 0 <= j < old_b.len() && (#[trigger] old_b[j]).0@ == k;
                    assert(b[j].0@ == k);
                }
            }
            let j = choose|j: int| 0 <= j < b.len() && b[j].0@ == id@;
            assert(j == i);
            assert(self.balancers_map()[id@] == after_rr);
        }
        r
    }
}

} // verus!
