//! Supervision of CGI-style worker processes: each worker owns a port from
//! the port manager and moves through Stopped, Starting, Running and
//! Failed. The caller spawns and watches the child process and reports the
//! outcome back.

use vstd::prelude::*;
use crate::configuration::{RequestHandler, Site};
use crate::port_manager::{PortManager, allocate_spec};
use crate::round_robin::strings_view;
use crate::text::{decimal, decimal_string};

verus! {

#[derive(PartialEq, Eq, Structural, Clone, Copy, Debug)]
pub enum WorkerState {
    Stopped,
    Starting,
    Running,
    Failed,
}

/// One supervised worker process.
pub struct PhpCgiProcess {
    executable_path: String,
    service_id: String,
    restart_count: u32,
    assigned_port: Option<u16>,
    state: WorkerState,
}

impl PhpCgiProcess {
    pub closed spec fn spec_state(&self) -> WorkerState {
        self.state
    }

    pub closed spec fn spec_port(&self) -> Option<u16> {
        self.assigned_port
    }

    pub closed spec fn spec_service_id(&self) -> Seq<char> {
        self.service_id@
    }

    pub closed spec fn spec_restart_count(&self) -> u32 {
        self.restart_count
    }

    pub fn new(executable_path: String, service_id: String) -> (r: Self)
        ensures
            r.spec_state() == WorkerState::Stopped,
            r.spec_port() is None,
            r.spec_service_id() == service_id@,
            r.spec_restart_count() == 0,
            r.spec_executable_path() == executable_path@,
    {
        PhpCgiProcess { executable_path, service_id, restart_count: 0, assigned_port: None, state: WorkerState::Stopped }
    }

    pub fn get_port(&self) -> (r: Option<u16>)
        ensures
            r == self.spec_port(),
    {
        self.assigned_port
    }

    pub closed spec fn spec_executable_path(&self) -> Seq<char> {
        self.executable_path@
    }

    pub fn get_executable_path(&self) -> (r: &String)
        ensures
            r@ == self.spec_executable_path(),
    {
        &self.executable_path
    }

    pub fn state(&self) -> (r: WorkerState)
        ensures
            r == self.spec_state(),
    {
        self.state
    }

    /// Gets a port before spawning: the one already held, else a fresh one
    /// from `ports` for this worker's service. With none free the worker
    /// fails.
    pub fn prepare_start(&mut self, ports: &mut PortManager) -> (r: Result<u16, String>)
        requires
            old(ports).wf(),
        ensures
            final(ports).wf(),
            final(self).spec_service_id() == old(self).spec_service_id(),
            final(self).spec_restart_count() == old(self).spec_restart_count(),
            old(self).spec_port() matches Some(p) ==> r == Ok::<u16, String>(p) && final(self).spec_port()
                == Some(p) && final(ports).allocations() == old(ports).allocations()
                && final(self).spec_state() == WorkerState::Starting,
            old(self).spec_port() is None ==> {
                let (m, p) = allocate_spec(
                    old(ports).allocations(),
                    old(ports).spec_start(),
                    old(ports).spec_end(),
                    old(self).spec_service_id(),
                );
                &&& final(ports).allocations() == m
                &&& final(self).spec_port() == p
                &&& (p matches Some(q) ==> r == Ok::<u16, String>(q) && final(self).spec_state()
                    == WorkerState::Starting)
                &&& (p is None ==> r is Err && final(self).spec_state() == WorkerState::Failed)
            },
    {
        match self.assigned_port {
            Some(p) => {
                self.state = WorkerState::Starting;
                Ok(p)
            },
            None => {
                let p = ports.allocate_port(self.service_id.clone());
                self.assigned_port = p;
                match p {
                    Some(q) => {
                        self.state = WorkerState::Starting;
                        Ok(q)
                    },
                    None => {
                        self.state = WorkerState::Failed;
                        Err(String::from_str("Failed to allocate port for PHP-CGI process"))
                    },
                }
            },
        }
    }

    /// The spawn outcome: a running child counts one more start; a failed
    /// spawn gives the port back and the worker fails.
    pub fn on_spawn_result(&mut self, ports: &mut PortManager, spawned: bool)
        requires
            old(ports).wf(),
        ensures
            final(ports).wf(),
            final(self).spec_service_id() == old(self).spec_service_id(),
            spawned ==> final(self).spec_state() == WorkerState::Running && final(self).spec_port()
                == old(self).spec_port() && final(ports).allocations() == old(ports).allocations()
                && final(self).spec_restart_count() == if old(self).spec_restart_count() == u32::MAX {
                u32::MAX
            } else {
                (old(self).spec_restart_count() + 1) as u32
            },
            !spawned ==> final(self).spec_state() == WorkerState::Failed && final(self).spec_port() is None
                && final(ports).allocations() == match old(self).spec_port() {
                Some(p) => old(ports).allocations().remove(p),
                None => old(ports).allocations(),
            },
    {
        if spawned {
            self.state = WorkerState::Running;
            self.restart_count = self.restart_count.saturating_add(1);
        } else {
            match self.assigned_port {
                Some(p) => ports.release_port(p),
                None => {},
            }
            self.assigned_port = None;
            self.state = WorkerState::Failed;
        }
    }

    /// The child was found dead (or its status could not be read).
    pub fn on_exit(&mut self)
        ensures
            final(self).spec_state() == WorkerState::Failed,
            final(self).spec_port() == old(self).spec_port(),
            final(self).spec_service_id() == old(self).spec_service_id(),
    {
        self.state = WorkerState::Failed;
    }

    /// Whether the monitor should restart this worker (after its back-off).
    pub fn needs_restart(&self) -> (r: bool)
        ensures
            r == (self.spec_state() != WorkerState::Running),
    {
        self.state != WorkerState::Running
    }

    /// Stops the worker: its port goes back to `ports`.
    pub fn stop(&mut self, ports: &mut PortManager)
        requires
            old(ports).wf(),
        ensures
            final(ports).wf(),
            final(self).spec_state() == WorkerState::Stopped,
            final(self).spec_port() is None,
            final(ports).allocations() == match old(self).spec_port() {
                Some(p) => old(ports).allocations().remove(p),
                None => old(ports).allocations(),
            },
    {
        match self.assigned_port {
            Some(p) => ports.release_port(p),
            None => {},
        }
        self.assigned_port = None;
        self.state = WorkerState::Stopped;
    }
}

/// The address a worker's child binds: `127.0.0.1:<port>`.
pub fn worker_bind_address(port: u16) -> (r: String)
    ensures
        r@ == "127.0.0.1:"@ + decimal(port as nat),
{
    let mut a = String::from_str("127.0.0.1:");
    let d = decimal_string(port as u64);
    a.append(d.as_str());
    a
}

/// The service ids of `n` workers: `php-worker-0` up to `php-worker-<n-1>`.
pub fn worker_service_ids(n: usize) -> (r: Vec<String>)
    ensures
        r@.len() == n,
        forall|i: int| 0 <= i < n ==> (#[trigger] r@[i])@ == "php-worker-"@ + decimal(i as nat),
{
    let mut r: Vec<String> = Vec::new();
    let mut i: usize = 0;
    while i < n
        invariant
            i <= n,
            r@.len() == i,
            forall|k: int| 0 <= k < i ==> (#[trigger] r@[k])@ == "php-worker-"@ + decimal(k as nat),
        decreases n - i,
    {
        let mut s = String::from_str("php-worker-");
        let d = decimal_string(i as u64);
        s.append(d.as_str());
        r.push(s);
        i += 1;
    }
    r
}

/// How many workers a handler runs: its configured count, or the number of
/// CPUs when that is 0.
pub fn worker_count(concurrent_threads: usize, cpu_count: usize) -> (r: usize)
    ensures
        r == if concurrent_threads == 0 {
            cpu_count
        } else {
            concurrent_threads
        },
{
    if concurrent_threads == 0 {
        cpu_count
    } else {
        concurrent_threads
    }
}

/// Whether some enabled site refers to handler `id`.
pub open spec fn handler_used(sites: Seq<Site>, id: Seq<char>) -> bool {
    exists|i: int, j: int|
        0 <= i < sites.len() && 0 <= j < sites[i].enabled_handlers@.len() && (
        #[trigger] sites[i].enabled_handlers@[j])@ == id
}

fn is_used(sites: &Vec<Site>, id: &String) -> (r: bool)
    ensures
        r == handler_used(sites@, id@),
{
    let mut i: usize = 0;
    while i < sites.len()
        invariant
            i <= sites@.len(),
            forall|a: int, b: int|
                0 <= a < i && 0 <= b < sites@[a].enabled_handlers@.len() ==> (
                #[trigger] sites@[a].enabled_handlers@[b])@ != id@,
        decreases sites@.len() - i,
    {
        let handlers = &sites[i].enabled_handlers;
        let mut j: usize = 0;
        while j < handlers.len()
            invariant
                i < sites@.len(),
                handlers == sites@[i as int].enabled_handlers,
                j <= handlers@.len(),
                forall|a: int, b: int|
                    0 <= a < i && 0 <= b < sites@[a].enabled_handlers@.len() ==> (
                    #[trigger] sites@[a].enabled_handlers@[b])@ != id@,
                forall|b: int| 0 <= b < j ==> (#[trigger] handlers@[b])@ != id@,
            decreases handlers@.len() - j,
        {
            if handlers[j] == *id {
                return true;
            }
            j += 1;
        }
        i += 1;
    }
    false
}

/// The handlers to start: enabled, referred to by a site, and the first of
/// their type; given as indices into `handlers`, in order.
pub open spec fn handler_selected(sites: Seq<Site>, handlers: Seq<RequestHandler>, k: int) -> bool {
    &&& handlers[k].is_enabled
    &&& handler_used(sites, handlers[k].id@)
    &&& forall|e: int|
        0 <= e < k && handlers[e].is_enabled && handler_used(sites, handlers[e].id@) ==> (
        #[trigger] handlers[e].handler_type)@ != handlers[k].handler_type@
}

pub fn handlers_to_start(sites: &Vec<Site>, handlers: &Vec<RequestHandler>) -> (r: Vec<usize>)
    ensures
        forall|k: int| 0 <= k < handlers@.len() ==> (r@.contains(k as usize) <==> handler_selected(sites@, handlers@, k)),
        forall|a: int, b: int| 0 <= a < b < r@.len() ==> r@[a] < r@[b],
        forall|a: int| 0 <= a < r@.len() ==> r@[a] < handlers@.len(),
{
    let mut r: Vec<usize> = Vec::new();
    let mut types: Vec<String> = Vec::new();
    let mut k: usize = 0;
    while k < handlers.len()
        invariant
            k <= handlers@.len(),
            forall|q: int| 0 <= q < k ==> (r@.contains(q as usize) <==> handler_selected(sites@, handlers@, q)),
            forall|a: int, b: int| 0 <= a < b < r@.len() ==> r@[a] < r@[b],
            forall|a: int| 0 <= a < r@.len() ==> r@[a] < k,
            forall|t: Seq<char>|
                strings_view(types@).contains(t) <==> exists|e: int|
                    0 <= e < k && handlers@[e].is_enabled && handler_used(sites@, handlers@[e].id@)
                        && (#[trigger] handlers@[e].handler_type)@ == t,
        decreases handlers@.len() - k,
    {
        let h = &handlers[k];
        let ghost old_r = r@;
        let ghost old_types = types@;
        let mut seen = false;
        let mut t: usize = 0;
        while t < types.len()
            invariant
                t <= types@.len(),
                !seen ==> forall|q: int| 0 <= q < t ==> types@[q]@ != h.handler_type@,
                seen ==> strings_view(types@).contains(h.handler_type@),
            decreases types@.len() - t,
        {
            if types[t] == h.handler_type {
                proof {
                    assert(strings_view(types@)[t as int] == h.handler_type@);
                }
                seen = true;
            }
            t += 1;
        }
        proof {
            if !seen {
                assert(!strings_view(types@).contains(h.handler_type@));
            }
        }
        if h.is_enabled && is_used(sites, &h.id) && !seen {
            r.push(k);
            types.push(h.handler_type.clone());
        }
        proof {
            assert forall|tt: Seq<char>| strings_view(types@).contains(tt) <==> exists|e: int|
                0 <= e < k + 1 && handlers@[e].is_enabled && handler_used(sites@, handlers@[e].id@)
                    && (#[trigger] handlers@[e].handler_type)@ == tt by {
                if strings_view(types@).contains(tt) {
                    let i = choose|i: int| 0 <= i < strings_view(types@).len() && strings_view(types@)[i] == tt;
                    if i < old_types.len() {
                        assert(strings_view(old_types)[i] == tt);
                        assert(strings_view(old_types).contains(tt));
                    } else {
                        assert(handlers@[k as int].handler_type@ == tt);
                    }
                }
                if exists|e: int| 0 <= e < k + 1 && handlers@[e].is_enabled && handler_used(sites@, handlers@[e].id@)
                    && (#[trigger] handlers@[e].handler_type)@ == tt {
                    let e = choose|e: int| 0 <= e < k + 1 && handlers@[e].is_enabled && handler_used(sites@, handlers@[e].id@)
                        && (#[trigger] handlers@[e].handler_type)@ == tt;
                    if e < k {
                        assert(strings_view(old_types).contains(tt));
                        let i = choose|i: int| 0 <= i < strings_view(old_types).len() && strings_view(old_types)[i] == tt;
                        assert(strings_view(types@)[i] == tt);
                    } else if !seen {
                        assert(strings_view(types@)[old_types.len() as int] == tt);
                    } else {
                        assert(strings_view(old_types).contains(tt));
                        let i = choose|i: int| 0 <= i < strings_view(old_types).len() && strings_view(old_types)[i] == tt;
                        assert(strings_view(types@)[i] == tt);
                    }
                }
            }
            assert forall|q: int| 0 <= q < k + 1 implies (r@.contains(q as usize) <==> handler_selected(sites@, handlers@, q)) by {
                if q < k {
                    if r@.contains(q as usize) {
                        let i = choose|i: int| 0 <= i < r@.len() && r@[i] == q as usize;
                        if i < old_r.len() {
                            assert(old_r[i] == q as usize);
                        }
                    }
                    if old_r.contains(q as usize) {
                        let i = choose|i: int| 0 <= i < old_r.len() && old_r[i] == q as usize;
                        assert(r@[i] == q as usize);
                    }
                } else {
                    if r@.contains(q as usize) {
                        let i = choose|i: int| 0 <= i < r@.len() && r@[i] == q as usize;
                        if i < old_r.len() {
                            assert(old_r[i] < k);
                        }
                    }
                    if handler_selected(sites@, handlers@, q) {
                        if seen {
                            let e = choose|e: int| 0 <= e < k && handlers@[e].is_enabled && handler_used(sites@, handlers@[e].id@)
                                && (#[trigger] handlers@[e].handler_type)@ == h.handler_type@;
                        }
                        assert(r@[old_r.len() as int] == q as usize);
                    } else if !seen && h.is_enabled && handler_used(sites@, h.id@) {
                        assert forall|e: int| 0 <= e < k && handlers@[e].is_enabled && handler_used(sites@, handlers@[e].id@)
                            implies (#[trigger] handlers@[e].handler_type)@ != handlers@[q].handler_type@ by {
                            if handlers@[e].handler_type@ == handlers@[q].handler_type@ {
                                assert(strings_view(old_types).contains(h.handler_type@));
                            }
                        }
                    }
                }
            }
        }
        k += 1;
    }
    r
}

} // verus!
