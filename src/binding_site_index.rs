//! Lookup of sites by binding and by hostname, with the fallback to a
//! default wildcard site.

use vstd::prelude::*;
use crate::configuration::{Binding, Site};
use crate::http_util::{same_name, same_name_exec};
use crate::text::str_eq;

verus! {

/// Whether `site` is enabled and lists `host` (ignoring ASCII case).
pub open spec fn site_serves(site: Site, host: Seq<char>) -> bool {
    site.is_enabled && exists|j: int| 0 <= j < site.hostnames@.len() && same_name(#[trigger] site.hostnames@[j]@, host)
}

/// Whether `site` is an enabled default site listing `*`.
pub open spec fn default_wildcard(site: Site) -> bool {
    site.is_enabled && site.is_default && exists|j: int| 0 <= j < site.hostnames@.len() && (#[trigger] site.hostnames@[j])@ == "*"@
}

/// The first site from `k` on that serves `host`.
pub open spec fn first_serving(sites: Seq<Site>, host: Seq<char>, k: int) -> Option<usize>
    decreases sites.len() - k,
{
    if k < 0 || k >= sites.len() {
        None
    } else if site_serves(sites[k], host) {
        Some(k as usize)
    } else {
        first_serving(sites, host, k + 1)
    }
}

/// The first default wildcard site from `k` on.
pub open spec fn first_default(sites: Seq<Site>, k: int) -> Option<usize>
    decreases sites.len() - k,
{
    if k < 0 || k >= sites.len() {
        None
    } else if default_wildcard(sites[k]) {
        Some(k as usize)
    } else {
        first_default(sites, k + 1)
    }
}

fn serves(site: &Site, host: &str) -> (r: bool)
    ensures
        r == site_serves(*site, host@),
{
    if !site.is_enabled {
        return false;
    }
    let mut j: usize = 0;
    while j < site.hostnames.len()
        invariant
            site.is_enabled,
            j <= site.hostnames@.len(),
            forall|q: int| 0 <= q < j ==> !same_name(#[trigger] site.hostnames@[q]@, host@),
        decreases site.hostnames@.len() - j,
    {
        if same_name_exec(site.hostnames[j].as_str(), host) {
            assert(same_name(site.hostnames@[j as int]@, host@));
            return true;
        }
        j += 1;
    }
    false
}

fn is_default_wildcard(site: &Site) -> (r: bool)
    ensures
        r == default_wildcard(*site),
{
    if !site.is_enabled || !site.is_default {
        return false;
    }
    let mut j: usize = 0;
    while j < site.hostnames.len()
        invariant
            site.is_enabled && site.is_default,
            j <= site.hostnames@.len(),
            forall|q: int| 0 <= q < j ==> (#[trigger] site.hostnames@[q])@ != "*"@,
        decreases site.hostnames@.len() - j,
    {
        if str_eq(site.hostnames[j].as_str(), "*") {
            assert((site.hostnames@[j as int])@ == "*"@);
            return true;
        }
        j += 1;
    }
    false
}

/// The site that answers `hostname` among `sites`: the first enabled site
/// listing it (ignoring ASCII case), else the first enabled default site
/// listing `*`; given as an index into `sites`.
pub fn resolve_site(sites: &Vec<Site>, hostname: &str) -> (r: Option<usize>)
    ensures
        r == match first_serving(sites@, hostname@, 0) {
            Some(i) => Some(i),
            None => first_default(sites@, 0),
        },
{
    let mut k: usize = 0;
    while k < sites.len()
        invariant
            k <= sites@.len(),
            first_serving(sites@, hostname@, 0) == first_serving(sites@, hostname@, k as int),
        decreases sites@.len() - k,
    {
        if serves(&sites[k], hostname) {
            return Some(k);
        }
        k += 1;
    }
    let mut d: usize = 0;
    while d < sites.len()
        invariant
            d <= sites@.len(),
            first_serving(sites@, hostname@, 0) is None,
            first_default(sites@, 0) == first_default(sites@, d as int),
        decreases sites@.len() - d,
    {
        if is_default_wildcard(&sites[d]) {
            return Some(d);
        }
        d += 1;
    }
    None
}

/// The index of the binding with id `id`, if any.
pub fn binding_index(bindings: &Vec<Binding>, id: usize) -> (r: Option<usize>)
    ensures
        match r {
            Some(i) => i < bindings@.len() && bindings@[i as int].id == id && forall|q: int|
                0 <= q < i ==> bindings@[q].id != id,
            None => forall|q: int| 0 <= q < bindings@.len() ==> bindings@[q].id != id,
        },
{
    let mut i: usize = 0;
    while i < bindings.len()
        invariant
            i <= bindings@.len(),
            forall|q: int| 0 <= q < i ==> bindings@[q].id != id,
        decreases bindings@.len() - i,
    {
        if bindings[i].id == id {
            return Some(i);
        }
        i += 1;
    }
    None
}

/// The enabled sites of binding `id` (none for an unknown id), as indices
/// into its site list, in order.
pub fn sites_for_binding(bindings: &Vec<Binding>, id: usize) -> (r: Vec<usize>)
    ensures
        (forall|q: int| 0 <= q < bindings@.len() ==> bindings@[q].id != id) ==> r@.len() == 0,
        forall|b: int|
            0 <= b < bindings@.len() && bindings@[b].id == id && (forall|q: int| 0 <= q < b ==> bindings@[q].id != id)
                ==> (forall|s: int|
                0 <= s < bindings@[b].sites@.len() ==> (r@.contains(s as usize) <==> bindings@[b].sites@[s].is_enabled))
                && (forall|a: int, c: int| 0 <= a < c < r@.len() ==> r@[a] < r@[c]),
{
    let mut r: Vec<usize> = Vec::new();
    match binding_index(bindings, id) {
        None => r,
        Some(b) => {
            let sites = &bindings[b].sites;
            let mut s: usize = 0;
            while s < sites.len()
                invariant
                    s <= sites@.len(),
                    forall|t: int| 0 <= t < s ==> (r@.contains(t as usize) <==> sites@[t].is_enabled),
                    forall|a: int| 0 <= a < r@.len() ==> r@[a] < s,
                    forall|a: int, c: int| 0 <= a < c < r@.len() ==> r@[a] < r@[c],
                decreases sites@.len() - s,
            {
                let ghost before = r@;
                if sites[s].is_enabled {
                    r.push(s);
                }
                proof {
                    assert forall|t: int| 0 <= t < s + 1 implies (r@.contains(t as usize) <==> sites@[t].is_enabled) by {
                        if r@.contains(t as usize) {
                            let k = choose|k: int| 0 <= k < r@.len() && r@[k] == t as usize;
                            if k < before.len() {
                                assert(before[k] == t as usize);
                            }
                        }
                        if t < s && before.contains(t as usize) {
                            let k = choose|k: int| 0 <= k < before.len() && before[k] == t as usize;
                            assert(r@[k] == t as usize);
                        }
                        if t == s && sites@[t].is_enabled {
                            assert(r@[before.len() as int] == t as usize);
                        }
                        if t == s && !sites@[t].is_enabled && r@.contains(t as usize) {
                            let k = choose|k: int| 0 <= k < r@.len() && r@[k] == t as usize;
                            assert(before[k] < s);
                        }
                    }
                }
                s += 1;
            }
            proof {
                assert forall|bb: int|
                    0 <= bb < bindings@.len() && bindings@[bb].id == id && (forall|q: int| 0 <= q < bb ==> bindings@[q].id != id)
                    implies bb == b by {
                    if bb < b {
                    } else if bb > b {
                        assert(bindings@[b as int].id == id);
                    }
                }
            }
            r
        },
    }
}

} // verus!
