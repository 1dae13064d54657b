//! Decisions of the TLS front end: which hostnames ACME manages, which
//! names a site's certificate covers, where its material comes from, the
//! order in which the unified resolver consults its sources, and where a
//! generated certificate is stored.

use vstd::prelude::*;
use crate::configuration::{Binding, Site};
use crate::round_robin::strings_view;
use crate::text::{
    chars_of, contains_char, decimal, decimal_string, lower_of, lowercase, str_eq, trim, trim_ws,
};

verus! {

/// Relies on `rand::random` (thread-local generator); nothing is promised
/// of the value.
pub assume_specification<T>[ rand::random::<T> ]() -> (r: T)
    where
        rand::distributions::Standard: rand::distributions::Distribution<T>,
;

/// A hostname as the ACME logic compares it: trimmed and lowercased.
pub open spec fn normalized_host(h: Seq<char>) -> Seq<char> {
    lower_of(trim_ws(h))
}

/// Whether a normalized hostname can get an ACME certificate: not empty,
/// no wildcard, at least one dot, not `localhost`.
pub open spec fn acme_eligible(h: Seq<char>) -> bool {
    h.len() > 0 && h != "*"@ && !h.contains('*') && h.contains('.') && h != "localhost"@
}

/// The hostname trimmed and lowercased.
pub fn normalize_hostname(h: &str) -> (r: String)
    ensures
        r@ == normalized_host(h@),
{
    let t = trim(h);
    lowercase(t.as_str())
}

/// Whether a normalized hostname can get an ACME certificate.
pub fn is_acme_eligible_hostname(h: &str) -> (r: bool)
    ensures
        r == acme_eligible(h@),
{
    let v = chars_of(h);
    v.len() > 0 && !str_eq(h, "*") && !contains_char(&v, '*') && contains_char(&v, '.') && !str_eq(
        h,
        "localhost",
    )
}

/// Whether `d` is an ACME domain of some site among `sites`: an enabled
/// site with automatic TLS, one of whose hostnames normalizes to the
/// eligible `d`.
pub open spec fn acme_domain_of(sites: Seq<Site>, d: Seq<char>) -> bool {
    exists|i: int, j: int|
        0 <= i < sites.len() && sites[i].is_enabled && sites[i].tls_automatic_enabled && 0 <= j
            < sites[i].hostnames@.len() && #[trigger] normalized_host(sites[i].hostnames@[j]@) == d
            && acme_eligible(d)
}

/// `acme_domain_of` restricted to the hostnames before site `i`, host `j`.
pub open spec fn acme_domain_before(sites: Seq<Site>, i: int, j: int, d: Seq<char>) -> bool {
    exists|a: int, b: int|
        0 <= a < sites.len() && sites[a].is_enabled && sites[a].tls_automatic_enabled && 0 <= b
            < sites[a].hostnames@.len() && (a < i || (a == i && b < j)) && #[trigger] normalized_host(
            sites[a].hostnames@[b]@,
        ) == d && acme_eligible(d)
}

fn push_unique(r: &mut Vec<String>, d: String)
    ensures
        strings_view(old(r)@).no_duplicates() ==> strings_view(final(r)@).no_duplicates(),
        forall|x: Seq<char>|
            strings_view(final(r)@).contains(x) <==> (strings_view(old(r)@).contains(x) || x
                == d@),
{
    let mut i: usize = 0;
    while i < r.len()
        invariant
            i <= r@.len(),
            forall|k: int| 0 <= k < i ==> r@[k]@ != d@,
        decreases r@.len() - i,
    {
        if r[i] == d {
            proof {
                assert(strings_view(r@)[i as int] == d@);
            }
            return;
        }
        i += 1;
    }
    let ghost before = r@;
    r.push(d);
    proof {
        assert(strings_view(r@) =~= strings_view(before).push(d@));
        assert forall|x: Seq<char>| strings_view(r@).contains(x) <==> (strings_view(before).contains(x) || x == d@) by {
            if strings_view(r@).contains(x) {
                let k = choose|k: int| 0 <= k < strings_view(r@).len() && strings_view(r@)[k] == x;
                if k < before.len() {
                    assert(strings_view(before)[k] == x);
                }
            }
            if strings_view(before).contains(x) {
                let k = choose|k: int| 0 <= k < strings_view(before).len() && strings_view(before)[k] == x;
                assert(strings_view(r@)[k] == x);
            }
            if x == d@ {
                assert(strings_view(r@)[before.len() as int] == x);
            }
        }
    }
}

/// Adds the ACME domains of `sites` to `r`.
fn collect_acme_domains(acc: Vec<String>, sites: &Vec<Site>) -> (r: Vec<String>)
    ensures
        strings_view(acc@).no_duplicates() ==> strings_view(r@).no_duplicates(),
        forall|x: Seq<char>|
            #![trigger strings_view(r@).contains(x)]
            strings_view(r@).contains(x) <==> (strings_view(acc@).contains(x)
                || acme_domain_of(sites@, x)),
{
    let ghost start = acc@;
    let mut r = acc;
    let mut i: usize = 0;
    while i < sites.len()
        invariant
            i <= sites@.len(),
            strings_view(start).no_duplicates() ==> strings_view(r@).no_duplicates(),
            forall|x: Seq<char>|
                #![trigger strings_view(r@).contains(x)]
                #![trigger acme_domain_before(sites@, i as int, 0, x)]
                strings_view(r@).contains(x) <==> (strings_view(start).contains(x)
                    || acme_domain_before(sites@, i as int, 0, x)),
        decreases sites@.len() - i,
    {
        let site = &sites[i];
        let mut j: usize = 0;
        while j < site.hostnames.len()
            invariant
                i < sites@.len(),
                site == sites@[i as int],
                j <= site.hostnames@.len(),
                strings_view(start).no_duplicates() ==> strings_view(r@).no_duplicates(),
                forall|x: Seq<char>|
                    #![trigger strings_view(r@).contains(x)]
                    #![trigger acme_domain_before(sites@, i as int, j as int, x)]
                    strings_view(r@).contains(x) <==> (strings_view(start).contains(x)
                        || acme_domain_before(sites@, i as int, j as int, x)),
            decreases site.hostnames@.len() - j,
        {
            let ghost before = r@;
            let h = normalize_hostname(site.hostnames[j].as_str());
            let eligible = site.is_enabled && site.tls_automatic_enabled && is_acme_eligible_hostname(h.as_str());
            if eligible {
                push_unique(&mut r, h);
            }
            proof {
                assert forall|x: Seq<char>| acme_domain_before(sites@, i as int, j + 1, x) <==> (
                acme_domain_before(sites@, i as int, j as int, x) || (eligible && x == h@)) by {
                    if acme_domain_before(sites@, i as int, j + 1, x) {
                        let (a, b) = choose|a: int, b: int|
                            0 <= a < sites@.len() && sites@[a].is_enabled && sites@[a].tls_automatic_enabled
                                && 0 <= b < sites@[a].hostnames@.len() && (a < i || (a == i && b < j + 1))
                                && #[trigger] normalized_host(sites@[a].hostnames@[b]@) == x && acme_eligible(x);
                        if !(a < i || (a == i && b < j)) {
                            assert(a == i && b == j);
                            assert(x == h@);
                            assert(eligible);
                        } else {
                            assert(acme_domain_before(sites@, i as int, j as int, x));
                        }
                    }
                    if acme_domain_before(sites@, i as int, j as int, x) {
                        let (a, b) = choose|a: int, b: int|
                            0 <= a < sites@.len() && sites@[a].is_enabled && sites@[a].tls_automatic_enabled
                                && 0 <= b < sites@[a].hostnames@.len() && (a < i || (a == i && b < j))
                                && #[trigger] normalized_host(sites@[a].hostnames@[b]@) == x && acme_eligible(x);
                        assert(a < i || (a == i && b < j + 1));
                    }
                    if eligible && x == h@ {
                        assert(normalized_host(sites@[i as int].hostnames@[j as int]@) == x);
                        assert(acme_domain_before(sites@, i as int, j + 1, x));
                    }
                }
                assert forall|x: Seq<char>| strings_view(r@).contains(x) <==> (strings_view(start).contains(x)
                    || acme_domain_before(sites@, i as int, j + 1, x)) by {
                    assert(strings_view(r@).contains(x) <==> (strings_view(before).contains(x) || (eligible && x == h@)));
                    assert(strings_view(before).contains(x) <==> (strings_view(start).contains(x)
                        || acme_domain_before(sites@, i as int, j as int, x)));
                }
            }
            j += 1;
        }
        proof {
            assert forall|x: Seq<char>| acme_domain_before(sites@, i + 1, 0, x) <==> acme_domain_before(
                sites@,
                i as int,
                site.hostnames@.len() as int,
                x,
            ) by {
                if acme_domain_before(sites@, i + 1, 0, x) {
                    let (a, b) = choose|a: int, b: int|
                        0 <= a < sites@.len() && sites@[a].is_enabled && sites@[a].tls_automatic_enabled
                            && 0 <= b < sites@[a].hostnames@.len() && (a < i + 1 || (a == i + 1 && b < 0))
                            && #[trigger] normalized_host(sites@[a].hostnames@[b]@) == x && acme_eligible(x);
                    assert(a < i || (a == i && b < site.hostnames@.len()));
                }
                if acme_domain_before(sites@, i as int, site.hostnames@.len() as int, x) {
                    let (a, b) = choose|a: int, b: int|
                        0 <= a < sites@.len() && sites@[a].is_enabled && sites@[a].tls_automatic_enabled
                            && 0 <= b < sites@[a].hostnames@.len() && (a < i || (a == i && b < site.hostnames@.len()))
                            && #[trigger] normalized_host(sites@[a].hostnames@[b]@) == x && acme_eligible(x);
                    assert(a < i + 1);
                }
            }
            assert forall|x: Seq<char>| strings_view(r@).contains(x) <==> (strings_view(start).contains(x)
                || acme_domain_before(sites@, i + 1, 0, x)) by {
                assert(acme_domain_before(sites@, i + 1, 0, x) <==> acme_domain_before(sites@, i as int, site.hostnames@.len() as int, x));
            }
        }
        i += 1;
    }
    proof {
        assert forall|x: Seq<char>| acme_domain_before(sites@, sites@.len() as int, 0, x) <==> acme_domain_of(sites@, x) by {
            if acme_domain_of(sites@, x) {
                let (a, b) = choose|a: int, b: int|
                    0 <= a < sites@.len() && sites@[a].is_enabled && sites@[a].tls_automatic_enabled && 0 <= b
                        < sites@[a].hostnames@.len() && #[trigger] normalized_host(sites@[a].hostnames@[b]@) == x
                        && acme_eligible(x);
                assert(a < sites@.len());
            }
        }
    }
    r
}

/// The ACME domains of one binding: none for a plain-HTTP binding, else
/// those of its sites, each once.
pub fn get_acme_domains_for_binding(binding: &Binding) -> (r: Vec<String>)
    ensures
        strings_view(r@).no_duplicates(),
        forall|x: Seq<char>|
            strings_view(r@).contains(x) <==> (binding.is_tls && acme_domain_of(binding.sites@, x)),
{
    let mut r: Vec<String> = Vec::new();
    proof {
        assert(strings_view(r@) =~= Seq::<Seq<char>>::empty());
    }
    if binding.is_tls {
        r = collect_acme_domains(r, &binding.sites);
    }
    r
}

/// Whether `x` is an ACME domain of some TLS binding among `bindings`.
pub open spec fn shared_acme_domain(bindings: Seq<Binding>, x: Seq<char>) -> bool {
    exists|k: int| 0 <= k < bindings.len() && bindings[k].is_tls && acme_domain_of(#[trigger] bindings[k].sites@, x)
}

/// The ACME domains across all TLS bindings, each once: the set one shared
/// ACME account manages.
pub fn shared_acme_domains(bindings: &Vec<Binding>) -> (r: Vec<String>)
    ensures
        strings_view(r@).no_duplicates(),
        forall|x: Seq<char>| strings_view(r@).contains(x) <==> shared_acme_domain(bindings@, x),
{
    let mut r: Vec<String> = Vec::new();
    proof {
        assert(strings_view(r@) =~= Seq::<Seq<char>>::empty());
    }
    let mut k: usize = 0;
    while k < bindings.len()
        invariant
            k <= bindings@.len(),
            strings_view(r@).no_duplicates(),
            forall|x: Seq<char>|
                #![trigger strings_view(r@).contains(x)]
                strings_view(r@).contains(x) <==> (exists|q: int|
                    0 <= q < k && bindings@[q].is_tls && acme_domain_of(#[trigger] bindings@[q].sites@, x)),
        decreases bindings@.len() - k,
    {
        let ghost old_r = r@;
        if bindings[k].is_tls {
            r = collect_acme_domains(r, &bindings[k].sites);
        }
        proof {
            assert forall|x: Seq<char>| strings_view(r@).contains(x) <==> (exists|q: int|
                0 <= q < k + 1 && bindings@[q].is_tls && acme_domain_of(#[trigger] bindings@[q].sites@, x)) by {
                if exists|q: int| 0 <= q < k + 1 && bindings@[q].is_tls && acme_domain_of(#[trigger] bindings@[q].sites@, x) {
                    let q = choose|q: int| 0 <= q < k + 1 && bindings@[q].is_tls && acme_domain_of(#[trigger] bindings@[q].sites@, x);
                    if q == k {
                        assert(bindings@[k as int].is_tls && acme_domain_of(bindings@[k as int].sites@, x));
                        assert(strings_view(r@).contains(x));
                    } else {
                        assert(strings_view(old_r).contains(x));
                    }
                }
                if strings_view(r@).contains(x) {
                    if strings_view(old_r).contains(x) {
                        let q = choose|q: int| 0 <= q < k && bindings@[q].is_tls && acme_domain_of(#[trigger] bindings@[q].sites@, x);
                        assert(0 <= q < k + 1);
                    } else {
                        assert(bindings@[k as int].is_tls && acme_domain_of(bindings@[k as int].sites@, x));
                    }
                }
            }
        }
        k += 1;
    }
    r
}

/// Where the ACME account state is cached: the configured path, trimmed,
/// or `certs/cache` when none is set.
pub fn acme_cache_dir(configured: &str) -> (r: String)
    ensures
        trim_ws(configured@).len() == 0 ==> r@ == "certs/cache"@,
        trim_ws(configured@).len() > 0 ==> r@ == trim_ws(configured@),
{
    let t = trim(configured);
    if t.unicode_len() == 0 {
        String::from_str("certs/cache")
    } else {
        t
    }
}

/// What the shared ACME manager is started with.
pub struct AcmePlan {
    pub domains: Vec<String>,
    pub contact: String,
    pub cache_dir: String,
    pub use_production_directory: bool,
}

/// The settings for the shared ACME manager, or `None` (ACME off) when no
/// account email is set or no binding has an ACME domain.
pub fn plan_shared_acme(
    account_email: &str,
    certificate_cache_path: &str,
    use_staging_server: bool,
    bindings: &Vec<Binding>,
) -> (r: Option<AcmePlan>)
    ensures
        r is None <==> (trim_ws(account_email@).len() == 0 || forall|x: Seq<char>|
            !shared_acme_domain(bindings@, x)),
        match r {
            Some(p) => {
                &&& p.contact@ == "mailto:"@ + trim_ws(account_email@)
                &&& p.use_production_directory == !use_staging_server
                &&& strings_view(p.domains@).no_duplicates()
                &&& forall|x: Seq<char>|
                    strings_view(p.domains@).contains(x) <==> shared_acme_domain(bindings@, x)
                &&& (trim_ws(certificate_cache_path@).len() == 0 ==> p.cache_dir@ == "certs/cache"@)
                &&& (trim_ws(certificate_cache_path@).len() > 0 ==> p.cache_dir@ == trim_ws(
                    certificate_cache_path@,
                ))
            },
            None => true,
        },
{
    let email = trim(account_email);
    if email.unicode_len() == 0 {
        return None;
    }
    let domains = shared_acme_domains(bindings);
    if domains.len() == 0 {
        proof {
            assert forall|x: Seq<char>| !shared_acme_domain(bindings@, x) by {
                if shared_acme_domain(bindings@, x) {
                    assert(strings_view(domains@).contains(x));
                }
            }
        }
        return None;
    }
    proof {
        let x = strings_view(domains@)[0];
        assert(strings_view(domains@).contains(x));
        assert(shared_acme_domain(bindings@, x));
    }
    let mut contact = String::from_str("mailto:");
    contact.append(email.as_str());
    Some(
        AcmePlan {
            domains,
            contact,
            cache_dir: acme_cache_dir(certificate_cache_path),
            use_production_directory: !use_staging_server,
        },
    )
}

/// The names a site's certificate covers when it is generated, and whether
/// the site lists the `*` wildcard.
pub open spec fn site_has_wildcard(site: Site) -> bool {
    exists|k: int| 0 <= k < site.hostnames@.len() && (#[trigger] site.hostnames@[k])@ == "*"@
}

/// The site's own names: not blank and not `*`, in order.
pub open spec fn own_names(v: Seq<String>, k: int) -> Seq<Seq<char>>
    decreases k,
{
    if k <= 0 {
        Seq::empty()
    } else if trim_ws(v[k - 1]@).len() > 0 && v[k - 1]@ != "*"@ {
        own_names(v, k - 1).push(v[k - 1]@)
    } else {
        own_names(v, k - 1)
    }
}

/// The names a site's certificate is registered under: its own names, or,
/// for a wildcard site or one without names, `localhost` and the machine's
/// hostname (lowercased) when known and other than `localhost`.
pub open spec fn site_sans_spec(site: Site, machine_hostname: Option<Seq<char>>) -> Seq<Seq<char>> {
    let own = own_names(site.hostnames@, site.hostnames@.len() as int);
    if own.len() == 0 || site_has_wildcard(site) {
        match machine_hostname {
            Some(m) => if m.len() > 0 && m != "localhost"@ {
                seq!["localhost"@, lower_of(m)]
            } else {
                seq!["localhost"@]
            },
            None => seq!["localhost"@],
        }
    } else {
        own
    }
}

/// The names a site's certificate covers, and whether the site lists `*`.
pub fn site_sans(site: &Site, machine_hostname: Option<&str>) -> (r: (Vec<String>, bool))
    ensures
        strings_view(r.0@) == site_sans_spec(
            *site,
            match machine_hostname {
                Some(m) => Some(m@),
                None => None,
            },
        ),
        r.1 == site_has_wildcard(*site),
{
    let mut own: Vec<String> = Vec::new();
    let mut wildcard = false;
    let mut i: usize = 0;
    while i < site.hostnames.len()
        invariant
            i <= site.hostnames@.len(),
            strings_view(own@) == own_names(site.hostnames@, i as int),
            wildcard <==> exists|k: int| 0 <= k < i && (#[trigger] site.hostnames@[k])@ == "*"@,
        decreases site.hostnames@.len() - i,
    {
        let h = site.hostnames[i].as_str();
        let is_star = str_eq(h, "*");
        if trim(h).unicode_len() > 0 && !is_star {
            own.push(site.hostnames[i].clone());
        }
        if is_star {
            wildcard = true;
        }
        proof {
            assert(strings_view(own@) =~= own_names(site.hostnames@, i + 1));
        }
        i += 1;
    }
    if own.len() == 0 || wildcard {
        let mut sans: Vec<String> = Vec::new();
        sans.push(String::from_str("localhost"));
        match machine_hostname {
            Some(m) => {
                if m.unicode_len() > 0 && !str_eq(m, "localhost") {
                    sans.push(lowercase(m));
                }
            },
            None => {},
        }
        proof {
            assert(strings_view(sans@) =~= site_sans_spec(
                *site,
                match machine_hostname {
                    Some(m) => Some(m@),
                    None => None,
                },
            ));
        }
        (sans, wildcard)
    } else {
        (own, wildcard)
    }
}

/// Where a site's certificate and key come from.
pub enum TlsMaterial {
    /// PEM files at the configured paths.
    Files,
    /// PEM text held in the configuration.
    Inline,
    /// A self-signed certificate generated for the site.
    Generate,
}

/// Files when both paths are set, else inline PEM when both contents are
/// set, else a generated self-signed certificate.
pub fn tls_material(site: &Site) -> (r: TlsMaterial)
    ensures
        site.tls_cert_path@.len() > 0 && site.tls_key_path@.len() > 0 ==> r == TlsMaterial::Files,
        !(site.tls_cert_path@.len() > 0 && site.tls_key_path@.len() > 0) && site.tls_cert_content@.len()
            > 0 && site.tls_key_content@.len() > 0 ==> r == TlsMaterial::Inline,
        !(site.tls_cert_path@.len() > 0 && site.tls_key_path@.len() > 0) && !(
        site.tls_cert_content@.len() > 0 && site.tls_key_content@.len() > 0) ==> r
            == TlsMaterial::Generate,
{
    if site.tls_cert_path.unicode_len() > 0 && site.tls_key_path.unicode_len() > 0 {
        TlsMaterial::Files
    } else if site.tls_cert_content.unicode_len() > 0 && site.tls_key_content.unicode_len() > 0 {
        TlsMaterial::Inline
    } else {
        TlsMaterial::Generate
    }
}

/// Whether a binding needs a synthesized `localhost` certificate: no site
/// certificate was registered and ACME manages no domain there.
pub fn needs_synthesized_fallback(cert_added: bool, acme_domain_count: usize) -> (r: bool)
    ensures
        r == (!cert_added && acme_domain_count == 0),
{
    !cert_added && acme_domain_count == 0
}

/// A source of certificates of the unified resolver.
pub enum CertSource {
    /// The shared ACME resolver.
    Acme,
    /// The per-binding map of site certificates by server name.
    Sni,
    /// The binding's fallback certificate.
    Fallback,
}

/// The order in which the unified resolver consults its sources; the
/// first that yields a certificate wins, and an empty list fails the
/// handshake.
pub open spec fn resolution_order_spec(is_acme_challenge: bool, acme_configured: bool, sni_is_acme_domain: bool) -> Seq<CertSource> {
    if is_acme_challenge {
        if acme_configured {
            seq![CertSource::Acme]
        } else {
            Seq::empty()
        }
    } else if sni_is_acme_domain {
        if acme_configured {
            seq![CertSource::Acme, CertSource::Fallback]
        } else {
            seq![CertSource::Fallback]
        }
    } else {
        seq![CertSource::Sni, CertSource::Fallback]
    }
}

/// The sources to consult for one ClientHello: a TLS-ALPN-01 challenge
/// goes to the ACME resolver alone (and fails without one); a name that
/// ACME manages tries ACME and then the fallback; any other name tries the
/// site certificates and then the fallback.
pub fn resolution_order(is_acme_challenge: bool, acme_configured: bool, sni_is_acme_domain: bool) -> (r: Vec<CertSource>)
    ensures
        r@ == resolution_order_spec(is_acme_challenge, acme_configured, sni_is_acme_domain),
        is_acme_challenge && acme_configured ==> r@ == seq![CertSource::Acme],
        is_acme_challenge && !acme_configured ==> r@.len() == 0,
{
    let mut r: Vec<CertSource> = Vec::new();
    if is_acme_challenge {
        if acme_configured {
            r.push(CertSource::Acme);
        }
    } else if sni_is_acme_domain {
        if acme_configured {
            r.push(CertSource::Acme);
        }
        r.push(CertSource::Fallback);
    } else {
        r.push(CertSource::Sni);
        r.push(CertSource::Fallback);
    }
    proof {
        assert(r@ =~= resolution_order_spec(is_acme_challenge, acme_configured, sni_is_acme_domain));
    }
    r
}

/// Whether the (lowercased) server name is one of `acme_domains`.
pub fn is_acme_domain(acme_domains: &Vec<String>, server_name: &str) -> (r: bool)
    ensures
        r == strings_view(acme_domains@).contains(lower_of(server_name@)),
{
    let name = lowercase(server_name);
    let mut i: usize = 0;
    while i < acme_domains.len()
        invariant
            i <= acme_domains@.len(),
            name@ == lower_of(server_name@),
            forall|k: int| 0 <= k < i ==> acme_domains@[k]@ != name@,
        decreases acme_domains@.len() - i,
    {
        if acme_domains[i] == name {
            proof {
                assert(strings_view(acme_domains@)[i as int] == name@);
            }
            return true;
        }
        i += 1;
    }
    false
}

/// The ALPN protocols a binding offers: `h2`, `http/1.1`, and
/// `acme-tls/1` when ACME is active.
pub fn alpn_protocols(acme_active: bool) -> (r: Vec<Vec<u8>>)
    ensures
        r@.len() == if acme_active {
            3int
        } else {
            2int
        },
        r@[0]@ == seq![104u8, 50u8],
        r@[1]@ == seq![104u8, 116u8, 116u8, 112u8, 47u8, 49u8, 46u8, 49u8],
        acme_active ==> r@[2]@ == seq![97u8, 99u8, 109u8, 101u8, 45u8, 116u8, 108u8, 115u8, 47u8, 49u8],
{
    let mut r: Vec<Vec<u8>> = Vec::new();
    r.push(vec![104u8, 50u8]);
    r.push(vec![104u8, 116u8, 116u8, 112u8, 47u8, 49u8, 46u8, 49u8]);
    if acme_active {
        r.push(vec![97u8, 99u8, 109u8, 101u8, 45u8, 116u8, 108u8, 115u8, 47u8, 49u8]);
    }
    r
}

/// Where a generated certificate numbered `n` and its key are stored:
/// `certs/<n>.crt.pem` and `certs/<n>.key.pem`.
pub fn generated_cert_paths(n: u32) -> (r: (String, String))
    ensures
        r.0@ == "certs/"@ + decimal(n as nat) + ".crt.pem"@,
        r.1@ == "certs/"@ + decimal(n as nat) + ".key.pem"@,
{
    let digits = decimal_string(n as u64);
    let mut cert = String::from_str("certs/");
    cert.append(digits.as_str());
    cert.append(".crt.pem");
    let mut key = String::from_str("certs/");
    key.append(digits.as_str());
    key.append(".key.pem");
    (cert, key)
}

/// Paths for a newly generated certificate, under a random number.
pub fn new_generated_cert_paths() -> (r: (String, String))
    ensures
        exists|n: u32|
            r.0@ == "certs/"@ + decimal(n as nat) + ".crt.pem"@ && r.1@ == "certs/"@ + decimal(
                n as nat,
            ) + ".key.pem"@,
{
    let n: u32 = rand::random::<u32>();
    generated_cert_paths(n)
}

/// The statements that record a generated certificate in the
/// configuration store: the admin portal's two settings, or the site's
/// row.
pub fn persist_statements(is_admin: bool, cert_path: &str, key_path: &str, site_id: usize) -> (r: Vec<String>)
    ensures
        is_admin ==> r@.len() == 2 && r@[0]@
            == "UPDATE server_settings SET setting_value = '"@ + cert_path@
            + "' WHERE setting_key = 'admin_portal_tls_certificate_path';"@ && r@[1]@
            == "UPDATE server_settings SET setting_value = '"@ + key_path@
            + "' WHERE setting_key = 'admin_portal_tls_key_path';"@,
        !is_admin ==> r@.len() == 1 && r@[0]@ == "UPDATE sites SET tls_cert_path = '"@ + cert_path@
            + "', tls_key_path = '"@ + key_path@ + "' WHERE id = '"@ + decimal(site_id as nat)
            + "';"@,
{
    let mut r: Vec<String> = Vec::new();
    if is_admin {
        let mut a = String::from_str("UPDATE server_settings SET setting_value = '");
        a.append(cert_path);
        a.append("' WHERE setting_key = 'admin_portal_tls_certificate_path';");
        let mut b = String::from_str("UPDATE server_settings SET setting_value = '");
        b.append(key_path);
        b.append("' WHERE setting_key = 'admin_portal_tls_key_path';");
        r.push(a);
        r.push(b);
    } else {
        let mut a = String::from_str("UPDATE sites SET tls_cert_path = '");
        a.append(cert_path);
        a.append("', tls_key_path = '");
        a.append(key_path);
        a.append("' WHERE id = '");
        let id = decimal_string(site_id as u64);
        a.append(id.as_str());
        a.append("';");
        r.push(a);
    }
    r
}

} // verus!
