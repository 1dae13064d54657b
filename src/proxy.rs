//! The reverse-proxy processor: its configuration, URL rewriting, upstream
//! choice and host-header policy.

use vstd::prelude::*;
use crate::configuration::{flat_errors, message_if, quoted_message};
use crate::round_robin::{
    lemma_step_iter, lemma_window_is_rotation, rr_run, step, step_iter, strings_view, wrap, LoadBalancerRegistry,
};
use crate::text::{
    lower_of, lowercase, chars_of, decimal, decimal_string, push_char, str_eq, str_starts_with, trim, trim_ws,
};

verus! {

/// Relies on `uuid::Uuid::new_v4` and its hyphenated text form (36
/// characters). Nothing else is promised of the value.
#[verifier::external_body]
fn new_uuid_string() -> (r: String)
    ensures
        r@.len() == 36,
{
    uuid::Uuid::new_v4().to_string()
}

/// `to` before every character of `s` and at its end: what `str::replace`
/// does with an empty pattern.
pub open spec fn insert_everywhere(s: Seq<char>, to: Seq<char>) -> Seq<char>
    decreases s.len(),
{
    if s.len() == 0 {
        to
    } else {
        to + seq![s[0]] + insert_everywhere(s.drop_first(), to)
    }
}

/// Every match of `from` in `s`, from left to right and without overlap,
/// replaced by `to`.
pub open spec fn replace_spec(s: Seq<char>, from: Seq<char>, to: Seq<char>) -> Seq<char>
    decreases s.len(),
{
    if from.len() == 0 {
        insert_everywhere(s, to)
    } else if from.is_prefix_of(s) {
        to + replace_spec(s.subrange(from.len() as int, s.len() as int), from, to)
    } else if s.len() == 0 {
        s
    } else {
        seq![s[0]] + replace_spec(s.drop_first(), from, to)
    }
}

/// Like `replace_spec`, a window matching when its lowercase form equals
/// that of `from`; an empty `from` changes nothing. Characters outside the
/// matches are kept as they are.
pub open spec fn replace_ci_spec(s: Seq<char>, from: Seq<char>, to: Seq<char>) -> Seq<char>
    decreases s.len(),
{
    if from.len() == 0 {
        s
    } else if from.len() <= s.len() && lower_of(s.subrange(0, from.len() as int)) == lower_of(from) {
        to + replace_ci_spec(s.subrange(from.len() as int, s.len() as int), from, to)
    } else if s.len() == 0 {
        s
    } else {
        seq![s[0]] + replace_ci_spec(s.drop_first(), from, to)
    }
}

fn matches_at(s: &Vec<char>, i: usize, p: &Vec<char>) -> (r: bool)
    requires
        i <= s@.len(),
    ensures
        r == p@.is_prefix_of(s@.subrange(i as int, s@.len() as int)),
{
    let n = s.len();
    if p.len() > n - i {
        return false;
    }
    let mut j: usize = 0;
    while j < p.len()
        invariant
            n == s@.len(),
            i <= s@.len(),
            p@.len() <= s@.len() - i,
            j <= p@.len(),
            forall|k: int| 0 <= k < j ==> p@[k] == s@[i + k],
        decreases p@.len() - j,
    {
        assert(i + j < n);
        if p[j] != s[i + j] {
            proof {
                assert(s@.subrange(i as int, s@.len() as int).subrange(0, p@.len() as int)[j as int] == s@[i + j]);
            }
            return false;
        }
        j += 1;
    }
    proof {
        assert(p@ =~= s@.subrange(i as int, s@.len() as int).subrange(0, p@.len() as int));
    }
    true
}

/// Every occurrence of `from` in `s` replaced by `to`, as `str::replace`
/// does.
pub fn replace_literal(s: &str, from: &str, to: &str) -> (r: String)
    ensures
        r@ == replace_spec(s@, from@, to@),
{
    let sv = chars_of(s);
    let fv = chars_of(from);
    let mut out = String::new();
    let mut i: usize = 0;
    let ghost whole = sv@;
    proof {
        assert(sv@.subrange(0, sv@.len() as int) =~= sv@);
    }
    if fv.len() == 0 {
        while i < sv.len()
            invariant
                i <= sv@.len(),
                whole == sv@,
                fv@.len() == 0,
                out@ + insert_everywhere(sv@.subrange(i as int, sv@.len() as int), to@)
                    == insert_everywhere(whole, to@),
            decreases sv@.len() - i,
        {
            let ghost rest = sv@.subrange(i as int, sv@.len() as int);
            proof {
                assert(rest.drop_first() =~= sv@.subrange(i + 1, sv@.len() as int));
                assert(out@ + insert_everywhere(rest, to@) =~= out@ + to@ + seq![sv@[i as int]]
                    + insert_everywhere(rest.drop_first(), to@));
            }
            out.append(to);
            push_char(&mut out, sv[i]);
            i += 1;
        }
        proof {
            assert(sv@.subrange(i as int, sv@.len() as int) =~= Seq::<char>::empty());
        }
        out.append(to);
        return out;
    }
    while i < sv.len()
        invariant
            i <= sv@.len(),
            whole == sv@,
            fv@.len() > 0,
            out@ + replace_spec(sv@.subrange(i as int, sv@.len() as int), fv@, to@) == replace_spec(
                whole,
                fv@,
                to@,
            ),
        decreases sv@.len() - i,
    {
        let ghost rest = sv@.subrange(i as int, sv@.len() as int);
        if matches_at(&sv, i, &fv) {
            proof {
                assert(rest.subrange(fv@.len() as int, rest.len() as int) =~= sv@.subrange(
                    i + fv@.len(),
                    sv@.len() as int,
                ));
                assert(out@ + replace_spec(rest, fv@, to@) =~= out@ + to@ + replace_spec(
                    rest.subrange(fv@.len() as int, rest.len() as int),
                    fv@,
                    to@,
                ));
            }
            out.append(to);
            i += fv.len();
        } else {
            proof {
                assert(rest.drop_first() =~= sv@.subrange(i + 1, sv@.len() as int));
                assert(out@ + replace_spec(rest, fv@, to@) =~= out@.push(sv@[i as int]) + replace_spec(
                    rest.drop_first(),
                    fv@,
                    to@,
                ));
            }
            push_char(&mut out, sv[i]);
            i += 1;
        }
    }
    proof {
        let rest = sv@.subrange(i as int, sv@.len() as int);
        assert(rest =~= Seq::<char>::empty());
        assert(!fv@.is_prefix_of(rest));
        assert(out@ + replace_spec(rest, fv@, to@) =~= out@);
    }
    out
}

/// Every window of `s` whose lowercase form equals that of `from`
/// replaced by `to`, scanning left to right; other characters are kept.
pub fn replace_case_insensitive(s: &str, from: &str, to: &str) -> (r: String)
    ensures
        r@ == replace_ci_spec(s@, from@, to@),
{
    let sv = chars_of(s);
    let n = from.unicode_len();
    if n == 0 {
        return String::from_str(s);
    }
    let from_lower = lowercase(from);
    let mut out = String::new();
    let mut i: usize = 0;
    proof {
        assert(sv@.subrange(0, sv@.len() as int) =~= sv@);
    }
    while i < sv.len()
        invariant
            i <= sv@.len(),
            sv@ == s@,
            n == from@.len(),
            n > 0,
            from_lower@ == lower_of(from@),
            out@ + replace_ci_spec(sv@.subrange(i as int, sv@.len() as int), from@, to@)
                == replace_ci_spec(s@, from@, to@),
        decreases sv@.len() - i,
    {
        let ghost rest = sv@.subrange(i as int, sv@.len() as int);
        let mut hit = false;
        if n <= sv.len() - i {
            let window = s.substring_char(i, i + n);
            let lw = lowercase(window);
            proof {
                assert(window@ =~= rest.subrange(0, n as int));
            }
            hit = lw == from_lower;
        }
        if hit {
            proof {
                assert(rest.subrange(n as int, rest.len() as int) =~= sv@.subrange(
                    i + n,
                    sv@.len() as int,
                ));
                assert(out@ + replace_ci_spec(rest, from@, to@) =~= out@ + to@ + replace_ci_spec(
                    rest.subrange(n as int, rest.len() as int),
                    from@,
                    to@,
                ));
            }
            out.append(to);
            i += n;
        } else {
            proof {
                assert(rest.drop_first() =~= sv@.subrange(i + 1, sv@.len() as int));
                assert(out@ + replace_ci_spec(rest, from@, to@) =~= out@.push(sv@[i as int])
                    + replace_ci_spec(rest.drop_first(), from@, to@));
            }
            push_char(&mut out, sv[i]);
            i += 1;
        }
    }
    proof {
        let rest = sv@.subrange(i as int, sv@.len() as int);
        assert(rest =~= Seq::<char>::empty());
        assert(out@ + replace_ci_spec(rest, from@, to@) =~= out@);
    }
    out
}

/// One URL rewrite rule: a literal substring replacement, optionally
/// ignoring case.
pub struct ProxyProcessorUrlRewrite {
    pub from: String,
    pub to: String,
    pub is_case_insensitive: bool,
}

/// What one rule makes of a URL.
pub open spec fn apply_rule(url: Seq<char>, rule: ProxyProcessorUrlRewrite) -> Seq<char> {
    if rule.is_case_insensitive {
        replace_ci_spec(url, rule.from@, rule.to@)
    } else {
        replace_spec(url, rule.from@, rule.to@)
    }
}

/// The first `k` rules applied in order.
pub open spec fn apply_rules(url: Seq<char>, rules: Seq<ProxyProcessorUrlRewrite>, k: int) -> Seq<char>
    decreases k,
{
    if k <= 0 {
        url
    } else {
        apply_rule(apply_rules(url, rules, k - 1), rules[k - 1])
    }
}

/// Reverse-proxy processor configuration.
pub struct ProxyProcessor {
    pub id: String,
    pub proxy_type: String,
    pub upstream_servers: Vec<String>,
    pub load_balancing_strategy: String,
    pub timeout_seconds: u16,
    pub health_check_path: String,
    pub url_rewrites: Vec<ProxyProcessorUrlRewrite>,
    pub should_rewrite_host_header: bool,
    pub forced_host_header: String,
}

/// Whether an upstream URL names a supported scheme.
pub open spec fn valid_upstream(s: Seq<char>) -> bool {
    "http://"@.is_prefix_of(s) || "https://"@.is_prefix_of(s)
}

/// The message for upstream `i` when it names no supported scheme.
pub open spec fn upstream_errors(i: int, s: Seq<char>) -> Seq<Seq<char>> {
    message_if(
        !valid_upstream(s),
        "Upstream server '"@ + s + "' is not a valid upstream URL. It must start with 'http://' or 'https://'."@,
    )
}

/// The messages `validate` reports, in order.
pub open spec fn proxy_errors(p: ProxyProcessor) -> Seq<Seq<char>> {
    message_if(p.proxy_type@ != "http"@, "Unsupported proxy type. Only 'http' is supported."@) + message_if(
        p.upstream_servers@.len() == 0,
        "At least one upstream server must be specified."@,
    ) + flat_errors(
        p.upstream_servers@,
        p.upstream_servers@.len() as int,
        |i: int, s: Seq<char>| upstream_errors(i, s),
    ) + message_if(
        p.load_balancing_strategy@ != "round_robin"@,
        "Unsupported load balancing strategy. Only 'Round Robin' is supported."@,
    ) + message_if(p.timeout_seconds < 1, "Timeout seconds must be greater than zero."@) + message_if(
        p.health_check_path@.len() > 0 && !"/"@.is_prefix_of(p.health_check_path@),
        "Health check path must start with '/'."@,
    )
}

/// The trimmed, non-empty entries among the first `k` of `v`.
pub open spec fn trimmed_nonempty(v: Seq<Seq<char>>, k: int) -> Seq<Seq<char>>
    decreases k,
{
    if k <= 0 {
        Seq::empty()
    } else {
        let prev = trimmed_nonempty(v, k - 1);
        if trim_ws(v[k - 1]).len() > 0 {
            prev.push(trim_ws(v[k - 1]))
        } else {
            prev
        }
    }
}

/// What the proxy decides for one request.
pub enum ProxyDecision {
    /// Forward to this URI (upstream base, request URI, rewrites applied).
    Forward { uri: String },
    /// Answer with this status and no upstream call.
    Status { code: u16 },
}

impl ProxyProcessor {
    /// A processor with a fresh random id and the default settings: HTTP,
    /// round robin, 30 s timeout, `/health`, no upstreams or rewrites, host
    /// header kept.
    pub fn new() -> (r: Self)
        ensures
            r.id@.len() == 36,
            r.proxy_type@ == "http"@,
            r.upstream_servers@.len() == 0,
            r.load_balancing_strategy@ == "round_robin"@,
            r.timeout_seconds == 30,
            r.health_check_path@ == "/health"@,
            r.url_rewrites@.len() == 0,
            !r.should_rewrite_host_header,
            r.forced_host_header@.len() == 0,
    {
        ProxyProcessor {
            id: new_uuid_string(),
            proxy_type: String::from_str("http"),
            upstream_servers: Vec::new(),
            load_balancing_strategy: String::from_str("round_robin"),
            timeout_seconds: 30,
            health_check_path: String::from_str("/health"),
            url_rewrites: Vec::new(),
            should_rewrite_host_header: false,
            forced_host_header: String::new(),
        }
    }

    /// The URL after every rewrite rule, in order.
    pub fn apply_url_rewrites(&self, original_url: &str) -> (r: String)
        ensures
            r@ == apply_rules(original_url@, self.url_rewrites@, self.url_rewrites@.len() as int),
    {
        let mut url = String::from_str(original_url);
        let mut i: usize = 0;
        while i < self.url_rewrites.len()
            invariant
                i <= self.url_rewrites@.len(),
                url@ == apply_rules(original_url@, self.url_rewrites@, i as int),
            decreases self.url_rewrites@.len() - i,
        {
            let rule = &self.url_rewrites[i];
            if rule.is_case_insensitive {
                url = replace_case_insensitive(url.as_str(), rule.from.as_str(), rule.to.as_str());
            } else {
                url = replace_literal(url.as_str(), rule.from.as_str(), rule.to.as_str());
            }
            i += 1;
        }
        url
    }

    /// Trims the settings: upstream URLs (dropping empty ones), strategy,
    /// health-check path and both sides of every rewrite rule.
    pub fn sanitize(&mut self)
        ensures
            strings_view(final(self).upstream_servers@) == trimmed_nonempty(
                strings_view(old(self).upstream_servers@),
                old(self).upstream_servers@.len() as int,
            ),
            final(self).load_balancing_strategy@ == trim_ws(old(self).load_balancing_strategy@),
            final(self).health_check_path@ == trim_ws(old(self).health_check_path@),
            final(self).url_rewrites@.len() == old(self).url_rewrites@.len(),
            forall|i: int|
                0 <= i < old(self).url_rewrites@.len() ==> {
                    &&& (#[trigger] final(self).url_rewrites@[i]).from@ == trim_ws(
                        old(self).url_rewrites@[i].from@,
                    )
                    &&& final(self).url_rewrites@[i].to@ == trim_ws(old(self).url_rewrites@[i].to@)
                    &&& final(self).url_rewrites@[i].is_case_insensitive == old(
                        self,
                    ).url_rewrites@[i].is_case_insensitive
                },
            final(self).id == old(self).id,
            final(self).proxy_type == old(self).proxy_type,
            final(self).timeout_seconds == old(self).timeout_seconds,
            final(self).should_rewrite_host_header == old(self).should_rewrite_host_header,
            final(self).forced_host_header == old(self).forced_host_header,
    {
        let mut servers: Vec<String> = Vec::new();
        let mut i: usize = 0;
        while i < self.upstream_servers.len()
            invariant
                i <= self.upstream_servers@.len(),
                self == old(self),
                strings_view(servers@) == trimmed_nonempty(
                    strings_view(self.upstream_servers@),
                    i as int,
                ),
            decreases self.upstream_servers@.len() - i,
        {
            let t = trim(self.upstream_servers[i].as_str());
            if t.unicode_len() > 0 {
                servers.push(t);
            }
            proof {
                assert(strings_view(servers@) =~= trimmed_nonempty(
                    strings_view(self.upstream_servers@),
                    i + 1,
                ));
            }
            i += 1;
        }
        self.upstream_servers = servers;
        self.load_balancing_strategy = trim(self.load_balancing_strategy.as_str());
        self.health_check_path = trim(self.health_check_path.as_str());
        let mut rules: Vec<ProxyProcessorUrlRewrite> = Vec::new();
        let mut j: usize = 0;
        while j < self.url_rewrites.len()
            invariant
                j <= self.url_rewrites@.len(),
                self.url_rewrites == old(self).url_rewrites,
                rules@.len() == j,
                forall|k: int|
                    0 <= k < j ==> {
                        &&& (#[trigger] rules@[k]).from@ == trim_ws(old(self).url_rewrites@[k].from@)
                        &&& rules@[k].to@ == trim_ws(old(self).url_rewrites@[k].to@)
                        &&& rules@[k].is_case_insensitive == old(
                            self,
                        ).url_rewrites@[k].is_case_insensitive
                    },
            decreases self.url_rewrites@.len() - j,
        {
            let rule = &self.url_rewrites[j];
            rules.push(
                ProxyProcessorUrlRewrite {
                    from: trim(rule.from.as_str()),
                    to: trim(rule.to.as_str()),
                    is_case_insensitive: rule.is_case_insensitive,
                },
            );
            j += 1;
        }
        self.url_rewrites = rules;
    }

    /// Checks the settings; on failure, one message per problem found.
    pub fn validate(&self) -> (r: Result<(), Vec<String>>)
        ensures
            r is Ok <==> proxy_errors(*self).len() == 0,
            match r {
                Ok(_) => true,
                Err(errors) => strings_view(errors@) == proxy_errors(*self),
            },
    {
        let mut errors: Vec<String> = Vec::new();
        if !str_eq(self.proxy_type.as_str(), "http") {
            errors.push(String::from_str("Unsupported proxy type. Only 'http' is supported."));
        }
        let ghost s1 = strings_view(errors@);
        assert(s1 =~= message_if(self.proxy_type@ != "http"@, "Unsupported proxy type. Only 'http' is supported."@));
        if self.upstream_servers.len() == 0 {
            errors.push(String::from_str("At least one upstream server must be specified."));
        }
        let ghost base = strings_view(errors@);
        assert(base =~= s1 + message_if(
            self.upstream_servers@.len() == 0,
            "At least one upstream server must be specified."@,
        ));
        let mut i: usize = 0;
        while i < self.upstream_servers.len()
            invariant
                i <= self.upstream_servers@.len(),
                strings_view(errors@) == base + flat_errors(
                    self.upstream_servers@,
                    i as int,
                    |i: int, s: Seq<char>| upstream_errors(i, s),
                ),
            decreases self.upstream_servers@.len() - i,
        {
            let ghost before = strings_view(errors@);
            let server = self.upstream_servers[i].as_str();
            if !str_starts_with(server, "http://") && !str_starts_with(server, "https://") {
                let message = quoted_message(
                    "Upstream server '",
                    server,
                    "' is not a valid upstream URL. It must start with 'http://' or 'https://'.",
                );
                errors.push(message);
            }
            proof {
                assert(strings_view(errors@) =~= before + upstream_errors(i as int, self.upstream_servers@[i as int]@));
                assert(base + flat_errors(self.upstream_servers@, i + 1, |i: int, s: Seq<char>| upstream_errors(i, s))
                    =~= before + upstream_errors(i as int, self.upstream_servers@[i as int]@));
            }
            i += 1;
        }
        let ghost s3 = strings_view(errors@);
        if !str_eq(self.load_balancing_strategy.as_str(), "round_robin") {
            errors.push(
                String::from_str("Unsupported load balancing strategy. Only 'Round Robin' is supported."),
            );
        }
        let ghost s4 = strings_view(errors@);
        assert(s4 =~= s3 + message_if(
            self.load_balancing_strategy@ != "round_robin"@,
            "Unsupported load balancing strategy. Only 'Round Robin' is supported."@,
        ));
        if self.timeout_seconds < 1 {
            errors.push(String::from_str("Timeout seconds must be greater than zero."));
        }
        let ghost s5 = strings_view(errors@);
        assert(s5 =~= s4 + message_if(self.timeout_seconds < 1, "Timeout seconds must be greater than zero."@));
        if self.health_check_path.unicode_len() > 0 && !str_starts_with(
            self.health_check_path.as_str(),
            "/",
        ) {
            errors.push(String::from_str("Health check path must start with '/'."));
        }
        proof {
            assert(strings_view(errors@) =~= s5 + message_if(
                self.health_check_path@.len() > 0 && !"/"@.is_prefix_of(self.health_check_path@),
                "Health check path must start with '/'."@,
            ));
            assert(strings_view(errors@) =~= proxy_errors(*self));
        }
        if errors.len() == 0 {
            Ok(())
        } else {
            Err(errors)
        }
    }

    /// The Host header to send upstream, or `None` to keep the client's:
    /// with rewriting on, the forced value when set, else `host:port` of
    /// the upstream URI (port 80 when it names none).
    pub fn host_header_value(&self, uri_host: &str, uri_port: Option<u16>) -> (r: Option<String>)
        ensures
            !self.should_rewrite_host_header ==> r is None,
            self.should_rewrite_host_header && self.forced_host_header@.len() > 0 ==> r == Some(
                self.forced_host_header,
            ),
            self.should_rewrite_host_header && self.forced_host_header@.len() == 0 ==> r is Some
                && r->0@ == uri_host@ + seq![':'] + decimal(
                match uri_port {
                    Some(p) => p as nat,
                    None => 80nat,
                },
            ),
    {
        if !self.should_rewrite_host_header {
            return None;
        }
        if self.forced_host_header.unicode_len() > 0 {
            return Some(self.forced_host_header.clone());
        }
        let port: u16 = match uri_port {
            Some(p) => p,
            None => 80,
        };
        let mut value = String::from_str(uri_host);
        push_char(&mut value, ':');
        let digits = decimal_string(port as u64);
        value.append(digits.as_str());
        Some(value)
    }

    /// Chooses the upstream for one request: a balancer for this processor
    /// is made on first use (only round robin is known: any other strategy
    /// gives 500), an empty upstream list gives 502, and otherwise the
    /// request goes to the next upstream followed by the request URI, with
    /// the rewrite rules applied.
    pub fn plan_request(&self, registry: &mut LoadBalancerRegistry, original_uri: &str) -> (r: ProxyDecision)
        requires
            old(registry).wf(),
        ensures
            final(registry).wf(),
            !old(registry).balancers_map().contains_key(self.id@) && self.load_balancing_strategy@
                != "round_robin"@ ==> r == (ProxyDecision::Status { code: 500 })
                && final(registry).balancers_map() == old(registry).balancers_map(),
            ({
                let known = old(registry).balancers_map().contains_key(self.id@);
                let before = if known {
                    old(registry).balancers_map()[self.id@]
                } else {
                    (strings_view(self.upstream_servers@), 0int)
                };
                (known || self.load_balancing_strategy@ == "round_robin"@) ==> {
                    &&& final(registry).balancers_map().contains_key(self.id@)
                    &&& final(registry).balancers_map()[self.id@].0 == before.0
                    &&& (before.0.len() == 0 ==> r == (ProxyDecision::Status { code: 502 }))
                    &&& (before.0.len() > 0 ==> {
                        &&& final(registry).balancers_map()[self.id@].1 == step(
                            before.1,
                            before.0.len() as int,
                        )
                        &&& r matches ProxyDecision::Forward { uri } && uri@ == apply_rules(
                            before.0[before.1] + original_uri@,
                            self.url_rewrites@,
                            self.url_rewrites@.len() as int,
                        )
                    })
                }
            }),
    {
        if !registry.check_load_balancer_exists(self.id.as_str()) && !str_eq(
            self.load_balancing_strategy.as_str(),
            "round_robin",
        ) {
            return ProxyDecision::Status { code: 500 };
        }
        match registry.get_next_server(self.id.as_str(), &self.upstream_servers) {
            None => ProxyDecision::Status { code: 502 },
            Some(server) => {
                let mut uri = server;
                uri.append(original_uri);
                ProxyDecision::Forward { uri: self.apply_url_rewrites(uri.as_str()) }
            },
        }
    }

    pub fn get_type(&self) -> (r: String)
        ensures
            r@ == "proxy"@,
    {
        String::from_str("proxy")
    }

    pub fn get_default_pretty_name(&self) -> (r: String)
        ensures
            r@ == "Proxy Processor"@,
    {
        String::from_str("Proxy Processor")
    }
}

/// The URIs that `k` consecutive `plan_request` calls forward to when the
/// processor's balancer holds `servers` with cursor `c`.
pub open spec fn planned_uris(
    servers: Seq<Seq<char>>,
    c: int,
    k: nat,
    uri: Seq<char>,
    rules: Seq<ProxyProcessorUrlRewrite>,
) -> Seq<Seq<char>> {
    rr_run(servers, c, k).map_values(|s: Seq<char>| apply_rules(s + uri, rules, rules.len() as int))
}

/// Any `n` consecutive requests through a balancer of `n` upstreams go to
/// every upstream once, in list order from the cursor, and leave the cursor
/// where it started.
pub proof fn lemma_proxy_window(
    servers: Seq<Seq<char>>,
    c: int,
    uri: Seq<char>,
    rules: Seq<ProxyProcessorUrlRewrite>,
)
    requires
        0 <= c < servers.len(),
    ensures
        planned_uris(servers, c, servers.len(), uri, rules).len() == servers.len(),
        forall|j: int|
            0 <= j < servers.len() ==> #[trigger] planned_uris(servers, c, servers.len(), uri, rules)[j]
                == apply_rules(servers[wrap(c + j, servers.len() as int)] + uri, rules, rules.len() as int),
        forall|a: int, b: int|
            0 <= a < b < servers.len() ==> #[trigger] wrap(c + a, servers.len() as int) != #[trigger] wrap(
                c + b,
                servers.len() as int,
            ),
        step_iter(c, servers.len() as int, servers.len()) == c,
{
    lemma_window_is_rotation(servers, c);
    lemma_step_iter(c, servers.len() as int, servers.len());
}

} // verus!
