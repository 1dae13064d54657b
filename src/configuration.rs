//! Configuration records and their validation: bindings, sites, the file
//! cache, gzip, server settings and the core section.

use vstd::prelude::*;
use crate::round_robin::strings_view;
use crate::text::{contains_char, chars_of, decimal, decimal_string, str_eq, trim, trim_ws};

verus! {

/// `prefix`, the 1-based position `i + 1` in decimal, then `suffix`.
pub open spec fn numbered_text(prefix: Seq<char>, i: int, suffix: Seq<char>) -> Seq<char> {
    prefix + decimal((i + 1) as nat) + suffix
}

/// The message `m` alone when `b` holds, else nothing.
pub open spec fn message_if(b: bool, m: Seq<char>) -> Seq<Seq<char>> {
    if b {
        seq![m]
    } else {
        Seq::empty()
    }
}

/// The messages `f` gives for each of the first `k` strings of `v`, in
/// order.
pub open spec fn flat_errors(v: Seq<String>, k: int, f: spec_fn(int, Seq<char>) -> Seq<Seq<char>>) -> Seq<
    Seq<char>,
>
    decreases k,
{
    if k <= 0 {
        Seq::empty()
    } else {
        flat_errors(v, k - 1, f) + f(k - 1, v[k - 1]@)
    }
}

/// `prefix`, the 1-based position `i + 1` in decimal, then `suffix`.
pub(crate) fn numbered_message(prefix: &str, i: usize, suffix: &str) -> (r: String)
    requires
        i < usize::MAX,
    ensures
        r@ == numbered_text(prefix@, i as int, suffix@),
{
    let mut m = String::from_str(prefix);
    let n = decimal_string((i + 1) as u64);
    m.append(n.as_str());
    m.append(suffix);
    m
}

/// `prefix`, `middle`, then `suffix`.
pub(crate) fn quoted_message(prefix: &str, middle: &str, suffix: &str) -> (r: String)
    ensures
        r@ == prefix@ + middle@ + suffix@,
        suffix@.len() == 0 ==> r@ == prefix@ + middle@,
{
    let mut m = String::from_str(prefix);
    m.append(middle);
    m.append(suffix);
    m
}

/// A virtual site: the hostnames it answers, its web root and TLS
/// material.
pub struct Site {
    pub id: usize,
    pub hostnames: Vec<String>,
    pub is_default: bool,
    pub is_enabled: bool,
    pub web_root: String,
    pub web_root_index_file_list: Vec<String>,
    pub enabled_handlers: Vec<String>,
    pub tls_cert_path: String,
    pub tls_cert_content: String,
    pub tls_key_path: String,
    pub tls_key_content: String,
    pub tls_automatic_enabled: bool,
    pub rewrite_functions: Vec<String>,
    pub access_log_enabled: bool,
    pub access_log_path: String,
}

/// A blank hostname.
pub open spec fn blank(h: Seq<char>) -> bool {
    trim_ws(h).len() == 0
}

/// A hostname that is not blank, not `*`, and under 3 characters once
/// trimmed.
pub open spec fn short_hostname(h: Seq<char>) -> bool {
    trim_ws(h).len() > 0 && trim_ws(h) != "*"@ && trim_ws(h).len() < 3
}

/// The messages for hostname `i`: empty, or too short.
pub open spec fn hostname_errors(i: int, h: Seq<char>) -> Seq<Seq<char>> {
    if blank(h) {
        seq![numbered_text("Hostname "@, i, " cannot be empty"@)]
    } else if short_hostname(h) {
        seq!["Hostname '"@ + trim_ws(h) + "' is too short (minimum 3 characters unless wildcard '*')"@]
    } else {
        Seq::empty()
    }
}

/// The message for index file `i` when it is blank.
pub open spec fn index_file_errors(i: int, f: Seq<char>) -> Seq<Seq<char>> {
    message_if(blank(f), numbered_text("Index file "@, i, " cannot be empty"@))
}

/// The messages `Site::validate` reports, in order.
pub open spec fn site_errors(s: Site) -> Seq<Seq<char>> {
    message_if(s.hostnames@.len() == 0, "Site must have at least one hostname"@) + flat_errors(
        s.hostnames@,
        s.hostnames@.len() as int,
        |i: int, h: Seq<char>| hostname_errors(i, h),
    ) + message_if(blank(s.web_root@), "Web root cannot be empty"@) + message_if(
        s.web_root_index_file_list@.len() == 0,
        "Site must have at least one index file"@,
    ) + flat_errors(
        s.web_root_index_file_list@,
        s.web_root_index_file_list@.len() as int,
        |i: int, f: Seq<char>| index_file_errors(i, f),
    )
}

impl Site {
    /// Checks the site; on failure, one message per problem found.
    pub fn validate(&self) -> (r: Result<(), Vec<String>>)
        ensures
            r is Ok <==> site_errors(*self).len() == 0,
            match r {
                Ok(_) => true,
                Err(errors) => strings_view(errors@) == site_errors(*self),
            },
    {
        let mut errors: Vec<String> = Vec::new();
        if self.hostnames.len() == 0 {
            errors.push(String::from_str("Site must have at least one hostname"));
        }
        let ghost base = strings_view(errors@);
        assert(base =~= message_if(self.hostnames@.len() == 0, "Site must have at least one hostname"@));
        let mut i: usize = 0;
        while i < self.hostnames.len()
            invariant
                i <= self.hostnames@.len(),
                strings_view(errors@) == base + flat_errors(
                    self.hostnames@,
                    i as int,
                    |i: int, h: Seq<char>| hostname_errors(i, h),
                ),
            decreases self.hostnames@.len() - i,
        {
            let ghost before = strings_view(errors@);
            let t = trim(self.hostnames[i].as_str());
            let char_len = t.unicode_len();
            if t.unicode_len() == 0 {
                errors.push(numbered_message("Hostname ", i, " cannot be empty"));
            } else if !str_eq(t.as_str(), "*") && char_len < 3 {
                errors.push(
                    quoted_message(
                        "Hostname '",
                        t.as_str(),
                        "' is too short (minimum 3 characters unless wildcard '*')",
                    ),
                );
            }
            proof {
                assert(strings_view(errors@) =~= before + hostname_errors(i as int, self.hostnames@[i as int]@));
                assert(base + flat_errors(self.hostnames@, i + 1, |i: int, h: Seq<char>| hostname_errors(i, h))
                    =~= before + hostname_errors(i as int, self.hostnames@[i as int]@));
            }
            i += 1;
        }
        let ghost mid1 = strings_view(errors@);
        if trim(self.web_root.as_str()).unicode_len() == 0 {
            errors.push(String::from_str("Web root cannot be empty"));
        }
        assert(strings_view(errors@) =~= mid1 + message_if(blank(self.web_root@), "Web root cannot be empty"@));
        let ghost mid2 = strings_view(errors@);
        if self.web_root_index_file_list.len() == 0 {
            errors.push(String::from_str("Site must have at least one index file"));
        }
        assert(strings_view(errors@) =~= mid2 + message_if(
            self.web_root_index_file_list@.len() == 0,
            "Site must have at least one index file"@,
        ));
        let ghost base2 = strings_view(errors@);
        let mut j: usize = 0;
        while j < self.web_root_index_file_list.len()
            invariant
                j <= self.web_root_index_file_list@.len(),
                strings_view(errors@) == base2 + flat_errors(
                    self.web_root_index_file_list@,
                    j as int,
                    |i: int, f: Seq<char>| index_file_errors(i, f),
                ),
            decreases self.web_root_index_file_list@.len() - j,
        {
            let ghost before = strings_view(errors@);
            if trim(self.web_root_index_file_list[j].as_str()).unicode_len() == 0 {
                errors.push(numbered_message("Index file ", j, " cannot be empty"));
            }
            proof {
                assert(strings_view(errors@) =~= before + index_file_errors(
                    j as int,
                    self.web_root_index_file_list@[j as int]@,
                ));
                assert(base2 + flat_errors(
                    self.web_root_index_file_list@,
                    j + 1,
                    |i: int, f: Seq<char>| index_file_errors(i, f),
                ) =~= before + index_file_errors(j as int, self.web_root_index_file_list@[j as int]@));
            }
            j += 1;
        }
        proof {
            assert(strings_view(errors@) =~= site_errors(*self));
        }
        if errors.len() == 0 {
            Ok(())
        } else {
            Err(errors)
        }
    }
}

/// A listen address with its flags and the enabled sites served there.
pub struct Binding {
    pub id: usize,
    pub ip: String,
    pub port: u16,
    pub is_admin: bool,
    pub is_tls: bool,
    pub sites: Vec<Site>,
}

/// The messages `Binding::validate` reports, in order, given whether the
/// address text parses as an IP address.
pub open spec fn binding_errors(b: Binding, ip_is_valid: bool) -> Seq<Seq<char>> {
    (if b.ip@.len() == 0 {
        seq!["IP address cannot be empty"@]
    } else {
        message_if(!ip_is_valid, "Invalid IP address: "@ + b.ip@)
    }) + message_if(b.port == 0, "Port cannot be 0"@) + message_if(
        b.is_tls && b.port == 80,
        "Port 80 is typically used for HTTP, not HTTPS. Consider using port 443 for TLS"@,
    ) + message_if(
        !b.is_tls && b.port == 443,
        "Port 443 is typically used for HTTPS, not HTTP. Consider using port 80 for non-TLS or enable TLS"@,
    ) + message_if(b.is_admin && !b.is_tls, "Admin binding should use TLS for security"@) + message_if(
        b.is_admin && b.sites@.len() == 0,
        "Admin binding must have at least one site configured"@,
    )
}

impl Binding {
    pub fn get_sites(&self) -> (r: &Vec<Site>)
        ensures
            r == &self.sites,
    {
        &self.sites
    }

    pub fn add_site(&mut self, site: Site)
        ensures
            final(self).sites@ == old(self).sites@.push(site),
            final(self).id == old(self).id,
            final(self).ip == old(self).ip,
            final(self).port == old(self).port,
            final(self).is_admin == old(self).is_admin,
            final(self).is_tls == old(self).is_tls,
    {
        self.sites.push(site);
    }

    /// Checks the binding; `ip_is_valid` tells whether `ip` parses as an IP
    /// address. On failure, one message per problem found.
    pub fn validate(&self, ip_is_valid: bool) -> (r: Result<(), Vec<String>>)
        ensures
            r is Ok <==> binding_errors(*self, ip_is_valid).len() == 0,
            match r {
                Ok(_) => true,
                Err(errors) => strings_view(errors@) == binding_errors(*self, ip_is_valid),
            },
    {
        proof {
            reveal_strlit("");
        }
        let mut errors: Vec<String> = Vec::new();
        if self.ip.unicode_len() == 0 {
            errors.push(String::from_str("IP address cannot be empty"));
        } else if !ip_is_valid {
            errors.push(quoted_message("Invalid IP address: ", self.ip.as_str(), ""));
        }
        let ghost s1 = strings_view(errors@);
        assert(s1 =~= (if self.ip@.len() == 0 {
            seq!["IP address cannot be empty"@]
        } else {
            message_if(!ip_is_valid, "Invalid IP address: "@ + self.ip@)
        }));
        if self.port == 0 {
            errors.push(String::from_str("Port cannot be 0"));
        }
        let ghost s2 = strings_view(errors@);
        assert(s2 =~= s1 + message_if(self.port == 0, "Port cannot be 0"@));
        if self.is_tls && self.port == 80 {
            errors.push(
                String::from_str(
                    "Port 80 is typically used for HTTP, not HTTPS. Consider using port 443 for TLS",
                ),
            );
        }
        let ghost s3 = strings_view(errors@);
        assert(s3 =~= s2 + message_if(
            self.is_tls && self.port == 80,
            "Port 80 is typically used for HTTP, not HTTPS. Consider using port 443 for TLS"@,
        ));
        if !self.is_tls && self.port == 443 {
            errors.push(
                String::from_str(
                    "Port 443 is typically used for HTTPS, not HTTP. Consider using port 80 for non-TLS or enable TLS",
                ),
            );
        }
        let ghost s4 = strings_view(errors@);
        assert(s4 =~= s3 + message_if(
            !self.is_tls && self.port == 443,
            "Port 443 is typically used for HTTPS, not HTTP. Consider using port 80 for non-TLS or enable TLS"@,
        ));
        if self.is_admin && !self.is_tls {
            errors.push(String::from_str("Admin binding should use TLS for security"));
        }
        let ghost s5 = strings_view(errors@);
        assert(s5 =~= s4 + message_if(self.is_admin && !self.is_tls, "Admin binding should use TLS for security"@));
        if self.is_admin && self.sites.len() == 0 {
            errors.push(String::from_str("Admin binding must have at least one site configured"));
        }
        proof {
            assert(strings_view(errors@) =~= s5 + message_if(
                self.is_admin && self.sites@.len() == 0,
                "Admin binding must have at least one site configured"@,
            ));
            assert(strings_view(errors@) =~= binding_errors(*self, ip_is_valid));
        }
        if errors.len() == 0 {
            Ok(())
        } else {
            Err(errors)
        }
    }
}

/// An external request handler (such as a PHP CGI pool) that sites refer
/// to by id.
pub struct RequestHandler {
    pub id: String,
    pub is_enabled: bool,
    pub name: String,
    pub handler_type: String,
    pub request_timeout: usize,
    pub concurrent_threads: usize,
    pub file_match: Vec<String>,
    pub executable: String,
    pub ip_and_port: String,
    pub other_webroot: String,
    pub extra_handler_config: Vec<(String, String)>,
    pub extra_environment: Vec<(String, String)>,
}

/// Which site is served on which binding.
pub struct BindingSiteRelationship {
    pub binding_id: usize,
    pub site_id: usize,
}

/// File-cache settings.
pub struct FileCache {
    pub is_enabled: bool,
    pub cache_item_size: usize,
    pub cache_max_size_per_file: usize,
    pub cache_item_time_between_checks: usize,
    pub cleanup_thread_interval: usize,
    pub max_item_lifetime: usize,
    pub forced_eviction_threshold: usize,
}

/// The messages `FileCache::validate` reports, in order.
pub open spec fn file_cache_errors(f: FileCache) -> Seq<Seq<char>> {
    message_if(f.cache_item_size == 0, "Max cached items count cannot be 0"@) + message_if(
        f.cache_max_size_per_file == 0,
        "Max size per file cannot be 0 bytes"@,
    ) + message_if(f.cache_item_time_between_checks == 0, "Cache item time between checks cannot be 0"@)
        + message_if(f.cleanup_thread_interval == 0, "Cleanup thread interval cannot be 0"@) + message_if(
        f.max_item_lifetime == 0,
        "Max item lifetime cannot be 0"@,
    ) + message_if(
        f.forced_eviction_threshold == 0 || f.forced_eviction_threshold > 99,
        "Forced eviction threshold must be between 1-99%"@,
    )
}

impl FileCache {
    pub fn validate(&self) -> (r: Result<(), Vec<String>>)
        ensures
            r is Ok <==> file_cache_errors(*self).len() == 0,
            match r {
                Ok(_) => true,
                Err(errors) => strings_view(errors@) == file_cache_errors(*self),
            },
    {
        let mut errors: Vec<String> = Vec::new();
        if self.cache_item_size == 0 {
            errors.push(String::from_str("Max cached items count cannot be 0"));
        }
        if self.cache_max_size_per_file == 0 {
            errors.push(String::from_str("Max size per file cannot be 0 bytes"));
        }
        if self.cache_item_time_between_checks == 0 {
            errors.push(String::from_str("Cache item time between checks cannot be 0"));
        }
        if self.cleanup_thread_interval == 0 {
            errors.push(String::from_str("Cleanup thread interval cannot be 0"));
        }
        if self.max_item_lifetime == 0 {
            errors.push(String::from_str("Max item lifetime cannot be 0"));
        }
        if self.forced_eviction_threshold == 0 || self.forced_eviction_threshold > 99 {
            errors.push(String::from_str("Forced eviction threshold must be between 1-99%"));
        }
        proof {
            assert(strings_view(errors@) =~= file_cache_errors(*self));
        }
        if errors.len() == 0 {
            Ok(())
        } else {
            Err(errors)
        }
    }
}

/// Gzip settings.
pub struct Gzip {
    pub is_enabled: bool,
    pub compressible_content_types: Vec<String>,
}

/// A content type without a slash.
pub open spec fn slashless(c: Seq<char>) -> bool {
    !c.contains('/')
}

/// The messages for content type `i`: empty, and without a slash.
pub open spec fn content_type_errors(i: int, c: Seq<char>) -> Seq<Seq<char>> {
    message_if(blank(c), numbered_text("Content type "@, i, " cannot be empty"@)) + message_if(
        slashless(c),
        "Content type '"@ + c + "' appears to be invalid format (should contain '/' or end with '/')"@,
    )
}

/// The messages `Gzip::validate` reports, in order.
pub open spec fn gzip_errors(g: Gzip) -> Seq<Seq<char>> {
    let v = g.compressible_content_types@;
    message_if(
        g.is_enabled && v.len() == 0,
        "At least one compressible content type must be specified when gzip is enabled"@,
    ) + flat_errors(v, v.len() as int, |i: int, c: Seq<char>| content_type_errors(i, c))
}

/// The trimmed, non-empty strings among the first `k` of `v`.
pub open spec fn trimmed_kept(v: Seq<String>, k: int) -> Seq<Seq<char>>
    decreases k,
{
    if k <= 0 {
        Seq::empty()
    } else if blank(v[k - 1]@) {
        trimmed_kept(v, k - 1)
    } else {
        trimmed_kept(v, k - 1).push(trim_ws(v[k - 1]@))
    }
}

impl Gzip {
    /// Trims every content type and drops the empty ones.
    pub fn sanitize(&mut self)
        ensures
            final(self).is_enabled == old(self).is_enabled,
            final(self).compressible_content_types@.map_values(|s: String| s@) == trimmed_kept(
                old(self).compressible_content_types@,
                old(self).compressible_content_types@.len() as int,
            ),
    {
        let mut kept: Vec<String> = Vec::new();
        let mut i: usize = 0;
        while i < self.compressible_content_types.len()
            invariant
                i <= self.compressible_content_types@.len(),
                self == old(self),
                kept@.map_values(|s: String| s@) == trimmed_kept(
                    self.compressible_content_types@,
                    i as int,
                ),
            decreases self.compressible_content_types@.len() - i,
        {
            let t = trim(self.compressible_content_types[i].as_str());
            if t.unicode_len() > 0 {
                kept.push(t);
            }
            proof {
                assert(kept@.map_values(|s: String| s@) =~= trimmed_kept(
                    self.compressible_content_types@,
                    i + 1,
                ));
            }
            i += 1;
        }
        self.compressible_content_types = kept;
    }

    pub fn validate(&self) -> (r: Result<(), Vec<String>>)
        ensures
            r is Ok <==> gzip_errors(*self).len() == 0,
            match r {
                Ok(_) => true,
                Err(errors) => strings_view(errors@) == gzip_errors(*self),
            },
    {
        let mut errors: Vec<String> = Vec::new();
        if self.is_enabled && self.compressible_content_types.len() == 0 {
            errors.push(
                String::from_str(
                    "At least one compressible content type must be specified when gzip is enabled",
                ),
            );
        }
        let ghost base = strings_view(errors@);
        assert(base =~= message_if(
            self.is_enabled && self.compressible_content_types@.len() == 0,
            "At least one compressible content type must be specified when gzip is enabled"@,
        ));
        let v = &self.compressible_content_types;
        let mut i: usize = 0;
        while i < v.len()
            invariant
                i <= v@.len(),
                strings_view(errors@) == base + flat_errors(
                    v@,
                    i as int,
                    |i: int, c: Seq<char>| content_type_errors(i, c),
                ),
            decreases v@.len() - i,
        {
            let ghost before = strings_view(errors@);
            let content_type = v[i].as_str();
            if trim(content_type).unicode_len() == 0 {
                errors.push(numbered_message("Content type ", i, " cannot be empty"));
            }
            if !contains_char(&chars_of(content_type), '/') {
                errors.push(
                    quoted_message(
                        "Content type '",
                        content_type,
                        "' appears to be invalid format (should contain '/' or end with '/')",
                    ),
                );
            }
            proof {
                assert(strings_view(errors@) =~= before + content_type_errors(i as int, v@[i as int]@));
                assert(base + flat_errors(v@, i + 1, |i: int, c: Seq<char>| content_type_errors(i, c))
                    =~= before + content_type_errors(i as int, v@[i as int]@));
            }
            i += 1;
        }
        proof {
            assert(strings_view(errors@) =~= gzip_errors(*self));
        }
        if errors.len() == 0 {
            Ok(())
        } else {
            Err(errors)
        }
    }
}

/// Server-wide request settings.
pub struct ServerSettings {
    /// The largest request body accepted, in bytes.
    pub max_body_size: u64,
    pub blocked_file_patterns: Vec<String>,
    pub whitelisted_file_patterns: Vec<String>,
}

impl ServerSettings {
    /// Nothing to clean up in these settings.
    pub fn sanitize(&mut self)
        ensures
            *final(self) == *old(self),
    {
    }

    pub fn validate(&self) -> (r: Result<(), Vec<String>>)
        ensures
            r is Ok <==> self.max_body_size != 0,
            match r {
                Ok(_) => true,
                Err(errors) => strings_view(errors@) == seq!["Max body size cannot be 0"@],
            },
    {
        if self.max_body_size == 0 {
            let mut errors: Vec<String> = Vec::new();
            errors.push(String::from_str("Max body size cannot be 0"));
            assert(strings_view(errors@) =~= seq!["Max body size cannot be 0"@]);
            Err(errors)
        } else {
            Ok(())
        }
    }
}

/// The core section: file cache, gzip and server settings.
pub struct Core {
    pub file_cache: FileCache,
    pub gzip: Gzip,
    pub server_settings: ServerSettings,
}

/// Each message of `v` after `prefix`.
pub open spec fn prefixed(v: Seq<Seq<char>>, prefix: Seq<char>) -> Seq<Seq<char>> {
    v.map_values(|m: Seq<char>| prefix + m)
}

fn append_prefixed(errors: &mut Vec<String>, prefix: &str, more: Vec<String>)
    ensures
        strings_view(final(errors)@) == strings_view(old(errors)@) + prefixed(strings_view(more@), prefix@),
{
    let mut i: usize = 0;
    while i < more.len()
        invariant
            i <= more@.len(),
            strings_view(errors@) == strings_view(old(errors)@) + prefixed(
                strings_view(more@.subrange(0, i as int)),
                prefix@,
            ),
        decreases more@.len() - i,
    {
        proof {
            reveal_strlit("");
        }
        let ghost before = strings_view(errors@);
        let msg = quoted_message(prefix, more[i].as_str(), "");
        assert(msg@ == prefix@ + more@[i as int]@);
        errors.push(msg);
        proof {
            assert(strings_view(errors@) =~= before.push(prefix@ + more@[i as int]@));
            assert(prefixed(strings_view(more@.subrange(0, i + 1)), prefix@) =~= prefixed(
                strings_view(more@.subrange(0, i as int)),
                prefix@,
            ).push(prefix@ + more@[i as int]@));
            assert(strings_view(errors@) =~= strings_view(old(errors)@) + prefixed(
                strings_view(more@.subrange(0, i + 1)),
                prefix@,
            ));
        }
        i += 1;
    }
    proof {
        assert(more@.subrange(0, more@.len() as int) =~= more@);
    }
}

impl Core {
    /// Checks the file cache and gzip sections; their messages come back
    /// prefixed with the section name.
    pub fn validate(&self) -> (r: Result<(), Vec<String>>)
        ensures
            r is Ok <==> file_cache_errors(self.file_cache).len() + gzip_errors(self.gzip).len() == 0,
            match r {
                Ok(_) => true,
                Err(errors) => strings_view(errors@) == prefixed(
                    file_cache_errors(self.file_cache),
                    "File Cache: "@,
                ) + prefixed(gzip_errors(self.gzip), "Gzip: "@),
            },
    {
        let mut errors: Vec<String> = Vec::new();
        match self.file_cache.validate() {
            Ok(_) => {},
            Err(more) => append_prefixed(&mut errors, "File Cache: ", more),
        }
        match self.gzip.validate() {
            Ok(_) => {},
            Err(more) => append_prefixed(&mut errors, "Gzip: ", more),
        }
        proof {
            assert(strings_view(errors@) =~= prefixed(file_cache_errors(self.file_cache), "File Cache: "@)
                + prefixed(gzip_errors(self.gzip), "Gzip: "@));
        }
        if errors.len() == 0 {
            Ok(())
        } else {
            Err(errors)
        }
    }
}

} // verus!
