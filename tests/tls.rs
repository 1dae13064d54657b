use grux::binding_site_index::{resolve_site, sites_for_binding};
use grux::configuration::{Binding, Site};
use grux::tls::{
    acme_cache_dir, alpn_protocols, generated_cert_paths, get_acme_domains_for_binding, is_acme_domain,
    is_acme_eligible_hostname, needs_synthesized_fallback, new_generated_cert_paths, normalize_hostname,
    persist_statements, plan_shared_acme, resolution_order, site_sans, tls_material, CertSource, TlsMaterial,
};

fn tls_site(hostnames: &[&str], acme: bool) -> Site {
    Site {
        id: 7,
        hostnames: hostnames.iter().map(|s| s.to_string()).collect(),
        is_default: false,
        is_enabled: true,
        web_root: "/var/www".to_string(),
        web_root_index_file_list: vec!["index.html".to_string()],
        enabled_handlers: vec![],
        tls_cert_path: String::new(),
        tls_cert_content: String::new(),
        tls_key_path: String::new(),
        tls_key_content: String::new(),
        tls_automatic_enabled: acme,
        rewrite_functions: vec![],
        access_log_enabled: false,
        access_log_path: String::new(),
    }
}

fn binding(is_tls: bool, sites: Vec<Site>) -> Binding {
    Binding { id: 1, ip: "0.0.0.0".to_string(), port: 443, is_admin: false, is_tls, sites }
}

#[test]
fn hostname_eligibility() {
    assert!(is_acme_eligible_hostname("example.com"));
    for h in ["", "*", "*.example.com", "localhost", "intranet"] {
        assert!(!is_acme_eligible_hostname(h));
    }
    assert_eq!(normalize_hostname("  WWW.Example.COM "), "www.example.com");
}

#[test]
fn acme_domains_of_binding() {
    let mut off = tls_site(&["off.example.com"], false);
    off.is_enabled = true;
    let mut disabled = tls_site(&["disabled.example.com"], true);
    disabled.is_enabled = false;
    let b = binding(true, vec![tls_site(&[" A.example.com", "a.example.com", "*", "localhost", "b.example.org"], true), off, disabled]);
    let mut domains = get_acme_domains_for_binding(&b);
    domains.sort();
    assert_eq!(domains, vec!["a.example.com".to_string(), "b.example.org".to_string()]);
    let plain = binding(false, vec![tls_site(&["a.example.com"], true)]);
    assert!(get_acme_domains_for_binding(&plain).is_empty());
}

#[test]
fn shared_acme_plan() {
    let bindings = vec![
        binding(true, vec![tls_site(&["a.example.com"], true)]),
        binding(true, vec![tls_site(&["a.example.com", "c.example.com"], true)]),
        binding(false, vec![tls_site(&["d.example.com"], true)]),
    ];
    let plan = plan_shared_acme(" admin@example.com ", "", true, &bindings).unwrap();
    assert_eq!(plan.contact, "mailto:admin@example.com");
    assert_eq!(plan.cache_dir, "certs/cache");
    assert!(!plan.use_production_directory);
    let mut d = plan.domains.clone();
    d.sort();
    assert_eq!(d, vec!["a.example.com".to_string(), "c.example.com".to_string()]);
    assert!(plan_shared_acme("  ", "", false, &bindings).is_none());
    assert!(plan_shared_acme("a@b.c", "", false, &vec![binding(false, vec![])]).is_none());
    assert_eq!(acme_cache_dir(" /data/acme "), "/data/acme");
}

#[test]
fn sans_for_sites() {
    let (sans, wildcard) = site_sans(&tls_site(&["example.com", " ", "*.example.com"], false), Some("HOST1"));
    assert_eq!(sans, vec!["example.com".to_string(), "*.example.com".to_string()]);
    assert!(!wildcard);
    let (sans, wildcard) = site_sans(&tls_site(&["example.com", "*"], false), Some("HOST1"));
    assert_eq!(sans, vec!["localhost".to_string(), "host1".to_string()]);
    assert!(wildcard);
    let (sans, _) = site_sans(&tls_site(&[], false), None);
    assert_eq!(sans, vec!["localhost".to_string()]);
}

#[test]
fn material_choice() {
    let mut s = tls_site(&["example.com"], false);
    assert!(matches!(tls_material(&s), TlsMaterial::Generate));
    s.tls_cert_content = "PEM".to_string();
    s.tls_key_content = "KEY".to_string();
    assert!(matches!(tls_material(&s), TlsMaterial::Inline));
    s.tls_cert_path = "a.pem".to_string();
    s.tls_key_path = "b.pem".to_string();
    assert!(matches!(tls_material(&s), TlsMaterial::Files));
    assert!(needs_synthesized_fallback(false, 0));
    assert!(!needs_synthesized_fallback(false, 1));
    assert!(!needs_synthesized_fallback(true, 0));
}

#[test]
fn resolver_order() {
    let r = resolution_order(true, true, false);
    assert!(matches!(r.as_slice(), [CertSource::Acme]));
    assert!(resolution_order(true, false, true).is_empty());
    assert!(matches!(resolution_order(false, true, true).as_slice(), [CertSource::Acme, CertSource::Fallback]));
    assert!(matches!(resolution_order(false, false, true).as_slice(), [CertSource::Fallback]));
    assert!(matches!(resolution_order(false, true, false).as_slice(), [CertSource::Sni, CertSource::Fallback]));
    let domains = vec!["a.example.com".to_string()];
    assert!(is_acme_domain(&domains, "A.Example.com"));
    assert!(!is_acme_domain(&domains, "b.example.com"));
}

#[test]
fn alpn_and_paths() {
    assert_eq!(alpn_protocols(false), vec![b"h2".to_vec(), b"http/1.1".to_vec()]);
    assert_eq!(alpn_protocols(true), vec![b"h2".to_vec(), b"http/1.1".to_vec(), b"acme-tls/1".to_vec()]);
    assert_eq!(generated_cert_paths(42), ("certs/42.crt.pem".to_string(), "certs/42.key.pem".to_string()));
    let (c, k) = new_generated_cert_paths();
    assert!(c.starts_with("certs/") && c.ends_with(".crt.pem"));
    assert_eq!(c.trim_end_matches(".crt.pem"), k.trim_end_matches(".key.pem"));
}

#[test]
fn persist_statement_text() {
    let admin = persist_statements(true, "certs/1.crt.pem", "certs/1.key.pem", 3);
    assert_eq!(admin.len(), 2);
    assert_eq!(
        admin[0],
        "UPDATE server_settings SET setting_value = 'certs/1.crt.pem' WHERE setting_key = 'admin_portal_tls_certificate_path';"
    );
    let site = persist_statements(false, "c", "k", 12);
    assert_eq!(site, vec!["UPDATE sites SET tls_cert_path = 'c', tls_key_path = 'k' WHERE id = '12';".to_string()]);
}

#[test]
fn site_resolution_with_default_wildcard() {
    let mut fallback = tls_site(&["*"], false);
    fallback.is_default = true;
    let mut off = tls_site(&["off.example.com"], false);
    off.is_enabled = false;
    let sites = vec![tls_site(&["a.example.com"], false), off, fallback];
    assert_eq!(resolve_site(&sites, "A.EXAMPLE.com"), Some(0));
    assert_eq!(resolve_site(&sites, "off.example.com"), Some(2));
    assert_eq!(resolve_site(&sites, "other.org"), Some(2));
    assert_eq!(resolve_site(&vec![tls_site(&["a.example.com"], false)], "other.org"), None);
    let bindings = vec![binding(true, sites)];
    assert_eq!(sites_for_binding(&bindings, 1), vec![0, 2]);
    assert!(sites_for_binding(&bindings, 9).is_empty());
}
