use grux::request_handler::parse_u16;
use grux::configuration::{Binding, Core, FileCache, Gzip, ServerSettings, Site};

fn site(hostnames: &[&str]) -> Site {
    Site {
        id: 1,
        hostnames: hostnames.iter().map(|s| s.to_string()).collect(),
        is_default: false,
        is_enabled: true,
        web_root: "/var/www".to_string(),
        web_root_index_file_list: vec!["index.html".to_string()],
        enabled_handlers: vec![],
        tls_cert_path: String::new(),
        tls_cert_content: String::new(),
        tls_key_path: String::new(),
        tls_key_content: String::new(),
        tls_automatic_enabled: false,
        rewrite_functions: vec![],
        access_log_enabled: false,
        access_log_path: String::new(),
    }
}

fn file_cache() -> FileCache {
    FileCache {
        is_enabled: true,
        cache_item_size: 100,
        cache_max_size_per_file: 1000,
        cache_item_time_between_checks: 60,
        cleanup_thread_interval: 300,
        max_item_lifetime: 3600,
        forced_eviction_threshold: 80,
    }
}

#[test]
fn site_validation() {
    assert!(site(&["example.com", "*"]).validate().is_ok());
    let errors = site(&[" ", "ab"]).validate().unwrap_err();
    assert_eq!(
        errors,
        vec![
            "Hostname 1 cannot be empty".to_string(),
            "Hostname 'ab' is too short (minimum 3 characters unless wildcard '*')".to_string()
        ]
    );
    let mut s = site(&[]);
    s.web_root = "  ".to_string();
    s.web_root_index_file_list = vec![];
    assert_eq!(s.validate().unwrap_err().len(), 3);
}

#[test]
fn binding_validation() {
    let mut b = Binding { id: 1, ip: "0.0.0.0".to_string(), port: 443, is_admin: false, is_tls: true, sites: vec![] };
    assert!(b.validate(true).is_ok());
    assert_eq!(b.validate(false).unwrap_err(), vec!["Invalid IP address: 0.0.0.0".to_string()]);
    b.is_tls = false;
    b.is_admin = true;
    assert_eq!(b.validate(true).unwrap_err().len(), 3);
    b.add_site(site(&["example.com"]));
    assert_eq!(b.get_sites().len(), 1);
    b.port = 0;
    b.ip = String::new();
    assert_eq!(b.validate(true).unwrap_err().len(), 3);
}

#[test]
fn file_cache_validation() {
    assert!(file_cache().validate().is_ok());
    let mut f = file_cache();
    f.forced_eviction_threshold = 100;
    f.cache_item_size = 0;
    assert_eq!(f.validate().unwrap_err().len(), 2);
}

#[test]
fn gzip_sanitize_and_validate() {
    let mut g = Gzip { is_enabled: true, compressible_content_types: vec![" text/html ".to_string(), "  ".to_string(), "json".to_string()] };
    assert_eq!(g.validate().unwrap_err().len(), 3);
    g.sanitize();
    assert_eq!(g.compressible_content_types, vec!["text/html".to_string(), "json".to_string()]);
    assert_eq!(
        g.validate().unwrap_err(),
        vec!["Content type 'json' appears to be invalid format (should contain '/' or end with '/')".to_string()]
    );
    let empty = Gzip { is_enabled: true, compressible_content_types: vec![] };
    assert_eq!(empty.validate().unwrap_err().len(), 1);
}

#[test]
fn server_settings_and_core() {
    let mut s = ServerSettings { max_body_size: 0, blocked_file_patterns: vec![], whitelisted_file_patterns: vec![] };
    s.sanitize();
    assert_eq!(s.validate().unwrap_err(), vec!["Max body size cannot be 0".to_string()]);
    s.max_body_size = 1 << 40;
    assert!(s.validate().is_ok());
    let mut fc = file_cache();
    fc.max_item_lifetime = 0;
    let core = Core {
        file_cache: fc,
        gzip: Gzip { is_enabled: true, compressible_content_types: vec![] },
        server_settings: s,
    };
    let errors = core.validate().unwrap_err();
    assert_eq!(errors.len(), 2);
    assert_eq!(errors[0], "File Cache: Max item lifetime cannot be 0");
    assert!(errors[1].starts_with("Gzip: "));
}

fn php_handler() -> grux::configuration::RequestHandler {
    grux::configuration::RequestHandler {
        id: "php_1".to_string(),
        is_enabled: true,
        name: "PHP".to_string(),
        handler_type: "php".to_string(),
        request_timeout: 30,
        concurrent_threads: 0,
        file_match: vec![".php".to_string()],
        executable: "php-cgi".to_string(),
        ip_and_port: "127.0.0.1:9000".to_string(),
        other_webroot: String::new(),
        extra_handler_config: vec![("k".to_string(), "v".to_string())],
        extra_environment: vec![("PHP_INI".to_string(), "x".to_string())],
    }
}

#[test]
fn request_handler_validation() {
    assert!(php_handler().validate(true).is_ok());
    let mut h = php_handler();
    h.id = "bad id!".to_string();
    h.handler_type = "ruby".to_string();
    h.request_timeout = 0;
    h.concurrent_threads = 2000;
    h.file_match = vec![" ".to_string(), "php".to_string()];
    h.executable = String::new();
    h.ip_and_port = "1.2.3:0".to_string();
    h.extra_environment = vec![("BAD-KEY".to_string(), String::new())];
    let errors = h.validate(false).unwrap_err();
    assert_eq!(errors.len(), 11);
    assert!(errors.contains(&"Unknown handler type 'ruby'. Valid types are: php, python, node, static, proxy".to_string()));
    assert!(errors.contains(&"File match pattern 1 cannot be empty".to_string()));
    assert!(errors.contains(&"Invalid IP address '1.2.3:0': 1.2.3".to_string()));
    assert!(errors.contains(&"Port cannot be 0".to_string()));
}

#[test]
fn request_handler_addresses() {
    let mut h = php_handler();
    for (addr, n) in [("localhost", 1), ("a:b:c", 1), ("host:99999", 1), ("host:+80", 0), ("  ", 0), ("[::1]:9000", 1)] {
        h.ip_and_port = addr.to_string();
        let count = h.validate(true).err().map(|e| e.len()).unwrap_or(0);
        assert_eq!(count, n, "{}", addr);
    }
    h.ip_and_port = "host:99999".to_string();
    assert_eq!(h.validate(true).unwrap_err(), vec!["Invalid port in 'host:99999': 99999".to_string()]);
}

#[test]
fn port_number_parsing() {
    for s in ["+80", "65535", "007", "0", "65536", "", "+", "8a", "-1", "99999999999"] {
        assert_eq!(parse_u16(s), s.parse::<u16>().ok(), "{}", s);
    }
}
