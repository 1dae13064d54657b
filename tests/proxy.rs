use grux::http_util::{clean_update_response_headers, get_list_of_hop_by_hop_headers, get_standard_headers};
use grux::proxy::{replace_case_insensitive, replace_literal, ProxyDecision, ProxyProcessor, ProxyProcessorUrlRewrite};
use grux::round_robin::LoadBalancerRegistry;

fn processor(servers: &[&str]) -> ProxyProcessor {
    let mut p = ProxyProcessor::new();
    p.upstream_servers = servers.iter().map(|s| s.to_string()).collect();
    p
}

#[test]
fn new_processor_defaults() {
    let p = ProxyProcessor::new();
    assert_eq!(p.id.len(), 36);
    assert_eq!(p.proxy_type, "http");
    assert_eq!(p.load_balancing_strategy, "round_robin");
    assert_eq!(p.timeout_seconds, 30);
    assert_eq!(p.health_check_path, "/health");
    assert!(!p.should_rewrite_host_header);
    assert_ne!(p.id, ProxyProcessor::new().id);
    assert_eq!(p.get_type(), "proxy");
    assert_eq!(p.get_default_pretty_name(), "Proxy Processor");
}

#[test]
fn literal_replace_matches_std() {
    for (s, f, t) in [("aaaa", "aa", "b"), ("abcabc", "bc", "X"), ("ab", "", "-"), ("", "", "x"), ("héllo", "é", "e")] {
        assert_eq!(replace_literal(s, f, t), s.replace(f, t));
    }
}

#[test]
fn case_insensitive_replace_keeps_other_text() {
    assert_eq!(replace_case_insensitive("http://Host/API/v1", "/api/", "/backend/"), "http://Host/backend/v1");
    assert_eq!(replace_case_insensitive("ÄbcÄBC", "äbc", "x"), "xx");
    assert_eq!(replace_case_insensitive("abc", "", "x"), "abc");
    assert_eq!(replace_case_insensitive("abc", "zz", "x"), "abc");
}

#[test]
fn rewrites_apply_in_order() {
    let mut p = processor(&["http://u1:8080"]);
    p.url_rewrites = vec![
        ProxyProcessorUrlRewrite { from: "/old/".to_string(), to: "/new/".to_string(), is_case_insensitive: false },
        ProxyProcessorUrlRewrite { from: "NEW".to_string(), to: "final".to_string(), is_case_insensitive: true },
    ];
    assert_eq!(p.apply_url_rewrites("http://u1:8080/old/x"), "http://u1:8080/final/x");
    assert_eq!(p.apply_url_rewrites("http://u1:8080/OLD/x"), "http://u1:8080/OLD/x");
}

#[test]
fn sanitize_trims_everything() {
    let mut p = processor(&["  http://a ", "   ", "http://b"]);
    p.load_balancing_strategy = " round_robin\t".to_string();
    p.health_check_path = " /h ".to_string();
    p.url_rewrites = vec![ProxyProcessorUrlRewrite { from: " a ".to_string(), to: " b".to_string(), is_case_insensitive: true }];
    p.sanitize();
    assert_eq!(p.upstream_servers, vec!["http://a".to_string(), "http://b".to_string()]);
    assert_eq!(p.load_balancing_strategy, "round_robin");
    assert_eq!(p.health_check_path, "/h");
    assert_eq!(p.url_rewrites[0].from, "a");
    assert_eq!(p.url_rewrites[0].to, "b");
}

#[test]
fn validate_counts_each_problem() {
    assert!(processor(&["http://a", "https://b"]).validate().is_ok());
    let mut p = processor(&["ftp://a", "b"]);
    p.proxy_type = "tcp".to_string();
    p.load_balancing_strategy = "random".to_string();
    p.timeout_seconds = 0;
    p.health_check_path = "health".to_string();
    let errors = p.validate().unwrap_err();
    assert_eq!(errors.len(), 6);
    assert_eq!(errors[1], "Upstream server 'ftp://a' is not a valid upstream URL. It must start with 'http://' or 'https://'.");
    let empty = processor(&[]);
    assert_eq!(empty.validate().unwrap_err(), vec!["At least one upstream server must be specified.".to_string()]);
}

#[test]
fn host_header_policy() {
    let mut p = processor(&["http://a"]);
    assert_eq!(p.host_header_value("a", Some(8080)), None);
    p.should_rewrite_host_header = true;
    assert_eq!(p.host_header_value("a", Some(8080)), Some("a:8080".to_string()));
    assert_eq!(p.host_header_value("a", None), Some("a:80".to_string()));
    p.forced_host_header = "forced.example".to_string();
    assert_eq!(p.host_header_value("a", None), Some("forced.example".to_string()));
}

#[test]
fn plan_round_robins_over_upstreams() {
    let p = processor(&["http://u1", "http://u2", "http://u3"]);
    let mut reg = LoadBalancerRegistry::new();
    let mut seen = Vec::new();
    for _ in 0..4 {
        match p.plan_request(&mut reg, "/x?y=1") {
            ProxyDecision::Forward { uri } => seen.push(uri),
            ProxyDecision::Status { code } => panic!("unexpected status {}", code),
        }
    }
    assert_eq!(seen, vec!["http://u1/x?y=1", "http://u2/x?y=1", "http://u3/x?y=1", "http://u1/x?y=1"]);
}

#[test]
fn plan_statuses() {
    let mut reg = LoadBalancerRegistry::new();
    let empty = processor(&[]);
    assert!(matches!(empty.plan_request(&mut reg, "/"), ProxyDecision::Status { code: 502 }));
    let mut odd = processor(&["http://a"]);
    odd.load_balancing_strategy = "least_conn".to_string();
    assert!(matches!(odd.plan_request(&mut reg, "/"), ProxyDecision::Status { code: 500 }));
}

fn h(pairs: &[(&str, &str)]) -> Vec<(String, String)> {
    pairs.iter().map(|(a, b)| (a.to_string(), b.to_string())).collect()
}

#[test]
fn hop_by_hop_stripped_unless_upgrade() {
    let mut headers = h(&[("connection", "upgrade"), ("Upgrade", "websocket"), ("TE", "x"), ("Content-Type", "text/html")]);
    clean_update_response_headers(&mut headers, Some("10.0.0.1"), "example.com", "https", false);
    assert_eq!(
        headers,
        h(&[
            ("Content-Type", "text/html"),
            ("X-Forwarded-For", "10.0.0.1"),
            ("X-Forwarded-Host", "example.com"),
            ("X-Forwarded-Proto", "https"),
        ])
    );
}

#[test]
fn websocket_upgrade_keeps_connection_headers() {
    let mut headers = h(&[("Connection", "Upgrade"), ("Upgrade", "websocket"), ("X-Forwarded-For", "1.1.1.1"), ("x-forwarded-host", "orig")]);
    clean_update_response_headers(&mut headers, Some("2.2.2.2"), "example.com", "http", true);
    assert_eq!(
        headers,
        h(&[
            ("Connection", "Upgrade"),
            ("Upgrade", "websocket"),
            ("x-forwarded-host", "orig"),
            ("X-Forwarded-For", "1.1.1.1, 2.2.2.2"),
            ("X-Forwarded-Proto", "http"),
        ])
    );
}

#[test]
fn header_lists() {
    let l = get_list_of_hop_by_hop_headers(false);
    assert_eq!(
        l,
        vec!["Keep-Alive", "Proxy-Authenticate", "Proxy-Authorization", "TE", "Trailers", "Transfer-Encoding", "Connection", "Upgrade"]
    );
    assert_eq!(get_list_of_hop_by_hop_headers(true).len(), 6);
    assert!(!get_list_of_hop_by_hop_headers(true).contains(&"Content-Length".to_string()));
    assert_eq!(get_standard_headers(), h(&[("Vary", "Accept-Encoding")]));
}

#[test]
fn standard_headers_added() {
    let mut headers = h(&[("content-type", "")]);
    grux::http_util::add_standard_headers_to_response(&mut headers, 200);
    assert_eq!(
        headers,
        h(&[("Vary", "Accept-Encoding"), ("Server", "Gruxi"), ("Content-Type", "application/octet-stream")])
    );
    let mut headers = h(&[("Vary", "Origin"), ("Server", "other"), ("Content-Type", "text/css")]);
    grux::http_util::add_standard_headers_to_response(&mut headers, 404);
    assert_eq!(headers, h(&[("Vary", "Origin"), ("Content-Type", "text/css"), ("Server", "Gruxi")]));
    let mut headers = Vec::new();
    grux::http_util::add_standard_headers_to_response(&mut headers, 500);
    assert_eq!(headers[2], ("Content-Type".to_string(), "text/html".to_string()));
}
