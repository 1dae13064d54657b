use grux::challenge::AcmeHttp01ChallengeStore;
use grux::configuration::{RequestHandler, Site};
use grux::database_migration::{migration_plan, migration_statement, Migration};
use grux::monitoring::MonitoringState;
use grux::operation_mode::{load_operation_mode, OperationMode};
use grux::php_handler::{
    handlers_to_start, worker_bind_address, worker_count, worker_service_ids, PhpCgiProcess, WorkerState,
};
use grux::port_manager::PortManager;
use grux::processor_chain::{route_request, route_status, select_handler, Route};
use grux::running_state::{ReloadAction, ReloadCoordinator, ReloadEvent, ReloadPhase};
use grux::triggers::{trigger_from_name, TriggerName, TriggerRegistry};

#[test]
fn operation_modes() {
    assert_eq!(load_operation_mode("DEV"), OperationMode::DEV);
    assert_eq!(load_operation_mode("DEBUG"), OperationMode::DEBUG);
    assert_eq!(load_operation_mode("SPEEDTEST"), OperationMode::SPEEDTEST);
    assert_eq!(load_operation_mode("PRODUCTION"), OperationMode::PRODUCTION);
    assert_eq!(load_operation_mode("dev"), OperationMode::PRODUCTION);
}

#[test]
fn migrations() {
    assert_eq!(migration_plan(0), (vec![], 0));
    assert_eq!(migration_plan(2), (vec![Migration::AddServerSoftwareSpoof, Migration::AddTlsAutomaticEnabled], 4));
    assert_eq!(migration_plan(3), (vec![Migration::AddTlsAutomaticEnabled], 4));
    assert_eq!(migration_plan(4), (vec![], 4));
    assert_eq!(migration_plan(1), (vec![], 1));
    assert_eq!(migration_statement(Migration::AddTlsAutomaticEnabled).1, 4);
}

#[test]
fn monitoring_counters() {
    let mut m = MonitoringState::new(true, 500);
    m.increment_requests_served();
    m.increment_requests_served();
    assert_eq!(m.get_requests_served(), 2);
    assert_eq!(m.record_interval(3, 7), 2);
    m.increment_requests_served();
    assert_eq!(m.record_interval(0, 0), 1);
    assert!(m.is_file_cache_enabled());
    assert_eq!(m.get_file_cache_max_items(), 500);
}

#[test]
fn triggers_cancel_earlier_tokens_only() {
    let mut t = TriggerRegistry::new();
    let early = t.subscribe(TriggerName::StopServices);
    let other = t.subscribe(TriggerName::Shutdown);
    t.fire(TriggerName::StopServices);
    let late = t.subscribe(TriggerName::StopServices);
    assert!(t.is_cancelled(&early));
    assert!(!t.is_cancelled(&late));
    assert!(!t.is_cancelled(&other));
    assert_eq!(trigger_from_name("reload_configuration"), Some(TriggerName::ReloadConfiguration));
    assert_eq!(trigger_from_name("other"), None);
}

#[test]
fn reload_mid_traffic() {
    let mut c = ReloadCoordinator::new();
    assert_eq!(c.step(ReloadEvent::DrainElapsed), ReloadAction::Ignore);
    assert_eq!(c.step(ReloadEvent::ReloadRequested), ReloadAction::StopServicesAndDrain);
    assert_eq!(c.published().bindings_generation, 0);
    assert_eq!(c.step(ReloadEvent::DrainElapsed), ReloadAction::Build { generation: 1 });
    assert_eq!(c.phase(), ReloadPhase::Building);
    assert_eq!(c.step(ReloadEvent::StateBuilt), ReloadAction::Publish { generation: 1 });
    let p = c.published();
    assert_eq!((p.bindings_generation, p.caches_generation), (1, 1));
    c.step(ReloadEvent::ReloadRequested);
    c.step(ReloadEvent::DrainElapsed);
    assert_eq!(c.step(ReloadEvent::BuildFailed), ReloadAction::KeepCurrent);
    assert_eq!(c.published().caches_generation, 1);
}

#[test]
fn worker_lifecycle() {
    let mut ports = PortManager::new(9000, 9000);
    let mut w = PhpCgiProcess::new("php-cgi".to_string(), "php-worker-0".to_string());
    assert_eq!(w.prepare_start(&mut ports), Ok(9000));
    w.on_spawn_result(&mut ports, true);
    assert_eq!(w.state(), WorkerState::Running);
    w.on_exit();
    assert!(w.needs_restart());
    assert_eq!(w.prepare_start(&mut ports), Ok(9000));
    w.on_spawn_result(&mut ports, false);
    assert_eq!(w.get_port(), None);
    assert_eq!(ports.available_port_count(), 1);
    let mut other = PhpCgiProcess::new("php-cgi".to_string(), "php-worker-1".to_string());
    assert_eq!(other.prepare_start(&mut ports), Ok(9000));
    assert!(w.prepare_start(&mut ports).is_err());
    assert_eq!(w.state(), WorkerState::Failed);
    other.stop(&mut ports);
    assert_eq!(other.state(), WorkerState::Stopped);
    assert_eq!(ports.available_port_count(), 1);
    assert_eq!(worker_bind_address(9001), "127.0.0.1:9001");
    assert_eq!(worker_service_ids(2), vec!["php-worker-0".to_string(), "php-worker-1".to_string()]);
    assert_eq!(worker_count(0, 8), 8);
    assert_eq!(worker_count(3, 8), 3);
}

fn handler(id: &str, kind: &str, enabled: bool) -> RequestHandler {
    RequestHandler {
        id: id.to_string(),
        is_enabled: enabled,
        name: id.to_string(),
        handler_type: kind.to_string(),
        request_timeout: 30,
        concurrent_threads: 0,
        file_match: vec![".php".to_string()],
        executable: "php-cgi".to_string(),
        ip_and_port: String::new(),
        other_webroot: String::new(),
        extra_handler_config: vec![],
        extra_environment: vec![],
    }
}

fn site_with_handlers(ids: &[&str]) -> Site {
    Site {
        id: 1,
        hostnames: vec!["example.com".to_string()],
        is_default: false,
        is_enabled: true,
        web_root: "/var/www".to_string(),
        web_root_index_file_list: vec!["index.html".to_string()],
        enabled_handlers: ids.iter().map(|s| s.to_string()).collect(),
        tls_cert_path: String::new(),
        tls_cert_content: String::new(),
        tls_key_path: String::new(),
        tls_key_content: String::new(),
        tls_automatic_enabled: false,
        rewrite_functions: vec![],
        access_log_enabled: false,
        access_log_path: String::new(),
    }
}

#[test]
fn handler_selection() {
    let sites = vec![site_with_handlers(&["h1", "h3"]), site_with_handlers(&["h4"])];
    let handlers = vec![
        handler("h0", "php", true),
        handler("h1", "php", true),
        handler("h3", "php", true),
        handler("h4", "python", false),
    ];
    assert_eq!(handlers_to_start(&sites, &handlers), vec![1]);
}

#[test]
fn request_routing() {
    let mut store = AcmeHttp01ChallengeStore::new();
    store.add_challenge_at("abc123".to_string(), "abc123.thumb".to_string(), 100);
    let patterns = vec![vec!["*.php".to_string()], vec!["*.py".to_string()]];
    let r = route_request(true, false, "/.well-known/acme-challenge/abc123", &store, 100, &patterns);
    assert!(matches!(&r, Route::Challenge { key_authorization } if key_authorization == "abc123.thumb"));
    assert_eq!(route_status(&r), Some(200));
    let r = route_request(true, false, "/.well-known/acme-challenge/zzz", &store, 100, &patterns);
    assert_eq!(route_status(&r), Some(404));
    let r = route_request(false, false, "/index.php", &store, 100, &patterns);
    assert_eq!(route_status(&r), Some(403));
    let r = route_request(true, true, "/.well-known/acme-challenge/abc123", &store, 100, &patterns);
    assert!(matches!(r, Route::Static));
    let r = route_request(true, true, "/app/run.py", &store, 100, &patterns);
    assert!(matches!(r, Route::Handler { index: 1 }));
    assert_eq!(select_handler(&patterns, "/x.html"), None);
}

#[test]
fn processor_dispatch() {
    let s = grux::processor_chain::Processor::Static;
    assert_eq!(s.get_type(), "static");
    assert!(s.validate(true).is_ok());
    let p = grux::processor_chain::Processor::Proxy(grux::proxy::ProxyProcessor::new());
    assert_eq!(p.get_type(), "proxy");
    assert_eq!(p.validate(true).unwrap_err(), vec!["At least one upstream server must be specified.".to_string()]);
    let e = grux::processor_chain::Processor::External(handler("h", "php", true));
    assert_eq!(e.get_type(), "php");
    assert!(e.validate(true).is_ok());
}

#[test]
fn workers_stopped_in_any_order_free_their_ports() {
    let mut ports = PortManager::new(9000, 9003);
    let before = ports.available_port_count();
    let mut workers: Vec<PhpCgiProcess> = worker_service_ids(3)
        .into_iter()
        .map(|id| PhpCgiProcess::new("php-cgi".to_string(), id))
        .collect();
    for w in workers.iter_mut() {
        assert!(w.prepare_start(&mut ports).is_ok());
        w.on_spawn_result(&mut ports, true);
    }
    assert_eq!(ports.available_port_count(), before - 3);
    for i in [1usize, 2, 0] {
        workers[i].stop(&mut ports);
        assert_eq!(workers[i].get_port(), None);
    }
    assert_eq!(ports.available_port_count(), before);
    assert_eq!(ports.allocate_port("next".to_string()), Some(9000));
}
