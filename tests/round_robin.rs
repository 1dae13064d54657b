use grux::round_robin::{LoadBalancerRegistry, RoundRobin};

fn ups() -> Vec<String> {
    vec!["u1".to_string(), "u2".to_string(), "u3".to_string()]
}

#[test]
fn round_robin_cycles_in_order() {
    let mut rr = RoundRobin::new(ups());
    assert_eq!(rr.get_next_server(), Some("u1".to_string()));
    assert_eq!(rr.get_next_server(), Some("u2".to_string()));
    assert_eq!(rr.get_next_server(), Some("u3".to_string()));
    assert_eq!(rr.get_next_server(), Some("u1".to_string()));
    assert_eq!(rr.server_count(), 3);
}

#[test]
fn round_robin_window_is_a_rotation() {
    let mut rr = RoundRobin::new(ups());
    rr.get_next_server();
    let window: Vec<String> = (0..3).map(|_| rr.get_next_server().unwrap()).collect();
    assert_eq!(window, vec!["u2".to_string(), "u3".to_string(), "u1".to_string()]);
}

#[test]
fn round_robin_empty_is_none() {
    let mut rr = RoundRobin::new(Vec::new());
    assert_eq!(rr.get_next_server(), None);
    assert_eq!(rr.get_next_server(), None);
}

#[test]
fn registry_creates_once_and_keeps_cursor() {
    let mut reg = LoadBalancerRegistry::new();
    assert!(!reg.check_load_balancer_exists("proc-a"));
    assert_eq!(reg.get_next_server("proc-a", &ups()), Some("u1".to_string()));
    assert!(reg.check_load_balancer_exists("proc-a"));
    let other = vec!["x".to_string()];
    assert_eq!(reg.get_next_server("proc-a", &other), Some("u2".to_string()));
    assert_eq!(reg.get_next_server("proc-b", &other), Some("x".to_string()));
    assert_eq!(reg.get_next_server("proc-a", &other), Some("u3".to_string()));
    reg.create_load_balancer("proc-a", RoundRobin::new(other.clone()));
    assert_eq!(reg.get_next_server("proc-a", &other), Some("u1".to_string()));
}
