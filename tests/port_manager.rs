use grux::port_manager::PortManager;

#[test]
fn test_port_allocation() {
    let mut manager = PortManager::new(9000, 9002);
    assert_eq!(manager.allocate_port("service1".to_string()), Some(9000));
    assert_eq!(manager.allocate_port("service2".to_string()), Some(9001));
    assert_eq!(manager.allocate_port("service3".to_string()), Some(9002));
    assert_eq!(manager.allocate_port("service4".to_string()), None);
}

#[test]
fn test_port_release_and_reuse() {
    let mut manager = PortManager::new(9000, 9001);
    let port1 = manager.allocate_port("service1".to_string());
    let port2 = manager.allocate_port("service2".to_string());
    assert_eq!(port1, Some(9000));
    assert_eq!(port2, Some(9001));
    assert_eq!(manager.allocate_port("service3".to_string()), None);
    manager.release_port(9000);
    assert_eq!(manager.allocate_port("service4".to_string()), Some(9000));
}

#[test]
fn test_release_all_ports_for_service() {
    let mut manager = PortManager::new(9000, 9002);
    manager.allocate_port("service1".to_string());
    manager.allocate_port("service1".to_string());
    manager.allocate_port("service2".to_string());
    let released = manager.release_all_ports_for_service("service1");
    assert_eq!(released.len(), 2);
    assert_eq!(released, vec![9000, 9001]);
    let port = manager.allocate_port("service3".to_string());
    assert!(port.is_some());
}

#[test]
fn default_range_counts() {
    let mut manager = PortManager::instance();
    assert_eq!(manager.allocate_port("php-worker-1".to_string()), Some(9000));
    assert_eq!(manager.available_port_count(), 1000);
    assert_eq!(manager.allocate_port("php-worker-2".to_string()), Some(9001));
    manager.release_port(9000);
    manager.release_port(9001);
    assert_eq!(manager.available_port_count(), 1001);
}

#[test]
fn allocate_then_release_restores_availability() {
    let mut manager = PortManager::new(100, 104);
    manager.allocate_port("a".to_string());
    let before = manager.available_port_count();
    let p = manager.allocate_port("b".to_string()).unwrap();
    let q = manager.allocate_port("c".to_string()).unwrap();
    assert_eq!((p, q), (101, 102));
    manager.release_port(p);
    manager.release_port(q);
    assert_eq!(manager.available_port_count(), before);
    assert_eq!(manager.allocate_port("d".to_string()), Some(101));
}

#[test]
fn exhaustion_and_empty_range() {
    let mut manager = PortManager::new(65535, 65535);
    assert_eq!(manager.allocate_port("x".to_string()), Some(65535));
    assert_eq!(manager.allocate_port("y".to_string()), None);
    let mut empty = PortManager::new(10, 9);
    assert_eq!(empty.allocate_port("x".to_string()), None);
    assert_eq!(empty.available_port_count(), 0);
    empty.release_port(10);
}
