use port_manager::model::{Project, Registry};
use port_manager::port::Port;

#[test]
fn config_test_default_registry() {
    let registry = Registry::default();
    assert!(registry.projects.is_empty());
    assert!(!registry.defaults.ranges.is_empty());
    assert_eq!(registry.get_range("web"), [8000, 8999]);
    assert_eq!(registry.get_range("unknown"), [9000, 9999]);
}

#[test]
fn config_test_all_allocated_ports() {
    let mut registry = Registry::default();

    let mut project1 = Project::default();
    project1.ports.insert("web".to_string(), Port::new(8080).unwrap());
    project1.ports.insert("api".to_string(), Port::new(3000).unwrap());

    let mut project2 = Project::default();
    project2.ports.insert("web".to_string(), Port::new(8081).unwrap());

    registry.projects.insert("p1".to_string(), project1);
    registry.projects.insert("p2".to_string(), project2);

    let mut ports: Vec<u16> = registry
        .all_allocated_ports()
        .into_iter()
        .map(Port::as_u16)
        .collect();
    ports.sort();
    assert_eq!(ports, vec![3000, 8080, 8081]);
}

#[test]
fn config_test_find_port_owner() {
    let mut registry = Registry::default();

    let mut project = Project::default();
    project.ports.insert("web".to_string(), Port::new(8080).unwrap());
    registry.projects.insert("webapp".to_string(), project);

    assert_eq!(
        registry.find_port_owner(Port::new(8080).unwrap()),
        Some(("webapp", "web"))
    );
    assert_eq!(registry.find_port_owner(Port::new(9999).unwrap()), None);
}

#[test]
fn model_test_default_registry() {
    let registry = Registry::default();
    assert!(registry.projects.is_empty());
    assert!(!registry.defaults.ranges.is_empty());
    assert_eq!(registry.get_range("web"), [8000, 8999]);
    assert_eq!(registry.get_range("unknown"), [9000, 9999]);
}

#[test]
fn model_test_all_allocated_ports() {
    let mut registry = Registry::default();

    let mut project1 = Project::default();
    project1
        .ports
        .insert("web".to_string(), Port::new(8080).unwrap());
    project1
        .ports
        .insert("api".to_string(), Port::new(3000).unwrap());

    let mut project2 = Project::default();
    project2
        .ports
        .insert("web".to_string(), Port::new(8081).unwrap());

    registry.projects.insert("p1".to_string(), project1);
    registry.projects.insert("p2".to_string(), project2);

    let mut ports: Vec<u16> = registry
        .all_allocated_ports()
        .into_iter()
        .map(Port::as_u16)
        .collect();
    ports.sort();
    assert_eq!(ports, vec![3000, 8080, 8081]);
}

#[test]
fn model_test_find_port_owner() {
    let mut registry = Registry::default();

    let mut project = Project::default();
    project
        .ports
        .insert("web".to_string(), Port::new(8080).unwrap());
    registry.projects.insert("webapp".to_string(), project);

    assert_eq!(
        registry.find_port_owner(Port::new(8080).unwrap()),
        Some(("webapp", "web"))
    );
    assert_eq!(registry.find_port_owner(Port::new(9999).unwrap()), None);
}

#[test]
fn default_ranges_cover_the_common_types() {
    let registry = Registry::default();
    assert_eq!(registry.defaults.ranges.len(), 5);
    assert_eq!(registry.get_range("web"), [8000, 8999]);
    assert_eq!(registry.get_range("api"), [3000, 3999]);
    assert_eq!(registry.get_range("db"), [5400, 5499]);
    assert_eq!(registry.get_range("cache"), [6300, 6399]);
    assert_eq!(registry.get_range("default"), [9000, 9999]);
}

#[test]
fn range_falls_back_without_a_default_entry() {
    let mut registry = Registry::default();
    registry.defaults.ranges.remove("default");
    assert_eq!(registry.get_range("unknown"), [9000, 9999]);
    registry.defaults.ranges.insert("default".to_string(), [100, 200]);
    assert_eq!(registry.get_range("unknown"), [100, 200]);
    assert_eq!(registry.get_range("web"), [8000, 8999]);
}

#[test]
fn allocated_ports_come_in_name_order() {
    let mut registry = Registry::default();
    let mut zeta = Project::default();
    zeta.ports.insert("web".to_string(), Port::new(1).unwrap());
    zeta.ports.insert("api".to_string(), Port::new(2).unwrap());
    let mut alpha = Project::default();
    alpha.ports.insert("db".to_string(), Port::new(3).unwrap());
    registry.projects.insert("zeta".to_string(), zeta);
    registry.projects.insert("alpha".to_string(), alpha);
    let ports: Vec<u16> = registry.all_allocated_ports().into_iter().map(Port::as_u16).collect();
    assert_eq!(ports, vec![3, 2, 1]);
}

#[test]
fn first_owner_in_name_order_is_reported() {
    let mut registry = Registry::default();
    let port = Port::new(7000).unwrap();
    let mut b = Project::default();
    b.ports.insert("x".to_string(), port);
    let mut a = Project::default();
    a.ports.insert("z".to_string(), port);
    a.ports.insert("y".to_string(), port);
    registry.projects.insert("b".to_string(), b);
    registry.projects.insert("a".to_string(), a);
    assert_eq!(registry.find_port_owner(port), Some(("a", "y")));
}
