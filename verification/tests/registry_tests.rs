use port_manager::error::{Error, RegistryError};
use port_manager::model::Registry;
use port_manager::port::Port;
use port_manager::ports::ListeningPort;
use port_manager::registry::{allocate_port, free_port, query_ports, set_port_range, suggest_port};

fn empty_registry() -> Registry {
    Registry::default()
}

fn port(n: u16) -> Port {
    Port::new(n).unwrap()
}

#[test]
fn registry_test_allocate_explicit_port() {
    let mut registry = empty_registry();
    let active = vec![];

    let allocated =
        allocate_port(&mut registry, "webapp", "web", Some(port(8080)), &active).unwrap();
    assert_eq!(allocated, port(8080));
    assert_eq!(
        *registry.projects.get("webapp").unwrap().ports.get("web").unwrap(),
        port(8080)
    );
}

#[test]
fn test_allocate_auto_suggest() {
    let mut registry = empty_registry();
    let active = vec![];

    let allocated = allocate_port(&mut registry, "webapp", "web", None, &active).unwrap();
    assert_eq!(allocated, port(8000)); // First port in web range
}

#[test]
fn test_allocate_avoids_active() {
    let mut registry = empty_registry();
    let active = vec![
        ListeningPort {
            port: port(8000),
            pid: Some(123),
            process_name: Some("python".to_string()),
        },
        ListeningPort {
            port: port(8001),
            pid: Some(124),
            process_name: Some("node".to_string()),
        },
    ];

    let allocated = allocate_port(&mut registry, "webapp", "web", None, &active).unwrap();
    assert_eq!(allocated, port(8002)); // Skips 8000 and 8001
}

#[test]
fn registry_test_allocate_duplicate_port() {
    let mut registry = empty_registry();
    let active = vec![];

    allocate_port(&mut registry, "webapp", "web", Some(port(8080)), &active).unwrap();
    let result = allocate_port(&mut registry, "backend", "api", Some(port(8080)), &active);

    assert!(matches!(
        result,
        Err(Error::Registry(RegistryError::PortAlreadyAllocated { port: p, .. })) if p == port(8080)
    ));
}

#[test]
fn test_allocate_explicit_port_in_use() {
    let mut registry = empty_registry();
    let active = vec![ListeningPort {
        port: port(8080),
        pid: Some(999),
        process_name: Some("python".to_string()),
    }];

    let result = allocate_port(&mut registry, "webapp", "web", Some(port(8080)), &active);

    assert!(matches!(
        result,
        Err(Error::Registry(RegistryError::PortInUse {
            port: p,
            pid: 999,
            process_name: _,
        })) if p == port(8080)
    ));
}

#[test]
fn test_free_single_port() {
    let mut registry = empty_registry();
    let active = vec![];

    allocate_port(&mut registry, "webapp", "web", Some(port(8080)), &active).unwrap();
    allocate_port(&mut registry, "webapp", "api", Some(port(3000)), &active).unwrap();

    let freed = free_port(&mut registry, "webapp", Some("web")).unwrap();
    assert_eq!(freed, vec![("web".to_string(), port(8080))]);
    assert!(!registry.projects.get("webapp").unwrap().ports.contains_key("web"));
    assert!(registry.projects.get("webapp").unwrap().ports.contains_key("api"));
}

#[test]
fn registry_test_free_all_ports() {
    let mut registry = empty_registry();
    let active = vec![];

    allocate_port(&mut registry, "webapp", "web", Some(port(8080)), &active).unwrap();
    allocate_port(&mut registry, "webapp", "api", Some(port(3000)), &active).unwrap();

    let freed = free_port(&mut registry, "webapp", None).unwrap();
    assert_eq!(freed.len(), 2);
    assert!(!registry.projects.contains_key("webapp"));
}

#[test]
fn test_query_all_ports() {
    let mut registry = empty_registry();
    let active = vec![];

    allocate_port(&mut registry, "webapp", "web", Some(port(8080)), &active).unwrap();
    allocate_port(&mut registry, "webapp", "api", Some(port(3000)), &active).unwrap();

    let ports = query_ports(&registry, "webapp", None).unwrap();
    assert_eq!(ports.len(), 2);
}

#[test]
fn test_query_single_port() {
    let mut registry = empty_registry();
    let active = vec![];

    allocate_port(&mut registry, "webapp", "web", Some(port(8080)), &active).unwrap();

    let ports = query_ports(&registry, "webapp", Some("web")).unwrap();
    assert_eq!(ports, vec![("web".to_string(), port(8080))]);
}

#[test]
fn test_suggest_ports() {
    let mut registry = empty_registry();
    let active = vec![];

    // Allocate first few ports
    allocate_port(&mut registry, "p1", "web", Some(port(8000)), &active).unwrap();
    allocate_port(&mut registry, "p2", "web", Some(port(8001)), &active).unwrap();

    let suggestions = suggest_port(&registry, "web", 3, &active).unwrap();
    assert_eq!(suggestions, vec![port(8002), port(8003), port(8004)]);
}

#[test]
fn test_set_port_range() {
    let mut registry = empty_registry();

    let (port_type, start, end) = set_port_range(&mut registry, "custom=5000-5999").unwrap();
    assert_eq!(port_type, "custom");
    assert_eq!(start, 5000);
    assert_eq!(end, 5999);
    assert_eq!(registry.get_range("custom"), [5000, 5999]);
}

#[test]
fn test_set_port_range_invalid_format() {
    let mut registry = empty_registry();

    // Missing equals sign
    let result = set_port_range(&mut registry, "custom5000-5999");
    assert!(matches!(result, Err(Error::Registry(RegistryError::InvalidRangeFormat))));

    // Missing dash in range
    let result = set_port_range(&mut registry, "custom=50005999");
    assert!(matches!(result, Err(Error::Registry(RegistryError::InvalidRangeFormat))));
}

#[test]
fn test_set_port_range_invalid_port() {
    let mut registry = empty_registry();

    let result = set_port_range(&mut registry, "custom=abc-5999");
    assert!(matches!(result, Err(Error::Registry(RegistryError::InvalidPortNumber(_)))));
}

#[test]
fn test_set_port_range_start_not_less_than_end() {
    let mut registry = empty_registry();

    let result = set_port_range(&mut registry, "custom=5999-5000");
    assert!(matches!(
        result,
        Err(Error::Registry(RegistryError::InvalidPortRange {
            start: 5999,
            end: 5000
        }))
    ));

    // Equal ports
    let result = set_port_range(&mut registry, "custom=5000-5000");
    assert!(matches!(
        result,
        Err(Error::Registry(RegistryError::InvalidPortRange {
            start: 5000,
            end: 5000
        }))
    ));
}

#[test]
fn two_projects_get_the_first_two_ports_of_the_range() {
    let mut registry = empty_registry();
    assert_eq!(allocate_port(&mut registry, "A", "web", None, &[]), Ok(port(8000)));
    assert_eq!(allocate_port(&mut registry, "B", "web", None, &[]), Ok(port(8001)));
}

#[test]
fn failed_allocation_leaves_the_registry_as_it_was() {
    let mut registry = empty_registry();
    allocate_port(&mut registry, "A", "web", Some(port(8080)), &[]).unwrap();
    let before = registry.clone();
    let result = allocate_port(&mut registry, "B", "api", Some(port(8080)), &[]);
    assert_eq!(
        result,
        Err(Error::Registry(RegistryError::PortAlreadyAllocated {
            port: port(8080),
            project: "A".to_string(),
            name: "web".to_string(),
        }))
    );
    assert_eq!(registry, before);

    let result = allocate_port(&mut registry, "A", "web", Some(port(9000)), &[]);
    assert_eq!(
        result,
        Err(Error::Registry(RegistryError::PortNameExists { project: "A".to_string(), name: "web".to_string() }))
    );
    assert_eq!(registry, before);
}

#[test]
fn freeing_all_slots_removes_the_project() {
    let mut registry = empty_registry();
    allocate_port(&mut registry, "A", "web", None, &[]).unwrap();
    allocate_port(&mut registry, "A", "api", None, &[]).unwrap();
    let freed = free_port(&mut registry, "A", None).unwrap();
    assert_eq!(
        freed,
        vec![("api".to_string(), port(3000)), ("web".to_string(), port(8000))]
    );
    assert!(registry.projects.is_empty());
    assert_eq!(
        query_ports(&registry, "A", None),
        Err(Error::Registry(RegistryError::ProjectNotFound("A".to_string())))
    );
}

#[test]
fn freeing_the_last_slot_removes_the_project() {
    let mut registry = empty_registry();
    allocate_port(&mut registry, "A", "web", None, &[]).unwrap();
    assert_eq!(
        free_port(&mut registry, "A", Some("web")),
        Ok(vec![("web".to_string(), port(8000))])
    );
    assert!(!registry.projects.contains_key("A"));
}

#[test]
fn free_and_query_report_what_is_missing() {
    let mut registry = empty_registry();
    assert_eq!(
        free_port(&mut registry, "nope", Some("web")),
        Err(Error::Registry(RegistryError::ProjectNotFound("nope".to_string())))
    );
    allocate_port(&mut registry, "A", "web", None, &[]).unwrap();
    let before = registry.clone();
    assert_eq!(
        free_port(&mut registry, "A", Some("api")),
        Err(Error::Registry(RegistryError::PortNameNotFound { project: "A".to_string(), name: "api".to_string() }))
    );
    assert_eq!(registry, before);
    assert_eq!(
        query_ports(&registry, "A", Some("api")),
        Err(Error::Registry(RegistryError::PortNameNotFound { project: "A".to_string(), name: "api".to_string() }))
    );
}

#[test]
fn port_in_use_reports_the_first_listener() {
    let mut registry = empty_registry();
    let active = vec![
        ListeningPort { port: port(8080), pid: None, process_name: None },
        ListeningPort { port: port(8080), pid: Some(5), process_name: Some("x".to_string()) },
    ];
    assert_eq!(
        allocate_port(&mut registry, "A", "web", Some(port(8080)), &active),
        Err(Error::Registry(RegistryError::PortInUse {
            port: port(8080),
            pid: 0,
            process_name: "unknown".to_string(),
        }))
    );
    assert!(registry.projects.is_empty());
}

#[test]
fn exhausted_range_is_an_error() {
    let mut registry = empty_registry();
    set_port_range(&mut registry, "tiny=7000-7001").unwrap();
    assert_eq!(allocate_port(&mut registry, "A", "tiny", None, &[]), Ok(port(7000)));
    assert_eq!(allocate_port(&mut registry, "B", "tiny", None, &[]), Ok(port(7001)));
    assert_eq!(
        allocate_port(&mut registry, "C", "tiny", None, &[]),
        Err(Error::Registry(RegistryError::NoAvailablePorts { start: 7000, end: 7001 }))
    );
    assert_eq!(
        suggest_port(&registry, "tiny", 1, &[]),
        Err(Error::Registry(RegistryError::NoAvailablePorts { start: 7000, end: 7001 }))
    );
}

#[test]
fn suggestion_returns_what_is_there() {
    let mut registry = empty_registry();
    set_port_range(&mut registry, "tiny=7000-7002").unwrap();
    let active = vec![ListeningPort { port: port(7001), pid: None, process_name: None }];
    assert_eq!(suggest_port(&registry, "tiny", 5, &active), Ok(vec![port(7000), port(7002)]));
    assert_eq!(
        suggest_port(&registry, "tiny", 0, &active),
        Err(Error::Registry(RegistryError::NoAvailablePorts { start: 7000, end: 7002 }))
    );
    assert_eq!(
        suggest_port(&Registry::default(), "web", 0, &[]),
        Err(Error::Registry(RegistryError::NoAvailablePorts { start: 8000, end: 8999 }))
    );
    assert_eq!(suggest_port(&registry, "tiny", 1, &active), Ok(vec![port(7000)]));
    assert_eq!(registry, {
        let mut same = empty_registry();
        set_port_range(&mut same, "tiny=7000-7002").unwrap();
        same
    });
}

#[test]
fn range_from_zero_and_to_the_last_port() {
    let mut registry = empty_registry();
    assert_eq!(
        set_port_range(&mut registry, "low=0-2"),
        Ok(("low".to_string(), 0, 2))
    );
    assert_eq!(suggest_port(&registry, "low", 9, &[]), Ok(vec![port(1), port(2)]));
    set_port_range(&mut registry, "high=65534-65535").unwrap();
    assert_eq!(suggest_port(&registry, "high", 9, &[]), Ok(vec![port(65534), port(65535)]));
}

#[test]
fn range_specification_errors() {
    let mut registry = empty_registry();
    let before = registry.clone();
    assert_eq!(set_port_range(&mut registry, "web=5000-5000"),
        Err(Error::Registry(RegistryError::InvalidPortRange { start: 5000, end: 5000 })));
    assert_eq!(set_port_range(&mut registry, "web=6000-5000"),
        Err(Error::Registry(RegistryError::InvalidPortRange { start: 6000, end: 5000 })));
    assert_eq!(set_port_range(&mut registry, "web5000-5999"), Err(Error::Registry(RegistryError::InvalidRangeFormat)));
    assert_eq!(set_port_range(&mut registry, "web=abc-5999"),
        Err(Error::Registry(RegistryError::InvalidPortNumber("abc".to_string()))));
    assert_eq!(set_port_range(&mut registry, "web=5000-x"),
        Err(Error::Registry(RegistryError::InvalidPortNumber("x".to_string()))));
    assert_eq!(set_port_range(&mut registry, "web=5000-6000-7000"),
        Err(Error::Registry(RegistryError::InvalidPortNumber("6000-7000".to_string()))));
    assert_eq!(set_port_range(&mut registry, "web=-5"),
        Err(Error::Registry(RegistryError::InvalidPortNumber(String::new()))));
    assert_eq!(set_port_range(&mut registry, "web=70000-5"),
        Err(Error::Registry(RegistryError::InvalidPortNumber("70000".to_string()))));
    assert_eq!(registry, before);
    assert_eq!(set_port_range(&mut registry, "a=b=1-2"),
        Err(Error::Registry(RegistryError::InvalidPortNumber("b=1".to_string()))));
    assert_eq!(set_port_range(&mut registry, "=1-2"), Ok((String::new(), 1, 2)));
    assert_eq!(registry.get_range(""), [1, 2]);
}

#[test]
fn setting_a_range_replaces_the_old_one() {
    let mut registry = empty_registry();
    set_port_range(&mut registry, "web=100-200").unwrap();
    assert_eq!(registry.get_range("web"), [100, 200]);
    assert_eq!(registry.defaults.ranges.len(), 5);
    assert_eq!(allocate_port(&mut registry, "A", "web", None, &[]), Ok(port(100)));
}

#[test]
fn allocations_one_after_another_get_distinct_ports() {
    let mut registry = empty_registry();
    let active = vec![ListeningPort { port: port(8002), pid: None, process_name: None }];
    let mut got = vec![];
    for i in 0..5 {
        let project = format!("project{}", i);
        got.push(allocate_port(&mut registry, &project, "web", None, &active).unwrap().as_u16());
    }
    assert_eq!(got, vec![8000, 8001, 8003, 8004, 8005]);
    let mut all: Vec<u16> = registry.all_allocated_ports().into_iter().map(Port::as_u16).collect();
    all.sort();
    all.dedup();
    assert_eq!(all.len(), 5);
    // a freed port is handed out again
    free_port(&mut registry, "project1", None).unwrap();
    assert_eq!(allocate_port(&mut registry, "late", "web", None, &active), Ok(port(8001)));
}

#[test]
fn slot_name_without_a_range_draws_from_the_default_range() {
    let mut registry = empty_registry();
    assert_eq!(allocate_port(&mut registry, "A", "worker", None, &[]), Ok(port(9000)));
    assert_eq!(allocate_port(&mut registry, "B", "default", None, &[]), Ok(port(9001)));
    assert_eq!(suggest_port(&registry, "elsewhere", 2, &[]), Ok(vec![port(9002), port(9003)]));
}

#[test]
fn slot_name_is_refused_before_the_port_is_looked_at() {
    let mut registry = empty_registry();
    allocate_port(&mut registry, "A", "web", Some(port(8080)), &[]).unwrap();
    allocate_port(&mut registry, "B", "web", Some(port(8081)), &[]).unwrap();
    assert_eq!(
        allocate_port(&mut registry, "B", "web", Some(port(8080)), &[]),
        Err(Error::Registry(RegistryError::PortNameExists {
            project: "B".to_string(),
            name: "web".to_string(),
        }))
    );
    // held by another slot and listened on: the slot is named
    let active = vec![ListeningPort { port: port(8080), pid: Some(1), process_name: None }];
    assert_eq!(
        allocate_port(&mut registry, "C", "web", Some(port(8080)), &active),
        Err(Error::Registry(RegistryError::PortAlreadyAllocated {
            port: port(8080),
            project: "A".to_string(),
            name: "web".to_string(),
        }))
    );
    // an explicit port may lie outside every range
    assert_eq!(allocate_port(&mut registry, "C", "web", Some(port(1)), &active), Ok(port(1)));
}
