use port_manager::display::{
    build_allocated_port_list, build_config_info, build_query_results, build_status_port_list,
    AllocatedPortInfo, PortStatus, QueryResult, RangeInfo, StatusPortInfo,
};
use port_manager::model::Registry;
use port_manager::port::Port;
use port_manager::ports::ListeningPort;
use port_manager::registry::{allocate_port, query_ports, set_port_range};

fn port(n: u16) -> Port {
    Port::new(n).unwrap()
}

fn listener(n: u16, pid: Option<i32>, name: Option<&str>) -> ListeningPort {
    ListeningPort { port: port(n), pid, process_name: name.map(|s| s.to_string()) }
}

fn sample() -> Registry {
    let mut registry = Registry::default();
    allocate_port(&mut registry, "webapp", "web", Some(port(8080)), &[]).unwrap();
    allocate_port(&mut registry, "backend", "db", Some(port(5432)), &[]).unwrap();
    allocate_port(&mut registry, "backend", "api", Some(port(3000)), &[]).unwrap();
    registry
}

fn row(project: &str, name: &str, n: u16, active: Option<(Option<i32>, Option<&str>)>) -> AllocatedPortInfo {
    AllocatedPortInfo {
        project: project.to_string(),
        name: name.to_string(),
        port: port(n),
        status: if active.is_some() { PortStatus::Active } else { PortStatus::Idle },
        pid: active.and_then(|a| a.0),
        process_name: active.and_then(|a| a.1).map(|s| s.to_string()),
    }
}

#[test]
fn allocated_ports_are_listed_by_project_and_name() {
    let listening = vec![listener(3000, Some(7), Some("node")), listener(22, Some(1), Some("sshd"))];
    assert_eq!(
        build_allocated_port_list(&sample(), &listening, false),
        vec![
            row("backend", "api", 3000, Some((Some(7), Some("node")))),
            row("backend", "db", 5432, None),
            row("webapp", "web", 8080, None),
        ]
    );
    assert_eq!(
        build_allocated_port_list(&sample(), &listening, true),
        vec![row("backend", "api", 3000, Some((Some(7), Some("node"))))]
    );
    assert_eq!(build_allocated_port_list(&sample(), &[], true), vec![]);
    assert_eq!(build_allocated_port_list(&Registry::default(), &listening, false), vec![]);
}

#[test]
fn the_last_listener_on_a_port_is_shown() {
    let listening = vec![
        listener(8080, Some(1), Some("first")),
        listener(8080, None, None),
        listener(8080, Some(3), Some("last")),
    ];
    let rows = build_allocated_port_list(&sample(), &listening, true);
    assert_eq!(rows, vec![row("webapp", "web", 8080, Some((Some(3), Some("last"))))]);
    let rows = build_allocated_port_list(&sample(), &listening[..2], true);
    assert_eq!(rows, vec![row("webapp", "web", 8080, Some((None, None)))]);
}

#[test]
fn listening_ports_are_shown_with_their_slots() {
    let listening = vec![listener(22, Some(1), Some("sshd")), listener(5432, None, None)];
    assert_eq!(
        build_status_port_list(&listening, &sample()),
        vec![
            StatusPortInfo { port: port(22), project: None, name: None, pid: Some(1), process: Some("sshd".to_string()) },
            StatusPortInfo {
                port: port(5432),
                project: Some("backend".to_string()),
                name: Some("db".to_string()),
                pid: None,
                process: None,
            },
        ]
    );
    assert_eq!(build_status_port_list(&[], &sample()), vec![]);
}

#[test]
fn configuration_lists_the_ranges_by_name() {
    let mut registry = Registry::default();
    set_port_range(&mut registry, "aaa=1-2").unwrap();
    let info = build_config_info(&registry, Some("/tmp/registry.toml"));
    assert_eq!(info.config_file, Some("/tmp/registry.toml".to_string()));
    let names: Vec<&str> = info.ranges.iter().map(|r| r.name.as_str()).collect();
    assert_eq!(names, vec!["aaa", "api", "cache", "db", "default", "web"]);
    assert_eq!(info.ranges[0], RangeInfo { name: "aaa".to_string(), start: 1, end: 2 });
    assert_eq!(info.ranges[5], RangeInfo { name: "web".to_string(), start: 8000, end: 8999 });
    assert_eq!(build_config_info(&registry, None).config_file, None);
}

#[test]
fn query_results_keep_names_and_ports() {
    let answer = query_ports(&sample(), "backend", None).unwrap();
    assert_eq!(
        build_query_results(&answer),
        vec![
            QueryResult { name: "api".to_string(), port: port(3000) },
            QueryResult { name: "db".to_string(), port: port(5432) },
        ]
    );
    assert_eq!(build_query_results(&[]), vec![]);
}

#[test]
fn cells_show_dashes_for_what_is_not_known() {
    use_cells();
}

fn use_cells() {
    let rows = build_allocated_port_list(
        &sample(),
        &[listener(3000, Some(-7), None), listener(5432, None, Some("postgres"))],
        false,
    );
    let cells: Vec<Vec<String>> = rows.iter().map(port_manager::display::allocated_port_cells).collect();
    assert_eq!(
        cells,
        vec![
            vec!["backend", "api", "3000", "ACTIVE", "-7", "---"],
            vec!["backend", "db", "5432", "ACTIVE", "---", "postgres"],
            vec!["webapp", "web", "8080", "IDLE", "---", "---"],
        ]
    );
    let status = build_status_port_list(
        &[listener(22, Some(2147483647), Some("sshd")), listener(5432, Some(i32::MIN), None)],
        &sample(),
    );
    let cells: Vec<Vec<String>> = status.iter().map(port_manager::display::status_port_cells).collect();
    assert_eq!(
        cells,
        vec![
            vec!["22", "---", "---", "2147483647", "sshd"],
            vec!["5432", "backend", "db", "-2147483648", "---"],
        ]
    );
}

#[test]
fn query_answers_as_text() {
    let all = query_ports(&sample(), "backend", None).unwrap();
    assert_eq!(port_manager::display::query_text(&all, false), "api=3000 db=5432");
    assert_eq!(port_manager::display::query_text(&all, true), "api=3000 db=5432");
    let one = query_ports(&sample(), "backend", Some("db")).unwrap();
    assert_eq!(port_manager::display::query_text(&one, true), "5432");
    assert_eq!(port_manager::display::query_text(&one, false), "db=5432");
    assert_eq!(port_manager::display::query_text(&[], false), "");
    assert_eq!(port_manager::display::query_text(&[], true), "");
}

#[test]
fn ranges_and_suggestions_as_text() {
    let range = RangeInfo { name: "web".to_string(), start: 0, end: 65535 };
    assert_eq!(port_manager::display::range_text(&range), "0-65535");
    assert_eq!(
        port_manager::display::suggestion_texts(&[port(1), port(10), port(65535)]),
        vec!["1", "10", "65535"]
    );
    assert_eq!(port_manager::display::suggestion_texts(&[]), Vec::<String>::new());
    assert_eq!(port_manager::display::status_text(PortStatus::Active), "ACTIVE");
    assert_eq!(port_manager::display::status_text(PortStatus::Idle), "IDLE");
    assert_eq!(port_manager::display::pid_text(Some(0)), "0");
    assert_eq!(port_manager::display::pid_text(None), "---");
    assert_eq!(port_manager::display::name_text(&Some(String::new())), "");
    assert_eq!(port_manager::display::name_text(&None), "---");
}

#[test]
fn numbers_are_written_as_they_are_read() {
    for n in [0, 1, -1, 9, 10, -10, 99, 100, 12345, -12345, i32::MAX, i32::MIN] {
        assert_eq!(port_manager::text::i32_to_string(n), n.to_string());
    }
    for n in [0u16, 7, 10, 65535] {
        assert_eq!(port_manager::text::u16_to_string(n), n.to_string());
        assert_eq!(port_manager::text::parse_u16(&n.to_string()), Some(n));
    }
    for n in [0u32, 4294967295, 1000000000] {
        assert_eq!(port_manager::text::u32_to_string(n), n.to_string());
    }
}

#[test]
fn unassigned_ports_are_those_no_slot_holds() {
    let listening = vec![
        listener(9999, Some(3), Some("c")),
        listener(5432, None, None),
        listener(22, Some(1), Some("sshd")),
        listener(8080, Some(2), None),
        listener(22, None, None),
    ];
    assert_eq!(
        port_manager::display::unassigned_ports(&listening, &sample()),
        vec![
            listener(9999, Some(3), Some("c")),
            listener(22, Some(1), Some("sshd")),
            listener(22, None, None),
        ]
    );
    assert_eq!(port_manager::display::unassigned_ports(&listening, &Registry::default()), listening);
    assert_eq!(port_manager::display::unassigned_ports(&[], &sample()), vec![]);
    assert_eq!(
        port_manager::display::unassigned_ports(&[listener(3000, None, None)], &sample()),
        vec![]
    );
}
