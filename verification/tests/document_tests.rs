use port_manager::document::RegistryDocument;
use port_manager::error::{ConfigError, Error, RegistryError};
use port_manager::model::Registry;
use port_manager::name_map::NameMap;
use port_manager::names::{compare_names, NameOrder};
use port_manager::port::{InvalidPortError, Port};
use port_manager::registry::{allocate_port, free_port, set_port_range};
use port_manager::store::{
    config_error, registry_path, Action, DocumentLocation, DocumentPaths, Failure, Purpose, Session,
};

fn port(n: u16) -> Port {
    Port::new(n).unwrap()
}

fn sample() -> Registry {
    let mut registry = Registry::default();
    allocate_port(&mut registry, "webapp", "web", Some(port(8080)), &[]).unwrap();
    allocate_port(&mut registry, "backend", "db", Some(port(5432)), &[]).unwrap();
    allocate_port(&mut registry, "backend", "api", None, &[]).unwrap();
    set_port_range(&mut registry, "custom=7000-7999").unwrap();
    registry
}

#[test]
fn registry_is_written_down_in_name_order() {
    let document = sample().to_document();
    let ranges = document.ranges.unwrap();
    let names: Vec<&str> = ranges.iter().map(|r| r.0.as_str()).collect();
    assert_eq!(names, vec!["api", "cache", "custom", "db", "default", "web"]);
    assert_eq!(ranges[2], ("custom".to_string(), [7000, 7999]));
    assert_eq!(
        document.projects.unwrap(),
        vec![
            ("backend".to_string(), vec![("api".to_string(), 3000), ("db".to_string(), 5432)]),
            ("webapp".to_string(), vec![("web".to_string(), 8080)]),
        ]
    );
}

#[test]
fn written_and_read_back_is_the_same_registry() {
    for registry in [Registry::default(), sample()] {
        let document = registry.to_document();
        assert_eq!(Registry::from_document(&document), Ok(registry));
    }
}

#[test]
fn entry_order_of_a_document_does_not_matter() {
    let document = RegistryDocument {
        ranges: Some(vec![
            ("web".to_string(), [8000, 8999]),
            ("default".to_string(), [9000, 9999]),
            ("db".to_string(), [5400, 5499]),
            ("custom".to_string(), [7000, 7999]),
            ("cache".to_string(), [6300, 6399]),
            ("api".to_string(), [3000, 3999]),
        ]),
        projects: Some(vec![
            ("webapp".to_string(), vec![("web".to_string(), 8080)]),
            ("backend".to_string(), vec![("db".to_string(), 5432), ("api".to_string(), 3000)]),
        ]),
    };
    assert_eq!(Registry::from_document(&document), Ok(sample()));
}

#[test]
fn missing_sections_stand_for_the_defaults() {
    let empty = RegistryDocument { ranges: None, projects: None };
    assert_eq!(Registry::from_document(&empty), Ok(Registry::default()));
    let no_ranges = RegistryDocument { ranges: Some(vec![]), projects: Some(vec![]) };
    let registry = Registry::from_document(&no_ranges).unwrap();
    assert!(registry.defaults.ranges.is_empty());
    assert!(registry.projects.is_empty());
    assert_eq!(registry.get_range("web"), [9000, 9999]);
}

#[test]
fn later_entries_of_a_document_count() {
    let document = RegistryDocument {
        ranges: Some(vec![("web".to_string(), [1, 2]), ("web".to_string(), [3, 4])]),
        projects: Some(vec![
            ("a".to_string(), vec![("x".to_string(), 1), ("x".to_string(), 2)]),
            ("a".to_string(), vec![("y".to_string(), 3)]),
        ]),
    };
    let registry = Registry::from_document(&document).unwrap();
    assert_eq!(registry.get_range("web"), [3, 4]);
    assert_eq!(registry.projects.len(), 1);
    assert_eq!(registry.projects.get("a").unwrap().ports.get("y"), Some(&port(3)));
    assert_eq!(registry.projects.get("a").unwrap().ports.get("x"), None);
}

#[test]
fn port_zero_in_a_document_is_refused() {
    let document = RegistryDocument {
        ranges: None,
        projects: Some(vec![
            ("a".to_string(), vec![("x".to_string(), 1)]),
            ("b".to_string(), vec![("y".to_string(), 2), ("z".to_string(), 0)]),
        ]),
    };
    assert_eq!(Registry::from_document(&document), Err(InvalidPortError { value: 0 }));
}

#[test]
fn a_project_without_slots_can_be_read_and_freed() {
    let document = RegistryDocument { ranges: None, projects: Some(vec![("idle".to_string(), vec![])]) };
    let mut registry = Registry::from_document(&document).unwrap();
    assert!(registry.projects.contains_key("idle"));
    assert_eq!(free_port(&mut registry, "idle", None), Ok(vec![]));
    assert!(registry.projects.is_empty());
}

#[test]
fn errors_convert_into_the_common_error() {
    assert_eq!(Error::from(RegistryError::InvalidRangeFormat), Error::Registry(RegistryError::InvalidRangeFormat));
    assert_eq!(Error::from(ConfigError::NoConfigDir), Error::Config(ConfigError::NoConfigDir));
}

#[test]
fn names_are_ordered_as_strings_are() {
    let names = ["", "a", "A", "ab", "b", "web", "we", "é", "z", "日本", "\u{10000}", "\u{ffff}", "a\0"];
    for a in names {
        for b in names {
            let expected = match a.cmp(b) {
                std::cmp::Ordering::Less => NameOrder::Before,
                std::cmp::Ordering::Equal => NameOrder::Same,
                std::cmp::Ordering::Greater => NameOrder::After,
            };
            assert_eq!(compare_names(a, b), expected);
        }
    }
}

#[test]
fn name_map_behaves_like_a_sorted_map() {
    let mut map: NameMap<u32> = NameMap::new();
    let mut model = std::collections::BTreeMap::new();
    let keys = ["m", "c", "x", "a", "m", "z", "b", "c", "", "mm"];
    for (i, k) in keys.iter().enumerate() {
        assert_eq!(map.insert(k.to_string(), i as u32), model.insert(k.to_string(), i as u32));
        assert_eq!(map.len(), model.len());
    }
    for k in ["a", "b", "c", "d", "", "mm", "m", "zz"] {
        assert_eq!(map.get(k), model.get(k));
        assert_eq!(map.contains_key(k), model.contains_key(k));
    }
    let listed: Vec<(String, u32)> = map.clone().into_entries();
    let expected: Vec<(String, u32)> = model.clone().into_iter().collect();
    assert_eq!(listed, expected);
    for i in 0..map.len() {
        assert_eq!(map.name_at(i), &expected[i].0);
        assert_eq!(map.value_at(i), &expected[i].1);
    }
    for k in ["c", "nope", "a", "zz", "m"] {
        assert_eq!(map.remove(k), model.remove(k));
    }
    let expected: Vec<(String, u32)> = model.into_iter().collect();
    assert_eq!(map.clone().into_entries(), expected);
    assert!(!map.is_empty());
    assert!(NameMap::<u32>::new().is_empty());
}

#[test]
fn document_location_prefers_the_given_path() {
    assert_eq!(
        registry_path(Some("/x/r.toml".to_string()), Some("/home/u/.config".to_string())),
        Ok(DocumentLocation::Given("/x/r.toml".to_string()))
    );
    assert_eq!(
        registry_path(None, Some("/home/u/.config".to_string())),
        Ok(DocumentLocation::Below("/home/u/.config".to_string()))
    );
    assert_eq!(registry_path(Some("p".to_string()), None), Ok(DocumentLocation::Given("p".to_string())));
    assert_eq!(registry_path(None, None), Err(ConfigError::NoConfigDir));
}

fn run(purpose: Purpose, answers: &[bool]) -> (Vec<Action>, Session) {
    let mut session = Session::begin(purpose);
    let mut actions = vec![];
    let mut answers = answers.iter();
    while !session.is_finished() {
        actions.push(session.action);
        session = session.advance(*answers.next().unwrap_or(&true));
    }
    (actions, session)
}

#[test]
fn transaction_on_an_existing_document() {
    let (actions, end) = run(Purpose::Transact, &[]);
    assert_eq!(
        actions,
        vec![
            Action::EnsureDirectory, Action::OpenLock, Action::AcquireLock, Action::ProbeDocument, Action::ReadDocument, Action::ParseDocument,
            Action::Mutate, Action::Serialize, Action::WriteTemp, Action::SyncTemp, Action::RenameTemp
        ]
    );
    assert_eq!(end.failure, None);
    assert_eq!(end.advance(true), end);
    assert_eq!(end.advance(false), end);
}

#[test]
fn transaction_without_a_document_writes_the_default_first() {
    let (actions, end) = run(Purpose::Transact, &[true, true, true, false]);
    assert_eq!(
        actions,
        vec![
            Action::EnsureDirectory, Action::OpenLock, Action::AcquireLock, Action::ProbeDocument, Action::StartFresh, Action::Serialize,
            Action::WriteTemp, Action::SyncTemp, Action::RenameTemp, Action::Mutate, Action::Serialize, Action::WriteTemp, Action::SyncTemp, Action::RenameTemp
        ]
    );
    assert_eq!(end.failure, None);
    assert!(!end.fresh);
}

#[test]
fn loading_and_saving() {
    let (actions, end) = run(Purpose::Load, &[]);
    assert_eq!(
        actions,
        vec![Action::EnsureDirectory, Action::OpenLock, Action::AcquireLock, Action::ProbeDocument, Action::ReadDocument, Action::ParseDocument]
    );
    assert_eq!(end.failure, None);
    let (actions, end) = run(Purpose::Load, &[true, true, true, false]);
    assert_eq!(
        actions,
        vec![
            Action::EnsureDirectory, Action::OpenLock, Action::AcquireLock, Action::ProbeDocument, Action::StartFresh, Action::Serialize,
            Action::WriteTemp, Action::SyncTemp, Action::RenameTemp
        ]
    );
    assert_eq!(end.failure, None);
    let (actions, end) = run(Purpose::Save, &[]);
    assert_eq!(
        actions,
        vec![Action::EnsureDirectory, Action::OpenLock, Action::AcquireLock, Action::Serialize, Action::WriteTemp, Action::SyncTemp, Action::RenameTemp]
    );
    assert_eq!(end.failure, None);
}

#[test]
fn a_failed_step_ends_the_session() {
    let failures = [
        (0, Failure::DirectoryNotWritten),
        (1, Failure::LockNotWritten),
        (2, Failure::LockNotAcquired),
        (4, Failure::DocumentNotRead),
        (5, Failure::DocumentNotParsed),
        (6, Failure::ChangeRefused),
        (7, Failure::NotSerialized),
        (8, Failure::TempNotWritten),
        (9, Failure::TempNotWritten),
        (10, Failure::DocumentNotWritten),
    ];
    for (at, failure) in failures {
        let mut answers = vec![true; at];
        answers.push(false);
        let (actions, end) = run(Purpose::Transact, &answers);
        assert_eq!(actions.len(), at + 1);
        assert_eq!(end.failure, Some(failure));
        if failure == Failure::ChangeRefused {
            assert_eq!(actions.last(), Some(&Action::Mutate));
            assert!(!actions.contains(&Action::Serialize));
            assert!(!actions.contains(&Action::RenameTemp));
        }
    }
}

#[test]
fn failures_name_the_path_they_happened_at() {
    let paths = DocumentPaths {
        directory: "/c".to_string(),
        lock: "/c/.registry.lock".to_string(),
        document: "/c/registry.toml".to_string(),
        temp: "/c/.registry.toml.tmp".to_string(),
    };
    let why = || "denied".to_string();
    let at = |path: &str| ConfigError::WriteFailed { path: path.to_string(), reason: why() };
    assert_eq!(config_error(Failure::DirectoryNotWritten, paths.clone(), why()), Some(at("/c")));
    assert_eq!(config_error(Failure::LockNotWritten, paths.clone(), why()), Some(at("/c/.registry.lock")));
    assert_eq!(config_error(Failure::TempNotWritten, paths.clone(), why()), Some(at("/c/.registry.toml.tmp")));
    assert_eq!(config_error(Failure::DocumentNotWritten, paths.clone(), why()), Some(at("/c/registry.toml")));
    assert_eq!(
        config_error(Failure::LockNotAcquired, paths.clone(), why()),
        Some(ConfigError::LockFailed { path: "/c/.registry.lock".to_string(), reason: why() })
    );
    assert_eq!(
        config_error(Failure::DocumentNotRead, paths.clone(), why()),
        Some(ConfigError::ReadFailed { path: "/c/registry.toml".to_string(), reason: why() })
    );
    assert_eq!(
        config_error(Failure::DocumentNotParsed, paths.clone(), why()),
        Some(ConfigError::ParseFailed { path: "/c/registry.toml".to_string(), reason: why() })
    );
    assert_eq!(
        config_error(Failure::NotSerialized, paths.clone(), why()),
        Some(ConfigError::SerializeFailed(why()))
    );
    assert_eq!(config_error(Failure::ChangeRefused, paths, why()), None);
}

#[test]
fn registries_that_hold_the_same_are_written_alike() {
    let mut other = Registry::default();
    set_port_range(&mut other, "custom=7000-7999").unwrap();
    allocate_port(&mut other, "backend", "api", Some(port(3000)), &[]).unwrap();
    allocate_port(&mut other, "zzz", "web", None, &[]).unwrap();
    allocate_port(&mut other, "backend", "db", Some(port(5432)), &[]).unwrap();
    allocate_port(&mut other, "webapp", "web", Some(port(8080)), &[]).unwrap();
    free_port(&mut other, "zzz", None).unwrap();
    assert_eq!(other, sample());
    assert_eq!(other.to_document(), sample().to_document());
}

#[test]
fn slots_of_each_project_are_written_in_name_order() {
    let mut registry = Registry::default();
    for (slot, number) in [("web", 1), ("api", 2), ("db", 3), ("cache", 4), ("a", 5), ("z", 6)] {
        allocate_port(&mut registry, "p", slot, Some(port(number)), &[]).unwrap();
    }
    let projects = registry.to_document().projects.unwrap();
    let names: Vec<&str> = projects[0].1.iter().map(|s| s.0.as_str()).collect();
    assert_eq!(names, vec!["a", "api", "cache", "db", "web", "z"]);
    let numbers: Vec<u16> = projects[0].1.iter().map(|s| s.1).collect();
    assert_eq!(numbers, vec![5, 2, 4, 3, 1, 6]);
}
