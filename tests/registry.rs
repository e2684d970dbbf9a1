use package_index::error::RegistryError;
use package_index::filename::{is_artifact, parse_filename};
use package_index::registry::{Package, Registry, Release};
use package_index::upload::{classify_part, PartAction};

fn release(version: &str, filename: &str, t: i64) -> Release {
    Release { version: version.to_string(), filename: filename.to_string(), upload_time: t }
}

fn versions(reg: &Registry, name: &str) -> Vec<String> {
    let p = reg.get_package(name).unwrap();
    p.releases.iter().map(|r| r.version.clone()).collect()
}

#[test]
fn parses_name_and_version() {
    let (name, version) = parse_filename("requests-2.31.0-py3-none-any.whl").unwrap();
    assert_eq!(name, "requests");
    assert_eq!(version, "2.31.0");
}

#[test]
fn filename_without_separator_is_invalid() {
    assert!(matches!(parse_filename("foo.whl"), Err(RegistryError::InvalidFormat(_))));
    assert!(matches!(parse_filename(""), Err(RegistryError::InvalidFormat(_))));
}

#[test]
fn two_segments_suffice() {
    let (name, version) = parse_filename("foo-1.0.whl").unwrap();
    assert_eq!(name, "foo");
    assert_eq!(version, "1.0.whl");
    let (name, version) = parse_filename("-").unwrap();
    assert_eq!(name, "");
    assert_eq!(version, "");
}

#[test]
fn parser_keeps_case_and_non_ascii() {
    let (name, version) = parse_filename("Ünï-Çode-x.whl").unwrap();
    assert_eq!(name, "Ünï");
    assert_eq!(version, "Çode");
}

#[test]
fn artifact_extension_gates_parts() {
    assert!(is_artifact("pkg-1.0.0-py3-none-any.whl"));
    assert!(is_artifact(".whl"));
    assert!(!is_artifact("whl"));
    assert!(!is_artifact("pkg-1.0.0.tar.gz"));
    assert!(!is_artifact("pkg-1.0.0.WHL"));
}

#[test]
fn classify_parts() {
    assert_eq!(classify_part(None), Ok(PartAction::Skip));
    assert_eq!(classify_part(Some("notes-1.0.txt")), Ok(PartAction::Skip));
    assert!(matches!(classify_part(Some("foo.whl")), Err(RegistryError::InvalidFormat(_))));
    assert_eq!(
        classify_part(Some("pkg-1.0.0-py3-none-any.whl")),
        Ok(PartAction::Register { name: "pkg".to_string(), version: "1.0.0".to_string() })
    );
}

#[test]
fn missing_package_is_not_found() {
    let reg = Registry::new();
    match reg.get_package("nonexistent") {
        Err(RegistryError::NotFound(n)) => assert_eq!(n, "nonexistent"),
        other => panic!("unexpected: {:?}", other),
    }
    assert!(reg.list_packages().is_empty());
}

#[test]
fn status_codes_split_not_found() {
    assert_eq!(RegistryError::NotFound("x".to_string()).status_code(), 404);
    assert_eq!(RegistryError::Io("x".to_string()).status_code(), 500);
    assert_eq!(RegistryError::Serialization("x".to_string()).status_code(), 500);
    assert_eq!(RegistryError::InvalidFormat("x".to_string()).status_code(), 500);
    assert_eq!(RegistryError::Protocol("x".to_string()).status_code(), 500);
}

#[test]
fn startup_without_snapshot_is_empty() {
    let reg = Registry::load(None).unwrap();
    assert!(reg.list_packages().is_empty());
    assert!(reg.packages().is_empty());
}

#[test]
fn startup_with_bad_snapshot_fails() {
    let dup = vec![
        Package { name: "a".to_string(), releases: vec![] },
        Package { name: "a".to_string(), releases: vec![] },
    ];
    assert!(matches!(Registry::load(Some(dup)), Err(RegistryError::Serialization(_))));
}

#[test]
fn unordered_snapshot_loads_newest_first() {
    let unordered = vec![
        Package { name: "b".to_string(), releases: vec![] },
        Package {
            name: "a".to_string(),
            releases: vec![
                release("1", "a-1.whl", 10),
                release("2", "a-2.whl", 20),
                release("1b", "a-1b.whl", 10),
                release("3", "a-3.whl", 30),
            ],
        },
    ];
    let reg = Registry::load(Some(unordered)).unwrap();
    assert_eq!(reg.list_packages(), vec!["b".to_string(), "a".to_string()]);
    assert_eq!(versions(&reg, "a"), vec!["3", "2", "1", "1b"]);
    assert!(versions(&reg, "b").is_empty());
}

#[test]
fn releases_newest_first_ties_in_upload_order() {
    let mut reg = Registry::new();
    reg.add_release_at("p".to_string(), "1".to_string(), "p-1.whl".to_string(), 100);
    reg.add_release_at("p".to_string(), "3".to_string(), "p-3.whl".to_string(), 300);
    reg.add_release_at("p".to_string(), "2".to_string(), "p-2.whl".to_string(), 200);
    reg.add_release_at("p".to_string(), "3b".to_string(), "p-3b.whl".to_string(), 300);
    reg.add_release_at("p".to_string(), "0".to_string(), "p-0.whl".to_string(), 50);
    assert_eq!(versions(&reg, "p"), vec!["3", "3b", "2", "1", "0"]);
    let times: Vec<i64> = reg.get_package("p").unwrap().releases.iter().map(|r| r.upload_time).collect();
    assert_eq!(times, vec![300, 300, 200, 100, 50]);
    assert_eq!(reg.list_packages(), vec!["p".to_string()]);
}

#[test]
fn distinct_names_are_all_kept() {
    let mut reg = Registry::new();
    for i in 0..50 {
        let name = format!("pkg{}", i);
        reg.add_release_at(name.clone(), "1.0".to_string(), format!("{}-1.0.whl", name), i);
    }
    let names = reg.list_packages();
    assert_eq!(names.len(), 50);
    for i in 0..50 {
        assert_eq!(names[i], format!("pkg{}", i));
        assert_eq!(versions(&reg, &format!("pkg{}", i)), vec!["1.0"]);
    }
}

#[test]
fn snapshot_round_trip() {
    let mut reg = Registry::new();
    reg.add_release_at("a".to_string(), "1".to_string(), "a-1.whl".to_string(), 5);
    reg.add_release_at("b".to_string(), "2".to_string(), "b-2.whl".to_string(), 7);
    reg.add_release_at("a".to_string(), "3".to_string(), "a-3.whl".to_string(), 9);
    let saved: Vec<Package> = reg.packages().clone();
    let loaded = Registry::load(Some(saved.clone())).unwrap();
    assert_eq!(loaded.list_packages(), vec!["a".to_string(), "b".to_string()]);
    assert_eq!(versions(&loaded, "a"), vec!["3", "1"]);
    let again = loaded.packages();
    assert_eq!(again.len(), saved.len());
    for (x, y) in again.iter().zip(saved.iter()) {
        assert_eq!(x.name, y.name);
        assert_eq!(x.releases.len(), y.releases.len());
        for (r, s) in x.releases.iter().zip(y.releases.iter()) {
            assert_eq!(r.version, s.version);
            assert_eq!(r.filename, s.filename);
            assert_eq!(r.upload_time, s.upload_time);
        }
    }
}

#[test]
fn upload_then_newer_upload_leads() {
    let mut reg = Registry::new();
    let parts = ["pkg-1.0.0-py3-none-any.whl", "pkg-2.0.0-py3-none-any.whl"];
    let mut t: i64 = 1_000;
    for f in parts.iter() {
        match classify_part(Some(f)).unwrap() {
            PartAction::Register { name, version } => {
                reg.add_release_at(name, version, f.to_string(), t);
            }
            PartAction::Skip => panic!("artifact skipped"),
        }
        t += 1_000;
    }
    let p = reg.get_package("pkg").unwrap();
    assert_eq!(p.releases[0].version, "2.0.0");
    assert_eq!(p.releases[1].version, "1.0.0");
    assert_eq!(p.releases[0].filename, "pkg-2.0.0-py3-none-any.whl");
}

#[test]
fn add_release_stamps_current_time() {
    let mut reg = Registry::new();
    let t = reg.add_release("pkg".to_string(), "1.0".to_string(), "pkg-1.0.whl".to_string()).unwrap();
    // Any clock reading taken after 2020 lies past this many nanoseconds.
    assert!(t > 1_577_836_800_000_000_000);
    let p = reg.get_package("pkg").unwrap();
    assert_eq!(p.releases[0].upload_time, t);
}

#[test]
fn concurrent_adds_to_distinct_names_all_land() {
    let rt = tokio::runtime::Builder::new_multi_thread().worker_threads(4).build().unwrap();
    let names = rt.block_on(async {
        let reg = std::sync::Arc::new(tokio::sync::RwLock::new(Registry::new()));
        let mut handles = Vec::new();
        for i in 0..50 {
            let reg = reg.clone();
            handles.push(tokio::spawn(async move {
                let mut guard = reg.write().await;
                let t = guard.add_release(format!("pkg{}", i), "1.0".to_string(), format!("pkg{}-1.0.whl", i));
                assert!(t.is_some());
            }));
        }
        for h in handles {
            h.await.unwrap();
        }
        let guard = reg.read().await;
        guard.list_packages()
    });
    assert_eq!(names.len(), 50);
    let mut sorted = names.clone();
    sorted.sort();
    sorted.dedup();
    assert_eq!(sorted.len(), 50);
}

#[test]
fn duplicate_is_independent() {
    let mut reg = Registry::new();
    reg.add_release_at("a".to_string(), "1".to_string(), "a-1.whl".to_string(), 1);
    let mut copy = reg.duplicate();
    copy.add_release_at("b".to_string(), "1".to_string(), "b-1.whl".to_string(), 2);
    copy.add_release_at("a".to_string(), "2".to_string(), "a-2.whl".to_string(), 3);
    assert_eq!(reg.list_packages(), vec!["a".to_string()]);
    assert_eq!(versions(&reg, "a"), vec!["1"]);
    assert_eq!(copy.list_packages(), vec!["a".to_string(), "b".to_string()]);
    assert_eq!(versions(&copy, "a"), vec!["2", "1"]);
}

#[test]
fn staged_release_commits_only_after_save() {
    let mut reg = Registry::new();
    reg.add_release_at("a".to_string(), "1".to_string(), "a-1.whl".to_string(), 1);
    let (next, t) = reg.stage_release("a".to_string(), "2".to_string(), "a-2.whl".to_string()).unwrap();
    assert!(t > 1);
    assert_eq!(versions(&reg, "a"), vec!["1"]);
    assert_eq!(versions(&next, "a"), vec!["2", "1"]);
    let failed = reg.commit(next, Err(RegistryError::Io("disk full".to_string())));
    assert_eq!(failed, Err(RegistryError::Io("disk full".to_string())));
    assert_eq!(versions(&reg, "a"), vec!["1"]);
    let (next, _) = reg.stage_release("b".to_string(), "1".to_string(), "b-1.whl".to_string()).unwrap();
    assert_eq!(reg.commit(next, Ok(())), Ok(()));
    assert_eq!(reg.list_packages(), vec!["a".to_string(), "b".to_string()]);
    assert_eq!(versions(&reg, "b"), vec!["1"]);
}
