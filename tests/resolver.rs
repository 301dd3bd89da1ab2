use turbo_ncu::cache::Cache;
use turbo_ncu::resolver::{build_updates, order_results, partition_packages, record_fetches};
use turbo_ncu::types::{CheckOptions, PackageInfo, RegistryVersionInfo};

fn pkg(name: &str, range: &str) -> PackageInfo {
    PackageInfo { name: name.to_string(), version_range: range.to_string(), dep_type: "dependencies".to_string() }
}

fn strings(items: &[&str]) -> Vec<String> {
    items.iter().map(|s| s.to_string()).collect()
}

#[test]
fn updates_follow_input_order() {
    let packages = vec![pkg("a", "^1.0.0"), pkg("b", "~2.0.0"), pkg("c", "3.0.0")];
    let found = vec![
        Some(strings(&["1.0.0", "1.2.0"])),
        Some(strings(&["2.0.0", "2.1.0"])),
        Some(strings(&["3.0.0", "4.0.0-rc.1", "3.0.1"])),
    ];
    let updates = build_updates(&packages, &found, "latest", false);
    let names: Vec<&str> = updates.iter().map(|u| u.name.as_str()).collect();
    assert_eq!(names, vec!["a", "b", "c"]);
    assert_eq!(updates[0].new_range, "^1.2.0");
    assert_eq!(updates[0].update_type, "minor");
    assert_eq!(updates[0].current_version, "1.0.0");
    assert_eq!(updates[1].new_range, "~2.1.0");
    assert_eq!(updates[2].latest, "3.0.1");
    assert_eq!(updates[2].new_range, "3.0.1");
    assert_eq!(updates[2].update_type, "patch");
    assert_eq!(updates[2].dep_type, "dependencies");
}

#[test]
fn failed_fetch_drops_only_that_package() {
    let packages = vec![pkg("a", "^1.0.0"), pkg("b", "^1.0.0"), pkg("c", "^1.0.0")];
    let found = vec![Some(strings(&["2.0.0"])), None, Some(strings(&["1.0.0", "3.0.0"]))];
    let updates = build_updates(&packages, &found, "latest", false);
    assert_eq!(updates.len(), 2);
    assert_eq!(updates[0].name, "a");
    assert_eq!(updates[0].update_type, "major");
    assert_eq!(updates[1].name, "c");
    assert_eq!(updates[1].latest, "3.0.0");
}

#[test]
fn partition_and_record() {
    let mut cache = Cache::new("unused.json", 600);
    cache.set_at("b", strings(&["1.0.0"]), 1_000);
    let packages = vec![pkg("a", "^1.0.0"), pkg("b", "^1.0.0"), pkg("c", "^1.0.0")];
    let mut part = partition_packages(&packages, &cache, 1_100);
    assert_eq!(part.cache_hits, 1);
    assert_eq!(part.cache_misses, 2);
    assert_eq!(part.to_fetch, vec![0, 2]);
    assert_eq!(part.found[1], Some(strings(&["1.0.0"])));
    let results = vec![
        None,
        Some(RegistryVersionInfo { name: String::new(), versions: strings(&["1.0.0", "1.4.0"]) }),
    ];
    record_fetches(&mut cache, &packages, &part.to_fetch, &results, &mut part.found, 1_100);
    assert_eq!(part.found[0], None);
    assert_eq!(part.found[2], Some(strings(&["1.0.0", "1.4.0"])));
    assert_eq!(cache.get_at("c", 1_100).unwrap().versions, strings(&["1.0.0", "1.4.0"]));
    assert!(cache.get_at("a", 1_100).is_none());
    assert!(cache.get_at("", 1_100).is_none());
    let updates = build_updates(&packages, &part.found, "minor", false);
    assert_eq!(updates.len(), 1);
    assert_eq!(updates[0].name, "c");
    assert_eq!(updates[0].new_range, "^1.4.0");
}

#[test]
fn default_options() {
    let o = CheckOptions::default();
    assert_eq!(o.target.as_deref(), Some("latest"));
    assert_eq!(o.concurrency, Some(24));
    assert_eq!(o.timeout_ms, Some(30000));
    assert_eq!(o.cache_ttl_seconds, Some(600));
    assert_eq!(o.include_prerelease, Some(false));
    assert_eq!(o.retries, Some(3));
    assert!(o.registry.is_none() && o.cache_file.is_none());
}

#[test]
fn results_put_back_in_miss_order() {
    let info = |n: &str, v: &str| Some(RegistryVersionInfo { name: n.to_string(), versions: strings(&[v]) });
    let arrivals = vec![(2, info("c", "3.0.0")), (0, info("a", "1.0.0")), (1, None)];
    let ordered = order_results(3, arrivals);
    assert_eq!(ordered.len(), 3);
    assert_eq!(ordered[0].as_ref().unwrap().name, "a");
    assert!(ordered[1].is_none());
    assert_eq!(ordered[2].as_ref().unwrap().versions, strings(&["3.0.0"]));
    let other = order_results(3, vec![(1, None), (2, info("c", "3.0.0")), (0, info("a", "1.0.0"))]);
    assert_eq!(other[0].as_ref().unwrap().name, "a");
    assert!(other[1].is_none());
    assert_eq!(other[2].as_ref().unwrap().name, "c");
}
