use num_cpus::{get, get_physical, init_cgroups};

fn lines(raw: &[&str]) -> Vec<String> {
    raw.iter().map(|s| s.to_string()).collect()
}

#[test]
fn physical_count_sums_cores_per_package() {
    let cache = init_cgroups(None, 8);
    let cpuinfo = lines(&[
        "processor\t: 0",
        "model name\t: Example CPU",
        "physical id\t: 0",
        "core id\t\t: 0",
        "cpu cores\t: 4",
        "",
        "processor\t: 1",
        "model name\t: Example CPU",
        "physical id\t: 0",
        "core id\t\t: 1",
        "cpu cores\t: 4",
    ]);
    assert_eq!(get_physical(Some(&cpuinfo), &cache, 8), 4);
}

#[test]
fn physical_count_adds_distinct_packages() {
    let cache = init_cgroups(None, 8);
    let cpuinfo = lines(&[
        "physical id : 0",
        "cpu cores : 2",
        "physical id : 1",
        "cpu cores : 2",
    ]);
    assert_eq!(get_physical(Some(&cpuinfo), &cache, 8), 4);
}

#[test]
fn later_entry_for_same_package_overwrites() {
    let cache = init_cgroups(None, 8);
    let cpuinfo = lines(&[
        "physical id : 0",
        "cpu cores : 2",
        "physical id : 0",
        "cpu cores : 4",
    ]);
    assert_eq!(get_physical(Some(&cpuinfo), &cache, 8), 4);
}

#[test]
fn pair_flushes_in_either_order() {
    let cache = init_cgroups(None, 8);
    let cpuinfo = lines(&["cpu cores : 2", "physical id : 0"]);
    assert_eq!(get_physical(Some(&cpuinfo), &cache, 8), 2);
}

#[test]
fn core_id_lines_are_not_the_pairing_scheme() {
    // Alternating `physical id` / `core id` describes logical CPUs;
    // the cores-sum scheme pairs `physical id` with `cpu cores` only,
    // so this description adds up to nothing and the logical count is
    // reported instead.
    let cache = init_cgroups(None, 8);
    let cpuinfo = lines(&[
        "physical id : 0",
        "core id : 0",
        "physical id : 0",
        "core id : 1",
    ]);
    assert_eq!(get_physical(Some(&cpuinfo), &cache, 8), 8);
}

#[test]
fn absent_topology_source_falls_back_to_logical() {
    // `physical <= logical` is no invariant: with the source absent
    // the two counts are equal.
    let cache = init_cgroups(None, 8);
    assert_eq!(get_physical(None, &cache, 8), get(&cache, 8));
    assert_eq!(get_physical(None, &cache, 8), 8);
}

#[test]
fn empty_topology_source_falls_back_to_logical() {
    let cache = init_cgroups(None, 3);
    let cpuinfo: Vec<String> = Vec::new();
    assert_eq!(get_physical(Some(&cpuinfo), &cache, 3), 3);
}

#[test]
fn malformed_value_stops_the_scan_but_keeps_earlier_packages() {
    let cache = init_cgroups(None, 8);
    let cpuinfo = lines(&[
        "physical id : 0",
        "cpu cores : 2",
        "physical id : bogus",
        "cpu cores : 16",
    ]);
    assert_eq!(get_physical(Some(&cpuinfo), &cache, 8), 2);
}

#[test]
fn lines_without_a_colon_are_skipped() {
    let cache = init_cgroups(None, 8);
    let cpuinfo = lines(&["no colon here", "physical id : 0", "cpu cores : 2"]);
    assert_eq!(get_physical(Some(&cpuinfo), &cache, 8), 2);
}

#[test]
fn hyperthreading_reports_fewer_physical_than_logical() {
    let cache = init_cgroups(None, 8);
    let cpuinfo = lines(&["physical id : 0", "cpu cores : 4"]);
    assert_eq!(get_physical(Some(&cpuinfo), &cache, 8), 4);
    assert_eq!(get(&cache, 8), 8);
}
