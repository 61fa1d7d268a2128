use num_cpus::{cgroups_num_cpus, get, get_num_cpus, get_physical, init_cgroups};

#[test]
fn counts_are_always_positive() {
    let no_quota = init_cgroups(None, 1);
    assert!(get(&no_quota, 1) >= 1);
    assert!(get_physical(None, &no_quota, 1) >= 1);

    let tight_quota = init_cgroups(Some(1), 64);
    assert!(get(&tight_quota, 64) >= 1);
    assert!(get_physical(None, &tight_quota, 64) >= 1);
}

#[test]
fn quota_caps_the_logical_count() {
    let cache = init_cgroups(Some(2), 8);
    assert_eq!(get(&cache, 8), 2);
    assert_eq!(cgroups_num_cpus(&cache), Some(2));
}

#[test]
fn quota_is_clamped_to_the_affinity_signal() {
    let cache = init_cgroups(Some(16), 4);
    assert_eq!(get(&cache, 4), 4);
}

#[test]
fn zero_quota_stores_nothing() {
    let cache = init_cgroups(Some(0), 4);
    assert_eq!(cgroups_num_cpus(&cache), None);
    assert_eq!(get(&cache, 4), 4);
}

#[test]
fn no_quota_follows_the_affinity_signal() {
    let cache = init_cgroups(None, 4);
    assert_eq!(get(&cache, 4), 4);
    assert_eq!(get(&cache, 2), 2);
}

#[test]
fn stored_quota_is_frozen_for_the_cache_lifetime() {
    // Once the one-time initialization stored a budget, later calls
    // report it unchanged even when the affinity signal moves — the
    // underlying files are only ever read once.
    let cache = init_cgroups(Some(3), 8);
    let first = get(&cache, 8);
    let second = get(&cache, 8);
    let after_affinity_change = get(&cache, 5);
    assert_eq!(first, 3);
    assert_eq!(second, first);
    assert_eq!(after_affinity_change, first);
}

#[test]
fn get_num_cpus_matches_get() {
    let cache = init_cgroups(Some(2), 8);
    assert_eq!(get_num_cpus(&cache, 8), get(&cache, 8));
    let bare = init_cgroups(None, 6);
    assert_eq!(get_num_cpus(&bare, 6), get(&bare, 6));
}
