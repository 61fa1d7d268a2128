use num_cpus::{Cgroup, MountInfo, Subsys};

#[test]
fn test_load_mountinfo() {
    let lines: Vec<String> = [
        "1 0 8:1 / / rw,noatime shared:1 - ext4 /dev/sda1 rw,errors=remount-ro",
        "14 1 0:15 / /sys rw,nosuid,nodev,noexec,relatime shared:5 - sysfs sysfs rw",
        "20 14 0:18 / /sys/fs/cgroup ro,nosuid,nodev,noexec shared:9 - tmpfs tmpfs ro,mode=755",
        "25 20 0:21 / /sys/fs/cgroup/memory rw,nosuid,nodev,noexec,relatime shared:14 - cgroup cgroup rw,memory",
        "26 20 0:22 / /sys/fs/cgroup/cpu,cpuacct rw,nosuid,nodev,noexec,relatime shared:15 - cgroup cgroup rw,cpu,cpuacct",
    ]
    .iter()
    .map(|s| s.to_string())
    .collect();

    let mnt_info = MountInfo::load_cpu(&lines).unwrap();

    assert_eq!(mnt_info.root, "/");
    assert_eq!(mnt_info.mount_point, "/sys/fs/cgroup/cpu,cpuacct");
}

#[test]
fn test_load_subsys() {
    let lines: Vec<String> = [
        "12:memory:/",
        "11:cpu,cpuacct:/",
        "10:devices:/",
    ]
    .iter()
    .map(|s| s.to_string())
    .collect();

    let subsys = Subsys::load_cpu(&lines).unwrap();

    assert_eq!(subsys.base, "/");
}

#[test]
fn test_cgroup_mount() {
    let cases = &[
        ("/", "/sys/fs/cgroup/cpu", "/", Some("/sys/fs/cgroup/cpu")),
        (
            "/docker/01abcd",
            "/sys/fs/cgroup/cpu",
            "/docker/01abcd",
            Some("/sys/fs/cgroup/cpu"),
        ),
        (
            "/docker/01abcd",
            "/sys/fs/cgroup/cpu",
            "/docker/01abcd/",
            Some("/sys/fs/cgroup/cpu"),
        ),
        (
            "/docker/01abcd",
            "/sys/fs/cgroup/cpu",
            "/docker/01abcd/large",
            Some("/sys/fs/cgroup/cpu/large"),
        ),
        // fails
        ("/docker/01abcd", "/sys/fs/cgroup/cpu", "/", None),
        ("/docker/01abcd", "/sys/fs/cgroup/cpu", "/docker", None),
        ("/docker/01abcd", "/sys/fs/cgroup/cpu", "/elsewhere", None),
        (
            "/docker/01abcd",
            "/sys/fs/cgroup/cpu",
            "/docker/01abcd-other-dir",
            None,
        ),
    ];

    for &(root, mount_point, subsys, expected) in cases.iter() {
        let mnt_info = MountInfo {
            root: root.to_string(),
            mount_point: mount_point.to_string(),
        };
        let subsys = Subsys {
            base: subsys.to_string(),
        };

        let actual = Cgroup::translate(mnt_info, subsys).map(|c| c.base);
        let expected = expected.map(|s| s.to_string());
        assert_eq!(actual, expected);
    }
}

#[test]
fn test_cgroup_cpu_quota() {
    let cgroup = Cgroup::new("good".to_string());
    assert_eq!(cgroup.cpu_quota(Some("600000\n"), Some("100000\n")), Some(6));
}

#[test]
fn test_cgroup_cpu_quota_divide_by_zero() {
    let cgroup = Cgroup::new("zero-period".to_string());
    assert!(cgroup.quota_us(Some("600000\n")).is_some());
    assert_eq!(cgroup.period_us(Some("0\n")), Some(0));
    assert_eq!(cgroup.cpu_quota(Some("600000\n"), Some("0\n")), None);
}

#[test]
fn test_cgroup_cpu_quota_ceil() {
    let cgroup = Cgroup::new("ceil".to_string());
    assert_eq!(cgroup.cpu_quota(Some("150000\n"), Some("100000\n")), Some(2));
}

#[test]
fn quota_ceiling_rounds_up_fractional_budget() {
    // 100000 / 30000 is a little over three periods' worth: the
    // ceiling reports four CPUs rather than leaving capacity idle.
    let cgroup = Cgroup::new("ceil-up".to_string());
    assert_eq!(cgroup.cpu_quota(Some("100000\n"), Some("30000\n")), Some(4));
}

#[test]
fn quota_below_one_period_still_counts_one() {
    let cgroup = Cgroup::new("half".to_string());
    assert_eq!(cgroup.cpu_quota(Some("50000\n"), Some("100000\n")), Some(1));
}

#[test]
fn quota_exact_multiple_is_not_rounded() {
    let cgroup = Cgroup::new("exact".to_string());
    assert_eq!(cgroup.cpu_quota(Some("100000\n"), Some("100000\n")), Some(1));
}

#[test]
fn unlimited_quota_reads_as_no_quota() {
    // -1 means "unlimited"; it does not parse as an unsigned value,
    // so the whole resolution degrades to "no quota".
    let cgroup = Cgroup::new("unlimited".to_string());
    assert_eq!(cgroup.quota_us(Some("-1\n")), None);
    assert_eq!(cgroup.cpu_quota(Some("-1\n"), Some("100000\n")), None);
}

#[test]
fn missing_parameter_file_yields_no_quota() {
    let cgroup = Cgroup::new("missing".to_string());
    assert_eq!(cgroup.cpu_quota(None, Some("100000\n")), None);
    assert_eq!(cgroup.cpu_quota(Some("600000\n"), None), None);
}

#[test]
fn parameter_values_are_trimmed() {
    let cgroup = Cgroup::new("padded".to_string());
    assert_eq!(cgroup.quota_us(Some("  42\n")), Some(42));
    assert_eq!(cgroup.period_us(Some("\t7 \r\n")), Some(7));
    assert_eq!(cgroup.quota_us(Some("4 2")), None);
    assert_eq!(cgroup.quota_us(Some("")), None);
}

#[test]
fn load_cgroups_resolves_docker_layout() {
    let cgroup_lines: Vec<String> = [
        "12:memory:/docker/01abcd",
        "11:cpu,cpuacct:/docker/01abcd",
    ]
    .iter()
    .map(|s| s.to_string())
    .collect();
    let mountinfo_lines: Vec<String> = [
        "20 14 0:18 / /sys/fs/cgroup ro,nosuid shared:9 - tmpfs tmpfs ro,mode=755",
        "26 20 0:22 /docker/01abcd /sys/fs/cgroup/cpu,cpuacct rw,relatime shared:15 - cgroup cgroup rw,cpu,cpuacct",
    ]
    .iter()
    .map(|s| s.to_string())
    .collect();

    let cgroup = num_cpus::load_cgroups(&cgroup_lines, &mountinfo_lines).unwrap();
    assert_eq!(cgroup.base, "/sys/fs/cgroup/cpu,cpuacct");
}

#[test]
fn load_cgroups_fails_cleanly_on_v2_only_layout() {
    // A unified-hierarchy membership line assigns no controller list,
    // so the v1 resolver finds no `cpu` entry and reports no quota.
    let cgroup_lines: Vec<String> = ["0::/".to_string()].to_vec();
    let mountinfo_lines: Vec<String> = [
        "26 20 0:22 / /sys/fs/cgroup rw,relatime shared:15 - cgroup2 cgroup2 rw",
    ]
    .iter()
    .map(|s| s.to_string())
    .collect();

    assert!(num_cpus::load_cgroups(&cgroup_lines, &mountinfo_lines).is_none());
}

#[test]
fn load_cgroups_fails_when_root_is_no_prefix() {
    let cgroup_lines: Vec<String> = ["11:cpu,cpuacct:/elsewhere".to_string()].to_vec();
    let mountinfo_lines: Vec<String> = [
        "26 20 0:22 /docker/01abcd /sys/fs/cgroup/cpu rw,relatime shared:15 - cgroup cgroup rw,cpu",
    ]
    .iter()
    .map(|s| s.to_string())
    .collect();

    assert!(num_cpus::load_cgroups(&cgroup_lines, &mountinfo_lines).is_none());
}
