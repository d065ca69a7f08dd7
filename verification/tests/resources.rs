use wartable::resources::{disk_totals, DiskSpace};

fn disk(mount: &str, total: u64, available: u64) -> DiskSpace {
    DiskSpace { mount: mount.to_string(), total, available }
}

#[test]
fn each_mount_point_counts_once() {
    let disks = vec![disk("/", 100, 40), disk("/data", 500, 450), disk("/", 100, 40)];
    let t = disk_totals(&disks);
    assert_eq!((t.total, t.free, t.used), (600, 490, 110));
}

#[test]
fn no_disks_no_space() {
    let t = disk_totals(&Vec::new());
    assert_eq!((t.total, t.free, t.used), (0, 0, 0));
}

#[test]
fn used_space_never_negative_and_sums_saturate() {
    let t = disk_totals(&vec![disk("/a", 10, 20)]);
    assert_eq!((t.total, t.free, t.used), (10, 20, 0));
    let t = disk_totals(&vec![disk("/a", u64::MAX, 1), disk("/b", 5, 1)]);
    assert_eq!((t.total, t.free, t.used), (u64::MAX, 2, u64::MAX - 2));
}
