//! The host's disk space as the resource report shows it: each mount point counted once.
use vstd::prelude::*;
use crate::text::str_equal;

verus! {

/// One mounted disk: where it is mounted, its size and its available space, in bytes.
#[derive(Clone, Debug)]
pub struct DiskSpace {
    pub mount: String,
    pub total: u64,
    pub available: u64,
}

/// Disk space summed over mount points, in bytes.
#[derive(Clone, Copy, Debug)]
pub struct DiskTotals {
    pub total: u64,
    pub free: u64,
    pub used: u64,
}

/// Disk `i` is the first one listed at its mount point.
pub open spec fn first_at_mount(disks: Seq<DiskSpace>, i: int) -> bool {
    forall|j: int| 0 <= j < i ==> disks[j].mount@ != disks[i].mount@
}

/// The total size of the disks, each mount point counted once (at its first disk).
pub open spec fn counted_total(disks: Seq<DiskSpace>) -> int
    decreases disks.len(),
{
    if disks.len() == 0 {
        0
    } else {
        counted_total(disks.drop_last()) + if first_at_mount(disks, disks.len() - 1) {
            disks.last().total as int
        } else {
            0
        }
    }
}

/// The available space of the disks, each mount point counted once (at its first disk).
pub open spec fn counted_free(disks: Seq<DiskSpace>) -> int
    decreases disks.len(),
{
    if disks.len() == 0 {
        0
    } else {
        counted_free(disks.drop_last()) + if first_at_mount(disks, disks.len() - 1) {
            disks.last().available as int
        } else {
            0
        }
    }
}

/// An amount of bytes, capped at what a `u64` holds.
pub open spec fn capped(x: int) -> u64 {
    if x > u64::MAX {
        u64::MAX
    } else {
        x as u64
    }
}

/// Whether an earlier disk has the same mount point as disk `i`.
fn seen_before(disks: &Vec<DiskSpace>, i: usize) -> (r: bool)
    requires
        i < disks@.len(),
    ensures
        r == !first_at_mount(disks@, i as int),
{
    let mut j: usize = 0;
    while j < i
        invariant
            j <= i,
            i < disks@.len(),
            forall|k: int| 0 <= k < j ==> disks@[k].mount@ != disks@[i as int].mount@,
        decreases i - j,
    {
        if str_equal(disks[j].mount.as_str(), disks[i].mount.as_str()) {
            return true;
        }
        j = j + 1;
    }
    false
}

/// Sums the disks' sizes and available space, counting each mount point once; sums
/// beyond what a `u64` holds stay at its maximum. Used space is size minus available
/// space, or 0 when more is available than the size.
pub fn disk_totals(disks: &Vec<DiskSpace>) -> (r: DiskTotals)
    ensures
        r.total == capped(counted_total(disks@)),
        r.free == capped(counted_free(disks@)),
        r.used == if r.total >= r.free {
            (r.total - r.free) as u64
        } else {
            0
        },
{
    let mut total: u64 = 0;
    let mut free: u64 = 0;
    let mut i: usize = 0;
    assert(disks@.take(0) =~= Seq::<DiskSpace>::empty());
    while i < disks.len()
        invariant
            i <= disks@.len(),
            total == capped(counted_total(disks@.take(i as int))),
            free == capped(counted_free(disks@.take(i as int))),
        decreases disks@.len() - i,
    {
        let first = !seen_before(disks, i);
        let ghost t = disks@.take(i + 1);
        proof {
            assert(t.drop_last() =~= disks@.take(i as int));
            assert(t.last() == disks@[i as int]);
            assert(t[i as int] == disks@[i as int]);
            if first_at_mount(disks@, i as int) {
                assert forall|j: int| 0 <= j < i implies t[j].mount@ != t[i as int].mount@ by {
                    assert(t[j] == disks@[j]);
                }
            }
            if first_at_mount(t, i as int) {
                assert forall|j: int| 0 <= j < i implies disks@[j].mount@ != disks@[i as int].mount@ by {
                    assert(t[j] == disks@[j]);
                }
            }
            assert(first_at_mount(t, i as int) == first_at_mount(disks@, i as int));
            lemma_counted_nonneg(disks@.take(i as int));
        }
        if first {
            total = total.saturating_add(disks[i].total);
            free = free.saturating_add(disks[i].available);
        }
        i = i + 1;
    }
    assert(disks@.take(i as int) =~= disks@);
    let used = total.saturating_sub(free);
    DiskTotals { total, free, used }
}

/// Counted amounts are not negative.
proof fn lemma_counted_nonneg(disks: Seq<DiskSpace>)
    ensures
        counted_total(disks) >= 0,
        counted_free(disks) >= 0,
    decreases disks.len(),
{
    if disks.len() > 0 {
        lemma_counted_nonneg(disks.drop_last());
    }
}

} // verus!
