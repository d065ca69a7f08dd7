use wartable::config::GpuSchedulerConfig;
use wartable::gpu::{device_indices, index_range, reading_frees, reading_totals, select_devices, GpuBudget, GpuState};

const GIB: u64 = 1 << 30;

fn dev(index: u32, total: u64, allocated: u64, jobs: u32, live: Option<u64>) -> GpuBudget {
    GpuBudget { index, total_vram: total, allocated_vram: allocated, job_count: jobs, live_free_vram: live }
}

#[test]
fn free_and_effective_memory() {
    let d = dev(0, 10 * GIB, 4 * GIB, 1, None);
    assert_eq!(d.free_vram(), 6 * GIB);
    assert_eq!(d.effective_free_vram(), 6 * GIB);
    let d = dev(0, 10 * GIB, 4 * GIB, 1, Some(2 * GIB));
    assert_eq!(d.effective_free_vram(), 2 * GIB);
    let d = dev(0, 4 * GIB, 9 * GIB, 1, Some(2 * GIB));
    assert_eq!(d.free_vram(), 0);
    assert_eq!(d.effective_free_vram(), 0);
}

#[test]
fn least_loaded_picks_most_free_memory() {
    let devices = vec![
        dev(0, 24 * GIB, 0, 1, None),
        dev(1, 24 * GIB, 8 * GIB, 0, None),
        dev(2, 24 * GIB, 0, 0, None),
        dev(3, 24 * GIB, 20 * GIB, 0, None),
    ];
    assert_eq!(select_devices(&devices, false, 2, 10 * GIB), Some(vec![0, 2]));
    assert_eq!(select_devices(&devices, false, 3, 10 * GIB), Some(vec![0, 2, 1]));
    assert_eq!(select_devices(&devices, false, 4, 10 * GIB), None);
    assert_eq!(select_devices(&devices, true, 2, 10 * GIB), Some(vec![0, 1]));
    assert_eq!(select_devices(&devices, true, 0, 10 * GIB), Some(vec![]));
    let busy_but_roomy = vec![dev(0, 32 * GIB, 12 * GIB, 1, None), dev(1, 10 * GIB, 0, 0, None)];
    assert_eq!(select_devices(&busy_but_roomy, false, 1, 8 * GIB), Some(vec![0]));
    let live = vec![dev(0, 32 * GIB, 0, 0, Some(2 * GIB)), dev(1, 10 * GIB, 0, 0, None)];
    assert_eq!(select_devices(&live, false, 1, 1 * GIB), Some(vec![1]));
}

#[test]
fn allocate_then_release_restores_budgets() {
    let cfg = GpuSchedulerConfig { vram_bytes: Some(vec![8 * GIB, 16 * GIB]), policy: "packed".to_string(), device_env_var: "CUDA_VISIBLE_DEVICES".to_string() };
    let mut g = GpuState::init(&cfg);
    assert_eq!(g.devices.len(), 2);
    assert_eq!(g.devices[1].total_vram, 16 * GIB);
    g.allocate(&[1, 0], 4 * GIB);
    assert_eq!(g.devices[0].allocated_vram, 4 * GIB);
    assert_eq!(g.devices[1].allocated_vram, 4 * GIB);
    assert_eq!(g.devices[1].job_count, 1);
    g.allocate(&[7], 4 * GIB);
    g.release(&[1, 0], 4 * GIB);
    assert_eq!(g.devices[0].allocated_vram, 0);
    assert_eq!(g.devices[1].job_count, 0);
    g.release(&[0], 4 * GIB);
    assert_eq!(g.devices[0].allocated_vram, 0);
    assert_eq!(g.devices[0].job_count, 0);
}

#[test]
fn assignment_follows_policy() {
    let cfg = GpuSchedulerConfig { vram_bytes: Some(vec![8 * GIB, 16 * GIB]), policy: "packed".to_string(), device_env_var: "X".to_string() };
    let mut g = GpuState::init(&cfg);
    assert_eq!(g.try_assign(0, 100 * GIB), Some(vec![]));
    assert_eq!(g.try_assign(1, 10 * GIB), Some(vec![1]));
    assert_eq!(g.try_assign(2, 4 * GIB), Some(vec![0, 1]));
    assert_eq!(g.try_assign(1, 20 * GIB), None);
    let none = GpuSchedulerConfig { vram_bytes: Some(vec![]), policy: "packed".to_string(), device_env_var: "X".to_string() };
    let mut empty = GpuState::init(&none);
    assert_eq!(empty.try_assign(1, 0), None);
}

#[test]
fn readings_wait_out_the_cooldown() {
    assert!(!wartable::gpu::cooldown_over(0));
    assert!(!wartable::gpu::cooldown_over(9));
    assert!(wartable::gpu::cooldown_over(10));
    assert!(wartable::gpu::cooldown_over(3600));
}

#[test]
fn driver_readings_become_budgets() {
    let b = wartable::gpu::budgets_from_readings(&vec![Some(24 * GIB), None, Some(8 * GIB)]);
    assert_eq!(b.len(), 2);
    assert_eq!((b[0].index, b[0].total_vram, b[0].allocated_vram, b[0].job_count), (0, 24 * GIB, 0, 0));
    assert_eq!((b[1].index, b[1].total_vram), (2, 8 * GIB));
    assert!(b[1].live_free_vram.is_none());
    assert!(wartable::gpu::budgets_from_readings(&vec![None]).is_empty());
}

#[test]
fn assignment_never_repeats_a_device() {
    let cfg = GpuSchedulerConfig { vram_bytes: Some(vec![8 * GIB, 16 * GIB, 16 * GIB, 4 * GIB]), policy: "least-loaded".to_string(), device_env_var: "X".to_string() };
    let mut g = GpuState::init(&cfg);
    let picked = g.try_assign(3, 4 * GIB).unwrap();
    assert_eq!(picked, vec![1, 2, 0]);
    let mut sorted = picked.clone();
    sorted.sort();
    sorted.dedup();
    assert_eq!(sorted.len(), 3);
}

#[test]
fn driver_readings_are_asked_per_device_index() {
    assert_eq!(index_range(3), vec![0, 1, 2]);
    assert!(index_range(0).is_empty());
    let devices = vec![dev(0, GIB, 0, 0, None), dev(2, GIB, 0, 0, None)];
    assert_eq!(device_indices(&devices), vec![0, 2]);
    let readings = vec![(0, Some((24 * GIB, 20 * GIB))), (1, None), (2, Some((8 * GIB, 1 * GIB)))];
    assert_eq!(reading_totals(&readings), vec![Some(24 * GIB), None, Some(8 * GIB)]);
    assert_eq!(reading_frees(&readings), vec![Some(20 * GIB), None, Some(1 * GIB)]);
}
