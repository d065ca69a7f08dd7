//! Per-GPU VRAM budgets and the choice of devices for a job.
//!
//! Amounts of memory are in bytes. A device's free budget is its total minus what running
//! jobs were granted; its effective free memory is the lower of that budget and the free
//! memory the driver last reported.
use vstd::prelude::*;
use crate::config::GpuSchedulerConfig;
use crate::order::{
    Ranked, rank_lt, ranked_sort, sort_ranked, first_match, lemma_first_match,
    lemma_first_match_at, lemma_first_match_none,
};
use crate::text::str_equal;

verus! {

#[verifier::external_type_specification]
#[verifier::external_body]
pub struct ExNvml(nvml_wrapper::Nvml);

#[verifier::external_type_specification]
#[verifier::external_body]
pub struct ExNvmlDevice<'a>(nvml_wrapper::Device<'a>);

#[verifier::external_type_specification]
#[verifier::external_body]
pub struct ExInstant(std::time::Instant);

/// Opens the NVIDIA management library (`Nvml::init`); `None` when it is unavailable.
#[verifier::external_body]
fn nvml_init() -> Option<nvml_wrapper::Nvml> {
    nvml_wrapper::Nvml::init().ok()
}

/// The number of devices the driver reports (`Nvml::device_count`).
#[verifier::external_body]
fn nvml_device_count(nvml: &nvml_wrapper::Nvml) -> Option<u32> {
    nvml.device_count().ok()
}

/// The device at an index (`Nvml::device_by_index`), together with the index it was
/// asked for.
#[verifier::external_body]
fn nvml_device<'a>(nvml: &'a nvml_wrapper::Nvml, index: u32) -> (r: (u32, Option<nvml_wrapper::Device<'a>>))
    ensures
        r.0 == index,
{
    (index, nvml.device_by_index(index).ok())
}

/// A driver reading of one device: the index it was asked for, and its total and free
/// memory in bytes when the device and its memory could be read.
pub type DriverReading = (u32, Option<(u64, u64)>);

/// Each reading was asked for the device index at its position in `indices`.
pub open spec fn asked_for(readings: Seq<DriverReading>, indices: Seq<u32>) -> bool {
    readings.len() == indices.len() && forall|k: int| 0 <= k < readings.len() ==> (#[trigger] readings[k]).0 == indices[k]
}

/// The total memory of each reading, where there is one.
pub open spec fn totals_of(readings: Seq<DriverReading>) -> Seq<Option<u64>> {
    readings.map_values(
        |p: DriverReading|
            match p.1 {
                Some((t, _)) => Some(t),
                None => None,
            },
    )
}

/// The free memory of each reading, where there is one.
pub open spec fn frees_of(readings: Seq<DriverReading>) -> Seq<Option<u64>> {
    readings.map_values(
        |p: DriverReading|
            match p.1 {
                Some((_, f)) => Some(f),
                None => None,
            },
    )
}

/// The indices `0, 1, ..., count - 1`.
pub fn index_range(count: u32) -> (r: Vec<u32>)
    ensures
        r@.len() == count,
        forall|k: int| 0 <= k < count ==> #[trigger] r@[k] == k,
{
    let mut r: Vec<u32> = Vec::new();
    let mut i: u32 = 0;
    while i < count
        invariant
            i <= count,
            r@.len() == i,
            forall|k: int| 0 <= k < i ==> #[trigger] r@[k] == k,
        decreases count - i,
    {
        r.push(i);
        i = i + 1;
    }
    r
}

/// The index of each device, in order.
pub fn device_indices(devices: &Vec<GpuBudget>) -> (r: Vec<u32>)
    ensures
        r@ == devices@.map_values(|d: GpuBudget| d.index),
{
    let mut r: Vec<u32> = Vec::new();
    let n = devices.len();
    let mut i: usize = 0;
    while i < n
        invariant
            n == devices@.len(),
            i <= n,
            r@ == devices@.take(i as int).map_values(|d: GpuBudget| d.index),
        decreases n - i,
    {
        r.push(devices[i].index);
        i = i + 1;
        assert(r@ =~= devices@.take(i as int).map_values(|d: GpuBudget| d.index));
    }
    assert(devices@.take(n as int) =~= devices@);
    r
}

/// The driver's reading of each listed device, in order.
fn driver_memory(nvml: &nvml_wrapper::Nvml, indices: &Vec<u32>) -> (r: Vec<DriverReading>)
    ensures
        asked_for(r@, indices@),
{
    let mut r: Vec<DriverReading> = Vec::new();
    let n = indices.len();
    let mut i: usize = 0;
    while i < n
        invariant
            n == indices@.len(),
            i <= n,
            asked_for(r@, indices@.take(i as int)),
        decreases n - i,
    {
        let (asked, device) = nvml_device(nvml, indices[i]);
        let memory = match device {
            Some(d) => nvml_memory(&d),
            None => None,
        };
        r.push((asked, memory));
        i = i + 1;
    }
    assert(indices@.take(n as int) =~= indices@);
    r
}

/// The total memory of each reading (see `totals_of`).
pub fn reading_totals(readings: &Vec<DriverReading>) -> (r: Vec<Option<u64>>)
    ensures
        r@ == totals_of(readings@),
{
    let mut r: Vec<Option<u64>> = Vec::new();
    let n = readings.len();
    let mut i: usize = 0;
    while i < n
        invariant
            n == readings@.len(),
            i <= n,
            r@ == totals_of(readings@.take(i as int)),
        decreases n - i,
    {
        let t = match readings[i].1 {
            Some((t, _)) => Some(t),
            None => None,
        };
        r.push(t);
        i = i + 1;
        assert(r@ =~= totals_of(readings@.take(i as int)));
    }
    assert(readings@.take(n as int) =~= readings@);
    r
}

/// The free memory of each reading (see `frees_of`).
pub fn reading_frees(readings: &Vec<DriverReading>) -> (r: Vec<Option<u64>>)
    ensures
        r@ == frees_of(readings@),
{
    let mut r: Vec<Option<u64>> = Vec::new();
    let n = readings.len();
    let mut i: usize = 0;
    while i < n
        invariant
            n == readings@.len(),
            i <= n,
            r@ == frees_of(readings@.take(i as int)),
        decreases n - i,
    {
        let f = match readings[i].1 {
            Some((_, f)) => Some(f),
            None => None,
        };
        r.push(f);
        i = i + 1;
        assert(r@ =~= frees_of(readings@.take(i as int)));
    }
    assert(readings@.take(n as int) =~= readings@);
    r
}

/// A device's total and free memory in bytes (`Device::memory_info`).
#[verifier::external_body]
fn nvml_memory(device: &nvml_wrapper::Device) -> Option<(u64, u64)> {
    device.memory_info().ok().map(|m| (m.total, m.free))
}

/// The current monotonic instant (`Instant::now`).
#[verifier::external_body]
fn instant_now() -> std::time::Instant {
    std::time::Instant::now()
}

/// Whole seconds elapsed since an instant (`Instant::elapsed`, `Duration::as_secs`).
#[verifier::external_body]
fn elapsed_secs(since: &std::time::Instant) -> u64 {
    since.elapsed().as_secs()
}

/// Minimum seconds between two readings of live VRAM.
pub const VRAM_REFRESH_COOLDOWN_SECS: u64 = 10;

/// Whether a reading taken `elapsed` whole seconds ago is old enough to take a new one.
pub fn cooldown_over(elapsed: u64) -> (r: bool)
    ensures
        r == (elapsed >= VRAM_REFRESH_COOLDOWN_SECS),
{
    elapsed >= VRAM_REFRESH_COOLDOWN_SECS
}

/// The budget of one device.
#[derive(Clone, Debug)]
pub struct GpuBudget {
    pub index: u32,
    pub total_vram: u64,
    pub allocated_vram: u64,
    /// Number of jobs currently assigned to this device.
    pub job_count: u32,
    /// Free memory the driver last reported.
    pub live_free_vram: Option<u64>,
}

impl GpuBudget {
    /// Budget headroom: total minus allocated, never below zero.
    pub open spec fn free_spec(self) -> int {
        if self.total_vram >= self.allocated_vram {
            self.total_vram - self.allocated_vram
        } else {
            0
        }
    }

    /// The lower of budget headroom and live free memory.
    pub open spec fn effective_spec(self) -> int {
        match self.live_free_vram {
            Some(live) => if live < self.free_spec() {
                live as int
            } else {
                self.free_spec()
            },
            None => self.free_spec(),
        }
    }

    /// Budget headroom.
    pub fn free_vram(&self) -> (r: u64)
        ensures
            r == self.free_spec(),
    {
        self.total_vram.saturating_sub(self.allocated_vram)
    }

    /// Effective free memory.
    pub fn effective_free_vram(&self) -> (r: u64)
        ensures
            r == self.effective_spec(),
    {
        let budget = self.free_vram();
        match self.live_free_vram {
            Some(live) => if live < budget {
                live
            } else {
                budget
            },
            None => budget,
        }
    }
}

/// A device that can hold a job, as the assignment policy sees it.
#[derive(Clone, Copy, Debug)]
pub struct Candidate {
    pub index: u32,
    pub free: u64,
    pub job_count: u32,
    pub packed: bool,
}

impl Ranked for Candidate {
    /// Packed: lowest index first. Least-loaded: most effective free memory first.
    open spec fn rank(&self) -> (int, int) {
        if self.packed {
            (self.index as int, 0)
        } else {
            (-(self.free as int), 0)
        }
    }

    fn ranks_before(&self, other: &Candidate) -> (r: bool) {
        let a: i128 = if self.packed {
            self.index as i128
        } else {
            -(self.free as i128)
        };
        let b: i128 = if other.packed {
            other.index as i128
        } else {
            -(other.free as i128)
        };
        a < b
    }
}

/// The candidate for a device.
pub open spec fn candidate_of(d: GpuBudget, packed: bool) -> Candidate {
    Candidate { index: d.index, free: d.effective_spec() as u64, job_count: d.job_count, packed }
}

/// The devices with at least `vram` effective free memory, in device order.
pub open spec fn candidates(devices: Seq<GpuBudget>, packed: bool, vram: u64) -> Seq<Candidate>
    decreases devices.len(),
{
    if devices.len() == 0 {
        Seq::empty()
    } else {
        let rest = candidates(devices.drop_last(), packed, vram);
        if devices.last().effective_spec() >= vram {
            rest.push(candidate_of(devices.last(), packed))
        } else {
            rest
        }
    }
}

/// The device indices a job asking for `count` devices with `vram` each gets: the first
/// `count` candidates in policy order, or nothing when there are too few.
pub open spec fn selection(devices: Seq<GpuBudget>, packed: bool, count: nat, vram: u64) -> Option<Seq<u32>> {
    let c = candidates(devices, packed, vram);
    if c.len() < count {
        None
    } else {
        Some(ranked_sort(c).take(count as int).map_values(|c: Candidate| c.index))
    }
}

/// Every candidate stands for a device with enough effective free memory.
pub proof fn lemma_candidates_fit(devices: Seq<GpuBudget>, packed: bool, vram: u64)
    ensures
        forall|i: int| 0 <= i < candidates(devices, packed, vram).len() ==> exists|k: int|
            0 <= k < devices.len() && #[trigger] candidates(devices, packed, vram)[i] == candidate_of(
                devices[k],
                packed,
            ) && devices[k].effective_spec() >= vram,
        candidates(devices, packed, vram).len() <= devices.len(),
    decreases devices.len(),
{
    if devices.len() > 0 {
        let t = devices.drop_last();
        lemma_candidates_fit(t, packed, vram);
        let c = candidates(devices, packed, vram);
        let ct = candidates(t, packed, vram);
        assert forall|i: int| 0 <= i < c.len() implies exists|k: int|
            0 <= k < devices.len() && #[trigger] c[i] == candidate_of(devices[k], packed)
                && devices[k].effective_spec() >= vram by {
            if i < ct.len() {
                let k = choose|k: int|
                    0 <= k < t.len() && #[trigger] ct[i] == candidate_of(t[k], packed) && t[k].effective_spec()
                        >= vram;
                assert(devices[k] == t[k]);
            } else {
                assert(c[i] == candidate_of(devices[devices.len() - 1], packed));
            }
        }
    }
}

/// The device indices chosen from `devices` for `count` devices of `vram` each.
pub fn select_devices(devices: &Vec<GpuBudget>, packed: bool, count: u32, vram: u64) -> (r: Option<Vec<u32>>)
    ensures
        match selection(devices@, packed, count as nat, vram) {
            Some(s) => r matches Some(v) && v@ == s,
            None => r is None,
        },
        r matches Some(v) ==> v@.len() == count,
        r is Some <==> devices@.filter(|d: GpuBudget| d.effective_spec() >= vram).len() >= count,
{
    proof {
        law_selection_complete(devices@, packed, count as nat, vram);
    }
    let mut cands: Vec<Candidate> = Vec::new();
    let n = devices.len();
    let mut i: usize = 0;
    while i < n
        invariant
            n == devices@.len(),
            i <= n,
            cands@ == candidates(devices@.take(i as int), packed, vram),
        decreases n - i,
    {
        let d = &devices[i];
        let eff = d.effective_free_vram();
        proof {
            assert(devices@.take(i + 1).drop_last() =~= devices@.take(i as int));
            assert(devices@.take(i + 1).last() == devices@[i as int]);
        }
        if eff >= vram {
            cands.push(Candidate { index: d.index, free: eff, job_count: d.job_count, packed });
        }
        i = i + 1;
    }
    assert(devices@.take(n as int) =~= devices@);
    if cands.len() < count as usize {
        return None;
    }
    let sorted = sort_ranked(cands);
    proof {
        crate::order::lemma_ranked_sort(candidates(devices@, packed, vram));
    }
    let mut out: Vec<u32> = Vec::new();
    let mut j: usize = 0;
    while j < count as usize
        invariant
            j <= count,
            count <= sorted@.len(),
            out@ == sorted@.take(j as int).map_values(|c: Candidate| c.index),
        decreases count - j,
    {
        out.push(sorted[j].index);
        j = j + 1;
        assert(out@ =~= sorted@.take(j as int).map_values(|c: Candidate| c.index));
    }
    Some(out)
}

/// The device carries the given index.
pub open spec fn device_has_index(idx: u32) -> spec_fn(GpuBudget) -> bool {
    |d: GpuBudget| d.index == idx
}

/// `devices` after granting `vram` more to the first device with index `idx`.
pub open spec fn allocated_once(devices: Seq<GpuBudget>, idx: u32, vram: u64) -> Seq<GpuBudget> {
    match first_match(devices, device_has_index(idx)) {
        Some(i) => devices.update(
            i,
            GpuBudget {
                allocated_vram: if devices[i].allocated_vram + vram <= u64::MAX {
                    (devices[i].allocated_vram + vram) as u64
                } else {
                    u64::MAX
                },
                job_count: if devices[i].job_count + 1 <= u32::MAX {
                    (devices[i].job_count + 1) as u32
                } else {
                    u32::MAX
                },
                ..devices[i]
            },
        ),
        None => devices,
    }
}

/// `devices` after taking `vram` back from the first device with index `idx`.
pub open spec fn released_once(devices: Seq<GpuBudget>, idx: u32, vram: u64) -> Seq<GpuBudget> {
    match first_match(devices, device_has_index(idx)) {
        Some(i) => devices.update(
            i,
            GpuBudget {
                allocated_vram: if devices[i].allocated_vram >= vram {
                    (devices[i].allocated_vram - vram) as u64
                } else {
                    0
                },
                job_count: if devices[i].job_count >= 1 {
                    (devices[i].job_count - 1) as u32
                } else {
                    0
                },
                ..devices[i]
            },
        ),
        None => devices,
    }
}

/// `devices` after granting `vram` on each listed index in turn.
pub open spec fn allocated_all(devices: Seq<GpuBudget>, indices: Seq<u32>, vram: u64) -> Seq<GpuBudget>
    decreases indices.len(),
{
    if indices.len() == 0 {
        devices
    } else {
        allocated_once(allocated_all(devices, indices.drop_last(), vram), indices.last(), vram)
    }
}

/// `devices` after taking `vram` back from each listed index in turn.
pub open spec fn released_all(devices: Seq<GpuBudget>, indices: Seq<u32>, vram: u64) -> Seq<GpuBudget>
    decreases indices.len(),
{
    if indices.len() == 0 {
        devices
    } else {
        released_once(released_all(devices, indices.drop_last(), vram), indices.last(), vram)
    }
}

/// Finds the position of the first device with the given index.
fn find_device(devices: &Vec<GpuBudget>, idx: u32) -> (r: Option<usize>)
    ensures
        r matches Some(j) ==> first_match(devices@, device_has_index(idx)) == Some(j as int) && j < devices@.len(),
        r is None ==> first_match(devices@, device_has_index(idx)) is None,
{
    let n = devices.len();
    let mut i: usize = 0;
    while i < n
        invariant
            n == devices@.len(),
            i <= n,
            forall|k: int| 0 <= k < i ==> !device_has_index(idx)(#[trigger] devices@[k]),
        decreases n - i,
    {
        if devices[i].index == idx {
            proof {
                lemma_first_match_at(devices@, device_has_index(idx), i as int);
            }
            return Some(i);
        }
        i = i + 1;
    }
    proof {
        lemma_first_match_none(devices@, device_has_index(idx));
    }
    None
}

/// The GPUs of the machine and their budgets.
pub struct GpuState {
    pub devices: Vec<GpuBudget>,
    /// Per-device totals from the configuration; when set they replace the driver's.
    pub vram_overrides: Option<Vec<u64>>,
    pub policy: String,
    pub device_env_var: String,
    /// When live VRAM was last read.
    pub last_vram_refresh: Option<std::time::Instant>,
}

/// The unchanging part of a device budget: all but the live reading.
pub open spec fn same_budget(a: GpuBudget, b: GpuBudget) -> bool {
    a.index == b.index && a.total_vram == b.total_vram && a.allocated_vram == b.allocated_vram
        && a.job_count == b.job_count
}

/// Device budgets that differ at most in their live readings.
pub open spec fn same_budgets(a: Seq<GpuBudget>, b: Seq<GpuBudget>) -> bool {
    a.len() == b.len() && forall|i: int| 0 <= i < a.len() ==> same_budget(#[trigger] a[i], b[i])
}

/// No two devices carry the same index.
pub open spec fn distinct_indices(devices: Seq<GpuBudget>) -> bool {
    forall|i: int, j: int|
        0 <= i < devices.len() && 0 <= j < devices.len() && i != j ==> (#[trigger] devices[i]).index
            != (#[trigger] devices[j]).index
}

/// Devices in increasing index order with nothing granted, no jobs and no live reading.
pub open spec fn unused_devices(devices: Seq<GpuBudget>) -> bool {
    &&& forall|i: int| 0 <= i < devices.len() ==> {
        &&& (#[trigger] devices[i]).allocated_vram == 0
        &&& devices[i].job_count == 0
        &&& devices[i].live_free_vram is None
    }
    &&& forall|i: int, j: int| 0 <= i < j < devices.len() ==> (#[trigger] devices[i]).index < (#[trigger] devices[j]).index
}

/// The budgets for the driver's readings of device totals: device `i` is scheduled on,
/// with its total and nothing allocated, when its reading `i` succeeded.
pub open spec fn driver_budgets(readings: Seq<Option<u64>>) -> Seq<GpuBudget>
    decreases readings.len(),
{
    if readings.len() == 0 {
        Seq::empty()
    } else {
        let rest = driver_budgets(readings.drop_last());
        match readings.last() {
            Some(t) => rest.push(
                GpuBudget {
                    index: (readings.len() - 1) as u32,
                    total_vram: t,
                    allocated_vram: 0,
                    job_count: 0,
                    live_free_vram: None,
                },
            ),
            None => rest,
        }
    }
}

/// Budgets from the driver are unused, with indices below the number of readings, in
/// increasing order.
pub proof fn lemma_driver_budgets(readings: Seq<Option<u64>>)
    requires
        readings.len() <= u32::MAX,
    ensures
        unused_devices(driver_budgets(readings)),
        forall|k: int| 0 <= k < driver_budgets(readings).len() ==> (#[trigger] driver_budgets(readings)[k]).index
            < readings.len(),
    decreases readings.len(),
{
    if readings.len() > 0 {
        lemma_driver_budgets(readings.drop_last());
    }
}

/// The budgets for the driver's readings of device totals (see `driver_budgets`).
pub fn budgets_from_readings(readings: &Vec<Option<u64>>) -> (r: Vec<GpuBudget>)
    requires
        readings@.len() <= u32::MAX,
    ensures
        r@ == driver_budgets(readings@),
        unused_devices(r@),
{
    let mut r: Vec<GpuBudget> = Vec::new();
    let mut i: usize = 0;
    assert(readings@.take(0) =~= Seq::<Option<u64>>::empty());
    while i < readings.len()
        invariant
            i <= readings@.len(),
            readings@.len() <= u32::MAX,
            r@ == driver_budgets(readings@.take(i as int)),
        decreases readings@.len() - i,
    {
        let ghost t = readings@.take(i + 1);
        assert(t.drop_last() =~= readings@.take(i as int));
        assert(t.last() == readings@[i as int]);
        match readings[i] {
            Some(total) => {
                r.push(
                    GpuBudget {
                        index: i as u32,
                        total_vram: total,
                        allocated_vram: 0,
                        job_count: 0,
                        live_free_vram: None,
                    },
                );
            },
            None => {},
        }
        i = i + 1;
    }
    assert(readings@.take(i as int) =~= readings@);
    proof {
        lemma_driver_budgets(readings@);
    }
    r
}

/// Budgets numbered 0, 1, ... from the given per-device totals, nothing allocated.
pub open spec fn budgets_from(totals: Seq<u64>) -> Seq<GpuBudget> {
    Seq::new(
        totals.len(),
        |i: int|
            GpuBudget {
                index: i as u32,
                total_vram: totals[i],
                allocated_vram: 0,
                job_count: 0,
                live_free_vram: None,
            },
    )
}

impl GpuState {
    /// The invariant of the GPU state: each device has an index of its own.
    pub open spec fn wf(&self) -> bool {
        distinct_indices(self.devices@)
    }

    /// The "packed" policy is in force.
    pub open spec fn packed(&self) -> bool {
        self.policy@ == "packed"@
    }

    /// Sets up GPU tracking from the configuration: finds the devices and takes a first
    /// reading of their free memory. Device indices are 32-bit, so at most 2^32 device
    /// totals can be configured.
    pub fn init(config: &GpuSchedulerConfig) -> (r: GpuState)
        requires
            config.vram_bytes matches Some(v) ==> v@.len() <= u32::MAX + 1,
        ensures
            r.wf(),
            r.policy@ == config.policy@,
            r.device_env_var@ == config.device_env_var@,
            r.vram_overrides is Some == config.vram_bytes is Some,
            config.vram_bytes matches Some(v) ==> r.vram_overrides->0@ == v@,
            config.vram_bytes matches Some(v) ==> same_budgets(r.devices@, budgets_from(v@)),
            config.vram_bytes is None ==> forall|i: int, j: int|
                0 <= i < j < r.devices@.len() ==> (#[trigger] r.devices@[i]).index < (#[trigger] r.devices@[j]).index,
            forall|i: int| 0 <= i < r.devices@.len() ==> (#[trigger] r.devices@[i]).allocated_vram == 0
                && r.devices@[i].job_count == 0,
    {
        let overrides = match &config.vram_bytes {
            Some(v) => Some(v.clone()),
            None => None,
        };
        proof {
            if config.vram_bytes is Some {
                assert(overrides->0@ =~= config.vram_bytes->0@);
            }
        }
        let devices = GpuState::detect_gpus(&overrides);
        let mut state = GpuState {
            devices,
            vram_overrides: overrides,
            policy: config.policy.clone(),
            device_env_var: config.device_env_var.clone(),
            last_vram_refresh: None,
        };
        proof {
            if config.vram_bytes is None {
                assert forall|i: int, j: int|
                    0 <= i < state.devices@.len() && 0 <= j < state.devices@.len() && i != j implies (
                    #[trigger] state.devices@[i]).index != (#[trigger] state.devices@[j]).index by {
                    if i < j {
                        assert(state.devices@[i].index < state.devices@[j].index);
                    } else {
                        assert(state.devices@[j].index < state.devices@[i].index);
                    }
                }
            } else {
                let v = config.vram_bytes->0@;
                assert forall|i: int, j: int|
                    0 <= i < state.devices@.len() && 0 <= j < state.devices@.len() && i != j implies (
                    #[trigger] state.devices@[i]).index != (#[trigger] state.devices@[j]).index by {
                    assert(budgets_from(v)[i].index == i as u32);
                    assert(budgets_from(v)[j].index == j as u32);
                }
            }
        }
        state.refresh_live_vram();
        state
    }

    /// The devices to schedule on: one per configured total when totals are configured,
    /// otherwise those the driver reports (none without a driver).
    pub fn detect_gpus(vram_overrides: &Option<Vec<u64>>) -> (r: Vec<GpuBudget>)
        ensures
            vram_overrides matches Some(v) ==> r@ == budgets_from(v@),
            vram_overrides is None ==> exists|readings: Seq<DriverReading>|
                #![trigger driver_budgets(totals_of(readings))]
                readings.len() <= u32::MAX && (forall|k: int| 0 <= k < readings.len() ==> (#[trigger] readings[k]).0
                    == k) && r@ == driver_budgets(totals_of(readings)),
            vram_overrides is None ==> unused_devices(r@),
    {
        match vram_overrides {
            Some(totals) => {
                let mut r: Vec<GpuBudget> = Vec::new();
                let mut i: usize = 0;
                while i < totals.len()
                    invariant
                        i <= totals@.len(),
                        totals@.len() <= u32::MAX + 1 || i <= totals@.len(),
                        r@ == budgets_from(totals@).take(i as int),
                    decreases totals@.len() - i,
                {
                    r.push(
                        GpuBudget {
                            index: i as u32,
                            total_vram: totals[i],
                            allocated_vram: 0,
                            job_count: 0,
                            live_free_vram: None,
                        },
                    );
                    i = i + 1;
                    assert(r@ =~= budgets_from(totals@).take(i as int));
                }
                assert(budgets_from(totals@).take(i as int) =~= budgets_from(totals@));
                r
            },
            None => {
                let nvml = match nvml_init() {
                    Some(n) => n,
                    None => {
                        assert(totals_of(Seq::<DriverReading>::empty()) =~= Seq::<Option<u64>>::empty());
                        assert(driver_budgets(Seq::<Option<u64>>::empty()) =~= Seq::<GpuBudget>::empty());
                        return Vec::new();
                    },
                };
                let count = match nvml_device_count(&nvml) {
                    Some(c) => c,
                    None => {
                        assert(totals_of(Seq::<DriverReading>::empty()) =~= Seq::<Option<u64>>::empty());
                        assert(driver_budgets(Seq::<Option<u64>>::empty()) =~= Seq::<GpuBudget>::empty());
                        return Vec::new();
                    },
                };
                let indices = index_range(count);
                let memory = driver_memory(&nvml, &indices);
                let readings = reading_totals(&memory);
                proof {
                    assert(memory@.len() <= u32::MAX);
                }
                budgets_from_readings(&readings)
            },
        }
    }

    /// Whether the cooldown since the last reading has passed.
    pub fn refresh_due(&self) -> (r: bool)
        ensures
            self.last_vram_refresh is None ==> r,
    {
        match &self.last_vram_refresh {
            Some(last) => cooldown_over(elapsed_secs(last)),
            None => true,
        }
    }

    /// Records driver readings: device `i` takes reading `i` when there is one.
    pub fn apply_live_readings(&mut self, readings: &Vec<Option<u64>>)
        requires
            readings@.len() == old(self).devices@.len(),
        ensures
            same_budgets(final(self).devices@, old(self).devices@),
            forall|i: int| 0 <= i < readings@.len() ==> (#[trigger] final(self).devices@[i]).live_free_vram == match readings@[i] {
                Some(v) => Some(v),
                None => old(self).devices@[i].live_free_vram,
            },
            final(self).policy == old(self).policy,
            final(self).device_env_var == old(self).device_env_var,
            final(self).vram_overrides == old(self).vram_overrides,
    {
        let n = self.devices.len();
        let mut i: usize = 0;
        while i < n
            invariant
                n == self.devices@.len(),
                n == readings@.len(),
                i <= n,
                same_budgets(self.devices@, old(self).devices@),
                forall|k: int| 0 <= k < i ==> (#[trigger] self.devices@[k]).live_free_vram == match readings@[k] {
                    Some(v) => Some(v),
                    None => old(self).devices@[k].live_free_vram,
                },
                forall|k: int| i <= k < n ==> (#[trigger] self.devices@[k]) == old(self).devices@[k],
                self.policy == old(self).policy,
                self.device_env_var == old(self).device_env_var,
                self.vram_overrides == old(self).vram_overrides,
            decreases n - i,
        {
            match readings[i] {
                Some(v) => {
                    let mut d = self.devices[i].clone();
                    d = GpuBudget {
                        index: self.devices[i].index,
                        total_vram: self.devices[i].total_vram,
                        allocated_vram: self.devices[i].allocated_vram,
                        job_count: self.devices[i].job_count,
                        live_free_vram: Some(v),
                    };
                    self.devices.set(i, d);
                },
                None => {},
            }
            i = i + 1;
        }
    }

    /// Reads the driver's free memory for every device, unless the last reading is less
    /// than the cooldown old or the driver is unavailable.
    pub fn refresh_live_vram(&mut self)
        ensures
            same_budgets(final(self).devices@, old(self).devices@),
            exists|readings: Seq<DriverReading>|
                #![trigger frees_of(readings)]
                asked_for(readings, old(self).devices@.map_values(|d: GpuBudget| d.index)) && forall|i: int|
                    0 <= i < final(self).devices@.len() ==> (#[trigger] final(self).devices@[i]).live_free_vram
                        == match frees_of(readings)[i] {
                        Some(v) => Some(v),
                        None => old(self).devices@[i].live_free_vram,
                    },
            final(self).last_vram_refresh is None ==> final(self).devices@ == old(self).devices@,
            old(self).last_vram_refresh is Some ==> final(self).last_vram_refresh is Some,
            final(self).policy == old(self).policy,
            final(self).device_env_var == old(self).device_env_var,
            final(self).vram_overrides == old(self).vram_overrides,
    {
        let ghost unread = old(self).devices@.map_values(|d: GpuBudget| (d.index, None::<(u64, u64)>));
        proof {
            assert(frees_of(unread) =~= Seq::new(unread.len(), |i: int| None::<u64>));
        }
        if !self.refresh_due() {
            return;
        }
        let nvml = match nvml_init() {
            Some(n) => n,
            None => return,
        };
        let indices = device_indices(&self.devices);
        let memory = driver_memory(&nvml, &indices);
        let readings = reading_frees(&memory);
        self.apply_live_readings(&readings);
        self.last_vram_refresh = Some(instant_now());
    }

    /// Chooses devices for a job that asks for `gpu_count` devices with `vram` each, after
    /// refreshing live readings (subject to the cooldown). No devices are needed for
    /// a job that asks for none; a machine without devices satisfies no other request.
    pub fn try_assign(&mut self, gpu_count: u32, vram: u64) -> (r: Option<Vec<u32>>)
        requires
            old(self).wf(),
        ensures
            final(self).wf(),
            r matches Some(v) ==> forall|a: int, b: int|
                0 <= a < v@.len() && 0 <= b < v@.len() && a != b ==> #[trigger] v@[a] != #[trigger] v@[b],
            same_budgets(final(self).devices@, old(self).devices@),
            final(self).policy == old(self).policy,
            final(self).device_env_var == old(self).device_env_var,
            final(self).vram_overrides == old(self).vram_overrides,
            gpu_count == 0 ==> (r matches Some(v) && v@.len() == 0),
            r matches Some(v) ==> v@.len() == gpu_count,
            gpu_count > 0 && old(self).devices@.len() == 0 ==> r is None,
            gpu_count > 0 ==> match selection(final(self).devices@, final(self).packed(), gpu_count as nat, vram) {
                Some(s) => r matches Some(v) && v@ == s,
                None => r is None,
            },
    {
        if gpu_count == 0 {
            return Some(Vec::new());
        }
        if self.devices.len() == 0 {
            proof {
                assert(candidates(self.devices@, self.packed(), vram) =~= Seq::<Candidate>::empty());
            }
            return None;
        }
        self.refresh_live_vram();
        let packed = str_equal(self.policy.as_str(), "packed");
        let r = select_devices(&self.devices, packed, gpu_count, vram);
        proof {
            assert forall|i: int, j: int|
                0 <= i < self.devices@.len() && 0 <= j < self.devices@.len() && i != j implies (
                #[trigger] self.devices@[i]).index != (#[trigger] self.devices@[j]).index by {
                assert(same_budget(self.devices@[i], old(self).devices@[i]));
                assert(same_budget(self.devices@[j], old(self).devices@[j]));
            }
            if r is Some {
                law_selection_distinct(self.devices@, packed, gpu_count as nat, vram);
            }
        }
        r
    }

    /// Grants `vram` on each listed device, counting one more job on it.
    pub fn allocate(&mut self, indices: &[u32], vram: u64)
        ensures
            final(self).devices@.len() == old(self).devices@.len(),
            forall|k: int| 0 <= k < final(self).devices@.len() ==> (#[trigger] final(self).devices@[k]).index
                == old(self).devices@[k].index,
            old(self).wf() ==> final(self).wf(),
            final(self).devices@ == allocated_all(old(self).devices@, indices@, vram),
            final(self).policy == old(self).policy,
            final(self).device_env_var == old(self).device_env_var,
            final(self).vram_overrides == old(self).vram_overrides,
    {
        let n = indices.len();
        let mut k: usize = 0;
        while k < n
            invariant
                n == indices@.len(),
                k <= n,
                self.devices@.len() == old(self).devices@.len(),
                forall|m: int| 0 <= m < self.devices@.len() ==> (#[trigger] self.devices@[m]).index
                    == old(self).devices@[m].index,
                self.devices@ == allocated_all(old(self).devices@, indices@.take(k as int), vram),
                self.policy == old(self).policy,
                self.device_env_var == old(self).device_env_var,
                self.vram_overrides == old(self).vram_overrides,
            decreases n - k,
        {
            let idx = indices[k];
            proof {
                assert(indices@.take(k + 1).drop_last() =~= indices@.take(k as int));
                assert(indices@.take(k + 1).last() == idx);
            }
            let ghost prev = self.devices@;
            match find_device(&self.devices, idx) {
                Some(i) => {
                    let d = GpuBudget {
                        index: self.devices[i].index,
                        total_vram: self.devices[i].total_vram,
                        allocated_vram: self.devices[i].allocated_vram.saturating_add(vram),
                        job_count: self.devices[i].job_count.saturating_add(1),
                        live_free_vram: self.devices[i].live_free_vram,
                    };
                    assert(first_match(prev, device_has_index(idx)) == Some(i as int));
                    self.devices.set(i, d);
                    assert(self.devices@[i as int] == allocated_once(prev, idx, vram)[i as int]);
                    assert(self.devices@ =~= allocated_once(prev, idx, vram));
                },
                None => {
                    assert(self.devices@ =~= allocated_once(prev, idx, vram));
                },
            }
            k = k + 1;
        }
        assert(indices@.take(n as int) =~= indices@);
    }

    /// Takes `vram` back from each listed device, counting one job less on it.
    pub fn release(&mut self, indices: &[u32], vram: u64)
        ensures
            final(self).devices@.len() == old(self).devices@.len(),
            forall|k: int| 0 <= k < final(self).devices@.len() ==> (#[trigger] final(self).devices@[k]).index
                == old(self).devices@[k].index,
            old(self).wf() ==> final(self).wf(),
            final(self).devices@ == released_all(old(self).devices@, indices@, vram),
            final(self).policy == old(self).policy,
            final(self).device_env_var == old(self).device_env_var,
            final(self).vram_overrides == old(self).vram_overrides,
    {
        let n = indices.len();
        let mut k: usize = 0;
        while k < n
            invariant
                n == indices@.len(),
                k <= n,
                self.devices@.len() == old(self).devices@.len(),
                forall|m: int| 0 <= m < self.devices@.len() ==> (#[trigger] self.devices@[m]).index
                    == old(self).devices@[m].index,
                self.devices@ == released_all(old(self).devices@, indices@.take(k as int), vram),
                self.policy == old(self).policy,
                self.device_env_var == old(self).device_env_var,
                self.vram_overrides == old(self).vram_overrides,
            decreases n - k,
        {
            let idx = indices[k];
            proof {
                assert(indices@.take(k + 1).drop_last() =~= indices@.take(k as int));
                assert(indices@.take(k + 1).last() == idx);
            }
            let ghost prev = self.devices@;
            match find_device(&self.devices, idx) {
                Some(i) => {
                    let d = GpuBudget {
                        index: self.devices[i].index,
                        total_vram: self.devices[i].total_vram,
                        allocated_vram: self.devices[i].allocated_vram.saturating_sub(vram),
                        job_count: self.devices[i].job_count.saturating_sub(1),
                        live_free_vram: self.devices[i].live_free_vram,
                    };
                    self.devices.set(i, d);
                    assert(self.devices@ =~= released_once(prev, idx, vram));
                },
                None => {
                    assert(self.devices@ =~= released_once(prev, idx, vram));
                },
            }
            k = k + 1;
        }
        assert(indices@.take(n as int) =~= indices@);
    }
}

/// Changing a device without changing its index leaves every index search as it was.
pub proof fn lemma_first_match_update(devices: Seq<GpuBudget>, i: int, d: GpuBudget, idx: u32)
    requires
        0 <= i < devices.len(),
        d.index == devices[i].index,
    ensures
        first_match(devices.update(i, d), device_has_index(idx)) == first_match(devices, device_has_index(idx)),
{
    let s = devices.update(i, d);
    lemma_first_match(devices, device_has_index(idx));
    assert forall|k: int| 0 <= k < s.len() implies device_has_index(idx)(#[trigger] s[k]) == device_has_index(idx)(devices[k]) by {}
    match first_match(devices, device_has_index(idx)) {
        Some(j) => {
            assert forall|k: int| 0 <= k < j implies !device_has_index(idx)(#[trigger] s[k]) by {
                assert(!device_has_index(idx)(devices[k]));
            }
            lemma_first_match_at(s, device_has_index(idx), j);
        },
        None => {
            assert forall|k: int| 0 <= k < s.len() implies !device_has_index(idx)(#[trigger] s[k]) by {
                assert(!device_has_index(idx)(devices[k]));
            }
            lemma_first_match_none(s, device_has_index(idx));
        },
    }
}

/// The device a grant for `idx` lands on has room for it without saturating.
pub open spec fn grant_fits(devices: Seq<GpuBudget>, idx: u32, vram: u64) -> bool {
    match first_match(devices, device_has_index(idx)) {
        Some(i) => devices[i].allocated_vram + vram <= u64::MAX && devices[i].job_count < u32::MAX,
        None => true,
    }
}

/// Taking back a grant just made restores the device.
pub proof fn lemma_release_once_undoes(devices: Seq<GpuBudget>, idx: u32, vram: u64)
    requires
        grant_fits(devices, idx, vram),
    ensures
        released_once(allocated_once(devices, idx, vram), idx, vram) == devices,
{
    lemma_first_match(devices, device_has_index(idx));
    match first_match(devices, device_has_index(idx)) {
        Some(i) => {
            let a = allocated_once(devices, idx, vram);
            lemma_first_match_update(devices, i, a[i], idx);
            assert(released_once(a, idx, vram) =~= devices);
        },
        None => {},
    }
}

/// Grants and releases on different device indices do not interfere.
pub proof fn lemma_once_commute(devices: Seq<GpuBudget>, x: u32, y: u32, vram: u64)
    requires
        x != y,
    ensures
        released_once(allocated_once(devices, x, vram), y, vram) == allocated_once(released_once(devices, y, vram), x, vram),
{
    lemma_first_match(devices, device_has_index(x));
    lemma_first_match(devices, device_has_index(y));
    let fx = first_match(devices, device_has_index(x));
    let fy = first_match(devices, device_has_index(y));
    let a = allocated_once(devices, x, vram);
    let r = released_once(devices, y, vram);
    if fx is Some {
        lemma_first_match_update(devices, fx->0, a[fx->0], y);
    }
    if fy is Some {
        lemma_first_match_update(devices, fy->0, r[fy->0], x);
    }
    if fx is Some && fy is Some {
        assert(fx->0 != fy->0);
    }
    assert(released_once(a, y, vram) =~= allocated_once(r, x, vram));
}

/// Releasing on indices other than `x` commutes with a grant on `x`.
pub proof fn lemma_release_all_commute(devices: Seq<GpuBudget>, indices: Seq<u32>, x: u32, vram: u64)
    requires
        !indices.contains(x),
    ensures
        released_all(allocated_once(devices, x, vram), indices, vram) == allocated_once(released_all(devices, indices, vram), x, vram),
    decreases indices.len(),
{
    if indices.len() > 0 {
        let init = indices.drop_last();
        assert(!init.contains(x)) by {
            if init.contains(x) {
                let k = choose|k: int| 0 <= k < init.len() && init[k] == x;
                assert(indices[k] == x);
            }
        }
        lemma_release_all_commute(devices, init, x, vram);
        assert(indices.last() != x) by {
            assert(indices[indices.len() - 1] == indices.last());
        }
        lemma_once_commute(released_all(devices, init, vram), x, indices.last(), vram);
    }
}

/// Granting never changes which position holds a device index.
pub proof fn lemma_allocate_keeps_search(devices: Seq<GpuBudget>, indices: Seq<u32>, vram: u64, idx: u32)
    ensures
        first_match(allocated_all(devices, indices, vram), device_has_index(idx)) == first_match(devices, device_has_index(idx)),
        allocated_all(devices, indices, vram).len() == devices.len(),
    decreases indices.len(),
{
    if indices.len() > 0 {
        let prev = allocated_all(devices, indices.drop_last(), vram);
        lemma_allocate_keeps_search(devices, indices.drop_last(), vram, idx);
        let x = indices.last();
        lemma_first_match(prev, device_has_index(x));
        match first_match(prev, device_has_index(x)) {
            Some(i) => {
                lemma_first_match_update(prev, i, allocated_once(prev, x, vram)[i], idx);
            },
            None => {},
        }
    }
}

/// Granting on other indices leaves a device's budget where `idx` searches unchanged.
pub proof fn lemma_allocate_other_device(devices: Seq<GpuBudget>, indices: Seq<u32>, vram: u64, idx: u32)
    requires
        !indices.contains(idx),
    ensures
        first_match(devices, device_has_index(idx)) matches Some(i) ==> allocated_all(devices, indices, vram)[i] == devices[i],
    decreases indices.len(),
{
    if indices.len() > 0 {
        let init = indices.drop_last();
        assert(!init.contains(idx)) by {
            if init.contains(idx) {
                let k = choose|k: int| 0 <= k < init.len() && init[k] == idx;
                assert(indices[k] == idx);
            }
        }
        lemma_allocate_other_device(devices, init, vram, idx);
        lemma_allocate_keeps_search(devices, init, vram, idx);
        let prev = allocated_all(devices, init, vram);
        let x = indices.last();
        assert(x != idx) by {
            assert(indices[indices.len() - 1] == x);
        }
        lemma_first_match(prev, device_has_index(x));
        lemma_first_match(prev, device_has_index(idx));
        lemma_first_match(devices, device_has_index(idx));
        match (first_match(prev, device_has_index(x)), first_match(devices, device_has_index(idx))) {
            (Some(j), Some(i)) => {
                assert(j != i);
            },
            _ => {},
        }
    }
}

/// Law: giving back a job's GPUs undoes granting them: after granting `vram` on each of
/// some distinct device indices and then taking it back, every budget is as before (when
/// no grant saturates a counter).
pub proof fn law_release_undoes_allocate(devices: Seq<GpuBudget>, indices: Seq<u32>, vram: u64)
    requires
        indices.no_duplicates(),
        forall|k: int| 0 <= k < indices.len() ==> grant_fits(devices, #[trigger] indices[k], vram),
    ensures
        released_all(allocated_all(devices, indices, vram), indices, vram) == devices,
    decreases indices.len(),
{
    if indices.len() > 0 {
        let init = indices.drop_last();
        let x = indices.last();
        assert(init.no_duplicates());
        assert(!init.contains(x)) by {
            if init.contains(x) {
                let k = choose|k: int| 0 <= k < init.len() && init[k] == x;
                assert(indices[k] == indices[indices.len() - 1]);
            }
        }
        assert forall|k: int| 0 <= k < init.len() implies grant_fits(devices, #[trigger] init[k], vram) by {
            assert(init[k] == indices[k]);
        }
        law_release_undoes_allocate(devices, init, vram);
        let a = allocated_all(devices, init, vram);
        // the release of `init` commutes with the grant on `x`
        lemma_release_all_commute(a, init, x, vram);
        // the grant on `x` lands on a device that the earlier grants did not touch
        lemma_allocate_keeps_search(devices, init, vram, x);
        lemma_allocate_other_device(devices, init, vram, x);
        let r = released_all(a, init, vram);
        assert(r == devices);
        assert(grant_fits(devices, indices[indices.len() - 1], vram));
        lemma_release_once_undoes(devices, x, vram);
    }
}

/// Law: every device chosen for a job has at least the VRAM the job asks for, and exactly
/// as many devices are chosen as it asks for.
pub proof fn law_selection_fits(devices: Seq<GpuBudget>, packed: bool, count: nat, vram: u64)
    requires
        selection(devices, packed, count, vram) is Some,
    ensures
        selection(devices, packed, count, vram)->0.len() == count,
        forall|j: int| 0 <= j < count ==> exists|k: int|
            0 <= k < devices.len() && devices[k].index == #[trigger] selection(devices, packed, count, vram)->0[j]
                && devices[k].effective_spec() >= vram,
{
    let c = candidates(devices, packed, vram);
    let sorted = ranked_sort(c);
    crate::order::lemma_ranked_sort(c);
    lemma_candidates_fit(devices, packed, vram);
    let s = selection(devices, packed, count, vram)->0;
    assert forall|j: int| 0 <= j < count implies exists|k: int|
        0 <= k < devices.len() && devices[k].index == #[trigger] s[j] && devices[k].effective_spec() >= vram by {
        let e = sorted[j];
        assert(s[j] == e.index);
        assert(sorted.contains(e)) by {
            assert(sorted[j] == e);
        }
        vstd::seq_lib::to_multiset_contains(sorted, e);
        vstd::seq_lib::to_multiset_contains(c, e);
        let m = choose|m: int| 0 <= m < c.len() && c[m] == e;
        let k = choose|k: int|
            0 <= k < devices.len() && #[trigger] c[m] == candidate_of(devices[k], packed) && devices[k].effective_spec() >= vram;
        assert(devices[k].index == e.index);
    }
}

/// Candidates come from distinct devices, so no two carry the same index when no two
/// devices do.
proof fn lemma_candidates_distinct(devices: Seq<GpuBudget>, packed: bool, vram: u64)
    requires
        distinct_indices(devices),
    ensures
        forall|i: int, j: int|
            0 <= i < candidates(devices, packed, vram).len() && 0 <= j < candidates(devices, packed, vram).len()
                && i != j ==> (#[trigger] candidates(devices, packed, vram)[i]).index != (
            #[trigger] candidates(devices, packed, vram)[j]).index,
    decreases devices.len(),
{
    if devices.len() > 0 {
        let t = devices.drop_last();
        assert forall|i: int, j: int| 0 <= i < t.len() && 0 <= j < t.len() && i != j implies (
        #[trigger] t[i]).index != (#[trigger] t[j]).index by {
            assert(t[i] == devices[i] && t[j] == devices[j]);
        }
        lemma_candidates_distinct(t, packed, vram);
        lemma_candidates_fit(t, packed, vram);
        let c = candidates(devices, packed, vram);
        let ct = candidates(t, packed, vram);
        let last = devices.len() - 1;
        assert forall|i: int| 0 <= i < ct.len() implies (#[trigger] ct[i]).index != devices[last].index by {
            let k = choose|k: int|
                0 <= k < t.len() && #[trigger] ct[i] == candidate_of(t[k], packed) && t[k].effective_spec() >= vram;
            assert(t[k] == devices[k]);
        }
        assert forall|i: int, j: int| 0 <= i < c.len() && 0 <= j < c.len() && i != j implies (
        #[trigger] c[i]).index != (#[trigger] c[j]).index by {
            if i < ct.len() && j < ct.len() {
                assert(c[i] == ct[i] && c[j] == ct[j]);
            } else if i < ct.len() {
                assert(c[i] == ct[i]);
                assert(c[j] == candidate_of(devices[last], packed));
            } else {
                assert(c[j] == ct[j]);
                assert(c[i] == candidate_of(devices[last], packed));
            }
        }
    }
}

/// Law: when no two devices share an index, no device is chosen twice for one job.
pub proof fn law_selection_distinct(devices: Seq<GpuBudget>, packed: bool, count: nat, vram: u64)
    requires
        distinct_indices(devices),
        selection(devices, packed, count, vram) is Some,
    ensures
        forall|a: int, b: int|
            0 <= a < count && 0 <= b < count && a != b ==> #[trigger] selection(devices, packed, count, vram)->0[a]
                != #[trigger] selection(devices, packed, count, vram)->0[b],
{
    let c = candidates(devices, packed, vram);
    let sorted = ranked_sort(c);
    crate::order::lemma_ranked_sort(c);
    lemma_candidates_distinct(devices, packed, vram);
    let s = selection(devices, packed, count, vram)->0;
    assert forall|i: int, j: int| 0 <= i < c.len() && 0 <= j < c.len() && i != j implies c[i] != c[j] by {
        assert(c[i].index != c[j].index);
    }
    c.lemma_multiset_has_no_duplicates();
    sorted.lemma_multiset_has_no_duplicates_conv();
    assert forall|a: int, b: int| 0 <= a < count && 0 <= b < count && a != b implies #[trigger] s[a] != #[trigger] s[b] by {
        assert(s[a] == sorted[a].index && s[b] == sorted[b].index);
        assert(sorted.contains(sorted[a]));
        assert(sorted.contains(sorted[b]));
        vstd::seq_lib::to_multiset_contains(sorted, sorted[a]);
        vstd::seq_lib::to_multiset_contains(sorted, sorted[b]);
        vstd::seq_lib::to_multiset_contains(c, sorted[a]);
        vstd::seq_lib::to_multiset_contains(c, sorted[b]);
        let ma = choose|m: int| 0 <= m < c.len() && c[m] == sorted[a];
        let mb = choose|m: int| 0 <= m < c.len() && c[m] == sorted[b];
        if ma != mb {
            assert(c[ma].index != c[mb].index);
        } else {
            assert(sorted[a] != sorted[b]);
        }
    }
}

/// As many devices are candidates as have at least `vram` effective free memory.
proof fn lemma_candidates_count(devices: Seq<GpuBudget>, packed: bool, vram: u64)
    ensures
        candidates(devices, packed, vram).len() == devices.filter(|d: GpuBudget| d.effective_spec() >= vram).len(),
    decreases devices.len(),
{
    reveal_with_fuel(Seq::<GpuBudget>::filter, 1);
    if devices.len() > 0 {
        lemma_candidates_count(devices.drop_last(), packed, vram);
    }
}

/// Law: devices are selected for a job exactly when at least as many devices as it asks
/// for have at least the VRAM it asks for free (effectively: also by the live reading),
/// a device with exactly that much included.
pub proof fn law_selection_complete(devices: Seq<GpuBudget>, packed: bool, count: nat, vram: u64)
    ensures
        selection(devices, packed, count, vram) is Some <==> devices.filter(
            |d: GpuBudget| d.effective_spec() >= vram,
        ).len() >= count,
{
    lemma_candidates_count(devices, packed, vram);
}

/// Every device with at least `vram` effective free memory is a candidate.
proof fn lemma_fitting_device_is_candidate(devices: Seq<GpuBudget>, packed: bool, vram: u64, k: int)
    requires
        0 <= k < devices.len(),
        devices[k].effective_spec() >= vram,
    ensures
        exists|p: int|
            0 <= p < candidates(devices, packed, vram).len() && #[trigger] candidates(devices, packed, vram)[p]
                == candidate_of(devices[k], packed),
    decreases devices.len(),
{
    let t = devices.drop_last();
    let c = candidates(devices, packed, vram);
    let ct = candidates(t, packed, vram);
    if k == devices.len() - 1 {
        assert(c[ct.len() as int] == candidate_of(devices[k], packed));
    } else {
        lemma_fitting_device_is_candidate(t, packed, vram, k);
        let p = choose|p: int| 0 <= p < ct.len() && #[trigger] ct[p] == candidate_of(t[k], packed);
        assert(c[p] == ct[p]);
        assert(t[k] == devices[k]);
    }
}

/// The `j`th selected device is a fitting device, and the device `k`, if it fits, comes
/// no earlier in the policy's order unless it was selected too.
proof fn lemma_selected_ranks_first(devices: Seq<GpuBudget>, packed: bool, count: nat, vram: u64, j: int, k: int)
    requires
        selection(devices, packed, count, vram) is Some,
        0 <= j < count,
        0 <= k < devices.len(),
        devices[k].effective_spec() >= vram,
        !selection(devices, packed, count, vram)->0.contains(devices[k].index),
    ensures
        exists|kj: int|
            0 <= kj < devices.len() && #[trigger] devices[kj].index == selection(devices, packed, count, vram)->0[j]
                && devices[kj].effective_spec() >= vram && !rank_lt(
                candidate_of(devices[k], packed).rank(),
                candidate_of(devices[kj], packed).rank(),
            ),
{
    let c = candidates(devices, packed, vram);
    let sorted = ranked_sort(c);
    let sel = selection(devices, packed, count, vram)->0;
    crate::order::lemma_ranked_sort(c);
    lemma_candidates_fit(devices, packed, vram);
    lemma_fitting_device_is_candidate(devices, packed, vram, k);
    let p = choose|p: int| 0 <= p < c.len() && #[trigger] c[p] == candidate_of(devices[k], packed);
    assert(c.contains(c[p]));
    vstd::seq_lib::to_multiset_contains(c, c[p]);
    vstd::seq_lib::to_multiset_contains(sorted, c[p]);
    let ps = choose|q: int| 0 <= q < sorted.len() && sorted[q] == c[p];
    if ps < count {
        assert(sel[ps] == devices[k].index);
        assert(false);
    }
    assert(sel[j] == sorted[j].index);
    assert(sorted.contains(sorted[j]));
    vstd::seq_lib::to_multiset_contains(sorted, sorted[j]);
    vstd::seq_lib::to_multiset_contains(c, sorted[j]);
    let m = choose|m: int| 0 <= m < c.len() && c[m] == sorted[j];
    let kj = choose|kj: int|
        0 <= kj < devices.len() && #[trigger] c[m] == candidate_of(devices[kj], packed) && devices[kj].effective_spec() >= vram;
    assert(!rank_lt(sorted[ps].rank(), sorted[j].rank()));
    assert(devices[kj].index == sel[j]);
}

/// Law: the devices selected are the best that fit. A fitting device left out has a
/// higher index than every selected one under the packed policy, and no more effective
/// free memory than any selected one under least-loaded.
pub proof fn law_selection_prefers_best(devices: Seq<GpuBudget>, packed: bool, count: nat, vram: u64, j: int, k: int)
    requires
        selection(devices, packed, count, vram) is Some,
        0 <= j < count,
        0 <= k < devices.len(),
        devices[k].effective_spec() >= vram,
        !selection(devices, packed, count, vram)->0.contains(devices[k].index),
    ensures
        packed ==> selection(devices, packed, count, vram)->0[j] < devices[k].index,
        !packed ==> exists|kj: int|
            0 <= kj < devices.len() && #[trigger] devices[kj].index == selection(devices, packed, count, vram)->0[j]
                && devices[kj].effective_spec() >= devices[k].effective_spec(),
{
    lemma_selected_ranks_first(devices, packed, count, vram, j, k);
    let sel = selection(devices, packed, count, vram)->0;
    let kj = choose|kj: int|
        0 <= kj < devices.len() && #[trigger] devices[kj].index == sel[j] && devices[kj].effective_spec() >= vram
            && !rank_lt(candidate_of(devices[k], packed).rank(), candidate_of(devices[kj], packed).rank());
    crate::order::lemma_ranked_sort(candidates(devices, packed, vram));
    assert(sel.len() == count);
    assert(sel.contains(sel[j]));
    assert(devices[kj].index != devices[k].index);
    assert(0 <= devices[k].effective_spec() <= u64::MAX);
    assert(0 <= devices[kj].effective_spec() <= u64::MAX);
}

/// Law: under least-loaded the selected devices come with the most effective free memory
/// first.
pub proof fn law_least_loaded_most_free_first(devices: Seq<GpuBudget>, count: nat, vram: u64, a: int, b: int)
    requires
        selection(devices, false, count, vram) is Some,
        0 <= a < b < count,
    ensures
        exists|ka: int, kb: int|
            0 <= ka < devices.len() && 0 <= kb < devices.len() && #[trigger] devices[ka].index == selection(
                devices,
                false,
                count,
                vram,
            )->0[a] && #[trigger] devices[kb].index == selection(devices, false, count, vram)->0[b]
                && devices[ka].effective_spec() >= devices[kb].effective_spec(),
{
    let c = candidates(devices, false, vram);
    let sorted = ranked_sort(c);
    let sel = selection(devices, false, count, vram)->0;
    crate::order::lemma_ranked_sort(c);
    lemma_candidates_fit(devices, false, vram);
    assert(sorted.contains(sorted[a]));
    assert(sorted.contains(sorted[b]));
    vstd::seq_lib::to_multiset_contains(sorted, sorted[a]);
    vstd::seq_lib::to_multiset_contains(sorted, sorted[b]);
    vstd::seq_lib::to_multiset_contains(c, sorted[a]);
    vstd::seq_lib::to_multiset_contains(c, sorted[b]);
    let ma = choose|m: int| 0 <= m < c.len() && c[m] == sorted[a];
    let mb = choose|m: int| 0 <= m < c.len() && c[m] == sorted[b];
    let ka = choose|k: int|
        0 <= k < devices.len() && #[trigger] c[ma] == candidate_of(devices[k], false) && devices[k].effective_spec() >= vram;
    let kb = choose|k: int|
        0 <= k < devices.len() && #[trigger] c[mb] == candidate_of(devices[k], false) && devices[k].effective_spec() >= vram;
    assert(!rank_lt(sorted[b].rank(), sorted[a].rank()));
    assert(sel[a] == sorted[a].index && sel[b] == sorted[b].index);
    assert(0 <= devices[ka].effective_spec() <= u64::MAX);
    assert(0 <= devices[kb].effective_spec() <= u64::MAX);
    assert(devices[ka].index == sel[a] && devices[kb].index == sel[b]);
}

/// Law: under the packed policy the chosen devices come in increasing index order, so the
/// lowest-indexed devices that fit are preferred.
pub proof fn law_packed_prefers_low_indices(devices: Seq<GpuBudget>, count: nat, vram: u64)
    requires
        selection(devices, true, count, vram) is Some,
    ensures
        forall|a: int, b: int| 0 <= a < b < count ==> #[trigger] selection(devices, true, count, vram)->0[a]
            <= #[trigger] selection(devices, true, count, vram)->0[b],
{
    let c = candidates(devices, true, vram);
    let sorted = ranked_sort(c);
    crate::order::lemma_ranked_sort(c);
    lemma_candidates_packed(devices, vram);
    let s = selection(devices, true, count, vram)->0;
    assert forall|a: int, b: int| 0 <= a < b < count implies #[trigger] s[a] <= #[trigger] s[b] by {
        assert(!rank_lt(sorted[b].rank(), sorted[a].rank()));
        assert(sorted.contains(sorted[a]));
        assert(sorted.contains(sorted[b]));
        vstd::seq_lib::to_multiset_contains(sorted, sorted[a]);
        vstd::seq_lib::to_multiset_contains(sorted, sorted[b]);
        vstd::seq_lib::to_multiset_contains(c, sorted[a]);
        vstd::seq_lib::to_multiset_contains(c, sorted[b]);
        let ma = choose|m: int| 0 <= m < c.len() && c[m] == sorted[a];
        let mb = choose|m: int| 0 <= m < c.len() && c[m] == sorted[b];
        assert(c[ma].packed && c[mb].packed);
    }
}

/// Candidates made under the packed policy are all marked packed.
pub proof fn lemma_candidates_packed(devices: Seq<GpuBudget>, vram: u64)
    ensures
        forall|i: int| 0 <= i < candidates(devices, true, vram).len() ==> (#[trigger] candidates(devices, true, vram)[i]).packed,
    decreases devices.len(),
{
    if devices.len() > 0 {
        lemma_candidates_packed(devices.drop_last(), vram);
        let rest = candidates(devices.drop_last(), true, vram);
        let all = candidates(devices, true, vram);
        assert forall|i: int| 0 <= i < all.len() implies (#[trigger] all[i]).packed by {
            if i < rest.len() {
                assert(all[i] == rest[i]);
            }
        }
    }
}

/// Budgets that agree but for live readings stay so after the same grant.
pub proof fn lemma_allocated_same(a: Seq<GpuBudget>, b: Seq<GpuBudget>, indices: Seq<u32>, vram: u64)
    requires
        same_budgets(a, b),
    ensures
        same_budgets(allocated_all(a, indices, vram), allocated_all(b, indices, vram)),
    decreases indices.len(),
{
    if indices.len() > 0 {
        lemma_allocated_same(a, b, indices.drop_last(), vram);
        let a1 = allocated_all(a, indices.drop_last(), vram);
        let b1 = allocated_all(b, indices.drop_last(), vram);
        let x = indices.last();
        lemma_first_match(a1, device_has_index(x));
        lemma_first_match(b1, device_has_index(x));
        match first_match(a1, device_has_index(x)) {
            Some(i) => {
                assert(b1[i].index == a1[i].index);
                assert forall|k: int| 0 <= k < i implies !device_has_index(x)(#[trigger] b1[k]) by {
                    assert(same_budget(a1[k], b1[k]));
                }
                lemma_first_match_at(b1, device_has_index(x), i);
            },
            None => {
                assert forall|k: int| 0 <= k < b1.len() implies !device_has_index(x)(#[trigger] b1[k]) by {
                    assert(same_budget(a1[k], b1[k]));
                }
                lemma_first_match_none(b1, device_has_index(x));
            },
        }
        let a2 = allocated_once(a1, x, vram);
        let b2 = allocated_once(b1, x, vram);
        assert forall|k: int| 0 <= k < a2.len() implies same_budget(#[trigger] a2[k], b2[k]) by {
            assert(same_budget(a1[k], b1[k]));
        }
    }
}

/// Agreement but for live readings is transitive.
pub proof fn lemma_same_budgets_trans(a: Seq<GpuBudget>, b: Seq<GpuBudget>, c: Seq<GpuBudget>)
    requires
        same_budgets(a, b),
        same_budgets(b, c),
    ensures
        same_budgets(a, c),
{
    assert forall|k: int| 0 <= k < a.len() implies same_budget(#[trigger] a[k], c[k]) by {
        assert(same_budget(a[k], b[k]));
        assert(same_budget(b[k], c[k]));
    }
}

} // verus!
