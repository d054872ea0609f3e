//! Schedulability over load: the share of seeds that run without a miss and
//! with nothing left over at the horizon.

use hprss_sim::arith::Rate;
use hprss_sim::engine::{SimConfig, SimEngine};
use hprss_sim::schedulers::FixedPriorityScheduler;
use hprss_sim::{
    ArrivalModel, CriticalityLevel, DeviceConfig, DeviceId, DeviceType, ExecutionTimeModel,
    PreemptionModel, Task, TaskId,
};

const UTILIZATION_POINTS: [f64; 5] = [0.4, 0.7, 1.0, 1.3, 1.6];
const SEEDS: std::ops::RangeInclusive<u64> = 1..=8;

struct WorkloadConfig {
    num_tasks: u32,
    total_utilization: f64,
    period_range_ms: (u64, u64),
    seed: u64,
}

/// Numbers in `[0, 1)` from a splitmix64 stream.
struct Stream(u64);

impl Stream {
    fn next(&mut self) -> u64 {
        self.0 = self.0.wrapping_add(0x9e37_79b9_7f4a_7c15);
        let mut z = self.0;
        z = (z ^ (z >> 30)).wrapping_mul(0xbf58_476d_1ce4_e5b9);
        z = (z ^ (z >> 27)).wrapping_mul(0x94d0_49bb_1331_11eb);
        z ^ (z >> 31)
    }

    fn unit(&mut self) -> f64 {
        (self.next() >> 11) as f64 / (1u64 << 53) as f64
    }
}

/// Splits the utilization at random over periodic CPU tasks and orders the
/// priorities by period.
fn generate_taskset(config: &WorkloadConfig) -> Vec<Task> {
    let mut stream = Stream(config.seed);
    let (low, high) = config.period_range_ms;
    let mut left = config.total_utilization;
    let mut drawn: Vec<(u64, f64)> = Vec::new();
    for i in 0..config.num_tasks {
        let rest = config.num_tasks - i - 1;
        let next = if rest == 0 {
            0.0
        } else {
            left * stream.unit().powf(1.0 / rest as f64)
        };
        let period = (low + stream.next() % (high - low + 1)) * 1_000_000;
        drawn.push((period, left - next));
        left = next;
    }
    drawn.sort_by_key(|(period, _)| *period);
    drawn
        .iter()
        .enumerate()
        .map(|(i, (period, share))| Task {
            id: TaskId(i as u32),
            name: format!("task-{i}"),
            priority: i as u32 + 1,
            arrival: ArrivalModel::Periodic { period: *period },
            deadline: *period,
            criticality: CriticalityLevel::Lo,
            exec_times: vec![(
                DeviceType::Cpu,
                ExecutionTimeModel::Deterministic {
                    wcet: (share * *period as f64) as u64 + 1,
                },
            )],
            affinity: vec![DeviceType::Cpu],
            data_size: 0,
        })
        .collect()
}

#[derive(Debug, Clone)]
struct CurvePoint {
    utilization: f64,
    schedulability_ratio: f64,
}

fn cpu_device() -> DeviceConfig {
    DeviceConfig {
        id: DeviceId(0),
        name: "cpu-0".to_string(),
        device_group: None,
        device_type: DeviceType::Cpu,
        cores: 1,
        preemption: PreemptionModel::FullyPreemptive,
        context_switch_ns: 1_000,
        speed_factor: Rate::new(1, 1),
        multicore_policy: None,
        power_watts: None,
    }
}

fn run_single_seed(utilization: f64, seed: u64) -> bool {
    let devices = vec![cpu_device()];
    let tasks = generate_taskset(&WorkloadConfig {
        num_tasks: 12,
        total_utilization: utilization,
        period_range_ms: (1, 4),
        seed,
    });

    let mut engine = SimEngine::new(
        SimConfig {
            duration_ns: 40_000_000,
            seed,
        },
        devices,
        vec![],
        vec![],
    );
    engine.register_tasks(tasks);
    engine.schedule_initial_arrivals();

    let mut scheduler = FixedPriorityScheduler;
    engine.run(&mut scheduler);
    let summary = engine.summary();
    summary.deadline_misses == 0 && summary.completed_jobs == summary.total_jobs
}

fn shape_style_fp_baseline_curve() -> Vec<CurvePoint> {
    UTILIZATION_POINTS
        .iter()
        .map(|&utilization| {
            let schedulable_runs = SEEDS
                .clone()
                .filter(|&seed| run_single_seed(utilization, seed))
                .count();

            CurvePoint {
                utilization,
                schedulability_ratio: schedulable_runs as f64 / SEEDS.clone().count() as f64,
            }
        })
        .collect()
}

#[test]
fn shape_style_schedulability_curve_baseline_is_deterministic() {
    let first = shape_style_fp_baseline_curve();
    let second = shape_style_fp_baseline_curve();

    assert_eq!(first.len(), second.len());
    for (lhs, rhs) in first.iter().zip(second.iter()) {
        assert!((lhs.utilization - rhs.utilization).abs() < f64::EPSILON);
        assert!((lhs.schedulability_ratio - rhs.schedulability_ratio).abs() < f64::EPSILON);
    }
}

#[test]
fn shape_style_schedulability_curve_baseline_degrades_with_higher_load() {
    let curve = shape_style_fp_baseline_curve();

    for point in &curve {
        assert!(
            (0.0..=1.0).contains(&point.schedulability_ratio),
            "ratio must stay within [0, 1], got {:?}",
            point
        );
    }

    let low_load = curve
        .first()
        .expect("curve should have at least one utilization point");
    let high_load = curve
        .last()
        .expect("curve should have at least one utilization point");

    assert!(
        low_load.schedulability_ratio > high_load.schedulability_ratio,
        "expected lower schedulability at higher utilization; curve={curve:?}"
    );

    let drops = curve
        .windows(2)
        .filter(|pair| pair[1].schedulability_ratio < pair[0].schedulability_ratio)
        .count();
    assert!(
        drops >= 1,
        "expected at least one downward step; curve={curve:?}"
    );
}
