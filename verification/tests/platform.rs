//! Platform descriptions.

use hprss_sim::arith::Rate;
use hprss_sim::platform::{
    parse_arbitration, parse_device_type, parse_multicore_policy, DeviceSection,
    InterconnectSection, PlatformConfig, PlatformError, SharedBusSection, SimulationSection,
    default_speed, DEFAULT_CONTEXT_SWITCH_US,
};
use hprss_sim::{
    BusArbitration, BusId, DeviceId, DeviceType, MultiCorePolicy, PreemptionModel,
};

const SAMPLE_TOML: &str = r#"
[simulation]
duration_ms = 10000
seed = 42

[[device]]
name = "FT2000"
type = "cpu"
cores = 4
preemption = "fully_preemptive"
context_switch_us = 5
speed_factor = 1.0
multicore_policy = "partitioned"

[[device]]
name = "GP201"
type = "gpu"
cores = 128
preemption = "limited"
preemption_granularity_us = 50
context_switch_us = 200
speed_factor = 20.0

[[device]]
name = "FT6678"
type = "dsp"
cores = 8
preemption = "interrupt_level"
isr_overhead_us = 5
dma_non_preemptive_us = 100
context_switch_us = 2
speed_factor = 8.0

[[device]]
name = "Zynq_FPGA"
type = "fpga"
cores = 1
preemption = "non_preemptive"
reconfig_time_us = 2000
context_switch_us = 2000
speed_factor = 15.0

[[interconnect]]
from = "FT2000"
to = "GP201"
latency_us = 2.0
bandwidth_gbps = 12.0
shared_bus = "pcie_bus"
arbitration = "priority_based"

[[shared_bus]]
name = "pcie_bus"
total_bandwidth_gbps = 16.0
arbitration = "priority_based"
"#;

fn text(table: &toml::Table, key: &str) -> Option<String> {
    table.get(key).and_then(|v| v.as_str()).map(|s| s.to_string())
}

fn number(table: &toml::Table, key: &str) -> Option<u64> {
    table.get(key).and_then(|v| v.as_integer()).map(|n| n as u64)
}

fn nanoseconds(table: &toml::Table, key: &str) -> Option<u64> {
    table
        .get(key)
        .and_then(|v| v.as_float())
        .map(|x| (x * 1000.0).round() as u64)
}

fn rate(table: &toml::Table, key: &str, parts: f64) -> Option<Rate> {
    let x = table.get(key).and_then(|v| v.as_float())? / parts;
    let mut den: u64 = 1;
    while (x * den as f64).round() / den as f64 != x {
        den *= 10;
    }
    Some(Rate::new((x * den as f64).round() as u64, den))
}

fn sections<'a>(table: &'a toml::Table, key: &str) -> Vec<&'a toml::Table> {
    match table.get(key).and_then(|v| v.as_array()) {
        Some(list) => list.iter().filter_map(|v| v.as_table()).collect(),
        None => Vec::new(),
    }
}

fn read(source: &str) -> PlatformConfig {
    let root: toml::Table = source.parse().expect("failed to parse TOML");
    let simulation = root
        .get("simulation")
        .and_then(|v| v.as_table())
        .expect("a simulation section");
    PlatformConfig {
        simulation: SimulationSection {
            duration_ms: number(simulation, "duration_ms").unwrap(),
            seed: number(simulation, "seed").unwrap(),
            time_unit: text(simulation, "time_unit").unwrap_or("ns".to_string()),
        },
        device: sections(&root, "device")
            .into_iter()
            .map(|d| DeviceSection {
                name: text(d, "name").unwrap(),
                device_type: text(d, "type").unwrap(),
                cores: number(d, "cores").unwrap() as u32,
                preemption: text(d, "preemption").unwrap(),
                preemption_granularity_us: number(d, "preemption_granularity_us"),
                isr_overhead_us: number(d, "isr_overhead_us"),
                dma_non_preemptive_us: number(d, "dma_non_preemptive_us"),
                reconfig_time_us: number(d, "reconfig_time_us"),
                preempt_overhead_us: number(d, "preempt_overhead_us").unwrap_or(0),
                context_switch_us: number(d, "context_switch_us")
                    .unwrap_or(DEFAULT_CONTEXT_SWITCH_US),
                speed_factor: rate(d, "speed_factor", 1.0).unwrap_or(default_speed()),
                multicore_policy: text(d, "multicore_policy"),
                power_watts: rate(d, "power_watts", 1.0),
            })
            .collect(),
        interconnect: sections(&root, "interconnect")
            .into_iter()
            .map(|l| InterconnectSection {
                from: text(l, "from").unwrap(),
                to: text(l, "to").unwrap(),
                latency_ns: nanoseconds(l, "latency_us").unwrap(),
                bandwidth_bytes_per_ns: rate(l, "bandwidth_gbps", 8.0).unwrap(),
                shared_bus: text(l, "shared_bus"),
                arbitration: text(l, "arbitration").unwrap_or("dedicated".to_string()),
            })
            .collect(),
        shared_bus: sections(&root, "shared_bus")
            .into_iter()
            .map(|b| SharedBusSection {
                name: text(b, "name").unwrap(),
                total_bandwidth_bytes_per_ns: rate(b, "total_bandwidth_gbps", 8.0).unwrap(),
                arbitration: text(b, "arbitration").unwrap(),
            })
            .collect(),
    }
}

#[test]
fn parse_sample_platform() {
    let config = read(SAMPLE_TOML);
    assert_eq!(config.device.len(), 4);
    assert_eq!(config.simulation.duration_ms, 10000);
    assert_eq!(config.simulation.seed, 42);

    let devices = config.build_devices().expect("failed to build devices");
    assert_eq!(devices.len(), 4);
    assert_eq!(devices[0].name, "FT2000");
    assert_eq!(devices[0].device_type, DeviceType::Cpu);
    assert_eq!(devices[1].device_type, DeviceType::Gpu);
    assert_eq!(devices[2].device_type, DeviceType::Dsp);
    assert_eq!(devices[3].device_type, DeviceType::Fpga);
}

#[test]
fn preemption_models_parsed() {
    let config = read(SAMPLE_TOML);
    let devices = config.build_devices().unwrap();

    assert!(matches!(devices[0].preemption, PreemptionModel::FullyPreemptive));
    assert!(matches!(
        devices[1].preemption,
        PreemptionModel::LimitedPreemptive { granularity_ns: 50_000 }
    ));
    assert!(matches!(
        devices[2].preemption,
        PreemptionModel::InterruptLevel { .. }
    ));
    assert!(matches!(
        devices[3].preemption,
        PreemptionModel::NonPreemptive { reconfig_time_ns: 2_000_000 }
    ));
}

#[test]
fn links_and_buses_are_numbered_by_name() {
    let config = read(SAMPLE_TOML);
    let devices = config.build_devices().unwrap();
    let links = config.build_interconnects(&devices).unwrap();
    assert_eq!(links.len(), 1);
    assert_eq!(links[0].from, DeviceId(0));
    assert_eq!(links[0].to, DeviceId(1));
    assert_eq!(links[0].latency_ns, 2_000);
    assert_eq!(links[0].bandwidth_bytes_per_ns, Rate::new(15, 10));
    assert_eq!(links[0].shared_bus, Some(BusId(0)));
    assert_eq!(links[0].arbitration, BusArbitration::PriorityBased);

    let buses = config.build_buses().unwrap();
    assert_eq!(buses.len(), 1);
    assert_eq!(buses[0].id, BusId(0));
    assert_eq!(buses[0].name, "pcie_bus");
    assert_eq!(buses[0].total_bandwidth_bytes_per_ns, Rate::new(2, 1));
    assert_eq!(buses[0].arbitration, BusArbitration::PriorityBased);
    assert_eq!(config.duration_ns(), 10_000_000_000);
}

#[test]
fn devices_are_numbered_in_order() {
    let devices = read(SAMPLE_TOML).build_devices().unwrap();
    for (i, device) in devices.iter().enumerate() {
        assert_eq!(device.id, DeviceId(i as u32));
        assert_eq!(device.device_group, None);
    }
    assert_eq!(devices[0].multicore_policy, Some(MultiCorePolicy::Partitioned));
    assert_eq!(devices[0].context_switch_ns, 5_000);
    assert_eq!(devices[1].speed_factor, Rate::new(20, 1));
    assert_eq!(devices[1].multicore_policy, None);
    assert_eq!(
        devices[2].preemption,
        PreemptionModel::InterruptLevel {
            isr_overhead_ns: 5_000,
            dma_non_preemptive_ns: 100_000,
        }
    );
}

fn section(device_type: &str, preemption: &str) -> DeviceSection {
    DeviceSection {
        name: "d".to_string(),
        device_type: device_type.to_string(),
        cores: 1,
        preemption: preemption.to_string(),
        preemption_granularity_us: None,
        isr_overhead_us: None,
        dma_non_preemptive_us: None,
        reconfig_time_us: None,
        preempt_overhead_us: 0,
        context_switch_us: DEFAULT_CONTEXT_SWITCH_US,
        speed_factor: default_speed(),
        multicore_policy: None,
        power_watts: None,
    }
}

fn platform(device: Vec<DeviceSection>) -> PlatformConfig {
    PlatformConfig {
        simulation: SimulationSection {
            duration_ms: 1,
            seed: 0,
            time_unit: "ns".to_string(),
        },
        device,
        interconnect: vec![],
        shared_bus: vec![],
    }
}

fn message<T>(result: Result<T, PlatformError>) -> String {
    match result {
        Ok(_) => panic!("an error was expected"),
        Err(PlatformError::InvalidValue(text)) => text,
    }
}

#[test]
fn missing_times_take_their_defaults() {
    let config = platform(vec![
        section("CPU", "Full"),
        section("gpu", "limited_preemptive"),
        section("dsp", "interrupt"),
        section("fpga", "none"),
    ]);
    let devices = config.build_devices().unwrap();
    assert_eq!(devices[0].preemption, PreemptionModel::FullyPreemptive);
    assert_eq!(
        devices[1].preemption,
        PreemptionModel::LimitedPreemptive {
            granularity_ns: 50_000
        }
    );
    assert_eq!(
        devices[2].preemption,
        PreemptionModel::InterruptLevel {
            isr_overhead_ns: 5_000,
            dma_non_preemptive_ns: 100_000,
        }
    );
    assert_eq!(
        devices[3].preemption,
        PreemptionModel::NonPreemptive {
            reconfig_time_ns: 2_000_000
        }
    );
    assert_eq!(devices[3].context_switch_ns, 5_000);
    assert_eq!(devices[3].speed_factor, Rate::new(1, 1));
}

#[test]
fn unknown_values_are_named_in_the_error() {
    assert_eq!(
        message(platform(vec![section("tpu", "full")]).build_devices()),
        "unknown device type: tpu"
    );
    assert_eq!(
        message(platform(vec![section("cpu", "sometimes")]).build_devices()),
        "unknown preemption model: sometimes"
    );
    let mut odd = section("cpu", "full");
    odd.multicore_policy = Some("Spread".to_string());
    assert_eq!(
        message(platform(vec![section("gpu", "full"), odd]).build_devices()),
        "unknown multicore policy: Spread"
    );

    let mut config = read(SAMPLE_TOML);
    let devices = config.build_devices().unwrap();
    config.interconnect[0].to = "nowhere".to_string();
    assert_eq!(
        message(config.build_interconnects(&devices)),
        "unknown device: nowhere"
    );
    config.interconnect[0].to = "GP201".to_string();
    config.interconnect[0].shared_bus = Some("axi".to_string());
    assert_eq!(
        message(config.build_interconnects(&devices)),
        "unknown shared bus: axi"
    );
    config.interconnect[0].shared_bus = None;
    config.interconnect[0].arbitration = "fair".to_string();
    assert_eq!(
        message(config.build_interconnects(&devices)),
        "unknown bus arbitration: fair"
    );
    config.shared_bus[0].arbitration = "fair".to_string();
    assert_eq!(
        message(config.build_buses()),
        "unknown bus arbitration: fair"
    );
}

#[test]
fn words_are_read_in_any_case() {
    assert_eq!(parse_device_type("DsP").unwrap(), DeviceType::Dsp);
    assert_eq!(
        parse_multicore_policy("GLOBAL").unwrap(),
        MultiCorePolicy::Global
    );
    assert_eq!(
        parse_multicore_policy("clustered_4").unwrap(),
        MultiCorePolicy::Clustered { k: 4 }
    );
    assert_eq!(
        parse_multicore_policy("Clustered(8)").unwrap(),
        MultiCorePolicy::Clustered { k: 8 }
    );
    assert_eq!(
        parse_multicore_policy("clustered").unwrap(),
        MultiCorePolicy::Clustered { k: 2 }
    );
    assert_eq!(
        parse_multicore_policy("clustered_many").unwrap(),
        MultiCorePolicy::Clustered { k: 2 }
    );
    assert_eq!(
        parse_arbitration("Round_Robin").unwrap(),
        BusArbitration::RoundRobin
    );
    assert_eq!(
        parse_arbitration("tdma").unwrap(),
        BusArbitration::Tdma { slot_ns: 0 }
    );
}

#[test]
fn times_beyond_nanoseconds_are_out_of_range() {
    let mut config = platform(vec![section("cpu", "full")]);
    assert!(config.in_range());
    config.device[0].context_switch_us = u64::MAX;
    assert!(!config.in_range());
    config.device[0].context_switch_us = 1;
    config.device[0].preemption_granularity_us = Some(u64::MAX);
    assert!(config.in_range());
    config.device[0].preemption = "limited".to_string();
    assert!(!config.in_range());
    config.device[0].preemption_granularity_us = None;
    config.simulation.duration_ms = u64::MAX;
    assert!(!config.in_range());
}
