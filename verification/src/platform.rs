//! Platform description: sections as they are written down, and the typed
//! configuration they stand for.

use crate::arith::Rate;
use crate::device::{
    BusArbitration, DeviceConfig, InterconnectConfig, MultiCorePolicy, PreemptionModel,
    SharedBusConfig,
};
use crate::ids::{BusId, DeviceId};
use crate::search;
use crate::task::DeviceType;
use crate::time::Nanos;
use crate::words;
use vstd::prelude::*;
use vstd::string::*;

verus! {

/// Top-level platform description.
#[derive(Debug)]
pub struct PlatformConfig {
    pub simulation: SimulationSection,
    pub device: Vec<DeviceSection>,
    pub interconnect: Vec<InterconnectSection>,
    pub shared_bus: Vec<SharedBusSection>,
}

/// How long and with which seed to simulate.
#[derive(Debug)]
pub struct SimulationSection {
    pub duration_ms: u64,
    pub seed: u64,
    pub time_unit: String,
}

/// One device.
#[derive(Debug)]
pub struct DeviceSection {
    pub name: String,
    pub device_type: String,
    pub cores: u32,
    pub preemption: String,
    pub preemption_granularity_us: Option<u64>,
    pub isr_overhead_us: Option<u64>,
    pub dma_non_preemptive_us: Option<u64>,
    pub reconfig_time_us: Option<u64>,
    pub preempt_overhead_us: u64,
    pub context_switch_us: u64,
    pub speed_factor: Rate,
    pub multicore_policy: Option<String>,
    pub power_watts: Option<Rate>,
}

/// One link, between devices by name.
#[derive(Debug)]
pub struct InterconnectSection {
    pub from: String,
    pub to: String,
    pub latency_ns: u64,
    pub bandwidth_bytes_per_ns: Rate,
    pub shared_bus: Option<String>,
    pub arbitration: String,
}

/// One shared bus.
#[derive(Debug)]
pub struct SharedBusSection {
    pub name: String,
    pub total_bandwidth_bytes_per_ns: Rate,
    pub arbitration: String,
}

/// Why a description stands for no configuration.
#[derive(Debug)]
pub enum PlatformError {
    /// A value is not one of those that are known.
    InvalidValue(String),
}

impl PlatformError {
    /// The error in words.
    pub open spec fn text(&self) -> Seq<char> {
        match self {
            PlatformError::InvalidValue(m) => m@,
        }
    }
}

/// The context switch time in microseconds where none is given.
pub const DEFAULT_CONTEXT_SWITCH_US: u64 = 5;

/// The speed factor where none is given.
pub fn default_speed() -> (speed: Rate)
    ensures
        speed == (Rate { num: 1, den: 1 }),
{
    Rate { num: 1, den: 1 }
}

/// The device type that a word names.
pub open spec fn type_named(s: Seq<char>) -> Option<DeviceType> {
    if words::reads(s, "cpu"@) {
        Some(DeviceType::Cpu)
    } else if words::reads(s, "gpu"@) {
        Some(DeviceType::Gpu)
    } else if words::reads(s, "dsp"@) {
        Some(DeviceType::Dsp)
    } else if words::reads(s, "fpga"@) {
        Some(DeviceType::Fpga)
    } else {
        None
    }
}

/// The preemption levels that words name.
#[derive(Debug, Clone, Copy, PartialEq, Eq, Structural)]
pub enum PreemptionLevel {
    Full,
    Limited,
    Interrupt,
    NonPreemptive,
}

/// The preemption level that a word names.
pub open spec fn level_named(s: Seq<char>) -> Option<PreemptionLevel> {
    if words::reads(s, "fully_preemptive"@) || words::reads(s, "full"@) {
        Some(PreemptionLevel::Full)
    } else if words::reads(s, "limited"@) || words::reads(s, "limited_preemptive"@) {
        Some(PreemptionLevel::Limited)
    } else if words::reads(s, "interrupt_level"@) || words::reads(s, "interrupt"@) {
        Some(PreemptionLevel::Interrupt)
    } else if words::reads(s, "non_preemptive"@) || words::reads(s, "none"@) {
        Some(PreemptionLevel::NonPreemptive)
    } else {
        None
    }
}

/// A number of microseconds, else the default.
pub open spec fn us_or(us: Option<u64>, default: u64) -> u64 {
    match us {
        Some(n) => n,
        None => default,
    }
}

/// Whether a number of microseconds can be held in nanoseconds.
pub open spec fn us_fits(us: u64) -> bool {
    us * 1000 <= u64::MAX
}

/// The arbitration that a word names.
pub open spec fn arbitration_named(s: Seq<char>) -> Option<BusArbitration> {
    if words::reads(s, "dedicated"@) {
        Some(BusArbitration::Dedicated)
    } else if words::reads(s, "round_robin"@) {
        Some(BusArbitration::RoundRobin)
    } else if words::reads(s, "priority_based"@) || words::reads(s, "priority"@) {
        Some(BusArbitration::PriorityBased)
    } else if words::reads(s, "tdma"@) {
        Some(BusArbitration::Tdma { slot_ns: 0 })
    } else {
        None
    }
}

/// Whether a text starts with a word, in whatever case.
pub open spec fn starts_with(s: Seq<char>, word: Seq<char>) -> bool {
    s.len() >= word.len() && words::reads(s.take(word.len() as int), word)
}

/// A text without a word in front, however often it is repeated there.
pub open spec fn after_all(s: Seq<char>, word: Seq<char>) -> Seq<char>
    decreases s.len(),
{
    if word.len() > 0 && starts_with(s, word) {
        after_all(s.skip(word.len() as int), word)
    } else {
        s
    }
}

/// A text without underscores and opening brackets in front.
pub open spec fn opened(s: Seq<char>) -> Seq<char>
    decreases s.len(),
{
    if s.len() > 0 && (s[0] == '_' || s[0] == '(') {
        opened(s.skip(1))
    } else {
        s
    }
}

/// A text without closing brackets at the end.
pub open spec fn closed_off(s: Seq<char>) -> Seq<char>
    decreases s.len(),
{
    if s.len() > 0 && s.last() == ')' {
        closed_off(s.drop_last())
    } else {
        s
    }
}

/// The number of cores per cluster that a policy names, such as `clustered_4`
/// or `clustered(4)`; two where it cannot be read.
pub open spec fn cluster_size(s: Seq<char>) -> u32 {
    match words::number_value(
        closed_off(opened(after_all(s, "clustered"@))),
        u32::MAX as u64,
    ) {
        Ok(k) => k as u32,
        Err(_) => 2,
    }
}

/// The multi-core policy that a word names.
pub open spec fn policy_named(s: Seq<char>) -> Option<MultiCorePolicy> {
    if words::reads(s, "partitioned"@) {
        Some(MultiCorePolicy::Partitioned)
    } else if words::reads(s, "global"@) {
        Some(MultiCorePolicy::Global)
    } else if starts_with(s, "clustered"@) {
        Some(MultiCorePolicy::Clustered { k: cluster_size(s) })
    } else {
        None
    }
}

impl DeviceSection {
    /// The preemption model that the section stands for.
    pub open spec fn model(&self) -> Option<PreemptionModel> {
        match level_named(self.preemption@) {
            Some(PreemptionLevel::Full) => Some(PreemptionModel::FullyPreemptive),
            Some(PreemptionLevel::Limited) => Some(
                PreemptionModel::LimitedPreemptive {
                    granularity_ns: (us_or(self.preemption_granularity_us, 50) * 1000) as u64,
                },
            ),
            Some(PreemptionLevel::Interrupt) => Some(
                PreemptionModel::InterruptLevel {
                    isr_overhead_ns: (us_or(self.isr_overhead_us, 5) * 1000) as u64,
                    dma_non_preemptive_ns: (us_or(self.dma_non_preemptive_us, 100)
                        * 1000) as u64,
                },
            ),
            Some(PreemptionLevel::NonPreemptive) => Some(
                PreemptionModel::NonPreemptive {
                    reconfig_time_ns: (us_or(self.reconfig_time_us, 2000) * 1000) as u64,
                },
            ),
            None => None,
        }
    }

    /// Whether the times that the section uses can be held in nanoseconds.
    pub open spec fn fits(&self) -> bool {
        &&& us_fits(self.context_switch_us)
        &&& match level_named(self.preemption@) {
            Some(PreemptionLevel::Limited) => us_fits(us_or(self.preemption_granularity_us, 50)),
            Some(PreemptionLevel::Interrupt) => us_fits(us_or(self.isr_overhead_us, 5)) && us_fits(
                us_or(self.dma_non_preemptive_us, 100),
            ),
            Some(PreemptionLevel::NonPreemptive) => us_fits(us_or(self.reconfig_time_us, 2000)),
            _ => true,
        }
    }

    /// The first value of the section that is not known.
    pub open spec fn fault(&self) -> Option<Seq<char>> {
        if type_named(self.device_type@) is None {
            Some("unknown device type: "@ + self.device_type@)
        } else if level_named(self.preemption@) is None {
            Some("unknown preemption model: "@ + self.preemption@)
        } else {
            match self.multicore_policy {
                Some(p) => if policy_named(p@) is None {
                    Some("unknown multicore policy: "@ + p@)
                } else {
                    None
                },
                None => None,
            }
        }
    }

    /// Whether a device is the one that the section, at a place, stands for.
    pub open spec fn describes(&self, place: int, device: DeviceConfig) -> bool {
        &&& device.id == DeviceId(place as u32)
        &&& device.name == self.name
        &&& device.device_group is None
        &&& type_named(self.device_type@) == Some(device.device_type)
        &&& device.cores == self.cores
        &&& self.model() == Some(device.preemption)
        &&& device.context_switch_ns == self.context_switch_us * 1000
        &&& device.speed_factor == self.speed_factor
        &&& device.multicore_policy == match self.multicore_policy {
            Some(p) => policy_named(p@),
            None => None,
        }
        &&& device.power_watts == self.power_watts
    }

    /// Tells whether the times that the section uses can be held in
    /// nanoseconds.
    pub fn in_range(&self) -> (yes: bool)
        ensures
            yes == self.fits(),
    {
        let level: bool = match read_level(self.preemption.as_str()) {
            Some(PreemptionLevel::Limited) => us_in_range(
                number_or(self.preemption_granularity_us, 50),
            ),
            Some(PreemptionLevel::Interrupt) => us_in_range(number_or(self.isr_overhead_us, 5))
                && us_in_range(number_or(self.dma_non_preemptive_us, 100)),
            Some(PreemptionLevel::NonPreemptive) => us_in_range(
                number_or(self.reconfig_time_us, 2000),
            ),
            _ => true,
        };
        us_in_range(self.context_switch_us) && level
    }

    /// Builds the device that the section, at a place, stands for.
    fn build(&self, place: usize) -> (device: Result<DeviceConfig, PlatformError>)
        requires
            self.fits(),
        ensures
            match device {
                Ok(d) => self.fault() is None && self.describes(place as int, d),
                Err(e) => self.fault() == Some(e.text()),
            },
    {
        let device_type: DeviceType = match parse_device_type(self.device_type.as_str()) {
            Ok(dt) => dt,
            Err(e) => {
                return Err(e);
            },
        };
        let preemption: PreemptionModel = match parse_preemption(self) {
            Ok(p) => p,
            Err(e) => {
                return Err(e);
            },
        };
        let multicore_policy: Option<MultiCorePolicy> = match &self.multicore_policy {
            Some(p) => match parse_multicore_policy(p.as_str()) {
                Ok(policy) => Some(policy),
                Err(e) => {
                    return Err(e);
                },
            },
            None => None,
        };
        Ok(
            DeviceConfig {
                id: DeviceId(place as u32),
                name: self.name.clone(),
                device_group: None,
                device_type,
                cores: self.cores,
                preemption,
                context_switch_ns: self.context_switch_us * 1000,
                speed_factor: self.speed_factor,
                multicore_policy,
                power_watts: self.power_watts,
            },
        )
    }
}

/// A number, else a default.
fn number_or(number: Option<u64>, default: u64) -> (n: u64)
    ensures
        n == us_or(number, default),
{
    match number {
        Some(n) => n,
        None => default,
    }
}

/// Tells whether a number of microseconds can be held in nanoseconds.
fn us_in_range(us: u64) -> (yes: bool)
    ensures
        yes == us_fits(us),
{
    us <= u64::MAX / 1000
}

/// An error about a value.
fn invalid(what: &str, value: &str) -> (e: PlatformError)
    ensures
        e.text() == what@ + value@,
{
    let mut text: String = String::from_str(what);
    text.append(value);
    PlatformError::InvalidValue(text)
}

/// Reads a device type.
pub fn parse_device_type(s: &str) -> (dt: Result<DeviceType, PlatformError>)
    ensures
        match dt {
            Ok(t) => type_named(s@) == Some(t),
            Err(e) => type_named(s@) is None && e.text() == "unknown device type: "@ + s@,
        },
{
    if words::reads_as(s, "cpu") {
        Ok(DeviceType::Cpu)
    } else if words::reads_as(s, "gpu") {
        Ok(DeviceType::Gpu)
    } else if words::reads_as(s, "dsp") {
        Ok(DeviceType::Dsp)
    } else if words::reads_as(s, "fpga") {
        Ok(DeviceType::Fpga)
    } else {
        Err(invalid("unknown device type: ", s))
    }
}

/// Reads a preemption level.
fn read_level(s: &str) -> (level: Option<PreemptionLevel>)
    ensures
        level == level_named(s@),
{
    if words::reads_as(s, "fully_preemptive") || words::reads_as(s, "full") {
        Some(PreemptionLevel::Full)
    } else if words::reads_as(s, "limited") || words::reads_as(s, "limited_preemptive") {
        Some(PreemptionLevel::Limited)
    } else if words::reads_as(s, "interrupt_level") || words::reads_as(s, "interrupt") {
        Some(PreemptionLevel::Interrupt)
    } else if words::reads_as(s, "non_preemptive") || words::reads_as(s, "none") {
        Some(PreemptionLevel::NonPreemptive)
    } else {
        None
    }
}

/// Reads the preemption model of a section.
pub fn parse_preemption(d: &DeviceSection) -> (model: Result<PreemptionModel, PlatformError>)
    requires
        d.fits(),
    ensures
        match model {
            Ok(m) => d.model() == Some(m),
            Err(e) => d.model() is None && level_named(d.preemption@) is None && e.text()
                == "unknown preemption model: "@ + d.preemption@,
        },
{
    match read_level(d.preemption.as_str()) {
        Some(PreemptionLevel::Full) => Ok(PreemptionModel::FullyPreemptive),
        Some(PreemptionLevel::Limited) => Ok(
            PreemptionModel::LimitedPreemptive {
                granularity_ns: number_or(d.preemption_granularity_us, 50) * 1000,
            },
        ),
        Some(PreemptionLevel::Interrupt) => Ok(
            PreemptionModel::InterruptLevel {
                isr_overhead_ns: number_or(d.isr_overhead_us, 5) * 1000,
                dma_non_preemptive_ns: number_or(d.dma_non_preemptive_us, 100) * 1000,
            },
        ),
        Some(PreemptionLevel::NonPreemptive) => Ok(
            PreemptionModel::NonPreemptive {
                reconfig_time_ns: number_or(d.reconfig_time_us, 2000) * 1000,
            },
        ),
        None => Err(invalid("unknown preemption model: ", d.preemption.as_str())),
    }
}

/// Tells whether a text, from a place on, starts with a word.
fn starts_at(s: &str, from: usize, word: &str) -> (yes: bool)
    requires
        from <= s@.len(),
    ensures
        yes == starts_with(s@.skip(from as int), word@),
{
    let n: usize = s.unicode_len();
    let len: usize = word.unicode_len();
    if n - from < len {
        return false;
    }
    let front: &str = s.substring_char(from, from + len);
    proof {
        assert(front@ =~= s@.skip(from as int).take(len as int));
    }
    words::reads_as(front, word)
}

/// Reads the number of cores per cluster.
fn read_cluster_size(s: &str) -> (k: u32)
    ensures
        k == cluster_size(s@),
{
    let n: usize = s.unicode_len();
    proof {
        reveal_strlit("clustered");
        assert(s@.skip(0) =~= s@);
    }
    let mut start: usize = 0;
    while starts_at(s, start, "clustered")
        invariant
            start <= n,
            n == s@.len(),
            "clustered"@.len() == 9,
            after_all(s@, "clustered"@) == after_all(s@.skip(start as int), "clustered"@),
        decreases n - start,
    {
        proof {
            assert(s@.skip(start as int).skip(9) =~= s@.skip(start as int + 9));
        }
        start = start + 9;
    }
    let ghost tail = s@.skip(start as int);
    while start < n && (s.get_char(start) == '_' || s.get_char(start) == '(')
        invariant
            start <= n,
            n == s@.len(),
            opened(tail) == opened(s@.skip(start as int)),
        decreases n - start,
    {
        proof {
            assert(s@.skip(start as int)[0] == s@[start as int]);
            assert(s@.skip(start as int).skip(1) =~= s@.skip(start as int + 1));
        }
        start = start + 1;
    }
    let ghost body = s@.skip(start as int);
    proof {
        if start < n {
            assert(body[0] == s@[start as int]);
        }
        assert(opened(tail) == body);
        assert(body =~= s@.subrange(start as int, n as int));
    }
    let mut end: usize = n;
    while end > start && s.get_char(end - 1) == ')'
        invariant
            start <= end <= n,
            n == s@.len(),
            closed_off(body) == closed_off(s@.subrange(start as int, end as int)),
        decreases end,
    {
        proof {
            let here = s@.subrange(start as int, end as int);
            assert(here.last() == s@[end as int - 1]);
            assert(here.drop_last() =~= s@.subrange(start as int, end as int - 1));
        }
        end = end - 1;
    }
    proof {
        let here = s@.subrange(start as int, end as int);
        if end > start {
            assert(here.last() == s@[end as int - 1]);
        }
        assert(closed_off(body) == here);
    }
    match words::read_number(s.substring_char(start, end), u32::MAX as u64) {
        Ok(k) => {
            proof {
                words::lemma_number_bound(
                    s@.subrange(start as int, end as int),
                    u32::MAX as u64,
                );
            }
            k as u32
        },
        Err(_) => 2,
    }
}

/// Reads a multi-core policy.
pub fn parse_multicore_policy(s: &str) -> (policy: Result<MultiCorePolicy, PlatformError>)
    ensures
        match policy {
            Ok(p) => policy_named(s@) == Some(p),
            Err(e) => policy_named(s@) is None && e.text() == "unknown multicore policy: "@ + s@,
        },
{
    proof {
        assert(s@.skip(0) =~= s@);
    }
    if words::reads_as(s, "partitioned") {
        Ok(MultiCorePolicy::Partitioned)
    } else if words::reads_as(s, "global") {
        Ok(MultiCorePolicy::Global)
    } else if starts_at(s, 0, "clustered") {
        Ok(MultiCorePolicy::Clustered { k: read_cluster_size(s) })
    } else {
        Err(invalid("unknown multicore policy: ", s))
    }
}

/// Reads a bus arbitration strategy.
pub fn parse_arbitration(s: &str) -> (arbitration: Result<BusArbitration, PlatformError>)
    ensures
        match arbitration {
            Ok(a) => arbitration_named(s@) == Some(a),
            Err(e) => arbitration_named(s@) is None && e.text() == "unknown bus arbitration: "@
                + s@,
        },
{
    if words::reads_as(s, "dedicated") {
        Ok(BusArbitration::Dedicated)
    } else if words::reads_as(s, "round_robin") {
        Ok(BusArbitration::RoundRobin)
    } else if words::reads_as(s, "priority_based") || words::reads_as(s, "priority") {
        Ok(BusArbitration::PriorityBased)
    } else if words::reads_as(s, "tdma") {
        Ok(BusArbitration::Tdma { slot_ns: 0 })
    } else {
        Err(invalid("unknown bus arbitration: ", s))
    }
}

/// The first unknown value in a list of device sections.
pub open spec fn first_device_fault(sections: Seq<DeviceSection>) -> Option<Seq<char>>
    decreases sections.len(),
{
    if sections.len() == 0 {
        None
    } else {
        match first_device_fault(sections.drop_last()) {
            Some(m) => Some(m),
            None => sections.last().fault(),
        }
    }
}

/// A fault among the first sections is the first one of all.
proof fn lemma_device_fault(sections: Seq<DeviceSection>, n: int)
    requires
        0 <= n <= sections.len(),
        first_device_fault(sections.take(n)) is Some,
    ensures
        first_device_fault(sections) == first_device_fault(sections.take(n)),
    decreases sections.len() - n,
{
    if n == sections.len() {
        assert(sections.take(n) =~= sections);
    } else {
        assert(sections.take(n + 1).drop_last() =~= sections.take(n));
        lemma_device_fault(sections, n + 1);
    }
}

/// Whether a device has a name.
pub open spec fn device_called(name: Seq<char>) -> spec_fn(DeviceConfig) -> bool {
    |d: DeviceConfig| d.name@ == name
}

/// Whether a bus has a name.
pub open spec fn bus_called(name: Seq<char>) -> spec_fn(SharedBusSection) -> bool {
    |b: SharedBusSection| b.name@ == name
}

impl InterconnectSection {
    /// The first value of the section that is not known.
    pub open spec fn fault(
        &self,
        devices: Seq<DeviceConfig>,
        buses: Seq<SharedBusSection>,
    ) -> Option<Seq<char>> {
        if search::first_where(devices, device_called(self.from@)) is None {
            Some("unknown device: "@ + self.from@)
        } else if search::first_where(devices, device_called(self.to@)) is None {
            Some("unknown device: "@ + self.to@)
        } else if self.shared_bus matches Some(bus) && search::first_where(
            buses,
            bus_called(bus@),
        ) is None {
            Some("unknown shared bus: "@ + self.shared_bus->0@)
        } else if arbitration_named(self.arbitration@) is None {
            Some("unknown bus arbitration: "@ + self.arbitration@)
        } else {
            None
        }
    }

    /// The link that the section stands for.
    pub open spec fn link(
        &self,
        devices: Seq<DeviceConfig>,
        buses: Seq<SharedBusSection>,
    ) -> InterconnectConfig {
        InterconnectConfig {
            from: devices[search::first_where(devices, device_called(self.from@))->0].id,
            to: devices[search::first_where(devices, device_called(self.to@))->0].id,
            latency_ns: self.latency_ns,
            bandwidth_bytes_per_ns: self.bandwidth_bytes_per_ns,
            shared_bus: match self.shared_bus {
                Some(bus) => Some(
                    BusId(search::first_where(buses, bus_called(bus@))->0 as u32),
                ),
                None => None,
            },
            arbitration: arbitration_named(self.arbitration@)->0,
        }
    }

    /// Builds the link that the section stands for.
    fn build(&self, devices: &Vec<DeviceConfig>, buses: &Vec<SharedBusSection>) -> (link: Result<
        InterconnectConfig,
        PlatformError,
    >)
        ensures
            match link {
                Ok(l) => self.fault(devices@, buses@) is None && l == self.link(
                    devices@,
                    buses@,
                ),
                Err(e) => self.fault(devices@, buses@) == Some(e.text()),
            },
    {
        let from: DeviceId = match find_device(devices, self.from.as_str()) {
            Some(i) => devices[i].id,
            None => {
                return Err(invalid("unknown device: ", self.from.as_str()));
            },
        };
        let to: DeviceId = match find_device(devices, self.to.as_str()) {
            Some(i) => devices[i].id,
            None => {
                return Err(invalid("unknown device: ", self.to.as_str()));
            },
        };
        let shared_bus: Option<BusId> = match &self.shared_bus {
            Some(bus) => match find_bus(buses, bus.as_str()) {
                Some(i) => Some(BusId(i as u32)),
                None => {
                    return Err(invalid("unknown shared bus: ", bus.as_str()));
                },
            },
            None => None,
        };
        let arbitration: BusArbitration = match parse_arbitration(self.arbitration.as_str()) {
            Ok(a) => a,
            Err(e) => {
                return Err(e);
            },
        };
        Ok(
            InterconnectConfig {
                from,
                to,
                latency_ns: self.latency_ns,
                bandwidth_bytes_per_ns: self.bandwidth_bytes_per_ns,
                shared_bus,
                arbitration,
            },
        )
    }
}

/// Finds the first device of a name.
fn find_device(devices: &Vec<DeviceConfig>, name: &str) -> (place: Option<usize>)
    ensures
        match place {
            Some(i) => i < devices@.len() && search::first_where(devices@, device_called(name@))
                == Some(i as int),
            None => search::first_where(devices@, device_called(name@)) is None,
        },
{
    let mut i: usize = 0;
    while i < devices.len()
        invariant
            i <= devices@.len(),
            forall|k: int| 0 <= k < i ==> !device_called(name@)(#[trigger] devices@[k]),
        decreases devices@.len() - i,
    {
        if words::same_text(devices[i].name.as_str(), name) {
            proof {
                search::lemma_found(devices@, device_called(name@), i as int);
            }
            return Some(i);
        }
        i = i + 1;
    }
    proof {
        search::lemma_not_found(devices@, device_called(name@));
    }
    None
}

/// Finds the first bus of a name.
fn find_bus(buses: &Vec<SharedBusSection>, name: &str) -> (place: Option<usize>)
    ensures
        match place {
            Some(i) => i < buses@.len() && search::first_where(buses@, bus_called(name@)) == Some(
                i as int,
            ),
            None => search::first_where(buses@, bus_called(name@)) is None,
        },
{
    let mut i: usize = 0;
    while i < buses.len()
        invariant
            i <= buses@.len(),
            forall|k: int| 0 <= k < i ==> !bus_called(name@)(#[trigger] buses@[k]),
        decreases buses@.len() - i,
    {
        if words::same_text(buses[i].name.as_str(), name) {
            proof {
                search::lemma_found(buses@, bus_called(name@), i as int);
            }
            return Some(i);
        }
        i = i + 1;
    }
    proof {
        search::lemma_not_found(buses@, bus_called(name@));
    }
    None
}

/// The first unknown value in a list of link sections.
pub open spec fn first_link_fault(
    sections: Seq<InterconnectSection>,
    devices: Seq<DeviceConfig>,
    buses: Seq<SharedBusSection>,
) -> Option<Seq<char>>
    decreases sections.len(),
{
    if sections.len() == 0 {
        None
    } else {
        match first_link_fault(sections.drop_last(), devices, buses) {
            Some(m) => Some(m),
            None => sections.last().fault(devices, buses),
        }
    }
}

/// A fault among the first sections is the first one of all.
proof fn lemma_link_fault(
    sections: Seq<InterconnectSection>,
    devices: Seq<DeviceConfig>,
    buses: Seq<SharedBusSection>,
    n: int,
)
    requires
        0 <= n <= sections.len(),
        first_link_fault(sections.take(n), devices, buses) is Some,
    ensures
        first_link_fault(sections, devices, buses) == first_link_fault(
            sections.take(n),
            devices,
            buses,
        ),
    decreases sections.len() - n,
{
    if n == sections.len() {
        assert(sections.take(n) =~= sections);
    } else {
        assert(sections.take(n + 1).drop_last() =~= sections.take(n));
        lemma_link_fault(sections, devices, buses, n + 1);
    }
}

impl SharedBusSection {
    /// The value of the section that is not known.
    pub open spec fn fault(&self) -> Option<Seq<char>> {
        if arbitration_named(self.arbitration@) is None {
            Some("unknown bus arbitration: "@ + self.arbitration@)
        } else {
            None
        }
    }

    /// Whether a bus is the one that the section, at a place, stands for.
    pub open spec fn describes(&self, place: int, bus: SharedBusConfig) -> bool {
        &&& bus.id == BusId(place as u32)
        &&& bus.name == self.name
        &&& bus.total_bandwidth_bytes_per_ns == self.total_bandwidth_bytes_per_ns
        &&& arbitration_named(self.arbitration@) == Some(bus.arbitration)
    }
}

/// The first unknown value in a list of bus sections.
pub open spec fn first_bus_fault(sections: Seq<SharedBusSection>) -> Option<Seq<char>>
    decreases sections.len(),
{
    if sections.len() == 0 {
        None
    } else {
        match first_bus_fault(sections.drop_last()) {
            Some(m) => Some(m),
            None => sections.last().fault(),
        }
    }
}

/// A fault among the first sections is the first one of all.
proof fn lemma_bus_fault(sections: Seq<SharedBusSection>, n: int)
    requires
        0 <= n <= sections.len(),
        first_bus_fault(sections.take(n)) is Some,
    ensures
        first_bus_fault(sections) == first_bus_fault(sections.take(n)),
    decreases sections.len() - n,
{
    if n == sections.len() {
        assert(sections.take(n) =~= sections);
    } else {
        assert(sections.take(n + 1).drop_last() =~= sections.take(n));
        lemma_bus_fault(sections, n + 1);
    }
}

impl PlatformConfig {
    /// Whether all times can be held in nanoseconds.
    pub open spec fn fits(&self) -> bool {
        &&& self.simulation.duration_ms * 1_000_000 <= u64::MAX
        &&& forall|i: int| 0 <= i < self.device@.len() ==> (#[trigger] self.device@[i]).fits()
    }

    /// Whether devices are those that the description stands for.
    pub open spec fn builds_devices(&self, devices: Seq<DeviceConfig>) -> bool {
        &&& first_device_fault(self.device@) is None
        &&& devices.len() == self.device@.len()
        &&& forall|i: int|
            0 <= i < devices.len() ==> self.device@[i].describes(i, #[trigger] devices[i])
    }

    /// Whether links are those that the description stands for, between
    /// devices.
    pub open spec fn builds_links(
        &self,
        devices: Seq<DeviceConfig>,
        links: Seq<InterconnectConfig>,
    ) -> bool {
        &&& first_link_fault(self.interconnect@, devices, self.shared_bus@) is None
        &&& links.len() == self.interconnect@.len()
        &&& forall|i: int|
            0 <= i < links.len() ==> #[trigger] links[i] == self.interconnect@[i].link(
                devices,
                self.shared_bus@,
            )
    }

    /// Whether buses are those that the description stands for.
    pub open spec fn builds_buses(&self, buses: Seq<SharedBusConfig>) -> bool {
        &&& first_bus_fault(self.shared_bus@) is None
        &&& buses.len() == self.shared_bus@.len()
        &&& forall|i: int|
            0 <= i < buses.len() ==> self.shared_bus@[i].describes(i, #[trigger] buses[i])
    }

    /// Tells whether all times can be held in nanoseconds.
    pub fn in_range(&self) -> (yes: bool)
        ensures
            yes == self.fits(),
    {
        if self.simulation.duration_ms > u64::MAX / 1_000_000 {
            return false;
        }
        let mut i: usize = 0;
        while i < self.device.len()
            invariant
                i <= self.device@.len(),
                self.simulation.duration_ms * 1_000_000 <= u64::MAX,
                forall|k: int| 0 <= k < i ==> (#[trigger] self.device@[k]).fits(),
            decreases self.device@.len() - i,
        {
            if !self.device[i].in_range() {
                return false;
            }
            i = i + 1;
        }
        true
    }

    /// Converts to a typed device list.
    pub fn build_devices(&self) -> (devices: Result<Vec<DeviceConfig>, PlatformError>)
        requires
            forall|i: int| 0 <= i < self.device@.len() ==> (#[trigger] self.device@[i]).fits(),
        ensures
            match devices {
                Ok(list) => self.builds_devices(list@),
                Err(e) => first_device_fault(self.device@) == Some(e.text()),
            },
    {
        let mut list: Vec<DeviceConfig> = Vec::new();
        let mut i: usize = 0;
        while i < self.device.len()
            invariant
                i <= self.device@.len(),
                forall|k: int| 0 <= k < self.device@.len() ==> (#[trigger] self.device@[k]).fits(),
                first_device_fault(self.device@.take(i as int)) is None,
                list@.len() == i,
                forall|k: int|
                    0 <= k < i ==> self.device@[k].describes(k, #[trigger] list@[k]),
            decreases self.device@.len() - i,
        {
            proof {
                assert(self.device@.take(i as int + 1).drop_last() =~= self.device@.take(i as int));
            }
            match self.device[i].build(i) {
                Ok(device) => {
                    list.push(device);
                },
                Err(e) => {
                    proof {
                        lemma_device_fault(self.device@, i as int + 1);
                    }
                    return Err(e);
                },
            }
            i = i + 1;
        }
        proof {
            assert(self.device@.take(i as int) =~= self.device@);
        }
        Ok(list)
    }

    /// Converts to a typed list of links between devices.
    pub fn build_interconnects(&self, devices: &Vec<DeviceConfig>) -> (links: Result<
        Vec<InterconnectConfig>,
        PlatformError,
    >)
        ensures
            match links {
                Ok(list) => self.builds_links(devices@, list@),
                Err(e) => first_link_fault(self.interconnect@, devices@, self.shared_bus@) == Some(
                    e.text(),
                ),
            },
    {
        let mut list: Vec<InterconnectConfig> = Vec::new();
        let mut i: usize = 0;
        while i < self.interconnect.len()
            invariant
                i <= self.interconnect@.len(),
                first_link_fault(
                    self.interconnect@.take(i as int),
                    devices@,
                    self.shared_bus@,
                ) is None,
                list@.len() == i,
                forall|k: int|
                    0 <= k < i ==> #[trigger] list@[k] == self.interconnect@[k].link(
                        devices@,
                        self.shared_bus@,
                    ),
            decreases self.interconnect@.len() - i,
        {
            proof {
                assert(self.interconnect@.take(i as int + 1).drop_last()
                    =~= self.interconnect@.take(i as int));
            }
            match self.interconnect[i].build(devices, &self.shared_bus) {
                Ok(link) => {
                    list.push(link);
                },
                Err(e) => {
                    proof {
                        lemma_link_fault(
                            self.interconnect@,
                            devices@,
                            self.shared_bus@,
                            i as int + 1,
                        );
                    }
                    return Err(e);
                },
            }
            i = i + 1;
        }
        proof {
            assert(self.interconnect@.take(i as int) =~= self.interconnect@);
        }
        Ok(list)
    }

    /// Converts to a typed list of shared buses.
    pub fn build_buses(&self) -> (buses: Result<Vec<SharedBusConfig>, PlatformError>)
        ensures
            match buses {
                Ok(list) => self.builds_buses(list@),
                Err(e) => first_bus_fault(self.shared_bus@) == Some(e.text()),
            },
    {
        let mut list: Vec<SharedBusConfig> = Vec::new();
        let mut i: usize = 0;
        while i < self.shared_bus.len()
            invariant
                i <= self.shared_bus@.len(),
                first_bus_fault(self.shared_bus@.take(i as int)) is None,
                list@.len() == i,
                forall|k: int|
                    0 <= k < i ==> self.shared_bus@[k].describes(k, #[trigger] list@[k]),
            decreases self.shared_bus@.len() - i,
        {
            let section: &SharedBusSection = &self.shared_bus[i];
            proof {
                assert(self.shared_bus@.take(i as int + 1).drop_last() =~= self.shared_bus@.take(
                    i as int,
                ));
            }
            match parse_arbitration(section.arbitration.as_str()) {
                Ok(arbitration) => {
                    list.push(
                        SharedBusConfig {
                            id: BusId(i as u32),
                            name: section.name.clone(),
                            total_bandwidth_bytes_per_ns: section.total_bandwidth_bytes_per_ns,
                            arbitration,
                        },
                    );
                },
                Err(e) => {
                    proof {
                        lemma_bus_fault(self.shared_bus@, i as int + 1);
                    }
                    return Err(e);
                },
            }
            i = i + 1;
        }
        proof {
            assert(self.shared_bus@.take(i as int) =~= self.shared_bus@);
        }
        Ok(list)
    }

    /// Simulation duration in nanoseconds.
    pub fn duration_ns(&self) -> (ns: Nanos)
        requires
            self.simulation.duration_ms * 1_000_000 <= u64::MAX,
        ensures
            ns == self.simulation.duration_ms * 1_000_000,
    {
        self.simulation.duration_ms * 1_000_000
    }
}

/// Devices that are built are numbered by their places, so that an id finds
/// its device.
pub proof fn law_devices_are_numbered(config: &PlatformConfig, devices: Seq<DeviceConfig>, i: int)
    requires
        devices.len() == config.device@.len(),
        devices.len() <= u32::MAX,
        forall|k: int|
            0 <= k < devices.len() ==> config.device@[k].describes(k, #[trigger] devices[k]),
        0 <= i < devices.len(),
    ensures
        devices[i].id.0 == i,
{
    assert(config.device@[i].describes(i, devices[i]));
}

} // verus!
