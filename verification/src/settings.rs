//! What descriptions of platforms and recorded workloads stand for.

use crate::analysis;
use crate::analysis::AnalysisMode;
use crate::catalog;
use crate::catalog::SchedulerKind;
use crate::device::{
    BusArbitration, DeviceConfig, InterconnectConfig, MultiCorePolicy, PreemptionModel,
    SharedBusConfig,
};
use crate::event::{Event, EventKind};
use crate::ids::{BusId, JobId, TaskId};
use crate::job::{Job, JobState};
use crate::platform;
use crate::platform::{
    DeviceSection, InterconnectSection, PlatformConfig, PreemptionLevel, SharedBusSection,
};
use crate::replay;
use crate::replay::{ReplayJob, ReplayTask};
use crate::search;
use crate::sim::Sim;
use crate::task::{DeviceType, Task};
use crate::traffic::capped;
use crate::words;
use vstd::prelude::*;
use vstd::string::*;

verus! {

/// Whether a text is a lower-case word, with any of its letters in upper case.
pub open spec fn says(s: Seq<char>, word: Seq<char>) -> bool {
    &&& s.len() == word.len()
    &&& forall|i: int|
        0 <= i < word.len() ==> (#[trigger] s[i] == word[i] || ('a' <= word[i] <= 'z' && s[i] as int
            == word[i] as int - 32))
}

/// Words are read in either case.
pub proof fn law_words_are_read_in_either_case(s: Seq<char>, word: Seq<char>)
    ensures
        words::reads(s, word) <==> says(s, word),
{
    if words::reads(s, word) {
        assert forall|i: int| 0 <= i < word.len() implies (#[trigger] s[i] == word[i] || ('a'
            <= word[i] <= 'z' && s[i] as int == word[i] as int - 32)) by {
            assert(words::same_letter(s[i], word[i]));
        }
    }
}

/// Whether a word names a device type.
pub open spec fn names_type(s: Seq<char>, dt: DeviceType) -> bool {
    match dt {
        DeviceType::Cpu => says(s, "cpu"@),
        DeviceType::Gpu => says(s, "gpu"@),
        DeviceType::Dsp => says(s, "dsp"@),
        DeviceType::Fpga => says(s, "fpga"@),
    }
}

/// A time in nanoseconds for one in microseconds, with a default.
pub open spec fn in_ns(us: Option<u64>, default: int) -> int {
    match us {
        Some(n) => n * 1000,
        None => default,
    }
}

/// Whether a section names a preemption model, with its times, or those that
/// count where none are given: a granularity of 50 us; an interrupt overhead of
/// 5 us and a transfer that holds off interrupts for 100 us; a
/// reconfiguration of 2 ms.
pub open spec fn names_model(section: DeviceSection, model: PreemptionModel) -> bool {
    let s = section.preemption@;
    match model {
        PreemptionModel::FullyPreemptive => says(s, "full"@) || says(s, "fully_preemptive"@),
        PreemptionModel::LimitedPreemptive { granularity_ns } => (says(s, "limited"@) || says(
            s,
            "limited_preemptive"@,
        )) && granularity_ns == in_ns(section.preemption_granularity_us, 50_000),
        PreemptionModel::InterruptLevel { isr_overhead_ns, dma_non_preemptive_ns } => (says(
            s,
            "interrupt"@,
        ) || says(s, "interrupt_level"@)) && isr_overhead_ns == in_ns(
            section.isr_overhead_us,
            5_000,
        ) && dma_non_preemptive_ns == in_ns(section.dma_non_preemptive_us, 100_000),
        PreemptionModel::NonPreemptive { reconfig_time_ns } => (says(s, "none"@) || says(
            s,
            "non_preemptive"@,
        )) && reconfig_time_ns == in_ns(section.reconfig_time_us, 2_000_000),
    }
}

/// Whether a word names an arbitration.
pub open spec fn names_arbitration(s: Seq<char>, arbitration: BusArbitration) -> bool {
    match arbitration {
        BusArbitration::Dedicated => says(s, "dedicated"@),
        BusArbitration::RoundRobin => says(s, "round_robin"@),
        BusArbitration::PriorityBased => says(s, "priority"@) || says(s, "priority_based"@),
        BusArbitration::Tdma { slot_ns } => says(s, "tdma"@) && slot_ns == 0,
    }
}

proof fn lemma_reads_all(s: Seq<char>)
    ensures
        forall|word: Seq<char>| #[trigger] words::reads(s, word) == says(s, word),
{
    assert forall|word: Seq<char>| #[trigger] words::reads(s, word) == says(s, word) by {
        law_words_are_read_in_either_case(s, word);
    }
}

/// Devices are numbered in the order of their sections, and each has the name,
/// type, cores, preemption model, context switch time, speed and power that
/// its section gives.
pub proof fn law_devices_are_as_described(
    p: &PlatformConfig,
    devices: Seq<DeviceConfig>,
    i: int,
)
    requires
        p.builds_devices(devices),
        p.fits(),
        0 <= i < devices.len() <= u32::MAX,
    ensures
        devices.len() == p.device@.len(),
        devices[i].id.0 == i,
        devices[i].name@ == p.device@[i].name@,
        names_type(p.device@[i].device_type@, devices[i].device_type),
        names_model(p.device@[i], devices[i].preemption),
        devices[i].cores == p.device@[i].cores,
        devices[i].context_switch_ns == p.device@[i].context_switch_us * 1000,
        devices[i].speed_factor == p.device@[i].speed_factor,
        devices[i].power_watts == p.device@[i].power_watts,
        devices[i].device_group is None,
        p.device@[i].multicore_policy is None ==> devices[i].multicore_policy is None,
        p.device@[i].multicore_policy matches Some(word) ==> {
            &&& says(word@, "partitioned"@) ==> devices[i].multicore_policy == Some(
                MultiCorePolicy::Partitioned,
            )
            &&& says(word@, "global"@) && !says(word@, "partitioned"@)
                ==> devices[i].multicore_policy == Some(MultiCorePolicy::Global)
            &&& devices[i].multicore_policy is Some
        },
{
    let section = p.device@[i];
    assert(section.describes(i, devices[i]));
    assert(section.fits());
    lemma_reads_all(section.device_type@);
    lemma_reads_all(section.preemption@);
    if let Some(word) = section.multicore_policy {
        lemma_reads_all(word@);
        lemma_no_fault(p.device@, i);
    }
}

proof fn lemma_no_fault(sections: Seq<DeviceSection>, i: int)
    requires
        platform::first_device_fault(sections) is None,
        0 <= i < sections.len(),
    ensures
        sections[i].fault() is None,
    decreases sections.len(),
{
    if i < sections.len() - 1 {
        lemma_no_fault(sections.drop_last(), i);
    }
}

/// Whether a device is the first one of a name.
pub open spec fn is_called(devices: Seq<DeviceConfig>, name: Seq<char>, i: int) -> bool {
    &&& 0 <= i < devices.len()
    &&& devices[i].name@ == name
    &&& forall|j: int| 0 <= j < i ==> (#[trigger] devices[j]).name@ != name
}

/// Whether a bus section is the first one of a name.
pub open spec fn is_bus(sections: Seq<SharedBusSection>, name: Seq<char>, i: int) -> bool {
    &&& 0 <= i < sections.len()
    &&& sections[i].name@ == name
    &&& forall|j: int| 0 <= j < i ==> (#[trigger] sections[j]).name@ != name
}

/// Links join the first devices of the names that their sections give, over
/// the first bus of the name if any, with the latency, bandwidth and
/// arbitration given.
pub proof fn law_links_are_as_described(
    p: &PlatformConfig,
    devices: Seq<DeviceConfig>,
    links: Seq<InterconnectConfig>,
    i: int,
    from: int,
    to: int,
    bus: int,
)
    requires
        p.builds_links(devices, links),
        0 <= i < links.len(),
        p.shared_bus@.len() <= u32::MAX,
    ensures
        links.len() == p.interconnect@.len(),
        is_called(devices, p.interconnect@[i].from@, from) ==> links[i].from == devices[from].id,
        is_called(devices, p.interconnect@[i].to@, to) ==> links[i].to == devices[to].id,
        links[i].latency_ns == p.interconnect@[i].latency_ns,
        links[i].bandwidth_bytes_per_ns == p.interconnect@[i].bandwidth_bytes_per_ns,
        p.interconnect@[i].shared_bus is None ==> links[i].shared_bus is None,
        p.interconnect@[i].shared_bus matches Some(name) ==> is_bus(
            p.shared_bus@,
            name@,
            bus,
        ) ==> links[i].shared_bus == Some(BusId(bus as u32)),
        names_arbitration(p.interconnect@[i].arbitration@, links[i].arbitration),
{
    let section = p.interconnect@[i];
    assert(links[i] == section.link(devices, p.shared_bus@));
    lemma_reads_all(section.arbitration@);
    lemma_no_link_fault(p.interconnect@, devices, p.shared_bus@, i);
    if is_called(devices, section.from@, from) {
        let cond = platform::device_called(section.from@);
        search::lemma_found(devices, cond, from);
    }
    if is_called(devices, section.to@, to) {
        let cond = platform::device_called(section.to@);
        search::lemma_found(devices, cond, to);
    }
    if let Some(name) = section.shared_bus {
        if is_bus(p.shared_bus@, name@, bus) {
            search::lemma_found(p.shared_bus@, platform::bus_called(name@), bus);
        }
    }
}

proof fn lemma_no_link_fault(
    sections: Seq<InterconnectSection>,
    devices: Seq<DeviceConfig>,
    buses: Seq<SharedBusSection>,
    i: int,
)
    requires
        platform::first_link_fault(sections, devices, buses) is None,
        0 <= i < sections.len(),
    ensures
        sections[i].fault(devices, buses) is None,
    decreases sections.len(),
{
    if i < sections.len() - 1 {
        lemma_no_link_fault(sections.drop_last(), devices, buses, i);
    }
}

/// Buses are numbered in the order of their sections, with the name, bandwidth
/// and arbitration given.
pub proof fn law_buses_are_as_described(
    p: &PlatformConfig,
    buses: Seq<SharedBusConfig>,
    i: int,
)
    requires
        p.builds_buses(buses),
        0 <= i < buses.len() <= u32::MAX,
    ensures
        buses.len() == p.shared_bus@.len(),
        buses[i].id.0 == i,
        buses[i].name@ == p.shared_bus@[i].name@,
        buses[i].total_bandwidth_bytes_per_ns == p.shared_bus@[i].total_bandwidth_bytes_per_ns,
        names_arbitration(p.shared_bus@[i].arbitration@, buses[i].arbitration),
{
    let section = p.shared_bus@[i];
    assert(section.describes(i, buses[i]));
    lemma_reads_all(section.arbitration@);
}

/// A section is at fault exactly where it names no known device type, no known
/// preemption model, or a multi-core policy that is not known.
pub proof fn law_unknown_words_are_faults(section: DeviceSection)
    ensures
        (forall|dt: DeviceType| !#[trigger] names_type(section.device_type@, dt))
            ==> (section.fault() matches Some(m) && m =~= "unknown device type: "@
            + section.device_type@),
        section.fault() is None ==> (exists|dt: DeviceType| #[trigger]
            names_type(section.device_type@, dt)),
        (exists|dt: DeviceType| #[trigger] names_type(section.device_type@, dt))
            && platform::level_named(section.preemption@) is Some
            && section.multicore_policy is None ==> section.fault() is None,
{
    let s = section.device_type@;
    lemma_reads_all(s);
    assert(names_type(s, DeviceType::Cpu) == words::reads(s, "cpu"@));
    assert(names_type(s, DeviceType::Gpu) == words::reads(s, "gpu"@));
    assert(names_type(s, DeviceType::Dsp) == words::reads(s, "dsp"@));
    assert(names_type(s, DeviceType::Fpga) == words::reads(s, "fpga"@));
}

/// Whether a recorded task is the last one of a number.
pub open spec fn is_recorded(tasks: Seq<ReplayTask>, number: u32, i: int) -> bool {
    &&& 0 <= i < tasks.len()
    &&& tasks[i].task_id == number
    &&& forall|j: int| i < j < tasks.len() ==> (#[trigger] tasks[j]).task_id != number
}

/// A recorded job of a recorded task is new in its turn: with its own deadline,
/// or that of its task from its release on, its own execution time if it has
/// one, and the priority of its task. Its arrival is pending for its release,
/// and its deadline is checked right after it has passed.
pub proof fn law_recorded_jobs_are_replayed(
    s: Sim,
    tasks: Seq<ReplayTask>,
    jobs: Seq<ReplayJob>,
    job: ReplayJob,
    i: int,
)
    requires
        is_recorded(tasks, job.task_id, i),
    ensures
        replay::replayed(s, tasks, Seq::empty()) == s,
        ({
            let m = replay::replayed(s, tasks, jobs);
            let t = replay::replayed(s, tasks, jobs.push(job));
            let id = JobId(m.jobs.len() as u64);
            let deadline = match job.absolute_deadline_ns {
                Some(ns) => ns as int,
                None => capped(job.release_ns + tasks[i].deadline_ns),
            };
            let arrival = Event {
                time: job.release_ns,
                seq: m.seq,
                kind: EventKind::TaskArrival { task_id: TaskId(job.task_id), job_id: id },
            };
            let check = Event {
                time: capped(deadline + 1) as u64,
                seq: (m.seq + 1) as u64,
                kind: EventKind::DeadlineCheck { job_id: id, expected_version: 0 },
            };
            &&& t.jobs =~= m.jobs.push(
                Some(
                    Job {
                        id,
                        task_id: TaskId(job.task_id),
                        state: JobState::Released,
                        version: 0,
                        release_time: job.release_ns,
                        absolute_deadline: deadline as u64,
                        actual_exec_ns: job.actual_exec_ns,
                        dag_provenance: None,
                        executed_ns: 0,
                        assigned_device: None,
                        exec_start_time: None,
                        effective_priority: tasks[i].priority,
                    },
                ),
            )
            &&& m.seq < u64::MAX - 1 ==> t.events == m.events.insert(arrival).insert(check)
                && t.seq == m.seq + 2
            &&& t =~= (Sim { jobs: t.jobs, events: t.events, seq: t.seq, ..m })
        }),
{
    let cond = replay::numbered(job.task_id);
    search::law_last_where(tasks, cond);
    let k = search::last_where(tasks, cond);
    assert(cond(tasks[i]));
    assert(k == Some(i)) by {
        assert(tasks[k->0].task_id == job.task_id);
    }
    assert(jobs.push(job).drop_last() =~= jobs);
    assert(jobs.push(job).last() == job);
}

/// A recorded task becomes a task that arrives on demand, with all that was
/// recorded.
pub proof fn law_recorded_tasks_are_kept(tasks: Seq<ReplayTask>, i: int)
    requires
        0 <= i < tasks.len(),
    ensures
        replay::made_of_all(tasks).len() == tasks.len(),
        ({
            let made = replay::made_of_all(tasks)[i];
            &&& made.id.0 == tasks[i].task_id
            &&& made.name@ == tasks[i].name@
            &&& made.priority == tasks[i].priority
            &&& made.arrival is Aperiodic
            &&& made.deadline == tasks[i].deadline_ns
            &&& made.criticality == tasks[i].criticality
            &&& made.exec_times@ == tasks[i].exec_times@
            &&& made.affinity@ == tasks[i].affinity@
            &&& made.data_size == tasks[i].data_size
        }),
{
}

/// A clustered policy is read with the number of cores per cluster behind an
/// underscore or in brackets.
pub proof fn law_cluster_sizes_are_read(k: u32)
    ensures
        platform::cluster_size("clustered"@ + seq!['_'] + crate::text::decimal(k as nat)) == k,
        platform::cluster_size(
            "clustered"@ + seq!['('] + crate::text::decimal(k as nat) + seq![')'],
        ) == k,
{
    let digits = crate::text::decimal(k as nat);
    let word = "clustered"@;
    reveal_strlit("clustered");
    words::law_decimal_reads_back(k as nat, u32::MAX as u64);
    words::lemma_decimal_ends(k as nat);
    let a = word + seq!['_'] + digits;
    let a_tail = seq!['_'] + digits;
    lemma_after_word(a, word, a_tail);
    assert(a_tail.skip(1) =~= digits);
    assert(platform::opened(digits) == digits);
    assert(platform::opened(a_tail) == platform::opened(a_tail.skip(1)));
    assert(platform::closed_off(digits) == digits);
    let b = word + seq!['('] + digits + seq![')'];
    let b_tail = seq!['('] + digits + seq![')'];
    let b_rest = digits + seq![')'];
    assert(b =~= word + b_tail);
    lemma_after_word(b, word, b_tail);
    assert(b_tail.skip(1) =~= b_rest);
    assert(b_rest[0] == digits[0]);
    assert(platform::opened(b_rest) == b_rest);
    assert(platform::opened(b_tail) == platform::opened(b_tail.skip(1)));
    assert(b_rest.drop_last() =~= digits);
    assert(platform::closed_off(b_rest) == platform::closed_off(b_rest.drop_last()));
}

proof fn lemma_after_word(s: Seq<char>, word: Seq<char>, tail: Seq<char>)
    requires
        s =~= word + tail,
        word == "clustered"@,
        tail.len() > 0,
        tail[0] == '_' || tail[0] == '(',
    ensures
        platform::after_all(s, word) == tail,
{
    reveal_strlit("clustered");
    assert(s.take(word.len() as int) =~= word);
    assert(platform::starts_with(s, word)) by {
        assert forall|i: int| 0 <= i < word.len() implies words::same_letter(
            #[trigger] s.take(word.len() as int)[i],
            word[i],
        ) by {}
    }
    assert(s.skip(word.len() as int) =~= tail);
    assert(!platform::starts_with(tail, word)) by {
        if platform::starts_with(tail, word) {
            assert(words::same_letter(tail.take(word.len() as int)[0], word[0]));
        }
    }
    assert(platform::after_all(tail, word) == tail);
}

/// What is wrong with a description is what is wrong with its first section
/// that is at fault.
pub proof fn law_the_first_fault_is_told(sections: Seq<DeviceSection>)
    ensures
        match platform::first_device_fault(sections) {
            Some(m) => exists|i: int|
                0 <= i < sections.len() && (#[trigger] sections[i]).fault() == Some(m) && forall|
                    j: int,
                | 0 <= j < i ==> (#[trigger] sections[j]).fault() is None,
            None => forall|j: int|
                0 <= j < sections.len() ==> (#[trigger] sections[j]).fault() is None,
        },
    decreases sections.len(),
{
    if sections.len() > 0 {
        let rest = sections.drop_last();
        let n = sections.len() - 1;
        law_the_first_fault_is_told(rest);
        assert forall|j: int| 0 <= j < rest.len() implies rest[j] == #[trigger] sections[j] by {}
        match platform::first_device_fault(rest) {
            Some(m) => {
                let i = choose|i: int|
                    0 <= i < rest.len() && (#[trigger] rest[i]).fault() == Some(m) && forall|
                        j: int,
                    | 0 <= j < i ==> (#[trigger] rest[j]).fault() is None;
                assert(sections[i].fault() == Some(m));
                assert forall|j: int| 0 <= j < i implies (
                #[trigger] sections[j]).fault() is None by {
                    assert(rest[j].fault() is None);
                }
            },
            None => {
                assert forall|j: int| 0 <= j < n implies (
                #[trigger] sections[j]).fault() is None by {
                    assert(rest[j].fault() is None);
                }
                assert(sections[n] == sections.last());
            },
        }
    }
}

/// A link section is at fault exactly where it names a device or a bus that is
/// not there, or no known arbitration.
pub proof fn law_unknown_ends_are_faults(
    section: InterconnectSection,
    devices: Seq<DeviceConfig>,
    buses: Seq<SharedBusSection>,
)
    ensures
        (forall|i: int| !#[trigger] is_called(devices, section.from@, i)) ==> (section.fault(
            devices,
            buses,
        ) matches Some(m) && m =~= "unknown device: "@ + section.from@),
        (exists|i: int| #[trigger] is_called(devices, section.from@, i)) && (forall|i: int|
            !#[trigger] is_called(devices, section.to@, i)) ==> (section.fault(
            devices,
            buses,
        ) matches Some(m) && m =~= "unknown device: "@ + section.to@),
        section.fault(devices, buses) is None ==> {
            &&& exists|i: int| #[trigger] is_called(devices, section.from@, i)
            &&& exists|i: int| #[trigger] is_called(devices, section.to@, i)
            &&& section.shared_bus matches Some(name) ==> exists|i: int| #[trigger]
                is_bus(buses, name@, i)
        },
{
    lemma_called(devices, section.from@);
    lemma_called(devices, section.to@);
    if let Some(name) = section.shared_bus {
        let cond = platform::bus_called(name@);
        search::law_first_where(buses, cond);
        if let Some(i) = search::first_where(buses, cond) {
            assert forall|j: int| 0 <= j < i implies (#[trigger] buses[j]).name@ != name@ by {
                assert(!cond(buses[j]));
            }
            assert(is_bus(buses, name@, i));
        }
    }
}

proof fn lemma_called(devices: Seq<DeviceConfig>, name: Seq<char>)
    ensures
        match search::first_where(devices, platform::device_called(name)) {
            Some(i) => is_called(devices, name, i),
            None => forall|i: int| !#[trigger] is_called(devices, name, i),
        },
{
    let cond = platform::device_called(name);
    search::law_first_where(devices, cond);
    match search::first_where(devices, cond) {
        Some(i) => {
            assert forall|j: int| 0 <= j < i implies (#[trigger] devices[j]).name@ != name by {
                assert(!cond(devices[j]));
            }
        },
        None => {
            assert forall|i: int| !#[trigger] is_called(devices, name, i) by {
                if is_called(devices, name, i) {
                    assert(cond(devices[i]));
                }
            }
        },
    }
}

/// Whether a number is that of no recorded task.
pub open spec fn is_unknown(tasks: Seq<ReplayTask>, number: u32) -> bool {
    forall|i: int| 0 <= i < tasks.len() ==> (#[trigger] tasks[i]).task_id != number
}

/// A recorded workload does not fit together where a job is of a task that is
/// not recorded; the first such job is the one that is told.
pub proof fn law_unknown_tasks_are_told(recorded: &replay::ReplayWorkload)
    ensures
        match recorded.first_unknown() {
            Some(i) => {
                &&& 0 <= i < recorded.jobs@.len()
                &&& is_unknown(recorded.tasks@, recorded.jobs@[i].task_id)
                &&& forall|j: int|
                    0 <= j < i ==> !is_unknown(
                        recorded.tasks@,
                        (#[trigger] recorded.jobs@[j]).task_id,
                    )
            },
            None => forall|j: int|
                0 <= j < recorded.jobs@.len() ==> !is_unknown(
                    recorded.tasks@,
                    (#[trigger] recorded.jobs@[j]).task_id,
                ),
        },
{
    let tasks = recorded.tasks@;
    let cond = replay::of_unknown_task(tasks);
    search::law_first_where(recorded.jobs@, cond);
    assert forall|j: int| 0 <= j < recorded.jobs@.len() implies cond(recorded.jobs@[j])
        == is_unknown(tasks, (#[trigger] recorded.jobs@[j]).task_id) by {
        let number = recorded.jobs@[j].task_id;
        let same = replay::numbered(number);
        search::law_last_where(tasks, same);
        match search::last_where(tasks, same) {
            Some(i) => {
                assert(tasks[i].task_id == number);
            },
            None => {
                assert forall|i: int| 0 <= i < tasks.len() implies (#[trigger] tasks[i]).task_id
                    != number by {
                    assert(!same(tasks[i]));
                }
            },
        }
    }
}

/// A workload is told by its source: that of a recorded one where it is known.
pub proof fn law_sources_are_told(recorded: replay::ReplayWorkload, tasks: Vec<Task>)
    ensures
        replay::source_text(&replay::WorkloadInput::Synthetic { tasks }) =~= "synthetic"@,
        match recorded.metadata.source {
            Some(source) => replay::source_text(&replay::WorkloadInput::Replay(recorded))
                =~= source@,
            None => replay::source_text(&replay::WorkloadInput::Replay(recorded)) =~= "replay"@,
        },
        replay::assumptions(&replay::WorkloadInput::Synthetic { tasks }).len() == 0,
        replay::assumptions(&replay::WorkloadInput::Replay(recorded)).len()
            == recorded.metadata.assumptions@.len(),
{
}

/// No text says two words of one length that differ in a place.
proof fn lemma_apart(s: Seq<char>, a: Seq<char>, b: Seq<char>, i: int)
    requires
        a.len() == b.len(),
        0 <= i < a.len(),
        a[i] != b[i],
        !('A' <= a[i] <= 'Z'),
        !('A' <= b[i] <= 'Z'),
    ensures
        !(says(s, a) && says(s, b)),
{
    if says(s, a) && says(s, b) {
        assert(s[i] == a[i] || ('a' <= a[i] <= 'z' && s[i] as int == a[i] as int - 32));
        assert(s[i] == b[i] || ('a' <= b[i] <= 'z' && s[i] as int == b[i] as int - 32));
    }
}

/// Whether a word names a preemption model.
pub open spec fn names_level(s: Seq<char>, level: PreemptionLevel) -> bool {
    match level {
        PreemptionLevel::Full => says(s, "full"@) || says(s, "fully_preemptive"@),
        PreemptionLevel::Limited => says(s, "limited"@) || says(s, "limited_preemptive"@),
        PreemptionLevel::Interrupt => says(s, "interrupt"@) || says(s, "interrupt_level"@),
        PreemptionLevel::NonPreemptive => says(s, "none"@) || says(s, "non_preemptive"@),
    }
}

/// Whether a word names an algorithm.
pub open spec fn names_kind(s: Seq<char>, kind: SchedulerKind) -> bool {
    match kind {
        SchedulerKind::Fp => says(s, "fp"@),
        SchedulerKind::Edf => says(s, "edf"@),
        SchedulerKind::Edfvd => says(s, "edfvd"@),
        SchedulerKind::Llf => says(s, "llf"@),
        SchedulerKind::Heft => says(s, "heft"@),
        SchedulerKind::Cpedf => says(s, "cpedf"@),
        SchedulerKind::Federated => says(s, "federated"@),
        SchedulerKind::GlobalEdf => says(s, "global-edf"@) || says(s, "global_edf"@) || says(s, "globaledf"@) || says(s, "gedf"@),
        SchedulerKind::Gang => says(s, "gang"@),
        SchedulerKind::Xsched => says(s, "xsched"@) || says(s, "x-sched"@),
        SchedulerKind::Gcaps => says(s, "gcaps"@),
        SchedulerKind::Gpreempt => says(s, "gpreempt"@) || says(s, "g-preempt"@),
        SchedulerKind::Rtgpu => says(s, "rtgpu"@) || says(s, "rt-gpu"@),
        SchedulerKind::Match => says(s, "match"@),
        SchedulerKind::GpuPreemptivePriority => says(s, "gpu-preemptive-priority"@) || says(s, "gpu_preemptive_priority"@) || says(s, "gpu-preempt-priority"@) || says(s, "gpupp"@),
    }
}

/// Whether a word names an analysis mode.
pub open spec fn names_mode(s: Seq<char>, mode: AnalysisMode) -> bool {
    match mode {
        AnalysisMode::NoAnalysis => says(s, "none"@),
        AnalysisMode::RtaUniprocessorFp => says(s, "rta-uniprocessor-fp"@) || says(s, "rta_uniprocessor_fp"@) || says(s, "uniprocessor-fp"@),
        AnalysisMode::RtaUniformGlobalFpScaffold => says(s, "rta-uniform-global-fp-scaffold"@) || says(s, "rta_uniform_global_fp_scaffold"@) || says(s, "uniform-global-fp"@) || says(s, "uniform-global-fp-scaffold"@),
        AnalysisMode::UtilVectors => says(s, "util-vectors"@) || says(s, "util_vectors"@) || says(s, "utilization-vectors"@),
        AnalysisMode::UniformRtaGlobalFp => says(s, "uniform-rta-global-fp"@) || says(s, "uniform_rta_global_fp"@) || says(s, "uniform-rta"@),
        AnalysisMode::ConditionalDag => says(s, "conditional-dag"@) || says(s, "conditional_dag"@),
        AnalysisMode::Shape => says(s, "shape"@),
        AnalysisMode::OpenmpWcrt => says(s, "openmp-wcrt"@) || says(s, "openmp_wcrt"@),
        AnalysisMode::SimsoScopeExtension => says(s, "simso-scope-extension"@) || says(s, "simso_scope_extension"@) || says(s, "simso-extension"@),
    }
}

/// A word is read as a device type exactly where it names it.
pub proof fn law_types_have_names(s: Seq<char>, dt: DeviceType)
    ensures
        platform::type_named(s) == Some(dt) <==> names_type(s, dt),
{
    lemma_reads_all(s);
    reveal_strlit("cpu");
    reveal_strlit("gpu");
    reveal_strlit("dsp");
    reveal_strlit("fpga");
    lemma_apart(s, "cpu"@, "gpu"@, 0);
    lemma_apart(s, "cpu"@, "dsp"@, 0);
    lemma_apart(s, "gpu"@, "dsp"@, 0);
}

/// A word is read as a preemption model exactly where it names it.
pub proof fn law_levels_have_names(s: Seq<char>, level: PreemptionLevel)
    ensures
        platform::level_named(s) == Some(level) <==> names_level(s, level),
{
    lemma_reads_all(s);
    reveal_strlit("full");
    reveal_strlit("fully_preemptive");
    reveal_strlit("limited");
    reveal_strlit("limited_preemptive");
    reveal_strlit("interrupt");
    reveal_strlit("interrupt_level");
    reveal_strlit("none");
    reveal_strlit("non_preemptive");
    lemma_apart(s, "full"@, "none"@, 0);
}

/// A word is read as an arbitration exactly where it names it.
pub proof fn law_arbitrations_have_names(s: Seq<char>, arbitration: BusArbitration)
    ensures
        platform::arbitration_named(s) == Some(arbitration) <==> names_arbitration(s, arbitration),
{
    lemma_reads_all(s);
    reveal_strlit("dedicated");
    reveal_strlit("round_robin");
    reveal_strlit("priority");
    reveal_strlit("priority_based");
    reveal_strlit("tdma");
}

/// A word is read as an algorithm exactly where it names it.
pub proof fn law_algorithms_have_names(s: Seq<char>, kind: SchedulerKind)
    ensures
        catalog::kind_named(s) == Some(kind) <==> names_kind(s, kind),
{
    lemma_reads_all(s);
    reveal_strlit("fp");
    reveal_strlit("edf");
    reveal_strlit("edfvd");
    reveal_strlit("llf");
    reveal_strlit("heft");
    reveal_strlit("cpedf");
    reveal_strlit("federated");
    reveal_strlit("global-edf");
    reveal_strlit("global_edf");
    reveal_strlit("globaledf");
    reveal_strlit("gedf");
    reveal_strlit("gang");
    reveal_strlit("xsched");
    reveal_strlit("x-sched");
    reveal_strlit("gcaps");
    reveal_strlit("gpreempt");
    reveal_strlit("g-preempt");
    reveal_strlit("rtgpu");
    reveal_strlit("rt-gpu");
    reveal_strlit("match");
    reveal_strlit("gpu-preemptive-priority");
    reveal_strlit("gpu_preemptive_priority");
    reveal_strlit("gpu-preempt-priority");
    reveal_strlit("gpupp");
    lemma_apart(s, "edf"@, "llf"@, 0);
    lemma_apart(s, "edfvd"@, "cpedf"@, 0);
    lemma_apart(s, "edfvd"@, "gcaps"@, 0);
    lemma_apart(s, "edfvd"@, "rtgpu"@, 0);
    lemma_apart(s, "edfvd"@, "match"@, 0);
    lemma_apart(s, "edfvd"@, "gpupp"@, 0);
    lemma_apart(s, "heft"@, "gedf"@, 0);
    lemma_apart(s, "heft"@, "gang"@, 0);
    lemma_apart(s, "cpedf"@, "gcaps"@, 0);
    lemma_apart(s, "cpedf"@, "rtgpu"@, 0);
    lemma_apart(s, "cpedf"@, "match"@, 0);
    lemma_apart(s, "cpedf"@, "gpupp"@, 0);
    lemma_apart(s, "federated"@, "globaledf"@, 0);
    lemma_apart(s, "federated"@, "g-preempt"@, 0);
    lemma_apart(s, "gedf"@, "gang"@, 1);
    lemma_apart(s, "globaledf"@, "g-preempt"@, 1);
    lemma_apart(s, "xsched"@, "rt-gpu"@, 0);
    lemma_apart(s, "gcaps"@, "rtgpu"@, 0);
    lemma_apart(s, "gcaps"@, "match"@, 0);
    lemma_apart(s, "gcaps"@, "gpupp"@, 1);
    lemma_apart(s, "rtgpu"@, "match"@, 0);
    lemma_apart(s, "rtgpu"@, "gpupp"@, 0);
    lemma_apart(s, "match"@, "gpupp"@, 0);
}

/// A word is read as an analysis mode exactly where it names it.
pub proof fn law_modes_have_names(s: Seq<char>, mode: AnalysisMode)
    ensures
        analysis::mode_named(s) == Some(mode) <==> names_mode(s, mode),
{
    lemma_reads_all(s);
    reveal_strlit("none");
    reveal_strlit("rta-uniprocessor-fp");
    reveal_strlit("rta_uniprocessor_fp");
    reveal_strlit("uniprocessor-fp");
    reveal_strlit("rta-uniform-global-fp-scaffold");
    reveal_strlit("rta_uniform_global_fp_scaffold");
    reveal_strlit("uniform-global-fp");
    reveal_strlit("uniform-global-fp-scaffold");
    reveal_strlit("util-vectors");
    reveal_strlit("util_vectors");
    reveal_strlit("utilization-vectors");
    reveal_strlit("uniform-rta-global-fp");
    reveal_strlit("uniform_rta_global_fp");
    reveal_strlit("uniform-rta");
    reveal_strlit("conditional-dag");
    reveal_strlit("conditional_dag");
    reveal_strlit("shape");
    reveal_strlit("openmp-wcrt");
    reveal_strlit("openmp_wcrt");
    reveal_strlit("simso-scope-extension");
    reveal_strlit("simso_scope_extension");
    reveal_strlit("simso-extension");
    lemma_apart(s, "rta-uniprocessor-fp"@, "utilization-vectors"@, 0);
    lemma_apart(s, "rta_uniprocessor_fp"@, "utilization-vectors"@, 0);
    lemma_apart(s, "uniprocessor-fp"@, "conditional-dag"@, 0);
    lemma_apart(s, "uniprocessor-fp"@, "conditional_dag"@, 0);
    lemma_apart(s, "uniprocessor-fp"@, "simso-extension"@, 0);
    lemma_apart(s, "uniform-rta"@, "openmp-wcrt"@, 0);
    lemma_apart(s, "uniform-rta"@, "openmp_wcrt"@, 0);
    lemma_apart(s, "uniform-rta-global-fp"@, "simso-scope-extension"@, 0);
    lemma_apart(s, "uniform-rta-global-fp"@, "simso_scope_extension"@, 0);
    lemma_apart(s, "uniform_rta_global_fp"@, "simso-scope-extension"@, 0);
    lemma_apart(s, "uniform_rta_global_fp"@, "simso_scope_extension"@, 0);
    lemma_apart(s, "conditional-dag"@, "simso-extension"@, 0);
    lemma_apart(s, "conditional_dag"@, "simso-extension"@, 0);
}

/// Global and partitioned policies are read by name.
pub proof fn law_policies_have_names(s: Seq<char>)
    ensures
        says(s, "partitioned"@) ==> platform::policy_named(s) == Some(MultiCorePolicy::Partitioned),
        says(s, "global"@) ==> platform::policy_named(s) == Some(MultiCorePolicy::Global),
        platform::policy_named(s) == Some(MultiCorePolicy::Partitioned) ==> says(
            s,
            "partitioned"@,
        ),
        platform::policy_named(s) == Some(MultiCorePolicy::Global) ==> says(s, "global"@),
{
    lemma_reads_all(s);
    reveal_strlit("partitioned");
    reveal_strlit("global");
}

/// A task that stands for a recorded one has all that was recorded of it, and
/// arrives on demand.
pub proof fn law_tasks_stand_for_what_was_recorded(recorded: ReplayTask, made: Task)
    requires
        replay::stands_for(recorded, made),
    ensures
        made.id.0 == recorded.task_id,
        made.name@ == recorded.name@,
        made.priority == recorded.priority,
        made.arrival is Aperiodic,
        made.deadline == recorded.deadline_ns,
        made.criticality == recorded.criticality,
        made.exec_times@ == recorded.exec_times@,
        made.affinity@ == recorded.affinity@,
        made.data_size == recorded.data_size,
{
}

/// The new number of a task is the last place where its number is recorded.
pub proof fn law_new_numbers_are_places(tasks: Seq<ReplayTask>, number: u32)
    requires
        tasks.len() <= u32::MAX,
    ensures
        is_unknown(tasks, number) ==> replay::new_number(tasks, number) == number,
        !is_unknown(tasks, number) ==> {
            let place = replay::new_number(tasks, number);
            &&& place < tasks.len()
            &&& tasks[place as int].task_id == number
            &&& forall|j: int| place < j < tasks.len() ==> (#[trigger] tasks[j]).task_id != number
        },
{
    let same = replay::numbered(number);
    search::law_last_where(tasks, same);
    match search::last_where(tasks, same) {
        Some(i) => {
            assert(tasks[i].task_id == number);
            assert forall|j: int| i < j < tasks.len() implies (#[trigger] tasks[j]).task_id
                != number by {
                assert(!same(tasks[j]));
            }
        },
        None => {
            assert forall|j: int| 0 <= j < tasks.len() implies (#[trigger] tasks[j]).task_id
                != number by {
                assert(!same(tasks[j]));
            }
        },
    }
}

} // verus!
