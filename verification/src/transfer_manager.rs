//! Interconnect and data transfer manager.
//!
//! Handles data transfers between devices, shared bus arbitration and the
//! calculation of transfer times.

use crate::arith;
use crate::arith::Ratio;
use crate::dag::EdgeTransferId;
use crate::device::{BusArbitration, InterconnectConfig, SharedBusConfig};
use crate::event::EventKind;
use crate::ids::{BusId, DeviceId, JobId};
use crate::search;
use crate::time::Nanos;
use crate::traffic;
use vstd::prelude::*;

verus! {

/// An event that should be scheduled by the engine.
#[derive(Debug, Clone, Copy, PartialEq, Eq, Structural)]
pub struct ScheduledEvent {
    pub time: Nanos,
    pub kind: EventKind,
}

/// What a transfer is for.
#[derive(Debug, Clone, Copy, PartialEq, Eq, Structural)]
pub enum TransferId {
    /// The input data of a job.
    Job(JobId),
    /// The data on a DAG edge.
    Edge(EdgeTransferId),
}

/// A transfer on a link.
#[derive(Debug, Clone, Copy, PartialEq, Eq, Structural)]
pub struct ActiveTransfer {
    pub id: TransferId,
    pub owner_job_id: JobId,
    pub bus_id: Option<BusId>,
    pub started_at: Nanos,
    pub reason: TransferReason,
}

/// A transfer that waits for a bus.
#[derive(Debug, Clone, Copy, PartialEq, Eq, Structural)]
pub struct PendingTransfer {
    pub id: TransferId,
    pub owner_job_id: JobId,
    pub bus_id: BusId,
    pub target_device: DeviceId,
    pub data_size: u64,
    pub priority: u32,
    pub expected_version: u64,
    pub enqueued_at: Nanos,
    pub reason: TransferReason,
}

/// Why the input data of a job moves.
#[derive(Debug, Clone, Copy, PartialEq, Eq, Structural)]
pub enum JobTransferKind {
    Dispatch,
    Migration,
}

/// Why data moves.
#[derive(Debug, Clone, Copy, PartialEq, Eq, Structural)]
pub enum TransferReason {
    Job(JobTransferKind),
    Edge,
}

/// Totals over all transfers.
#[derive(Debug, Clone, Copy, PartialEq, Eq, Structural)]
pub struct TransferStats {
    pub total_transfer_time_ns: Nanos,
    pub migration_transfer_time_ns: Nanos,
    pub bus_wait_time_ns: Nanos,
    pub bus_transfer_requests: u64,
    pub bus_transfer_contentions: u64,
}

impl Default for TransferStats {
    fn default() -> (stats: Self)
        ensures
            stats == TransferStats::zero(),
    {
        TransferStats {
            total_transfer_time_ns: 0,
            migration_transfer_time_ns: 0,
            bus_wait_time_ns: 0,
            bus_transfer_requests: 0,
            bus_transfer_contentions: 0,
        }
    }
}

impl TransferStats {
    /// No transfers.
    pub open spec fn zero() -> TransferStats {
        TransferStats {
            total_transfer_time_ns: 0,
            migration_transfer_time_ns: 0,
            bus_wait_time_ns: 0,
            bus_transfer_requests: 0,
            bus_transfer_contentions: 0,
        }
    }

    /// The share of bus requests that found the bus busy, zero without any
    /// request.
    pub fn bus_contention_ratio(self) -> (ratio: Ratio)
        ensures
            ratio == Ratio::of(
                self.bus_transfer_contentions as u128,
                self.bus_transfer_requests as u128,
            ),
    {
        Ratio::new(self.bus_transfer_contentions as u128, self.bus_transfer_requests as u128)
    }
}

/// A transfer that is asked for.
#[derive(Debug, Clone, Copy, PartialEq, Eq, Structural)]
pub struct TransferRequest {
    pub id: TransferId,
    pub owner_job_id: JobId,
    pub from: DeviceId,
    pub to: DeviceId,
    pub data_size: u64,
    pub reason: TransferReason,
    pub priority: u32,
    pub expected_version: u64,
}

/// The time that data takes over a link: latency, and the size over the
/// bandwidth, rounded up. Without a bandwidth the latency is all.
pub open spec fn transfer_time(link: InterconnectConfig, data_size: u64) -> Nanos {
    if link.bandwidth_bytes_per_ns.num == 0 {
        link.latency_ns
    } else {
        arith::sat_add(
            link.latency_ns,
            arith::time_at_rate(data_size, link.bandwidth_bytes_per_ns),
        )
    }
}

/// Whether a link joins two devices, in either direction.
pub open spec fn joins(from: DeviceId, to: DeviceId) -> spec_fn(InterconnectConfig) -> bool {
    |link: InterconnectConfig|
        (link.from == from && link.to == to) || (link.from == to && link.to == from)
}

/// Whether a link leads to a device over a bus.
pub open spec fn reaches(bus: BusId, device: DeviceId) -> spec_fn(InterconnectConfig) -> bool {
    |link: InterconnectConfig|
        link.shared_bus == Some(bus) && (link.to == device || link.from == device)
}

/// Whether a bus is the one with an id.
pub open spec fn bus_with(bus: BusId) -> spec_fn(SharedBusConfig) -> bool {
    |config: SharedBusConfig| config.id == bus
}

/// Whether a transfer occupies a bus.
pub open spec fn on_bus(bus: BusId) -> spec_fn(ActiveTransfer) -> bool {
    |t: ActiveTransfer| t.bus_id == Some(bus)
}

/// Whether a transfer has an id.
pub open spec fn with_id(id: TransferId) -> spec_fn(ActiveTransfer) -> bool {
    |t: ActiveTransfer| t.id == id
}

/// Whether a transfer belongs to a job.
pub open spec fn owned_by(job: JobId) -> spec_fn(ActiveTransfer) -> bool {
    |t: ActiveTransfer| t.owner_job_id == job
}

/// Whether a waiting transfer belongs to another job.
pub open spec fn not_owned_by(job: JobId) -> spec_fn(PendingTransfer) -> bool {
    |t: PendingTransfer| t.owner_job_id != job
}

/// Whether a bus serves waiting transfers by priority; otherwise the first
/// one goes first.
pub open spec fn serves_by_priority(buses: Seq<SharedBusConfig>, bus: BusId) -> bool {
    match search::first_where(buses, bus_with(bus)) {
        Some(i) => buses[i].arbitration is PriorityBased,
        None => false,
    }
}

/// The place of the waiting transfer that a bus serves next.
pub open spec fn next_place(
    pending: Seq<PendingTransfer>,
    bus: BusId,
    by_priority: bool,
) -> Option<int>
    decreases pending.len(),
{
    if pending.len() == 0 {
        None
    } else {
        let here = pending.last();
        match next_place(pending.drop_last(), bus, by_priority) {
            None => if here.bus_id == bus {
                Some(pending.len() - 1)
            } else {
                None
            },
            Some(i) => if here.bus_id == bus && by_priority && here.priority < pending[i].priority {
                Some(pending.len() - 1)
            } else {
                Some(i)
            },
        }
    }
}

/// The event that ends a transfer.
pub open spec fn completion_of(
    id: TransferId,
    owner_job_id: JobId,
    expected_version: u64,
    device_id: DeviceId,
) -> EventKind {
    match id {
        TransferId::Job(job_id) => EventKind::TransferComplete {
            job_id,
            expected_version,
            device_id,
        },
        TransferId::Edge(edge_id) => EventKind::EdgeTransferComplete {
            job_id: owner_job_id,
            expected_version,
            device_id,
            edge_id,
        },
    }
}

/// Transfers under way and waiting, with the totals so far.
#[verifier::ext_equal]
pub struct Transfers {
    pub active: Seq<ActiveTransfer>,
    pub pending: Seq<PendingTransfer>,
    pub stats: TransferStats,
}

impl Transfers {
    /// Whether a transfer occupies a bus.
    pub open spec fn busy(self, bus: BusId) -> bool {
        search::first_where(self.active, on_bus(bus)) is Some
    }

    /// With one more transfer under way.
    pub open spec fn started(self, transfer: ActiveTransfer, wait: Nanos) -> Transfers {
        Transfers {
            active: self.active.push(transfer),
            stats: TransferStats {
                bus_wait_time_ns: arith::sat_add(self.stats.bus_wait_time_ns, wait),
                ..self.stats
            },
            ..self
        }
    }

    /// Without the transfer at a place, whose service time is added up.
    pub open spec fn ended(self, i: int, now: Nanos) -> Transfers {
        let elapsed = arith::sat_sub(now, self.active[i].started_at);
        Transfers {
            active: self.active.update(i, self.active.last()).drop_last(),
            stats: TransferStats {
                total_transfer_time_ns: arith::sat_add(
                    self.stats.total_transfer_time_ns,
                    elapsed,
                ),
                migration_transfer_time_ns: if self.active[i].reason == TransferReason::Job(
                    JobTransferKind::Migration,
                ) {
                    arith::sat_add(self.stats.migration_transfer_time_ns, elapsed)
                } else {
                    self.stats.migration_transfer_time_ns
                },
                ..self.stats
            },
            ..self
        }
    }

    /// A request comes in. Without a link the data is there at once; a
    /// dedicated link or a free bus carries it right away; a busy bus makes it
    /// wait.
    pub open spec fn requested(
        self,
        links: Seq<InterconnectConfig>,
        request: TransferRequest,
        now: Nanos,
    ) -> (Transfers, Seq<ScheduledEvent>) {
        let kind = completion_of(
            request.id,
            request.owner_job_id,
            request.expected_version,
            request.to,
        );
        match search::first_where(links, joins(request.from, request.to)) {
            None => (self, seq![ScheduledEvent { time: now, kind }]),
            Some(i) => {
                let transfer = ActiveTransfer {
                    id: request.id,
                    owner_job_id: request.owner_job_id,
                    bus_id: links[i].shared_bus,
                    started_at: now,
                    reason: request.reason,
                };
                let time = arith::sat_add(now, transfer_time(links[i], request.data_size));
                let event = ScheduledEvent { time, kind };
                match links[i].shared_bus {
                    None => (self.started(transfer, 0), seq![event]),
                    Some(bus_id) => {
                        let asked = Transfers {
                            stats: TransferStats {
                                bus_transfer_requests: arith::sat_add(
                                    self.stats.bus_transfer_requests,
                                    1,
                                ),
                                ..self.stats
                            },
                            ..self
                        };
                        if self.busy(bus_id) {
                            (
                                Transfers {
                                    pending: self.pending.push(
                                        PendingTransfer {
                                            id: request.id,
                                            owner_job_id: request.owner_job_id,
                                            bus_id,
                                            target_device: request.to,
                                            data_size: request.data_size,
                                            priority: request.priority,
                                            expected_version: request.expected_version,
                                            enqueued_at: now,
                                            reason: request.reason,
                                        },
                                    ),
                                    stats: TransferStats {
                                        bus_transfer_contentions: arith::sat_add(
                                            self.stats.bus_transfer_contentions,
                                            1,
                                        ),
                                        ..asked.stats
                                    },
                                    ..asked
                                },
                                Seq::empty(),
                            )
                        } else {
                            (asked.started(transfer, 0), seq![event])
                        }
                    },
                }
            },
        }
    }

    /// A bus serves the next waiting transfer, if there is one. One that no
    /// link carries is given up.
    pub open spec fn next_served(
        self,
        links: Seq<InterconnectConfig>,
        buses: Seq<SharedBusConfig>,
        bus: BusId,
        now: Nanos,
    ) -> (Transfers, Seq<ScheduledEvent>) {
        match next_place(self.pending, bus, serves_by_priority(buses, bus)) {
            None => (self, Seq::empty()),
            Some(i) => {
                let next = self.pending[i];
                let left = Transfers { pending: self.pending.remove(i), ..self };
                match search::first_where(links, reaches(bus, next.target_device)) {
                    None => (left, Seq::empty()),
                    Some(k) => (
                        left.started(
                            ActiveTransfer {
                                id: next.id,
                                owner_job_id: next.owner_job_id,
                                bus_id: Some(bus),
                                started_at: now,
                                reason: next.reason,
                            },
                            arith::sat_sub(now, next.enqueued_at),
                        ),
                        seq![
                            ScheduledEvent {
                                time: arith::sat_add(now, transfer_time(links[k], next.data_size)),
                                kind: completion_of(
                                    next.id,
                                    next.owner_job_id,
                                    next.expected_version,
                                    next.target_device,
                                ),
                            },
                        ],
                    ),
                }
            },
        }
    }

    /// The transfer at a place ends, and its bus serves the next one.
    pub open spec fn released(
        self,
        links: Seq<InterconnectConfig>,
        buses: Seq<SharedBusConfig>,
        place: Option<int>,
        now: Nanos,
    ) -> (Transfers, Seq<ScheduledEvent>) {
        match place {
            None => (self, Seq::empty()),
            Some(i) => match self.active[i].bus_id {
                None => (self.ended(i, now), Seq::empty()),
                Some(bus) => self.ended(i, now).next_served(links, buses, bus, now),
            },
        }
    }

    /// The transfer with an id completes.
    pub open spec fn completed(
        self,
        links: Seq<InterconnectConfig>,
        buses: Seq<SharedBusConfig>,
        id: TransferId,
        now: Nanos,
    ) -> (Transfers, Seq<ScheduledEvent>) {
        self.released(links, buses, search::first_where(self.active, with_id(id)), now)
    }

    /// The waiting transfers of a job are given up, and the first one of it
    /// that is under way ends.
    pub open spec fn cancelled(
        self,
        links: Seq<InterconnectConfig>,
        buses: Seq<SharedBusConfig>,
        job: JobId,
        now: Nanos,
    ) -> (Transfers, Seq<ScheduledEvent>) {
        let left = Transfers { pending: self.pending.filter(not_owned_by(job)), ..self };
        left.released(links, buses, search::first_where(left.active, owned_by(job)), now)
    }

    /// A bus carries one transfer at a time; none waits for an idle bus or for
    /// a device that its bus does not reach; contended requests are requests,
    /// and migration time is transfer time.
    pub open spec fn sound(self, links: Seq<InterconnectConfig>) -> bool {
        &&& forall|i: int, j: int|
            0 <= i < j < self.active.len() && (#[trigger] self.active[i]).bus_id is Some
                ==> self.active[i].bus_id != (#[trigger] self.active[j]).bus_id
        &&& forall|i: int|
            0 <= i < self.pending.len() ==> self.busy((#[trigger] self.pending[i]).bus_id)
        &&& forall|i: int|
            0 <= i < self.pending.len() ==> search::first_where(
                links,
                reaches(self.pending[i].bus_id, (#[trigger] self.pending[i]).target_device),
            ) is Some
        &&& self.stats.bus_transfer_contentions <= self.stats.bus_transfer_requests
        &&& self.stats.migration_transfer_time_ns <= self.stats.total_transfer_time_ns
    }
}

/// Manages data transfers between devices over interconnect links and shared
/// buses.
pub struct TransferManager {
    interconnects: Vec<InterconnectConfig>,
    buses: Vec<SharedBusConfig>,
    active: Vec<ActiveTransfer>,
    pending: Vec<PendingTransfer>,
    stats: TransferStats,
}

impl TransferManager {
    /// The links.
    pub closed spec fn links(&self) -> Seq<InterconnectConfig> {
        self.interconnects@
    }

    /// The shared buses.
    pub closed spec fn bus_list(&self) -> Seq<SharedBusConfig> {
        self.buses@
    }

    /// Transfers and totals.
    pub closed spec fn state(&self) -> Transfers {
        Transfers { active: self.active@, pending: self.pending@, stats: self.stats }
    }

    /// Whether the links and buses of another manager are the same.
    pub open spec fn same_platform(&self, other: &TransferManager) -> bool {
        self.links() == other.links() && self.bus_list() == other.bus_list()
    }

    /// A manager for links and buses, without transfers.
    pub fn new(interconnects: Vec<InterconnectConfig>, buses: Vec<SharedBusConfig>) -> (m: Self)
        ensures
            m.links() == interconnects@,
            m.bus_list() == buses@,
            m.state().active.len() == 0,
            m.state().pending.len() == 0,
            m.state().stats == TransferStats::zero(),
    {
        TransferManager {
            interconnects,
            buses,
            active: Vec::new(),
            pending: Vec::new(),
            stats: TransferStats::default(),
        }
    }

    /// Finds the link between two devices (bidirectional lookup).
    pub fn find_interconnect(&self, from: DeviceId, to: DeviceId) -> (link: Option<
        &InterconnectConfig,
    >)
        ensures
            match search::first_where(self.links(), joins(from, to)) {
                Some(i) => link == Some(&self.links()[i]),
                None => link is None,
            },
            match link {
                Some(found) => exists|i: int| #[trigger]
                    traffic::is_first_link(self.links(), i, from, to) && *found == self.links()[i],
                None => traffic::apart(self.links(), from, to),
            },
    {
        let mut i: usize = 0;
        while i < self.interconnects.len()
            invariant
                i <= self.interconnects@.len(),
                forall|j: int|
                    0 <= j < i ==> !joins(from, to)(#[trigger] self.interconnects@[j]),
                forall|j: int|
                    0 <= j < i ==> !traffic::has_ends(#[trigger] self.interconnects@[j], from, to),
            decreases self.interconnects@.len() - i,
        {
            let link: &InterconnectConfig = &self.interconnects[i];
            if (link.from == from && link.to == to) || (link.from == to && link.to == from) {
                proof {
                    search::lemma_found(self.links(), joins(from, to), i as int);
                    assert(traffic::is_first_link(self.links(), i as int, from, to));
                }
                return Some(link);
            }
            i = i + 1;
        }
        proof {
            search::lemma_not_found(self.links(), joins(from, to));
        }
        None
    }

    /// Calculates the transfer time of a data size over a link:
    /// `latency + ceil(data_size / bandwidth)`.
    pub fn calculate_transfer_time(ic: &InterconnectConfig, data_size: u64) -> (time: Nanos)
        ensures
            time == transfer_time(*ic, data_size),
            traffic::arrives_at(*ic, data_size, 0, time),
    {
        proof {
            traffic::lemma_time(*ic, data_size, 0);
        }
        if ic.bandwidth_bytes_per_ns.num == 0 {
            return ic.latency_ns;
        }
        ic.latency_ns.saturating_add(arith::time_for(data_size, ic.bandwidth_bytes_per_ns))
    }

    /// Initiates the transfer of a job's data from one device to another.
    ///
    /// Returns the events to schedule. Over a shared bus that is busy the
    /// transfer waits, and there is none yet.
    pub fn initiate_transfer(
        &mut self,
        job_id: JobId,
        from: DeviceId,
        to: DeviceId,
        data_size: u64,
        transfer_kind: JobTransferKind,
        priority: u32,
        now: Nanos,
        expected_version: u64,
    ) -> (events: Vec<ScheduledEvent>)
        ensures
            final(self).same_platform(old(self)),
            (final(self).state(), events@) == old(self).state().requested(
                old(self).links(),
                (TransferRequest {
                    id: TransferId::Job(job_id),
                    owner_job_id: job_id,
                    from,
                    to,
                    data_size,
                    reason: TransferReason::Job(transfer_kind),
                    priority,
                    expected_version,
                }),
                now,
            ),
    {
        self.initiate(
            TransferRequest {
                id: TransferId::Job(job_id),
                owner_job_id: job_id,
                from,
                to,
                data_size,
                reason: TransferReason::Job(transfer_kind),
                priority,
                expected_version,
            },
            now,
        )
    }

    /// Initiates the transfer of the data on a DAG edge.
    pub fn initiate_edge_transfer(
        &mut self,
        edge_id: EdgeTransferId,
        owner_job_id: JobId,
        from: DeviceId,
        to: DeviceId,
        data_size: u64,
        priority: u32,
        now: Nanos,
        expected_version: u64,
    ) -> (events: Vec<ScheduledEvent>)
        ensures
            final(self).same_platform(old(self)),
            (final(self).state(), events@) == old(self).state().requested(
                old(self).links(),
                (TransferRequest {
                    id: TransferId::Edge(edge_id),
                    owner_job_id,
                    from,
                    to,
                    data_size,
                    reason: TransferReason::Edge,
                    priority,
                    expected_version,
                }),
                now,
            ),
    {
        self.initiate(
            TransferRequest {
                id: TransferId::Edge(edge_id),
                owner_job_id,
                from,
                to,
                data_size,
                reason: TransferReason::Edge,
                priority,
                expected_version,
            },
            now,
        )
    }

    /// Takes in a request.
    fn initiate(&mut self, request: TransferRequest, now: Nanos) -> (events: Vec<ScheduledEvent>)
        ensures
            final(self).same_platform(old(self)),
            (final(self).state(), events@) == old(self).state().requested(
                old(self).links(),
                request,
                now,
            ),
    {
        let kind: EventKind = completion_event(
            request.id,
            request.owner_job_id,
            request.expected_version,
            request.to,
        );
        let mut events: Vec<ScheduledEvent> = Vec::new();
        let link: InterconnectConfig = match self.find_interconnect(request.from, request.to) {
            Some(link) => *link,
            None => {
                // Same chip: the data is there at once.
                events.push(ScheduledEvent { time: now, kind });
                assert(events@ =~= seq![ScheduledEvent { time: now, kind }]);
                return events;
            },
        };
        let time: Nanos = now.saturating_add(
            Self::calculate_transfer_time(&link, request.data_size),
        );
        let ghost event = ScheduledEvent { time, kind };
        let transfer = ActiveTransfer {
            id: request.id,
            owner_job_id: request.owner_job_id,
            bus_id: link.shared_bus,
            started_at: now,
            reason: request.reason,
        };
        match link.shared_bus {
            None => {
                self.start_transfer(transfer, 0);
                events.push(ScheduledEvent { time, kind });
                assert(events@ =~= seq![event]);
                events
            },
            Some(bus_id) => {
                self.stats.bus_transfer_requests = self.stats.bus_transfer_requests.saturating_add(
                    1,
                );
                if self.bus_busy(bus_id) {
                    self.stats.bus_transfer_contentions =
                    self.stats.bus_transfer_contentions.saturating_add(1);
                    self.pending.push(
                        PendingTransfer {
                            id: request.id,
                            owner_job_id: request.owner_job_id,
                            bus_id,
                            target_device: request.to,
                            data_size: request.data_size,
                            priority: request.priority,
                            expected_version: request.expected_version,
                            enqueued_at: now,
                            reason: request.reason,
                        },
                    );
                    assert(events@ =~= Seq::empty());
                    events
                } else {
                    self.start_transfer(transfer, 0);
                    events.push(ScheduledEvent { time, kind });
                    assert(events@ =~= seq![event]);
                    events
                }
            },
        }
    }

    /// Tells whether a transfer occupies a bus.
    fn bus_busy(&self, bus_id: BusId) -> (busy: bool)
        ensures
            busy == self.state().busy(bus_id),
    {
        let mut i: usize = 0;
        while i < self.active.len()
            invariant
                i <= self.active@.len(),
                forall|j: int| 0 <= j < i ==> !on_bus(bus_id)(#[trigger] self.active@[j]),
            decreases self.active@.len() - i,
        {
            if let Some(bus) = self.active[i].bus_id {
                if bus == bus_id {
                    proof {
                        search::lemma_found(self.active@, on_bus(bus_id), i as int);
                    }
                    return true;
                }
            }
            i = i + 1;
        }
        proof {
            search::lemma_not_found(self.active@, on_bus(bus_id));
        }
        false
    }

    /// Handles a completed transfer of a job's data. Starts the next waiting
    /// transfer on its bus if there is one (work-conserving).
    pub fn on_transfer_complete(&mut self, job_id: JobId, now: Nanos) -> (events: Vec<
        ScheduledEvent,
    >)
        ensures
            final(self).same_platform(old(self)),
            (final(self).state(), events@) == old(self).state().completed(
                old(self).links(),
                old(self).bus_list(),
                TransferId::Job(job_id),
                now,
            ),
    {
        self.complete(TransferId::Job(job_id), now)
    }

    /// Handles a completed transfer of the data on a DAG edge.
    pub fn on_edge_transfer_complete(&mut self, edge_id: EdgeTransferId, now: Nanos) -> (events:
        Vec<ScheduledEvent>)
        ensures
            final(self).same_platform(old(self)),
            (final(self).state(), events@) == old(self).state().completed(
                old(self).links(),
                old(self).bus_list(),
                TransferId::Edge(edge_id),
                now,
            ),
    {
        self.complete(TransferId::Edge(edge_id), now)
    }

    /// Handles a completed transfer.
    fn complete(&mut self, id: TransferId, now: Nanos) -> (events: Vec<ScheduledEvent>)
        ensures
            final(self).same_platform(old(self)),
            (final(self).state(), events@) == old(self).state().completed(
                old(self).links(),
                old(self).bus_list(),
                id,
                now,
            ),
    {
        let mut i: usize = 0;
        while i < self.active.len()
            invariant
                *self == *old(self),
                i <= self.active@.len(),
                forall|j: int| 0 <= j < i ==> !with_id(id)(#[trigger] self.active@[j]),
            decreases self.active@.len() - i,
        {
            if self.active[i].id == id {
                proof {
                    search::lemma_found(self.active@, with_id(id), i as int);
                }
                return self.release(i, now);
            }
            i = i + 1;
        }
        proof {
            search::lemma_not_found(self.active@, with_id(id));
        }
        let none: Vec<ScheduledEvent> = Vec::new();
        assert(none@ =~= Seq::empty());
        none
    }

    /// Ends a transfer and starts the next one on its bus.
    fn release(&mut self, i: usize, now: Nanos) -> (events: Vec<ScheduledEvent>)
        requires
            i < old(self).state().active.len(),
        ensures
            final(self).same_platform(old(self)),
            (final(self).state(), events@) == old(self).state().released(
                old(self).links(),
                old(self).bus_list(),
                Some(i as int),
                now,
            ),
    {
        let ended: ActiveTransfer = self.active.swap_remove(i);
        self.account_transfer_service(&ended, now);
        assert(self.state() =~= old(self).state().ended(i as int, now));
        match ended.bus_id {
            Some(bus_id) => self.start_next_pending(bus_id, now),
            None => {
                let none: Vec<ScheduledEvent> = Vec::new();
                assert(none@ =~= Seq::empty());
                none
            },
        }
    }

    /// Serves a bus that is idle.
    pub fn on_bus_arbitration(&mut self, bus_id: BusId, now: Nanos) -> (events: Vec<
        ScheduledEvent,
    >)
        ensures
            final(self).same_platform(old(self)),
            (final(self).state(), events@) == if old(self).state().busy(bus_id) {
                (old(self).state(), Seq::empty())
            } else {
                old(self).state().next_served(
                    old(self).links(),
                    old(self).bus_list(),
                    bus_id,
                    now,
                )
            },
    {
        if self.bus_busy(bus_id) {
            let none: Vec<ScheduledEvent> = Vec::new();
            assert(none@ =~= Seq::empty());
            none
        } else {
            self.start_next_pending(bus_id, now)
        }
    }

    /// Cancels the transfers of a job. Where one on a shared bus ends early,
    /// the next waiting transfer on that bus starts at once.
    pub fn cancel_job(&mut self, job_id: JobId, now: Nanos) -> (events: Vec<ScheduledEvent>)
        ensures
            final(self).same_platform(old(self)),
            (final(self).state(), events@) == old(self).state().cancelled(
                old(self).links(),
                old(self).bus_list(),
                job_id,
                now,
            ),
    {
        self.drop_pending(job_id);
        let ghost left = *self;
        let mut i: usize = 0;
        while i < self.active.len()
            invariant
                *self == left,
                i <= self.active@.len(),
                left.same_platform(old(self)),
                left.state() == (Transfers {
                    pending: old(self).state().pending.filter(not_owned_by(job_id)),
                    ..old(self).state()
                }),
                forall|j: int| 0 <= j < i ==> !owned_by(job_id)(#[trigger] self.active@[j]),
            decreases self.active@.len() - i,
        {
            if self.active[i].owner_job_id == job_id {
                proof {
                    search::lemma_found(self.active@, owned_by(job_id), i as int);
                }
                return self.release(i, now);
            }
            i = i + 1;
        }
        proof {
            search::lemma_not_found(self.active@, owned_by(job_id));
        }
        let none: Vec<ScheduledEvent> = Vec::new();
        assert(none@ =~= Seq::empty());
        none
    }

    /// Gives up the waiting transfers of a job.
    fn drop_pending(&mut self, job_id: JobId)
        ensures
            final(self).same_platform(old(self)),
            final(self).state() == (Transfers {
                pending: old(self).state().pending.filter(not_owned_by(job_id)),
                ..old(self).state()
            }),
    {
        let ghost all = self.pending@;
        let mut kept: Vec<PendingTransfer> = Vec::new();
        let mut i: usize = 0;
        proof {
            reveal(Seq::filter);
        }
        while i < self.pending.len()
            invariant
                *self == *old(self),
                all == self.pending@,
                i <= all.len(),
                kept@ == all.take(i as int).filter(not_owned_by(job_id)),
            decreases all.len() - i,
        {
            proof {
                reveal(Seq::filter);
                assert(all.take(i as int + 1).drop_last() =~= all.take(i as int));
            }
            if self.pending[i].owner_job_id != job_id {
                kept.push(self.pending[i]);
            }
            i = i + 1;
        }
        self.pending = kept;
        proof {
            assert(all.take(i as int) =~= all);
        }
    }

    /// Starts the next waiting transfer on a shared bus.
    fn start_next_pending(&mut self, bus_id: BusId, now: Nanos) -> (events: Vec<ScheduledEvent>)
        ensures
            final(self).same_platform(old(self)),
            (final(self).state(), events@) == old(self).state().next_served(
                old(self).links(),
                old(self).bus_list(),
                bus_id,
                now,
            ),
    {
        let by_priority: bool = self.bus_serves_by_priority(bus_id);
        let mut events: Vec<ScheduledEvent> = Vec::new();
        let place: usize = match self.find_next(bus_id, by_priority) {
            Some(i) => i,
            None => {
                assert(events@ =~= Seq::empty());
                return events;
            },
        };
        let next: PendingTransfer = self.pending.remove(place);
        match self.link_reaching(bus_id, next.target_device) {
            Some(link) => {
                let time: Nanos = now.saturating_add(
                    Self::calculate_transfer_time(&link, next.data_size),
                );
                let wait: Nanos = now.saturating_sub(next.enqueued_at);
                self.start_transfer(
                    ActiveTransfer {
                        id: next.id,
                        owner_job_id: next.owner_job_id,
                        bus_id: Some(bus_id),
                        started_at: now,
                        reason: next.reason,
                    },
                    wait,
                );
                let kind: EventKind = completion_event(
                    next.id,
                    next.owner_job_id,
                    next.expected_version,
                    next.target_device,
                );
                events.push(ScheduledEvent { time, kind });
                assert(events@ =~= seq![ScheduledEvent { time, kind }]);
                events
            },
            None => {
                assert(events@ =~= Seq::empty());
                events
            },
        }
    }

    /// Tells whether a bus serves waiting transfers by priority.
    fn bus_serves_by_priority(&self, bus_id: BusId) -> (yes: bool)
        ensures
            yes == serves_by_priority(self.bus_list(), bus_id),
    {
        let mut i: usize = 0;
        while i < self.buses.len()
            invariant
                i <= self.buses@.len(),
                forall|j: int| 0 <= j < i ==> !bus_with(bus_id)(#[trigger] self.buses@[j]),
            decreases self.buses@.len() - i,
        {
            if self.buses[i].id == bus_id {
                proof {
                    search::lemma_found(self.buses@, bus_with(bus_id), i as int);
                }
                return match self.buses[i].arbitration {
                    BusArbitration::PriorityBased => true,
                    _ => false,
                };
            }
            i = i + 1;
        }
        proof {
            search::lemma_not_found(self.buses@, bus_with(bus_id));
        }
        false
    }

    /// Finds the waiting transfer that a bus serves next.
    fn find_next(&self, bus_id: BusId, by_priority: bool) -> (place: Option<usize>)
        ensures
            match place {
                Some(i) => i < self.state().pending.len() && next_place(
                    self.state().pending,
                    bus_id,
                    by_priority,
                ) == Some(i as int),
                None => next_place(self.state().pending, bus_id, by_priority) is None,
            },
    {
        let mut best: Option<usize> = None;
        let mut i: usize = 0;
        while i < self.pending.len()
            invariant
                i <= self.pending@.len(),
                match best {
                    Some(b) => b < i && next_place(
                        self.pending@.take(i as int),
                        bus_id,
                        by_priority,
                    ) == Some(b as int),
                    None => next_place(self.pending@.take(i as int), bus_id, by_priority) is None,
                },
            decreases self.pending@.len() - i,
        {
            proof {
                assert(self.pending@.take(i as int + 1).drop_last() =~= self.pending@.take(
                    i as int,
                ));
            }
            if self.pending[i].bus_id == bus_id {
                best = match best {
                    None => Some(i),
                    Some(b) => if by_priority && self.pending[i].priority
                        < self.pending[b].priority {
                        Some(i)
                    } else {
                        Some(b)
                    },
                };
            }
            i = i + 1;
        }
        proof {
            assert(self.pending@.take(i as int) =~= self.pending@);
        }
        best
    }

    /// Finds the link that reaches a device on a bus.
    fn link_reaching(&self, bus_id: BusId, device: DeviceId) -> (link: Option<InterconnectConfig>)
        ensures
            match search::first_where(self.links(), reaches(bus_id, device)) {
                Some(i) => link == Some(self.links()[i]),
                None => link is None,
            },
    {
        let mut i: usize = 0;
        while i < self.interconnects.len()
            invariant
                i <= self.interconnects@.len(),
                forall|j: int|
                    0 <= j < i ==> !reaches(bus_id, device)(#[trigger] self.interconnects@[j]),
            decreases self.interconnects@.len() - i,
        {
            let link: InterconnectConfig = self.interconnects[i];
            if let Some(bus) = link.shared_bus {
                if bus == bus_id && (link.to == device || link.from == device) {
                    proof {
                        search::lemma_found(self.links(), reaches(bus_id, device), i as int);
                    }
                    return Some(link);
                }
            }
            i = i + 1;
        }
        proof {
            search::lemma_not_found(self.links(), reaches(bus_id, device));
        }
        None
    }

    /// Puts a transfer under way.
    fn start_transfer(&mut self, transfer: ActiveTransfer, bus_wait_ns: Nanos)
        ensures
            final(self).same_platform(old(self)),
            final(self).state() == old(self).state().started(transfer, bus_wait_ns),
    {
        self.active.push(transfer);
        self.stats.bus_wait_time_ns = self.stats.bus_wait_time_ns.saturating_add(bus_wait_ns);
    }

    /// Adds up the service time of a transfer.
    fn account_transfer_service(&mut self, transfer: &ActiveTransfer, now: Nanos)
        ensures
            final(self).same_platform(old(self)),
            final(self).state().active == old(self).state().active,
            final(self).state().pending == old(self).state().pending,
            final(self).state().stats == ({
                let elapsed = arith::sat_sub(now, transfer.started_at);
                let stats = old(self).state().stats;
                TransferStats {
                    total_transfer_time_ns: arith::sat_add(stats.total_transfer_time_ns, elapsed),
                    migration_transfer_time_ns: if transfer.reason == TransferReason::Job(
                        JobTransferKind::Migration,
                    ) {
                        arith::sat_add(stats.migration_transfer_time_ns, elapsed)
                    } else {
                        stats.migration_transfer_time_ns
                    },
                    ..stats
                }
            }),
    {
        let elapsed: Nanos = now.saturating_sub(transfer.started_at);
        self.stats.total_transfer_time_ns = self.stats.total_transfer_time_ns.saturating_add(
            elapsed,
        );
        if transfer.reason == TransferReason::Job(JobTransferKind::Migration) {
            self.stats.migration_transfer_time_ns =
            self.stats.migration_transfer_time_ns.saturating_add(elapsed);
        }
    }

    /// The totals so far.
    pub fn stats(&self) -> (stats: TransferStats)
        ensures
            stats == self.state().stats,
    {
        self.stats
    }
}

/// Makes the event that ends a transfer.
fn completion_event(
    id: TransferId,
    owner_job_id: JobId,
    expected_version: u64,
    device_id: DeviceId,
) -> (kind: EventKind)
    ensures
        kind == completion_of(id, owner_job_id, expected_version, device_id),
{
    match id {
        TransferId::Job(job_id) => EventKind::TransferComplete {
            job_id,
            expected_version,
            device_id,
        },
        TransferId::Edge(edge_id) => EventKind::EdgeTransferComplete {
            job_id: owner_job_id,
            expected_version,
            device_id,
            edge_id,
        },
    }
}

/// A bus is busy exactly while some transfer occupies it.
proof fn lemma_busy(t: Transfers, bus: BusId)
    ensures
        t.busy(bus) <==> exists|i: int|
            0 <= i < t.active.len() && (#[trigger] t.active[i]).bus_id == Some(bus),
{
    search::law_first_where(t.active, on_bus(bus));
    if t.busy(bus) {
        let i = search::first_where(t.active, on_bus(bus))->0;
        assert(t.active[i].bus_id == Some(bus));
    } else {
        assert forall|i: int| 0 <= i < t.active.len() implies (
        #[trigger] t.active[i]).bus_id != Some(bus) by {
            assert(!on_bus(bus)(t.active[i]));
        }
    }
}

/// The transfer that a bus serves next waits for that bus, and one is found
/// wherever one waits. By priority nothing more urgent waits, otherwise
/// nothing came earlier.
pub proof fn law_next_place(pending: Seq<PendingTransfer>, bus: BusId, by_priority: bool)
    ensures
        match next_place(pending, bus, by_priority) {
            Some(i) => {
                &&& 0 <= i < pending.len()
                &&& pending[i].bus_id == bus
                &&& by_priority ==> forall|j: int|
                    0 <= j < pending.len() && (#[trigger] pending[j]).bus_id == bus
                        ==> pending[i].priority <= pending[j].priority
                &&& !by_priority ==> forall|j: int|
                    0 <= j < pending.len() && (#[trigger] pending[j]).bus_id == bus ==> i <= j
            },
            None => forall|j: int|
                0 <= j < pending.len() ==> (#[trigger] pending[j]).bus_id != bus,
        },
    decreases pending.len(),
{
    if pending.len() > 0 {
        let rest = pending.drop_last();
        law_next_place(rest, bus, by_priority);
        assert forall|j: int| 0 <= j < rest.len() implies rest[j] == #[trigger] pending[j] by {}
        match next_place(rest, bus, by_priority) {
            Some(i) => {
                assert(rest[i] == pending[i]);
            },
            None => {
                assert forall|j: int| 0 <= j < pending.len() - 1 implies (
                #[trigger] pending[j]).bus_id != bus by {
                    assert(rest[j].bus_id != bus);
                }
            },
        }
    }
}

/// What holds between the end of a transfer on a bus and the start of the
/// next one.
spec fn between(t: Transfers, links: Seq<InterconnectConfig>, bus: BusId) -> bool {
    &&& forall|i: int, j: int|
        0 <= i < j < t.active.len() && (#[trigger] t.active[i]).bus_id is Some
            ==> t.active[i].bus_id != (#[trigger] t.active[j]).bus_id
    &&& !t.busy(bus)
    &&& forall|i: int|
        0 <= i < t.pending.len() ==> (#[trigger] t.pending[i]).bus_id == bus || t.busy(
            t.pending[i].bus_id,
        )
    &&& forall|i: int|
        0 <= i < t.pending.len() ==> search::first_where(
            links,
            reaches(t.pending[i].bus_id, (#[trigger] t.pending[i]).target_device),
        ) is Some
    &&& t.stats.bus_transfer_contentions <= t.stats.bus_transfer_requests
    &&& t.stats.migration_transfer_time_ns <= t.stats.total_transfer_time_ns
}

/// Serving an idle bus restores soundness.
proof fn lemma_serving(
    t: Transfers,
    links: Seq<InterconnectConfig>,
    buses: Seq<SharedBusConfig>,
    bus: BusId,
    now: Nanos,
)
    requires
        between(t, links, bus),
    ensures
        t.next_served(links, buses, bus, now).0.sound(links),
        (exists|i: int| 0 <= i < t.pending.len() && (#[trigger] t.pending[i]).bus_id == bus)
            ==> t.next_served(links, buses, bus, now).1.len() == 1,
{
    let by_priority = serves_by_priority(buses, bus);
    law_next_place(t.pending, bus, by_priority);
    let after = t.next_served(links, buses, bus, now).0;
    match next_place(t.pending, bus, by_priority) {
        None => {
            assert(after.sound(links));
        },
        Some(i) => {
            let next = t.pending[i];
            let left = t.pending.remove(i);
            assert(after.pending == left);
            let n = t.active.len() as int;
            assert(after.active[n].bus_id == Some(bus));
            lemma_busy(t, bus);
            lemma_busy(after, bus);
            assert forall|a: int, b: int|
                0 <= a < b < after.active.len() && (#[trigger] after.active[a]).bus_id
                    is Some implies after.active[a].bus_id != (
            #[trigger] after.active[b]).bus_id by {
                assert(after.active[a] == t.active[a]);
                if b < n {
                    assert(after.active[b] == t.active[b]);
                }
            }
            assert forall|k: int| 0 <= k < after.pending.len() implies after.busy(
                (#[trigger] after.pending[k]).bus_id,
            ) by {
                let o = if k < i {
                    k
                } else {
                    k + 1
                };
                assert(after.pending[k] == t.pending[o]);
                let other = t.pending[o].bus_id;
                if other != bus {
                    lemma_busy(t, other);
                    lemma_busy(after, other);
                    let w = choose|w: int|
                        0 <= w < t.active.len() && (#[trigger] t.active[w]).bus_id == Some(other);
                    assert(after.active[w] == t.active[w]);
                }
            }
            assert forall|k: int| 0 <= k < after.pending.len() implies search::first_where(
                links,
                reaches(after.pending[k].bus_id, (#[trigger] after.pending[k]).target_device),
            ) is Some by {
                let o = if k < i {
                    k
                } else {
                    k + 1
                };
                assert(after.pending[k] == t.pending[o]);
            }
        },
    }
}

/// The end of a transfer leaves its bus idle and the rest as it was.
proof fn lemma_ended(t: Transfers, links: Seq<InterconnectConfig>, i: int, now: Nanos)
    requires
        t.sound(links),
        0 <= i < t.active.len(),
    ensures
        t.active[i].bus_id matches Some(bus) ==> between(t.ended(i, now), links, bus),
        t.active[i].bus_id is None ==> t.ended(i, now).sound(links),
{
    let e = t.ended(i, now);
    let n = t.active.len() as int;
    assert forall|a: int| 0 <= a < n - 1 implies #[trigger] e.active[a] == if a == i {
        t.active[n - 1]
    } else {
        t.active[a]
    } by {}
    assert forall|a: int, b: int|
        0 <= a < b < e.active.len() && (#[trigger] e.active[a]).bus_id
            is Some implies e.active[a].bus_id != (#[trigger] e.active[b]).bus_id by {
        if a == i {
            assert(e.active[a] == t.active[n - 1]);
            assert(e.active[b] == t.active[b]);
        } else if b == i {
            assert(e.active[a] == t.active[a]);
            assert(e.active[b] == t.active[n - 1]);
        } else {
            assert(e.active[a] == t.active[a]);
            assert(e.active[b] == t.active[b]);
        }
    }
    assert forall|k: int| 0 <= k < e.pending.len() && t.active[i].bus_id != Some(
        (#[trigger] e.pending[k]).bus_id,
    ) implies e.busy(e.pending[k].bus_id) by {
        let bus = t.pending[k].bus_id;
        lemma_busy(t, bus);
        lemma_busy(e, bus);
        let w = choose|w: int|
            0 <= w < t.active.len() && (#[trigger] t.active[w]).bus_id == Some(bus);
        if w == n - 1 {
            assert(e.active[i].bus_id == Some(bus));
        } else {
            assert(e.active[w].bus_id == Some(bus));
        }
    }
    if let Some(bus) = t.active[i].bus_id {
        lemma_busy(e, bus);
        assert forall|a: int| 0 <= a < e.active.len() implies (
        #[trigger] e.active[a]).bus_id != Some(bus) by {
            if a == i {
                assert(e.active[a] == t.active[n - 1]);
            } else {
                assert(e.active[a] == t.active[a]);
            }
        }
    }
}

/// Whether no event of a list is in the past.
pub open spec fn not_past(events: Seq<ScheduledEvent>, now: Nanos) -> bool {
    forall|i: int| 0 <= i < events.len() ==> (#[trigger] events[i]).time >= now
}

/// A transfer never completes before it was asked for.
pub proof fn law_requests_complete_later(
    t: Transfers,
    links: Seq<InterconnectConfig>,
    request: TransferRequest,
    now: Nanos,
)
    ensures
        not_past(t.requested(links, request, now).1, now),
{
}

/// A transfer that a bus serves does not complete before that.
pub proof fn law_served_transfers_complete_later(
    t: Transfers,
    links: Seq<InterconnectConfig>,
    buses: Seq<SharedBusConfig>,
    bus: BusId,
    now: Nanos,
)
    ensures
        not_past(t.next_served(links, buses, bus, now).1, now),
{
}

/// A manager without transfers is sound.
pub proof fn law_new_manager_is_sound(m: &TransferManager)
    requires
        m.state().active.len() == 0,
        m.state().pending.len() == 0,
        m.state().stats == TransferStats::zero(),
    ensures
        m.state().sound(m.links()),
{
}

/// A request keeps the transfers sound: a bus carries one transfer at a time,
/// and none waits for an idle bus.
pub proof fn law_requests_keep_soundness(
    t: Transfers,
    links: Seq<InterconnectConfig>,
    request: TransferRequest,
    now: Nanos,
)
    requires
        t.sound(links),
    ensures
        t.requested(links, request, now).0.sound(links),
{
    let after = t.requested(links, request, now).0;
    search::law_first_where(links, joins(request.from, request.to));
    let n = t.active.len() as int;
    match search::first_where(links, joins(request.from, request.to)) {
        None => {},
        Some(i) => {
            assert forall|a: int, b: int|
                0 <= a < b < after.active.len() && (#[trigger] after.active[a]).bus_id
                    is Some implies after.active[a].bus_id != (
            #[trigger] after.active[b]).bus_id by {
                assert(after.active[a] == t.active[a]);
                if b < n {
                    assert(after.active[b] == t.active[b]);
                } else if let Some(bus) = links[i].shared_bus {
                    lemma_busy(t, bus);
                }
            }
            assert forall|k: int| 0 <= k < t.pending.len() implies after.busy(
                (#[trigger] t.pending[k]).bus_id,
            ) by {
                let bus = t.pending[k].bus_id;
                lemma_busy(t, bus);
                lemma_busy(after, bus);
                let w = choose|w: int|
                    0 <= w < t.active.len() && (#[trigger] t.active[w]).bus_id == Some(bus);
                assert(after.active[w] == t.active[w]);
            }
            if let Some(bus) = links[i].shared_bus {
                let reached = reaches(bus, request.to);
                search::law_first_where(links, reached);
                assert(reached(links[i]));
                if t.busy(bus) {
                    let m = t.pending.len() as int;
                    assert(after.pending[m].bus_id == bus);
                    lemma_busy(t, bus);
                    lemma_busy(after, bus);
                }
            }
            assert forall|k: int| 0 <= k < after.pending.len() implies after.busy(
                (#[trigger] after.pending[k]).bus_id,
            ) && search::first_where(
                links,
                reaches(after.pending[k].bus_id, after.pending[k].target_device),
            ) is Some by {
                if k < t.pending.len() {
                    assert(after.pending[k] == t.pending[k]);
                }
            }
        },
    }
}

/// The end of a transfer keeps the transfers sound, and its bus serves the
/// next waiting transfer at once where there is one.
pub proof fn law_completions_keep_soundness(
    t: Transfers,
    links: Seq<InterconnectConfig>,
    buses: Seq<SharedBusConfig>,
    id: TransferId,
    now: Nanos,
)
    requires
        t.sound(links),
    ensures
        t.completed(links, buses, id, now).0.sound(links),
        search::first_where(t.active, with_id(id)) matches Some(i) ==> t.active[i].bus_id matches
            Some(bus) ==> (exists|k: int|
            0 <= k < t.pending.len() && (#[trigger] t.pending[k]).bus_id == bus) ==> t.completed(
            links,
            buses,
            id,
            now,
        ).1.len() == 1,
{
    search::law_first_where(t.active, with_id(id));
    if let Some(i) = search::first_where(t.active, with_id(id)) {
        lemma_ended(t, links, i, now);
        if let Some(bus) = t.active[i].bus_id {
            lemma_serving(t.ended(i, now), links, buses, bus, now);
            assert(t.ended(i, now).pending == t.pending);
        }
    }
}

/// Cancelling keeps the transfers sound, and the job has no transfer waiting.
pub proof fn law_cancellation(
    t: Transfers,
    links: Seq<InterconnectConfig>,
    buses: Seq<SharedBusConfig>,
    job: JobId,
    now: Nanos,
)
    requires
        t.sound(links),
    ensures
        t.cancelled(links, buses, job, now).0.sound(links),
        forall|k: int|
            0 <= k < t.cancelled(links, buses, job, now).0.pending.len() ==> (
            #[trigger] t.cancelled(links, buses, job, now).0.pending[k]).owner_job_id != job,
{
    let kept = t.pending.filter(not_owned_by(job));
    let left = Transfers { pending: kept, ..t };
    assert forall|k: int| 0 <= k < kept.len() implies (#[trigger] kept[k]).owner_job_id != job
        && t.pending.contains(kept[k]) by {
        t.pending.lemma_filter_pred(not_owned_by(job), k);
        t.pending.lemma_filter_contains_rev(not_owned_by(job), kept[k]);
    }
    assert forall|k: int| 0 <= k < kept.len() implies left.busy((#[trigger] kept[k]).bus_id)
        && search::first_where(links, reaches(kept[k].bus_id, kept[k].target_device)) is Some by {
        let o = choose|o: int| 0 <= o < t.pending.len() && t.pending[o] == kept[k];
        assert(t.busy(t.pending[o].bus_id));
    }
    assert(left.sound(links));
    search::law_first_where(left.active, owned_by(job));
    if let Some(i) = search::first_where(left.active, owned_by(job)) {
        lemma_ended(left, links, i, now);
        let e = left.ended(i, now);
        if let Some(bus) = left.active[i].bus_id {
            lemma_serving(e, links, buses, bus, now);
            law_next_place(e.pending, bus, serves_by_priority(buses, bus));
        }
    }
}

/// Arbitration keeps the transfers sound; while they are, it finds nothing to
/// start.
pub proof fn law_arbitration_finds_nothing(
    t: Transfers,
    links: Seq<InterconnectConfig>,
    buses: Seq<SharedBusConfig>,
    bus: BusId,
    now: Nanos,
)
    requires
        t.sound(links),
        !t.busy(bus),
    ensures
        t.next_served(links, buses, bus, now).0 == t,
        t.next_served(links, buses, bus, now).1.len() == 0,
{
    law_next_place(t.pending, bus, serves_by_priority(buses, bus));
    if let Some(i) = next_place(t.pending, bus, serves_by_priority(buses, bus)) {
        assert(t.busy(t.pending[i].bus_id));
    }
}

} // verus!
