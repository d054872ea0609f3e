//! What becomes of requests for data, said of links, times and buses.

use crate::arith;
use crate::arith::Rate;
use crate::device::{InterconnectConfig, SharedBusConfig};
use crate::event::EventKind;
use crate::ids::{BusId, DeviceId, JobId};
use crate::search;
use crate::time::Nanos;
use crate::transfer_manager;
use crate::transfer_manager::{
    ActiveTransfer, JobTransferKind, PendingTransfer, ScheduledEvent, TransferId, TransferReason,
    TransferRequest, TransferStats, Transfers,
};
use vstd::prelude::*;

verus! {

/// Whether a link has two devices as its ends, in either order.
pub open spec fn has_ends(link: InterconnectConfig, a: DeviceId, b: DeviceId) -> bool {
    (link.from == a && link.to == b) || (link.from == b && link.to == a)
}

/// Whether a link is the first one between two devices.
pub open spec fn is_first_link(
    links: Seq<InterconnectConfig>,
    i: int,
    a: DeviceId,
    b: DeviceId,
) -> bool {
    &&& 0 <= i < links.len()
    &&& has_ends(links[i], a, b)
    &&& forall|j: int| 0 <= j < i ==> !has_ends(#[trigger] links[j], a, b)
}

/// Whether no link joins two devices.
pub open spec fn apart(links: Seq<InterconnectConfig>, a: DeviceId, b: DeviceId) -> bool {
    forall|j: int| 0 <= j < links.len() ==> !has_ends(#[trigger] links[j], a, b)
}

/// Whether a transfer that is under way occupies a bus.
pub open spec fn is_taken(active: Seq<ActiveTransfer>, bus: BusId) -> bool {
    exists|i: int| 0 <= i < active.len() && (#[trigger] active[i]).bus_id == Some(bus)
}

/// A number held at the largest `u64`.
pub open spec fn capped(n: int) -> int {
    if n > u64::MAX {
        u64::MAX as int
    } else {
        n
    }
}

/// Whether a time is the least in which a rate makes an amount.
pub open spec fn is_least_time(amount: u64, rate: Rate, t: int) -> bool {
    &&& t >= 0
    &&& t * rate.num >= amount * rate.den
    &&& t > 0 ==> (t - 1) * rate.num < amount * rate.den
}

/// Whether data that sets out over a link now is there at a time: after the
/// latency and the least time in which the bandwidth moves it. Without a
/// bandwidth it is there after the latency.
pub open spec fn arrives_at(link: InterconnectConfig, size: u64, now: Nanos, time: Nanos) -> bool {
    if link.bandwidth_bytes_per_ns.num == 0 {
        time == capped(now + link.latency_ns)
    } else {
        exists|t: int| #[trigger]
            is_least_time(size, link.bandwidth_bytes_per_ns, t) && time == capped(
                now + link.latency_ns + t,
            )
    }
}

/// Whether an event tells that the data of a request is there.
pub open spec fn tells(
    kind: EventKind,
    id: TransferId,
    owner: JobId,
    version: u64,
    to: DeviceId,
) -> bool {
    match id {
        TransferId::Job(job_id) => kind == (EventKind::TransferComplete {
            job_id,
            expected_version: version,
            device_id: to,
        }),
        TransferId::Edge(edge_id) => kind == (EventKind::EdgeTransferComplete {
            job_id: owner,
            expected_version: version,
            device_id: to,
            edge_id,
        }),
    }
}

proof fn lemma_link(links: Seq<InterconnectConfig>, a: DeviceId, b: DeviceId)
    ensures
        match search::first_where(links, transfer_manager::joins(a, b)) {
            Some(i) => is_first_link(links, i, a, b),
            None => apart(links, a, b),
        },
{
    let cond = transfer_manager::joins(a, b);
    search::law_first_where(links, cond);
    assert forall|j: int| 0 <= j < links.len() implies cond(links[j]) == has_ends(
        #[trigger] links[j],
        a,
        b,
    ) by {}
}

pub(crate) proof fn lemma_taken(t: Transfers, bus: BusId)
    ensures
        t.busy(bus) <==> is_taken(t.active, bus),
{
    let cond = transfer_manager::on_bus(bus);
    search::law_first_where(t.active, cond);
    match search::first_where(t.active, cond) {
        Some(i) => {
            assert(t.active[i].bus_id == Some(bus));
        },
        None => {
            assert forall|i: int| 0 <= i < t.active.len() implies (
            #[trigger] t.active[i]).bus_id != Some(bus) by {
                assert(!cond(t.active[i]));
            }
        },
    }
}

pub(crate) proof fn lemma_time(link: InterconnectConfig, size: u64, now: Nanos)
    ensures
        arrives_at(
            link,
            size,
            now,
            arith::sat_add(now, transfer_manager::transfer_time(link, size)),
        ),
{
    let rate = link.bandwidth_bytes_per_ns;
    if rate.num != 0 {
        let n = size * rate.den;
        let num = rate.num as int;
        assert(n >= 0) by (nonlinear_arith)
            requires
                n == size * rate.den,
        ;
        let t = arith::ceil_div(n, num);
        assert(t >= 0 && t * num >= n && (t - 1) * num < n) by (nonlinear_arith)
            requires
                n >= 0,
                num > 0,
                t == (n + num - 1) / num,
        ;
        assert(is_least_time(size, rate, t));
    }
}

/// A request without a link between its devices is answered at once, and
/// changes nothing.
pub proof fn law_near_data_is_there_at_once(
    t: Transfers,
    links: Seq<InterconnectConfig>,
    request: TransferRequest,
    now: Nanos,
)
    requires
        apart(links, request.from, request.to),
    ensures
        t.requested(links, request, now).0 == t,
        t.requested(links, request, now).1.len() == 1,
        t.requested(links, request, now).1[0].time == now,
        tells(
            t.requested(links, request, now).1[0].kind,
            request.id,
            request.owner_job_id,
            request.expected_version,
            request.to,
        ),
{
    lemma_link(links, request.from, request.to);
    if let Some(i) = search::first_where(
        links,
        transfer_manager::joins(request.from, request.to),
    ) {
        assert(has_ends(links[i], request.from, request.to));
    }
}

/// A request goes over the first link that has its two devices as ends, in
/// either order. Unless the bus of the link is taken, the data is there after
/// the latency and the least time in which the bandwidth moves it.
pub proof fn law_requests_take_the_first_link(
    t: Transfers,
    links: Seq<InterconnectConfig>,
    request: TransferRequest,
    now: Nanos,
    i: int,
)
    requires
        is_first_link(links, i, request.from, request.to),
        links[i].shared_bus matches Some(bus) ==> !is_taken(t.active, bus),
    ensures
        t.requested(links, request, now).1.len() == 1,
        arrives_at(
            links[i],
            request.data_size,
            now,
            t.requested(links, request, now).1[0].time,
        ),
        tells(
            t.requested(links, request, now).1[0].kind,
            request.id,
            request.owner_job_id,
            request.expected_version,
            request.to,
        ),
        t.requested(links, request, now).0.pending == t.pending,
        t.requested(links, request, now).0.active =~= t.active.push(
            ActiveTransfer {
                id: request.id,
                owner_job_id: request.owner_job_id,
                bus_id: links[i].shared_bus,
                started_at: now,
                reason: request.reason,
            },
        ),
        t.requested(links, request, now).0.stats.bus_transfer_requests == if links[i].shared_bus
            is Some {
            capped(t.stats.bus_transfer_requests + 1)
        } else {
            t.stats.bus_transfer_requests as int
        },
        t.requested(links, request, now).0.stats == (TransferStats {
            bus_transfer_requests: t.requested(links, request, now).0.stats.bus_transfer_requests,
            ..t.stats
        }),
{
    lemma_link(links, request.from, request.to);
    let k = search::first_where(links, transfer_manager::joins(request.from, request.to));
    assert(has_ends(links[i], request.from, request.to));
    assert(k == Some(i)) by {
        if let Some(j) = k {
            assert(has_ends(links[j], request.from, request.to));
        }
    }
    lemma_time(links[i], request.data_size, now);
    if let Some(bus) = links[i].shared_bus {
        lemma_taken(t, bus);
    }
}

/// A request over a bus that is taken waits behind those that wait, with all
/// that it asks for, and counts as a contention.
pub proof fn law_requests_wait_for_a_taken_bus(
    t: Transfers,
    links: Seq<InterconnectConfig>,
    request: TransferRequest,
    now: Nanos,
    i: int,
    bus: BusId,
)
    requires
        is_first_link(links, i, request.from, request.to),
        links[i].shared_bus == Some(bus),
        is_taken(t.active, bus),
    ensures
        t.requested(links, request, now).1.len() == 0,
        t.requested(links, request, now).0.active == t.active,
        t.requested(links, request, now).0.pending =~= t.pending.push(
            PendingTransfer {
                id: request.id,
                owner_job_id: request.owner_job_id,
                bus_id: bus,
                target_device: request.to,
                data_size: request.data_size,
                priority: request.priority,
                expected_version: request.expected_version,
                enqueued_at: now,
                reason: request.reason,
            },
        ),
        t.requested(links, request, now).0.stats.bus_transfer_requests == capped(
            t.stats.bus_transfer_requests + 1,
        ),
        t.requested(links, request, now).0.stats.bus_transfer_contentions == capped(
            t.stats.bus_transfer_contentions + 1,
        ),
        t.requested(links, request, now).0.stats.total_transfer_time_ns
            == t.stats.total_transfer_time_ns,
        t.requested(links, request, now).0.stats.migration_transfer_time_ns
            == t.stats.migration_transfer_time_ns,
        t.requested(links, request, now).0.stats.bus_wait_time_ns == t.stats.bus_wait_time_ns,
{
    lemma_link(links, request.from, request.to);
    let k = search::first_where(links, transfer_manager::joins(request.from, request.to));
    assert(has_ends(links[i], request.from, request.to));
    assert(k == Some(i)) by {
        if let Some(j) = k {
            assert(has_ends(links[j], request.from, request.to));
        }
    }
    lemma_taken(t, bus);
}

/// Links carry data in both directions alike: a request from one device to
/// another is served like the same request the other way round, at the same
/// times, and only the device that the data goes to differs.
pub proof fn law_links_carry_both_ways(
    t: Transfers,
    links: Seq<InterconnectConfig>,
    there: TransferRequest,
    back: TransferRequest,
    now: Nanos,
)
    requires
        back == (TransferRequest { from: there.to, to: there.from, ..there }),
    ensures
        t.requested(links, there, now).1.len() == t.requested(links, back, now).1.len(),
        forall|k: int|
            0 <= k < t.requested(links, there, now).1.len() ==> (#[trigger] t.requested(
                links,
                there,
                now,
            ).1[k]).time == t.requested(links, back, now).1[k].time,
        t.requested(links, there, now).0.active =~= t.requested(links, back, now).0.active,
        t.requested(links, there, now).0.stats == t.requested(links, back, now).0.stats,
        t.requested(links, there, now).0.pending.len() == t.requested(
            links,
            back,
            now,
        ).0.pending.len(),
{
    lemma_link(links, there.from, there.to);
    lemma_link(links, back.from, back.to);
    let a = search::first_where(links, transfer_manager::joins(there.from, there.to));
    let b = search::first_where(links, transfer_manager::joins(back.from, back.to));
    assert(a == b) by {
        if let Some(i) = a {
            assert(has_ends(links[i], back.from, back.to));
        }
        if let Some(i) = b {
            assert(has_ends(links[i], there.from, there.to));
        }
    }
}

/// Whether a waiting transfer is the one that a bus serves next: of those that
/// wait for it the most urgent where the bus goes by priority, and else, or
/// among equals, the one that waits longest.
pub open spec fn is_next(
    pending: Seq<PendingTransfer>,
    bus: BusId,
    by_priority: bool,
    i: int,
) -> bool {
    &&& 0 <= i < pending.len()
    &&& pending[i].bus_id == bus
    &&& forall|j: int|
        0 <= j < pending.len() && (#[trigger] pending[j]).bus_id == bus ==> if by_priority
            && pending[i].priority != pending[j].priority {
            pending[i].priority < pending[j].priority
        } else {
            i <= j
        }
}

/// Whether no transfer waits for a bus.
pub open spec fn none_waits(pending: Seq<PendingTransfer>, bus: BusId) -> bool {
    forall|j: int| 0 <= j < pending.len() ==> (#[trigger] pending[j]).bus_id != bus
}

/// Whether the first bus of an id goes by priority.
pub open spec fn goes_by_priority(buses: Seq<SharedBusConfig>, bus: BusId) -> bool {
    exists|i: int|
        0 <= i < buses.len() && (#[trigger] buses[i]).id == bus && (forall|j: int|
            0 <= j < i ==> (#[trigger] buses[j]).id != bus) && buses[i].arbitration is PriorityBased
}

/// Whether a link is the first one of a bus that has a device as an end.
pub open spec fn is_first_of_bus(
    links: Seq<InterconnectConfig>,
    i: int,
    bus: BusId,
    device: DeviceId,
) -> bool {
    &&& 0 <= i < links.len()
    &&& links[i].shared_bus == Some(bus)
    &&& links[i].from == device || links[i].to == device
    &&& forall|j: int|
        0 <= j < i ==> !((#[trigger] links[j]).shared_bus == Some(bus) && (links[j].from == device
            || links[j].to == device))
}

proof fn lemma_goes_by_priority(buses: Seq<SharedBusConfig>, bus: BusId)
    ensures
        transfer_manager::serves_by_priority(buses, bus) == goes_by_priority(buses, bus),
{
    let cond = transfer_manager::bus_with(bus);
    search::law_first_where(buses, cond);
    assert forall|j: int| 0 <= j < buses.len() implies cond(buses[j]) == ((
    #[trigger] buses[j]).id == bus) by {}
    if goes_by_priority(buses, bus) {
        let i = choose|i: int|
            0 <= i < buses.len() && (#[trigger] buses[i]).id == bus && (forall|j: int|
                0 <= j < i ==> (#[trigger] buses[j]).id != bus) && buses[i].arbitration
                is PriorityBased;
        let k = search::first_where(buses, cond);
        assert(cond(buses[i]));
        assert(buses[k->0].id == bus);
    } else if let Some(k) = search::first_where(buses, cond) {
        assert(buses[k].id == bus);
    }
}

proof fn lemma_next(pending: Seq<PendingTransfer>, bus: BusId, by_priority: bool)
    ensures
        match transfer_manager::next_place(pending, bus, by_priority) {
            Some(i) => is_next(pending, bus, by_priority, i),
            None => none_waits(pending, bus),
        },
    decreases pending.len(),
{
    if pending.len() > 0 {
        let rest = pending.drop_last();
        lemma_next(rest, bus, by_priority);
        assert forall|j: int| 0 <= j < rest.len() implies rest[j] == #[trigger] pending[j] by {}
        if let Some(i) = transfer_manager::next_place(rest, bus, by_priority) {
            assert(rest[i] == pending[i]);
        }
    }
}

/// Whether a bus serves the next transfer: none where none waits, else the one
/// that is next, over its first link to the device; one that no link of the bus
/// leads to is given up.
pub open spec fn serves_next(
    t: Transfers,
    links: Seq<InterconnectConfig>,
    buses: Seq<SharedBusConfig>,
    bus: BusId,
    now: Nanos,
    after: Transfers,
    events: Seq<ScheduledEvent>,
) -> bool {
    if none_waits(t.pending, bus) {
        after == t && events.len() == 0
    } else {
        exists|i: int| #[trigger]
            is_next(t.pending, bus, goes_by_priority(buses, bus), i) && after.pending
                =~= t.pending.remove(i) && starts(t, links, bus, now, t.pending[i], after, events)
    }
}

/// Whether a waiting transfer starts on a bus.
pub open spec fn starts(
    t: Transfers,
    links: Seq<InterconnectConfig>,
    bus: BusId,
    now: Nanos,
    next: PendingTransfer,
    after: Transfers,
    events: Seq<ScheduledEvent>,
) -> bool {
    if exists|k: int| is_first_of_bus(links, k, bus, next.target_device) {
        exists|k: int| #[trigger]
            is_first_of_bus(links, k, bus, next.target_device) && {
                &&& events.len() == 1
                &&& arrives_at(links[k], next.data_size, now, events[0].time)
                &&& tells(
                    events[0].kind,
                    next.id,
                    next.owner_job_id,
                    next.expected_version,
                    next.target_device,
                )
                &&& after.active =~= t.active.push(
                    ActiveTransfer {
                        id: next.id,
                        owner_job_id: next.owner_job_id,
                        bus_id: Some(bus),
                        started_at: now,
                        reason: next.reason,
                    },
                )
                &&& after.stats.bus_wait_time_ns == capped(
                    t.stats.bus_wait_time_ns + if now < next.enqueued_at {
                        0
                    } else {
                        now - next.enqueued_at
                    },
                )
                &&& after.stats == (TransferStats {
                    bus_wait_time_ns: after.stats.bus_wait_time_ns,
                    ..t.stats
                })
            }
    } else {
        events.len() == 0 && after.active == t.active && after.stats == t.stats
    }
}

/// A bus serves the transfer that is next, as arbitration or the end of a
/// transfer asks it to.
pub proof fn law_buses_serve_the_next(
    t: Transfers,
    links: Seq<InterconnectConfig>,
    buses: Seq<SharedBusConfig>,
    bus: BusId,
    now: Nanos,
)
    ensures
        serves_next(
            t,
            links,
            buses,
            bus,
            now,
            t.next_served(links, buses, bus, now).0,
            t.next_served(links, buses, bus, now).1,
        ),
{
    let by_priority = transfer_manager::serves_by_priority(buses, bus);
    lemma_goes_by_priority(buses, bus);
    lemma_next(t.pending, bus, by_priority);
    if let Some(i) = transfer_manager::next_place(t.pending, bus, by_priority) {
        let next = t.pending[i];
        let cond = transfer_manager::reaches(bus, next.target_device);
        search::law_first_where(links, cond);
        assert forall|j: int| 0 <= j < links.len() implies cond(links[j]) == ((
        #[trigger] links[j]).shared_bus == Some(bus) && (links[j].from == next.target_device
            || links[j].to == next.target_device)) by {}
        match search::first_where(links, cond) {
            Some(k) => {
                assert(is_first_of_bus(links, k, bus, next.target_device));
                lemma_time(links[k], next.data_size, now);
            },
            None => {
                assert forall|k: int| !is_first_of_bus(links, k, bus, next.target_device) by {
                    if is_first_of_bus(links, k, bus, next.target_device) {
                        assert(cond(links[k]));
                    }
                }
            },
        }
    }
}

/// Whether the transfer at a place has ended: its place is taken by the last
/// one, and the time since its start counts, as migration time too where a
/// migration moved it.
pub open spec fn ends(t: Transfers, i: int, now: Nanos, after: Transfers) -> bool {
    let spent = if now < t.active[i].started_at {
        0
    } else {
        now - t.active[i].started_at
    };
    &&& after.pending == t.pending
    &&& after.active.len() == t.active.len() - 1
    &&& forall|j: int|
        0 <= j < t.active.len() - 1 ==> (#[trigger] after.active[j]) == if j == i {
            t.active[t.active.len() - 1]
        } else {
            t.active[j]
        }
    &&& after.stats.total_transfer_time_ns == capped(t.stats.total_transfer_time_ns + spent)
    &&& after.stats.migration_transfer_time_ns == capped(
        t.stats.migration_transfer_time_ns + if t.active[i].reason == TransferReason::Job(
            JobTransferKind::Migration,
        ) {
            spent
        } else {
            0
        },
    )
    &&& after.stats.bus_wait_time_ns == t.stats.bus_wait_time_ns
    &&& after.stats.bus_transfer_requests == t.stats.bus_transfer_requests
    &&& after.stats.bus_transfer_contentions == t.stats.bus_transfer_contentions
}

/// Whether the transfer at a place ends and its bus serves the next one.
pub open spec fn ends_and_passes_on(
    t: Transfers,
    links: Seq<InterconnectConfig>,
    buses: Seq<SharedBusConfig>,
    i: int,
    now: Nanos,
    after: Transfers,
    events: Seq<ScheduledEvent>,
) -> bool {
    exists|between: Transfers| #[trigger]
        ends(t, i, now, between) && match t.active[i].bus_id {
            None => after == between && events.len() == 0,
            Some(bus) => serves_next(between, links, buses, bus, now, after, events),
        }
}

proof fn lemma_released(
    t: Transfers,
    links: Seq<InterconnectConfig>,
    buses: Seq<SharedBusConfig>,
    i: int,
    now: Nanos,
)
    requires
        0 <= i < t.active.len(),
    ensures
        ends_and_passes_on(
            t,
            links,
            buses,
            i,
            now,
            t.released(links, buses, Some(i), now).0,
            t.released(links, buses, Some(i), now).1,
        ),
{
    let between = t.ended(i, now);
    assert(ends(t, i, now, between));
    if let Some(bus) = t.active[i].bus_id {
        law_buses_serve_the_next(between, links, buses, bus, now);
    }
}

/// A transfer that completes is the first one of its id. It ends, and its bus
/// serves the next. One that is not under way changes nothing.
pub proof fn law_completed_transfers_free_their_bus(
    t: Transfers,
    links: Seq<InterconnectConfig>,
    buses: Seq<SharedBusConfig>,
    id: TransferId,
    now: Nanos,
    i: int,
)
    ensures
        0 <= i < t.active.len() && t.active[i].id == id && (forall|j: int|
            0 <= j < i ==> (#[trigger] t.active[j]).id != id) ==> ends_and_passes_on(
            t,
            links,
            buses,
            i,
            now,
            t.completed(links, buses, id, now).0,
            t.completed(links, buses, id, now).1,
        ),
        (forall|j: int| 0 <= j < t.active.len() ==> (#[trigger] t.active[j]).id != id) ==> {
            &&& t.completed(links, buses, id, now).0 == t
            &&& t.completed(links, buses, id, now).1.len() == 0
        },
{
    let cond = transfer_manager::with_id(id);
    search::law_first_where(t.active, cond);
    assert forall|j: int| 0 <= j < t.active.len() implies cond(t.active[j]) == ((
    #[trigger] t.active[j]).id == id) by {}
    let k = search::first_where(t.active, cond);
    if 0 <= i < t.active.len() && t.active[i].id == id && (forall|j: int|
        0 <= j < i ==> (#[trigger] t.active[j]).id != id) {
        assert(cond(t.active[i]));
        assert(t.active[k->0].id == id);
        lemma_released(t, links, buses, i, now);
    }
    if let Some(at) = k {
        assert(t.active[at].id == id);
    }
}

/// Cancelling a job gives up what waits for it and keeps the rest in order.
/// The first of its transfers that is under way ends, and its bus serves the
/// next.
pub proof fn law_cancelled_transfers_free_their_bus(
    t: Transfers,
    links: Seq<InterconnectConfig>,
    buses: Seq<SharedBusConfig>,
    job: JobId,
    now: Nanos,
    i: int,
) -> (left: Transfers)
    ensures
        left.active == t.active,
        left.stats == t.stats,
        forall|p: PendingTransfer| #[trigger]
            left.pending.contains(p) <==> t.pending.contains(p) && p.owner_job_id != job,
        (forall|j: int| 0 <= j < t.pending.len() ==> (#[trigger] t.pending[j]).owner_job_id != job)
            ==> left.pending =~= t.pending,
        0 <= i < t.active.len() && t.active[i].owner_job_id == job && (forall|j: int|
            0 <= j < i ==> (#[trigger] t.active[j]).owner_job_id != job) ==> ends_and_passes_on(
            left,
            links,
            buses,
            i,
            now,
            t.cancelled(links, buses, job, now).0,
            t.cancelled(links, buses, job, now).1,
        ),
        (forall|j: int| 0 <= j < t.active.len() ==> (#[trigger] t.active[j]).owner_job_id != job)
            ==> {
            &&& t.cancelled(links, buses, job, now).0 == left
            &&& t.cancelled(links, buses, job, now).1.len() == 0
        },
{
    let keep = transfer_manager::not_owned_by(job);
    let left = Transfers { pending: t.pending.filter(keep), ..t };
    assert forall|p: PendingTransfer| #[trigger]
        left.pending.contains(p) <==> t.pending.contains(p) && p.owner_job_id != job by {
        lemma_kept(t.pending, keep, p);
    }
    if forall|j: int| 0 <= j < t.pending.len() ==> (#[trigger] t.pending[j]).owner_job_id != job {
        lemma_all_kept(t.pending, keep);
    }
    let cond = transfer_manager::owned_by(job);
    search::law_first_where(left.active, cond);
    assert forall|j: int| 0 <= j < t.active.len() implies cond(t.active[j]) == ((
    #[trigger] t.active[j]).owner_job_id == job) by {}
    let k = search::first_where(left.active, cond);
    if 0 <= i < t.active.len() && t.active[i].owner_job_id == job && (forall|j: int|
        0 <= j < i ==> (#[trigger] t.active[j]).owner_job_id != job) {
        assert(cond(t.active[i]));
        assert(t.active[k->0].owner_job_id == job);
        lemma_released(left, links, buses, i, now);
    }
    if let Some(at) = k {
        assert(t.active[at].owner_job_id == job);
    }
    left
}

proof fn lemma_kept<T>(items: Seq<T>, keep: spec_fn(T) -> bool, x: T)
    ensures
        items.filter(keep).contains(x) <==> items.contains(x) && keep(x),
    decreases items.len(),
{
    reveal(Seq::filter);
    if items.len() > 0 {
        let rest = items.drop_last();
        lemma_kept(rest, keep, x);
        assert(rest.push(items.last()) =~= items);
        search::lemma_push(rest, items.last(), x);
        search::lemma_push(rest.filter(keep), items.last(), x);
    }
}

proof fn lemma_all_kept<T>(items: Seq<T>, keep: spec_fn(T) -> bool)
    requires
        forall|j: int| 0 <= j < items.len() ==> keep(#[trigger] items[j]),
    ensures
        items.filter(keep) =~= items,
    decreases items.len(),
{
    reveal(Seq::filter);
    if items.len() > 0 {
        let rest = items.drop_last();
        assert forall|j: int| 0 <= j < rest.len() implies keep(#[trigger] rest[j]) by {
            assert(keep(items[j]));
        }
        lemma_all_kept(rest, keep);
        assert(keep(items[items.len() - 1]));
    }
}

} // verus!
