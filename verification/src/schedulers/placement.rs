//! Choice of a device for an arriving job.

use crate::device::{DeviceConfig, PreemptionModel};
use crate::ids::DeviceId;
use crate::scheduler::{SchedulerView, Sight};
use crate::select::{self, Key};
use crate::task::DeviceType;
use crate::virtual_device::VirtualDeviceModel;
use vstd::prelude::*;

verus! {

/// Load of a device: whether it runs a job, how many wait, and its id where
/// ids break ties.
pub open spec fn load_key(view: Sight, d: DeviceId, by_id: bool) -> Key {
    Key {
        k0: if view.running_at(d) is Some {
            1
        } else {
            0
        },
        k1: view.waiting_at(d).len() as i128,
        k2: if by_id {
            d.0 as i128
        } else {
            0
        },
        k3: 0,
        k4: 0,
        k5: 0,
    }
}

/// Loads of a list of devices.
pub open spec fn load_keys(view: Sight, ids: Seq<DeviceId>, by_id: bool) -> Seq<Key> {
    Seq::new(ids.len(), |i: int| load_key(view, ids[i], by_id))
}

/// The device with the least load.
pub open spec fn least_loaded(
    view: Sight,
    ids: Seq<DeviceId>,
    by_id: bool,
) -> Option<DeviceId> {
    select::item_at(ids, select::least(load_keys(view, ids, by_id)))
}

/// Queue length of a device, then its id.
pub open spec fn queue_key(view: Sight, d: DeviceId) -> Key {
    Key {
        k0: view.waiting_at(d).len() as i128,
        k1: d.0 as i128,
        k2: 0,
        k3: 0,
        k4: 0,
        k5: 0,
    }
}

/// Queue keys of a list of devices.
pub open spec fn queue_keys(view: Sight, ids: Seq<DeviceId>) -> Seq<Key> {
    Seq::new(ids.len(), |i: int| queue_key(view, ids[i]))
}

/// The device with the shortest queue.
pub open spec fn shortest_queue(view: Sight, ids: Seq<DeviceId>) -> Option<DeviceId> {
    select::item_at(ids, select::least(queue_keys(view, ids)))
}

/// The devices of a list that run no job.
pub open spec fn idle_of(view: Sight, ids: Seq<DeviceId>) -> Seq<DeviceId>
    decreases ids.len(),
{
    if ids.len() == 0 {
        Seq::empty()
    } else {
        let rest = idle_of(view, ids.drop_last());
        if view.running_at(ids.last()) is None {
            rest.push(ids.last())
        } else {
            rest
        }
    }
}

/// The idle device with the shortest queue.
pub open spec fn idle_shortest(view: Sight, ids: Seq<DeviceId>) -> Option<DeviceId> {
    shortest_queue(view, idle_of(view, ids))
}

/// The places of the devices of one type.
pub open spec fn places_of_type(devices: Seq<DeviceConfig>, dt: DeviceType) -> Seq<int>
    decreases devices.len(),
{
    if devices.len() == 0 {
        Seq::empty()
    } else {
        let rest = places_of_type(devices.drop_last(), dt);
        if devices.last().device_type == dt {
            rest.push(devices.len() - 1)
        } else {
            rest
        }
    }
}

/// The places of the devices a task can run on: by affinity first, then in the
/// order of the list.
pub open spec fn compatible_places(affinity: Seq<DeviceType>, devices: Seq<DeviceConfig>) -> Seq<
    int,
>
    decreases affinity.len(),
{
    if affinity.len() == 0 {
        Seq::empty()
    } else {
        compatible_places(affinity.drop_last(), devices) + places_of_type(devices, affinity.last())
    }
}

/// Whether a device lets a running job be preempted.
pub open spec fn may_preempt(view: Sight, d: DeviceId, at_point: bool) -> bool {
    match view.device_at(d) {
        Some(device) => VirtualDeviceModel::of(device.preemption).decides(at_point) is AllowNow,
        None => false,
    }
}

/// Finds the device with the least load.
pub fn pick_least_loaded(view: &SchedulerView<'_>, ids: &Vec<DeviceId>, by_id: bool) -> (d: Option<
    DeviceId,
>)
    ensures
        d == least_loaded(view@, ids@, by_id),
{
    let mut keys: Vec<Key> = Vec::new();
    let mut i: usize = 0;
    while i < ids.len()
        invariant
            i <= ids@.len(),
            keys@.len() == i,
            forall|j: int| 0 <= j < i ==> #[trigger] keys@[j] == load_key(view@, ids@[j], by_id),
        decreases ids@.len() - i,
    {
        let k0: i128 = match view.running_on_device(ids[i]) {
            Some(_) => 1,
            None => 0,
        };
        let k1: i128 = view.queue_len(ids[i]) as i128;
        let k2: i128 = if by_id {
            ids[i].0 as i128
        } else {
            0
        };
        keys.push(Key { k0, k1, k2, k3: 0, k4: 0, k5: 0 });
        i = i + 1;
    }
    proof {
        assert(keys@ =~= load_keys(view@, ids@, by_id));
    }
    match select::find_least(&keys) {
        Some(at) => Some(ids[at]),
        None => None,
    }
}

/// Finds the device with the shortest queue.
pub fn pick_shortest_queue(view: &SchedulerView<'_>, ids: &Vec<DeviceId>) -> (d: Option<DeviceId>)
    ensures
        d == shortest_queue(view@, ids@),
{
    let mut keys: Vec<Key> = Vec::new();
    let mut i: usize = 0;
    while i < ids.len()
        invariant
            i <= ids@.len(),
            keys@.len() == i,
            forall|j: int| 0 <= j < i ==> #[trigger] keys@[j] == queue_key(view@, ids@[j]),
        decreases ids@.len() - i,
    {
        let k0: i128 = view.queue_len(ids[i]) as i128;
        keys.push(Key { k0, k1: ids[i].0 as i128, k2: 0, k3: 0, k4: 0, k5: 0 });
        i = i + 1;
    }
    proof {
        assert(keys@ =~= queue_keys(view@, ids@));
    }
    match select::find_least(&keys) {
        Some(at) => Some(ids[at]),
        None => None,
    }
}

/// Lists the devices that run no job.
pub fn list_idle(view: &SchedulerView<'_>, ids: &Vec<DeviceId>) -> (idle: Vec<DeviceId>)
    ensures
        idle@ == idle_of(view@, ids@),
{
    let mut idle: Vec<DeviceId> = Vec::new();
    let mut i: usize = 0;
    while i < ids.len()
        invariant
            i <= ids@.len(),
            idle@ == idle_of(view@, ids@.take(i as int)),
        decreases ids@.len() - i,
    {
        proof {
            assert(ids@.take(i as int + 1).drop_last() =~= ids@.take(i as int));
        }
        match view.running_on_device(ids[i]) {
            Some(_) => {},
            None => {
                idle.push(ids[i]);
            },
        }
        i = i + 1;
    }
    proof {
        assert(ids@.take(i as int) =~= ids@);
    }
    idle
}

/// Finds the idle device with the shortest queue.
pub fn pick_idle_shortest(view: &SchedulerView<'_>, ids: &Vec<DeviceId>) -> (d: Option<DeviceId>)
    ensures
        d == idle_shortest(view@, ids@),
{
    let idle: Vec<DeviceId> = list_idle(view, ids);
    pick_shortest_queue(view, &idle)
}

/// Lists the places of the devices a task can run on.
pub fn list_places(affinity: &Vec<DeviceType>, devices: &[DeviceConfig]) -> (places: Vec<usize>)
    ensures
        places@.map_values(|p: usize| p as int) == compatible_places(
            affinity@,
            devices@,
        ),
        forall|i: int| 0 <= i < places@.len() ==> #[trigger] places@[i] < devices@.len(),
{
    let mut places: Vec<usize> = Vec::new();
    let mut a: usize = 0;
    while a < affinity.len()
        invariant
            a <= affinity@.len(),
            places@.map_values(|p: usize| p as int) == compatible_places(
                affinity@.take(a as int),
                devices@,
            ),
            forall|i: int| 0 <= i < places@.len() ==> #[trigger] places@[i] < devices@.len(),
        decreases affinity@.len() - a,
    {
        let dt: DeviceType = affinity[a];
        let ghost before = places@.map_values(|p: usize| p as int);
        let mut i: usize = 0;
        while i < devices.len()
            invariant
                i <= devices@.len(),
                places@.map_values(|p: usize| p as int) == before + places_of_type(
                    devices@.take(i as int),
                    dt,
                ),
                forall|k: int|
                    0 <= k < places@.len() ==> #[trigger] places@[k] < devices@.len(),
            decreases devices@.len() - i,
        {
            let ghost old_places = places@;
            proof {
                assert(devices@.take(i as int + 1).drop_last() =~= devices@.take(
                    i as int,
                ));
            }
            if devices[i].device_type == dt {
                places.push(i);
                proof {
                    assert(places@.map_values(|p: usize| p as int) =~= old_places.map_values(
                        |p: usize| p as int,
                    ).push(i as int));
                }
            }
            i = i + 1;
        }
        proof {
            assert(devices@.take(i as int) =~= devices@);
            assert(affinity@.take(a as int + 1).drop_last() =~= affinity@.take(
                a as int,
            ));
        }
        a = a + 1;
    }
    proof {
        assert(affinity@.take(a as int) =~= affinity@);
    }
    places
}

/// Checks whether a device lets a running job be preempted.
pub fn preemption_allowed(view: &SchedulerView<'_>, d: DeviceId, at_point: bool) -> (yes: bool)
    ensures
        yes == may_preempt(view@, d, at_point),
{
    match view.device(d) {
        Some(device) => match device.preemption {
            PreemptionModel::FullyPreemptive => true,
            PreemptionModel::LimitedPreemptive { .. } | PreemptionModel::InterruptLevel { .. } => {
                at_point
            },
            PreemptionModel::NonPreemptive { .. } => false,
        },
        None => false,
    }
}

/// An idle device exactly where one of the list runs no job, and it is one of
/// the list.
pub proof fn law_idle_choice(view: Sight, ids: Seq<DeviceId>)
    ensures
        idle_shortest(view, ids) is None <==> (forall|i: int|
            0 <= i < ids.len() ==> view.running_at(#[trigger] ids[i]) is Some),
        idle_shortest(view, ids) matches Some(d) ==> view.running_at(d) is None && ids.contains(d),
{
    let idle = idle_of(view, ids);
    lemma_idle_members(view, ids);
    select::law_least_is_first_minimum(queue_keys(view, idle));
    if idle.len() == 0 {
        assert forall|i: int| 0 <= i < ids.len() implies view.running_at(
            #[trigger] ids[i],
        ) is Some by {
            if view.running_at(ids[i]) is None {
                assert(idle.contains(ids[i]));
            }
        }
    } else {
        assert(idle.contains(idle[0]));
        let d = idle_shortest(view, ids)->0;
        assert(idle.contains(d));
        let at = choose|i: int| 0 <= i < ids.len() && ids[i] == idle[0];
        assert(view.running_at(ids[at]) is None);
    }
}

/// A list's idle part holds exactly its idle devices.
proof fn lemma_idle_members(view: Sight, ids: Seq<DeviceId>)
    ensures
        forall|d: DeviceId| #[trigger]
            idle_of(view, ids).contains(d) <==> ids.contains(d) && view.running_at(d) is None,
    decreases ids.len(),
{
    if ids.len() > 0 {
        let rest = ids.drop_last();
        lemma_idle_members(view, rest);
        assert forall|d: DeviceId| #[trigger] idle_of(view, ids).contains(d) <==> ids.contains(d)
            && view.running_at(d) is None by {
            assert(ids =~= rest.push(ids.last()));
            let ri = idle_of(view, rest);
            if idle_of(view, ids).contains(d) {
                let i = choose|i: int|
                    0 <= i < idle_of(view, ids).len() && idle_of(view, ids)[i] == d;
                if i < ri.len() {
                    assert(ri[i] == d);
                    assert(ri.contains(d));
                    let j = choose|j: int| 0 <= j < rest.len() && rest[j] == d;
                    assert(ids[j] == d);
                } else {
                    assert(ids[ids.len() - 1] == d);
                }
            }
            if ids.contains(d) && view.running_at(d) is None {
                let j = choose|j: int| 0 <= j < ids.len() && ids[j] == d;
                if j < rest.len() {
                    assert(rest[j] == d);
                    assert(ri.contains(d));
                    let i = choose|i: int| 0 <= i < ri.len() && ri[i] == d;
                    assert(idle_of(view, ids)[i] == d);
                } else {
                    assert(idle_of(view, ids)[ri.len() as int] == d);
                }
            }
        }
    }
}

/// Places of devices are places in the list.
pub proof fn lemma_places_in_range(affinity: Seq<DeviceType>, devices: Seq<DeviceConfig>)
    ensures
        forall|i: int|
            0 <= i < compatible_places(affinity, devices).len() ==> 0 <= #[trigger] (
            compatible_places(affinity, devices)[i]) < devices.len(),
    decreases affinity.len(),
{
    if affinity.len() > 0 {
        lemma_places_in_range(affinity.drop_last(), devices);
        lemma_type_places_in_range(devices, affinity.last());
        let a = compatible_places(affinity.drop_last(), devices);
        let b = places_of_type(devices, affinity.last());
        assert forall|i: int| 0 <= i < (a + b).len() implies 0 <= #[trigger] (a + b)[i]
            < devices.len() by {
            if i < a.len() {
                assert((a + b)[i] == a[i]);
            } else {
                assert((a + b)[i] == b[i - a.len()]);
            }
        }
    }
}

/// Places of devices of one type are places in the list.
pub proof fn lemma_type_places_in_range(devices: Seq<DeviceConfig>, dt: DeviceType)
    ensures
        forall|i: int|
            0 <= i < places_of_type(devices, dt).len() ==> 0 <= #[trigger] (places_of_type(
                devices,
                dt,
            )[i]) < devices.len(),
    decreases devices.len(),
{
    if devices.len() > 0 {
        lemma_type_places_in_range(devices.drop_last(), dt);
        let rest = places_of_type(devices.drop_last(), dt);
        assert forall|i: int| 0 <= i < places_of_type(devices, dt).len() implies 0 <= #[trigger] (
        places_of_type(devices, dt)[i]) < devices.len() by {
            if i < rest.len() {
                assert(places_of_type(devices, dt)[i] == rest[i]);
            }
        }
    }
}

} // verus!
