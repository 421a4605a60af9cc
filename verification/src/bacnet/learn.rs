//! A round of learning: the objects of every known device, one point for each
//! that can be read.
//!
//! The caller performs the reads that [`LearnRun::next`] asks for and reports
//! what came of them, until nothing is left to ask.

use vstd::prelude::*;

use super::discovery::{DeviceInfo, SocketAddress};
use super::driver::BacnetDriver;
use super::plan::{kind_of, learn_point, learnt, point_kind};
use super::reply::{object_list, object_list_of};
use super::value::{BacnetValue, ValueView};
use crate::driver::{distinct_keys, LearnPoint, LearnPointView};

verus! {

// ── State ───────────────────────────────────────────────────

/// What has been asked and not been answered.
#[derive(Debug)]
enum Asked {
    /// Nothing.
    Nothing,
    /// The object list of a device.
    List(DeviceInfo),
    /// The names of objects of a device, one after the other.
    Names { device: DeviceInfo, objects: Vec<(u16, u32)> },
}

/// The open questions of a round.
pub enum AskedView {
    Nothing,
    List(DeviceInfo),
    Names { device: DeviceInfo, objects: Seq<(u16, u32)> },
}

/// A round of learning.
#[derive(Debug)]
pub struct LearnRun {
    grid: Vec<LearnPoint>,
    asked: Asked,
    devices: Vec<DeviceInfo>,
}

/// What a [`LearnRun`] knows.
pub struct LearnView {
    /// The points learnt so far.
    pub grid: Seq<LearnPointView>,
    /// The open questions.
    pub asked: AskedView,
    /// The devices that have not been asked.
    pub devices: Seq<DeviceInfo>,
}

/// What a list of points says.
pub open spec fn grid_view(grid: Seq<LearnPoint>) -> Seq<LearnPointView> {
    grid.map_values(|p: LearnPoint| p@)
}

impl View for LearnRun {
    type V = LearnView;

    closed spec fn view(&self) -> LearnView {
        LearnView {
            grid: grid_view(self.grid@),
            asked: match self.asked {
                Asked::Nothing => AskedView::Nothing,
                Asked::List(device) => AskedView::List(device),
                Asked::Names { device, objects } => AskedView::Names { device, objects: objects@ },
            },
            devices: self.devices@,
        }
    }
}

/// What is to be read next.
#[derive(Debug, Clone, Copy, PartialEq, Eq, Structural)]
pub enum LearnStep {
    /// The object list of a device.
    ReadList { addr: SocketAddress, device: u32 },
    /// The name of an object.
    ReadName { addr: SocketAddress, object_type: u16, instance: u32 },
    /// Nothing: the round is complete.
    Done,
}

/// The step that the state calls for.
pub open spec fn learn_step(v: LearnView) -> LearnStep {
    match v.asked {
        AskedView::Nothing => LearnStep::Done,
        AskedView::List(device) => LearnStep::ReadList {
            addr: device.addr,
            device: device.instance,
        },
        AskedView::Names { device, objects } => LearnStep::ReadName {
            addr: device.addr,
            object_type: objects[0].0,
            instance: objects[0].1,
        },
    }
}

// ── Transitions ─────────────────────────────────────────────

/// The objects of a list that make points.
pub open spec fn pointlike(objects: Seq<(u16, u32)>) -> Seq<(u16, u32)>
    decreases objects.len(),
{
    if objects.len() == 0 {
        Seq::empty()
    } else {
        let earlier = pointlike(objects.drop_last());
        if kind_of(objects.last().0) is Some {
            earlier.push(objects.last())
        } else {
            earlier
        }
    }
}

/// The names that are asked for: none if there are no objects.
pub open spec fn names_of(device: DeviceInfo, objects: Seq<(u16, u32)>) -> AskedView {
    if objects.len() == 0 {
        AskedView::Nothing
    } else {
        AskedView::Names { device, objects }
    }
}

/// The state once there is something to ask, or nothing is left.
pub open spec fn turned(v: LearnView) -> LearnView {
    if v.asked is Nothing && v.devices.len() > 0 {
        LearnView {
            asked: AskedView::List(v.devices[0]),
            devices: v.devices.drop_first(),
            ..v
        }
    } else {
        v
    }
}

/// The state after the object list of a device was read, or could not be: then
/// the device is passed over.
pub open spec fn after_list(v: LearnView, list: Option<ValueView>) -> LearnView {
    match v.asked {
        AskedView::List(device) => LearnView {
            asked: match list {
                Some(value) => names_of(device, pointlike(object_list_of(value))),
                None => AskedView::Nothing,
            },
            ..v
        },
        _ => v,
    }
}

/// The state after the name of an object was read, or could not be: the object
/// becomes a point either way.
pub open spec fn after_name(v: LearnView, name: Option<Seq<char>>) -> LearnView {
    match v.asked {
        AskedView::Names { device, objects } => LearnView {
            grid: v.grid.push(
                learnt(device.instance, objects[0].0, objects[0].1, name)->Some_0,
            ),
            asked: names_of(device, objects.drop_first()),
            ..v
        },
        _ => v,
    }
}

/// How many points there are or will be of the devices asked so far.
pub open spec fn promised(v: LearnView) -> nat {
    v.grid.len() + match v.asked {
        AskedView::Names { objects, .. } => objects.len(),
        _ => 0,
    }
}

/// Whether a list holds every registered device once: entry `i` is the device
/// under `keys[i]`.
pub open spec fn lists_under(
    devices: Map<u32, DeviceInfo>,
    keys: Seq<u32>,
    list: Seq<DeviceInfo>,
) -> bool {
    &&& keys.no_duplicates()
    &&& keys.to_set() == devices.dom()
    &&& list.len() == keys.len()
    &&& forall|i: int| 0 <= i < keys.len() ==> list[i] == devices[#[trigger] keys[i]]
}

/// Whether a list holds every registered device once, in any order.
pub open spec fn lists_devices(devices: Map<u32, DeviceInfo>, list: Seq<DeviceInfo>) -> bool {
    exists|keys: Seq<u32>| lists_under(devices, keys, list)
}

/// What a name says, if there is one.
pub open spec fn name_view(name: Option<String>) -> Option<Seq<char>> {
    match name {
        Some(n) => Some(n@),
        None => None,
    }
}

/// What a value says, if there is one.
pub open spec fn option_value_view(v: Option<BacnetValue>) -> Option<ValueView> {
    match v {
        Some(v) => Some(v@),
        None => None,
    }
}

// ── Laws ────────────────────────────────────────────────────

/// A device that names its objects is owed a point for each of those that make
/// points; one whose list cannot be read is owed none.
pub proof fn list_promises_its_points(v: LearnView, list: Option<ValueView>)
    requires
        v.asked is List,
    ensures
        promised(after_list(v, list)) == promised(v) + match list {
            Some(value) => pointlike(object_list_of(value)).len(),
            None => 0,
        },
{
}

/// Every name, read or not, pays for one point, and no promise is lost.
pub proof fn name_keeps_promises(v: LearnView, name: Option<Seq<char>>)
    requires
        v.asked matches AskedView::Names { objects, .. } && objects.len() > 0,
    ensures
        promised(after_name(v, name)) == promised(v),
        after_name(v, name).grid.len() == v.grid.len() + 1,
{
}

/// A round with nothing left to ask has learnt all that it promised.
pub proof fn complete_round_keeps_promises(v: LearnView)
    requires
        v.asked is Nothing,
    ensures
        v.grid.len() == promised(v),
{
}

/// Every object that makes a point can be learnt under any name or none.
proof fn lemma_pointlike_learnt(objects: Seq<(u16, u32)>, i: int)
    requires
        0 <= i < pointlike(objects).len(),
    ensures
        kind_of(pointlike(objects)[i].0) is Some,
    decreases objects.len(),
{
    let earlier = pointlike(objects.drop_last());
    if i < earlier.len() {
        lemma_pointlike_learnt(objects.drop_last(), i);
    }
}

// ── Operations ──────────────────────────────────────────────

impl LearnRun {
    /// What holds of every round: names are asked of objects that make points,
    /// and of one at least; no point has a tag twice.
    pub closed spec fn wf(&self) -> bool {
        &&& match self.asked {
            Asked::Names { objects, .. } => objects@.len() > 0 && forall|i: int|
                0 <= i < objects@.len() ==> kind_of((#[trigger] objects@[i]).0) is Some,
            _ => true,
        }
        &&& forall|i: int|
            0 <= i < self.grid@.len() ==> distinct_keys((#[trigger] self.grid@[i])@.tags)
    }

    /// Start a round over all known devices, in no particular order.
    pub fn begin(driver: &BacnetDriver) -> (res: Self)
        ensures
            res.wf(),
            res@.grid.len() == 0,
            res@.asked is Nothing,
            lists_devices(driver@.devices, res@.devices),
    {
        let known: Vec<&DeviceInfo> = driver.device_registry().all();
        let ghost keys = choose|keys: Seq<u32>|
            keys.no_duplicates() && keys.to_set() == driver@.devices.dom() && known@.len()
                == keys.len() && forall|i: int|
                0 <= i < keys.len() ==> *known@[i] == driver@.devices[#[trigger] keys[i]];
        let mut devices: Vec<DeviceInfo> = Vec::new();
        let mut i: usize = 0;
        while i < known.len()
            invariant
                i <= known@.len(),
                devices@.len() == i,
                forall|k: int| 0 <= k < i ==> #[trigger] devices@[k] == *known@[k],
            decreases known@.len() - i,
        {
            devices.push(*known[i]);
            i += 1;
        }
        let res: LearnRun = LearnRun { grid: Vec::new(), asked: Asked::Nothing, devices };
        assert(lists_under(driver@.devices, keys, devices@));
        res
    }

    /// Find out what to read next.
    pub fn next(&mut self) -> (step: LearnStep)
        requires
            old(self).wf(),
        ensures
            final(self).wf(),
            final(self)@ == turned(old(self)@),
            step == learn_step(final(self)@),
            promised(final(self)@) == promised(old(self)@),
            step is Done ==> final(self)@.devices.len() == 0,
    {
        if let Asked::Nothing = self.asked {
            if self.devices.len() > 0 {
                let device: DeviceInfo = self.devices.remove(0);
                self.asked = Asked::List(device);
                assert(self@.devices =~= old(self)@.devices.drop_first());
            }
        }
        match &self.asked {
            Asked::Nothing => LearnStep::Done,
            Asked::List(device) => LearnStep::ReadList {
                addr: device.addr,
                device: device.instance,
            },
            Asked::Names { device, objects } => LearnStep::ReadName {
                addr: device.addr,
                object_type: objects[0].0,
                instance: objects[0].1,
            },
        }
    }

    /// The object list that was asked for has come, or could not be read.
    pub fn list_read(&mut self, list: Option<BacnetValue>)
        requires
            old(self).wf(),
            old(self)@.asked is List,
        ensures
            final(self).wf(),
            final(self)@ == after_list(old(self)@, option_value_view(list)),
    {
        let mut asked: Asked = Asked::Nothing;
        std::mem::swap(&mut asked, &mut self.asked);
        if let Asked::List(device) = asked {
            if let Some(value) = list {
                let all: Vec<(u16, u32)> = object_list(value);
                let objects: Vec<(u16, u32)> = keep_pointlike(&all);
                if objects.len() > 0 {
                    proof {
                        assert forall|i: int| 0 <= i < objects@.len() implies kind_of(
                            (#[trigger] objects@[i]).0,
                        ) is Some by {
                            lemma_pointlike_learnt(all@, i);
                        }
                    }
                    self.asked = Asked::Names { device, objects };
                }
            }
        }
    }

    /// The name that was asked for has come, or could not be read. Then the
    /// object is called by its type and instance.
    pub fn name_read(&mut self, name: Option<String>)
        requires
            old(self).wf(),
            old(self)@.asked is Names,
        ensures
            final(self).wf(),
            final(self)@ == after_name(old(self)@, name_view(name)),
            promised(final(self)@) == promised(old(self)@),
    {
        let ghost start = self@;
        let ghost called = name_view(name);
        let mut asked: Asked = Asked::Nothing;
        std::mem::swap(&mut asked, &mut self.asked);
        if let Asked::Names { device, objects } = asked {
            let mut rest: Vec<(u16, u32)> = objects;
            let ghost before = rest@;
            let (object_type, instance): (u16, u32) = rest.remove(0);
            assert(rest@ =~= before.drop_first());
            if let Some(point) = learn_point(device.instance, object_type, instance, name) {
                let ghost p = point@;
                self.grid.push(point);
                assert(grid_view(self.grid@) =~= start.grid.push(p));
            }
            if rest.len() > 0 {
                assert forall|i: int| 0 <= i < rest@.len() implies kind_of(
                    (#[trigger] rest@[i]).0,
                ) is Some by {
                    assert(rest@[i] == before[i + 1]);
                }
                self.asked = Asked::Names { device, objects: rest };
            }
        }
        proof {
            assert(self@ == after_name(start, called));
            name_keeps_promises(start, called);
        }
    }

    /// The points of the round.
    pub fn into_grid(self) -> (grid: Vec<LearnPoint>)
        requires
            self.wf(),
        ensures
            grid_view(grid@) == self@.grid,
            forall|i: int| 0 <= i < grid@.len() ==> distinct_keys((#[trigger] grid@[i])@.tags),
    {
        self.grid
    }
}

/// Keep the objects that make points.
fn keep_pointlike(objects: &Vec<(u16, u32)>) -> (out: Vec<(u16, u32)>)
    ensures
        out@ == pointlike(objects@),
{
    let mut out: Vec<(u16, u32)> = Vec::new();
    let mut i: usize = 0;
    assert(objects@.subrange(0, 0) =~= Seq::empty());
    while i < objects.len()
        invariant
            i <= objects@.len(),
            out@ == pointlike(objects@.subrange(0, i as int)),
        decreases objects@.len() - i,
    {
        assert(objects@.subrange(0, i + 1).drop_last() =~= objects@.subrange(0, i as int));
        if let Some(_) = point_kind(objects[i].0) {
            out.push(objects[i]);
        }
        i += 1;
    }
    assert(objects@.subrange(0, i as int) =~= objects@);
    out
}

} // verus!
