//! Which objects of a device become points, and as what.

use vstd::prelude::*;

use super::discovery::DeviceInfo;
use super::learn::{after_list, after_name, learn_step, pointlike, turned, AskedView, LearnStep, LearnView};
use super::plan::{kind_of, learnt};
use super::reply::{listed_objects, object_list_of};
use super::value::ValueView;
use crate::driver::LearnPointView;
use crate::text::decimal;

verus! {

// ── Object lists ────────────────────────────────────────────

/// Whether a value names an object other than a device.
pub open spec fn names_object(v: ValueView) -> bool {
    v matches ValueView::ObjectId { object_type, .. } && object_type != 8
}

/// The object list of a device names, in order and as often, the objects whose
/// identifiers it holds, except device objects (type 8).
pub proof fn object_list_names_every_object(items: Seq<ValueView>)
    ensures
        object_list_of(ValueView::Array(items)) == items.filter(
            |v: ValueView| names_object(v),
        ).map_values(|v: ValueView| (v->object_type, v->instance)),
    decreases items.len(),
{
    reveal(Seq::filter);
    let f = |v: ValueView| (v->object_type, v->instance);
    let keep = |v: ValueView| names_object(v);
    let kept = items.filter(keep);
    if items.len() > 0 {
        let init = items.drop_last();
        object_list_names_every_object(init);
        let earlier = init.filter(keep);
        assert(listed_objects(init) == object_list_of(ValueView::Array(init)));
        if keep(items.last()) {
            assert(kept == earlier.push(items.last()));
            assert(kept.map_values(f) =~= earlier.map_values(f).push(f(items.last())));
        }
    } else {
        assert(kept.map_values(f) =~= Seq::empty());
    }
    assert(listed_objects(items) =~= kept.map_values(f));
}

/// An object is in the list that is read if and only if the value holds its
/// identifier and it is not a device.
pub proof fn object_is_listed_iff_named(items: Seq<ValueView>, object_type: u16, instance: u32)
    ensures
        object_list_of(ValueView::Array(items)).contains((object_type, instance)) <==> object_type
            != 8 && items.contains(ValueView::ObjectId { object_type, instance }),
    decreases items.len(),
{
    let o = (object_type, instance);
    let id = ValueView::ObjectId { object_type, instance };
    let all = listed_objects(items);
    if items.len() > 0 {
        let init = items.drop_last();
        object_is_listed_iff_named(init, object_type, instance);
        let earlier = listed_objects(init);
        assert(earlier == object_list_of(ValueView::Array(init)));
        assert(items[items.len() - 1] == items.last());
        if earlier.contains(o) {
            let k = choose|k: int| 0 <= k < earlier.len() && earlier[k] == o;
            assert(all[k] == o);
        }
        if init.contains(id) {
            let k = choose|k: int| 0 <= k < init.len() && init[k] == id;
            assert(items[k] == id);
        }
        if items.contains(id) && !init.contains(id) {
            let k = choose|k: int| 0 <= k < items.len() && items[k] == id;
            assert(k == items.len() - 1) by {
                if k < init.len() {
                    assert(init[k] == id);
                }
            }
            if object_type != 8 {
                assert(all[earlier.len() as int] == o);
            }
        }
        if all.contains(o) && !earlier.contains(o) {
            let k = choose|k: int| 0 <= k < all.len() && all[k] == o;
            assert(k == earlier.len());
            assert(items.last() == id);
        }
    }
}

/// A single value counts as a list of one.
pub proof fn single_value_is_a_list_of_one(v: ValueView)
    requires
        !(v is Array),
    ensures
        object_list_of(v) == object_list_of(ValueView::Array(seq![v])),
{
}

// ── Points ──────────────────────────────────────────────────

/// Analog objects (types 0-2) become numbers, binary ones (types 3-5) on/off
/// points; nothing else becomes a point.
pub proof fn analog_and_binary_objects_become_points(object_type: u16)
    ensures
        0 <= object_type <= 2 ==> kind_of(object_type) == Some("Number"@),
        3 <= object_type <= 5 ==> kind_of(object_type) == Some("Bool"@),
        object_type > 5 ==> kind_of(object_type) is None,
{
}

/// Of the objects of a device those of types 0-5 are kept, in order.
pub proof fn pointlike_objects_are_kept(objects: Seq<(u16, u32)>)
    ensures
        pointlike(objects) == objects.filter(|o: (u16, u32)| o.0 <= 5),
    decreases objects.len(),
{
    reveal(Seq::filter);
    if objects.len() > 0 {
        pointlike_objects_are_kept(objects.drop_last());
    }
}

/// Every object of types 0-5 that a device answers its list with is asked for
/// its name, and nothing else is.
pub proof fn every_listed_object_is_asked_for(
    v: LearnView,
    device: DeviceInfo,
    items: Seq<ValueView>,
    object_type: u16,
    instance: u32,
)
    requires
        v.asked == AskedView::List(device),
    ensures
        ({
            let after = after_list(v, Some(ValueView::Array(items)));
            let asked = after.asked matches AskedView::Names { device: dev, objects } && dev == device
                && objects.contains((object_type, instance));
            &&& asked <==> object_type <= 5 && items.contains(
                ValueView::ObjectId { object_type, instance },
            )
            &&& after.grid == v.grid
            &&& after.devices == v.devices
        }),
{
    let o = (object_type, instance);
    let listed = object_list_of(ValueView::Array(items));
    object_is_listed_iff_named(items, object_type, instance);
    lemma_pointlike_contains(listed, o);
}

/// An object is kept if and only if it is in the list and makes a point.
proof fn lemma_pointlike_contains(objects: Seq<(u16, u32)>, o: (u16, u32))
    ensures
        pointlike(objects).contains(o) <==> objects.contains(o) && o.0 <= 5,
    decreases objects.len(),
{
    if objects.len() > 0 {
        let init = objects.drop_last();
        lemma_pointlike_contains(init, o);
        let earlier = pointlike(init);
        let all = pointlike(objects);
        assert(objects[objects.len() - 1] == objects.last());
        if earlier.contains(o) {
            let k = choose|k: int| 0 <= k < earlier.len() && earlier[k] == o;
            assert(all[k] == o);
        }
        if init.contains(o) {
            let k = choose|k: int| 0 <= k < init.len() && init[k] == o;
            assert(objects[k] == o);
        }
        if objects.contains(o) && !init.contains(o) {
            let k = choose|k: int| 0 <= k < objects.len() && objects[k] == o;
            if k < init.len() {
                assert(init[k] == o);
            }
            if o.0 <= 5 {
                assert(all[earlier.len() as int] == o);
            }
        }
        if all.contains(o) && !earlier.contains(o) {
            let k = choose|k: int| 0 <= k < all.len() && all[k] == o;
            assert(k == earlier.len());
        }
    }
}

/// A device whose list could not be read is passed over.
pub proof fn unreadable_list_is_passed_over(v: LearnView, device: DeviceInfo)
    requires
        v.asked == AskedView::List(device),
    ensures
        after_list(v, None).asked is Nothing,
        after_list(v, None).grid == v.grid,
        after_list(v, None).devices == v.devices,
{
}

/// Whether a point is that of an object of a device: the address and the tags
/// name device, type and instance, and the name begins with the device.
pub open spec fn point_of_object(
    p: LearnPointView,
    device: u32,
    object_type: u16,
    instance: u32,
    name: Option<Seq<char>>,
) -> bool {
    let d = decimal(device as nat);
    let t = decimal(object_type as nat);
    let i = decimal(instance as nat);
    &&& p.address == d + ":"@ + t + ":"@ + i
    &&& p.tags.contains(("deviceId"@, d))
    &&& p.tags.contains(("objectType"@, t))
    &&& p.tags.contains(("instance"@, i))
    &&& p.tags.len() == 3
    &&& p.unit is None
    &&& p.kind == if object_type <= 2 {
        "Number"@
    } else {
        "Bool"@
    }
    &&& match name {
        Some(n) => p.name == d + "-"@ + n,
        None => p.name == d + "-"@ + (t + "-"@ + i),
    }
}

/// An object of types 0-5 is learnt as the point of that object.
pub proof fn object_is_learnt_as_its_point(
    device: u32,
    object_type: u16,
    instance: u32,
    name: Option<Seq<char>>,
)
    ensures
        match learnt(device, object_type, instance, name) {
            Some(p) => object_type <= 5 && point_of_object(
                p,
                device,
                object_type,
                instance,
                name,
            ),
            None => object_type > 5,
        },
{
    if let Some(p) = learnt(device, object_type, instance, name) {
        assert(p.tags[0] == ("deviceId"@, decimal(device as nat)));
        assert(p.tags[1] == ("objectType"@, decimal(object_type as nat)));
        assert(p.tags[2] == ("instance"@, decimal(instance as nat)));
    }
}

/// The state after the names of several objects were read, one after the other.
pub open spec fn after_names(v: LearnView, names: Seq<Option<Seq<char>>>) -> LearnView
    decreases names.len(),
{
    if names.len() == 0 {
        v
    } else {
        after_names(after_name(v, names[0]), names.drop_first())
    }
}

/// Once all names that were asked for have come, or could not be read, every
/// object that was asked for stands in the grid as its point, in order, behind
/// the points that were there before, and nothing is left to ask of the device.
pub proof fn every_object_asked_for_becomes_a_point(
    v: LearnView,
    device: DeviceInfo,
    objects: Seq<(u16, u32)>,
    names: Seq<Option<Seq<char>>>,
)
    requires
        v.asked == (AskedView::Names { device, objects }),
        objects.len() > 0,
        names.len() == objects.len(),
        forall|i: int| 0 <= i < objects.len() ==> (#[trigger] objects[i]).0 <= 5,
    ensures
        ({
            let after = after_names(v, names);
            &&& after.asked is Nothing
            &&& after.devices == v.devices
            &&& after.grid.len() == v.grid.len() + objects.len()
            &&& after.grid.subrange(0, v.grid.len() as int) == v.grid
            &&& forall|i: int|
                0 <= i < objects.len() ==> point_of_object(
                    #[trigger] after.grid[v.grid.len() + i],
                    device.instance,
                    objects[i].0,
                    objects[i].1,
                    names[i],
                )
        }),
    decreases names.len(),
{
    let next = after_name(v, names[0]);
    let rest = objects.drop_first();
    let more = names.drop_first();
    let after = after_names(v, names);
    assert(objects[0].0 <= 5);
    object_is_learnt_as_its_point(device.instance, objects[0].0, objects[0].1, names[0]);
    if rest.len() == 0 {
        assert(after_names(next, more) == next);
        assert(after.grid.subrange(0, v.grid.len() as int) =~= v.grid);
    } else {
        assert forall|i: int| 0 <= i < rest.len() implies (#[trigger] rest[i]).0 <= 5 by {
            assert(rest[i] == objects[i + 1]);
        }
        every_object_asked_for_becomes_a_point(next, device, rest, more);
        let n = v.grid.len() as int;
        assert(next.grid.len() == n + 1);
        assert(next.grid == after.grid.subrange(0, n + 1));
        assert(after.grid.subrange(0, n) =~= next.grid.subrange(0, n));
        assert(next.grid.subrange(0, n) =~= v.grid);
        assert forall|i: int| 0 <= i < objects.len() implies point_of_object(
            #[trigger] after.grid[n + i],
            device.instance,
            objects[i].0,
            objects[i].1,
            names[i],
        ) by {
            if i == 0 {
                assert(after.grid[n] == next.grid[n]);
            } else {
                assert(rest[i - 1] == objects[i]);
                assert(more[i - 1] == names[i]);
                assert(after.grid[next.grid.len() + (i - 1)] == after.grid[n + i]);
            }
        }
    }
}

/// The devices of a round are asked one after the other: the list of the next
/// device when nothing is open, and otherwise nothing changes.
pub proof fn devices_are_asked_in_turn(v: LearnView)
    ensures
        ({
            let t = turned(v);
            &&& t.grid == v.grid
            &&& v.asked is Nothing && v.devices.len() > 0 ==> t.asked == AskedView::List(
                v.devices[0],
            ) && t.devices == v.devices.subrange(1, v.devices.len() as int)
            &&& !(v.asked is Nothing) || v.devices.len() == 0 ==> t == v
        }),
{
    if v.devices.len() > 0 {
        assert(v.devices.drop_first() =~= v.devices.subrange(1, v.devices.len() as int));
    }
}

/// What is read next is what is open: the list of the device that is asked, or
/// the name of the first object without one, at the address of its device.
pub proof fn step_reads_what_is_open(v: LearnView)
    ensures
        match (v.asked, learn_step(v)) {
            (AskedView::Nothing, LearnStep::Done) => true,
            (AskedView::List(device), LearnStep::ReadList { addr, device: instance }) => addr
                == device.addr && instance == device.instance,
            (
                AskedView::Names { device, objects },
                LearnStep::ReadName { addr, object_type, instance },
            ) => addr == device.addr && (object_type, instance) == objects[0],
            _ => false,
        },
{
}

} // verus!
