//! Cache of the values that change-of-value notifications brought.

use std::collections::HashMap;

use vstd::prelude::*;
use vstd::std_specs::hash::*;

use super::frame::types::{CovNotificationView, CovPropertyView};
use super::frame::CovNotification;
use super::value::{BacnetValue, ValueView};

verus! {

/// Property 85: Present_Value.
pub const PRESENT_VALUE: u32 = 85;

/// The latest value of an object, as a notification brought it.
#[derive(Debug)]
pub struct CovCacheEntry {
    /// The latest present value.
    pub value: BacnetValue,
    /// When the entry was last updated, in nanoseconds on the driver's clock.
    pub updated_at: u128,
    /// The subscriber process ID that triggered the update.
    pub process_id: u32,
}

/// What a [`CovCacheEntry`] says.
pub struct CovEntryView {
    pub value: ValueView,
    pub updated_at: u128,
    pub process_id: u32,
}

impl View for CovCacheEntry {
    type V = CovEntryView;

    open spec fn view(&self) -> CovEntryView {
        CovEntryView {
            value: self.value@,
            updated_at: self.updated_at,
            process_id: self.process_id,
        }
    }
}

/// Cache of latest values, keyed by object type and instance.
///
/// Updated whenever a receive loop meets a notification. `sync_cur` answers
/// from it for subscribed points instead of reading over the network.
#[derive(Debug)]
pub struct CovCache {
    entries: HashMap<u64, CovCacheEntry>,
}

/// The key under which the entry of an object is kept.
spec fn packed(object: (u16, u32)) -> u64 {
    (object.0 * 0x1_0000_0000 + object.1) as u64
}

/// Pack an object type and an instance.
fn pack(object_type: u16, instance: u32) -> (key: u64)
    ensures
        key == packed((object_type, instance)),
{
    object_type as u64 * 0x1_0000_0000 + instance as u64
}

/// Different objects have different keys.
proof fn lemma_packed_is_unique(a: (u16, u32), b: (u16, u32))
    ensures
        packed(a) == packed(b) ==> a == b,
{
}

impl View for CovCache {
    type V = Map<(u16, u32), CovEntryView>;

    closed spec fn view(&self) -> Map<(u16, u32), CovEntryView> {
        Map::new(
            |object: (u16, u32)| self.entries@.contains_key(packed(object)),
            |object: (u16, u32)| self.entries@[packed(object)]@,
        )
    }
}

/// The last present value in a list of reported properties.
pub open spec fn last_present_value(values: Seq<CovPropertyView>) -> Option<ValueView>
    decreases values.len(),
{
    if values.len() == 0 {
        None
    } else if values.last().property_id == PRESENT_VALUE {
        Some(values.last().value)
    } else {
        last_present_value(values.drop_last())
    }
}

/// A cache after a notification has been noted at time `now`.
pub open spec fn cache_noted(
    cache: Map<(u16, u32), CovEntryView>,
    notification: CovNotificationView,
    now: u128,
) -> Map<(u16, u32), CovEntryView> {
    match last_present_value(notification.values) {
        Some(value) => cache.insert(
            (notification.monitored_object_type, notification.monitored_object_instance),
            CovEntryView {
                value,
                updated_at: now,
                process_id: notification.subscriber_process_id,
            },
        ),
        None => cache,
    }
}

/// Whether an entry of age `now - updated_at` is younger than `max_age`. Times
/// that lie ahead count as age zero.
pub open spec fn fresh(updated_at: u128, now: u128, max_age: u128) -> bool {
    (if now >= updated_at {
        now - updated_at
    } else {
        0
    }) < max_age
}

impl CovCache {
    /// Create an empty cache.
    pub fn new() -> (res: Self)
        ensures
            res@ == Map::<(u16, u32), CovEntryView>::empty(),
    {
        broadcast use group_hash_axioms;

        let res: CovCache = CovCache { entries: HashMap::new() };
        assert(res@ =~= Map::<(u16, u32), CovEntryView>::empty());
        res
    }

    /// Store one present value.
    fn store(&mut self, object_type: u16, instance: u32, entry: CovCacheEntry)
        ensures
            final(self)@ == old(self)@.insert((object_type, instance), entry@),
    {
        broadcast use group_hash_axioms;

        let ghost e = entry@;
        self.entries.insert(pack(object_type, instance), entry);
        proof {
            assert forall|o: (u16, u32)| #[trigger]
                packed(o) == packed((object_type, instance)) implies o == (
                object_type,
                instance,
            ) by {
                lemma_packed_is_unique(o, (object_type, instance));
            }
            assert(self@ =~= old(self)@.insert((object_type, instance), e));
        }
    }

    /// Update the cache from a notification received at time `now`.
    ///
    /// Stores the present value (property 85) if the notification reports one;
    /// of several the last.
    pub fn update(&mut self, notification: &CovNotification, now: u128)
        ensures
            final(self)@ == cache_noted(old(self)@, notification@, now),
    {
        let ghost all = notification@.values;
        let ghost object = (
            notification.monitored_object_type,
            notification.monitored_object_instance,
        );
        let mut i: usize = 0;
        assert(all.subrange(0, 0) =~= Seq::empty());
        while i < notification.values.len()
            invariant
                i <= notification.values@.len(),
                all == notification@.values,
                object == (
                    notification.monitored_object_type,
                    notification.monitored_object_instance,
                ),
                self@ == match last_present_value(all.subrange(0, i as int)) {
                    Some(value) => old(self)@.insert(
                        object,
                        CovEntryView {
                            value,
                            updated_at: now,
                            process_id: notification.subscriber_process_id,
                        },
                    ),
                    None => old(self)@,
                },
            decreases notification.values@.len() - i,
        {
            let ghost before = self@;
            if notification.values[i].property_id == PRESENT_VALUE {
                self.store(
                    notification.monitored_object_type,
                    notification.monitored_object_instance,
                    CovCacheEntry {
                        value: notification.values[i].value.clone(),
                        updated_at: now,
                        process_id: notification.subscriber_process_id,
                    },
                );
                proof {
                    let e = CovEntryView {
                        value: all[i as int].value,
                        updated_at: now,
                        process_id: notification.subscriber_process_id,
                    };
                    assert(self@ =~= old(self)@.insert(object, e));
                }
            }
            i += 1;
            assert(all.subrange(0, i as int).drop_last() =~= all.subrange(0, i - 1));
            assert(all.subrange(0, i as int).last() == all[i - 1]);
        }
        assert(all.subrange(0, i as int) =~= all);
    }

    /// Look up a cached value. Returns `None` if there is none or if it is not
    /// younger than `max_age` nanoseconds at time `now`.
    pub fn get(&self, object_type: u16, instance: u32, now: u128, max_age: u128) -> (res: Option<
        &CovCacheEntry,
    >)
        ensures
            match res {
                Some(e) => self@.contains_key((object_type, instance)) && e@ == self@[(
                    object_type,
                    instance,
                )] && fresh(e@.updated_at, now, max_age),
                None => !self@.contains_key((object_type, instance)) || !fresh(
                    self@[(object_type, instance)].updated_at,
                    now,
                    max_age,
                ),
            },
    {
        broadcast use group_hash_axioms;

        match self.entries.get(&pack(object_type, instance)) {
            Some(e) => {
                let age: u128 = if now >= e.updated_at {
                    now - e.updated_at
                } else {
                    0
                };
                if age < max_age {
                    Some(e)
                } else {
                    None
                }
            },
            None => None,
        }
    }

    /// Remove the entry of an object.
    pub fn remove(&mut self, object_type: u16, instance: u32)
        ensures
            final(self)@ == old(self)@.remove((object_type, instance)),
    {
        broadcast use group_hash_axioms;

        self.entries.remove(&pack(object_type, instance));
        proof {
            assert forall|o: (u16, u32)| #[trigger]
                packed(o) == packed((object_type, instance)) implies o == (
                object_type,
                instance,
            ) by {
                lemma_packed_is_unique(o, (object_type, instance));
            }
            assert(self@ =~= old(self)@.remove((object_type, instance)));
        }
    }
}

/// What a notification brought can be read until it reaches its maximum age,
/// and it replaces what was cached of the same object alone.
pub proof fn noted_value_is_read(
    cache: Map<(u16, u32), CovEntryView>,
    notification: CovNotificationView,
    now: u128,
    later: u128,
    max_age: u128,
    other: (u16, u32),
)
    requires
        last_present_value(notification.values) is Some,
        now <= later,
        later - now < max_age,
    ensures
        ({
            let object = (
                notification.monitored_object_type,
                notification.monitored_object_instance,
            );
            let noted = cache_noted(cache, notification, now);
            &&& noted.contains_key(object)
            &&& Some(noted[object].value) == last_present_value(notification.values)
            &&& fresh(noted[object].updated_at, later, max_age)
            &&& other != object ==> noted.contains_key(other) == cache.contains_key(other)
            &&& other != object && cache.contains_key(other) ==> noted[other] == cache[other]
        }),
{
}

} // verus!
