//! Watch subscriptions: who wants to hear of which points.

use std::collections::HashMap;

use vstd::prelude::*;
use vstd::std_specs::hash::*;
use vstd::string::*;

use crate::text::text;

verus! {

/// Tracks the subscribers of points.
#[derive(Debug)]
pub struct DriverWatchManager {
    subscribers: HashMap<u32, Vec<String>>,
}

/// The subscribers in a list.
pub open spec fn names(list: Seq<String>) -> Set<Seq<char>> {
    list.map_values(|s: String| s@).to_set()
}

/// Whether no subscriber is listed twice.
pub open spec fn distinct(list: Seq<String>) -> bool {
    list.map_values(|s: String| s@).no_duplicates()
}

impl View for DriverWatchManager {
    type V = Map<u32, Set<Seq<char>>>;

    closed spec fn view(&self) -> Map<u32, Set<Seq<char>>> {
        Map::new(
            |p: u32| self.subscribers@.contains_key(p),
            |p: u32| names(self.subscribers@[p]@),
        )
    }
}

/// The subscribers of a point; none if it is not watched.
pub open spec fn watchers(watches: Map<u32, Set<Seq<char>>>, point_id: u32) -> Set<Seq<char>> {
    if watches.contains_key(point_id) {
        watches[point_id]
    } else {
        Set::empty()
    }
}

/// Watches after a subscriber has been added to a point.
pub open spec fn with_watch(
    watches: Map<u32, Set<Seq<char>>>,
    name: Seq<char>,
    point_id: u32,
) -> Map<u32, Set<Seq<char>>> {
    watches.insert(point_id, watchers(watches, point_id).insert(name))
}

/// Watches after a subscriber has been taken from a point. A point without
/// subscribers is not watched.
pub open spec fn without_watch(
    watches: Map<u32, Set<Seq<char>>>,
    name: Seq<char>,
    point_id: u32,
) -> Map<u32, Set<Seq<char>>> {
    let left = watchers(watches, point_id).remove(name);
    if left.len() == 0 {
        watches.remove(point_id)
    } else {
        watches.insert(point_id, left)
    }
}

/// Watches after a subscriber has been added to several points.
pub open spec fn with_watches(
    watches: Map<u32, Set<Seq<char>>>,
    name: Seq<char>,
    points: Seq<u32>,
) -> Map<u32, Set<Seq<char>>>
    decreases points.len(),
{
    if points.len() == 0 {
        watches
    } else {
        with_watch(with_watches(watches, name, points.drop_last()), name, points.last())
    }
}

/// Watches after a subscriber has been taken from several points.
pub open spec fn without_watches(
    watches: Map<u32, Set<Seq<char>>>,
    name: Seq<char>,
    points: Seq<u32>,
) -> Map<u32, Set<Seq<char>>>
    decreases points.len(),
{
    if points.len() == 0 {
        watches
    } else {
        without_watch(without_watches(watches, name, points.drop_last()), name, points.last())
    }
}

impl DriverWatchManager {
    /// No subscriber is listed twice, and no list is empty.
    pub closed spec fn wf(&self) -> bool {
        forall|p: u32| #[trigger]
            self.subscribers@.contains_key(p) ==> distinct(self.subscribers@[p]@)
                && self.subscribers@[p]@.len() > 0
    }

    /// Create a manager without subscriptions.
    pub fn new() -> (res: Self)
        ensures
            res@ == Map::<u32, Set<Seq<char>>>::empty(),
            res.wf(),
    {
        broadcast use group_hash_axioms;

        let res: DriverWatchManager = DriverWatchManager { subscribers: HashMap::new() };
        assert(res@ =~= Map::<u32, Set<Seq<char>>>::empty());
        res
    }

    /// The subscribers of a point, each once.
    pub fn subscribers_for(&self, point_id: u32) -> (out: Vec<String>)
        requires
            self.wf(),
        ensures
            distinct(out@),
            names(out@) == watchers(self@, point_id),
            out@.len() == watchers(self@, point_id).len(),
    {
        broadcast use group_hash_axioms;

        match self.subscribers.get(&point_id) {
            Some(list) => {
                let out: Vec<String> = copied(list);
                proof {
                    lemma_names_len(out@);
                }
                out
            },
            None => {
                let out: Vec<String> = Vec::new();
                proof {
                    assert(out@.map_values(|s: String| s@) =~= Seq::empty());
                    assert(names(out@) =~= Set::empty());
                }
                out
            },
        }
    }

    /// Whether anyone watches a point.
    pub fn is_watched(&self, point_id: u32) -> (res: bool)
        ensures
            res == self@.contains_key(point_id),
    {
        broadcast use group_hash_axioms;

        self.subscribers.contains_key(&point_id)
    }

    /// Whether `subscriber` is the only one who watches a point.
    pub fn only_watcher(&self, subscriber: &str, point_id: u32) -> (res: bool)
        requires
            self.wf(),
        ensures
            res == (watchers(self@, point_id) == set![subscriber@]),
    {
        let list: Vec<String> = self.subscribers_for(point_id);
        let name: String = text(subscriber);
        let ghost who = watchers(self@, point_id);
        proof {
            assert(who.finite()) by {
                assert(names(list@).finite()) by {
                    vstd::seq_lib::seq_to_set_is_finite(list@.map_values(|s: String| s@));
                }
            }
        }
        if list.len() == 1 && list[0] == name {
            proof {
                assert(list@.map_values(|s: String| s@) =~= seq![subscriber@]);
                assert(who =~= set![subscriber@]) by {
                    assert(seq![subscriber@].to_set() =~= set![subscriber@]) by {
                        assert(seq![subscriber@][0] == subscriber@);
                    }
                }
            }
            true
        } else {
            proof {
                if who == set![subscriber@] {
                    assert(set![subscriber@].len() == 1);
                    assert(list@.len() == 1);
                    let views = list@.map_values(|s: String| s@);
                    assert(views.to_set().contains(views[0]));
                    assert(views[0] == subscriber@);
                }
            }
            false
        }
    }

    /// Add a subscriber to one point.
    fn add(&mut self, name: &String, point_id: u32)
        requires
            old(self).wf(),
        ensures
            final(self).wf(),
            final(self)@ == with_watch(old(self)@, name@, point_id),
    {
        broadcast use group_hash_axioms;

        let mut list: Vec<String> = self.subscribers_for(point_id);
        let ghost before = list@;
        if !lists(&list, name) {
            list.push(name.clone());
            proof {
                lemma_names_push(before, *name);
            }
        } else {
            proof {
                assert(names(before).insert(name@) =~= names(before));
            }
        }
        let ghost after = list@;
        proof {
            if after.len() == 0 {
                assert(lists_name(after, name@));
            }
        }
        self.subscribers.insert(point_id, list);
        assert(self@ =~= with_watch(old(self)@, name@, point_id));
    }

    /// Take a subscriber from one point.
    fn take(&mut self, name: &String, point_id: u32)
        requires
            old(self).wf(),
        ensures
            final(self).wf(),
            final(self)@ == without_watch(old(self)@, name@, point_id),
    {
        broadcast use group_hash_axioms;

        let list: Vec<String> = self.subscribers_for(point_id);
        let left: Vec<String> = others(&list, name);
        proof {
            lemma_names_len(left@);
        }
        let ghost kept = left@;
        if left.len() == 0 {
            self.subscribers.remove(&point_id);
        } else {
            self.subscribers.insert(point_id, left);
        }
        proof {
            assert(names(kept) == watchers(old(self)@, point_id).remove(name@));
            assert(self@ =~= without_watch(old(self)@, name@, point_id));
        }
    }

    /// Subscribe to points.
    pub fn subscribe(&mut self, subscriber: &str, point_ids: &[u32])
        requires
            old(self).wf(),
        ensures
            final(self).wf(),
            final(self)@ == with_watches(old(self)@, subscriber@, point_ids@),
    {
        let name: String = text(subscriber);
        let mut i: usize = 0;
        assert(point_ids@.subrange(0, 0) =~= Seq::empty());
        while i < point_ids.len()
            invariant
                i <= point_ids@.len(),
                name@ == subscriber@,
                self.wf(),
                self@ == with_watches(
                    old(self)@,
                    subscriber@,
                    point_ids@.subrange(0, i as int),
                ),
            decreases point_ids@.len() - i,
        {
            self.add(&name, point_ids[i]);
            i += 1;
            assert(point_ids@.subrange(0, i as int).drop_last() =~= point_ids@.subrange(0, i - 1));
        }
        assert(point_ids@.subrange(0, i as int) =~= point_ids@);
    }

    /// Unsubscribe from points.
    pub fn unsubscribe(&mut self, subscriber: &str, point_ids: &[u32])
        requires
            old(self).wf(),
        ensures
            final(self).wf(),
            final(self)@ == without_watches(old(self)@, subscriber@, point_ids@),
    {
        let name: String = text(subscriber);
        let mut i: usize = 0;
        assert(point_ids@.subrange(0, 0) =~= Seq::empty());
        while i < point_ids.len()
            invariant
                i <= point_ids@.len(),
                name@ == subscriber@,
                self.wf(),
                self@ == without_watches(
                    old(self)@,
                    subscriber@,
                    point_ids@.subrange(0, i as int),
                ),
            decreases point_ids@.len() - i,
        {
            self.take(&name, point_ids[i]);
            i += 1;
            assert(point_ids@.subrange(0, i as int).drop_last() =~= point_ids@.subrange(0, i - 1));
        }
        assert(point_ids@.subrange(0, i as int) =~= point_ids@);
    }
}

/// Whether a list holds a subscriber.
spec fn lists_name(list: Seq<String>, name: Seq<char>) -> bool {
    names(list).contains(name)
}

/// Whether a list holds a subscriber.
fn lists(list: &Vec<String>, name: &String) -> (res: bool)
    ensures
        res == names(list@).contains(name@),
{
    let ghost views = list@.map_values(|s: String| s@);
    let mut i: usize = 0;
    while i < list.len()
        invariant
            i <= list@.len(),
            views == list@.map_values(|s: String| s@),
            forall|k: int| 0 <= k < i ==> views[k] != name@,
        decreases list@.len() - i,
    {
        if list[i] == *name {
            assert(views[i as int] == name@);
            return true;
        }
        i += 1;
    }
    false
}

/// A copy of a list of subscribers.
fn copied(list: &Vec<String>) -> (out: Vec<String>)
    ensures
        out@ == list@,
{
    let mut out: Vec<String> = Vec::new();
    let mut i: usize = 0;
    while i < list.len()
        invariant
            i <= list@.len(),
            out@ == list@.subrange(0, i as int),
        decreases list@.len() - i,
    {
        out.push(list[i].clone());
        i += 1;
        assert(out@ =~= list@.subrange(0, i as int));
    }
    assert(list@.subrange(0, i as int) =~= list@);
    out
}

/// The subscribers in a list other than `name`.
fn others(list: &Vec<String>, name: &String) -> (out: Vec<String>)
    requires
        distinct(list@),
    ensures
        distinct(out@),
        names(out@) == names(list@).remove(name@),
{
    let ghost views = list@.map_values(|s: String| s@);
    let mut out: Vec<String> = Vec::new();
    let mut i: usize = 0;
    assert(out@.map_values(|s: String| s@) =~= Seq::empty());
    assert(names(out@) =~= names(list@.subrange(0, 0)).remove(name@)) by {
        assert(list@.subrange(0, 0).map_values(|s: String| s@) =~= Seq::empty());
    }
    while i < list.len()
        invariant
            i <= list@.len(),
            views == list@.map_values(|s: String| s@),
            views.no_duplicates(),
            distinct(out@),
            names(out@) == names(list@.subrange(0, i as int)).remove(name@),
        decreases list@.len() - i,
    {
        let ghost before = out@;
        let ghost prefix = list@.subrange(0, i as int);
        proof {
            assert(list@.subrange(0, i + 1) =~= prefix.push(list@[i as int]));
            assert(!names(prefix).contains(list@[i as int]@)) by {
                let pv = prefix.map_values(|s: String| s@);
                if pv.contains(list@[i as int]@) {
                    let k = choose|k: int| 0 <= k < pv.len() && pv[k] == list@[i as int]@;
                    assert(views[k] == views[i as int]);
                }
            }
            lemma_names_push(prefix, list@[i as int]);
        }
        if list[i] == *name {
            assert(names(prefix).insert(name@).remove(name@) =~= names(prefix).remove(name@));
        } else {
            out.push(list[i].clone());
            proof {
                lemma_names_push(before, list@[i as int]);
                assert(names(out@) =~= names(prefix.push(list@[i as int])).remove(name@));
            }
        }
        i += 1;
    }
    assert(list@.subrange(0, i as int) =~= list@);
    out
}

/// What adding a new subscriber does to a list.
proof fn lemma_names_push(list: Seq<String>, name: String)
    ensures
        names(list.push(name)) == names(list).insert(name@),
        distinct(list) && !names(list).contains(name@) ==> distinct(list.push(name)),
{
    let views = list.map_values(|s: String| s@);
    let more = list.push(name).map_values(|s: String| s@);
    assert(more =~= views.push(name@));
    assert forall|x: Seq<char>| more.to_set().contains(x) == views.to_set().insert(name@).contains(
        x,
    ) by {
        if more.contains(x) {
            let k = choose|k: int| 0 <= k < more.len() && more[k] == x;
            if k < views.len() {
                assert(views[k] == x);
            }
        }
        if views.contains(x) {
            let k = choose|k: int| 0 <= k < views.len() && views[k] == x;
            assert(more[k] == x);
        }
        assert(more[views.len() as int] == name@);
    }
    assert(more.to_set() =~= views.to_set().insert(name@));
}

/// A list without duplicates is as long as its set of subscribers is large.
proof fn lemma_names_len(list: Seq<String>)
    requires
        distinct(list),
    ensures
        names(list).len() == list.len(),
{
    list.map_values(|s: String| s@).unique_seq_to_set();
}

/// Who subscribes and then unsubscribes leaves the other subscribers as they
/// were, and is no subscriber any more.
pub proof fn unsubscribe_undoes_subscribe(
    watches: Map<u32, Set<Seq<char>>>,
    name: Seq<char>,
    point_id: u32,
)
    requires
        !watchers(watches, point_id).contains(name),
        watchers(watches, point_id).finite(),
    ensures
        watchers(without_watch(with_watch(watches, name, point_id), name, point_id), point_id)
            == watchers(watches, point_id),
{
    let before = watchers(watches, point_id);
    assert(before.insert(name).remove(name) =~= before);
    if before.len() == 0 {
        assert(before =~= Set::empty());
    }
}

/// Who subscribes to points watches each of them, and whoever watched before
/// still does.
pub proof fn subscribed_points_are_watched(
    watches: Map<u32, Set<Seq<char>>>,
    name: Seq<char>,
    points: Seq<u32>,
    point_id: u32,
)
    ensures
        ({
            let after = with_watches(watches, name, points);
            &&& points.contains(point_id) ==> after.contains_key(point_id) && watchers(
                after,
                point_id,
            ).contains(name)
            &&& watches.contains_key(point_id) ==> after.contains_key(point_id)
            &&& watchers(watches, point_id).subset_of(watchers(after, point_id))
        }),
    decreases points.len(),
{
    if points.len() > 0 {
        let rest = points.drop_last();
        subscribed_points_are_watched(watches, name, rest, point_id);
        if points.contains(point_id) {
            let k = choose|k: int| 0 <= k < points.len() && points[k] == point_id;
            if k < rest.len() {
                assert(rest[k] == point_id);
            }
        }
    }
}

/// Who subscribes to points is added to the subscribers of exactly those
/// points; nobody else comes or goes.
pub proof fn subscribing_adds_the_name_alone(
    watches: Map<u32, Set<Seq<char>>>,
    name: Seq<char>,
    points: Seq<u32>,
    point_id: u32,
)
    ensures
        ({
            let after = with_watches(watches, name, points);
            &&& watchers(after, point_id) == if points.contains(point_id) {
                watchers(watches, point_id).insert(name)
            } else {
                watchers(watches, point_id)
            }
            &&& after.contains_key(point_id) <==> watches.contains_key(point_id)
                || points.contains(point_id)
        }),
    decreases points.len(),
{
    if points.len() > 0 {
        let rest = points.drop_last();
        subscribing_adds_the_name_alone(watches, name, rest, point_id);
        if rest.contains(point_id) {
            let k = choose|k: int| 0 <= k < rest.len() && rest[k] == point_id;
            assert(points[k] == point_id);
        }
        assert(points[points.len() - 1] == points.last());
        if points.contains(point_id) && points.last() != point_id {
            let k = choose|k: int| 0 <= k < points.len() && points[k] == point_id;
            assert(rest[k] == point_id);
        }
        let before = watchers(watches, point_id);
        assert(before.insert(name).insert(name) =~= before.insert(name));
    }
}

/// Who unsubscribes from points is taken from the subscribers of exactly those
/// points; nobody else comes or goes, and a point is watched as long as it has
/// subscribers.
pub proof fn unsubscribing_takes_the_name_alone(
    watches: Map<u32, Set<Seq<char>>>,
    name: Seq<char>,
    points: Seq<u32>,
    point_id: u32,
)
    requires
        watchers(watches, point_id).finite(),
        watches.contains_key(point_id) <==> watchers(watches, point_id).len() > 0,
    ensures
        ({
            let after = without_watches(watches, name, points);
            &&& watchers(after, point_id) == if points.contains(point_id) {
                watchers(watches, point_id).remove(name)
            } else {
                watchers(watches, point_id)
            }
            &&& after.contains_key(point_id) <==> watchers(after, point_id).len() > 0
        }),
    decreases points.len(),
{
    if points.len() > 0 {
        let rest = points.drop_last();
        unsubscribing_takes_the_name_alone(watches, name, rest, point_id);
        if rest.contains(point_id) {
            let k = choose|k: int| 0 <= k < rest.len() && rest[k] == point_id;
            assert(points[k] == point_id);
        }
        assert(points[points.len() - 1] == points.last());
        if points.contains(point_id) && points.last() != point_id {
            let k = choose|k: int| 0 <= k < points.len() && points[k] == point_id;
            assert(rest[k] == point_id);
        }
        let before = watchers(watches, point_id);
        assert(before.remove(name).remove(name) =~= before.remove(name));
        if points.last() == point_id {
            let left = before.remove(name);
            assert(left.finite());
            if left.len() == 0 {
                assert(left =~= Set::empty());
            }
        }
    }
}

} // verus!
