//! Poll buckets: which points of a driver are read together, and how often.

use vstd::prelude::*;
use vstd::string::*;

use crate::driver::DriverPointRef;
use crate::text::text;

verus! {

/// A batch of points of one driver that is read at a common interval.
#[derive(Debug)]
pub struct PollBucket {
    pub driver_id: String,
    /// Nanoseconds from one read to the next.
    pub interval: u128,
    pub points: Vec<DriverPointRef>,
}

/// What a [`PollBucket`] says.
pub struct BucketView {
    pub driver_id: Seq<char>,
    pub interval: u128,
    pub points: Seq<DriverPointRef>,
}

impl View for PollBucket {
    type V = BucketView;

    open spec fn view(&self) -> BucketView {
        BucketView {
            driver_id: self.driver_id@,
            interval: self.interval,
            points: self.points@,
        }
    }
}

/// The views of a list of buckets.
pub open spec fn buckets_view(buckets: Seq<PollBucket>) -> Seq<BucketView> {
    buckets.map_values(|b: PollBucket| b@)
}

/// Keeps the poll buckets of all drivers, in the order in which they were added.
#[derive(Debug)]
pub struct PollScheduler {
    buckets: Vec<PollBucket>,
}

impl View for PollScheduler {
    type V = Seq<BucketView>;

    closed spec fn view(&self) -> Seq<BucketView> {
        buckets_view(self.buckets@)
    }
}

/// The buckets of other drivers than `id`.
pub open spec fn buckets_without(buckets: Seq<BucketView>, id: Seq<char>) -> Seq<BucketView>
    decreases buckets.len(),
{
    if buckets.len() == 0 {
        Seq::empty()
    } else {
        let earlier = buckets_without(buckets.drop_last(), id);
        if buckets.last().driver_id == id {
            earlier
        } else {
            earlier.push(buckets.last())
        }
    }
}

/// The positions of the buckets of driver `id`.
pub open spec fn bucket_positions(buckets: Seq<BucketView>, id: Seq<char>) -> Seq<usize>
    decreases buckets.len(),
{
    if buckets.len() == 0 {
        Seq::empty()
    } else {
        let earlier = bucket_positions(buckets.drop_last(), id);
        if buckets.last().driver_id == id {
            earlier.push((buckets.len() - 1) as usize)
        } else {
            earlier
        }
    }
}

/// The number of points in the buckets of driver `id`.
pub open spec fn bucket_points(buckets: Seq<BucketView>, id: Seq<char>) -> nat
    decreases buckets.len(),
{
    if buckets.len() == 0 {
        0
    } else {
        bucket_points(buckets.drop_last(), id) + if buckets.last().driver_id == id {
            buckets.last().points.len()
        } else {
            0
        }
    }
}

impl PollScheduler {
    /// Create a scheduler without buckets.
    pub fn new() -> (res: Self)
        ensures
            res@.len() == 0,
    {
        PollScheduler { buckets: Vec::new() }
    }

    /// Add a bucket of points that are read every `interval` nanoseconds.
    pub fn add_bucket(&mut self, driver_id: &str, interval: u128, points: Vec<DriverPointRef>)
        ensures
            final(self)@ == old(self)@.push(
                BucketView { driver_id: driver_id@, interval, points: points@ },
            ),
    {
        let bucket: PollBucket = PollBucket { driver_id: text(driver_id), interval, points };
        let ghost b = bucket@;
        self.buckets.push(bucket);
        assert(self@ =~= old(self)@.push(b));
    }

    /// Remove the buckets of a driver.
    pub fn remove_driver(&mut self, driver_id: &str)
        ensures
            final(self)@ == buckets_without(old(self)@, driver_id@),
    {
        let id: String = text(driver_id);
        let mut kept: Vec<PollBucket> = Vec::new();
        let mut all: Vec<PollBucket> = Vec::new();
        std::mem::swap(&mut all, &mut self.buckets);
        let ghost views = buckets_view(all@);
        assert(views == old(self)@);
        let ghost start = all@;
        assert(buckets_view(kept@) =~= Seq::empty());
        let mut i: usize = 0;
        let n: usize = all.len();
        assert(views.subrange(0, 0) =~= Seq::empty());
        assert(all@ =~= start.subrange(0, n as int));
        while i < n
            invariant
                i <= n == start.len(),
                views == buckets_view(start),
                all@ == start.subrange(i as int, n as int),
                id@ == driver_id@,
                buckets_view(kept@) == buckets_without(views.subrange(0, i as int), driver_id@),
            decreases n - i,
        {
            let ghost before = kept@;
            assert(all@[0] == start[i as int]);
            let bucket: PollBucket = all.remove(0);
            assert(all@ =~= start.subrange(i + 1, n as int));
            assert(views.subrange(0, i + 1).drop_last() =~= views.subrange(0, i as int));
            assert(views.subrange(0, i + 1).last() == bucket@);
            if bucket.driver_id == id {
            } else {
                let ghost b = bucket@;
                kept.push(bucket);
                assert(buckets_view(kept@) =~= buckets_view(before).push(b));
            }
            i += 1;
        }
        assert(views.subrange(0, i as int) =~= views);
        self.buckets = kept;
    }

    /// The positions of the buckets of a driver.
    pub fn buckets_for_driver(&self, driver_id: &str) -> (out: Vec<usize>)
        ensures
            out@ == bucket_positions(self@, driver_id@),
    {
        let id: String = text(driver_id);
        let ghost views = self@;
        let mut out: Vec<usize> = Vec::new();
        let mut i: usize = 0;
        assert(views.subrange(0, 0) =~= Seq::empty());
        while i < self.buckets.len()
            invariant
                i <= self.buckets@.len(),
                views == self@,
                id@ == driver_id@,
                out@ == bucket_positions(views.subrange(0, i as int), driver_id@),
            decreases self.buckets@.len() - i,
        {
            assert(views.subrange(0, i + 1).drop_last() =~= views.subrange(0, i as int));
            assert(views.subrange(0, i + 1).last() == self.buckets@[i as int]@);
            if self.buckets[i].driver_id == id {
                out.push(i);
            }
            i += 1;
        }
        assert(views.subrange(0, i as int) =~= views);
        out
    }

    /// The bucket at a position.
    pub fn bucket(&self, index: usize) -> (res: Option<&PollBucket>)
        ensures
            match res {
                Some(b) => index < self@.len() && b@ == self@[index as int],
                None => index >= self@.len(),
            },
    {
        if index < self.buckets.len() {
            Some(&self.buckets[index])
        } else {
            None
        }
    }

    /// The number of points in the buckets of a driver.
    pub fn points_for_driver(&self, driver_id: &str) -> (total: usize)
        requires
            bucket_points(self@, driver_id@) <= usize::MAX,
        ensures
            total == bucket_points(self@, driver_id@),
    {
        let id: String = text(driver_id);
        let ghost views = self@;
        let mut total: usize = 0;
        let mut i: usize = 0;
        assert(views.subrange(0, 0) =~= Seq::empty());
        while i < self.buckets.len()
            invariant
                i <= self.buckets@.len(),
                views == self@,
                id@ == driver_id@,
                bucket_points(views, driver_id@) <= usize::MAX,
                total == bucket_points(views.subrange(0, i as int), driver_id@),
            decreases self.buckets@.len() - i,
        {
            assert(views.subrange(0, i + 1).drop_last() =~= views.subrange(0, i as int));
            assert(views.subrange(0, i + 1).last() == self.buckets@[i as int]@);
            proof {
                lemma_bucket_points_grows(views, i + 1, driver_id@);
            }
            if self.buckets[i].driver_id == id {
                total = total + self.buckets[i].points.len();
            }
            i += 1;
        }
        assert(views.subrange(0, i as int) =~= views);
        total
    }
}

/// More buckets do not hold fewer points.
proof fn lemma_bucket_points_grows(buckets: Seq<BucketView>, n: int, id: Seq<char>)
    requires
        0 <= n <= buckets.len(),
    ensures
        bucket_points(buckets.subrange(0, n), id) <= bucket_points(buckets, id),
    decreases buckets.len(),
{
    if n == buckets.len() {
        assert(buckets.subrange(0, n) =~= buckets);
    } else {
        assert(buckets.drop_last().subrange(0, n) =~= buckets.subrange(0, n));
        lemma_bucket_points_grows(buckets.drop_last(), n, id);
    }
}

/// A driver whose buckets were removed has none, and other drivers keep theirs.
pub proof fn removed_driver_has_no_buckets(
    buckets: Seq<BucketView>,
    id: Seq<char>,
    other: Seq<char>,
)
    requires
        other != id,
    ensures
        bucket_points(buckets_without(buckets, id), id) == 0,
        bucket_positions(buckets_without(buckets, id), id).len() == 0,
        bucket_points(buckets_without(buckets, id), other) == bucket_points(buckets, other),
        bucket_positions(buckets_without(buckets, id), other).len() == bucket_positions(
            buckets,
            other,
        ).len(),
    decreases buckets.len(),
{
    if buckets.len() > 0 {
        removed_driver_has_no_buckets(buckets.drop_last(), id, other);
        let earlier = buckets_without(buckets.drop_last(), id);
        if buckets.last().driver_id != id {
            assert(earlier.push(buckets.last()).drop_last() =~= earlier);
        }
    }
}

/// Removing a driver keeps the buckets of the others, in order, and no other.
pub proof fn other_buckets_stay_in_order(buckets: Seq<BucketView>, id: Seq<char>)
    ensures
        buckets_without(buckets, id) == buckets.filter(|b: BucketView| b.driver_id != id),
    decreases buckets.len(),
{
    reveal(Seq::filter);
    if buckets.len() > 0 {
        other_buckets_stay_in_order(buckets.drop_last(), id);
    }
}

/// The positions of a driver are those of its buckets, each once, in order.
pub proof fn positions_are_those_of_the_driver(buckets: Seq<BucketView>, id: Seq<char>, i: usize)
    requires
        buckets.len() <= usize::MAX,
    ensures
        bucket_positions(buckets, id).contains(i) <==> i < buckets.len()
            && buckets[i as int].driver_id == id,
        forall|a: int, b: int|
            0 <= a < b < bucket_positions(buckets, id).len() ==> (#[trigger] bucket_positions(
                buckets,
                id,
            )[a]) < (#[trigger] bucket_positions(buckets, id)[b]),
        forall|a: int|
            0 <= a < bucket_positions(buckets, id).len() ==> (#[trigger] bucket_positions(
                buckets,
                id,
            )[a]) < buckets.len(),
    decreases buckets.len(),
{
    if buckets.len() > 0 {
        let init = buckets.drop_last();
        positions_are_those_of_the_driver(init, id, i);
        let earlier = bucket_positions(init, id);
        let all = bucket_positions(buckets, id);
        let end = (buckets.len() - 1) as usize;
        assert(i < end ==> init[i as int] == buckets[i as int]);
        if buckets.last().driver_id == id {
            assert(all == earlier.push(end));
            assert(all[earlier.len() as int] == end);
            if earlier.contains(i) {
                let k = choose|k: int| 0 <= k < earlier.len() && earlier[k] == i;
                assert(all[k] == i);
            }
            if all.contains(i) && i != end {
                let k = choose|k: int| 0 <= k < all.len() && all[k] == i;
                assert(earlier[k] == i);
            }
        } else {
            assert(all == earlier);
        }
    }
}

/// The points of a driver are counted over all its buckets and no others.
pub proof fn points_add_up(
    a: Seq<BucketView>,
    b: Seq<BucketView>,
    bucket: BucketView,
    id: Seq<char>,
)
    ensures
        bucket_points(a + b, id) == bucket_points(a, id) + bucket_points(b, id),
        bucket_points(seq![bucket], id) == if bucket.driver_id == id {
            bucket.points.len()
        } else {
            0
        },
    decreases b.len(),
{
    let one = seq![bucket];
    assert(one.drop_last() =~= Seq::empty());
    assert(bucket_points(one.drop_last(), id) == 0);
    if b.len() == 0 {
        assert(a + b =~= a);
    } else {
        assert((a + b).drop_last() =~= a + b.drop_last());
        points_add_up(a, b.drop_last(), bucket, id);
    }
}

} // verus!
