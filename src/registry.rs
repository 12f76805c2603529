use vstd::prelude::*;
use crate::geometry::{are_close, close_spec, Position};

verus! {

/// A placed point: its id and where it lies.
#[derive(Clone, Copy, Debug, PartialEq, Eq, Structural)]
pub struct Point {
    pub id: u64,
    pub position: Position,
}

/// The index of the first point of `points` within `threshold` of
/// `position`, if any.
pub open spec fn first_near(points: Seq<Point>, position: Position, threshold: u32) -> Option<int>
    decreases points.len(),
{
    if points.len() == 0 {
        None
    } else {
        match first_near(points.drop_last(), position, threshold) {
            Some(i) => Some(i),
            None => if close_spec(points.last().position, position, threshold) {
                Some(points.len() - 1)
            } else {
                None
            },
        }
    }
}

/// What `first_near` returns, stated directly: a near point with no near
/// point before it, or no near point at all.
pub proof fn lemma_first_near(points: Seq<Point>, position: Position, threshold: u32)
    ensures
        match first_near(points, position, threshold) {
            Some(i) => 0 <= i < points.len() && close_spec(points[i].position, position, threshold)
                && forall|j: int|
                0 <= j < i ==> !close_spec(#[trigger] points[j].position, position, threshold),
            None => forall|j: int|
                0 <= j < points.len() ==> !close_spec(
                    #[trigger] points[j].position,
                    position,
                    threshold,
                ),
        },
    decreases points.len(),
{
    if points.len() > 0 {
        lemma_first_near(points.drop_last(), position, threshold);
        assert forall|j: int| 0 <= j < points.len() - 1 implies points.drop_last()[j] == points[j] by {}
    }
}

/// The placed points, in the order in which they were created, and the
/// proximity threshold (in hundredths of a pixel) under which a position
/// is taken for an existing point.
pub struct PointRegistry {
    points: Vec<Point>,
    threshold: u32,
}

impl PointRegistry {
    /// The points, in creation order.
    pub closed spec fn view(&self) -> Seq<Point> {
        self.points@
    }

    pub closed spec fn threshold_spec(&self) -> u32 {
        self.threshold
    }

    /// The point at index `i` has the id `i + 1`, and no two points lie
    /// within the threshold of each other.
    pub closed spec fn wf(&self) -> bool {
        &&& forall|i: int| 0 <= i < self.points@.len() ==> (#[trigger] self.points@[i]).id == i + 1
        &&& forall|i: int, j: int|
            0 <= i < j < self.points@.len() ==> !close_spec(
                #[trigger] self.points@[i].position,
                #[trigger] self.points@[j].position,
                self.threshold,
            )
    }

    /// The index of the first point within the threshold of `position`.
    pub open spec fn near_index(&self, position: Position) -> Option<int> {
        first_near(self@, position, self.threshold_spec())
    }

    /// An empty registry with the given threshold.
    pub fn new(threshold: u32) -> (r: PointRegistry)
        ensures
            r.wf(),
            r@ == Seq::<Point>::empty(),
            r.threshold_spec() == threshold,
    {
        PointRegistry { points: Vec::new(), threshold }
    }

    pub fn threshold(&self) -> (r: u32)
        ensures
            r == self.threshold_spec(),
    {
        self.threshold
    }

    /// The number of points.
    pub fn len(&self) -> (r: usize)
        ensures
            r == self@.len(),
    {
        self.points.len()
    }

    /// The point at registry index `index` (not its id).
    pub fn get(&self, index: usize) -> (r: Point)
        requires
            index < self@.len(),
        ensures
            r == self@[index as int],
    {
        self.points[index]
    }

    /// The index of the first point, in creation order, within the
    /// threshold of `position`; `None` where there is none.
    pub fn find_near(&self, position: &Position) -> (r: Option<usize>)
        ensures
            r == match first_near(self@, *position, self.threshold_spec()) {
                Some(i) => Some(i as usize),
                None => None::<usize>,
            },
            match r {
                Some(i) => i < self@.len() && close_spec(self@[i as int].position, *position, self.threshold_spec()),
                None => true,
            },
    {
        let mut i: usize = 0;
        while i < self.points.len()
            invariant
                i <= self.points@.len(),
                first_near(self@.take(i as int), *position, self.threshold) is None,
            decreases self.points@.len() - i,
        {
            assert(self@.take(i as int + 1).drop_last() =~= self@.take(i as int));
            if are_close(&self.points[i].position, position, self.threshold) {
                proof {
                    lemma_first_near(self@.take(i as int), *position, self.threshold);
                    lemma_first_near(self@, *position, self.threshold);
                    assert(forall|j: int| 0 <= j < i ==> self@.take(i as int)[j] == self@[j]);
                }
                return Some(i);
            }
            i = i + 1;
        }
        assert(self@.take(i as int) =~= self@);
        None
    }

    /// Adds a point at `position` with the next id, `len + 1`, and returns
    /// that id.
    pub fn insert(&mut self, position: &Position) -> (r: u64)
        requires
            old(self).wf(),
            old(self).near_index(*position) is None,
            old(self)@.len() < u64::MAX,
        ensures
            final(self).wf(),
            r == old(self)@.len() + 1,
            final(self)@ == old(self)@.push(Point { id: r, position: *position }),
            final(self).threshold_spec() == old(self).threshold_spec(),
    {
        proof {
            lemma_first_near(self@, *position, self.threshold);
            assert forall|j: int| 0 <= j < self@.len() implies !close_spec(
                self@[j].position,
                *position,
                self.threshold,
            ) by {}
        }
        let id: u64 = self.points.len() as u64 + 1;
        self.points.push(Point { id, position: *position });
        id
    }
}

/// In a well-formed registry the point at index `i` has the id `i + 1`:
/// ids run from 1 upward, one more for each point inserted.
pub proof fn lemma_ids_sequential(reg: PointRegistry, i: int)
    requires
        reg.wf(),
        0 <= i < reg@.len(),
    ensures
        reg@[i].id == i + 1,
{
}

} // verus!
