//! What can be perceived and eaten: anything with a position and a radius, and
//! the search for the nearest such thing.
use vstd::prelude::*;

use crate::geometry::{dist_sq, in_box, length_sq, within, Vec2};

verus! {

/// Every position in the world has both coordinates in `[-WORLD_LIMIT, WORLD_LIMIT]`.
pub const WORLD_LIMIT: i64 = 0x2000_0000;

/// Something with a location and a radius, such as a piece of food or a fish.
pub trait Entity {
    /// Where the entity is.
    spec fn location(&self) -> (int, int);

    /// The radius of the entity.
    spec fn extent(&self) -> int;

    /// The entity is well formed; in particular it lies in the world.
    spec fn well_placed(&self) -> bool;

    proof fn lemma_placed(&self)
        requires
            self.well_placed(),
        ensures
            in_box(self.location(), WORLD_LIMIT as int),
            0 <= self.extent() <= 0x100_0000,
    ;

    /// Returns the current location of the entity.
    fn pos(&self) -> (r: Vec2)
        ensures
            r@ == self.location(),
    ;

    /// Returns the radius of the entity.
    fn radius(&self) -> (r: i64)
        requires
            self.well_placed(),
        ensures
            r as int == self.extent(),
    ;
}

/// A bare point: an entity of radius zero.
impl Entity for Vec2 {
    open spec fn location(&self) -> (int, int) {
        self@
    }

    open spec fn extent(&self) -> int {
        0
    }

    open spec fn well_placed(&self) -> bool {
        in_box(self@, WORLD_LIMIT as int)
    }

    proof fn lemma_placed(&self) {
    }

    fn pos(&self) -> (r: Vec2) {
        *self
    }

    fn radius(&self) -> (r: i64) {
        0
    }
}

/// Item `i` may be picked: it exists and, when a reach is given, lies within it.
pub open spec fn eligible<E: Entity>(from: (int, int), items: Seq<E>, reach: Option<i64>, i: int) -> bool {
    0 <= i < items.len() && match reach {
        None => true,
        Some(r) => within(dist_sq(items[i].location(), from), r as int),
    }
}

/// Item `i` is the nearest eligible item; among items at the same distance it is
/// the first.
pub open spec fn is_nearest<E: Entity>(from: (int, int), items: Seq<E>, reach: Option<i64>, i: int) -> bool {
    &&& eligible(from, items, reach, i)
    &&& forall|j: int| #[trigger]
        eligible(from, items, reach, j) ==> dist_sq(items[i].location(), from) <= dist_sq(
            items[j].location(),
            from,
        )
    &&& forall|j: int|
        0 <= j < i && #[trigger] eligible(from, items, reach, j) ==> dist_sq(
            items[i].location(),
            from,
        ) < dist_sq(items[j].location(), from)
}

/// The index of the nearest eligible item, if any item is eligible.
pub open spec fn nearest_of<E: Entity>(from: (int, int), items: Seq<E>, reach: Option<i64>) -> Option<int> {
    if exists|i: int| eligible(from, items, reach, i) {
        Some(choose|i: int| is_nearest(from, items, reach, i))
    } else {
        None
    }
}

/// All items are well formed.
pub open spec fn all_placed<E: Entity>(items: Seq<E>) -> bool {
    forall|i: int| 0 <= i < items.len() ==> #[trigger] items[i].well_placed()
}

/// There is only one nearest item.
pub proof fn lemma_nearest_unique<E: Entity>(
    from: (int, int),
    items: Seq<E>,
    reach: Option<i64>,
    i: int,
    k: int,
)
    requires
        is_nearest(from, items, reach, i),
        is_nearest(from, items, reach, k),
    ensures
        i == k,
{
    if i < k {
        assert(eligible(from, items, reach, i));
    } else if k < i {
        assert(eligible(from, items, reach, k));
    }
}

/// The nearest item is what `nearest_of` names.
pub proof fn lemma_nearest_of<E: Entity>(from: (int, int), items: Seq<E>, reach: Option<i64>, i: int)
    requires
        is_nearest(from, items, reach, i),
    ensures
        nearest_of(from, items, reach) == Some(i),
{
    assert(eligible(from, items, reach, i));
    let k = choose|k: int| is_nearest(from, items, reach, k);
    lemma_nearest_unique(from, items, reach, i, k);
}

/// Finds the nearest item to `from`; with a reach, only items within it count. Ties go
/// to the item found first.
pub fn nearest<E: Entity>(from: Vec2, items: &Vec<E>, reach: Option<i64>) -> (r: Option<usize>)
    requires
        in_box(from@, WORLD_LIMIT as int),
        all_placed(items@),
        reach matches Some(d) ==> d <= 0x4000_0000,
    ensures
        r matches Some(i) ==> is_nearest(from@, items@, reach, i as int),
        r is None ==> forall|j: int| !#[trigger] eligible(from@, items@, reach, j),
        r matches Some(i) ==> nearest_of(from@, items@, reach) == Some(i as int),
        r is None ==> nearest_of(from@, items@, reach) is None,
{
    let mut best: Option<usize> = None;
    let mut best_d: i64 = 0;
    let mut i: usize = 0;
    while i < items.len()
        invariant
            i <= items.len(),
            in_box(from@, WORLD_LIMIT as int),
            all_placed(items@),
            reach matches Some(d) ==> d <= 0x4000_0000,
            best is None ==> forall|j: int| 0 <= j < i ==> !#[trigger] eligible(from@, items@, reach, j),
            best matches Some(b) ==> {
                &&& b < i
                &&& eligible(from@, items@, reach, b as int)
                &&& best_d == dist_sq(items@[b as int].location(), from@)
                &&& forall|j: int|
                    0 <= j < i && #[trigger] eligible(from@, items@, reach, j) ==> best_d <= dist_sq(
                        items@[j].location(),
                        from@,
                    ) && (j < b ==> best_d < dist_sq(items@[j].location(), from@))
            },
        decreases items.len() - i,
    {
        proof {
            items@[i as int].lemma_placed();
        }
        let p = items[i].pos();
        let d = length_sq(Vec2 { x: p.x - from.x, y: p.y - from.y });
        let ok = match reach {
            None => true,
            Some(r) => {
                if r < 0 {
                    false
                } else {
                    assert(r * r <= 0x1000_0000_0000_0000) by (nonlinear_arith)
                        requires
                            0 <= r <= 0x4000_0000,
                    ;
                    d <= r * r
                }
            },
        };
        assert(ok == eligible(from@, items@, reach, i as int));
        let better = match best {
            None => true,
            Some(_) => d < best_d,
        };
        if ok && better {
            best = Some(i);
            best_d = d;
        }
        i += 1;
    }
    proof {
        if let Some(b) = best {
            lemma_nearest_of(from@, items@, reach, b as int);
        } else {
            assert(!exists|j: int| eligible(from@, items@, reach, j));
        }
    }
    best
}

} // verus!
