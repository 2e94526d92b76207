//! What a bounded population is, whatever its individuals are: how a push
//! evicts the oldest, and how the round-robin cursor picks parents.

use vstd::prelude::*;

verus! {

/// Why a queue could not be made.
#[derive(Debug, Clone, Copy, PartialEq, Eq, Structural)]
pub enum QueueError {
    /// The capacity is zero, or too small to give every species a place.
    ZeroCapacity,
    /// The number of children to select in a generation is zero.
    ZeroSelection,
    /// There is no founder.
    NoFounder,
}

/// How many of `length` individuals are over `capacity`.
pub open spec fn excess(length: nat, capacity: int) -> int {
    if length >= capacity {
        length - capacity
    } else {
        0
    }
}

/// The population after `item` has been pushed: it is appended, and the
/// oldest individuals leave until no more than `capacity` are left.
pub open spec fn after_push<T>(population: Seq<T>, capacity: int, item: T) -> Seq<T> {
    population.push(item).skip(excess(population.len() + 1, capacity))
}

/// The population after `items` have been pushed one by one.
pub open spec fn after_pushes<T>(population: Seq<T>, capacity: int, items: Seq<T>) -> Seq<T>
    decreases items.len(),
{
    if items.len() == 0 {
        population
    } else {
        after_push(after_pushes(population, capacity, items.drop_last()), capacity, items.last())
    }
}

/// The cursor after `amount` individuals have left at the front: it
/// moves with the individual that it pointed to, and stops at zero.
pub open spec fn cursor_after_eviction(cursor: int, amount: int) -> int {
    if amount > cursor {
        0
    } else {
        cursor - amount
    }
}

/// The index of the parent that a cursor picks in a population of
/// `length`: the cursor itself, or zero where it has run past the end.
pub open spec fn parent_index(cursor: int, length: int) -> int {
    if cursor >= length {
        0
    } else {
        cursor
    }
}

/// The cursor after `steps` parents have been picked: each pick moves it
/// one past the parent, modulo the capacity.
pub open spec fn cursor_after(cursor: int, length: int, capacity: int, steps: nat) -> int
    decreases steps,
{
    if steps == 0 {
        cursor
    } else {
        (parent_index(cursor_after(cursor, length, capacity, (steps - 1) as nat), length) + 1) % capacity
    }
}

/// The index of the `step`-th parent picked from the given cursor on.
pub open spec fn nth_parent(cursor: int, length: int, capacity: int, step: nat) -> int {
    parent_index(cursor_after(cursor, length, capacity, step), length)
}

/// `index` is the species nearest to a newcomer whose distances to the
/// centroids are `distances`: no species is nearer, and none before it
/// is as near.
pub open spec fn is_nearest(distances: Seq<u64>, index: int) -> bool {
    &&& 0 <= index < distances.len()
    &&& forall|i: int| 0 <= i < distances.len() ==> #[trigger] distances[i] >= distances[index]
    &&& forall|i: int| 0 <= i < index ==> #[trigger] distances[i] > distances[index]
}

/// The species nearest to a newcomer: the one with the least distance,
/// the first of them where several are as near.
pub fn nearest_species(distances: &Vec<u64>) -> (index: usize)
    requires
        distances@.len() >= 1,
    ensures
        is_nearest(distances@, index as int),
{
    let mut index: usize = 0;
    let mut i: usize = 1;
    while i < distances.len()
        invariant
            1 <= i <= distances@.len(),
            index < i,
            forall|k: int| 0 <= k < i ==> #[trigger] distances@[k] >= distances@[index as int],
            forall|k: int| 0 <= k < index ==> #[trigger] distances@[k] > distances@[index as int],
        decreases distances@.len() - i,
    {
        if distances[i] < distances[index] {
            index = i;
        }
        i += 1;
    }
    index
}

/// Only one species is the nearest.
pub proof fn lemma_nearest_is_unique(distances: Seq<u64>, first: int, second: int)
    requires
        is_nearest(distances, first),
        is_nearest(distances, second),
    ensures
        first == second,
{
    if first < second {
        assert(distances[first] > distances[second]);
        assert(distances[second] >= distances[first]);
    } else if second < first {
        assert(distances[second] > distances[first]);
        assert(distances[first] >= distances[second]);
    }
}

/// The place, in the flat list of all children, of child `i` of species
/// `s`, where every species gives `amount` children.
pub open spec fn flat_index(s: int, amount: int, i: int) -> int {
    s * amount + i
}

/// The places of the children of different species do not overlap, and
/// the children of the first `s` species fill the places below
/// `s * amount`.
pub proof fn lemma_flat_index(s: int, amount: int, i: int, count: int)
    by (nonlinear_arith)
    requires
        0 <= s < count,
        0 <= i < amount,
    ensures
        0 <= flat_index(s, amount, i) < count * amount,
        flat_index(s, amount, i) < (s + 1) * amount,
        s * amount <= flat_index(s, amount, i),
        (s + 1) * amount == s * amount + amount,
{
}

/// Pushing `items` one by one appends them in order behind the
/// population and lets the oldest leave: what is left are the newest
/// `capacity` of all, or all of them where they are fewer.
pub proof fn lemma_pushes_keep_order<T>(population: Seq<T>, capacity: int, items: Seq<T>)
    requires
        capacity >= 0,
    ensures
        after_pushes(population, capacity, items) == if items.len() == 0 {
            population
        } else {
            (population + items).skip(excess(population.len() + items.len(), capacity))
        },
        items.len() > 0 ==> after_pushes(population, capacity, items).len() <= capacity,
    decreases items.len(),
{
    if items.len() > 0 {
        let earlier = items.drop_last();
        lemma_pushes_keep_order(population, capacity, earlier);
        let before = after_pushes(population, capacity, earlier);
        let all = population + items;
        assert(all =~= (population + earlier).push(items.last()));
        if earlier.len() == 0 {
            assert(population + earlier =~= population);
            assert(after_pushes(population, capacity, items) =~= all.skip(
                excess(population.len() + items.len(), capacity),
            ));
        } else {
            let gone = excess(population.len() + earlier.len(), capacity);
            assert(before == (population + earlier).skip(gone));
            assert(before.push(items.last()) =~= all.skip(gone));
            assert(all.skip(gone).skip(excess(before.len() + 1, capacity)) =~= all.skip(
                excess(population.len() + items.len(), capacity),
            ));
        }
    }
}

} // verus!
