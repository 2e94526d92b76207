//! The speciated queue of mazes: one species per founder, and every
//! newcomer joins the species whose founder it is nearest to.

use crate::maze::maze_genotype::{MazeGenome, MazeMutationConfig};
use crate::mcc::maze::maze_queue::{
    is_maze_mutation, maze_child, maze_complexities, maze_paths_are_countable, maze_sizes,
};
use crate::mcc::maze::maze_species::MazeSpecies;
use crate::mcc::population::{
    after_push, flat_index, is_nearest, lemma_flat_index, nearest_species, nth_parent, QueueError,
};
use crate::mcc::statistics::{
    first_smallest, first_smallest_index, largest_of, last_largest, last_largest_index,
    lemma_count_bound, lemma_sum_bound, smallest_of, sum_of, Ratio,
};
use vstd::prelude::*;
use vstd::std_specs::slice::into_iter_elts;

verus! {

/// The species of mazes, in the order of their founders.
#[derive(Debug)]
pub struct SpeciatedMazeQueue {
    pub species: Vec<MazeSpecies>,
    /// How many children all species together give in a generation.
    pub selection_limit: usize,
    /// The number of species that the queue has had: the id of the next
    /// species.
    pub species_added: u32,
}

/// Species `k` of `species` can give `amount` more children without
/// running out of ids.
pub open spec fn maze_ids_suffice(species: Seq<MazeSpecies>, amount: int) -> bool {
    forall|k: int|
        0 <= k < species.len() ==> (#[trigger] species[k]).maze_queue.total_individuals_added + amount
            <= u32::MAX
}

impl SpeciatedMazeQueue {
    /// There is a species, every species is well formed, and a
    /// generation selects at least one child.
    pub open spec fn wf(&self) -> bool {
        &&& self.species@.len() >= 1
        &&& self.selection_limit >= 1
        &&& forall|k: int| 0 <= k < self.species@.len() ==> (#[trigger] self.species@[k]).wf()
    }

    /// The number of children that each species gives in a generation.
    pub open spec fn children_per_species(&self) -> int {
        (self.selection_limit as int) / (self.species@.len() as int)
    }

    /// One species per founder, each with an equal share of `capacity`.
    ///
    /// Refused are, in this order: no founder; a capacity that leaves a
    /// species no place; a selection of no children.
    pub fn new(mazes: Vec<MazeGenome>, capacity: usize, selection_limit: usize) -> (queue: Result<
        SpeciatedMazeQueue,
        QueueError,
    >)
        requires
            mazes@.len() <= u32::MAX,
            forall|i: int| 0 <= i < mazes@.len() ==> (#[trigger] mazes@[i])@.wf(),
        ensures
            mazes@.len() == 0 <==> queue == Err::<SpeciatedMazeQueue, QueueError>(QueueError::NoFounder),
            (mazes@.len() > 0 && capacity / (mazes@.len() as usize) == 0) <==> queue == Err::<
                SpeciatedMazeQueue,
                QueueError,
            >(QueueError::ZeroCapacity),
            (mazes@.len() > 0 && capacity / (mazes@.len() as usize) > 0 && selection_limit == 0) <==> queue
                == Err::<SpeciatedMazeQueue, QueueError>(QueueError::ZeroSelection),
            queue matches Ok(made) ==> {
                &&& made.wf()
                &&& made.selection_limit == selection_limit
                &&& made.species_added == mazes@.len()
                &&& made.species@.len() == mazes@.len()
                &&& forall|k: int|
                    0 <= k < mazes@.len() ==> {
                        &&& (#[trigger] made.species@[k]).id == k
                        &&& made.species@[k].centroid@ == mazes@[k]@
                        &&& made.species@[k].maze_queue.population() == seq![mazes@[k]@]
                        &&& made.species@[k].maze_queue.max_items_limit == capacity / (mazes@.len() as usize)
                        &&& made.species@[k].maze_queue.total_individuals_added == 1
                        &&& made.species@[k].statistics.entries() == 0
                    }
            },
    {
        if mazes.len() == 0 {
            return Err(QueueError::NoFounder);
        }
        let species_max_mazes_limit: usize = capacity / mazes.len();
        if species_max_mazes_limit == 0 {
            return Err(QueueError::ZeroCapacity);
        }
        if selection_limit == 0 {
            return Err(QueueError::ZeroSelection);
        }
        let mut species: Vec<MazeSpecies> = Vec::new();
        let mut i: usize = 0;
        while i < mazes.len()
            invariant
                i <= mazes@.len() <= u32::MAX,
                species_max_mazes_limit > 0,
                species@.len() == i,
                forall|k: int| 0 <= k < mazes@.len() ==> (#[trigger] mazes@[k])@.wf(),
                forall|k: int|
                    0 <= k < i ==> {
                        &&& (#[trigger] species@[k]).wf()
                        &&& species@[k].id == k
                        &&& species@[k].centroid@ == mazes@[k]@
                        &&& species@[k].maze_queue.population() == seq![mazes@[k]@]
                        &&& species@[k].maze_queue.max_items_limit == species_max_mazes_limit
                        &&& species@[k].maze_queue.total_individuals_added == 1
                        &&& species@[k].statistics.entries() == 0
                    },
            decreases mazes@.len() - i,
        {
            match MazeSpecies::new(mazes[i].clone(), species_max_mazes_limit, i as u32) {
                Ok(made) => {
                    species.push(made);
                },
                Err(_) => {},
            }
            i += 1;
        }
        let species_added = mazes.len() as u32;
        Ok(SpeciatedMazeQueue { species, selection_limit, species_added })
    }

    /// An iterator over the species, in the order of their founders.
    pub fn iter_species(&self) -> (iter: core::slice::Iter<'_, MazeSpecies>)
        ensures
            into_iter_elts(iter) == self.species@,
    {
        let items = self.species.as_slice();
        let iter = items.iter();
        proof {
            assert(into_iter_elts(iter) =~= self.species@);
        }
        iter
    }

    /// The number of mazes in all species together.
    pub fn len(&self) -> (length: usize)
        requires
            total_length(self.species@, self.species@.len()) <= usize::MAX,
        ensures
            length == total_length(self.species@, self.species@.len()),
    {
        let mut length: usize = 0;
        let mut k: usize = 0;
        while k < self.species.len()
            invariant
                k <= self.species@.len(),
                length == total_length(self.species@, k as nat),
                total_length(self.species@, self.species@.len()) <= usize::MAX,
            decreases self.species@.len() - k,
        {
            proof {
                lemma_total_length_grows(self.species@, (k + 1) as nat, self.species@.len());
            }
            length += self.species[k].len();
            k += 1;
        }
        length
    }

    /// Admits `maze` to the species nearest to it. `distances` holds the
    /// distance of the maze to the founder of each species, in the order
    /// of the species. Every other species stays as it is.
    pub fn push(&mut self, maze: MazeGenome, distances: &Vec<u64>)
        requires
            old(self).wf(),
            maze@.wf(),
            distances@.len() == old(self).species@.len(),
        ensures
            final(self).wf(),
            final(self).selection_limit == old(self).selection_limit,
            final(self).species_added == old(self).species_added,
            final(self).species@.len() == old(self).species@.len(),
            forall|k: int|
                0 <= k < old(self).species@.len() && !is_nearest(distances@, k) ==> #[trigger] final(self).species@[k] == old(self).species@[k],
            forall|k: int|
                is_nearest(distances@, k) ==> {
                    &&& (#[trigger] final(self).species@[k]).maze_queue.population() == after_push(
                        old(self).species@[k].maze_queue.population(),
                        old(self).species@[k].maze_queue.max_items_limit as int,
                        maze@,
                    )
                    &&& final(self).species@[k].maze_queue.max_items_limit == old(self).species@[k].maze_queue.max_items_limit
                    &&& final(self).species@[k].maze_queue.total_individuals_added == old(self).species@[k].maze_queue.total_individuals_added
                    &&& final(self).species@[k].centroid == old(self).species@[k].centroid
                    &&& final(self).species@[k].id == old(self).species@[k].id
                    &&& final(self).species@[k].statistics == old(self).species@[k].statistics
                },
    {
        let index = nearest_species(distances);
        proof {
            assert forall|k: int| is_nearest(distances@, k) implies k == index by {
                crate::mcc::population::lemma_nearest_is_unique(distances@, k, index as int);
            }
        }
        self.species[index].push(maze);
    }

    /// The children of a generation: every species gives its share of
    /// the selection, the species in order. Child `i` of species `s`
    /// stands at place `s * share + i`.
    pub fn get_children(&mut self, config: &MazeMutationConfig) -> (children: Vec<MazeGenome>)
        requires
            old(self).wf(),
            maze_ids_suffice(old(self).species@, old(self).children_per_species()),
        ensures
            final(self).wf(),
            final(self).selection_limit == old(self).selection_limit,
            final(self).species_added == old(self).species_added,
            final(self).species@.len() == old(self).species@.len(),
            children@.len() == old(self).species@.len() * old(self).children_per_species(),
            forall|s: int|
                0 <= s < old(self).species@.len() ==> {
                    &&& (#[trigger] final(self).species@[s]).maze_queue.mazes@ == old(self).species@[s].maze_queue.mazes@
                    &&& final(self).species@[s].centroid == old(self).species@[s].centroid
                    &&& final(self).species@[s].id == old(self).species@[s].id
                    &&& final(self).species@[s].statistics == old(self).species@[s].statistics
                    &&& final(self).species@[s].maze_queue.total_individuals_added == old(self).species@[s].maze_queue.total_individuals_added + old(self).children_per_species()
                },
            forall|s: int, i: int|
                0 <= s < old(self).species@.len() && 0 <= i < old(self).children_per_species()
                    ==> is_maze_mutation(
                    maze_child(
                        old(self).species@[s].maze_queue.mazes@[nth_parent(
                            old(self).species@[s].maze_queue.current_maze_index as int,
                            old(self).species@[s].maze_queue.mazes@.len() as int,
                            old(self).species@[s].maze_queue.max_items_limit as int,
                            i as nat,
                        )]@,
                        (old(self).species@[s].maze_queue.total_individuals_added + i) as u32,
                    ),
                    children@[#[trigger] flat_index(s, old(self).children_per_species(), i)]@,
                ),
    {
        let amount: usize = self.selection_limit / self.species.len();
        let mut children: Vec<MazeGenome> = Vec::new();
        let mut s: usize = 0;
        while s < self.species.len()
            invariant
                self.wf(),
                self.selection_limit == old(self).selection_limit,
                self.species_added == old(self).species_added,
                self.species@.len() == old(self).species@.len(),
                amount == old(self).children_per_species(),
                maze_ids_suffice(old(self).species@, amount as int),
                s <= self.species@.len(),
                children@.len() == s * amount,
                forall|k: int| s <= k < self.species@.len() ==> #[trigger] self.species@[k] == old(self).species@[k],
                forall|k: int|
                    0 <= k < s ==> {
                        &&& (#[trigger] self.species@[k]).maze_queue.mazes@ == old(self).species@[k].maze_queue.mazes@
                        &&& self.species@[k].centroid == old(self).species@[k].centroid
                        &&& self.species@[k].id == old(self).species@[k].id
                        &&& self.species@[k].statistics == old(self).species@[k].statistics
                        &&& self.species@[k].maze_queue.total_individuals_added == old(self).species@[k].maze_queue.total_individuals_added + amount
                    },
                forall|k: int, i: int|
                    0 <= k < s && 0 <= i < amount ==> is_maze_mutation(
                        maze_child(
                            old(self).species@[k].maze_queue.mazes@[nth_parent(
                                old(self).species@[k].maze_queue.current_maze_index as int,
                                old(self).species@[k].maze_queue.mazes@.len() as int,
                                old(self).species@[k].maze_queue.max_items_limit as int,
                                i as nat,
                            )]@,
                            (old(self).species@[k].maze_queue.total_individuals_added + i) as u32,
                        ),
                        children@[#[trigger] flat_index(k, amount as int, i)]@,
                    ),
            decreases self.species@.len() - s,
        {
            let ghost before = self.species@;
            let ghost earlier = children@;
            let mut offspring = self.species[s].get_children(amount, config);
            assert(forall|k: int| 0 <= k < self.species@.len() && k != s ==> self.species@[k] == before[k]);
            children.append(&mut offspring);
            proof {
                assert(children@.len() == (s + 1) * amount) by (nonlinear_arith)
                    requires
                        children@.len() == s * amount + amount,
                ;
                assert forall|k: int, i: int| 0 <= k < s + 1 && 0 <= i < amount implies is_maze_mutation(
                    maze_child(
                        old(self).species@[k].maze_queue.mazes@[nth_parent(
                            old(self).species@[k].maze_queue.current_maze_index as int,
                            old(self).species@[k].maze_queue.mazes@.len() as int,
                            old(self).species@[k].maze_queue.max_items_limit as int,
                            i as nat,
                        )]@,
                        (old(self).species@[k].maze_queue.total_individuals_added + i) as u32,
                    ),
                    children@[#[trigger] flat_index(k, amount as int, i)]@,
                ) by {
                    lemma_flat_index(k, amount as int, i, s + 1);
                    if k < s {
                        lemma_flat_index(k, amount as int, i, s as int);
                        assert(children@[flat_index(k, amount as int, i)] == earlier[flat_index(
                            k,
                            amount as int,
                            i,
                        )]);
                    } else {
                        assert(flat_index(k, amount as int, i) == earlier.len() + i);
                    }
                }
            }
            s += 1;
        }
        children
    }

    /// The width of the widest maze of all species.
    pub fn get_largest_size(&self) -> (size: u32)
        requires
            self.wf(),
        ensures
            size == largest_of(species_largest_sizes(self.species@)),
    {
        let mut sizes: Vec<u32> = Vec::new();
        let mut k: usize = 0;
        while k < self.species.len()
            invariant
                self.wf(),
                k <= self.species@.len(),
                sizes@.len() == k,
                forall|i: int| 0 <= i < k ==> #[trigger] sizes@[i] == species_largest_sizes(self.species@)[i],
            decreases self.species@.len() - k,
        {
            sizes.push(self.species[k].maze_queue.get_largest_size());
            k += 1;
        }
        assert(sizes@ =~= species_largest_sizes(self.species@));
        let index = last_largest_index(&sizes);
        sizes[index]
    }

    /// The width of the narrowest maze of all species.
    pub fn get_smallest_size(&self) -> (size: u32)
        requires
            self.wf(),
        ensures
            size == smallest_of(species_smallest_sizes(self.species@)),
    {
        let mut sizes: Vec<u32> = Vec::new();
        let mut k: usize = 0;
        while k < self.species.len()
            invariant
                self.wf(),
                k <= self.species@.len(),
                sizes@.len() == k,
                forall|i: int| 0 <= i < k ==> #[trigger] sizes@[i] == species_smallest_sizes(self.species@)[i],
            decreases self.species@.len() - k,
        {
            sizes.push(self.species[k].maze_queue.get_smallest_size());
            k += 1;
        }
        assert(sizes@ =~= species_smallest_sizes(self.species@));
        let index = first_smallest_index(&sizes);
        sizes[index]
    }

    /// The largest of the path sizes that the species report: see
    /// [`MazeQueue::get_largest_path_size`](crate::mcc::maze::maze_queue::MazeQueue::get_largest_path_size).
    pub fn get_largest_path_size(&self) -> (size: u32)
        requires
            self.wf(),
            forall|k: int|
                0 <= k < self.species@.len() ==> maze_paths_are_countable(
                    (#[trigger] self.species@[k]).maze_queue.mazes@,
                ),
        ensures
            size == largest_of(species_largest_path_sizes(self.species@)),
    {
        let mut sizes: Vec<u32> = Vec::new();
        let mut k: usize = 0;
        while k < self.species.len()
            invariant
                self.wf(),
                forall|k: int|
                    0 <= k < self.species@.len() ==> maze_paths_are_countable(
                        (#[trigger] self.species@[k]).maze_queue.mazes@,
                    ),
                k <= self.species@.len(),
                sizes@.len() == k,
                forall|i: int| 0 <= i < k ==> #[trigger] sizes@[i] == species_largest_path_sizes(self.species@)[i],
            decreases self.species@.len() - k,
        {
            sizes.push(self.species[k].maze_queue.get_largest_path_size());
            k += 1;
        }
        assert(sizes@ =~= species_largest_path_sizes(self.species@));
        let index = last_largest_index(&sizes);
        sizes[index]
    }

    /// The smallest of the path sizes that the species report: see
    /// [`MazeQueue::get_smallest_path_size`](crate::mcc::maze::maze_queue::MazeQueue::get_smallest_path_size).
    pub fn get_smallest_path_size(&self) -> (size: u32)
        requires
            self.wf(),
            forall|k: int|
                0 <= k < self.species@.len() ==> maze_paths_are_countable(
                    (#[trigger] self.species@[k]).maze_queue.mazes@,
                ),
        ensures
            size == smallest_of(species_smallest_path_sizes(self.species@)),
    {
        let mut sizes: Vec<u32> = Vec::new();
        let mut k: usize = 0;
        while k < self.species.len()
            invariant
                self.wf(),
                forall|k: int|
                    0 <= k < self.species@.len() ==> maze_paths_are_countable(
                        (#[trigger] self.species@[k]).maze_queue.mazes@,
                    ),
                k <= self.species@.len(),
                sizes@.len() == k,
                forall|i: int| 0 <= i < k ==> #[trigger] sizes@[i] == species_smallest_path_sizes(self.species@)[i],
            decreases self.species@.len() - k,
        {
            sizes.push(self.species[k].maze_queue.get_smallest_path_size());
            k += 1;
        }
        assert(sizes@ =~= species_smallest_path_sizes(self.species@));
        let index = first_smallest_index(&sizes);
        sizes[index]
    }

    /// The average width of the mazes of all species, as the ratio of the
    /// sum of the widths to the number of mazes.
    pub fn get_average_size(&self) -> (ratio: Ratio)
        requires
            self.wf(),
            total_length(self.species@, self.species@.len()) <= u32::MAX,
        ensures
            ratio.numerator == total_size(self.species@, self.species@.len()),
            ratio.denominator == total_length(self.species@, self.species@.len()),
    {
        let mut sum: u64 = 0;
        let mut count: u64 = 0;
        let mut k: usize = 0;
        while k < self.species.len()
            invariant
                self.wf(),
                k <= self.species@.len(),
                total_length(self.species@, self.species@.len()) <= u32::MAX,
                sum == total_size(self.species@, k as nat),
                count == total_length(self.species@, k as nat),
                sum <= count * 0xFFFF_FFFF,
            decreases self.species@.len() - k,
        {
            proof {
                lemma_total_length_grows(self.species@, (k + 1) as nat, self.species@.len());
                lemma_total_length_grows(self.species@, k as nat, (k + 1) as nat);
                lemma_sum_bound(
                    maze_sizes(self.species@[k as int].maze_queue.mazes@),
                    self.species@[k as int].maze_queue.mazes@.len(),
                );
                lemma_count_bound(
                    count as int,
                    self.species@[k as int].maze_queue.mazes@.len() as int,
                    total_length(self.species@, self.species@.len()),
                );
            }
            let ratio = self.species[k].maze_queue.get_average_size();
            sum += ratio.numerator;
            count += ratio.denominator;
            k += 1;
        }
        Ratio { numerator: sum, denominator: count }
    }

    /// The average path complexity of the mazes of all species, as the
    /// ratio of the sum of the complexities to the number of mazes.
    pub fn get_average_path_size(&self) -> (ratio: Ratio)
        requires
            self.wf(),
            total_length(self.species@, self.species@.len()) <= u32::MAX,
            forall|k: int|
                0 <= k < self.species@.len() ==> maze_paths_are_countable(
                    (#[trigger] self.species@[k]).maze_queue.mazes@,
                ),
        ensures
            ratio.numerator == total_complexity(self.species@, self.species@.len()),
            ratio.denominator == total_length(self.species@, self.species@.len()),
    {
        let mut sum: u64 = 0;
        let mut count: u64 = 0;
        let mut k: usize = 0;
        while k < self.species.len()
            invariant
                self.wf(),
                forall|k: int|
                    0 <= k < self.species@.len() ==> maze_paths_are_countable(
                        (#[trigger] self.species@[k]).maze_queue.mazes@,
                    ),
                k <= self.species@.len(),
                total_length(self.species@, self.species@.len()) <= u32::MAX,
                sum == total_complexity(self.species@, k as nat),
                count == total_length(self.species@, k as nat),
                sum <= count * 0xFFFF_FFFF,
            decreases self.species@.len() - k,
        {
            proof {
                lemma_total_length_grows(self.species@, (k + 1) as nat, self.species@.len());
                lemma_total_length_grows(self.species@, k as nat, (k + 1) as nat);
                lemma_sum_bound(
                    maze_complexities(self.species@[k as int].maze_queue.mazes@),
                    self.species@[k as int].maze_queue.mazes@.len(),
                );
                lemma_count_bound(
                    count as int,
                    self.species@[k as int].maze_queue.mazes@.len() as int,
                    total_length(self.species@, self.species@.len()),
                );
            }
            let ratio = self.species[k].maze_queue.get_average_path_size();
            sum += ratio.numerator;
            count += ratio.denominator;
            k += 1;
        }
        Ratio { numerator: sum, denominator: count }
    }

    /// Records the present aggregates of every species.
    pub fn save_state(&mut self)
        requires
            old(self).wf(),
            forall|k: int|
                0 <= k < old(self).species@.len() ==> (#[trigger] old(self).species@[k]).maze_queue.mazes@.len()
                    <= u32::MAX && maze_paths_are_countable(old(self).species@[k].maze_queue.mazes@),
        ensures
            final(self).wf(),
            final(self).selection_limit == old(self).selection_limit,
            final(self).species_added == old(self).species_added,
            final(self).species@.len() == old(self).species@.len(),
            forall|k: int|
                0 <= k < old(self).species@.len() ==> {
                    &&& (#[trigger] final(self).species@[k]).maze_queue == old(self).species@[k].maze_queue
                    &&& final(self).species@[k].centroid == old(self).species@[k].centroid
                    &&& final(self).species@[k].id == old(self).species@[k].id
                    &&& final(self).species@[k].statistics.entries() == old(self).species@[k].statistics.entries()
                        + 1
                },
    {
        let mut s: usize = 0;
        while s < self.species.len()
            invariant
                self.wf(),
                self.selection_limit == old(self).selection_limit,
                self.species_added == old(self).species_added,
                self.species@.len() == old(self).species@.len(),
                s <= self.species@.len(),
                forall|k: int| s <= k < self.species@.len() ==> #[trigger] self.species@[k] == old(self).species@[k],
                forall|k: int|
                    0 <= k < old(self).species@.len() ==> (#[trigger] old(self).species@[k]).maze_queue.mazes@.len()
                        <= u32::MAX && maze_paths_are_countable(old(self).species@[k].maze_queue.mazes@),
                forall|k: int|
                    0 <= k < s ==> {
                        &&& (#[trigger] self.species@[k]).maze_queue == old(self).species@[k].maze_queue
                        &&& self.species@[k].centroid == old(self).species@[k].centroid
                        &&& self.species@[k].id == old(self).species@[k].id
                        &&& self.species@[k].statistics.entries() == old(self).species@[k].statistics.entries() + 1
                    },
            decreases self.species@.len() - s,
        {
            let ghost before = self.species@;
            self.species[s].save_state();
            assert(forall|k: int| 0 <= k < self.species@.len() && k != s ==> self.species@[k] == before[k]);
            s += 1;
        }
    }
}

/// The number of mazes in the first `count` species.
pub open spec fn total_length(species: Seq<MazeSpecies>, count: nat) -> int
    decreases count,
{
    if count == 0 {
        0
    } else {
        total_length(species, (count - 1) as nat) + species[count - 1].maze_queue.mazes@.len()
    }
}

/// The mazes of more species are no fewer.
pub proof fn lemma_total_length_grows(species: Seq<MazeSpecies>, fewer: nat, more: nat)
    requires
        fewer <= more,
    ensures
        0 <= total_length(species, fewer) <= total_length(species, more),
    decreases more,
{
    if more > 0 {
        if fewer < more {
            lemma_total_length_grows(species, fewer, (more - 1) as nat);
        } else {
            lemma_total_length_grows(species, (fewer - 1) as nat, (more - 1) as nat);
        }
    }
}

/// The sum of the widths of the mazes in the first `count` species.
pub open spec fn total_size(species: Seq<MazeSpecies>, count: nat) -> int
    decreases count,
{
    if count == 0 {
        0
    } else {
        total_size(species, (count - 1) as nat) + sum_of(
            maze_sizes(species[count - 1].maze_queue.mazes@),
            species[count - 1].maze_queue.mazes@.len(),
        )
    }
}

/// The sum of the path complexities of the mazes in the first `count`
/// species.
pub open spec fn total_complexity(species: Seq<MazeSpecies>, count: nat) -> int
    decreases count,
{
    if count == 0 {
        0
    } else {
        total_complexity(species, (count - 1) as nat) + sum_of(
            maze_complexities(species[count - 1].maze_queue.mazes@),
            species[count - 1].maze_queue.mazes@.len(),
        )
    }
}

/// The path size that each species reports as its largest.
pub open spec fn species_largest_path_sizes(species: Seq<MazeSpecies>) -> Seq<u32> {
    Seq::new(
        species.len(),
        |k: int|
            species[k].maze_queue.mazes@[last_largest(
                maze_complexities(species[k].maze_queue.mazes@),
                species[k].maze_queue.mazes@.len(),
            )].path_genes@.len() as u32,
    )
}

/// The path size that each species reports as its smallest.
pub open spec fn species_smallest_path_sizes(species: Seq<MazeSpecies>) -> Seq<u32> {
    Seq::new(
        species.len(),
        |k: int|
            species[k].maze_queue.mazes@[first_smallest(
                maze_complexities(species[k].maze_queue.mazes@),
                species[k].maze_queue.mazes@.len(),
            )].path_genes@.len() as u32,
    )
}

/// The width of the widest maze of each species.
pub open spec fn species_largest_sizes(species: Seq<MazeSpecies>) -> Seq<u32> {
    Seq::new(species.len(), |k: int| largest_of(maze_sizes(species[k].maze_queue.mazes@)))
}

/// The width of the narrowest maze of each species.
pub open spec fn species_smallest_sizes(species: Seq<MazeSpecies>) -> Seq<u32> {
    Seq::new(species.len(), |k: int| smallest_of(maze_sizes(species[k].maze_queue.mazes@)))
}

} // verus!
