//! A species of mazes: a queue of its own, gathered around the maze that
//! founded it.

use crate::maze::maze_genotype::{MazeGenome, MazeMutationConfig};
use crate::mcc::maze::maze_queue::{
    is_maze_mutation, maze_child, maze_complexities, maze_paths_are_countable, maze_sizes, MazeQueue,
};
use crate::mcc::population::{after_push, cursor_after, nth_parent, QueueError};
use crate::mcc::statistics::{first_smallest, largest_of, last_largest, smallest_of, sum_of, Ratio};
use vstd::prelude::*;
use vstd::std_specs::slice::into_iter_elts;

verus! {

/// What a species of mazes has recorded about itself, one entry per
/// saved state.
#[derive(Debug)]
pub struct MazeSpeciesStatistics {
    pub average_sizes: Vec<Ratio>,
    pub maximum_sizes: Vec<u32>,
    pub minimum_sizes: Vec<u32>,
    pub average_path_complexities: Vec<Ratio>,
    pub maximum_path_complexities: Vec<u32>,
    pub minimum_path_complexities: Vec<u32>,
}

impl MazeSpeciesStatistics {
    /// The statistics without any entry.
    pub fn new() -> (statistics: MazeSpeciesStatistics)
        ensures
            statistics.entries() == 0,
            statistics.is_aligned(),
    {
        MazeSpeciesStatistics {
            average_sizes: Vec::new(),
            maximum_sizes: Vec::new(),
            minimum_sizes: Vec::new(),
            average_path_complexities: Vec::new(),
            maximum_path_complexities: Vec::new(),
            minimum_path_complexities: Vec::new(),
        }
    }

    /// The number of saved states.
    pub open spec fn entries(&self) -> nat {
        self.average_sizes@.len()
    }

    /// Every record has one entry per saved state.
    pub open spec fn is_aligned(&self) -> bool {
        &&& self.maximum_sizes@.len() == self.entries()
        &&& self.minimum_sizes@.len() == self.entries()
        &&& self.average_path_complexities@.len() == self.entries()
        &&& self.maximum_path_complexities@.len() == self.entries()
        &&& self.minimum_path_complexities@.len() == self.entries()
    }
}

/// A species of mazes.
#[derive(Debug)]
pub struct MazeSpecies {
    /// The founder, to which the distance of a newcomer is measured; it
    /// never changes.
    pub centroid: MazeGenome,
    pub maze_queue: MazeQueue,
    pub id: u32,
    pub statistics: MazeSpeciesStatistics,
}

impl MazeSpecies {
    /// The queue is well formed and not empty, and so are the records.
    pub open spec fn wf(&self) -> bool {
        &&& self.maze_queue.wf()
        &&& self.maze_queue.mazes@.len() >= 1
        &&& self.centroid@.wf()
        &&& self.statistics.is_aligned()
    }

    /// The species founded by `maze`, with room for `max_items_limit`
    /// mazes. A capacity of zero is refused.
    pub fn new(maze: MazeGenome, max_items_limit: usize, id: u32) -> (species: Result<MazeSpecies, QueueError>)
        requires
            maze@.wf(),
        ensures
            max_items_limit == 0 <==> species == Err::<MazeSpecies, QueueError>(QueueError::ZeroCapacity),
            max_items_limit > 0 ==> species is Ok && species->Ok_0.wf() && species->Ok_0.id == id
                && species->Ok_0.centroid@ == maze@ && species->Ok_0.maze_queue.population() == seq![maze@]
                && species->Ok_0.maze_queue.max_items_limit == max_items_limit
                && species->Ok_0.maze_queue.current_maze_index == 0
                && species->Ok_0.maze_queue.total_individuals_added == 1
                && species->Ok_0.statistics.entries() == 0,
    {
        let mut founders: Vec<MazeGenome> = Vec::new();
        founders.push(maze.clone());
        match MazeQueue::new(founders, max_items_limit) {
            Err(error) => Err(error),
            Ok(maze_queue) => {
                let species = MazeSpecies {
                    centroid: maze,
                    maze_queue,
                    id,
                    statistics: MazeSpeciesStatistics::new(),
                };
                assert(species.maze_queue.population() =~= seq![maze@]);
                Ok(species)
            },
        }
    }

    /// An iterator over the mazes of the species, from the oldest to the
    /// newest.
    pub fn iter(&self) -> (iter: core::slice::Iter<'_, MazeGenome>)
        ensures
            into_iter_elts(iter) == self.maze_queue.mazes@,
    {
        let items = self.maze_queue.mazes.as_slice();
        let iter = items.iter();
        proof {
            assert(into_iter_elts(iter) =~= self.maze_queue.mazes@);
        }
        iter
    }

    /// The number of mazes in the species.
    pub fn len(&self) -> (length: usize)
        ensures
            length == self.maze_queue.mazes@.len(),
    {
        self.maze_queue.len()
    }

    /// The founder of the species.
    pub fn centroid(&self) -> (maze: &MazeGenome)
        ensures
            *maze == self.centroid,
    {
        &self.centroid
    }

    /// Admits `maze` to the species; see [`MazeQueue::push`].
    pub fn push(&mut self, maze: MazeGenome)
        requires
            old(self).wf(),
            maze@.wf(),
        ensures
            final(self).wf(),
            final(self).maze_queue.population() == after_push(
                old(self).maze_queue.population(),
                old(self).maze_queue.max_items_limit as int,
                maze@,
            ),
            final(self).maze_queue.max_items_limit == old(self).maze_queue.max_items_limit,
            final(self).maze_queue.total_individuals_added == old(self).maze_queue.total_individuals_added,
            final(self).centroid == old(self).centroid,
            final(self).id == old(self).id,
            final(self).statistics == old(self).statistics,
    {
        self.maze_queue.push(maze);
    }

    /// The next `amount` children of the species; see
    /// [`MazeQueue::get_children`].
    pub fn get_children(&mut self, amount: usize, config: &MazeMutationConfig) -> (children: Vec<MazeGenome>)
        requires
            old(self).wf(),
            old(self).maze_queue.total_individuals_added + amount <= u32::MAX,
        ensures
            final(self).wf(),
            final(self).maze_queue.mazes@ == old(self).maze_queue.mazes@,
            final(self).maze_queue.max_items_limit == old(self).maze_queue.max_items_limit,
            final(self).maze_queue.total_individuals_added == old(self).maze_queue.total_individuals_added
                + amount,
            final(self).maze_queue.current_maze_index == cursor_after(
                old(self).maze_queue.current_maze_index as int,
                old(self).maze_queue.mazes@.len() as int,
                old(self).maze_queue.max_items_limit as int,
                amount as nat,
            ),
            final(self).centroid == old(self).centroid,
            final(self).id == old(self).id,
            final(self).statistics == old(self).statistics,
            children@.len() == amount,
            forall|i: int|
                0 <= i < amount ==> is_maze_mutation(
                    maze_child(
                        old(self).maze_queue.mazes@[nth_parent(
                            old(self).maze_queue.current_maze_index as int,
                            old(self).maze_queue.mazes@.len() as int,
                            old(self).maze_queue.max_items_limit as int,
                            i as nat,
                        )]@,
                        (old(self).maze_queue.total_individuals_added + i) as u32,
                    ),
                    (#[trigger] children@[i])@,
                ),
    {
        self.maze_queue.get_children(amount, config)
    }

    /// Records the present aggregates of the species: the average, the
    /// largest and the smallest size, and the same of the path
    /// complexity.
    pub fn save_state(&mut self)
        requires
            old(self).wf(),
            old(self).maze_queue.mazes@.len() <= u32::MAX,
            maze_paths_are_countable(old(self).maze_queue.mazes@),
        ensures
            final(self).wf(),
            final(self).maze_queue == old(self).maze_queue,
            final(self).centroid == old(self).centroid,
            final(self).id == old(self).id,
            final(self).statistics.entries() == old(self).statistics.entries() + 1,
            final(self).statistics.average_sizes@.drop_last() == old(self).statistics.average_sizes@,
            final(self).statistics.maximum_sizes@.drop_last() == old(self).statistics.maximum_sizes@,
            final(self).statistics.minimum_sizes@.drop_last() == old(self).statistics.minimum_sizes@,
            final(self).statistics.average_path_complexities@.drop_last() == old(self).statistics.average_path_complexities@,
            final(self).statistics.maximum_path_complexities@.drop_last() == old(self).statistics.maximum_path_complexities@,
            final(self).statistics.minimum_path_complexities@.drop_last() == old(self).statistics.minimum_path_complexities@,
            final(self).statistics.average_sizes@.last().numerator == sum_of(
                maze_sizes(old(self).maze_queue.mazes@),
                old(self).maze_queue.mazes@.len(),
            ),
            final(self).statistics.average_sizes@.last().denominator == old(self).maze_queue.mazes@.len(),
            final(self).statistics.maximum_sizes@.last() == largest_of(maze_sizes(old(self).maze_queue.mazes@)),
            final(self).statistics.minimum_sizes@.last() == smallest_of(maze_sizes(old(self).maze_queue.mazes@)),
            final(self).statistics.average_path_complexities@.last().numerator == sum_of(
                maze_complexities(old(self).maze_queue.mazes@),
                old(self).maze_queue.mazes@.len(),
            ),
            final(self).statistics.average_path_complexities@.last().denominator == old(self).maze_queue.mazes@.len(),
            final(self).statistics.maximum_path_complexities@.last() == old(self).maze_queue.mazes@[last_largest(
                maze_complexities(old(self).maze_queue.mazes@),
                old(self).maze_queue.mazes@.len(),
            )].path_genes@.len(),
            final(self).statistics.minimum_path_complexities@.last() == old(self).maze_queue.mazes@[first_smallest(
                maze_complexities(old(self).maze_queue.mazes@),
                old(self).maze_queue.mazes@.len(),
            )].path_genes@.len(),
    {
        let average_size = self.maze_queue.get_average_size();
        let largest_size = self.maze_queue.get_largest_size();
        let smallest_size = self.maze_queue.get_smallest_size();
        let average_path_size = self.maze_queue.get_average_path_size();
        let largest_path_size = self.maze_queue.get_largest_path_size();
        let smallest_path_size = self.maze_queue.get_smallest_path_size();
        self.statistics.average_sizes.push(average_size);
        self.statistics.maximum_sizes.push(largest_size);
        self.statistics.minimum_sizes.push(smallest_size);
        self.statistics.average_path_complexities.push(average_path_size);
        self.statistics.maximum_path_complexities.push(largest_path_size);
        self.statistics.minimum_path_complexities.push(smallest_path_size);
        proof {
            assert(self.statistics.average_sizes@.drop_last() =~= old(self).statistics.average_sizes@);
            assert(self.statistics.maximum_sizes@.drop_last() =~= old(self).statistics.maximum_sizes@);
            assert(self.statistics.minimum_sizes@.drop_last() =~= old(self).statistics.minimum_sizes@);
            assert(self.statistics.average_path_complexities@.drop_last() =~= old(self).statistics.average_path_complexities@);
            assert(self.statistics.maximum_path_complexities@.drop_last() =~= old(self).statistics.maximum_path_complexities@);
            assert(self.statistics.minimum_path_complexities@.drop_last() =~= old(self).statistics.minimum_path_complexities@);
        }
    }
}

} // verus!
