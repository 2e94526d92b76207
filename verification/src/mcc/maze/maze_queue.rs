//! The bounded queue of mazes.

use crate::maze::maze_genotype::{
    amount_of_junctures, MazeGenome, MazeGenomeModel, MazeMutationConfig,
};
use crate::mcc::population::{
    after_push, cursor_after, cursor_after_eviction, excess, nth_parent, QueueError,
};
use crate::mcc::statistics::{
    average, first_smallest, first_smallest_index, largest_of, last_largest, last_largest_index,
    smallest_of, sum_of, Ratio,
};
use vstd::prelude::*;
use vstd::std_specs::slice::into_iter_elts;

verus! {

/// The mathematical values of the genomes in `mazes`.
pub open spec fn maze_models(mazes: Seq<MazeGenome>) -> Seq<MazeGenomeModel> {
    Seq::new(mazes.len(), |i: int| mazes[i]@)
}

/// The child that a parent gives before it mutates: a copy with the id
/// `id`, marked not viable and not solved.
pub open spec fn maze_child(parent: MazeGenomeModel, id: u32) -> MazeGenomeModel {
    MazeGenomeModel { id, viable: false, successful_agent_id: None, ..parent }
}

/// `after` can come from `before` by one mutation: it is valid, on a grid
/// that is the same or one larger each way, with at most one more
/// waypoint, and with the same first direction, id and marks.
pub open spec fn is_maze_mutation(before: MazeGenomeModel, after: MazeGenomeModel) -> bool {
    &&& after.wf()
    &&& after.first_direction == before.first_direction
    &&& after.id == before.id
    &&& after.viable == before.viable
    &&& after.successful_agent_id == before.successful_agent_id
    &&& ((after.width == before.width && after.height == before.height) || (after.width == before.width + 1
        && after.height == before.height + 1))
    &&& before.path_genes.len() <= after.path_genes.len() <= before.path_genes.len() + 1
    &&& before.wall_genes.len() - 1 <= after.wall_genes.len() <= before.wall_genes.len() + 1
}

/// The widths of `mazes`, in order.
pub open spec fn maze_sizes(mazes: Seq<MazeGenome>) -> Seq<u32> {
    Seq::new(mazes.len(), |i: int| mazes[i].width)
}

/// The path complexities of `mazes`, in order.
pub open spec fn maze_complexities(mazes: Seq<MazeGenome>) -> Seq<u32> {
    Seq::new(
        mazes.len(),
        |i: int|
            amount_of_junctures(
                mazes[i].width as int,
                mazes[i].height as int,
                mazes[i].first_direction,
                mazes[i].path_genes@,
            ) as u32,
    )
}

/// No maze of `mazes` has more waypoints than a 32-bit count can
/// report.
pub open spec fn maze_paths_are_countable(mazes: Seq<MazeGenome>) -> bool {
    forall|i: int| 0 <= i < mazes.len() ==> (#[trigger] mazes[i]).path_genes@.len() <= 0x7FFF_FFFF
}

/// A queue of at most `max_items_limit` mazes, oldest first.
#[derive(Debug)]
pub struct MazeQueue {
    pub mazes: Vec<MazeGenome>,
    /// The cursor: where the next parent is picked.
    pub current_maze_index: usize,
    /// The capacity.
    pub max_items_limit: usize,
    /// The next unused id.
    pub total_individuals_added: u32,
}

impl MazeQueue {
    /// The capacity is positive and every maze is valid.
    pub open spec fn wf(&self) -> bool {
        &&& self.max_items_limit >= 1
        &&& forall|i: int| 0 <= i < self.mazes@.len() ==> (#[trigger] self.mazes@[i])@.wf()
    }

    /// The mazes of the queue as mathematical values, oldest first.
    pub open spec fn population(&self) -> Seq<MazeGenomeModel> {
        maze_models(self.mazes@)
    }

    /// A queue of the given founders; the ids of its children start at
    /// the number of founders. A capacity of zero is refused.
    pub fn new(mazes: Vec<MazeGenome>, max_items_limit: usize) -> (queue: Result<MazeQueue, QueueError>)
        requires
            mazes@.len() <= u32::MAX,
            forall|i: int| 0 <= i < mazes@.len() ==> (#[trigger] mazes@[i])@.wf(),
        ensures
            max_items_limit == 0 <==> queue == Err::<MazeQueue, QueueError>(QueueError::ZeroCapacity),
            max_items_limit > 0 ==> queue is Ok && queue->Ok_0.wf() && queue->Ok_0.mazes@ == mazes@
                && queue->Ok_0.current_maze_index == 0 && queue->Ok_0.max_items_limit == max_items_limit
                && queue->Ok_0.total_individuals_added == mazes@.len(),
    {
        if max_items_limit == 0 {
            return Err(QueueError::ZeroCapacity);
        }
        let total_individuals_added = mazes.len() as u32;
        Ok(MazeQueue { mazes, current_maze_index: 0, max_items_limit, total_individuals_added })
    }

    /// An iterator over the mazes, from the oldest to the newest.
    pub fn iter(&self) -> (iter: core::slice::Iter<'_, MazeGenome>)
        ensures
            into_iter_elts(iter) == self.mazes@,
    {
        let items = self.mazes.as_slice();
        let iter = items.iter();
        proof {
            assert(into_iter_elts(iter) =~= self.mazes@);
        }
        iter
    }

    /// The number of mazes in the queue.
    pub fn len(&self) -> (length: usize)
        ensures
            length == self.mazes@.len(),
    {
        self.mazes.len()
    }

    /// The maze at `index`, counted from the oldest.
    pub fn get(&self, index: usize) -> (maze: &MazeGenome)
        requires
            index < self.mazes@.len(),
        ensures
            *maze == self.mazes@[index as int],
    {
        &self.mazes[index]
    }

    /// The widths of the mazes, oldest first.
    pub fn sizes(&self) -> (sizes: Vec<u32>)
        ensures
            sizes@ == maze_sizes(self.mazes@),
    {
        let mut sizes: Vec<u32> = Vec::new();
        let mut i: usize = 0;
        while i < self.mazes.len()
            invariant
                i <= self.mazes@.len(),
                sizes@.len() == i,
                forall|k: int| 0 <= k < i ==> #[trigger] sizes@[k] == self.mazes@[k].width,
            decreases self.mazes@.len() - i,
        {
            sizes.push(self.mazes[i].width);
            i += 1;
        }
        assert(sizes@ =~= maze_sizes(self.mazes@));
        sizes
    }

    /// The path complexities of the mazes, oldest first.
    pub fn complexities(&self) -> (complexities: Vec<u32>)
        requires
            self.wf(),
            maze_paths_are_countable(self.mazes@),
        ensures
            complexities@ == maze_complexities(self.mazes@),
    {
        let mut complexities: Vec<u32> = Vec::new();
        let mut i: usize = 0;
        while i < self.mazes.len()
            invariant
                self.wf(),
                maze_paths_are_countable(self.mazes@),
                i <= self.mazes@.len(),
                complexities@.len() == i,
                forall|k: int| 0 <= k < i ==> #[trigger] complexities@[k] == maze_complexities(self.mazes@)[k],
            decreases self.mazes@.len() - i,
        {
            complexities.push(self.mazes[i].get_amount_of_junctures());
            i += 1;
        }
        assert(complexities@ =~= maze_complexities(self.mazes@));
        complexities
    }

    /// The width of the widest maze.
    pub fn get_largest_size(&self) -> (size: u32)
        requires
            self.mazes@.len() >= 1,
        ensures
            size == largest_of(maze_sizes(self.mazes@)),
    {
        let sizes = self.sizes();
        let index = last_largest_index(&sizes);
        sizes[index]
    }

    /// The width of the narrowest maze.
    pub fn get_smallest_size(&self) -> (size: u32)
        requires
            self.mazes@.len() >= 1,
        ensures
            size == smallest_of(maze_sizes(self.mazes@)),
    {
        let sizes = self.sizes();
        let index = first_smallest_index(&sizes);
        sizes[index]
    }

    /// The average width, as the ratio of the sum of the widths to the
    /// number of mazes.
    pub fn get_average_size(&self) -> (ratio: Ratio)
        requires
            1 <= self.mazes@.len() <= u32::MAX,
        ensures
            ratio.numerator == sum_of(maze_sizes(self.mazes@), self.mazes@.len()),
            ratio.denominator == self.mazes@.len(),
    {
        let sizes = self.sizes();
        average(&sizes)
    }

    /// The number of waypoints of the maze with the most complex path,
    /// the youngest of them where several are as complex.
    pub fn get_largest_path_size(&self) -> (size: u32)
        requires
            self.wf(),
            self.mazes@.len() >= 1,
            maze_paths_are_countable(self.mazes@),
        ensures
            size == self.mazes@[last_largest(
                maze_complexities(self.mazes@),
                self.mazes@.len(),
            )].path_genes@.len(),
    {
        let complexities = self.complexities();
        let index = last_largest_index(&complexities);
        self.mazes[index].path_genes.len() as u32
    }

    /// The number of waypoints of the maze with the least complex path,
    /// the oldest of them where several are as simple.
    pub fn get_smallest_path_size(&self) -> (size: u32)
        requires
            self.wf(),
            self.mazes@.len() >= 1,
            maze_paths_are_countable(self.mazes@),
        ensures
            size == self.mazes@[first_smallest(
                maze_complexities(self.mazes@),
                self.mazes@.len(),
            )].path_genes@.len(),
    {
        let complexities = self.complexities();
        let index = first_smallest_index(&complexities);
        self.mazes[index].path_genes.len() as u32
    }

    /// The average path complexity, as the ratio of the sum of the
    /// complexities to the number of mazes.
    pub fn get_average_path_size(&self) -> (ratio: Ratio)
        requires
            self.wf(),
            1 <= self.mazes@.len() <= u32::MAX,
            maze_paths_are_countable(self.mazes@),
        ensures
            ratio.numerator == sum_of(maze_complexities(self.mazes@), self.mazes@.len()),
            ratio.denominator == self.mazes@.len(),
    {
        let complexities = self.complexities();
        average(&complexities)
    }

    /// Admits `maze` behind the others; the oldest mazes leave if the
    /// queue is then over its capacity, and the cursor moves with the
    /// maze that it pointed to.
    pub fn push(&mut self, maze: MazeGenome)
        requires
            old(self).wf(),
            maze@.wf(),
        ensures
            final(self).wf(),
            final(self).population() == after_push(
                old(self).population(),
                old(self).max_items_limit as int,
                maze@,
            ),
            final(self).current_maze_index == cursor_after_eviction(
                old(self).current_maze_index as int,
                excess(old(self).mazes@.len() + 1, old(self).max_items_limit as int),
            ),
            final(self).mazes@.len() == old(self).mazes@.len() + 1 - excess(
                old(self).mazes@.len() + 1,
                old(self).max_items_limit as int,
            ),
            final(self).max_items_limit == old(self).max_items_limit,
            final(self).total_individuals_added == old(self).total_individuals_added,
    {
        let ghost pushed = self.mazes@.push(maze);
        self.mazes.push(maze);
        if self.mazes.len() >= self.max_items_limit {
            let amount = self.mazes.len() - self.max_items_limit;
            self.remove_oldest(amount);
        }
        proof {
            let gone = excess(old(self).mazes@.len() + 1, old(self).max_items_limit as int);
            assert(self.mazes@ == pushed.skip(gone));
            assert(self.population() =~= after_push(
                old(self).population(),
                old(self).max_items_limit as int,
                maze@,
            ));
        }
    }

    /// Lets the `amount` oldest mazes leave.
    fn remove_oldest(&mut self, amount: usize)
        requires
            amount <= old(self).mazes@.len(),
        ensures
            final(self).mazes@ == old(self).mazes@.skip(amount as int),
            final(self).current_maze_index == cursor_after_eviction(
                old(self).current_maze_index as int,
                amount as int,
            ),
            final(self).max_items_limit == old(self).max_items_limit,
            final(self).total_individuals_added == old(self).total_individuals_added,
    {
        let mut removed: usize = 0;
        while removed < amount
            invariant
                removed <= amount <= old(self).mazes@.len(),
                self.mazes@ == old(self).mazes@.skip(removed as int),
                self.current_maze_index == old(self).current_maze_index,
                self.max_items_limit == old(self).max_items_limit,
                self.total_individuals_added == old(self).total_individuals_added,
            decreases amount - removed,
        {
            let _ = self.mazes.remove(0);
            removed += 1;
            assert(self.mazes@ =~= old(self).mazes@.skip(removed as int));
        }
        if amount > self.current_maze_index {
            self.current_maze_index = 0;
        } else {
            self.current_maze_index -= amount;
        }
    }

    /// The next `amount` children before they mutate: copies of the
    /// parents that the cursor picks one after the other, each with the
    /// next unused id and marked not viable. The population stays as it
    /// is; the cursor and the id counter move on.
    pub fn next_parents(&mut self, amount: usize) -> (children: Vec<MazeGenome>)
        requires
            old(self).wf(),
            old(self).mazes@.len() >= 1,
            old(self).total_individuals_added + amount <= u32::MAX,
        ensures
            final(self).wf(),
            final(self).mazes@ == old(self).mazes@,
            final(self).max_items_limit == old(self).max_items_limit,
            final(self).total_individuals_added == old(self).total_individuals_added + amount,
            final(self).current_maze_index == cursor_after(
                old(self).current_maze_index as int,
                old(self).mazes@.len() as int,
                old(self).max_items_limit as int,
                amount as nat,
            ),
            children@.len() == amount,
            forall|i: int|
                0 <= i < amount ==> (#[trigger] children@[i])@ == maze_child(
                    old(self).mazes@[nth_parent(
                        old(self).current_maze_index as int,
                        old(self).mazes@.len() as int,
                        old(self).max_items_limit as int,
                        i as nat,
                    )]@,
                    (old(self).total_individuals_added + i) as u32,
                ),
    {
        let mut children: Vec<MazeGenome> = Vec::new();
        let mut picked: usize = 0;
        while picked < amount
            invariant
                self.wf(),
                self.mazes@ == old(self).mazes@,
                self.mazes@.len() >= 1,
                self.max_items_limit == old(self).max_items_limit,
                picked <= amount,
                old(self).total_individuals_added + amount <= u32::MAX,
                self.total_individuals_added == old(self).total_individuals_added + picked,
                self.current_maze_index == cursor_after(
                    old(self).current_maze_index as int,
                    old(self).mazes@.len() as int,
                    old(self).max_items_limit as int,
                    picked as nat,
                ),
                children@.len() == picked,
                forall|i: int|
                    0 <= i < picked ==> (#[trigger] children@[i])@ == maze_child(
                        old(self).mazes@[nth_parent(
                            old(self).current_maze_index as int,
                            old(self).mazes@.len() as int,
                            old(self).max_items_limit as int,
                            i as nat,
                        )]@,
                        (old(self).total_individuals_added + i) as u32,
                    ),
            decreases amount - picked,
        {
            if self.current_maze_index >= self.mazes.len() {
                self.current_maze_index = 0;
            }
            let mut child = self.mazes[self.current_maze_index].clone();
            child.successful_agent_id = None;
            child.viable = false;
            child.id = self.total_individuals_added;
            self.total_individuals_added += 1;
            children.push(child);
            self.current_maze_index = (self.current_maze_index + 1) % self.max_items_limit;
            picked += 1;
        }
        children
    }

    /// The next `amount` children: copies of the parents that the cursor
    /// picks one after the other, each with the next unused id, marked
    /// not viable, and mutated. The population stays as it is.
    pub fn get_children(&mut self, amount: usize, config: &MazeMutationConfig) -> (children: Vec<MazeGenome>)
        requires
            old(self).wf(),
            old(self).mazes@.len() >= 1,
            old(self).total_individuals_added + amount <= u32::MAX,
        ensures
            final(self).wf(),
            final(self).mazes@ == old(self).mazes@,
            final(self).max_items_limit == old(self).max_items_limit,
            final(self).total_individuals_added == old(self).total_individuals_added + amount,
            final(self).current_maze_index == cursor_after(
                old(self).current_maze_index as int,
                old(self).mazes@.len() as int,
                old(self).max_items_limit as int,
                amount as nat,
            ),
            children@.len() == amount,
            forall|i: int|
                0 <= i < amount ==> is_maze_mutation(
                    maze_child(
                        old(self).mazes@[nth_parent(
                            old(self).current_maze_index as int,
                            old(self).mazes@.len() as int,
                            old(self).max_items_limit as int,
                            i as nat,
                        )]@,
                        (old(self).total_individuals_added + i) as u32,
                    ),
                    (#[trigger] children@[i])@,
                ),
    {
        let mut parents = self.next_parents(amount);
        let ghost prepared = parents@;
        let mut children: Vec<MazeGenome> = Vec::new();
        let mut i: usize = 0;
        while i < parents.len()
            invariant
                i <= parents@.len(),
                parents@ == prepared,
                children@.len() == i,
                forall|k: int| 0 <= k < prepared.len() ==> (#[trigger] prepared[k])@.wf(),
                forall|k: int| 0 <= k < i ==> is_maze_mutation(prepared[k]@, (#[trigger] children@[k])@),
            decreases parents@.len() - i,
        {
            let mut child = parents[i].clone();
            child.mutate(config);
            children.push(child);
            i += 1;
        }
        children
    }
}

} // verus!
