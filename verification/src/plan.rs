//! Which migrations a run has to execute, and in which order: the path through
//! the graph for a direction, filtered by status.

use crate::graph::{as_ints, Node, RevisionGraph, RevisionGraphError};
use crate::migrator::{MigrationError, MigrationStatus};
use crate::revision::opt_view;
use vstd::prelude::*;

verus! {

/// The positions among `positions` whose entry has the given status, in the
/// same order.
pub open spec fn keep<M>(nodes: Seq<Node<M>>, positions: Seq<int>, status: MigrationStatus) -> Seq<
    int,
>
    decreases positions.len(),
{
    if positions.len() == 0 {
        Seq::empty()
    } else {
        let before = keep(nodes, positions.drop_last(), status);
        if nodes[positions.last()].migration.status == status {
            before.push(positions.last())
        } else {
            before
        }
    }
}

/// The display names of the entries at the given positions, in order.
pub open spec fn names_at<M>(nodes: Seq<Node<M>>, positions: Seq<int>) -> Seq<Seq<char>> {
    positions.map_values(|i: int| nodes[i].migration.meta.name@)
}

/// A position is kept exactly when it is among the given ones and its entry
/// has the status asked for.
pub proof fn lemma_keep_members<M>(
    nodes: Seq<Node<M>>,
    positions: Seq<int>,
    status: MigrationStatus,
    x: int,
)
    ensures
        keep(nodes, positions, status).contains(x) <==> positions.contains(x)
            && nodes[x].migration.status == status,
    decreases positions.len(),
{
    if positions.len() > 0 {
        let front = positions.drop_last();
        let last = positions.last();
        lemma_keep_members(nodes, front, status, x);
        let before = keep(nodes, front, status);
        assert(positions == front.push(last));
        assert(positions.contains(x) <==> front.contains(x) || x == last) by {
            if positions.contains(x) {
                let k = choose|k: int| 0 <= k < positions.len() && positions[k] == x;
                if k < front.len() {
                    assert(front[k] == x);
                }
            }
            if front.contains(x) {
                let k = choose|k: int| 0 <= k < front.len() && front[k] == x;
                assert(positions[k] == x);
            }
            if x == last {
                assert(positions[positions.len() - 1] == x);
            }
        }
        if nodes[last].migration.status == status {
            let kept = before.push(last);
            assert(kept.contains(x) <==> before.contains(x) || x == last) by {
                if kept.contains(x) {
                    let k = choose|k: int| 0 <= k < kept.len() && kept[k] == x;
                    if k < before.len() {
                        assert(before[k] == x);
                    }
                }
                if before.contains(x) {
                    let k = choose|k: int| 0 <= k < before.len() && before[k] == x;
                    assert(kept[k] == x);
                }
                if x == last {
                    assert(kept[kept.len() - 1] == x);
                }
            }
        }
    }
}

/// The kept positions stand in the order of the given ones: of two kept
/// positions, the earlier one comes from an earlier place.
pub proof fn law_kept_in_order<M>(
    nodes: Seq<Node<M>>,
    positions: Seq<int>,
    status: MigrationStatus,
    i: int,
    j: int,
) -> (places: (int, int))
    requires
        0 <= i <= j < keep(nodes, positions, status).len(),
    ensures
        0 <= places.0 <= places.1 < positions.len(),
        i < j ==> places.0 < places.1,
        positions[places.0] == keep(nodes, positions, status)[i],
        positions[places.1] == keep(nodes, positions, status)[j],
    decreases positions.len(),
{
    let front = positions.drop_last();
    let last = positions.last();
    let before = keep(nodes, front, status);
    if j < before.len() {
        let places = law_kept_in_order(nodes, front, status, i, j);
        assert(front[places.0] == positions[places.0]);
        assert(front[places.1] == positions[places.1]);
        places
    } else {
        let end = positions.len() - 1;
        if i < before.len() {
            let places = law_kept_in_order(nodes, front, status, i, i);
            assert(front[places.0] == positions[places.0]);
            (places.0, end)
        } else {
            (end, end)
        }
    }
}

/// Where every entry has the status asked for, every position is kept.
pub proof fn lemma_keep_all<M>(nodes: Seq<Node<M>>, positions: Seq<int>, status: MigrationStatus)
    requires
        forall|k: int|
            0 <= k < positions.len() ==> nodes[#[trigger] positions[k]].migration.status == status,
    ensures
        keep(nodes, positions, status) == positions,
    decreases positions.len(),
{
    if positions.len() > 0 {
        let front = positions.drop_last();
        assert forall|k: int| 0 <= k < front.len() implies nodes[#[trigger] front[k]].migration.status
            == status by {
            assert(front[k] == positions[k]);
        }
        lemma_keep_all(nodes, front, status);
        assert(positions.last() == positions[positions.len() - 1]);
        assert(front.push(positions.last()) == positions);
    }
}

impl<M> RevisionGraph<M> {
    /// The revision of the head.
    pub open spec fn head_revision(&self) -> Seq<char> {
        self.at(self.chain().len() - 1).revision@
    }

    /// The revision of the queue.
    pub open spec fn queue_revision(&self) -> Seq<char> {
        self.at(0).revision@
    }

    /// The path of an upward leg: forward from `from`, or from the queue, to
    /// `to`, or to the head. From a start that no node carries, the path is
    /// empty, and the leg has nothing to run.
    pub open spec fn up_path(&self, from: Option<Seq<char>>, to: Option<Seq<char>>) -> Seq<int> {
        self.forward(
            Some(
                match from {
                    Some(revision) => revision,
                    None => self.queue_revision(),
                },
            ),
            match to {
                Some(revision) => revision,
                None => self.head_revision(),
            },
        )
    }

    /// The steps of an upward leg: the pending entries on its path.
    pub open spec fn up_steps(&self, from: Option<Seq<char>>, to: Option<Seq<char>>) -> Seq<int> {
        keep(self.nodes(), self.up_path(from, to), MigrationStatus::Pending)
    }

    /// The path of a downward leg: backward from the head to, but not
    /// including, `to`; to the queue where no target is given.
    pub open spec fn down_path(&self, to: Option<Seq<char>>) -> Seq<int> {
        self.backward(Some(self.head_revision()), to)
    }

    /// The steps of a downward leg: the applied entries on its path.
    pub open spec fn down_steps(&self, to: Option<Seq<char>>) -> Seq<int> {
        keep(self.nodes(), self.down_path(to), MigrationStatus::Applied)
    }

    /// The positions among the given ones whose entry has the given status.
    fn pick(&self, positions: &Vec<usize>, status: MigrationStatus) -> (kept: Vec<usize>)
        requires
            forall|k: int| 0 <= k < positions@.len() ==> positions@[k] < self.nodes().len(),
        ensures
            as_ints(kept@) == keep(self.nodes(), as_ints(positions@), status),
            forall|k: int| 0 <= k < kept@.len() ==> kept@[k] < self.nodes().len(),
    {
        let mut kept: Vec<usize> = Vec::new();
        let mut k: usize = 0;
        while k < positions.len()
            invariant
                k <= positions@.len(),
                forall|j: int| 0 <= j < positions@.len() ==> positions@[j] < self.nodes().len(),
                as_ints(kept@) == keep(self.nodes(), as_ints(positions@).take(k as int), status),
                forall|j: int| 0 <= j < kept@.len() ==> kept@[j] < self.nodes().len(),
            decreases positions@.len() - k,
        {
            let position = positions[k];
            proof {
                let so_far = as_ints(positions@).take(k + 1);
                assert(so_far.drop_last() == as_ints(positions@).take(k as int));
                assert(so_far.last() == position as int);
            }
            if self.node_at(position).migration.status == status {
                let ghost before = kept@;
                kept.push(position);
                assert(as_ints(kept@) == as_ints(before).push(position as int));
            }
            k = k + 1;
        }
        proof {
            assert(as_ints(positions@).take(positions@.len() as int) == as_ints(positions@));
        }
        kept
    }

    /// The steps of an upward leg from `from`, or from the queue, to `to`, or
    /// to the head. A target that no node carries is an error.
    pub fn plan_up(&self, from: Option<&str>, to: Option<&str>) -> (result: Result<
        Vec<usize>,
        MigrationError,
    >)
        ensures
            result is Ok <==> (to matches Some(revision) ==> self.known(revision@)),
            result matches Ok(steps) ==> {
                &&& as_ints(steps@) == self.up_steps(opt_view(from), opt_view(to))
                &&& forall|k: int| 0 <= k < steps@.len() ==> steps@[k] < self.nodes().len()
            },
            result matches Err(error) ==> error matches MigrationError::Graph(inner)
                && inner.subject() == to->0@,
    {
        proof {
            use_type_invariant(self);
        }
        let head = self.head();
        let queue = self.queue();
        let target = match to {
            Some(revision) => {
                if !self.contains(revision) {
                    return Err(
                        MigrationError::Graph(RevisionGraphError::NotFound(revision.to_string())),
                    );
                }
                revision
            },
            None => {
                proof {
                    self.lemma_head_known();
                }
                head
            },
        };
        let start = match from {
            Some(revision) => revision,
            None => queue,
        };
        let path = self.forward_known(Some(start), target);
        Ok(self.pick(&path, MigrationStatus::Pending))
    }

    /// The steps of a downward leg from the head to, but not including, `to`.
    /// A target that no node carries is an error.
    pub fn plan_down(&self, to: Option<&str>) -> (result: Result<Vec<usize>, MigrationError>)
        ensures
            result is Ok <==> (to matches Some(revision) ==> self.known(revision@)),
            result matches Ok(steps) ==> {
                &&& as_ints(steps@) == self.down_steps(opt_view(to))
                &&& forall|k: int| 0 <= k < steps@.len() ==> steps@[k] < self.nodes().len()
            },
            result matches Err(error) ==> error matches MigrationError::Graph(inner)
                && inner.subject() == to->0@,
    {
        if let Some(revision) = to {
            if !self.contains(revision) {
                return Err(
                    MigrationError::Graph(RevisionGraphError::NotFound(revision.to_string())),
                );
            }
        }
        let head = self.head();
        let path = self.backward_positions(Some(head), to);
        Ok(self.pick(&path, MigrationStatus::Applied))
    }

    /// Every position of the chain, from the queue to the head: the steps of
    /// the upward leg of a refresh.
    pub fn plan_all(&self) -> (steps: Vec<usize>)
        ensures
            as_ints(steps@) == self.chain(),
            forall|k: int| 0 <= k < steps@.len() ==> steps@[k] < self.nodes().len(),
    {
        proof {
            use_type_invariant(self);
            self.lemma_head_known();
            self.law_roundtrip();
        }
        let head = self.head();
        let queue = self.queue();
        self.forward_known(Some(queue), head)
    }
}

} // verus!
