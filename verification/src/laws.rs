//! What a run does to the ledger, stated over the names that the ledger
//! holds before and after.

use crate::chain::lemma_chain_unique;
use crate::driver::{handles_at, Action, Driver, Event, Leg};
use crate::text::views;
use crate::graph::{links_of, RevisionGraph};
use crate::ledger::{after_delete, after_insert, one_to_one};
use crate::migrator::{all_recorded, recorded, same_declarations, Direction, MigrationStatus};
use crate::plan::{keep, lemma_keep_all, lemma_keep_members, names_at};
use uuid::Uuid;
use vstd::prelude::*;

verus! {

/// No two migrations of the graph share a display name.
pub open spec fn distinct_names<M>(graph: RevisionGraph<M>) -> bool {
    forall|i: int, j: int|
        0 <= i < j < graph.nodes().len() ==> graph.nodes()[i].migration.meta.name@
            != graph.nodes()[j].migration.meta.name@
}

/// The positions are positions of nodes of the graph.
pub open spec fn in_range<M>(graph: RevisionGraph<M>, positions: Seq<int>) -> bool {
    forall|k: int| 0 <= k < positions.len() ==> 0 <= #[trigger] positions[k] < graph.nodes().len()
}

/// The display names at the given positions, as a set.
pub open spec fn name_set<M>(graph: RevisionGraph<M>, positions: Seq<int>) -> Set<Seq<char>> {
    names_at(graph.nodes(), positions).to_set()
}

/// A name is in the set of the names at some positions exactly when one of
/// the positions carries it.
pub proof fn lemma_name_set<M>(graph: RevisionGraph<M>, positions: Seq<int>, name: Seq<char>)
    ensures
        name_set(graph, positions).contains(name) <==> exists|k: int|
            0 <= k < positions.len() && graph.nodes()[#[trigger] positions[k]].migration.meta.name@
                == name,
{
    let names = names_at(graph.nodes(), positions);
    if name_set(graph, positions).contains(name) {
        let k = choose|k: int| 0 <= k < names.len() && names[k] == name;
        assert(graph.nodes()[positions[k]].migration.meta.name@ == name);
    }
    if exists|k: int|
        0 <= k < positions.len() && graph.nodes()[#[trigger] positions[k]].migration.meta.name@
            == name {
        let k = choose|k: int|
            0 <= k < positions.len() && graph.nodes()[#[trigger] positions[k]].migration.meta.name@
                == name;
        assert(names[k] == name);
        assert(names.contains(name));
    }
}

/// The pending entries on a path complete the ledger: after their names are
/// inserted, the ledger holds what it held before and every name on the path.
#[verifier::rlimit(40)]
pub proof fn lemma_pending_complete<M>(
    graph: RevisionGraph<M>,
    ledger: Map<Seq<char>, Uuid>,
    path: Seq<int>,
)
    requires
        all_recorded(graph.entries(), ledger),
        in_range(graph, path),
    ensures
        after_insert(
            ledger,
            names_at(graph.nodes(), keep(graph.nodes(), path, MigrationStatus::Pending)),
        ) == ledger.dom().union(name_set(graph, path)),
{
    let steps = keep(graph.nodes(), path, MigrationStatus::Pending);
    let left = after_insert(ledger, names_at(graph.nodes(), steps));
    let right = ledger.dom().union(name_set(graph, path));
    assert forall|name: Seq<char>| left.contains(name) <==> right.contains(name) by {
        lemma_name_set(graph, steps, name);
        lemma_name_set(graph, path, name);
        if name_set(graph, steps).contains(name) {
            let k = choose|k: int|
                0 <= k < steps.len() && graph.nodes()[#[trigger] steps[k]].migration.meta.name@
                    == name;
            lemma_keep_members(graph.nodes(), path, MigrationStatus::Pending, steps[k]);
            assert(steps.contains(steps[k]));
            let j = choose|j: int| 0 <= j < path.len() && path[j] == steps[k];
            assert(graph.nodes()[path[j]].migration.meta.name@ == name);
        }
        if name_set(graph, path).contains(name) && !ledger.dom().contains(name) {
            let j = choose|j: int|
                0 <= j < path.len() && graph.nodes()[#[trigger] path[j]].migration.meta.name@
                    == name;
            let entry = graph.entries()[path[j]];
            assert(recorded(entry, ledger));
            assert(entry == graph.nodes()[path[j]].migration);
            assert(entry.status == MigrationStatus::Pending);
            lemma_keep_members(graph.nodes(), path, MigrationStatus::Pending, path[j]);
            assert(path.contains(path[j]));
            assert(steps.contains(path[j]));
            let k = choose|k: int| 0 <= k < steps.len() && steps[k] == path[j];
            assert(graph.nodes()[steps[k]].migration.meta.name@ == name);
        }
    }
    assert(left =~= right);
}

/// The applied entries on a path carry the records of the path: after the
/// records with their handles are deleted, the ledger holds what it held
/// before but for the names on the path.
#[verifier::rlimit(40)]
pub proof fn lemma_applied_removed<M>(
    graph: RevisionGraph<M>,
    ledger: Map<Seq<char>, Uuid>,
    path: Seq<int>,
)
    requires
        all_recorded(graph.entries(), ledger),
        in_range(graph, path),
        one_to_one(ledger),
    ensures
        after_delete(
            ledger,
            handles_at(graph, keep(graph.nodes(), path, MigrationStatus::Applied)),
        ).dom() == ledger.dom().difference(name_set(graph, path)),
{
    let steps = keep(graph.nodes(), path, MigrationStatus::Applied);
    let handles = handles_at(graph, steps);
    let left = after_delete(ledger, handles).dom();
    let right = ledger.dom().difference(name_set(graph, path));
    assert forall|name: Seq<char>| left.contains(name) <==> right.contains(name) by {
        lemma_name_set(graph, path, name);
        if ledger.contains_key(name) {
            if handles.contains(ledger[name]) {
                let k = choose|k: int| 0 <= k < handles.len() && handles[k] == ledger[name];
                lemma_keep_members(graph.nodes(), path, MigrationStatus::Applied, steps[k]);
                assert(steps.contains(steps[k]));
                let j = choose|j: int| 0 <= j < path.len() && path[j] == steps[k];
                let entry = graph.entries()[path[j]];
                assert(recorded(entry, ledger));
                assert(entry == graph.nodes()[path[j]].migration);
                assert(entry.id is Some);
                assert(ledger.contains_key(entry.meta.name@));
                assert(ledger[entry.meta.name@] == ledger[name]);
                assert(entry.meta.name@ == name);
                assert(graph.nodes()[path[j]].migration.meta.name@ == name);
            }
            if name_set(graph, path).contains(name) {
                let j = choose|j: int|
                    0 <= j < path.len() && graph.nodes()[#[trigger] path[j]].migration.meta.name@
                        == name;
                let entry = graph.entries()[path[j]];
                assert(recorded(entry, ledger));
                assert(entry == graph.nodes()[path[j]].migration);
                assert(entry.id == Some(ledger[name]));
                assert(entry.status == MigrationStatus::Applied);
                lemma_keep_members(graph.nodes(), path, MigrationStatus::Applied, path[j]);
                assert(path.contains(path[j]));
                assert(steps.contains(path[j]));
                let k = choose|k: int| 0 <= k < steps.len() && steps[k] == path[j];
                assert(handles[k] == ledger[name]);
                assert(handles.contains(ledger[name]));
            }
        }
    }
    assert(left =~= right);
}

impl<M> RevisionGraph<M> {
    /// The place in the chain that an upward run ends at: the place of the
    /// target, or the head.
    pub open spec fn up_end(&self, to: Option<Seq<char>>) -> int {
        match to {
            Some(revision) => self.position(revision),
            None => self.chain().len() - 1,
        }
    }

    /// The place in the chain that a downward run stops above: the place of
    /// the target, or below the queue where no target is given.
    pub open spec fn down_end(&self, to: Option<Seq<char>>) -> int {
        match to {
            Some(revision) => self.position(revision),
            None => -1,
        }
    }

    /// The path of an upward run from the queue is the chain from the queue
    /// up to and including the target.
    #[verifier::rlimit(40)]
    pub proof fn lemma_up_path(&self, to: Option<Seq<char>>)
        requires
            self.wf(),
            to matches Some(revision) ==> self.known(revision),
        ensures
            0 <= self.up_end(to) < self.chain().len(),
            self.up_path(None, to) == self.chain().subrange(0, self.up_end(to) + 1),
            in_range(*self, self.up_path(None, to)),
    {
        self.lemma_chain();
        self.lemma_head_known();
    }

    /// The path of a downward run is the chain from the head down to, but not
    /// including, the target.
    #[verifier::rlimit(40)]
    pub proof fn lemma_down_path(&self, to: Option<Seq<char>>)
        requires
            self.wf(),
            to matches Some(revision) ==> self.known(revision),
        ensures
            -1 <= self.down_end(to) < self.chain().len(),
            self.down_path(to) == self.chain().subrange(
                self.down_end(to) + 1,
                self.chain().len() as int,
            ).reverse(),
            in_range(*self, self.down_path(to)),
    {
        self.lemma_chain();
        self.lemma_head_known();
        let chain = self.chain();
        let n = chain.len() as int;
        let low = self.down_end(to) + 1;
        let path = self.down_path(to);
        let tail = chain.subrange(low, n).reverse();
        assert(path.len() == tail.len());
        assert forall|k: int| 0 <= k < path.len() implies path[k] == tail[k] by {}
        assert(path =~= tail);
    }

    /// Up is monotone: after an upward run to a target, the ledger holds what
    /// it held before and the names of the migrations from the queue up to
    /// and including the target. Where it held nothing else before, it holds
    /// exactly those names.
    pub proof fn law_up_monotone(&self, ledger: Map<Seq<char>, Uuid>, to: Option<Seq<char>>)
        requires
            self.wf(),
            all_recorded(self.entries(), ledger),
            to matches Some(revision) ==> self.known(revision),
        ensures
            after_insert(ledger, names_at(self.nodes(), self.up_steps(None, to)))
                == ledger.dom().union(
                name_set(*self, self.chain().subrange(0, self.up_end(to) + 1)),
            ),
            ledger.dom().subset_of(name_set(*self, self.chain().subrange(0, self.up_end(to) + 1)))
                ==> after_insert(ledger, names_at(self.nodes(), self.up_steps(None, to)))
                == name_set(*self, self.chain().subrange(0, self.up_end(to) + 1)),
    {
        self.lemma_up_path(to);
        lemma_pending_complete(*self, ledger, self.up_path(None, to));
        let path_names = name_set(*self, self.chain().subrange(0, self.up_end(to) + 1));
        if ledger.dom().subset_of(path_names) {
            assert(ledger.dom().union(path_names) =~= path_names);
        }
    }

    /// Every step of a downward leg has its handle: in a graph whose entries
    /// agree with the ledger, an applied entry carries the handle of its
    /// record, so no downward step is refused for want of one.
    pub proof fn law_down_steps_have_handles(
        &self,
        ledger: Map<Seq<char>, Uuid>,
        to: Option<Seq<char>>,
        k: int,
    )
        requires
            self.wf(),
            all_recorded(self.entries(), ledger),
            to matches Some(revision) ==> self.known(revision),
            0 <= k < self.down_steps(to).len(),
        ensures
            0 <= self.down_steps(to)[k] < self.nodes().len(),
            self.nodes()[self.down_steps(to)[k]].migration.status == MigrationStatus::Applied,
            self.nodes()[self.down_steps(to)[k]].migration.id is Some,
    {
        self.lemma_down_path(to);
        let path = self.down_path(to);
        let steps = self.down_steps(to);
        let step = steps[k];
        assert(steps.contains(step));
        lemma_keep_members(self.nodes(), path, MigrationStatus::Applied, step);
        let j = choose|j: int| 0 <= j < path.len() && path[j] == step;
        assert(0 <= path[j] < self.nodes().len());
        let entry = self.entries()[step];
        assert(recorded(entry, ledger));
        assert(entry == self.nodes()[step].migration);
    }

    /// Down removes what lies beyond the target: after a downward run to a
    /// target, the ledger holds what it held before but for the names of the
    /// migrations from the head down to, and not including, the target.
    #[verifier::rlimit(40)]
    pub proof fn law_down(&self, ledger: Map<Seq<char>, Uuid>, to: Option<Seq<char>>)
        requires
            self.wf(),
            all_recorded(self.entries(), ledger),
            one_to_one(ledger),
            to matches Some(revision) ==> self.known(revision),
        ensures
            after_delete(ledger, handles_at(*self, self.down_steps(to))).dom()
                == ledger.dom().difference(
                name_set(
                    *self,
                    self.chain().subrange(self.down_end(to) + 1, self.chain().len() as int),
                ),
            ),
    {
        self.lemma_down_path(to);
        lemma_applied_removed(*self, ledger, self.down_path(to));
        let tail = self.chain().subrange(self.down_end(to) + 1, self.chain().len() as int);
        assert(name_set(*self, tail.reverse()) =~= name_set(*self, tail)) by {
            assert forall|name: Seq<char>|
                name_set(*self, tail.reverse()).contains(name) <==> name_set(*self, tail).contains(
                    name,
                ) by {
                lemma_name_set(*self, tail.reverse(), name);
                lemma_name_set(*self, tail, name);
                let back = tail.reverse();
                if name_set(*self, back).contains(name) {
                    let k = choose|k: int|
                        0 <= k < back.len() && self.nodes()[#[trigger] back[k]].migration.meta.name@
                            == name;
                    assert(back[k] == tail[tail.len() - 1 - k]);
                    assert(self.nodes()[tail[tail.len() - 1 - k]].migration.meta.name@ == name);
                }
                if name_set(*self, tail).contains(name) {
                    let k = choose|k: int|
                        0 <= k < tail.len() && self.nodes()[#[trigger] tail[k]].migration.meta.name@
                            == name;
                    assert(back[tail.len() - 1 - k] == tail[k]);
                    assert(self.nodes()[back[tail.len() - 1 - k]].migration.meta.name@ == name);
                }
            }
        }
    }

    /// With distinct names, the names of the chain fall into those below a
    /// place and those from the place on, and no name is on both sides.
    #[verifier::rlimit(40)]
    pub proof fn lemma_split_names(&self, place: int)
        requires
            self.wf(),
            distinct_names(*self),
            0 <= place <= self.chain().len(),
        ensures
            name_set(*self, self.chain()) == name_set(
                *self,
                self.chain().subrange(0, place),
            ).union(name_set(*self, self.chain().subrange(place, self.chain().len() as int))),
            name_set(*self, self.chain().subrange(0, place)).disjoint(
                name_set(*self, self.chain().subrange(place, self.chain().len() as int)),
            ),
    {
        let chain = self.chain();
        let n = chain.len() as int;
        let below = chain.subrange(0, place);
        let beyond = chain.subrange(place, n);
        let all = name_set(*self, chain);
        let low = name_set(*self, below);
        let high = name_set(*self, beyond);
        assert forall|name: Seq<char>| all.contains(name) <==> low.union(high).contains(name) by {
            lemma_name_set(*self, chain, name);
            lemma_name_set(*self, below, name);
            lemma_name_set(*self, beyond, name);
            if all.contains(name) {
                let k = choose|k: int|
                    0 <= k < chain.len() && self.nodes()[#[trigger] chain[k]].migration.meta.name@
                        == name;
                if k < place {
                    assert(below[k] == chain[k]);
                } else {
                    assert(beyond[k - place] == chain[k]);
                }
            }
            if low.contains(name) {
                let k = choose|k: int|
                    0 <= k < below.len() && self.nodes()[#[trigger] below[k]].migration.meta.name@
                        == name;
                assert(below[k] == chain[k]);
            }
            if high.contains(name) {
                let k = choose|k: int|
                    0 <= k < beyond.len() && self.nodes()[#[trigger] beyond[k]].migration.meta.name@
                        == name;
                assert(beyond[k] == chain[place + k]);
            }
        }
        assert(all =~= low.union(high));
        assert forall|name: Seq<char>| !(low.contains(name) && high.contains(name)) by {
            lemma_name_set(*self, below, name);
            lemma_name_set(*self, beyond, name);
            if low.contains(name) && high.contains(name) {
                let a = choose|k: int|
                    0 <= k < below.len() && self.nodes()[#[trigger] below[k]].migration.meta.name@
                        == name;
                let b = choose|k: int|
                    0 <= k < beyond.len() && self.nodes()[#[trigger] beyond[k]].migration.meta.name@
                        == name;
                assert(below[a] == chain[a]);
                assert(beyond[b] == chain[place + b]);
                self.lemma_names_apart(a, place + b);
            }
        }
    }

    /// Down is monotone: where the migrations have distinct names and the
    /// ledger holds the names of the migrations below a target and no others,
    /// a downward run to that target leaves exactly those names.
    #[verifier::rlimit(40)]
    pub proof fn law_down_monotone(&self, ledger: Map<Seq<char>, Uuid>, to: Seq<char>)
        requires
            self.wf(),
            all_recorded(self.entries(), ledger),
            one_to_one(ledger),
            distinct_names(*self),
            self.known(to),
            ledger.dom() == name_set(*self, self.chain().subrange(0, self.position(to))),
        ensures
            after_delete(ledger, handles_at(*self, self.down_steps(Some(to)))).dom() == name_set(
                *self,
                self.chain().subrange(0, self.position(to)),
            ),
    {
        self.law_down(ledger, Some(to));
        let chain = self.chain();
        let n = chain.len() as int;
        let t = self.position(to);
        self.lemma_split_names(t);
        self.lemma_split_names(t + 1);
        let below = name_set(*self, chain.subrange(0, t));
        let upto = name_set(*self, chain.subrange(0, t + 1));
        let from = name_set(*self, chain.subrange(t, n));
        let beyond = name_set(*self, chain.subrange(t + 1, n));
        assert forall|name: Seq<char>| below.contains(name) implies !beyond.contains(name) by {
            if beyond.contains(name) {
                assert(upto.union(beyond).contains(name));
                assert(below.union(from).contains(name));
                assert(from.contains(name) || below.contains(name));
                lemma_name_set(*self, chain.subrange(0, t), name);
                lemma_name_set(*self, chain.subrange(0, t + 1), name);
                let a = choose|k: int|
                    0 <= k < t && self.nodes()[#[trigger] chain.subrange(
                        0,
                        t,
                    )[k]].migration.meta.name@ == name;
                assert(chain.subrange(0, t + 1)[a] == chain.subrange(0, t)[a]);
                assert(upto.contains(name));
            }
        }
        assert(ledger.dom().difference(beyond) =~= ledger.dom());
    }

    /// Down keeps the target: where the migrations have distinct names and
    /// the ledger holds the name of every migration and no others, a downward
    /// run to a target leaves the names from the queue up to and including
    /// the target.
    pub proof fn law_down_keeps_target(&self, ledger: Map<Seq<char>, Uuid>, to: Seq<char>)
        requires
            self.wf(),
            all_recorded(self.entries(), ledger),
            one_to_one(ledger),
            distinct_names(*self),
            self.known(to),
            ledger.dom() == name_set(*self, self.chain()),
        ensures
            after_delete(ledger, handles_at(*self, self.down_steps(Some(to)))).dom() == name_set(
                *self,
                self.chain().subrange(0, self.position(to) + 1),
            ),
    {
        self.law_down(ledger, Some(to));
        let chain = self.chain();
        let n = chain.len() as int;
        let t = self.position(to);
        self.lemma_split_names(t + 1);
        let kept = name_set(*self, chain.subrange(0, t + 1));
        let beyond = name_set(*self, chain.subrange(t + 1, n));
        assert(kept.union(beyond).difference(beyond) =~= kept);
    }

    /// Down is monotone, whatever the ledger held: where the migrations have
    /// distinct names and no two names of the ledger share a handle, a
    /// downward run to a target adds nothing to the ledger, leaves in it no
    /// name of a migration beyond the target, and leaves every name that it
    /// held of the target or of a migration below it, and every name of no
    /// migration at all, under the handle that it had.
    #[verifier::rlimit(40)]
    pub proof fn law_down_effect(&self, ledger: Map<Seq<char>, Uuid>, to: Seq<char>)
        requires
            self.wf(),
            all_recorded(self.entries(), ledger),
            one_to_one(ledger),
            distinct_names(*self),
            self.known(to),
        ensures
            ({
                let left = after_delete(ledger, handles_at(*self, self.down_steps(Some(to))));
                &&& left.submap_of(ledger)
                &&& forall|k: int|
                    self.position(to) < k < self.chain().len() ==> !left.contains_key(
                        (#[trigger] self.at(k)).migration.meta.name@,
                    )
                &&& forall|k: int|
                    0 <= k <= self.position(to) && ledger.contains_key(
                        (#[trigger] self.at(k)).migration.meta.name@,
                    ) ==> left.contains_key(self.at(k).migration.meta.name@)
                &&& forall|name: Seq<char>|
                    ledger.contains_key(name) && !name_set(*self, self.chain()).contains(name)
                        ==> #[trigger] left.contains_key(name)
            }),
    {
        self.law_down(ledger, Some(to));
        self.lemma_chain();
        let chain = self.chain();
        let n = chain.len() as int;
        let t = self.position(to);
        self.lemma_split_names(t + 1);
        let kept = chain.subrange(0, t + 1);
        let beyond = chain.subrange(t + 1, n);
        let left = after_delete(ledger, handles_at(*self, self.down_steps(Some(to))));
        assert forall|k: int| t < k < n implies !left.contains_key(
            (#[trigger] self.at(k)).migration.meta.name@,
        ) by {
            let name = self.at(k).migration.meta.name@;
            lemma_name_set(*self, beyond, name);
            assert(self.nodes()[beyond[k - t - 1]].migration.meta.name@ == name);
            assert(name_set(*self, beyond).contains(name));
            assert(!left.dom().contains(name));
        }
        assert forall|k: int|
            0 <= k <= t && ledger.contains_key(
                (#[trigger] self.at(k)).migration.meta.name@,
            ) implies left.contains_key(self.at(k).migration.meta.name@) by {
            let name = self.at(k).migration.meta.name@;
            lemma_name_set(*self, kept, name);
            assert(self.nodes()[kept[k]].migration.meta.name@ == name);
            assert(name_set(*self, kept).contains(name));
            assert(!name_set(*self, beyond).contains(name));
            assert(left.dom().contains(name));
        }
        assert forall|name: Seq<char>|
            ledger.contains_key(name) && !name_set(*self, chain).contains(
                name,
            ) implies #[trigger] left.contains_key(name) by {
            assert(!name_set(*self, beyond).contains(name));
            assert(left.dom().contains(name));
        }
    }

    /// With distinct names, two places of the chain carry two names.
    pub proof fn lemma_names_apart(&self, a: int, b: int)
        requires
            self.wf(),
            distinct_names(*self),
            0 <= a < self.chain().len(),
            0 <= b < self.chain().len(),
            a != b,
        ensures
            self.at(a).migration.meta.name@ != self.at(b).migration.meta.name@,
    {
        self.lemma_chain();
        let chain = self.chain();
        let i = chain[a];
        let j = chain[b];
        if a < b {
            assert(chain[a] != chain[b]);
        } else {
            assert(chain[b] != chain[a]);
        }
        if i < j {
            assert(self.nodes()[i].migration.meta.name@ != self.nodes()[j].migration.meta.name@);
        } else {
            assert(self.nodes()[j].migration.meta.name@ != self.nodes()[i].migration.meta.name@);
        }
    }

    /// Refresh composition: where the ledger holds no names but those of the
    /// declared migrations, a refresh leaves in it the names that an upward
    /// run of the same migrations leaves in an empty ledger.
    #[verifier::rlimit(40)]
    pub proof fn law_refresh(&self, ledger: Map<Seq<char>, Uuid>, fresh: RevisionGraph<M>)
        requires
            self.wf(),
            all_recorded(self.entries(), ledger),
            ledger.dom().subset_of(name_set(*self, self.chain())),
            fresh.wf(),
            same_declarations(fresh.entries(), self.entries()),
            all_recorded(fresh.entries(), Map::<Seq<char>, Uuid>::empty()),
        ensures
            after_insert(
                after_delete(ledger, handles_at(*self, self.down_steps(None))),
                names_at(self.nodes(), self.chain()),
            ) == after_insert(
                Map::<Seq<char>, Uuid>::empty(),
                names_at(fresh.nodes(), fresh.up_steps(None, None)),
            ),
            after_insert(
                after_delete(ledger, handles_at(*self, self.down_steps(None))),
                names_at(self.nodes(), self.chain()),
            ) == name_set(*self, self.chain()),
    {
        self.lemma_chain();
        fresh.lemma_chain();
        self.lemma_links();
        fresh.lemma_links();
        let chain = self.chain();
        let n = chain.len() as int;
        assert(chain.subrange(0, n) == chain);
        let emptied = after_delete(ledger, handles_at(*self, self.down_steps(None)));
        let all = name_set(*self, chain);
        assert(emptied.dom().subset_of(ledger.dom()));
        assert(after_insert(emptied, names_at(self.nodes(), chain)) =~= all);
        // The fresh graph has the same chain and the same names.
        assert(links_of(fresh.entries()) =~= links_of(self.entries()));
        lemma_chain_unique(self.links(), chain, fresh.chain());
        fresh.lemma_up_path(None);
        assert(fresh.chain().subrange(0, n) == fresh.chain());
        assert forall|k: int| 0 <= k < fresh.chain().len() implies fresh.nodes()[
        #[trigger] fresh.chain()[k]].migration.status == MigrationStatus::Pending by {
            let entry = fresh.entries()[fresh.chain()[k]];
            assert(recorded(entry, Map::<Seq<char>, Uuid>::empty()));
            assert(entry == fresh.nodes()[fresh.chain()[k]].migration);
        }
        lemma_keep_all(fresh.nodes(), fresh.chain(), MigrationStatus::Pending);
        assert(names_at(fresh.nodes(), fresh.chain()) =~= names_at(self.nodes(), chain)) by {
            assert forall|k: int| 0 <= k < chain.len() implies names_at(
                fresh.nodes(),
                fresh.chain(),
            )[k] == names_at(self.nodes(), chain)[k] by {
                let i = chain[k];
                assert(fresh.entries()[i].meta == self.entries()[i].meta);
                assert(fresh.entries()[i] == fresh.nodes()[i].migration);
                assert(self.entries()[i] == self.nodes()[i].migration);
            }
        }
        assert(after_insert(
            Map::<Seq<char>, Uuid>::empty(),
            names_at(fresh.nodes(), fresh.up_steps(None, None)),
        ) =~= all);
    }
}

impl<M> Driver<M> {
    /// What an upward run writes: when the driver of an upward run from the
    /// queue asks for the update of the ledger, the names it hands over are
    /// those that the ledger, as the run read it, lacks of the migrations
    /// from the queue up to and including the target.
    pub proof fn law_up_writes(&self, action: Action)
        requires
            self.wf(),
            self.phase() is Writing,
            self.direction() == Direction::Up,
            self.from() is None,
            self.awaits(action),
        ensures
            action matches Action::Insert(names) && after_insert(self.ledger(), views(names@))
                == self.ledger().dom().union(
                name_set(
                    self.graph()->0,
                    self.graph()->0.chain().subrange(0, self.graph()->0.up_end(self.to()) + 1),
                ),
            ),
    {
        self.lemma_progress();
        let graph = self.graph()->0;
        graph.law_up_monotone(self.ledger(), self.to());
    }

    /// What a downward run writes: when the driver of a downward run asks
    /// for the update of the ledger, the handles it hands over are those of
    /// the records of the migrations from the head down to, and not
    /// including, the target.
    pub proof fn law_down_writes(&self, action: Action)
        requires
            self.wf(),
            self.phase() is Writing,
            self.direction() == Direction::Down,
            one_to_one(self.ledger()),
            self.awaits(action),
        ensures
            action matches Action::Delete(handles) && after_delete(self.ledger(), handles@).dom()
                == self.ledger().dom().difference(
                name_set(
                    self.graph()->0,
                    self.graph()->0.chain().subrange(
                        self.graph()->0.down_end(self.to()) + 1,
                        self.graph()->0.chain().len() as int,
                    ),
                ),
            ),
    {
        self.lemma_progress();
        let graph = self.graph()->0;
        graph.law_down(self.ledger(), self.to());
    }

    /// What a refresh writes: on its downward leg the driver hands over the
    /// handles of the records of every declared migration, and on its upward
    /// leg the name of every declared migration, from the queue to the head.
    pub proof fn law_refresh_writes(&self, action: Action)
        requires
            self.wf(),
            self.phase() is Writing,
            self.direction() == Direction::Refresh,
            one_to_one(self.ledger()),
            self.awaits(action),
        ensures
            self.progress().leg == Leg::Down ==> (action matches Action::Delete(handles)
                && after_delete(self.ledger(), handles@).dom() == self.ledger().dom().difference(
                name_set(self.graph()->0, self.graph()->0.chain()),
            )),
            self.progress().leg == Leg::Up ==> (action matches Action::Insert(names) && views(
                names@,
            ) == names_at(self.graph()->0.nodes(), self.graph()->0.chain())),
    {
        self.lemma_progress();
        let graph = self.graph()->0;
        if self.progress().leg == Leg::Down {
            graph.law_down(self.ledger(), None);
            let chain = graph.chain();
            assert(chain.subrange(0, chain.len() as int) == chain);
        }
    }
}

impl<M> Driver<M> {
    /// Up is monotone: once an upward run from the queue has finished, the
    /// ledger holds what the run read in it and the names of the migrations
    /// from the queue up to and including the target; and exactly those names
    /// where it held no others before.
    pub proof fn law_up_completes(&self)
        requires
            self.wf(),
            self.phase() is Finished,
            self.direction() == Direction::Up,
            self.from() is None,
        ensures
            self.store() == self.ledger().dom().union(
                name_set(
                    self.graph()->0,
                    self.graph()->0.chain().subrange(0, self.graph()->0.up_end(self.to()) + 1),
                ),
            ),
            self.ledger().dom().subset_of(
                name_set(
                    self.graph()->0,
                    self.graph()->0.chain().subrange(0, self.graph()->0.up_end(self.to()) + 1),
                ),
            ) ==> self.store() == name_set(
                self.graph()->0,
                self.graph()->0.chain().subrange(0, self.graph()->0.up_end(self.to()) + 1),
            ),
    {
        self.lemma_progress();
        let graph = self.graph()->0;
        graph.law_up_monotone(self.ledger(), self.to());
    }

    /// Down removes what lies beyond the target: once a downward run has
    /// finished, the ledger holds what the run read in it, but for the names
    /// of the migrations from the head down to, and not including, the
    /// target.
    pub proof fn law_down_completes(&self)
        requires
            self.wf(),
            self.phase() is Finished,
            self.direction() == Direction::Down,
            one_to_one(self.ledger()),
        ensures
            self.store() == self.ledger().dom().difference(
                name_set(
                    self.graph()->0,
                    self.graph()->0.chain().subrange(
                        self.graph()->0.down_end(self.to()) + 1,
                        self.graph()->0.chain().len() as int,
                    ),
                ),
            ),
    {
        self.lemma_progress();
        let graph = self.graph()->0;
        graph.law_down(self.ledger(), self.to());
    }

    /// Down is monotone, whatever the ledger held: once a downward run to a
    /// target has finished, over migrations with distinct names and on a
    /// ledger in which no two names shared a handle, the ledger holds no name
    /// that the run did not read in it, no name of a migration beyond the
    /// target, and every name that the run read of the target or of a
    /// migration below it. What is left was not deleted: it stands under the
    /// handle that it had.
    pub proof fn law_down_run(&self)
        requires
            self.wf(),
            self.phase() is Finished,
            self.direction() == Direction::Down,
            self.to() is Some,
            one_to_one(self.ledger()),
            distinct_names(self.graph()->0),
        ensures
            self.graph()->0.known(self.to()->0),
            self.store() == after_delete(
                self.ledger(),
                handles_at(self.graph()->0, self.graph()->0.down_steps(self.to())),
            ).dom(),
            after_delete(
                self.ledger(),
                handles_at(self.graph()->0, self.graph()->0.down_steps(self.to())),
            ).submap_of(self.ledger()),
            self.store().subset_of(self.ledger().dom()),
            forall|k: int|
                self.graph()->0.position(self.to()->0) < k < self.graph()->0.chain().len()
                    ==> !self.store().contains(
                    (#[trigger] self.graph()->0.at(k)).migration.meta.name@,
                ),
            forall|k: int|
                0 <= k <= self.graph()->0.position(self.to()->0) && self.ledger().contains_key(
                    (#[trigger] self.graph()->0.at(k)).migration.meta.name@,
                ) ==> self.store().contains(self.graph()->0.at(k).migration.meta.name@),
    {
        self.lemma_progress();
        let graph = self.graph()->0;
        graph.law_down_effect(self.ledger(), self.to()->0);
        let left = after_delete(self.ledger(), handles_at(graph, graph.down_steps(self.to())));
        assert forall|k: int|
            graph.position(self.to()->0) < k < graph.chain().len() implies !self.store().contains(
            (#[trigger] graph.at(k)).migration.meta.name@,
        ) by {
            assert(!left.contains_key(graph.at(k).migration.meta.name@));
        }
        assert forall|k: int|
            0 <= k <= graph.position(self.to()->0) && self.ledger().contains_key(
                (#[trigger] graph.at(k)).migration.meta.name@,
            ) implies self.store().contains(graph.at(k).migration.meta.name@) by {
            assert(left.contains_key(graph.at(k).migration.meta.name@));
        }
    }

    /// Refresh composition: once a refresh has finished on a ledger that held
    /// no names but those of declared migrations, the ledger holds what an
    /// upward run of the same migrations, finished on an empty ledger, leaves
    /// in that ledger. And where no two names of the ledger shared a handle,
    /// it holds what the run read in it and the name of every declared
    /// migration.
    pub proof fn law_refresh_completes(&self, fresh: Driver<M>)
        requires
            self.wf(),
            self.phase() is Finished,
            self.direction() == Direction::Refresh,
            fresh.wf(),
            fresh.phase() is Finished,
            fresh.direction() == Direction::Up,
            fresh.from() is None,
            fresh.to() is None,
            fresh.ledger() == Map::<Seq<char>, Uuid>::empty(),
            same_declarations(fresh.graph()->0.entries(), self.graph()->0.entries()),
        ensures
            self.ledger().dom().subset_of(name_set(self.graph()->0, self.graph()->0.chain()))
                ==> self.store() == fresh.store(),
            one_to_one(self.ledger()) ==> self.store() == self.ledger().dom().union(
                name_set(self.graph()->0, self.graph()->0.chain()),
            ),
    {
        self.lemma_progress();
        fresh.lemma_progress();
        let graph = self.graph()->0;
        let other = fresh.graph()->0;
        let ledger = self.ledger();
        let chain = graph.chain();
        let all = name_set(graph, chain);
        graph.lemma_chain();
        assert(chain.subrange(0, chain.len() as int) == chain);
        if one_to_one(ledger) {
            graph.law_down(ledger, None);
            assert(self.store() =~= ledger.dom().union(all));
        }
        if ledger.dom().subset_of(all) {
            graph.law_refresh(ledger, other);
        }
    }

    /// A failure writes nothing: when the driver is told that the work it
    /// waited for has failed, the run stops, and the ledger holds what it
    /// held before.
    pub proof fn law_failure_writes_nothing(&self, next: Driver<M>)
        requires
            self.follows(Event::Failed, next),
        ensures
            next.over(),
            next.store() == self.store(),
    {
    }
}

} // verus!
