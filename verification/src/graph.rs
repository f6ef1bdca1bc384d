//! The revision graph: the declared migrations linked into one chain by
//! their parent pointers, with the walks that the migrator needs.

use crate::chain::{
    is_chain, is_linear, lemma_chain_ends, lemma_chain_no_branch, lemma_chain_resolves,
    lemma_order_covers, first_unresolved, unique_revisions, unresolved_at, Link,
};
use crate::children::{child_list, children_first, children_new, children_push};
use crate::index::{index_entries, index_get, index_insert, index_new};
use crate::migrator::Migration;
use crate::revision::opt_view;
use crate::text::joined;
use rustc_hash::FxBuildHasher;
use std::collections::HashMap;
use tinyvec::ArrayVec;
use uuid::Uuid;
use vstd::prelude::*;

verus! {

/// Why a graph could not be built or walked.
#[derive(Debug)]
pub enum RevisionGraphError {
    /// The named thing is not in the graph: `head` where the declarations do
    /// not form one chain, else a revision identifier or a migration's name.
    NotFound(String),
}

impl RevisionGraphError {
    /// What was not found.
    pub open spec fn subject(self) -> Seq<char> {
        match self {
            RevisionGraphError::NotFound(what) => what@,
        }
    }

    /// The error as a sentence.
    pub fn to_string(&self) -> (text: String)
        ensures
            text@ == self.subject() + " not found"@,
    {
        match self {
            RevisionGraphError::NotFound(what) => joined(what.as_str(), " not found"),
        }
    }
}

/// One node of the graph.
#[derive(Debug)]
pub struct Node<M> {
    /// The revision identifier.
    pub revision: String,
    /// The positions of the nodes that name this one as their parent.
    pub children: ArrayVec<[usize; 4]>,
    /// The migration declared under this revision.
    pub migration: Migration<M>,
    /// The position of the parent node.
    pub parent: Option<usize>,
}

/// The places in the chain that a list of entries declares.
pub open spec fn links_of<M>(entries: Seq<Migration<M>>) -> Seq<Link> {
    entries.map_values(|entry: Migration<M>| entry.link())
}

/// What a failed construction reports as not found: the parent that the first
/// dangling declaration names, where the revisions are unique and some parent
/// dangles; `head` in every other case.
pub open spec fn failure_subject(links: Seq<Link>) -> Seq<char> {
    if unique_revisions(links) && first_unresolved(links) is Some {
        links[first_unresolved(links)->0].down->0
    } else {
        "head"@
    }
}

/// The declared migrations as an arena of nodes in insertion order, linked by
/// position. A graph only exists for declarations that form one simple chain.
pub struct RevisionGraph<M> {
    nodes: Vec<Node<M>>,
    index: HashMap<String, usize, FxBuildHasher>,
    head_ix: usize,
    queue_ix: usize,
    chain: Ghost<Seq<int>>,
    rank: Ghost<Seq<int>>,
}

#[verifier::opaque]
spec fn parents_ok(links: Seq<Link>, parents: Seq<Option<usize>>, upto: int) -> bool {
    forall|a: int|
        0 <= a < upto ==> match #[trigger] parents[a] {
            None => links[a].down is None,
            Some(p) => p < links.len() && links[a].down == Some(links[p as int].revision),
        }
}

#[verifier::opaque]
spec fn children_ok(parents: Seq<Option<usize>>, child_of: Seq<Option<usize>>, upto: int) -> bool {
    &&& forall|p: int|
        0 <= p < child_of.len() ==> match #[trigger] child_of[p] {
            None => true,
            Some(c) => c < upto && parents[c as int] == Some(p as usize),
        }
    &&& forall|c: int|
        0 <= c < upto ==> match #[trigger] parents[c] {
            None => true,
            Some(p) => child_of[p as int] == Some(c as usize),
        }
}

proof fn lemma_parent_link(links: Seq<Link>, parents: Seq<Option<usize>>, upto: int, a: int)
    requires
        parents_ok(links, parents, upto),
        0 <= a < upto,
    ensures
        match parents[a] {
            None => links[a].down is None,
            Some(p) => p < links.len() && links[a].down == Some(links[p as int].revision),
        },
{
    reveal(parents_ok);
}

proof fn lemma_child_names_parent(
    parents: Seq<Option<usize>>,
    child_of: Seq<Option<usize>>,
    upto: int,
    p: int,
)
    requires
        children_ok(parents, child_of, upto),
        0 <= p < child_of.len(),
        child_of[p] is Some,
    ensures
        child_of[p]->0 < upto,
        parents[child_of[p]->0 as int] == Some(p as usize),
{
    reveal(children_ok);
}

proof fn lemma_parent_records_child(
    parents: Seq<Option<usize>>,
    child_of: Seq<Option<usize>>,
    upto: int,
    c: int,
)
    requires
        children_ok(parents, child_of, upto),
        0 <= c < upto,
        parents[c] is Some,
    ensures
        child_of[parents[c]->0 as int] == Some(c as usize),
{
    reveal(children_ok);
}

/// A walk along the recorded children follows the declared parent pointers.
proof fn lemma_walk_is_linked(links: Seq<Link>, parents: Seq<Option<usize>>, visited: Seq<int>)
    requires
        parents.len() == links.len(),
        links.len() <= usize::MAX,
        parents_ok(links, parents, links.len() as int),
        1 <= visited.len() <= links.len(),
        forall|k: int| 0 <= k < visited.len() ==> 0 <= #[trigger] visited[k] < links.len(),
        parents[visited[0]] is None,
        forall|k: int|
            1 <= k < visited.len() ==> parents[#[trigger] visited[k]] == Some(
                visited[k - 1] as usize,
            ),
    ensures
        linked_path(links, visited),
{
    lemma_parent_link(links, parents, links.len() as int, visited[0]);
    assert forall|k: int| 1 <= k < visited.len() implies (#[trigger] links[visited[k]]).down
        == Some(links[visited[k - 1]].revision) by {
        lemma_parent_link(links, parents, links.len() as int, visited[k]);
        assert(parents[visited[k]] == Some(visited[k - 1] as usize));
    }
}

/// A node that the walk has not yet passed cannot be among the visited ones.
proof fn lemma_walk_stays_fresh(parents: Seq<Option<usize>>, visited: Seq<int>, next: int)
    requires
        visited.len() >= 1,
        parents[visited[0]] is None,
        forall|k: int|
            1 <= k < visited.len() ==> parents[#[trigger] visited[k]] == Some(
                visited[k - 1] as usize,
            ),
        forall|k: int| 0 <= k < visited.len() ==> 0 <= #[trigger] visited[k] <= usize::MAX,
        forall|j: int, k: int| 0 <= j < k < visited.len() ==> visited[j] != visited[k],
        parents[next] == Some(visited[visited.len() - 1] as usize),
    ensures
        forall|j: int| 0 <= j < visited.len() ==> visited[j] != next,
{
    assert forall|j: int| 0 <= j < visited.len() implies visited[j] != next by {
        if visited[j] == next {
            if j >= 1 {
                assert(parents[visited[j]] == Some(visited[j - 1] as usize));
                assert(visited[j - 1] == visited[visited.len() - 1]);
            }
        }
    }
}

/// `path` starts at a declaration without parent, and each further element
/// names the one before it as its parent.
spec fn linked_path(links: Seq<Link>, path: Seq<int>) -> bool {
    &&& 1 <= path.len() <= links.len()
    &&& forall|k: int| 0 <= k < path.len() ==> 0 <= #[trigger] path[k] < links.len()
    &&& links[path[0]].down is None
    &&& forall|k: int|
        1 <= k < path.len() ==> (#[trigger] links[path[k]]).down == Some(
            links[path[k - 1]].revision,
        )
}

proof fn lemma_path_follows_chain(links: Seq<Link>, path: Seq<int>, order: Seq<int>, k: int)
    requires
        unique_revisions(links),
        is_chain(links, order),
        linked_path(links, path),
        0 <= k < path.len(),
    ensures
        path[k] == order[k],
    decreases k,
{
    if k == 0 {
        lemma_chain_ends(links, order, path[0]);
    } else {
        lemma_path_follows_chain(links, path, order, k - 1);
        assert(links[path[k]].down == Some(links[path[k - 1]].revision));
        assert(links[order[k]].down == Some(links[order[k - 1]].revision));
        if path[k] != order[k] {
            lemma_chain_no_branch(links, order, path[k], order[k]);
        }
    }
}

/// A walk that stops early, on a node that nobody names as parent, shows that
/// the declarations form no chain.
proof fn lemma_short_walk(
    links: Seq<Link>,
    parents: Seq<Option<usize>>,
    child_of: Seq<Option<usize>>,
    path: Seq<int>,
)
    requires
        unique_revisions(links),
        parents.len() == links.len(),
        child_of.len() == links.len(),
        parents_ok(links, parents, links.len() as int),
        children_ok(parents, child_of, links.len() as int),
        linked_path(links, path),
        path.len() < links.len(),
        child_of[path[path.len() - 1]] is None,
    ensures
        !is_linear(links),
{
    if is_linear(links) {
        let order = choose|order: Seq<int>| is_chain(links, order);
        let last = path.len() - 1;
        lemma_path_follows_chain(links, path, order, last);
        let next = order[last + 1];
        assert(links[order[last + 1]].down == Some(links[order[last]].revision));
        lemma_parent_link(links, parents, links.len() as int, next);
        assert(parents[next] is Some);
        let p = parents[next]->0;
        assert(links[p as int].revision == links[path[last]].revision);
        assert(p == path[last]);
        lemma_parent_records_child(parents, child_of, links.len() as int, next);
    }
}

/// The index holds exactly the declared revisions, each under its position.
#[verifier::opaque]
spec fn index_matches(entries: Map<Seq<char>, usize>, links: Seq<Link>, upto: int) -> bool {
    &&& forall|a: int|
        0 <= a < upto ==> entries.contains_key((#[trigger] links[a]).revision)
            && entries[links[a].revision] == a
    &&& forall|key: Seq<char>| #[trigger]
        entries.contains_key(key) ==> entries[key] < upto && links[entries[key] as int].revision
            == key
}

/// Without a dangling parent among unique revisions, a failure names the head.
proof fn lemma_failure_names_head(links: Seq<Link>)
    requires
        !unique_revisions(links) || first_unresolved(links) is None,
    ensures
        failure_subject(links) == "head"@,
{
}

/// The kind of error that construction reports for declarations that form no
/// chain without a dangling parent.
fn no_head() -> (error: RevisionGraphError)
    ensures
        error.subject() == "head"@,
{
    RevisionGraphError::NotFound("head".to_string())
}

/// First pass of the construction: the index from revision to position.
/// Nothing is returned where a revision occurs twice.
#[verifier::rlimit(40)]
fn build_index<M>(migrations: &Vec<Migration<M>>) -> (index: Option<
    HashMap<String, usize, FxBuildHasher>,
>)
    ensures
        match index {
            Some(index) => unique_revisions(links_of(migrations@)) && index_matches(
                index_entries(index),
                links_of(migrations@),
                migrations@.len() as int,
            ),
            None => !unique_revisions(links_of(migrations@)),
        },
{
    let ghost links = links_of(migrations@);
    let n = migrations.len();
    let mut index = index_new(n);
    proof {
        reveal(index_matches);
    }
    let mut i: usize = 0;
    while i < n
        invariant
            n == migrations@.len(),
            links == links_of(migrations@),
            i <= n,
            forall|a: int, b: int| 0 <= a < b < i ==> links[a].revision != links[b].revision,
            index_matches(index_entries(index), links, i as int),
        decreases n - i,
    {
        proof {
            reveal(index_matches);
        }
        let revision = &migrations[i].meta.revision;
        assert(revision@ == links[i as int].revision);
        if index_get(&index, revision.as_str()).is_some() {
            proof {
                let a = index_entries(index)[revision@] as int;
                assert(links[a].revision == links[i as int].revision);
            }
            return None;
        }
        index_insert(&mut index, revision.clone(), i);
        i = i + 1;
    }
    Some(index)
}

/// Second pass: the position of each node's parent. Where a declared parent
/// is not declared itself, the position of the first such declaration comes
/// back as the error.
#[verifier::rlimit(40)]
fn resolve_parents<M>(
    migrations: &Vec<Migration<M>>,
    index: &HashMap<String, usize, FxBuildHasher>,
) -> (result: Result<Vec<Option<usize>>, usize>)
    requires
        index_matches(index_entries(*index), links_of(migrations@), migrations@.len() as int),
    ensures
        match result {
            Ok(parents) => {
                &&& parents@.len() == migrations@.len()
                &&& parents_ok(links_of(migrations@), parents@, migrations@.len() as int)
                &&& first_unresolved(links_of(migrations@)) is None
            },
            Err(at) => {
                &&& at < migrations@.len()
                &&& migrations@[at as int].meta.down_revision is Some
                &&& first_unresolved(links_of(migrations@)) == Some(at as int)
                &&& !is_linear(links_of(migrations@))
            },
        },
{
    let ghost links = links_of(migrations@);
    let n = migrations.len();
    let mut parents: Vec<Option<usize>> = Vec::new();
    assert(parents_ok(links, parents@, 0)) by {
        reveal(parents_ok);
    }
    let mut i: usize = 0;
    while i < n
        invariant
            n == migrations@.len(),
            links == links_of(migrations@),
            i <= n,
            parents@.len() == i,
            forall|a: int| 0 <= a < i ==> !unresolved_at(links, a),
            parents_ok(links, parents@, i as int),
            index_matches(index_entries(*index), links, n as int),
        decreases n - i,
    {
        let ghost before = parents@;
        proof {
            reveal(index_matches);
        }
        match &migrations[i].meta.down_revision {
            None => {
                assert(links[i as int].down is None);
                parents.push(None);
            },
            Some(parent) => {
                assert(links[i as int].down == Some(parent@));
                match index_get(index, parent.as_str()) {
                    None => {
                        proof {
                            assert(!crate::chain::resolves(links, parent@)) by {
                                if crate::chain::resolves(links, parent@) {
                                    let j = choose|j: int|
                                        0 <= j < links.len() && #[trigger] links[j].revision
                                            == parent@;
                                    assert(index_entries(*index).contains_key(links[j].revision));
                                }
                            }
                            assert(unresolved_at(links, i as int));
                            if is_linear(links) {
                                let order = choose|order: Seq<int>| is_chain(links, order);
                                lemma_chain_resolves(links, order, i as int);
                            }
                        }
                        return Err(i);
                    },
                    Some(p) => {
                        parents.push(Some(p));
                    },
                }
            },
        }
        proof {
            reveal(parents_ok);
            assert forall|a: int| 0 <= a < i + 1 implies match #[trigger] parents@[a] {
                None => links[a].down is None,
                Some(p) => p < links.len() && links[a].down == Some(links[p as int].revision),
            } by {
                if a < i {
                    assert(parents@[a] == before[a]);
                }
            }
        }
        i = i + 1;
    }
    proof {
        assert forall|a: int| !unresolved_at(links, a) by {}
    }
    Ok(parents)
}

/// Third pass: the child of each node. Nothing is returned where a node is
/// named as parent twice.
#[verifier::rlimit(40)]
fn record_children(parents: &Vec<Option<usize>>, Ghost(links): Ghost<Seq<Link>>) -> (child_of:
    Option<Vec<Option<usize>>>)
    requires
        parents@.len() == links.len(),
        unique_revisions(links),
        parents_ok(links, parents@, links.len() as int),
    ensures
        match child_of {
            Some(child_of) => child_of@.len() == links.len() && children_ok(
                parents@,
                child_of@,
                links.len() as int,
            ),
            None => !is_linear(links),
        },
{
    let n = parents.len();
    let mut child_of: Vec<Option<usize>> = Vec::new();
    let mut i: usize = 0;
    while i < n
        invariant
            i <= n,
            child_of@.len() == i,
            forall|p: int| 0 <= p < i ==> child_of@[p] is None,
        decreases n - i,
    {
        child_of.push(None);
        i = i + 1;
    }
    assert(children_ok(parents@, child_of@, 0)) by {
        reveal(children_ok);
    }
    let mut i: usize = 0;
    while i < n
        invariant
            n == links.len(),
            i <= n,
            parents@.len() == n,
            child_of@.len() == n,
            unique_revisions(links),
            parents_ok(links, parents@, n as int),
            children_ok(parents@, child_of@, i as int),
        decreases n - i,
    {
        let ghost before = child_of@;
        proof {
            lemma_parent_link(links, parents@, n as int, i as int);
        }
        match parents[i] {
            None => {
                proof {
                    reveal(children_ok);
                }
            },
            Some(p) => {
                match child_of[p] {
                    Some(other) => {
                        proof {
                            lemma_child_names_parent(parents@, child_of@, i as int, p as int);
                            lemma_parent_link(links, parents@, n as int, other as int);
                            assert(links[other as int].down == links[i as int].down);
                            if is_linear(links) {
                                let order = choose|order: Seq<int>| is_chain(links, order);
                                lemma_chain_no_branch(links, order, i as int, other as int);
                            }
                        }
                        return None;
                    },
                    None => {
                        child_of.set(p, Some(i));
                        proof {
                            reveal(children_ok);
                            assert forall|q: int| 0 <= q < child_of@.len() implies match 
                            #[trigger] child_of@[q] {
                                None => true,
                                Some(c) => c < i + 1 && parents@[c as int] == Some(q as usize),
                            } by {
                                if q != p {
                                    assert(child_of@[q] == before[q]);
                                }
                            }
                            assert forall|c: int| 0 <= c < i + 1 implies match #[trigger] parents@[c] {
                                None => true,
                                Some(q) => child_of@[q as int] == Some(c as usize),
                            } by {
                                lemma_parent_link(links, parents@, n as int, c);
                                if c < i {
                                    if parents@[c] is Some {
                                        let q = parents@[c]->0;
                                        assert(before[q as int] == Some(c as usize));
                                        assert(q != p);
                                    }
                                }
                            }
                        }
                    },
                }
            },
        }
        i = i + 1;
    }
    Some(child_of)
}

/// What the walk from the root finds: the root, the head, and the order in
/// which it passed the nodes.
struct Walk {
    root: usize,
    head: usize,
    order: Ghost<Seq<int>>,
}

/// The positions along a walk are neighbours in the recorded parent and child
/// tables.
#[verifier::opaque]
spec fn walk_links(parents: Seq<Option<usize>>, child_of: Seq<Option<usize>>, order: Seq<int>) -> bool {
    &&& forall|k: int|
        0 <= k < order.len() ==> parents[#[trigger] order[k]] == (if k == 0 {
            None
        } else {
            Some(order[k - 1] as usize)
        })
    &&& forall|k: int|
        0 <= k < order.len() ==> child_of[#[trigger] order[k]] == (if k == order.len() - 1 {
            None
        } else {
            Some(order[k + 1] as usize)
        })
}

/// Last pass: finds the root and follows the children from it. The walk has
/// to pass through every node; nothing is returned where it does not.
#[verifier::rlimit(40)]
fn walk_chain(
    parents: &Vec<Option<usize>>,
    child_of: &Vec<Option<usize>>,
    Ghost(links): Ghost<Seq<Link>>,
) -> (walk: Option<Walk>)
    requires
        links.len() >= 1,
        parents@.len() == links.len(),
        child_of@.len() == links.len(),
        unique_revisions(links),
        parents_ok(links, parents@, links.len() as int),
        children_ok(parents@, child_of@, links.len() as int),
    ensures
        match walk {
            Some(walk) => {
                &&& is_chain(links, walk.order@)
                &&& walk.root == walk.order@[0]
                &&& walk.head == walk.order@[links.len() - 1]
                &&& walk_links(parents@, child_of@, walk.order@)
            },
            None => !is_linear(links),
        },
{
    let n = parents.len();
    let mut root: usize = 0;
    while root < n && parents[root].is_some()
        invariant
            n == parents@.len(),
            root <= n,
            forall|a: int| 0 <= a < root ==> (#[trigger] parents@[a]) is Some,
        decreases n - root,
    {
        root = root + 1;
    }
    if root == n {
        proof {
            if is_linear(links) {
                let order = choose|order: Seq<int>| is_chain(links, order);
                lemma_parent_link(links, parents@, n as int, order[0]);
                assert(parents@[order[0]] is Some);
            }
        }
        return None;
    }
    let ghost mut visited: Seq<int> = seq![root as int];
    let mut current = root;
    let mut count: usize = 1;
    while count < n
        invariant
            n == links.len(),
            1 <= count <= n,
            root < n,
            current < n,
            parents@.len() == n,
            child_of@.len() == n,
            unique_revisions(links),
            parents_ok(links, parents@, n as int),
            children_ok(parents@, child_of@, n as int),
            visited.len() == count,
            visited[0] == root,
            visited[count - 1] == current,
            parents@[root as int] is None,
            forall|k: int| 0 <= k < count ==> 0 <= #[trigger] visited[k] < n,
            forall|k: int|
                1 <= k < count ==> parents@[#[trigger] visited[k]] == Some(visited[k - 1] as usize),
            forall|j: int, k: int| 0 <= j < k < count ==> visited[j] != visited[k],
        decreases n - count,
    {
        match child_of[current] {
            None => {
                proof {
                    lemma_walk_is_linked(links, parents@, visited);
                    lemma_short_walk(links, parents@, child_of@, visited);
                }
                return None;
            },
            Some(next) => {
                proof {
                    lemma_child_names_parent(parents@, child_of@, n as int, current as int);
                    lemma_walk_stays_fresh(parents@, visited, next as int);
                    visited = visited.push(next as int);
                }
                current = next;
                count = count + 1;
            },
        }
    }
    proof {
        lemma_walk_is_linked(links, parents@, visited);
        assert(is_chain(links, visited));
        assert(child_of@[current as int] is None) by {
            if child_of@[current as int] is Some {
                lemma_child_names_parent(parents@, child_of@, n as int, current as int);
                let c = child_of@[current as int]->0 as int;
                let j = lemma_order_covers(visited, n as int, c);
                if j >= 1 {
                    assert(parents@[visited[j]] == Some(visited[j - 1] as usize));
                    assert(visited[j - 1] == visited[n - 1]);
                }
            }
        }
        reveal(walk_links);
        assert forall|k: int| 0 <= k < visited.len() implies child_of@[#[trigger] visited[k]] == (
        if k == visited.len() - 1 {
            None
        } else {
            Some(visited[k + 1] as usize)
        }) by {
            if k < n - 1 {
                assert(parents@[visited[k + 1]] == Some(visited[k] as usize));
                lemma_parent_records_child(parents@, child_of@, n as int, visited[k + 1]);
            }
        }
    }
    Some(Walk { root, head: current, order: Ghost(visited) })
}

/// Positions as integers.
pub open spec fn as_ints(positions: Seq<usize>) -> Seq<int> {
    positions.map_values(|position: usize| position as int)
}

/// The entries that a list of nodes holds.
pub open spec fn entries_of<M>(nodes: Seq<Node<M>>) -> Seq<Migration<M>> {
    nodes.map_values(|node: Node<M>| node.migration)
}

/// The nodes mirror their declarations along `chain`: the chain is the chain
/// of the declared parent pointers, each node carries the revision of its
/// entry, and each node's parent and child positions are its neighbours in
/// the chain.
#[verifier::opaque]
pub open spec fn shape<M>(nodes: Seq<Node<M>>, chain: Seq<int>) -> bool {
    let n = nodes.len() as int;
    let links = links_of(entries_of(nodes));
    &&& n <= usize::MAX
    &&& unique_revisions(links)
    &&& is_chain(links, chain)
    &&& forall|i: int|
        0 <= i < n ==> (#[trigger] nodes[i]).revision@ == nodes[i].migration.meta.revision@
    &&& forall|k: int|
        0 <= k < n ==> nodes[#[trigger] chain[k]].parent == (if k == 0 {
            None
        } else {
            Some(chain[k - 1] as usize)
        })
    &&& forall|k: int|
        0 <= k < n ==> child_list(nodes[#[trigger] chain[k]].children) == (if k == n - 1 {
            Seq::<usize>::empty()
        } else {
            seq![chain[k + 1] as usize]
        })
}

/// The parts of a graph agree: the nodes are shaped along the chain, the rank
/// inverts the chain, the two ends are the ends of the chain, and the index
/// finds every node.
#[verifier::opaque]
spec fn sound<M>(
    nodes: Seq<Node<M>>,
    chain: Seq<int>,
    rank: Seq<int>,
    queue_ix: usize,
    head_ix: usize,
    entries: Map<Seq<char>, usize>,
) -> bool {
    let n = nodes.len() as int;
    &&& shape(nodes, chain)
    &&& ranked(chain, rank)
    &&& queue_ix == chain[0]
    &&& head_ix == chain[n - 1]
    &&& index_matches(entries, links_of(entries_of(nodes)), n)
}

/// `rank` is the inverse of `chain`.
spec fn ranked(chain: Seq<int>, rank: Seq<int>) -> bool {
    &&& rank.len() == chain.len()
    &&& forall|i: int|
        0 <= i < rank.len() ==> 0 <= #[trigger] rank[i] < chain.len() && chain[rank[i]] == i
}

/// The nodes hold the declared entries, with the parents and children that the
/// passes of the construction recorded.
spec fn assembled<M>(
    nodes: Seq<Node<M>>,
    declared: Seq<Migration<M>>,
    parents: Seq<Option<usize>>,
    child_of: Seq<Option<usize>>,
) -> bool {
    &&& nodes.len() == declared.len()
    &&& forall|i: int|
        0 <= i < nodes.len() ==> {
            &&& (#[trigger] nodes[i]).migration == declared[i]
            &&& nodes[i].revision@ == declared[i].meta.revision@
            &&& nodes[i].parent == parents[i]
            &&& child_list(nodes[i].children) == (match child_of[i] {
                Some(c) => seq![c],
                None => Seq::<usize>::empty(),
            })
        }
}

/// Moves the declared entries into nodes.
fn assemble<M>(
    migrations: Vec<Migration<M>>,
    parents: &Vec<Option<usize>>,
    child_of: &Vec<Option<usize>>,
) -> (nodes: Vec<Node<M>>)
    requires
        parents@.len() == migrations@.len(),
        child_of@.len() == migrations@.len(),
    ensures
        assembled(nodes@, migrations@, parents@, child_of@),
{
    let ghost declared = migrations@;
    let mut nodes: Vec<Node<M>> = Vec::new();
    for migration in it: migrations
        invariant
            it.seq() == declared,
            parents@.len() == declared.len(),
            child_of@.len() == declared.len(),
            nodes@.len() == it.index(),
            forall|i: int|
                0 <= i < nodes@.len() ==> {
                    &&& (#[trigger] nodes@[i]).migration == declared[i]
                    &&& nodes@[i].revision@ == declared[i].meta.revision@
                    &&& nodes@[i].parent == parents@[i]
                    &&& child_list(nodes@[i].children) == (match child_of@[i] {
                        Some(c) => seq![c],
                        None => Seq::<usize>::empty(),
                    })
                },
    {
        let position = nodes.len();
        let mut children = children_new();
        match child_of[position] {
            Some(c) => {
                children_push(&mut children, c);
                assert(child_list(children) == seq![c]);
            },
            None => {
                assert(child_list(children) == Seq::<usize>::empty());
            },
        }
        let revision = migration.meta.revision.clone();
        nodes.push(Node { revision, children, migration, parent: parents[position] });
    }
    nodes
}

proof fn lemma_assembled_shape<M>(
    nodes: Seq<Node<M>>,
    declared: Seq<Migration<M>>,
    parents: Seq<Option<usize>>,
    child_of: Seq<Option<usize>>,
    chain: Seq<int>,
)
    requires
        assembled(nodes, declared, parents, child_of),
        declared.len() <= usize::MAX,
        unique_revisions(links_of(declared)),
        is_chain(links_of(declared), chain),
        walk_links(parents, child_of, chain),
    ensures
        entries_of(nodes) == declared,
        shape(nodes, chain),
{
    assert(entries_of(nodes) =~= declared);
    reveal(walk_links);
    reveal(shape);
    let n = nodes.len() as int;
    assert forall|k: int| 0 <= k < n implies nodes[#[trigger] chain[k]].parent == (if k == 0 {
        None
    } else {
        Some(chain[k - 1] as usize)
    }) by {
        assert(nodes[chain[k]].parent == parents[chain[k]]);
    }
    assert forall|k: int| 0 <= k < n implies child_list(nodes[#[trigger] chain[k]].children) == (
    if k == n - 1 {
        Seq::<usize>::empty()
    } else {
        seq![chain[k + 1] as usize]
    }) by {
        assert(nodes[chain[k]].migration == declared[chain[k]]);
        assert(child_of[chain[k]] == (if k == chain.len() - 1 {
            None
        } else {
            Some(chain[k + 1] as usize)
        }));
    }
}

/// What the passes over the declarations hand to the assembly of the graph.
struct Linked {
    index: HashMap<String, usize, FxBuildHasher>,
    parents: Vec<Option<usize>>,
    child_of: Vec<Option<usize>>,
    walk: Walk,
}

/// Runs the passes over the declarations: index, parents, children, walk.
#[verifier::rlimit(40)]
fn link_all<M>(migrations: &Vec<Migration<M>>) -> (result: Result<Linked, RevisionGraphError>)
    ensures
        match result {
            Ok(linked) => {
                &&& migrations@.len() >= 1
                &&& unique_revisions(links_of(migrations@))
                &&& is_chain(links_of(migrations@), linked.walk.order@)
                &&& index_matches(
                    index_entries(linked.index),
                    links_of(migrations@),
                    migrations@.len() as int,
                )
                &&& linked.parents@.len() == migrations@.len()
                &&& linked.child_of@.len() == migrations@.len()
                &&& linked.walk.root == linked.walk.order@[0]
                &&& linked.walk.head == linked.walk.order@[migrations@.len() - 1]
                &&& walk_links(linked.parents@, linked.child_of@, linked.walk.order@)
            },
            Err(error) => {
                &&& !is_linear(links_of(migrations@))
                &&& error.subject() == failure_subject(links_of(migrations@))
            },
        },
{
    let ghost links = links_of(migrations@);
    let n = migrations.len();
    if n == 0 {
        proof {
            assert(first_unresolved(links) is None);
            lemma_failure_names_head(links);
        }
        return Err(no_head());
    }
    let index = match build_index(migrations) {
        Some(index) => index,
        None => {
            proof {
                lemma_failure_names_head(links);
            }
            return Err(no_head());
        },
    };
    let parents = match resolve_parents(migrations, &index) {
        Ok(parents) => parents,
        Err(at) => {
            match &migrations[at].meta.down_revision {
                Some(parent) => {
                    assert(links[at as int].down == Some(parent@));
                    return Err(RevisionGraphError::NotFound(parent.clone()));
                },
                None => {
                    return Err(no_head());
                },
            }
        },
    };
    let child_of = match record_children(&parents, Ghost(links)) {
        Some(child_of) => child_of,
        None => {
            proof {
                lemma_failure_names_head(links);
            }
            return Err(no_head());
        },
    };
    let walk = match walk_chain(&parents, &child_of, Ghost(links)) {
        Some(walk) => walk,
        None => {
            proof {
                lemma_failure_names_head(links);
            }
            return Err(no_head());
        },
    };
    Ok(Linked { index, parents, child_of, walk })
}

impl<M> RevisionGraph<M> {
    /// The nodes, in insertion order.
    pub closed spec fn nodes(&self) -> Seq<Node<M>> {
        self.nodes@
    }

    /// The positions of the nodes in chain order, the root first and the head
    /// last.
    pub closed spec fn chain(&self) -> Seq<int> {
        self.chain@
    }

    /// The entries that the nodes hold, in insertion order.
    pub open spec fn entries(&self) -> Seq<Migration<M>> {
        entries_of(self.nodes())
    }

    /// The places in the chain that the entries declare.
    pub open spec fn links(&self) -> Seq<Link> {
        links_of(self.entries())
    }

    /// The node at place `k` of the chain.
    pub open spec fn at(&self, k: int) -> Node<M> {
        self.nodes()[self.chain()[k]]
    }

    /// The nodes mirror the declarations along the chain.
    pub open spec fn shaped(&self) -> bool {
        shape(self.nodes(), self.chain())
    }

    /// The invariant of a graph: it is shaped as its declarations say, and
    /// its lookup structures agree with its nodes.
    #[verifier::type_invariant]
    pub closed spec fn wf(&self) -> bool {
        sound(
            self.nodes@,
            self.chain@,
            self.rank@,
            self.queue_ix,
            self.head_ix,
            index_entries(self.index),
        )
    }

    /// Some node carries the revision identifier `revision`.
    pub open spec fn known(&self, revision: Seq<char>) -> bool {
        exists|k: int| 0 <= k < self.chain().len() && (#[trigger] self.at(k)).revision@ == revision
    }

    /// The place in the chain of the node that carries `revision`.
    pub open spec fn position(&self, revision: Seq<char>) -> int {
        choose|k: int| 0 <= k < self.chain().len() && (#[trigger] self.at(k)).revision@ == revision
    }

    /// The place in the chain of an optional revision, where it is given and
    /// known.
    pub open spec fn place(&self, revision: Option<Seq<char>>) -> Option<int> {
        match revision {
            Some(r) => if self.known(r) {
                Some(self.position(r))
            } else {
                None
            },
            None => None,
        }
    }

    /// The node positions that a forward walk yields: from `current` along the
    /// chain up to and including `target`. A walk that starts beyond the
    /// target runs to the head and then yields the target. Without a start,
    /// or from a start that no node carries, the path is empty.
    pub open spec fn forward(&self, current: Option<Seq<char>>, target: Seq<char>) -> Seq<int> {
        let chain = self.chain();
        let t = self.position(target);
        match self.place(current) {
            Some(s) => if s <= t {
                chain.subrange(s, t + 1)
            } else {
                chain.subrange(s, chain.len() as int).push(chain[t])
            },
            None => Seq::empty(),
        }
    }

    /// The node positions that a backward walk yields: from `current` along
    /// the parents down to, but not including, `stop`. Without a known stop at
    /// or below the start, the walk runs to the root. Without a known start it
    /// is empty.
    pub open spec fn backward(&self, current: Option<Seq<char>>, stop: Option<Seq<char>>) -> Seq<
        int,
    > {
        let chain = self.chain();
        match self.place(current) {
            Some(s) => {
                let low = match self.place(stop) {
                    Some(p) => if p <= s {
                        p + 1
                    } else {
                        0
                    },
                    None => 0,
                };
                Seq::new((s - low + 1) as nat, |k: int| chain[s - k])
            },
            None => Seq::<int>::empty(),
        }
    }

    /// `path` holds the nodes at the given positions, in that order.
    pub open spec fn holds(&self, path: Seq<&Node<M>>, positions: Seq<int>) -> bool {
        &&& path.len() == positions.len()
        &&& forall|k: int| 0 <= k < path.len() ==> *(#[trigger] path[k]) == self.nodes()[positions[k]]
    }

    /// Builds the graph of the declared migrations.
    ///
    /// The graph is built exactly when the declarations form one simple chain:
    /// the revision identifiers are unique, every declared parent is declared
    /// itself, one declaration has no parent, and following the children from
    /// it leads through all the others. The queue of the graph is that root,
    /// wherever it stands in the insertion order.
    #[verifier::rlimit(40)]
    pub fn try_from(migrations: Vec<Migration<M>>) -> (result: Result<
        RevisionGraph<M>,
        RevisionGraphError,
    >)
        ensures
            result is Ok <==> is_linear(links_of(migrations@)),
            result matches Ok(graph) ==> graph.wf() && graph.shaped() && graph.entries()
                == migrations@,
            result matches Err(error) ==> error.subject() == failure_subject(links_of(migrations@)),
    {
        let linked = match link_all(&migrations) {
            Ok(linked) => linked,
            Err(error) => {
                return Err(error);
            },
        };
        let ghost declared = migrations@;
        let ghost chain = linked.walk.order@;
        let count = migrations.len();
        assert(declared.len() == count);
        let nodes = assemble(migrations, &linked.parents, &linked.child_of);
        proof {
            lemma_assembled_shape(nodes@, declared, linked.parents@, linked.child_of@, chain);
        }
        let graph = RevisionGraph::seal(
            nodes,
            linked.index,
            linked.walk.head,
            linked.walk.root,
            Ghost(chain),
        );
        Ok(graph)
    }

    /// In a well-formed graph the node at place `k` is known, at place `k`.
    pub proof fn lemma_position(&self, k: int)
        requires
            self.wf(),
            0 <= k < self.chain().len(),
        ensures
            self.known(self.at(k).revision@),
            self.position(self.at(k).revision@) == k,
    {
        let revision = self.at(k).revision@;
        assert(self.known(revision));
        let found = self.position(revision);
        assert(self.at(found).revision@ == revision);
        self.lemma_distinct_revisions(found, k);
    }

    /// Two places of the chain that carry the same revision are one place.
    pub proof fn lemma_distinct_revisions(&self, j: int, k: int)
        requires
            self.wf(),
            0 <= j < self.chain().len(),
            0 <= k < self.chain().len(),
            self.at(j).revision@ == self.at(k).revision@,
        ensures
            j == k,
    {
        reveal(sound);
        reveal(shape);
        let links = self.links();
        let a = self.chain()[j];
        let b = self.chain()[k];
        assert(0 <= a < links.len() && 0 <= b < links.len());
        assert(links[a].revision == self.nodes()[a].revision@);
        assert(links[b].revision == self.nodes()[b].revision@);
        if a < b {
            assert(links[a].revision != links[b].revision);
        } else if b < a {
            assert(links[b].revision != links[a].revision);
        }
    }

    /// The rank of a node is its place in the chain.
    proof fn lemma_rank(&self, i: int)
        requires
            self.wf(),
            0 <= i < self.nodes().len(),
        ensures
            self.rank@.len() == self.nodes().len(),
            self.nodes().len() <= usize::MAX,
            0 <= self.rank@[i] < self.chain().len(),
            self.chain().len() == self.nodes().len(),
            self.chain()[self.rank@[i]] == i,
            forall|k: int| 0 <= k < self.chain().len() && self.chain()[k] == i ==> k == self.rank@[i],
            forall|k: int| 0 <= k < self.chain().len() ==> 0 <= #[trigger] self.chain()[k] < self.nodes().len(),
    {
        reveal(sound);
        reveal(shape);
    }

    /// The head and the queue of a graph are known, at the two ends of the
    /// chain.
    pub proof fn lemma_head_known(&self)
        requires
            self.wf(),
        ensures
            self.known(self.at(self.chain().len() - 1).revision@),
            self.position(self.at(self.chain().len() - 1).revision@) == self.chain().len() - 1,
            self.known(self.at(0).revision@),
            self.position(self.at(0).revision@) == 0,
    {
        self.lemma_chain();
        self.lemma_position(self.chain().len() - 1);
        self.lemma_position(0);
    }

    /// Graph roundtrip: the forward walk from the queue to the head passes
    /// through the whole chain in order, and the backward walk from the head
    /// without a stop passes through it in reverse.
    pub proof fn law_roundtrip(&self)
        requires
            self.wf(),
        ensures
            self.forward(
                Some(self.at(0).revision@),
                self.at(self.chain().len() - 1).revision@,
            ) == self.chain(),
            self.backward(Some(self.at(self.chain().len() - 1).revision@), None)
                == self.chain().reverse(),
    {
        self.lemma_chain();
        self.lemma_head_known();
        let chain = self.chain();
        let n = chain.len() as int;
        assert(chain.subrange(0, n) == chain);
        assert(Seq::new(n as nat, |k: int| chain[n - 1 - k]) == chain.reverse());
    }

    /// Head and queue: a node has no parent exactly when it is the first of
    /// the chain, and no child exactly when it is the last.
    pub proof fn law_single_ends(&self, i: int)
        requires
            self.wf(),
            0 <= i < self.nodes().len(),
        ensures
            self.nodes()[i].parent is None <==> i == self.chain()[0],
            child_list(self.nodes()[i].children).len() == 0 <==> i == self.chain()[
                self.chain().len() - 1
            ],
    {
        reveal(sound);
        reveal(shape);
        let k = self.rank@[i];
        assert(self.chain()[k] == i);
        let n = self.chain().len() as int;
        if k != 0 {
            assert(self.chain()[0] != self.chain()[k]);
        }
        if k != n - 1 {
            assert(self.chain()[k] != self.chain()[n - 1]);
        }
    }

    /// The chain of a well-formed graph lists every node once.
    pub proof fn lemma_chain(&self)
        requires
            self.wf(),
        ensures
            self.chain().len() == self.nodes().len(),
            1 <= self.nodes().len() <= usize::MAX,
            forall|k: int|
                0 <= k < self.chain().len() ==> 0 <= #[trigger] self.chain()[k]
                    < self.nodes().len(),
            forall|j: int, k: int|
                0 <= j < k < self.chain().len() ==> self.chain()[j] != self.chain()[k],
    {
        reveal(sound);
        reveal(shape);
    }

    /// The chain of a well-formed graph is the chain of its declarations.
    pub proof fn lemma_links(&self)
        requires
            self.wf(),
        ensures
            unique_revisions(self.links()),
            is_chain(self.links(), self.chain()),
            forall|i: int|
                0 <= i < self.nodes().len() ==> (#[trigger] self.nodes()[i]).revision@
                    == self.nodes()[i].migration.meta.revision@,
    {
        reveal(sound);
        reveal(shape);
    }

    /// The number of nodes.
    pub fn len(&self) -> (n: usize)
        ensures
            n == self.nodes().len(),
            n >= 1,
    {
        proof {
            use_type_invariant(self);
            reveal(sound);
        reveal(shape);
        }
        self.nodes.len()
    }

    /// The node at position `ix` of the insertion order.
    pub fn node(&self, ix: usize) -> (node: Option<&Node<M>>)
        ensures
            match node {
                Some(node) => ix < self.nodes().len() && *node == self.nodes()[ix as int],
                None => ix >= self.nodes().len(),
            },
    {
        if ix < self.nodes.len() {
            Some(&self.nodes[ix])
        } else {
            None
        }
    }

    /// The node at a position that is known to be one.
    pub(crate) fn node_at(&self, ix: usize) -> (node: &Node<M>)
        requires
            ix < self.nodes().len(),
        ensures
            *node == self.nodes()[ix as int],
    {
        &self.nodes[ix]
    }

    /// The position of the node that carries `revision`.
    fn ix(&self, revision: &str) -> (found: Option<usize>)
        ensures
            match found {
                Some(i) => {
                    &&& i < self.nodes().len()
                    &&& self.known(revision@)
                    &&& self.chain()[self.position(revision@)] == i
                    &&& self.rank@[i as int] == self.position(revision@)
                },
                None => !self.known(revision@),
            },
    {
        proof {
            use_type_invariant(self);
            reveal(sound);
        reveal(shape);
            reveal(index_matches);
        }
        let found = index_get(&self.index, revision);
        proof {
            let links = self.links();
            match found {
                Some(i) => {
                    assert(links[i as int].revision == revision@);
                    assert(self.nodes()[i as int].revision@ == revision@);
                    let k = self.rank@[i as int];
                    assert(self.at(k).revision@ == revision@);
                    self.lemma_position(k);
                },
                None => {
                    if self.known(revision@) {
                        let k = self.position(revision@);
                        let i = self.chain()[k];
                        assert(links[i].revision == self.nodes()[i].revision@);
                        assert(index_entries(self.index).contains_key(links[i].revision));
                    }
                },
            }
        }
        found
    }

    /// The position of the first child of the node at `ix`.
    fn child_ix(&self, ix: usize) -> (child: Option<usize>)
        requires
            ix < self.nodes().len(),
        ensures
            child == (if self.rank@[ix as int] == self.chain().len() - 1 {
                None
            } else {
                Some(self.chain()[self.rank@[ix as int] + 1] as usize)
            }),
    {
        proof {
            use_type_invariant(self);
            reveal(sound);
        reveal(shape);
            let k = self.rank@[ix as int];
            assert(self.chain()[k] == ix);
        }
        children_first(&self.nodes[ix].children)
    }

    /// The position of the parent of the node at `ix`.
    fn parent_ix(&self, ix: usize) -> (parent: Option<usize>)
        requires
            ix < self.nodes().len(),
        ensures
            parent == (if self.rank@[ix as int] == 0 {
                None
            } else {
                Some(self.chain()[self.rank@[ix as int] - 1] as usize)
            }),
    {
        proof {
            use_type_invariant(self);
            reveal(sound);
        reveal(shape);
            let k = self.rank@[ix as int];
            assert(self.chain()[k] == ix);
        }
        self.nodes[ix].parent
    }

    /// Whether some node carries `revision`.
    pub fn contains(&self, revision: &str) -> (known: bool)
        ensures
            known == self.known(revision@),
    {
        self.ix(revision).is_some()
    }

    /// The revision of the head: the last node of the chain, which nobody
    /// names as parent.
    pub fn head(&self) -> (revision: &str)
        ensures
            revision@ == self.at(self.chain().len() - 1).revision@,
    {
        proof {
            use_type_invariant(self);
            reveal(sound);
        reveal(shape);
        }
        self.nodes[self.head_ix].revision.as_str()
    }

    /// The revision of the queue: the root of the chain, the node without a
    /// parent.
    pub fn queue(&self) -> (revision: &str)
        ensures
            revision@ == self.at(0).revision@,
    {
        proof {
            use_type_invariant(self);
            reveal(sound);
        reveal(shape);
        }
        self.nodes[self.queue_ix].revision.as_str()
    }

    /// The handle and the migration object of the node that carries
    /// `revision`.
    pub fn get(&self, revision: &str) -> (found: Option<(Option<Uuid>, &M)>)
        ensures
            found is Some <==> self.known(revision@),
            found matches Some(pair) ==> {
                &&& pair.0 == self.at(self.position(revision@)).migration.id
                &&& *pair.1 == self.at(self.position(revision@)).migration.runner
            },
    {
        match self.ix(revision) {
            Some(ix) => {
                let node = &self.nodes[ix];
                Some((node.migration.id, &node.migration.runner))
            },
            None => None,
        }
    }

    /// The positions along the chain from `start` up to, but not including,
    /// `target`, or up to the head where the walk does not meet the target.
    #[verifier::rlimit(40)]
    fn walk_forward(&self, start: usize, target: usize) -> (positions: Vec<usize>)
        requires
            start < self.nodes().len(),
            target < self.nodes().len(),
        ensures
            as_ints(positions@) == (if self.rank@[start as int] <= self.rank@[target as int] {
                self.chain().subrange(self.rank@[start as int], self.rank@[target as int])
            } else {
                self.chain().subrange(self.rank@[start as int], self.chain().len() as int)
            }),
            forall|k: int| 0 <= k < positions@.len() ==> positions@[k] < self.nodes().len(),
    {
        proof {
            use_type_invariant(self);
            self.lemma_rank(start as int);
            self.lemma_rank(target as int);
        }
        let ghost chain = self.chain();
        let ghost n = chain.len() as int;
        let ghost s = self.rank@[start as int];
        let ghost t = self.rank@[target as int];
        let mut positions: Vec<usize> = Vec::new();
        let mut current = start;
        let ghost mut place = s;
        let mut going = true;
        while going
            invariant
                self.wf(),
                chain == self.chain(),
                n == chain.len(),
                n == self.nodes().len(),
                self.rank@.len() == n,
                0 <= s < n,
                0 <= t < n,
                t == self.rank@[target as int],
                chain[t] == target,
                s <= place < n,
                current < n,
                going ==> chain[place] == current && self.rank@[current as int] == place,
                going ==> as_ints(positions@) == chain.subrange(s, place),
                forall|k: int| 0 <= k < positions@.len() ==> positions@[k] < n,
                going && s <= t ==> place <= t,
                !going ==> as_ints(positions@) == (if s <= t {
                    chain.subrange(s, t)
                } else {
                    chain.subrange(s, n)
                }),
            decreases
                    (if going {
                        n - place + 1
                    } else {
                        0
                    }),
        {
            if current == target {
                proof {
                    assert(place == t);
                }
                going = false;
            } else {
                let ghost before = positions@;
                positions.push(current);
                proof {
                    assert(as_ints(positions@) == as_ints(before).push(current as int));
                    assert(chain.subrange(s, place + 1) == chain.subrange(s, place).push(
                        chain[place],
                    ));
                }
                match self.child_ix(current) {
                    Some(child) => {
                        proof {
                            self.lemma_rank(current as int);
                            assert(place < n - 1);
                            assert(0 <= chain[place + 1] < n);
                            assert(child == chain[place + 1]);
                            self.lemma_rank(child as int);
                            assert(self.rank@[child as int] == place + 1);
                            place = place + 1;
                        }
                        current = child;
                    },
                    None => {
                        proof {
                            assert(place == n - 1);
                            if s <= t {
                                assert(place < t);
                            }
                        }
                        going = false;
                    },
                }
            }
        }
        positions
    }

    /// The node positions of the forward walk from `current` to a target that
    /// is known.
    #[verifier::rlimit(40)]
    pub(crate) fn forward_known(&self, current: Option<&str>, target: &str) -> (positions: Vec<
        usize,
    >)
        requires
            self.known(target@),
        ensures
            as_ints(positions@) == self.forward(opt_view(current), target@),
            forall|k: int| 0 <= k < positions@.len() ==> positions@[k] < self.nodes().len(),
    {
        let target_ix = match self.ix(target) {
            Some(ix) => ix,
            None => vstd::pervasive::unreached(),
        };
        let start_ix = match current {
            Some(revision) => self.ix(revision),
            None => None,
        };
        let start = match start_ix {
            Some(start) => start,
            None => {
                let none: Vec<usize> = Vec::new();
                assert(as_ints(none@) == Seq::<int>::empty());
                return none;
            },
        };
        let mut positions = self.walk_forward(start, target_ix);
        let ghost before = positions@;
        positions.push(target_ix);
        proof {
            let chain = self.chain();
            let t = self.position(target@);
            let s = self.place(opt_view(current))->0;
            assert(as_ints(positions@) == as_ints(before).push(target_ix as int));
            if s <= t {
                assert(chain.subrange(s, t).push(chain[t]) == chain.subrange(s, t + 1));
            }
        }
        positions
    }

    /// The node positions of the forward walk from `current` to `target`. A
    /// target that no node carries is not found.
    pub fn forward_positions(&self, current: Option<&str>, target: &str) -> (result: Result<
        Vec<usize>,
        RevisionGraphError,
    >)
        ensures
            result is Ok <==> self.known(target@),
            result matches Ok(positions) ==> {
                &&& as_ints(positions@) == self.forward(opt_view(current), target@)
                &&& forall|k: int| 0 <= k < positions@.len() ==> positions@[k] < self.nodes().len()
            },
            result matches Err(error) ==> error.subject() == target@,
    {
        if self.contains(target) {
            Ok(self.forward_known(current, target))
        } else {
            Err(RevisionGraphError::NotFound(target.to_string()))
        }
    }

    /// The node positions of the backward walk from `current` down to, but not
    /// including, `stop`.
    #[verifier::rlimit(40)]
    pub fn backward_positions(&self, current: Option<&str>, stop: Option<&str>) -> (positions: Vec<
        usize,
    >)
        ensures
            as_ints(positions@) == self.backward(opt_view(current), opt_view(stop)),
            forall|k: int| 0 <= k < positions@.len() ==> positions@[k] < self.nodes().len(),
    {
        proof {
            use_type_invariant(self);
        }
        let stop_ix = match stop {
            Some(revision) => self.ix(revision),
            None => None,
        };
        let start_ix = match current {
            Some(revision) => self.ix(revision),
            None => None,
        };
        let mut positions: Vec<usize> = Vec::new();
        let start = match start_ix {
            Some(start) => start,
            None => {
                assert(as_ints(positions@) == Seq::<int>::empty());
                return positions;
            },
        };
        proof {
            self.lemma_rank(start as int);
            match stop_ix {
                Some(p) => {
                    self.lemma_rank(p as int);
                },
                None => {},
            }
        }
        let ghost chain = self.chain();
        let ghost n = chain.len() as int;
        let ghost s = self.position(opt_view(current)->0);
        let ghost low = match self.place(opt_view(stop)) {
            Some(p) => if p <= s {
                p + 1
            } else {
                0
            },
            None => 0,
        };
        let ghost goal = self.backward(opt_view(current), opt_view(stop));
        assert(goal == Seq::new((s - low + 1) as nat, |k: int| chain[s - k]));
        let mut current_ix = start;
        let ghost mut place = s;
        let mut going = true;
        while going
            invariant
                self.wf(),
                chain == self.chain(),
                n == chain.len(),
                n == self.nodes().len(),
                self.rank@.len() == n,
                0 <= low <= s + 1,
                0 <= s < n,
                goal == Seq::new((s - low + 1) as nat, |k: int| chain[s - k]),
                match stop_ix {
                    Some(p) => p < n && 0 <= self.rank@[p as int] < n && chain[self.rank@[p as int]]
                        == p && low == (if self.rank@[p as int] <= s {
                        self.rank@[p as int] + 1
                    } else {
                        0
                    }),
                    None => low == 0,
                },
                current_ix < n,
                0 <= place <= s,
                going ==> chain[place] == current_ix && self.rank@[current_ix as int] == place,
                going ==> low - 1 <= place,
                going ==> as_ints(positions@) == goal.subrange(0, s - place),
                !going ==> as_ints(positions@) == goal,
            decreases
                    (if going {
                        place + 2
                    } else {
                        0
                    }),
        {
            let at_stop = match stop_ix {
                Some(p) => p == current_ix,
                None => false,
            };
            if at_stop {
                proof {
                    assert(place == low - 1);
                    assert(goal.subrange(0, s - place) == goal);
                }
                going = false;
            } else {
                proof {
                    assert(place >= low) by {
                        if place == low - 1 {
                            let p = stop_ix->0;
                            assert(self.rank@[p as int] == place);
                        }
                    }
                }
                let ghost before = positions@;
                positions.push(current_ix);
                proof {
                    assert(as_ints(positions@) == as_ints(before).push(current_ix as int));
                    assert(goal.subrange(0, s - place + 1) == goal.subrange(0, s - place).push(
                        goal[s - place],
                    ));
                }
                match self.parent_ix(current_ix) {
                    Some(parent) => {
                        proof {
                            self.lemma_rank(current_ix as int);
                            assert(place > 0);
                            assert(0 <= chain[place - 1] < n);
                            assert(parent == chain[place - 1]);
                            self.lemma_rank(parent as int);
                            assert(self.rank@[parent as int] == place - 1);
                            place = place - 1;
                        }
                        current_ix = parent;
                    },
                    None => {
                        proof {
                            assert(place == 0);
                            assert(low == 0);
                            assert(goal.subrange(0, s + 1) == goal);
                        }
                        going = false;
                    },
                }
            }
        }
        proof {
            assert forall|k: int| 0 <= k < positions@.len() implies positions@[k]
                < self.nodes().len() by {
                assert(as_ints(positions@)[k] == goal[k]);
            }
        }
        positions
    }

    /// The nodes at the given positions.
    fn nodes_at(&self, positions: &Vec<usize>) -> (path: Vec<&Node<M>>)
        requires
            forall|k: int| 0 <= k < positions@.len() ==> positions@[k] < self.nodes().len(),
        ensures
            self.holds(path@, as_ints(positions@)),
    {
        let mut path: Vec<&Node<M>> = Vec::new();
        let mut k: usize = 0;
        while k < positions.len()
            invariant
                k <= positions@.len(),
                path@.len() == k,
                forall|j: int| 0 <= j < positions@.len() ==> positions@[j] < self.nodes().len(),
                forall|j: int|
                    0 <= j < k ==> *(#[trigger] path@[j]) == self.nodes()[positions@[j] as int],
            decreases positions@.len() - k,
        {
            path.push(&self.nodes[positions[k]]);
            k = k + 1;
        }
        path
    }

    /// The nodes from `current` along the chain up to and including `target`.
    ///
    /// The walk follows the first child at each step. A walk that starts
    /// beyond the target runs to the head and then yields the target. Without
    /// a start, or from a start that no node carries, the path is empty. A
    /// target that no node carries is not found, whatever the start.
    pub fn forward_path(&self, current: Option<&str>, target: &str) -> (result: Result<
        Vec<&Node<M>>,
        RevisionGraphError,
    >)
        ensures
            result is Ok <==> self.known(target@),
            result matches Ok(path) ==> self.holds(
                path@,
                self.forward(opt_view(current), target@),
            ),
            result matches Err(error) ==> error.subject() == target@,
    {
        match self.forward_positions(current, target) {
            Ok(positions) => Ok(self.nodes_at(&positions)),
            Err(error) => Err(error),
        }
    }

    /// The nodes from `current` along the parents down to, but not including,
    /// `stop`; down to the root where no stop is given or met.
    pub fn backward_path(&self, current: Option<&str>, stop: Option<&str>) -> (path: Vec<&Node<M>>)
        ensures
            self.holds(path@, self.backward(opt_view(current), opt_view(stop))),
    {
        let positions = self.backward_positions(current, stop);
        self.nodes_at(&positions)
    }

    /// Puts the parts of a graph together.
    #[verifier::rlimit(40)]
    fn seal(
        nodes: Vec<Node<M>>,
        index: HashMap<String, usize, FxBuildHasher>,
        head_ix: usize,
        queue_ix: usize,
        Ghost(chain): Ghost<Seq<int>>,
    ) -> (graph: RevisionGraph<M>)
        requires
            shape(nodes@, chain),
            queue_ix == chain[0],
            head_ix == chain[nodes@.len() - 1],
            index_matches(index_entries(index), links_of(entries_of(nodes@)), nodes@.len() as int),
        ensures
            graph.wf(),
            graph.nodes() == nodes@,
            graph.chain() == chain,
    {
        let ghost n = nodes@.len() as int;
        let ghost rank = Seq::new(n as nat, |i: int| choose|k: int| 0 <= k < n && chain[k] == i);
        proof {
            reveal(sound);
        reveal(shape);
            assert forall|i: int| 0 <= i < rank.len() implies 0 <= #[trigger] rank[i] < chain.len()
                && chain[rank[i]] == i by {
                let k = lemma_order_covers(chain, n, i);
            }
        }
        RevisionGraph { nodes, index, head_ix, queue_ix, chain: Ghost(chain), rank: Ghost(rank) }
    }
}

} // verus!
