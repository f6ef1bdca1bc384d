//! What it means for declared revisions to form one simple chain, stated over
//! the parent pointers alone.

use vstd::prelude::*;

verus! {

/// What one declared migration says of its place: its own revision
/// identifier and the identifier of the revision it follows, if any.
pub struct Link {
    pub revision: Seq<char>,
    pub down: Option<Seq<char>>,
}

/// No two declarations carry the same revision identifier.
pub open spec fn unique_revisions(links: Seq<Link>) -> bool {
    forall|i: int, j: int| 0 <= i < j < links.len() ==> links[i].revision != links[j].revision
}

/// Some declaration carries the identifier `revision`.
pub open spec fn resolves(links: Seq<Link>, revision: Seq<char>) -> bool {
    exists|j: int| 0 <= j < links.len() && #[trigger] links[j].revision == revision
}

/// Declaration `i` names a parent that nobody declares.
pub open spec fn unresolved_at(links: Seq<Link>, i: int) -> bool {
    &&& 0 <= i < links.len()
    &&& links[i].down is Some
    &&& !resolves(links, links[i].down->0)
}

/// The first declaration, in insertion order, whose parent nobody declares.
pub open spec fn first_unresolved(links: Seq<Link>) -> Option<int> {
    if exists|i: int| unresolved_at(links, i) {
        Some(
            choose|i: int|
                unresolved_at(links, i) && forall|j: int| 0 <= j < i ==> !unresolved_at(links, j),
        )
    } else {
        None
    }
}

/// `order` lists every declaration once, the root first, each one directly
/// after the declaration that it names as its parent.
pub open spec fn is_chain(links: Seq<Link>, order: Seq<int>) -> bool {
    &&& links.len() >= 1
    &&& order.len() == links.len()
    &&& forall|k: int| 0 <= k < order.len() ==> 0 <= #[trigger] order[k] < links.len()
    &&& forall|j: int, k: int| 0 <= j < k < order.len() ==> order[j] != order[k]
    &&& links[order[0]].down is None
    &&& forall|k: int|
        1 <= k < order.len() ==> (#[trigger] links[order[k]]).down == Some(
            links[order[k - 1]].revision,
        )
}

/// The declarations form one simple chain from a root to a head.
pub open spec fn is_linear(links: Seq<Link>) -> bool {
    unique_revisions(links) && exists|order: Seq<int>| is_chain(links, order)
}

/// Nobody names declaration `i` as its parent.
pub open spec fn childless(links: Seq<Link>, i: int) -> bool {
    forall|j: int| 0 <= j < links.len() ==> (#[trigger] links[j]).down != Some(links[i].revision)
}

/// Declaration `i` names no parent.
pub open spec fn parentless(links: Seq<Link>, i: int) -> bool {
    links[i].down is None
}

/// An order that lists `n` distinct positions below `n` lists every position
/// below `n`.
pub proof fn lemma_order_covers(order: Seq<int>, n: int, i: int) -> (k: int)
    requires
        order.len() == n,
        forall|k: int| 0 <= k < n ==> 0 <= #[trigger] order[k] < n,
        forall|j: int, k: int| 0 <= j < k < n ==> order[j] != order[k],
        0 <= i < n,
    ensures
        0 <= k < n,
        order[k] == i,
{
    let all = Set::new(|x: int| 0 <= x < n);
    vstd::set_lib::lemma_int_range(0, n);
    assert(all =~= vstd::set_lib::set_int_range(0, n));
    assert(order.no_duplicates());
    order.unique_seq_to_set();
    let seen = order.to_set();
    assert(seen.subset_of(all)) by {
        assert forall|x: int| seen.contains(x) implies all.contains(x) by {
            let k = choose|k: int| 0 <= k < order.len() && order[k] == x;
            assert(0 <= order[k] < n);
        }
    }
    vstd::set_lib::lemma_subset_equality(seen, all);
    assert(seen.contains(i));
    choose|k: int| 0 <= k < order.len() && order[k] == i
}

/// In a chain every declared parent is itself declared.
pub proof fn lemma_chain_resolves(links: Seq<Link>, order: Seq<int>, i: int)
    requires
        is_chain(links, order),
    ensures
        !unresolved_at(links, i),
{
    if 0 <= i < links.len() && links[i].down is Some {
        let k = lemma_order_covers(order, links.len() as int, i);
        assert(links[order[k]].down is Some);
        assert(k >= 1);
        let p = order[k - 1];
        assert(links[p].revision == links[i].down->0);
    }
}

/// In a chain of unique revisions no two declarations name the same parent.
pub proof fn lemma_chain_no_branch(links: Seq<Link>, order: Seq<int>, i: int, j: int)
    requires
        is_chain(links, order),
        unique_revisions(links),
        0 <= i < links.len(),
        0 <= j < links.len(),
        i != j,
        links[i].down is Some,
    ensures
        links[i].down != links[j].down,
{
    if links[i].down == links[j].down {
        let n = links.len() as int;
        let a = lemma_order_covers(order, n, i);
        let b = lemma_order_covers(order, n, j);
        assert(links[order[a]].down is Some);
        assert(links[order[b]].down is Some);
        assert(a >= 1 && b >= 1);
        let pa = order[a - 1];
        let pb = order[b - 1];
        assert(links[pa].revision == links[pb].revision);
        assert(pa == pb);
        assert(a - 1 == b - 1);
    }
}

/// A chain has exactly one declaration without a parent and exactly one
/// without a child: its first and its last.
pub proof fn lemma_chain_ends(links: Seq<Link>, order: Seq<int>, i: int)
    requires
        is_chain(links, order),
        unique_revisions(links),
        0 <= i < links.len(),
    ensures
        parentless(links, i) <==> i == order[0],
        childless(links, i) <==> i == order[links.len() - 1],
{
    let n = links.len() as int;
    let k = lemma_order_covers(order, n, i);
    if k >= 1 {
        assert(links[order[k]].down is Some);
        assert(!parentless(links, i));
    } else {
        assert(parentless(links, i));
    }
    if k < n - 1 {
        assert(links[order[k + 1]].down == Some(links[order[k]].revision));
        assert(!childless(links, i));
    } else {
        assert forall|j: int| 0 <= j < n implies (#[trigger] links[j]).down != Some(
            links[i].revision,
        ) by {
            if links[j].down == Some(links[i].revision) {
                let m = lemma_order_covers(order, n, j);
                assert(links[order[m]].down is Some);
                assert(m >= 1);
                assert(links[order[m - 1]].revision == links[order[k]].revision);
                assert(order[m - 1] == order[k]);
                assert(m - 1 == k);
            }
        }
    }
}

/// Declaration `root` is the only one without a parent.
pub open spec fn only_root(links: Seq<Link>, root: int) -> bool {
    &&& 0 <= root < links.len()
    &&& forall|i: int| 0 <= i < links.len() ==> (#[trigger] parentless(links, i) <==> i == root)
}

/// Declaration `head` is the only one that nobody names as parent.
pub open spec fn only_head(links: Seq<Link>, head: int) -> bool {
    &&& 0 <= head < links.len()
    &&& forall|i: int| 0 <= i < links.len() ==> (#[trigger] childless(links, i) <==> i == head)
}

/// Head and queue: declarations that form one simple chain have exactly one
/// declaration without a parent, the root, and exactly one that nobody names
/// as parent, the head. So declarations with no root or several, or with no
/// head or several, form no chain.
pub proof fn law_one_head_one_root(links: Seq<Link>)
    requires
        is_linear(links),
    ensures
        exists|root: int| only_root(links, root),
        exists|head: int| only_head(links, head),
{
    let order = choose|order: Seq<int>| is_chain(links, order);
    let root = order[0];
    let head = order[links.len() - 1];
    assert forall|i: int| 0 <= i < links.len() implies (#[trigger] parentless(links, i) <==> i
        == root) by {
        lemma_chain_ends(links, order, i);
    }
    assert forall|i: int| 0 <= i < links.len() implies (#[trigger] childless(links, i) <==> i
        == head) by {
        lemma_chain_ends(links, order, i);
    }
    assert(only_root(links, root));
    assert(only_head(links, head));
}

/// With unique revisions, the order of a chain is determined.
pub proof fn lemma_chain_unique(links: Seq<Link>, a: Seq<int>, b: Seq<int>)
    requires
        is_chain(links, a),
        is_chain(links, b),
        unique_revisions(links),
    ensures
        a == b,
{
    let n = links.len() as int;
    assert forall|k: int| 0 <= k < n implies a[k] == b[k] by {
        lemma_chain_prefix(links, a, b, k);
    }
    assert(a =~= b);
}

proof fn lemma_chain_prefix(links: Seq<Link>, a: Seq<int>, b: Seq<int>, k: int)
    requires
        is_chain(links, a),
        is_chain(links, b),
        unique_revisions(links),
        0 <= k < links.len(),
    ensures
        a[k] == b[k],
    decreases k,
{
    if k == 0 {
        lemma_chain_ends(links, a, b[0]);
    } else {
        lemma_chain_prefix(links, a, b, k - 1);
        let n = links.len() as int;
        let m = lemma_order_covers(a, n, b[k]);
        assert(links[b[k]].down == Some(links[b[k - 1]].revision));
        assert(links[a[m]].down is Some);
        assert(m >= 1);
        assert(links[a[m - 1]].revision == links[a[k - 1]].revision);
        assert(a[m - 1] == a[k - 1]);
        assert(m - 1 == k - 1);
    }
}

} // verus!
