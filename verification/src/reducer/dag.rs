use vstd::prelude::*;
use btree_dag::BTreeDag;
use btree_dag::{AddEdge, AddVertex, Connections, RemoveEdge, Vertices};
use crate::error::Error;

verus! {

/// `btree_dag::BTreeDag`, a directed acyclic graph kept in ordered maps.
/// Nothing inside it is seen here; what it holds is named by `dag_edges`.
#[verifier::external_type_specification]
#[verifier::external_body]
#[verifier::reject_recursive_types(T)]
pub struct ExBTreeDag<T: Ord>(BTreeDag<T>);

/// What a `BTreeDag` holds: each vertex with the set of vertices that its
/// edges lead to.
pub uninterp spec fn dag_edges(d: BTreeDag<usize>) -> Map<usize, Set<usize>>;

/// There is a walk of at least one and at most `k` edges from `a` to `b`.
pub open spec fn walk_within(e: Map<usize, Set<usize>>, a: usize, b: usize, k: nat) -> bool
    decreases k,
{
    &&& k > 0
    &&& e.dom().contains(a)
    &&& (e[a].contains(b) || exists|m: usize|
        #![trigger e[a].contains(m)]
        e[a].contains(m) && walk_within(e, m, b, (k - 1) as nat))
}

/// There is a walk of at least one edge from `a` to `b`.
pub open spec fn walks_to(e: Map<usize, Set<usize>>, a: usize, b: usize) -> bool {
    exists|k: nat| walk_within(e, a, b, k)
}

/// `level` falls along every edge.
pub open spec fn levelled(e: Map<usize, Set<usize>>, level: spec_fn(usize) -> nat) -> bool {
    forall|a: usize, b: usize|
        #![trigger e[a].contains(b)]
        e.dom().contains(a) && e[a].contains(b) ==> level(a) > level(b)
}

/// The vertices can be numbered so that the number falls along every edge:
/// no walk returns to where it began.
pub open spec fn acyclic(e: Map<usize, Set<usize>>) -> bool {
    exists|level: spec_fn(usize) -> nat| levelled(e, level)
}

/// The graph without vertices.
pub open spec fn no_edges() -> Map<usize, Set<usize>> {
    Map::empty()
}

/// Both `x` and `y` are vertices.
pub open spec fn has_both(e: Map<usize, Set<usize>>, x: usize, y: usize) -> bool {
    e.dom().contains(x) && e.dom().contains(y)
}

/// The graph with `y` among the vertices that `x` leads to.
pub open spec fn with_edge(e: Map<usize, Set<usize>>, x: usize, y: usize) -> Map<usize, Set<usize>> {
    e.insert(x, e[x].insert(y))
}

/// The graph with `y` no longer among the vertices that `x` leads to.
pub open spec fn without_edge(e: Map<usize, Set<usize>>, x: usize, y: usize) -> Map<
    usize,
    Set<usize>,
> {
    e.insert(x, e[x].remove(y))
}

/// What becomes of a request to add the edge from `x` to `y`.
pub open spec fn edge_verdict(e: Map<usize, Set<usize>>, x: usize, y: usize) -> Result<(), Error> {
    if !has_both(e, x, y) {
        Err(Error::VertexAbsent)
    } else if walks_to(e, y, x) {
        Err(Error::Cycle)
    } else {
        Ok(())
    }
}

/// `BTreeDag::new`: a graph without vertices.
#[verifier::external_body]
pub(crate) fn dag_new() -> (d: BTreeDag<usize>)
    ensures
        dag_edges(d) == no_edges(),
{
    BTreeDag::new()
}

/// `Clone::clone` of a graph: a graph with the same vertices and edges.
#[verifier::external_body]
pub(crate) fn dag_clone(d: &BTreeDag<usize>) -> (r: BTreeDag<usize>)
    ensures
        dag_edges(r) == dag_edges(*d),
{
    d.clone()
}

/// `AddVertex::add_vertex`: the vertex is entered with no edges leaving it;
/// if it was there before, the edges that left it are gone.
#[verifier::external_body]
pub(crate) fn dag_add_vertex(d: &mut BTreeDag<usize>, x: usize)
    ensures
        dag_edges(*final(d)) == dag_edges(*old(d)).insert(x, Set::empty()),
{
    d.add_vertex(x);
}

/// `AddEdge::add_edge`: refused when an end is missing or when a walk leads
/// from `y` back to `x`; else `y` joins the vertices that `x` leads to.
#[verifier::external_body]
pub(crate) fn dag_add_edge(d: &mut BTreeDag<usize>, x: usize, y: usize) -> (r: Result<(), Error>)
    requires
        acyclic(dag_edges(*old(d))),
    ensures
        r == edge_verdict(dag_edges(*old(d)), x, y),
        dag_edges(*final(d)) == (if r.is_ok() {
            with_edge(dag_edges(*old(d)), x, y)
        } else {
            dag_edges(*old(d))
        }),
{
    match d.add_edge(x, y) {
        Ok(()) => Ok(()),
        Err(btree_dag::error::Error::VertexDoesNotExist) => Err(Error::VertexAbsent),
        Err(btree_dag::error::Error::EdgeExistsError) => Err(Error::Cycle),
    }
}

/// `RemoveEdge::remove_edge`: refused when an end is missing; else `y` leaves
/// the vertices that `x` leads to.
#[verifier::external_body]
pub(crate) fn dag_remove_edge(d: &mut BTreeDag<usize>, x: usize, y: usize) -> (r: Result<(), Error>)
    ensures
        r == (if has_both(dag_edges(*old(d)), x, y) {
            Ok(())
        } else {
            Err(Error::VertexAbsent)
        }),
        dag_edges(*final(d)) == (if r.is_ok() {
            without_edge(dag_edges(*old(d)), x, y)
        } else {
            dag_edges(*old(d))
        }),
{
    match d.remove_edge(x, y) {
        Ok(()) => Ok(()),
        Err(btree_dag::error::Error::VertexDoesNotExist) => Err(Error::VertexAbsent),
        Err(btree_dag::error::Error::EdgeExistsError) => Err(Error::Cycle),
    }
}

/// `Vertices::vertices`: the vertices, in ascending order.
#[verifier::external_body]
pub(crate) fn dag_vertices(d: &BTreeDag<usize>) -> (r: Vec<usize>)
    ensures
        ascending(r@),
        r@.to_set() == dag_edges(*d).dom(),
{
    d.vertices().into_iter().copied().collect()
}

/// `Connections::connections`: the vertices that `x` leads to, in ascending
/// order, or nothing when `x` is no vertex.
#[verifier::external_body]
pub(crate) fn dag_connections(d: &BTreeDag<usize>, x: usize) -> (r: Option<Vec<usize>>)
    ensures
        r.is_some() == dag_edges(*d).dom().contains(x),
        r.is_some() ==> ascending(r.unwrap()@) && r.unwrap()@.to_set() == dag_edges(*d)[x],
{
    match d.connections(x) {
        Some(s) => Some(s.iter().copied().collect()),
        None => None,
    }
}

/// Each entry is below the next.
pub open spec fn ascending(s: Seq<usize>) -> bool {
    forall|i: int, j: int| 0 <= i < j < s.len() ==> s[i] < s[j]
}

} // verus!
