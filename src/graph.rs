//! The calls this library makes into the handle-graph storage engine.
//!
//! Handles, path identifiers and step pointers cross this boundary as their
//! integer encodings; a handle is `node_id * 2 + reverse`, and a step pointer
//! is a one-based index into a path's step list with `0` standing for none.
use vstd::prelude::*;
use handlegraph::handle::{Direction, Handle};
use handlegraph::handlegraph::{IntoHandles, IntoNeighbors};
use handlegraph::packedgraph::index::OneBasedIndex;
use handlegraph::packedgraph::paths::StepPtr;
use handlegraph::packedgraph::PackedGraph;
use handlegraph::pathhandlegraph::{
    GraphPathNames, GraphPaths, IntoNodeOccurrences, IntoPathIds, PathId,
};

verus! {

#[verifier::external_type_specification]
#[verifier::external_body]
pub struct ExPackedGraph(PackedGraph);

/// Which side of a handle an edge attaches to.
#[derive(Clone, Copy, Debug, PartialEq, Eq, Structural)]
pub enum Side {
    Left,
    Right,
}

/// The node handles of a graph, in the graph's own enumeration order.
pub uninterp spec fn handles_of(g: PackedGraph) -> Seq<u64>;

/// The (path id, step pointer) pairs recorded on a handle, or none when the
/// graph keeps no occurrence record for it.
pub uninterp spec fn steps_on_handle_of(g: PackedGraph, handle: u64) -> Option<Seq<(u64, u64)>>;

/// The raw bytes of a path's name.
pub uninterp spec fn path_name_of(g: PackedGraph, path: u64) -> Option<Seq<u8>>;

/// The text that a byte string decodes to as UTF-8, if it is valid UTF-8.
pub uninterp spec fn utf8_text_of(bytes: Seq<u8>) -> Option<Seq<char>>;

/// The length the graph reports for a path.
pub uninterp spec fn path_len_of(g: PackedGraph, path: u64) -> Option<usize>;

/// A path's first step pointer.
pub uninterp spec fn first_step_of(g: PackedGraph, path: u64) -> Option<u64>;

/// The step pointer after `step` on a path.
pub uninterp spec fn next_step_of(g: PackedGraph, path: u64, step: u64) -> Option<u64>;

/// The handle that a step of a path stands on.
pub uninterp spec fn handle_at_step_of(g: PackedGraph, path: u64, step: u64) -> Option<u64>;

/// Whether the graph holds a node of this identifier.
pub uninterp spec fn node_exists_of(g: PackedGraph, node: u64) -> bool;

/// The set of the graph's path identifiers.
pub uninterp spec fn path_id_set_of(g: PackedGraph) -> Set<u64>;

/// The number of edges on one side of a handle.
pub uninterp spec fn degree_of(g: PackedGraph, handle: u64, side: Side) -> usize;

/// `steps` starts at the path's first step and each entry is the step
/// after the one before it.
pub open spec fn linked_steps(g: PackedGraph, path: u64, steps: Seq<u64>) -> bool {
    &&& steps.len() >= 1
    &&& first_step_of(g, path) == Some(steps[0])
    &&& steps[0] != 0
    &&& forall|i: int| 0 <= i < steps.len() - 1 ==> next_step_of(g, path, #[trigger] steps[i]) == Some(steps[i + 1])
}

/// Relies on `IntoHandles::handles` of `&PackedGraph`: every node, forward,
/// in the order of the graph's node index.
#[verifier::external_body]
pub(crate) fn handles(g: &PackedGraph) -> (r: Vec<u64>)
    ensures
        r@ == handles_of(*g),
{
    g.handles().map(|h| h.as_integer()).collect()
}

/// Relies on `IntoNodeOccurrences::steps_on_handle` of `&PackedGraph`: the
/// steps recorded on a handle, each as its path and step pointer.
#[verifier::external_body]
pub(crate) fn steps_on_handle(g: &PackedGraph, handle: u64) -> (r: Option<Vec<(u64, u64)>>)
    ensures
        r matches Some(v) ==> steps_on_handle_of(*g, handle) == Some(v@),
        r is None ==> steps_on_handle_of(*g, handle) is None,
{
    g.steps_on_handle(Handle::from_integer(handle))
        .map(|it| it.map(|(p, s)| (p.0, s.to_vector_value())).collect())
}

/// Relies on `IntoPathIds::path_ids` of `&PackedGraph`: the identifiers of
/// all paths, in the order of a hash map's walk. They are the values of the
/// map from names to identifiers, and each path has its own identifier.
#[verifier::external_body]
pub(crate) fn path_ids(g: &PackedGraph) -> (r: Vec<u64>)
    ensures
        r@.no_duplicates(),
        r@.to_set() == path_id_set_of(*g),
{
    g.path_ids().map(|p| p.0).collect()
}

/// Relies on `GraphPathNames::get_path_name` of `&PackedGraph`: the bytes
/// of a path's name.
#[verifier::external_body]
pub(crate) fn path_name_bytes(g: &PackedGraph, path: u64) -> (r: Option<Vec<u8>>)
    ensures
        r matches Some(v) ==> path_name_of(*g, path) == Some(v@),
        r is None ==> path_name_of(*g, path) is None,
{
    g.get_path_name(PathId(path)).map(|n| n.collect())
}

/// Relies on `String::from_utf8`: succeeds exactly on valid UTF-8.
#[verifier::external_body]
pub(crate) fn decode_utf8(bytes: Vec<u8>) -> (r: Option<String>)
    ensures
        r matches Some(t) ==> utf8_text_of(bytes@) == Some(t@),
        r is None ==> utf8_text_of(bytes@) is None,
{
    String::from_utf8(bytes).ok()
}

/// Relies on `GraphPaths::path_len` of `PackedGraph`.
#[verifier::external_body]
pub(crate) fn path_len(g: &PackedGraph, path: u64) -> (r: Option<usize>)
    ensures
        r == path_len_of(*g, path),
{
    g.path_len(PathId(path))
}

/// Relies on `GraphPaths::path_first_step` of `PackedGraph`; an empty path
/// yields the null pointer `0`.
#[verifier::external_body]
pub(crate) fn first_step(g: &PackedGraph, path: u64) -> (r: Option<u64>)
    ensures
        r == first_step_of(*g, path),
{
    g.path_first_step(PathId(path)).map(|s| s.to_vector_value())
}

/// Relies on `GraphPaths::path_next_step` of `PackedGraph`; the step must be
/// one reached from the path's head, as a pointer past the path's records
/// fails an index assertion.
#[verifier::external_body]
pub(crate) fn next_step(g: &PackedGraph, path: u64, step: u64) -> (r: Option<u64>)
    requires
        exists|steps: Seq<u64>| linked_steps(*g, path, steps) && steps.last() == step,
    ensures
        r == next_step_of(*g, path, step),
{
    g.path_next_step(PathId(path), StepPtr::from_vector_value(step)).map(|s| s.to_vector_value())
}

/// Relies on `GraphPaths::path_handle_at_step` of `PackedGraph`; the step
/// must be one reached from the path's head, as for `next_step`.
#[verifier::external_body]
pub(crate) fn handle_at_step(g: &PackedGraph, path: u64, step: u64) -> (r: Option<u64>)
    requires
        exists|steps: Seq<u64>| linked_steps(*g, path, steps) && steps.last() == step,
    ensures
        r == handle_at_step_of(*g, path, step),
{
    g.path_handle_at_step(PathId(path), StepPtr::from_vector_value(step)).map(|h| h.as_integer())
}

/// Relies on `IntoHandles::has_node` of `&PackedGraph`.
#[verifier::external_body]
pub(crate) fn has_node(g: &PackedGraph, node: u64) -> (r: bool)
    ensures
        r == node_exists_of(*g, node),
{
    g.has_node(node)
}

/// Relies on `IntoNeighbors::degree` of `&PackedGraph`: the count of a
/// handle's neighbours on one side; it panics on a node the graph lacks.
#[verifier::external_body]
pub(crate) fn degree(g: &PackedGraph, handle: u64, side: Side) -> (r: usize)
    requires
        node_exists_of(*g, handle / 2),
    ensures
        r == degree_of(*g, handle, side),
{
    let dir = match side {
        Side::Left => Direction::Left,
        Side::Right => Direction::Right,
    };
    g.degree(Handle::from_integer(handle), dir)
}

} // verus!
