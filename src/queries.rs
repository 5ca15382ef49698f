//! The four benchmark queries over a loaded graph.
use vstd::prelude::*;
use handlegraph::packedgraph::PackedGraph;
use rayon::iter::{IntoParallelRefIterator, ParallelIterator};
use crate::dedup::{dedup, infos_view, remove_duplicates, InfoView, PathInfo};
use crate::graph::{
    degree, degree_of, first_step, has_node, linked_steps, node_exists_of, path_id_set_of, first_step_of, handle_at_step, handle_at_step_of, handles,
    handles_of, next_step, next_step_of, path_ids, path_len, path_len_of, path_name_bytes,
    path_name_of, steps_on_handle, steps_on_handle_of, utf8_text_of, decode_utf8, Side,
};
use crate::ranking::{count_sum, counts_non_decreasing, rank_by_occupancy, sort_by_count, Occupancy};

verus! {

/// Why a query could not complete.
#[derive(Clone, Copy, Debug, PartialEq, Eq, Structural)]
pub enum QueryError {
    /// The graph reported absent something the query relies on: a path's
    /// name or length, the handle of a step, or any step on the target node.
    PreconditionViolated,
    /// A path name is not valid UTF-8.
    Decoding,
}

/// A path's name as text.
pub open spec fn path_text(g: PackedGraph, path: u64) -> Result<Seq<char>, QueryError> {
    match path_name_of(g, path) {
        None => Err(QueryError::PreconditionViolated),
        Some(b) => match utf8_text_of(b) {
            None => Err(QueryError::Decoding),
            Some(t) => Ok(t),
        },
    }
}

/// A path's name and reported length.
pub open spec fn path_summary(g: PackedGraph, path: u64) -> Result<InfoView, QueryError> {
    match path_text(g, path) {
        Err(e) => Err(e),
        Ok(t) => match path_len_of(g, path) {
            None => Err(QueryError::PreconditionViolated),
            Some(n) => Ok((t, n)),
        },
    }
}

/// The summaries of `ids` in order, or the first error met.
pub open spec fn summaries_of(g: PackedGraph, ids: Seq<u64>) -> Result<Seq<InfoView>, QueryError>
    decreases ids.len(),
{
    if ids.len() == 0 {
        Ok(Seq::empty())
    } else {
        match summaries_of(g, ids.drop_last()) {
            Err(e) => Err(e),
            Ok(s) => match path_summary(g, ids.last()) {
                Err(e) => Err(e),
                Ok(v) => Ok(s.push(v)),
            },
        }
    }
}

proof fn lemma_infos_err_extends(g: PackedGraph, ids: Seq<u64>, k: int)
    requires
        0 <= k <= ids.len(),
        summaries_of(g, ids.subrange(0, k)) is Err,
    ensures
        summaries_of(g, ids) == summaries_of(g, ids.subrange(0, k)),
    decreases ids.len(),
{
    if k == ids.len() {
        assert(ids.subrange(0, k) =~= ids);
    } else {
        assert(ids.drop_last().subrange(0, k) =~= ids.subrange(0, k));
        lemma_infos_err_extends(g, ids.drop_last(), k);
    }
}

/// A successful summary list has one entry per identifier, each the
/// summary of that identifier's path.
pub proof fn lemma_infos_entries(g: PackedGraph, ids: Seq<u64>)
    requires
        summaries_of(g, ids) is Ok,
    ensures
        summaries_of(g, ids)->Ok_0.len() == ids.len(),
        forall|i: int| 0 <= i < ids.len() ==> path_summary(g, #[trigger] ids[i]) == Ok::<InfoView, QueryError>(summaries_of(g, ids)->Ok_0[i]),
    decreases ids.len(),
{
    if ids.len() > 0 {
        lemma_infos_entries(g, ids.drop_last());
        let s = summaries_of(g, ids.drop_last())->Ok_0;
        assert forall|i: int| 0 <= i < ids.len() implies path_summary(g, #[trigger] ids[i]) == Ok::<InfoView, QueryError>(summaries_of(g, ids)->Ok_0[i]) by {
            if i < ids.len() - 1 {
                assert(ids.drop_last()[i] == ids[i]);
            }
        }
    }
}

/// Resolves a path's name as text.
pub fn path_name(g: &PackedGraph, path: u64) -> (r: Result<String, QueryError>)
    ensures
        match r {
            Ok(t) => path_text(*g, path) == Ok::<Seq<char>, QueryError>(t@),
            Err(e) => path_text(*g, path) == Err::<Seq<char>, QueryError>(e),
        },
{
    match path_name_bytes(g, path) {
        None => Err(QueryError::PreconditionViolated),
        Some(b) => match decode_utf8(b) {
            None => Err(QueryError::Decoding),
            Some(t) => Ok(t),
        },
    }
}

/// Resolves a path's name and reported length.
pub fn path_info(g: &PackedGraph, path: u64) -> (r: Result<PathInfo, QueryError>)
    ensures
        match r {
            Ok(v) => path_summary(*g, path) == Ok::<InfoView, QueryError>(v@),
            Err(e) => path_summary(*g, path) == Err::<InfoView, QueryError>(e),
        },
{
    let name = path_name(g, path)?;
    match path_len(g, path) {
        None => Err(QueryError::PreconditionViolated),
        Some(n) => Ok(PathInfo { name, length: n }),
    }
}

/// Relies on rayon's `par_iter`, `map` and `collect` over a vector: the
/// closure runs once per identifier, and the collected vector keeps the
/// input order.
#[verifier::external_body]
fn par_path_infos(g: &PackedGraph, ids: &Vec<u64>) -> (r: Vec<Result<PathInfo, QueryError>>)
    ensures
        r@.len() == ids@.len(),
        forall|i: int| 0 <= i < ids@.len() ==> match #[trigger] r@[i] {
            Ok(v) => path_summary(*g, ids@[i]) == Ok::<InfoView, QueryError>(v@),
            Err(e) => path_summary(*g, ids@[i]) == Err::<InfoView, QueryError>(e),
        },
{
    ids.par_iter().map(|&p| path_info(g, p)).collect()
}

/// Resolves the summary of every path in `ids`, each on a worker of the
/// thread pool; fails with the error of the first path, in input order,
/// that fails.
pub fn path_infos(g: &PackedGraph, ids: &Vec<u64>) -> (r: Result<Vec<PathInfo>, QueryError>)
    ensures
        match r {
            Ok(v) => summaries_of(*g, ids@) == Ok::<Seq<InfoView>, QueryError>(infos_view(v@)),
            Err(e) => summaries_of(*g, ids@) == Err::<Seq<InfoView>, QueryError>(e),
        },
{
    let results = par_path_infos(g, ids);
    let mut out: Vec<PathInfo> = Vec::new();
    let mut i: usize = 0;
    proof {
        assert(ids@.subrange(0, 0) =~= Seq::<u64>::empty());
        assert(infos_view(out@) =~= Seq::<InfoView>::empty());
    }
    while i < ids.len()
        invariant
            i <= ids@.len(),
            results@.len() == ids@.len(),
            forall|k: int| 0 <= k < ids@.len() ==> match #[trigger] results@[k] {
                Ok(v) => path_summary(*g, ids@[k]) == Ok::<InfoView, QueryError>(v@),
                Err(e) => path_summary(*g, ids@[k]) == Err::<InfoView, QueryError>(e),
            },
            summaries_of(*g, ids@.subrange(0, i as int)) == Ok::<Seq<InfoView>, QueryError>(infos_view(out@)),
        decreases ids@.len() - i,
    {
        let ghost pre = ids@.subrange(0, i as int + 1);
        proof {
            assert(pre.drop_last() =~= ids@.subrange(0, i as int));
            assert(pre.last() == ids@[i as int]);
        }
        match &results[i] {
            Err(e) => {
                proof {
                    lemma_infos_err_extends(*g, ids@, i as int + 1);
                }
                return Err(*e);
            },
            Ok(v) => {
                let ghost before = out@;
                let ghost w = v@;
                out.push(PathInfo { name: v.name.clone(), length: v.length });
                proof {
                    assert(infos_view(out@) =~= infos_view(before).push(w));
                    assert(summaries_of(*g, pre) == Ok::<Seq<InfoView>, QueryError>(infos_view(before).push(w)));
                }
            },
        }
        i = i + 1;
    }
    proof {
        assert(ids@.subrange(0, ids@.len() as int) =~= ids@);
    }
    Ok(out)
}

/// How many steps a graph records on a handle; a handle without an
/// occurrence record has none.
pub open spec fn occupancy_of(g: PackedGraph, handle: u64) -> nat {
    match steps_on_handle_of(g, handle) {
        None => 0,
        Some(s) => s.len(),
    }
}

/// Each node of the graph, in enumeration order, with its occupancy.
pub open spec fn occupancies(g: PackedGraph) -> Seq<Occupancy> {
    handles_of(g).map_values(|h: u64| ((h / 2) as u64, occupancy_of(g, h) as usize))
}

/// The nodes of the graph with their occupancy counts, ascending by count;
/// nodes with equal counts keep the graph's enumeration order.
pub fn nodes_high_path_count(g: &PackedGraph) -> (r: Vec<Occupancy>)
    ensures
        r@ == sort_by_count(occupancies(*g)),
        counts_non_decreasing(r@),
        count_sum(r@) == count_sum(occupancies(*g)),
{
    let hs = handles(g);
    let mut nodes: Vec<Occupancy> = Vec::new();
    let mut i: usize = 0;
    while i < hs.len()
        invariant
            i <= hs@.len(),
            hs@ == handles_of(*g),
            nodes@ == occupancies(*g).subrange(0, i as int),
        decreases hs@.len() - i,
    {
        let h = hs[i];
        let count: usize = match steps_on_handle(g, h) {
            None => 0,
            Some(v) => v.len(),
        };
        nodes.push((h / 2, count));
        i = i + 1;
        proof {
            assert(nodes@ =~= occupancies(*g).subrange(0, i as int));
        }
    }
    proof {
        assert(occupancies(*g).subrange(0, hs@.len() as int) =~= occupancies(*g));
    }
    rank_by_occupancy(nodes)
}

/// Every path's name and reported length, in the graph's path order (the
/// walk of a hash map, so no particular order is promised).
pub fn path_lengths(g: &PackedGraph) -> (r: Result<Vec<PathInfo>, QueryError>)
    ensures
        match r {
            Ok(v) => exists|ids: Seq<u64>| #![trigger summaries_of(*g, ids)]
                ids.no_duplicates() && ids.to_set() == path_id_set_of(*g)
                && summaries_of(*g, ids) == Ok::<Seq<InfoView>, QueryError>(infos_view(v@)),
            Err(e) => exists|ids: Seq<u64>| #![trigger summaries_of(*g, ids)]
                ids.no_duplicates() && ids.to_set() == path_id_set_of(*g)
                && summaries_of(*g, ids) == Err::<Seq<InfoView>, QueryError>(e),
        },
{
    let ids = path_ids(g);
    path_infos(g, &ids)
}

/// The largest node identifier that a handle can encode, plus one.
pub const NODE_ID_LIMIT: u64 = 0x8000_0000_0000_0000;

/// The distinct summaries of the paths with a step on the forward handle
/// of `node_id`, or the error that stops the query.
pub open spec fn through_node_result(g: PackedGraph, node_id: u64) -> Result<Seq<InfoView>, QueryError> {
    match steps_on_handle_of(g, (2 * node_id) as u64) {
        None => Err(QueryError::PreconditionViolated),
        Some(s) => if s.len() == 0 {
            Err(QueryError::PreconditionViolated)
        } else {
            match summaries_of(g, s.map_values(|x: (u64, u64)| x.0)) {
                Err(e) => Err(e),
                Ok(v) => Ok(dedup(v)),
            }
        },
    }
}

/// The distinct (name, length) summaries of the paths that step on the
/// forward handle of `node_id`, first occurrence first. A node with no
/// recorded step is an error, not an empty answer.
pub fn paths_through_node(g: &PackedGraph, node_id: u64) -> (r: Result<Vec<PathInfo>, QueryError>)
    requires
        node_id < NODE_ID_LIMIT,
    ensures
        match r {
            Ok(v) => through_node_result(*g, node_id) == Ok::<Seq<InfoView>, QueryError>(infos_view(v@)),
            Err(e) => through_node_result(*g, node_id) == Err::<Seq<InfoView>, QueryError>(e),
        },
{
    let steps = match steps_on_handle(g, node_id * 2) {
        None => return Err(QueryError::PreconditionViolated),
        Some(v) => v,
    };
    if steps.len() == 0 {
        return Err(QueryError::PreconditionViolated);
    }
    let ghost pids = steps@.map_values(|x: (u64, u64)| x.0);
    let mut ids: Vec<u64> = Vec::new();
    let mut i: usize = 0;
    while i < steps.len()
        invariant
            i <= steps@.len(),
            ids@ == pids.subrange(0, i as int),
            pids == steps@.map_values(|x: (u64, u64)| x.0),
        decreases steps@.len() - i,
    {
        ids.push(steps[i].0);
        i = i + 1;
        proof {
            assert(ids@ =~= pids.subrange(0, i as int));
        }
    }
    proof {
        assert(pids.subrange(0, steps@.len() as int) =~= pids);
    }
    let infos = path_infos(g, &ids)?;
    Ok(remove_duplicates(infos))
}

/// Every summary that the query through a node returns is the summary of a
/// path with a step on that node's forward handle.
pub proof fn lemma_through_node_containment(g: PackedGraph, node_id: u64, x: InfoView)
    requires
        node_id < NODE_ID_LIMIT,
        through_node_result(g, node_id) is Ok,
        through_node_result(g, node_id)->Ok_0.contains(x),
    ensures
        exists|k: int|
            0 <= k < steps_on_handle_of(g, (2 * node_id) as u64)->Some_0.len()
            && path_summary(g, #[trigger] steps_on_handle_of(g, (2 * node_id) as u64)->Some_0[k].0)
                == Ok::<InfoView, QueryError>(x),
{
    let s = steps_on_handle_of(g, (2 * node_id) as u64)->Some_0;
    let ids = s.map_values(|x: (u64, u64)| x.0);
    assert(steps_on_handle_of(g, (2 * node_id) as u64) is Some);
    assert(summaries_of(g, ids) is Ok);
    let v = summaries_of(g, ids)->Ok_0;
    assert(through_node_result(g, node_id)->Ok_0 == dedup(v));
    crate::dedup::lemma_dedup_members(v);
    assert(v.contains(x));
    lemma_infos_entries(g, ids);
    let k = choose|k: int| 0 <= k < v.len() && v[k] == x;
    assert(ids[k] == s[k].0);
    assert(path_summary(g, s[k].0) == Ok::<InfoView, QueryError>(x));
}

/// The summaries through a node contain no repeats, so deduplicating them
/// again changes nothing.
pub proof fn lemma_through_node_dedup_stable(g: PackedGraph, node_id: u64)
    requires
        through_node_result(g, node_id) is Ok,
    ensures
        dedup(through_node_result(g, node_id)->Ok_0) == through_node_result(g, node_id)->Ok_0,
{
    let s = steps_on_handle_of(g, (2 * node_id) as u64)->Some_0;
    let v = summaries_of(g, s.map_values(|x: (u64, u64)| x.0))->Ok_0;
    crate::dedup::lemma_dedup_idempotent(v);
}

/// One step of a path walk: the path's name, the step's 1-based position,
/// and the left and right degrees of the handle it stands on.
#[derive(Debug)]
pub struct StepRecord {
    pub path_name: String,
    pub position: usize,
    pub in_degree: usize,
    pub out_degree: usize,
}

/// The mathematical value of a step record.
pub type RecordView = (Seq<char>, usize, usize, usize);

impl View for StepRecord {
    type V = RecordView;

    open spec fn view(&self) -> RecordView {
        (self.path_name@, self.position, self.in_degree, self.out_degree)
    }
}

/// The views of a sequence of step records.
pub open spec fn records_view(s: Seq<StepRecord>) -> Seq<RecordView> {
    s.map_values(|r: StepRecord| r@)
}

/// A path has no first step: the graph reports none, or the null pointer.
pub open spec fn path_is_empty(g: PackedGraph, path: u64) -> bool {
    first_step_of(g, path) matches Some(f) ==> f == 0
}

/// `steps` is the whole step chain of the path, first to last.
pub open spec fn step_chain(g: PackedGraph, path: u64, steps: Seq<u64>) -> bool {
    linked_steps(g, path, steps) && next_step_of(g, path, steps.last()) is None
}

/// The record the walk emits for the step at `i` of `steps`.
pub open spec fn record_at(g: PackedGraph, path: u64, name: Seq<char>, steps: Seq<u64>, i: int) -> RecordView {
    let h = handle_at_step_of(g, path, steps[i])->Some_0;
    (name, (i + 1) as usize, degree_of(g, h, Side::Left), degree_of(g, h, Side::Right))
}

/// `recs` holds one record per step of `steps`, in order, each for a step
/// whose handle the graph resolves.
pub open spec fn records_match(g: PackedGraph, path: u64, name: Seq<char>, steps: Seq<u64>, recs: Seq<RecordView>) -> bool {
    &&& recs.len() == steps.len()
    &&& recs.len() <= usize::MAX
    &&& forall|i: int| 0 <= i < steps.len() ==> handle_at_step_of(g, path, #[trigger] steps[i]) is Some
        && node_exists_of(g, handle_at_step_of(g, path, steps[i])->Some_0 / 2)
    &&& forall|i: int| 0 <= i < recs.len() ==> #[trigger] recs[i] == record_at(g, path, name, steps, i)
}

/// What a successful walk of a path returns: nothing for an empty path,
/// else one record per step of the path's chain.
pub open spec fn walk_ok(g: PackedGraph, path: u64, recs: Seq<RecordView>) -> bool {
    if path_is_empty(g, path) {
        recs.len() == 0
    } else {
        exists|steps: Seq<u64>|
            step_chain(g, path, steps) && #[trigger] records_match(g, path, path_text(g, path)->Ok_0, steps, recs)
    }
}

/// When a walk of a path fails: its name cannot be resolved, or a step on
/// its chain has no handle or a handle of a node the graph lacks, or the
/// chain outgrows the position counter.
pub open spec fn walk_err(g: PackedGraph, path: u64, e: QueryError) -> bool {
    &&& !path_is_empty(g, path)
    &&& path_text(g, path) is Err ==> e == path_text(g, path)->Err_0
    &&& path_text(g, path) is Ok ==> e == QueryError::PreconditionViolated && exists|steps: Seq<u64>|
        linked_steps(g, path, steps)
        && (#[trigger] handle_at_step_of(g, path, steps.last()) is None
            || !node_exists_of(g, handle_at_step_of(g, path, steps.last())->Some_0 / 2)
            || steps.len() > usize::MAX)
}

/// Walks one path from its first step to its last, emitting a record per
/// step. An empty path yields no records.
pub fn walk_path(g: &PackedGraph, path: u64) -> (r: Result<Vec<StepRecord>, QueryError>)
    ensures
        match r {
            Ok(v) => walk_ok(*g, path, records_view(v@)),
            Err(e) => walk_err(*g, path, e),
        },
{
    let first = match first_step(g, path) {
        None => return Ok(Vec::new()),
        Some(f) => f,
    };
    if first == 0 {
        return Ok(Vec::new());
    }
    let name = path_name(g, path)?;
    let mut out: Vec<StepRecord> = Vec::new();
    let mut cur: u64 = first;
    let ghost mut steps: Seq<u64> = seq![first];
    loop
        invariant
            linked_steps(*g, path, steps),
            steps.last() == cur,
            steps.len() == out@.len() + 1,
            path_text(*g, path) == Ok::<Seq<char>, QueryError>(name@),
            records_match(*g, path, name@, steps.drop_last(), records_view(out@)),
        decreases usize::MAX - out@.len(),
    {
        proof {
            assert(linked_steps(*g, path, steps) && steps.last() == cur);
        }
        let h = match handle_at_step(g, path, cur) {
            None => return Err(QueryError::PreconditionViolated),
            Some(h) => h,
        };
        if !has_node(g, h / 2) {
            return Err(QueryError::PreconditionViolated);
        }
        if out.len() == usize::MAX {
            return Err(QueryError::PreconditionViolated);
        }
        let ghost before = out@;
        let rec = StepRecord {
            path_name: name.clone(),
            position: out.len() + 1,
            in_degree: degree(g, h, Side::Left),
            out_degree: degree(g, h, Side::Right),
        };
        out.push(rec);
        proof {
            let n = out@.len() as int - 1;
            assert(steps.drop_last().push(cur) =~= steps);
            assert(records_view(out@) =~= records_view(before).push(record_at(*g, path, name@, steps, n)));
            assert forall|i: int| 0 <= i < n implies record_at(*g, path, name@, steps.drop_last(), i) == record_at(*g, path, name@, steps, i) by {
                assert(steps.drop_last()[i] == steps[i]);
            }
            assert(records_match(*g, path, name@, steps, records_view(out@))) by {
                assert forall|i: int| 0 <= i < steps.len() implies handle_at_step_of(*g, path, #[trigger] steps[i]) is Some by {
                    if i < n {
                        assert(steps.drop_last()[i] == steps[i]);
                    }
                }
            }
        }
        match next_step(g, path, cur) {
            None => {
                proof {
                    assert(step_chain(*g, path, steps));
                    assert(records_match(*g, path, path_text(*g, path)->Ok_0, steps, records_view(out@)));
                }
                return Ok(out);
            },
            Some(t) => {
                proof {
                    let old_steps = steps;
                    steps = steps.push(t);
                    assert(steps.drop_last() =~= old_steps);
                    assert forall|i: int| 0 <= i < steps.len() - 1 implies next_step_of(*g, path, #[trigger] steps[i]) == Some(steps[i + 1]) by {
                        if i < old_steps.len() - 1 {
                            assert(old_steps[i] == steps[i] && old_steps[i + 1] == steps[i + 1]);
                        }
                    }
                }
                cur = t;
            },
        }
    }
}

/// Relies on rayon's `par_iter`, `map` and `collect` over a vector: the
/// closure runs once per identifier, and the collected vector keeps the
/// input order.
#[verifier::external_body]
fn par_walk_paths(g: &PackedGraph, ids: &Vec<u64>) -> (r: Vec<Result<Vec<StepRecord>, QueryError>>)
    ensures
        r@.len() == ids@.len(),
        forall|i: int| 0 <= i < ids@.len() ==> match #[trigger] r@[i] {
            Ok(v) => walk_ok(*g, ids@[i], records_view(v@)),
            Err(e) => walk_err(*g, ids@[i], e),
        },
{
    ids.par_iter().map(|&p| walk_path(g, p)).collect()
}

/// Walks each path of `ids`, each on a worker of the thread pool, one
/// record list per path; fails with the error of the first path, in input
/// order, whose walk fails.
pub fn walk_paths(g: &PackedGraph, ids: &Vec<u64>) -> (r: Result<Vec<Vec<StepRecord>>, QueryError>)
    ensures
        match r {
            Ok(v) => v@.len() == ids@.len() && forall|i: int| 0 <= i < v@.len() ==> walk_ok(*g, ids@[i], records_view(#[trigger] v@[i]@)),
            Err(e) => exists|i: int| 0 <= i < ids@.len() && walk_err(*g, #[trigger] ids@[i], e),
        },
{
    let mut results = par_walk_paths(g, ids);
    let ghost all = results@;
    let mut out: Vec<Vec<StepRecord>> = Vec::new();
    let mut i: usize = 0;
    while i < ids.len()
        invariant
            i <= ids@.len(),
            all.len() == ids@.len(),
            results@.len() == all.len(),
            forall|k: int| i <= k < all.len() ==> #[trigger] results@[k] == all[k],
            forall|k: int| 0 <= k < ids@.len() ==> match #[trigger] all[k] {
                Ok(v) => walk_ok(*g, ids@[k], records_view(v@)),
                Err(e) => walk_err(*g, ids@[k], e),
            },
            out@.len() == i,
            forall|k: int| 0 <= k < i ==> walk_ok(*g, ids@[k], records_view(#[trigger] out@[k]@)),
        decreases ids@.len() - i,
    {
        let mut res: Result<Vec<StepRecord>, QueryError> = Ok(Vec::new());
        std::mem::swap(&mut results[i], &mut res);
        proof {
            assert(res == all[i as int]);
        }
        match res {
            Err(e) => return Err(e),
            Ok(v) => out.push(v),
        }
        i = i + 1;
    }
    Ok(out)
}

/// Every path's step records, grouped by path, in the graph's path order
/// (the walk of a hash map, so no particular order is promised).
pub fn steps_io_degrees(g: &PackedGraph) -> (r: Result<Vec<Vec<StepRecord>>, QueryError>)
    ensures
        match r {
            Ok(v) => exists|ids: Seq<u64>| #![trigger ids.to_set()]
                ids.no_duplicates() && ids.to_set() == path_id_set_of(*g) && v@.len() == ids.len()
                && forall|i: int| 0 <= i < v@.len() ==> walk_ok(*g, ids[i], records_view(#[trigger] v@[i]@)),
            Err(e) => exists|p: u64| path_id_set_of(*g).contains(p) && #[trigger] walk_err(*g, p, e),
        },
{
    let ids = path_ids(g);
    let r = walk_paths(g, &ids);
    proof {
        if r is Err {
            let i = choose|i: int| 0 <= i < ids@.len() && walk_err(*g, #[trigger] ids@[i], r->Err_0);
            assert(ids@.to_set().contains(ids@[i]));
            assert(walk_err(*g, ids@[i], r->Err_0));
        }
    }
    r
}

/// A path has one step chain: two chains of the same path agree.
pub proof fn lemma_chain_unique(g: PackedGraph, path: u64, a: Seq<u64>, b: Seq<u64>)
    requires
        step_chain(g, path, a),
        step_chain(g, path, b),
    ensures
        a == b,
{
    let n = if a.len() < b.len() { a.len() } else { b.len() };
    assert forall|i: int| 0 <= i < n implies a[i] == b[i] by {
        lemma_chain_prefix_agrees(g, path, a, b, i);
    }
    if a.len() < b.len() {
        assert(next_step_of(g, path, b[a.len() - 1]) == Some(b[a.len() as int]));
        assert(false);
    } else if b.len() < a.len() {
        assert(next_step_of(g, path, a[b.len() - 1]) == Some(a[b.len() as int]));
        assert(false);
    }
    assert(a =~= b);
}

proof fn lemma_chain_prefix_agrees(g: PackedGraph, path: u64, a: Seq<u64>, b: Seq<u64>, i: int)
    requires
        linked_steps(g, path, a),
        linked_steps(g, path, b),
        0 <= i < a.len(),
        i < b.len(),
    ensures
        a[i] == b[i],
    decreases i,
{
    if i > 0 {
        lemma_chain_prefix_agrees(g, path, a, b, i - 1);
        assert(next_step_of(g, path, a[i - 1]) == Some(a[i]));
        assert(next_step_of(g, path, b[i - 1]) == Some(b[i]));
    }
}

/// A successful walk of a path with a step chain emits exactly one record
/// per step, at positions 1, 2, ... up to the number of steps.
pub proof fn lemma_walk_complete(g: PackedGraph, path: u64, steps: Seq<u64>, recs: Seq<RecordView>)
    requires
        step_chain(g, path, steps),
        walk_ok(g, path, recs),
    ensures
        recs.len() == steps.len(),
        forall|i: int| 0 <= i < recs.len() ==> (#[trigger] recs[i]).1 == i + 1,
{
    let other = choose|other: Seq<u64>|
        step_chain(g, path, other) && #[trigger] records_match(g, path, path_text(g, path)->Ok_0, other, recs);
    lemma_chain_unique(g, path, steps, other);
    assert forall|i: int| 0 <= i < recs.len() implies (#[trigger] recs[i]).1 == i + 1 by {
        assert(recs[i] == record_at(g, path, path_text(g, path)->Ok_0, other, i));
    }
}

} // verus!
