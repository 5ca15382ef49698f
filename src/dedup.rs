//! Path summaries and their deduplication.
use vstd::prelude::*;

verus! {

/// A path's display name and its length as the graph reports it.
#[derive(Debug)]
pub struct PathInfo {
    pub name: String,
    pub length: usize,
}

/// The mathematical value of a path summary.
pub type InfoView = (Seq<char>, usize);

impl View for PathInfo {
    type V = InfoView;

    open spec fn view(&self) -> InfoView {
        (self.name@, self.length)
    }
}

/// The views of a sequence of summaries.
pub open spec fn infos_view(s: Seq<PathInfo>) -> Seq<InfoView> {
    s.map_values(|p: PathInfo| p@)
}

/// `s` with every entry after its first occurrence removed.
pub open spec fn dedup(s: Seq<InfoView>) -> Seq<InfoView>
    decreases s.len(),
{
    if s.len() == 0 {
        s
    } else {
        let d = dedup(s.drop_last());
        if d.contains(s.last()) {
            d
        } else {
            d.push(s.last())
        }
    }
}

/// No entry of `s` occurs twice.
pub open spec fn distinct(s: Seq<InfoView>) -> bool {
    forall|i: int, j: int| 0 <= i < s.len() && 0 <= j < s.len() && i != j ==> s[i] != s[j]
}

/// Deduplication keeps exactly the entries of its input, each once.
pub proof fn lemma_dedup_members(s: Seq<InfoView>)
    ensures
        distinct(dedup(s)),
        forall|x: InfoView| dedup(s).contains(x) <==> s.contains(x),
    decreases s.len(),
{
    if s.len() > 0 {
        let t = s.drop_last();
        lemma_dedup_members(t);
        assert forall|x: InfoView| dedup(s).contains(x) <==> s.contains(x) by {
            if s.contains(x) && x != s.last() {
                let k = choose|k: int| 0 <= k < s.len() && s[k] == x;
                assert(t[k] == x);
            }
            if t.contains(x) {
                let k = choose|k: int| 0 <= k < t.len() && t[k] == x;
                assert(s[k] == x);
            }
            if !dedup(t).contains(s.last()) {
                assert(dedup(s)[dedup(t).len() as int] == s.last());
                if dedup(s).contains(x) {
                    let k = choose|k: int| 0 <= k < dedup(s).len() && dedup(s)[k] == x;
                    if k < dedup(t).len() {
                        assert(dedup(t)[k] == x);
                    }
                }
                if dedup(t).contains(x) {
                    let k = choose|k: int| 0 <= k < dedup(t).len() && dedup(t)[k] == x;
                    assert(dedup(s)[k] == x);
                }
            }
            assert(s[s.len() - 1] == s.last());
        }
    }
}

/// A sequence without repeated entries is its own deduplication.
pub proof fn lemma_dedup_distinct(s: Seq<InfoView>)
    requires
        distinct(s),
    ensures
        dedup(s) == s,
    decreases s.len(),
{
    if s.len() > 0 {
        let t = s.drop_last();
        assert(distinct(t)) by {
            assert forall|i: int, j: int| 0 <= i < t.len() && 0 <= j < t.len() && i != j implies t[i] != t[j] by {
                assert(s[i] != s[j]);
            }
        }
        lemma_dedup_distinct(t);
        if t.contains(s.last()) {
            let k = choose|k: int| 0 <= k < t.len() && t[k] == s.last();
            assert(s[k] != s[s.len() - 1]);
        }
        assert(t.push(s.last()) =~= s);
    }
}

/// Deduplicating an already deduplicated sequence changes nothing.
pub proof fn lemma_dedup_idempotent(s: Seq<InfoView>)
    ensures
        dedup(dedup(s)) == dedup(s),
{
    lemma_dedup_members(s);
    lemma_dedup_distinct(dedup(s));
}

/// Keeps the first occurrence of each summary, in input order.
pub fn remove_duplicates(infos: Vec<PathInfo>) -> (r: Vec<PathInfo>)
    ensures
        infos_view(r@) == dedup(infos_view(infos@)),
{
    let mut out: Vec<PathInfo> = Vec::new();
    let mut i: usize = 0;
    while i < infos.len()
        invariant
            i <= infos@.len(),
            infos_view(out@) == dedup(infos_view(infos@.subrange(0, i as int))),
        decreases infos@.len() - i,
    {
        let x = &infos[i];
        let mut found = false;
        let mut j: usize = 0;
        while j < out.len()
            invariant
                j <= out@.len(),
                found <==> exists|k: int| 0 <= k < j && out@[k]@ == x@,
            decreases out@.len() - j,
        {
            if out[j].length == x.length && out[j].name == x.name {
                found = true;
            }
            j = j + 1;
        }
        let ghost prev = infos_view(infos@.subrange(0, i as int));
        let ghost next = infos_view(infos@.subrange(0, i as int + 1));
        proof {
            assert(next.drop_last() =~= prev);
            assert(next.last() == x@);
            let d = infos_view(out@);
            if found {
                let k = choose|k: int| 0 <= k < j && out@[k]@ == x@;
                assert(d[k] == x@);
            } else {
                assert(!d.contains(x@)) by {
                    if d.contains(x@) {
                        let k = choose|k: int| 0 <= k < d.len() && d[k] == x@;
                        assert(out@[k]@ == x@);
                    }
                }
            }
        }
        if !found {
            out.push(PathInfo { name: x.name.clone(), length: x.length });
            proof {
                assert(infos_view(out@) =~= infos_view(out@.drop_last()).push(x@));
            }
        }
        i = i + 1;
    }
    proof {
        assert(infos@.subrange(0, infos@.len() as int) =~= infos@);
    }
    out
}

} // verus!
