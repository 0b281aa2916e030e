//! Placing the entries of an archive below the destination.
//!
//! Every record must have an enclosed path, or nothing is extracted. The
//! common first component of those paths, where there is one, is removed from
//! all of them alike; without one the paths stay as they are.

use crate::entry::{enclosed_path, RawEntry, RawEntryView};
use crate::error::ExtractError;
use crate::path::RelPath;
use crate::prefix::{common_root, first_component, run, shares_root, RootDetector};
use crate::prefix::lemma_run_finds_common_root;
use vstd::prelude::*;

verus! {

/// Whether every record has an enclosed path.
pub open spec fn all_enclosed(records: Seq<RawEntryView>) -> bool {
    forall|i: int| 0 <= i < records.len() ==> enclosed_path(#[trigger] records[i]) is Some
}

/// Whether the record at `i` is the first one without an enclosed path.
pub open spec fn is_first_unsafe(records: Seq<RawEntryView>, i: int) -> bool {
    &&& 0 <= i < records.len()
    &&& enclosed_path(records[i]) is None
    &&& forall|j: int| 0 <= j < i ==> enclosed_path(#[trigger] records[j]) is Some
}

/// The index of the first record without an enclosed path.
pub open spec fn first_unsafe(records: Seq<RawEntryView>) -> int {
    choose|i: int| is_first_unsafe(records, i)
}

/// The enclosed paths of the records, in order.
pub open spec fn enclosed_paths(records: Seq<RawEntryView>) -> Seq<Seq<Seq<char>>> {
    Seq::new(records.len(), |i: int| enclosed_path(records[i])->0)
}

/// `path` without the leading component `root`. A path that does not start
/// with `root`, and any path where there is no root, stays as it is.
pub open spec fn strip_root(path: Seq<Seq<char>>, root: Option<Seq<char>>) -> Seq<Seq<char>> {
    match root {
        Some(component) => if path.len() > 0 && path[0] == component {
            path.drop_first()
        } else {
            path
        },
        None => path,
    }
}

/// Every path of `paths` without the leading component `root`.
pub open spec fn stripped_paths(paths: Seq<Seq<Seq<char>>>, root: Option<Seq<char>>) -> Seq<
    Seq<Seq<char>>,
> {
    Seq::new(paths.len(), |i: int| strip_root(paths[i], root))
}

/// Where the entries of an archive go.
#[derive(Debug)]
pub struct PathPlan {
    /// The top-level directory that was removed from every path, if any.
    pub root_prefix: Option<String>,
    /// For each record, in order, its path below the destination. An empty
    /// path marks a record that stands for the destination itself.
    pub rel_paths: Vec<RelPath>,
}

/// A `PathPlan` as a value of the model.
pub struct PathPlanView {
    pub root_prefix: Option<Seq<char>>,
    pub rel_paths: Seq<Seq<Seq<char>>>,
}

impl View for PathPlan {
    type V = PathPlanView;

    open spec fn view(&self) -> PathPlanView {
        PathPlanView {
            root_prefix: self.root_prefix.deep_view(),
            rel_paths: self.rel_paths.deep_view(),
        }
    }
}

/// The plan for `records`. Where a record has no enclosed path the first
/// such record is reported and there is no plan. Otherwise the root is the
/// first component that all enclosed paths share, if they share one, and
/// each path is the enclosed path without that root.
pub open spec fn spec_plan_paths(records: Seq<RawEntryView>) -> Result<PathPlanView, ExtractError> {
    if all_enclosed(records) {
        let paths = enclosed_paths(records);
        let root = common_root(paths);
        Ok(PathPlanView { root_prefix: root, rel_paths: stripped_paths(paths, root) })
    } else {
        Err(ExtractError::UnsafePath { index: first_unsafe(records) as usize })
    }
}

/// There is at most one first record without an enclosed path.
pub proof fn lemma_first_unsafe_unique(records: Seq<RawEntryView>, i: int)
    requires
        is_first_unsafe(records, i),
    ensures
        first_unsafe(records) == i,
        !all_enclosed(records),
{
    let k = first_unsafe(records);
    assert(is_first_unsafe(records, k));
    if k < i {
        assert(enclosed_path(records[k]) is Some);
    }
    if i < k {
        assert(enclosed_path(records[i]) is Some);
    }
}

/// Plans where the entries of an archive go, from their records alone.
pub fn plan_paths(records: &Vec<RawEntry>) -> (r: Result<PathPlan, ExtractError>)
    ensures
        match r {
            Ok(plan) => spec_plan_paths(records.deep_view()) == Ok::<PathPlanView, ExtractError>(
                plan@,
            ),
            Err(e) => spec_plan_paths(records.deep_view()) == Err::<PathPlanView, ExtractError>(e),
        },
{
    let ghost model = records.deep_view();
    let n = records.len();
    let mut paths: Vec<RelPath> = Vec::new();
    let mut detector = RootDetector::new();
    let mut i: usize = 0;
    while i < n
        invariant
            n == records.len(),
            model == records.deep_view(),
            i <= n,
            paths.len() == i,
            forall|j: int| 0 <= j < i ==> enclosed_path(#[trigger] model[j]) == Some(paths[j]@),
            detector@ == run(paths.deep_view()),
        decreases n - i,
    {
        let ghost seen = paths.deep_view();
        match records[i].enclosed_path() {
            None => {
                proof {
                    assert(model[i as int] == records[i as int]@);
                    assert(is_first_unsafe(model, i as int));
                    lemma_first_unsafe_unique(model, i as int);
                }
                return Err(ExtractError::UnsafePath { index: i });
            },
            Some(path) => {
                detector.observe(&path);
                proof {
                    assert(model[i as int] == records[i as int]@);
                }
                paths.push(path);
                proof {
                    assert(paths.deep_view() == seen.push(paths[i as int]@));
                    assert(paths.deep_view().drop_last() == seen);
                }
            },
        }
        i += 1;
    }
    proof {
        assert(all_enclosed(model));
        assert(paths.deep_view() == enclosed_paths(model));
        lemma_run_finds_common_root(paths.deep_view());
    }
    let root = detector.finish();
    let ghost enclosed = paths.deep_view();
    let rel_paths = match &root {
        None => {
            proof {
                assert(stripped_paths(enclosed, None) == enclosed);
            }
            paths
        },
        Some(component) => {
            let mut stripped: Vec<RelPath> = Vec::new();
            for path in it: paths.into_iter()
                invariant
                    it.seq().len() == enclosed.len(),
                    forall|j: int| 0 <= j < enclosed.len() ==> it.seq()[j]@ == #[trigger] enclosed[j],
                    root.deep_view() == Some(component@),
                    stripped.len() == it.index(),
                    forall|j: int|
                        0 <= j < stripped.len() ==> #[trigger] stripped[j]@ == strip_root(
                            enclosed[j],
                            root.deep_view(),
                        ),
            {
                let ghost k = stripped.len() as int;
                assert(path@ == enclosed[k]);
                let starts_with_root = match path.first() {
                    Some(first) => *first == *component,
                    None => false,
                };
                if starts_with_root {
                    stripped.push(path.strip_first());
                } else {
                    stripped.push(path);
                }
            }
            proof {
                assert(stripped.deep_view() == stripped_paths(enclosed, root.deep_view()));
            }
            stripped
        },
    };
    Ok(PathPlan { root_prefix: root, rel_paths })
}

/// Where all enclosed paths share a first component, every planned path is
/// the enclosed path without it: what lay below the shared directory lies
/// directly below the destination.
pub proof fn lemma_shared_root_is_removed(records: Seq<RawEntryView>, root: Seq<char>)
    requires
        all_enclosed(records),
        common_root(enclosed_paths(records)) == Some(root),
    ensures
        spec_plan_paths(records) matches Ok(plan) && plan.root_prefix == Some(root)
            && plan.rel_paths.len() == records.len() && forall|i: int|
            0 <= i < records.len() ==> {
                &&& (enclosed_path(#[trigger] records[i])->0).len() > 0
                &&& (enclosed_path(records[i])->0)[0] == root
                &&& plan.rel_paths[i] == (enclosed_path(records[i])->0).drop_first()
            },
{
    let paths = enclosed_paths(records);
    assert(shares_root(paths, root));
    assert forall|i: int| 0 <= i < records.len() implies {
        &&& (enclosed_path(#[trigger] records[i])->0).len() > 0
        &&& (enclosed_path(records[i])->0)[0] == root
        &&& stripped_paths(paths, Some(root))[i] == (enclosed_path(records[i])->0).drop_first()
    } by {
        assert(first_component(paths[i]) == root);
        assert(paths[i] == enclosed_path(records[i])->0);
    }
}

/// Where the enclosed paths share no first component, because two of them
/// start differently or one of them has none, no path is changed: every
/// planned path is the enclosed path as it is.
pub proof fn lemma_no_root_keeps_paths(records: Seq<RawEntryView>)
    requires
        all_enclosed(records),
        common_root(enclosed_paths(records)) is None,
    ensures
        spec_plan_paths(records) matches Ok(plan) && plan.root_prefix is None
            && plan.rel_paths.len() == records.len() && forall|i: int|
            0 <= i < records.len() ==> plan.rel_paths[i] == enclosed_path(#[trigger] records[i])->0,
{
}

/// Two paths that start differently, or one path without a first component,
/// rule a common root out.
pub proof fn lemma_disagreement_rules_root_out(paths: Seq<Seq<Seq<char>>>, i: int, j: int)
    requires
        0 <= i < paths.len(),
        0 <= j < paths.len(),
        first_component(paths[i]) != first_component(paths[j]) || first_component(paths[i]).len()
            == 0,
    ensures
        common_root(paths) is None,
{
    if common_root(paths) is Some {
        let root = first_component(paths[0]);
        assert(shares_root(paths, root));
        assert(first_component(paths[i]) == root);
        assert(first_component(paths[j]) == root);
    }
}

} // verus!
