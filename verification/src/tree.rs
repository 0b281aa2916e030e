//! A model of the tree that writing leaves below the destination.
//!
//! The model holds names and contents: a node is a directory or a file with
//! its bytes. Mode bits are left out, since a failure to set them is
//! ignored and so they are not determined by the steps. Every step of the
//! model succeeds; the model says what the tree holds once all steps have
//! been performed, not whether they can be.

use crate::entry::MemEntryView;
use crate::writer::{write_steps, WriteStepView};
use vstd::prelude::*;

verus! {

/// What lies at one path below the destination.
pub enum Node {
    /// A directory.
    Directory,
    /// A file with its bytes.
    File { content: Seq<u8> },
}

/// Whether `short` names `path` or a directory above it: `short` is not
/// empty and `path` starts with it.
pub open spec fn leads_to(short: Seq<Seq<char>>, path: Seq<Seq<char>>) -> bool {
    0 < short.len() <= path.len() && path.take(short.len() as int) == short
}

/// Whether `step` leaves a directory at `at`.
pub open spec fn makes_directory(step: WriteStepView, at: Seq<Seq<char>>) -> bool {
    step matches WriteStepView::CreateDirs { path } && leads_to(at, path)
}

/// Whether `step` leaves a file at `at`.
pub open spec fn makes_file(step: WriteStepView, at: Seq<Seq<char>>) -> bool {
    step matches WriteStepView::WriteFile { path, .. } && path == at
}

/// The tree after one step.
pub open spec fn apply_step(tree: Map<Seq<Seq<char>>, Node>, step: WriteStepView) -> Map<
    Seq<Seq<char>>,
    Node,
> {
    match step {
        WriteStepView::CreateDirs { path } => Map::new(
            |at: Seq<Seq<char>>| tree.dom().contains(at) || leads_to(at, path),
            |at: Seq<Seq<char>>|
                if leads_to(at, path) {
                    Node::Directory
                } else {
                    tree[at]
                },
        ),
        WriteStepView::WriteFile { path, content } => tree.insert(path, Node::File { content }),
        WriteStepView::SetMode { .. } => tree,
    }
}

/// The tree after `steps`, taken in order.
pub open spec fn apply_steps(tree: Map<Seq<Seq<char>>, Node>, steps: Seq<WriteStepView>) -> Map<
    Seq<Seq<char>>,
    Node,
>
    decreases steps.len(),
{
    if steps.len() == 0 {
        tree
    } else {
        apply_step(apply_steps(tree, steps.drop_last()), steps.last())
    }
}

/// The tree that `steps` leave below an empty destination.
pub open spec fn tree_after(steps: Seq<WriteStepView>) -> Map<Seq<Seq<char>>, Node> {
    apply_steps(Map::empty(), steps)
}

/// Whether some step of `steps` leaves a node at `at`.
pub open spec fn touched(steps: Seq<WriteStepView>, at: Seq<Seq<char>>) -> bool {
    exists|i: int|
        0 <= i < steps.len() && (makes_directory(#[trigger] steps[i], at) || makes_file(
            steps[i],
            at,
        ))
}

/// Whether the steps agree on what lies where: no path is made a directory
/// by one step and a file by another, and two steps that write the same file
/// write the same bytes.
pub open spec fn coherent(steps: Seq<WriteStepView>) -> bool {
    &&& forall|i: int, j: int, at: Seq<Seq<char>>|
        0 <= i < steps.len() && 0 <= j < steps.len() && #[trigger] makes_directory(steps[i], at)
            ==> !#[trigger] makes_file(steps[j], at)
    &&& forall|i: int, j: int|
        0 <= i < steps.len() && 0 <= j < steps.len() && (#[trigger] steps[i]) is WriteFile && (
        #[trigger] steps[j]) is WriteFile && steps[i]->WriteFile_path == steps[j]->WriteFile_path
            ==> steps[i]->WriteFile_content == steps[j]->WriteFile_content
}

/// The nodes of the tree are the paths that some step leaves a node at.
pub proof fn lemma_tree_domain(steps: Seq<WriteStepView>)
    ensures
        forall|at: Seq<Seq<char>>| #[trigger]
            tree_after(steps).dom().contains(at) <==> touched(steps, at),
    decreases steps.len(),
{
    if steps.len() == 0 {
        assert forall|at: Seq<Seq<char>>| #[trigger]
            tree_after(steps).dom().contains(at) <==> touched(steps, at) by {}
    } else {
        let front = steps.drop_last();
        let last = steps.last();
        lemma_tree_domain(front);
        assert forall|at: Seq<Seq<char>>| #[trigger]
            tree_after(steps).dom().contains(at) <==> touched(steps, at) by {
            assert(tree_after(front).dom().contains(at) <==> touched(front, at));
            if touched(front, at) {
                let i = choose|i: int|
                    0 <= i < front.len() && (makes_directory(#[trigger] front[i], at) || makes_file(
                        front[i],
                        at,
                    ));
                assert(steps[i] == front[i]);
            }
            if makes_directory(last, at) || makes_file(last, at) {
                assert(steps[steps.len() - 1] == last);
            }
            if touched(steps, at) {
                let i = choose|i: int|
                    0 <= i < steps.len() && (makes_directory(#[trigger] steps[i], at) || makes_file(
                        steps[i],
                        at,
                    ));
                if i < front.len() {
                    assert(front[i] == steps[i]);
                }
            }
        }
    }
}

/// Steps taken from a coherent list are coherent.
proof fn lemma_coherent_front(steps: Seq<WriteStepView>)
    requires
        coherent(steps),
        steps.len() > 0,
    ensures
        coherent(steps.drop_last()),
{
    let front = steps.drop_last();
    assert forall|i: int, j: int, at: Seq<Seq<char>>|
        0 <= i < front.len() && 0 <= j < front.len() && #[trigger] makes_directory(
            front[i],
            at,
        ) implies !#[trigger] makes_file(front[j], at) by {
        assert(front[i] == steps[i]);
        assert(front[j] == steps[j]);
    }
    assert forall|i: int, j: int|
        0 <= i < front.len() && 0 <= j < front.len() && (#[trigger] front[i]) is WriteFile && (
        #[trigger] front[j]) is WriteFile && front[i]->WriteFile_path
            == front[j]->WriteFile_path implies front[i]->WriteFile_content
        == front[j]->WriteFile_content by {
        assert(front[i] == steps[i]);
        assert(front[j] == steps[j]);
    }
}

/// Where the steps are coherent, the tree holds a directory wherever a step
/// makes one, and a file with the bytes written wherever a step writes one.
pub proof fn lemma_tree_nodes(steps: Seq<WriteStepView>)
    requires
        coherent(steps),
    ensures
        forall|i: int, at: Seq<Seq<char>>|
            0 <= i < steps.len() && #[trigger] makes_directory(steps[i], at) ==> tree_after(
                steps,
            )[at] == Node::Directory,
        forall|i: int|
            0 <= i < steps.len() && (#[trigger] steps[i]) is WriteFile ==> tree_after(
                steps,
            )[steps[i]->WriteFile_path] == (Node::File { content: steps[i]->WriteFile_content }),
    decreases steps.len(),
{
    if steps.len() > 0 {
        let front = steps.drop_last();
        let last = steps.last();
        let n = steps.len() - 1;
        let before = tree_after(front);
        let after = tree_after(steps);
        lemma_coherent_front(steps);
        lemma_tree_nodes(front);
        lemma_tree_domain(front);
        assert(steps[n] == last);
        assert(after == apply_step(before, last));
        assert forall|i: int, at: Seq<Seq<char>>|
            0 <= i < steps.len() && #[trigger] makes_directory(steps[i], at) implies after[at]
            == Node::Directory by {
            assert(!makes_file(steps[n], at));
            if i < n {
                assert(front[i] == steps[i]);
                assert(makes_directory(front[i], at));
                assert(before[at] == Node::Directory);
                assert(touched(front, at));
                assert(before.dom().contains(at));
            }
        }
        assert forall|i: int| 0 <= i < steps.len() && (#[trigger] steps[i]) is WriteFile implies
            after[steps[i]->WriteFile_path] == (Node::File {
            content: steps[i]->WriteFile_content,
        }) by {
            let at = steps[i]->WriteFile_path;
            assert(makes_file(steps[i], at));
            if i < n {
                assert(front[i] == steps[i]);
                assert(makes_file(front[i], at));
                assert(touched(front, at));
                assert(before.dom().contains(at));
                assert(before[at] == (Node::File { content: steps[i]->WriteFile_content }));
                if makes_directory(last, at) {
                    assert(makes_directory(steps[n], at));
                    assert(false);
                }
            }
        }
    }
}

/// Where two coherent lists hold the same steps, in whatever order and
/// however often, they leave the same tree: the order in which the steps
/// of an archive are performed does not show in the result.
pub proof fn lemma_order_of_steps_is_irrelevant(first: Seq<WriteStepView>, second: Seq<WriteStepView>)
    requires
        coherent(first),
        forall|step: WriteStepView| first.contains(step) <==> second.contains(step),
    ensures
        coherent(second),
        tree_after(first) == tree_after(second),
{
    assert forall|k: int| 0 <= k < second.len() implies first.contains(#[trigger] second[k]) by {
        assert(second.contains(second[k]));
    }
    assert forall|k: int| 0 <= k < first.len() implies second.contains(#[trigger] first[k]) by {
        assert(first.contains(first[k]));
    }
    assert(coherent(second)) by {
        assert forall|i: int, j: int, at: Seq<Seq<char>>|
            0 <= i < second.len() && 0 <= j < second.len() && #[trigger] makes_directory(
                second[i],
                at,
            ) implies !#[trigger] makes_file(second[j], at) by {
            assert(first.contains(second[i]));
            assert(first.contains(second[j]));
            let a = choose|a: int| 0 <= a < first.len() && first[a] == second[i];
            let b = choose|b: int| 0 <= b < first.len() && first[b] == second[j];
            assert(makes_directory(first[a], at));
            assert(!makes_file(first[b], at));
        }
        assert forall|i: int, j: int|
            0 <= i < second.len() && 0 <= j < second.len() && (#[trigger] second[i]) is WriteFile
                && (#[trigger] second[j]) is WriteFile && second[i]->WriteFile_path
                == second[j]->WriteFile_path implies second[i]->WriteFile_content
            == second[j]->WriteFile_content by {
            assert(first.contains(second[i]));
            assert(first.contains(second[j]));
            let a = choose|a: int| 0 <= a < first.len() && first[a] == second[i];
            let b = choose|b: int| 0 <= b < first.len() && first[b] == second[j];
            assert(first[a] is WriteFile && first[b] is WriteFile);
        }
    }
    lemma_tree_domain(first);
    lemma_tree_domain(second);
    lemma_tree_nodes(first);
    lemma_tree_nodes(second);
    let left = tree_after(first);
    let right = tree_after(second);
    assert forall|at: Seq<Seq<char>>| left.dom().contains(at) == right.dom().contains(at) by {
        assert(left.dom().contains(at) <==> touched(first, at));
        assert(right.dom().contains(at) <==> touched(second, at));
        if touched(first, at) {
            let i = choose|i: int|
                0 <= i < first.len() && (makes_directory(#[trigger] first[i], at) || makes_file(
                    first[i],
                    at,
                ));
            assert(second.contains(first[i]));
            let k = choose|k: int| 0 <= k < second.len() && second[k] == first[i];
            assert(makes_directory(second[k], at) || makes_file(second[k], at));
        }
        if touched(second, at) {
            let i = choose|i: int|
                0 <= i < second.len() && (makes_directory(#[trigger] second[i], at) || makes_file(
                    second[i],
                    at,
                ));
            assert(first.contains(second[i]));
            let k = choose|k: int| 0 <= k < first.len() && first[k] == second[i];
            assert(makes_directory(first[k], at) || makes_file(first[k], at));
        }
    }
    assert forall|at: Seq<Seq<char>>| left.dom().contains(at) implies left[at] == right[at] by {
        assert(left.dom().contains(at) <==> touched(first, at));
        let i = choose|i: int|
            0 <= i < first.len() && (makes_directory(#[trigger] first[i], at) || makes_file(
                first[i],
                at,
            ));
        assert(second.contains(first[i]));
        let k = choose|k: int| 0 <= k < second.len() && second[k] == first[i];
        if makes_directory(first[i], at) {
            assert(makes_directory(second[k], at));
            assert(left[at] == Node::Directory);
            assert(right[at] == Node::Directory);
        } else {
            assert(first[i] is WriteFile);
            assert(second[k] is WriteFile);
            assert(first[i]->WriteFile_path == at);
        }
    }
    assert(left =~= right);
}

/// The steps that write `entries`, entry after entry.
pub open spec fn steps_of(entries: Seq<MemEntryView>) -> Seq<WriteStepView>
    decreases entries.len(),
{
    if entries.len() == 0 {
        Seq::<WriteStepView>::empty()
    } else {
        steps_of(entries.drop_last()) + write_steps(entries.last())
    }
}

/// The tree that writing `entries` in order leaves below an empty
/// destination.
pub open spec fn tree_of(entries: Seq<MemEntryView>) -> Map<Seq<Seq<char>>, Node> {
    tree_after(steps_of(entries))
}

/// The steps of a list of entries are the steps of its entries.
pub proof fn lemma_steps_of_entries(entries: Seq<MemEntryView>)
    ensures
        forall|step: WriteStepView| #[trigger]
            steps_of(entries).contains(step) <==> exists|i: int|
                0 <= i < entries.len() && write_steps(#[trigger] entries[i]).contains(step),
    decreases entries.len(),
{
    if entries.len() == 0 {
        assert forall|step: WriteStepView| #[trigger]
            steps_of(entries).contains(step) <==> exists|i: int|
                0 <= i < entries.len() && write_steps(#[trigger] entries[i]).contains(step) by {}
    } else {
        let front = entries.drop_last();
        let last = entries.last();
        lemma_steps_of_entries(front);
        assert forall|step: WriteStepView| #[trigger]
            steps_of(entries).contains(step) <==> exists|i: int|
                0 <= i < entries.len() && write_steps(#[trigger] entries[i]).contains(step) by {
            let all = steps_of(entries);
            let before = steps_of(front);
            let added = write_steps(last);
            assert(all == before + added);
            if all.contains(step) {
                let k = choose|k: int| 0 <= k < all.len() && all[k] == step;
                if k < before.len() {
                    assert(before[k] == step);
                    assert(before.contains(step));
                    let i = choose|i: int|
                        0 <= i < front.len() && write_steps(#[trigger] front[i]).contains(step);
                    assert(entries[i] == front[i]);
                } else {
                    assert(added[k - before.len()] == step);
                    assert(added.contains(step));
                    assert(entries[entries.len() - 1] == last);
                }
            }
            if exists|i: int|
                0 <= i < entries.len() && write_steps(#[trigger] entries[i]).contains(step) {
                let i = choose|i: int|
                    0 <= i < entries.len() && write_steps(#[trigger] entries[i]).contains(step);
                if i < front.len() {
                    assert(front[i] == entries[i]);
                    assert(before.contains(step));
                    let k = choose|k: int| 0 <= k < before.len() && before[k] == step;
                    assert(all[k] == step);
                } else {
                    assert(entries[i] == last);
                    let k = choose|k: int| 0 <= k < added.len() && added[k] == step;
                    assert(all[before.len() + k] == step);
                }
            }
        }
    }
}

/// Where two lists hold the same entries and the steps of the first are
/// coherent, writing either list leaves the same tree: entries may be
/// written in the order of the archive or in any other.
pub proof fn lemma_order_of_entries_is_irrelevant(first: Seq<MemEntryView>, second: Seq<MemEntryView>)
    requires
        coherent(steps_of(first)),
        forall|entry: MemEntryView| first.contains(entry) <==> second.contains(entry),
    ensures
        tree_of(first) == tree_of(second),
{
    lemma_steps_of_entries(first);
    lemma_steps_of_entries(second);
    assert forall|step: WriteStepView| steps_of(first).contains(step) implies steps_of(
        second,
    ).contains(step) by {
        let i = choose|i: int|
            0 <= i < first.len() && write_steps(#[trigger] first[i]).contains(step);
        assert(first.contains(first[i]));
        let k = choose|k: int| 0 <= k < second.len() && second[k] == first[i];
        assert(write_steps(second[k]).contains(step));
    }
    assert forall|step: WriteStepView| steps_of(second).contains(step) implies steps_of(
        first,
    ).contains(step) by {
        let i = choose|i: int|
            0 <= i < second.len() && write_steps(#[trigger] second[i]).contains(step);
        assert(second.contains(second[i]));
        let k = choose|k: int| 0 <= k < first.len() && first[k] == second[i];
        assert(write_steps(first[k]).contains(step));
    }
    lemma_order_of_steps_is_irrelevant(steps_of(first), steps_of(second));
}

} // verus!
