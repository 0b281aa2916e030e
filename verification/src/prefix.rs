//! Finding the one top-level directory that every entry of an archive lies
//! in.
//!
//! The detector reads the paths of an archive once, in order. It keeps the
//! first component of the first path as its candidate and gives up for good
//! at the first path that has no first component or another one.

use crate::path::RelPath;
use vstd::prelude::*;

verus! {

/// The first component of `path`, or the empty text where it has none.
pub open spec fn first_component(path: Seq<Seq<char>>) -> Seq<char> {
    if path.len() == 0 {
        Seq::<char>::empty()
    } else {
        path[0]
    }
}

/// Whether every path of `paths` starts with the component `root`.
pub open spec fn shares_root(paths: Seq<Seq<Seq<char>>>, root: Seq<char>) -> bool {
    forall|i: int| 0 <= i < paths.len() ==> #[trigger] first_component(paths[i]) == root
}

/// The first component that all of `paths` share, if they share one: there
/// is a path, its first component is not empty, and every path starts with
/// it.
pub open spec fn common_root(paths: Seq<Seq<Seq<char>>>) -> Option<Seq<char>> {
    if paths.len() > 0 && first_component(paths[0]).len() > 0 && shares_root(
        paths,
        first_component(paths[0]),
    ) {
        Some(first_component(paths[0]))
    } else {
        None
    }
}

/// What the detector remembers between two paths.
pub struct DetectorState {
    /// The first component of the first path seen, once there is one.
    pub candidate: Option<Seq<char>>,
    /// Whether some path has ruled a common root out.
    pub mismatch: bool,
}

/// The state before any path was seen.
pub open spec fn initial_state() -> DetectorState {
    DetectorState { candidate: None, mismatch: false }
}

/// The state after one more path. Once a mismatch is recorded nothing
/// changes any more. Otherwise a path without a first component records a
/// mismatch, the first path with one sets the candidate, and a later path
/// records a mismatch when it starts with another component.
pub open spec fn step(state: DetectorState, path: Seq<Seq<char>>) -> DetectorState {
    if state.mismatch {
        state
    } else if first_component(path).len() == 0 {
        DetectorState { candidate: state.candidate, mismatch: true }
    } else {
        match state.candidate {
            None => DetectorState { candidate: Some(first_component(path)), mismatch: false },
            Some(root) => DetectorState {
                candidate: state.candidate,
                mismatch: first_component(path) != root,
            },
        }
    }
}

/// The state after all of `paths`, taken in order.
pub open spec fn run(paths: Seq<Seq<Seq<char>>>) -> DetectorState
    decreases paths.len(),
{
    if paths.len() == 0 {
        initial_state()
    } else {
        step(run(paths.drop_last()), paths.last())
    }
}

/// The root that a state stands for: its candidate, unless a mismatch was
/// recorded.
pub open spec fn verdict(state: DetectorState) -> Option<Seq<char>> {
    if state.mismatch {
        None
    } else {
        state.candidate
    }
}

/// The single pass decides as the definition of the common root does.
pub proof fn lemma_run_finds_common_root(paths: Seq<Seq<Seq<char>>>)
    ensures
        verdict(run(paths)) == common_root(paths),
        paths.len() > 0 ==> (run(paths).mismatch <==> common_root(paths) is None),
        paths.len() > 0 && !run(paths).mismatch ==> run(paths).candidate == Some(
            first_component(paths[0]),
        ),
    decreases paths.len(),
{
    if paths.len() > 0 {
        let front = paths.drop_last();
        lemma_run_finds_common_root(front);
        if front.len() == 0 {
            assert(run(front) == initial_state());
            assert(paths.last() == paths[0]);
            if first_component(paths[0]).len() > 0 {
                assert(shares_root(paths, first_component(paths[0])));
            }
        } else {
            assert(front[0] == paths[0]);
            let root = first_component(paths[0]);
            if run(front).mismatch {
                if common_root(paths) is Some {
                    assert forall|i: int| 0 <= i < front.len() implies #[trigger] first_component(
                        front[i],
                    ) == root by {
                        assert(front[i] == paths[i]);
                    }
                    assert(false);
                }
            } else {
                assert(shares_root(front, root));
                if first_component(paths.last()) == root {
                    assert forall|i: int| 0 <= i < paths.len() implies #[trigger] first_component(
                        paths[i],
                    ) == root by {
                        if i < front.len() {
                            assert(front[i] == paths[i]);
                        }
                    }
                } else {
                    assert(first_component(paths[paths.len() - 1]) != root);
                }
            }
        }
    }
}

/// The single-pass detector of a common top-level directory.
#[derive(Debug)]
pub struct RootDetector {
    candidate: Option<String>,
    mismatch: bool,
}

impl View for RootDetector {
    type V = DetectorState;

    closed spec fn view(&self) -> DetectorState {
        DetectorState { candidate: self.candidate.deep_view(), mismatch: self.mismatch }
    }
}

impl RootDetector {
    /// A detector that has seen no path.
    pub fn new() -> (detector: RootDetector)
        ensures
            detector@ == initial_state(),
    {
        RootDetector { candidate: None, mismatch: false }
    }

    /// Takes the next path into account. After a mismatch the path is not
    /// looked at.
    pub fn observe(&mut self, path: &RelPath)
        ensures
            final(self)@ == step(old(self)@, path@),
    {
        if self.mismatch {
            return ;
        }
        match path.first() {
            None => {
                self.mismatch = true;
            },
            Some(first) => {
                match &self.candidate {
                    None => {
                        self.candidate = Some(first.clone());
                    },
                    Some(root) => {
                        if *first != *root {
                            self.mismatch = true;
                        }
                    },
                }
            },
        }
    }

    /// The root found: the candidate, unless a mismatch was recorded.
    pub fn finish(self) -> (root: Option<String>)
        ensures
            root.deep_view() == verdict(self@),
    {
        if self.mismatch {
            None
        } else {
            self.candidate
        }
    }
}

/// The first component that all of `paths` share, if they share one.
pub fn detect_root(paths: &Vec<RelPath>) -> (root: Option<String>)
    ensures
        root.deep_view() == common_root(paths.deep_view()),
{
    let mut detector = RootDetector::new();
    let n = paths.len();
    let mut i: usize = 0;
    assert(paths.deep_view().take(0) == Seq::<Seq<Seq<char>>>::empty());
    while i < n
        invariant
            n == paths.len(),
            i <= n,
            detector@ == run(paths.deep_view().take(i as int)),
        decreases n - i,
    {
        proof {
            let next = paths.deep_view().take(i + 1);
            assert(next.drop_last() == paths.deep_view().take(i as int));
            assert(next.last() == paths[i as int]@);
        }
        detector.observe(&paths[i]);
        i += 1;
    }
    proof {
        assert(paths.deep_view().take(n as int) == paths.deep_view());
        lemma_run_finds_common_root(paths.deep_view());
    }
    detector.finish()
}

} // verus!
