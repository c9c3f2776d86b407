//! Finding what to watch for a path that may not exist yet.

use crate::error::WatcherError;
use vstd::prelude::*;

verus! {

/// What the filesystem says of a path.
#[derive(Clone, Copy, Debug, PartialEq, Eq, Structural)]
pub enum PathKind {
    /// It leads to a directory.
    Directory,
    /// It leads to something that is not a directory.
    File,
    /// It leads to nothing.
    Missing,
}

/// Whether a watch covers what lies below the watched path.
#[derive(Clone, Copy, Debug, PartialEq, Eq, Structural)]
pub enum RecursiveMode {
    /// The path and everything below it.
    Recursive,
    /// The path alone; for a directory, it and its entries.
    NonRecursive,
}

/// A path that may be watched, with what the filesystem says of it.
#[derive(Debug)]
pub struct Candidate {
    /// The path's text.
    pub path: String,
    /// What the filesystem says of the path.
    pub kind: PathKind,
}

/// What a [`Candidate`] is, to the contracts.
pub struct CandidateView {
    pub path: Seq<char>,
    pub kind: PathKind,
}

impl View for Candidate {
    type V = CandidateView;

    open spec fn view(&self) -> CandidateView {
        CandidateView { path: self.path@, kind: self.kind }
    }
}

impl Candidate {
    /// A path together with the filesystem's word on it.
    pub fn new(path: String, kind: PathKind) -> (candidate: Candidate)
        ensures
            candidate@ == (CandidateView { path: path@, kind }),
    {
        Candidate { path, kind }
    }
}

/// The views of candidates, in their order.
pub open spec fn candidate_views(chain: Seq<Candidate>) -> Seq<CandidateView> {
    chain.map_values(|candidate: Candidate| candidate@)
}

/// What to hand to the operating system's watch primitive.
#[derive(Debug, PartialEq, Eq)]
pub struct WatchTarget {
    /// The path to watch; it exists.
    pub path: String,
    /// Whether to watch what lies below it too.
    pub mode: RecursiveMode,
}

/// What a [`WatchTarget`] is, to the contracts.
pub struct WatchTargetView {
    pub path: Seq<char>,
    pub mode: RecursiveMode,
}

impl View for WatchTarget {
    type V = WatchTargetView;

    open spec fn view(&self) -> WatchTargetView {
        WatchTargetView { path: self.path@, mode: self.mode }
    }
}

/// The mode in which to watch the candidate that stands `depth` steps above
/// the requested path and is of `kind`. The requested path itself is watched
/// recursively if it is a directory. Its parent is watched alone: the path will
/// appear as one of its entries. An ancestor further up is watched recursively,
/// since the directories in between, once they are created, have to be seen
/// into.
pub open spec fn mode_at(depth: int, kind: PathKind) -> RecursiveMode {
    if depth == 0 {
        if kind == PathKind::Directory {
            RecursiveMode::Recursive
        } else {
            RecursiveMode::NonRecursive
        }
    } else if depth == 1 {
        RecursiveMode::NonRecursive
    } else {
        RecursiveMode::Recursive
    }
}

/// Whether the candidate at `depth` exists and none before it does.
pub open spec fn is_nearest_existing(chain: Seq<CandidateView>, depth: int) -> bool {
    &&& 0 <= depth < chain.len()
    &&& chain[depth].kind != PathKind::Missing
    &&& forall|above: int| 0 <= above < depth ==> (#[trigger] chain[above]).kind == PathKind::Missing
}

/// The target for the candidate at `depth`.
pub open spec fn target_at(chain: Seq<CandidateView>, depth: int) -> WatchTargetView {
    WatchTargetView { path: chain[depth].path, mode: mode_at(depth, chain[depth].kind) }
}

/// What to watch for a chain, walked from `depth` on: the first candidate that
/// exists, in the mode that its depth asks for.
pub open spec fn resolve_from(chain: Seq<CandidateView>, depth: int) -> Option<WatchTargetView>
    decreases chain.len() - depth,
{
    if depth < 0 || depth >= chain.len() {
        None
    } else if chain[depth].kind != PathKind::Missing {
        Some(target_at(chain, depth))
    } else {
        resolve_from(chain, depth + 1)
    }
}

/// What to watch for a requested path, given the chain that starts with the
/// path and goes on with its ancestors, nearest first.
pub open spec fn resolve(chain: Seq<CandidateView>) -> Option<WatchTargetView> {
    resolve_from(chain, 0)
}

/// Exec counterpart of [`mode_at`].
pub fn mode_for(depth: usize, kind: PathKind) -> (mode: RecursiveMode)
    ensures
        mode == mode_at(depth as int, kind),
{
    if depth == 0 {
        match kind {
            PathKind::Directory => RecursiveMode::Recursive,
            _ => RecursiveMode::NonRecursive,
        }
    } else if depth == 1 {
        RecursiveMode::NonRecursive
    } else {
        RecursiveMode::Recursive
    }
}

/// Finds what to watch for a requested path. `chain` starts with the path and
/// goes on with its ancestors, nearest first, up to the root; each comes with
/// what the filesystem says of it. The target is the first of them that
/// exists. There is none, and the path cannot be watched, exactly when nothing
/// in the chain exists.
pub fn find_path_to_watch(chain: &Vec<Candidate>) -> (found: Result<WatchTarget, WatcherError>)
    ensures
        match found {
            Ok(target) => resolve(candidate_views(chain@)) == Some(target@),
            Err(error) => resolve(candidate_views(chain@)).is_none() && error
                is Unresolvable,
        },
{
    let ghost views = candidate_views(chain@);
    let mut depth: usize = 0;
    while depth < chain.len()
        invariant
            depth <= chain.len(),
            views == candidate_views(chain@),
            resolve(views) == resolve_from(views, depth as int),
        decreases chain.len() - depth,
    {
        assert(views[depth as int] == chain@[depth as int]@);
        match chain[depth].kind {
            PathKind::Missing => {},
            kind => {
                let target = WatchTarget {
                    path: chain[depth].path.clone(),
                    mode: mode_for(depth, kind),
                };
                return Ok(target);
            },
        }
        depth += 1;
    }
    Err(WatcherError::Unresolvable)
}

/// Walking the chain from `depth` finds the nearest existing candidate at or
/// after `depth`, and finds nothing exactly when none exists from there on.
proof fn lemma_resolve_from(chain: Seq<CandidateView>, depth: int)
    requires
        0 <= depth,
    ensures
        match resolve_from(chain, depth) {
            Some(target) => exists|found: int|
                depth <= found < chain.len() && chain[found].kind != PathKind::Missing && (forall|
                    above: int,
                |
                    depth <= above < found ==> (#[trigger] chain[above]).kind == PathKind::Missing)
                    && target == #[trigger] target_at(chain, found),
            None => forall|at: int|
                depth <= at < chain.len() ==> (#[trigger] chain[at]).kind == PathKind::Missing,
        },
    decreases chain.len() - depth,
{
    if depth >= chain.len() {
    } else if chain[depth].kind != PathKind::Missing {
        assert(resolve_from(chain, depth) == Some(target_at(chain, depth)));
    } else {
        lemma_resolve_from(chain, depth + 1);
        match resolve_from(chain, depth + 1) {
            Some(target) => {
                let found = choose|found: int|
                    depth + 1 <= found < chain.len() && chain[found].kind != PathKind::Missing && (
                    forall|above: int|
                        depth + 1 <= above < found ==> (#[trigger] chain[above]).kind
                            == PathKind::Missing) && target == #[trigger] target_at(chain, found);
                assert(forall|above: int|
                    depth <= above < found ==> (#[trigger] chain[above]).kind == PathKind::Missing);
                assert(target == target_at(chain, found));
            },
            None => {
                assert(forall|at: int|
                    depth <= at < chain.len() ==> (#[trigger] chain[at]).kind == PathKind::Missing);
            },
        }
    }
}

/// The candidate that exists with none before it existing is the target, in
/// the mode that its depth asks for.
pub proof fn lemma_resolves_to_nearest_existing(chain: Seq<CandidateView>, depth: int)
    requires
        is_nearest_existing(chain, depth),
    ensures
        resolve(chain) == Some(target_at(chain, depth)),
{
    lemma_resolve_from(chain, 0);
    let target = resolve(chain).unwrap();
    let found = choose|found: int|
        0 <= found < chain.len() && chain[found].kind != PathKind::Missing && (forall|above: int|
            0 <= above < found ==> (#[trigger] chain[above]).kind == PathKind::Missing) && target
            == #[trigger] target_at(chain, found);
    if found < depth {
        assert(chain[found].kind == PathKind::Missing);
    } else if depth < found {
        assert(chain[depth].kind == PathKind::Missing);
    }
}

/// Nothing can be watched exactly when nothing in the chain exists.
pub proof fn lemma_unresolvable_iff_nothing_exists(chain: Seq<CandidateView>)
    ensures
        resolve(chain).is_none() <==> (forall|at: int|
            0 <= at < chain.len() ==> (#[trigger] chain[at]).kind == PathKind::Missing),
{
    lemma_resolve_from(chain, 0);
    if resolve(chain).is_some() {
        let target = resolve(chain).unwrap();
        let found = choose|found: int|
            0 <= found < chain.len() && chain[found].kind != PathKind::Missing && (forall|
                above: int,
            |
                0 <= above < found ==> (#[trigger] chain[above]).kind == PathKind::Missing)
                && target == #[trigger] target_at(chain, found);
        assert(chain[found].kind != PathKind::Missing);
    }
}

/// An existing directory is watched itself, recursively.
pub proof fn lemma_directory_is_watched_recursively(chain: Seq<CandidateView>)
    requires
        chain.len() > 0,
        chain[0].kind == PathKind::Directory,
    ensures
        resolve(chain) == Some(
            WatchTargetView { path: chain[0].path, mode: RecursiveMode::Recursive },
        ),
{
}

/// An existing file is watched itself, not recursively.
pub proof fn lemma_file_is_watched_alone(chain: Seq<CandidateView>)
    requires
        chain.len() > 0,
        chain[0].kind == PathKind::File,
    ensures
        resolve(chain) == Some(
            WatchTargetView { path: chain[0].path, mode: RecursiveMode::NonRecursive },
        ),
{
}

/// For a path that does not exist, the nearest ancestor that exists is
/// watched: not recursively if it is the parent, recursively if it stands
/// further up.
pub proof fn lemma_missing_path_resolves_to_ancestor(chain: Seq<CandidateView>, depth: int)
    requires
        1 <= depth,
        is_nearest_existing(chain, depth),
    ensures
        resolve(chain) == Some(
            WatchTargetView {
                path: chain[depth].path,
                mode: if depth == 1 {
                    RecursiveMode::NonRecursive
                } else {
                    RecursiveMode::Recursive
                },
            },
        ),
{
    lemma_resolves_to_nearest_existing(chain, depth);
}

} // verus!
