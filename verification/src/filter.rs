//! The filter that decides which reported paths are passed on.

use crate::clock::Clock;
use crate::config::Config;
use crate::config::ConfigView;
use crate::debounce::admits;
use crate::debounce::observed;
use crate::debounce::recent;
use crate::debounce::within_throttle;
use crate::debounce::AdmissionLog;
use crate::event::observed_views;
use crate::event::ObservedPath;
use crate::event::ObservedPathView;
use crate::extensions::matches_path;
use crate::extensions::FileExtensions;
use vstd::prelude::*;

verus! {

/// What a [`PathFilter`] is, to the contracts.
pub struct FilterModel {
    /// The extensions of the files that count, without leading dots.
    pub extensions: Seq<Seq<char>>,
    /// For each path that is remembered, the clock reading of its last admission.
    pub last_changed: Map<Seq<char>, u128>,
    /// How long an admitted path stays quiet, in nanoseconds.
    pub debounce_throttle: u128,
}

impl FilterModel {
    /// The filter that `config` asks for, with nothing admitted yet.
    pub open spec fn fresh(config: ConfigView) -> FilterModel {
        FilterModel {
            extensions: config.file_extensions,
            last_changed: Map::empty(),
            debounce_throttle: config.debounce_throttle,
        }
    }

    /// Whether `path` has one of the extensions.
    pub open spec fn matches(self, path: Seq<char>) -> bool {
        matches_path(self.extensions, path)
    }

    /// Whether the debounce rule admits `path` at `now`.
    pub open spec fn debounce_admits(self, path: Seq<char>, now: u128) -> bool {
        admits(self.last_changed, path, now, self.debounce_throttle)
    }

    /// The filter after the debounce rule was asked about `path` at `now`.
    pub open spec fn after_debounce(self, path: Seq<char>, now: u128) -> FilterModel {
        FilterModel {
            extensions: self.extensions,
            last_changed: observed(self.last_changed, path, now, self.debounce_throttle),
            debounce_throttle: self.debounce_throttle,
        }
    }

    /// Whether the debounce rule is asked about `path` at all: only a regular
    /// file with one of the extensions gets that far.
    pub open spec fn is_candidate(self, path: ObservedPathView) -> bool {
        self.matches(path.path) && path.is_file
    }

    /// Whether `path`, observed at `now`, is retained.
    pub open spec fn retains(self, path: ObservedPathView, now: u128) -> bool {
        self.is_candidate(path) && self.debounce_admits(path.path, now)
    }

    /// The filter after `path` was checked at `now`.
    pub open spec fn after_check(self, path: ObservedPathView, now: u128) -> FilterModel {
        if self.is_candidate(path) {
            self.after_debounce(path.path, now)
        } else {
            self
        }
    }

    /// The filter after the paths of one notification were checked at `now`,
    /// each against what the ones before it left behind.
    pub open spec fn after_batch(self, paths: Seq<ObservedPathView>, now: u128) -> FilterModel
        decreases paths.len(),
    {
        if paths.len() == 0 {
            self
        } else {
            self.after_batch(paths.drop_last(), now).after_check(paths.last(), now)
        }
    }

    /// The paths of one notification that are retained at `now`, in their order.
    pub open spec fn retained_of(self, paths: Seq<ObservedPathView>, now: u128) -> Seq<Seq<char>>
        decreases paths.len(),
    {
        if paths.len() == 0 {
            Seq::empty()
        } else {
            let earlier = self.retained_of(paths.drop_last(), now);
            if self.after_batch(paths.drop_last(), now).retains(paths.last(), now) {
                earlier.push(paths.last().path)
            } else {
                earlier
            }
        }
    }

    /// The filter after the cleanup at `now`: it remembers the admissions that
    /// are no older than the throttle, and only them.
    pub open spec fn after_cleanup(self, now: u128) -> FilterModel {
        FilterModel {
            extensions: self.extensions,
            last_changed: recent(self.last_changed, now, self.debounce_throttle),
            debounce_throttle: self.debounce_throttle,
        }
    }
}

/// Decides which reported paths are passed on: those with a configured
/// extension that lead to a regular file and were not passed on a moment ago.
pub struct PathFilter {
    extensions: FileExtensions,
    last_changed: AdmissionLog,
    debounce_throttle: u128,
    clock: Clock,
}

impl View for PathFilter {
    type V = FilterModel;

    closed spec fn view(&self) -> FilterModel {
        FilterModel {
            extensions: self.extensions@,
            last_changed: self.last_changed@,
            debounce_throttle: self.debounce_throttle,
        }
    }
}

impl PathFilter {
    /// The filter that `config` asks for. Nothing is admitted yet, and the
    /// filter's clock starts now.
    pub fn new(config: &Config) -> (filter: PathFilter)
        ensures
            filter@ == FilterModel::fresh(config@),
    {
        let extensions = config.file_extensions().clone();
        let debounce_throttle = config.debounce_throttle();
        PathFilter {
            extensions,
            last_changed: AdmissionLog::new(),
            debounce_throttle,
            clock: Clock::start(),
        }
    }

    /// The present reading of the filter's clock, in nanoseconds.
    pub fn now(&self) -> u128 {
        self.clock.now()
    }

    /// The number of paths whose last admission is remembered.
    pub fn remembered(&self) -> (count: usize)
        ensures
            count == self@.last_changed.len(),
            self@.last_changed.dom().finite(),
    {
        self.last_changed.len()
    }

    /// Whether `path` has one of the configured extensions.
    pub fn matches(&self, path: &str) -> (matched: bool)
        ensures
            matched == self@.matches(path@),
    {
        self.extensions.matches(path)
    }

    /// Asks the debounce rule about `path` at the clock reading `now`. The
    /// first observation of a path is admitted. A later one is admitted only if
    /// more than the throttle has passed since the path's last admission. An
    /// admitted observation is stamped with `now`; a dropped one changes nothing.
    pub fn debounce_at(&mut self, path: &str, now: u128) -> (admitted: bool)
        ensures
            admitted == old(self)@.debounce_admits(path@, now),
            final(self)@ == old(self)@.after_debounce(path@, now),
    {
        self.last_changed.observe(path.to_owned(), now, self.debounce_throttle)
    }

    /// Asks the debounce rule about `path` at the present reading of the
    /// filter's clock: [`PathFilter::debounce_at`] for that reading.
    pub fn debounce(&mut self, path: &str) -> (admitted: bool)
        ensures
            exists|now: u128|
                admitted == old(self)@.debounce_admits(path@, now) && final(self)@ == old(
                    self,
                )@.after_debounce(path@, now),
    {
        let now = self.now();
        self.debounce_at(path, now)
    }

    /// Checks one reported path at the clock reading `now`. It is retained if
    /// it has a configured extension, leads to a regular file, and the debounce
    /// rule admits it. The debounce rule is asked, and the filter changed, only
    /// for a regular file with a configured extension.
    pub fn should_retain_at(&mut self, path: &ObservedPath, now: u128) -> (retained: bool)
        ensures
            retained == old(self)@.retains(path@, now),
            final(self)@ == old(self)@.after_check(path@, now),
    {
        self.matches(path.path.as_str()) && path.is_file && self.debounce_at(
            path.path.as_str(),
            now,
        )
    }

    /// Checks one reported path at the present reading of the filter's clock:
    /// [`PathFilter::should_retain_at`] for that reading.
    pub fn should_retain(&mut self, path: &ObservedPath) -> (retained: bool)
        ensures
            exists|now: u128|
                retained == old(self)@.retains(path@, now) && final(self)@ == old(
                    self,
                )@.after_check(path@, now),
    {
        let now = self.now();
        self.should_retain_at(path, now)
    }

    /// Checks the paths of one notification at the clock reading `now`, one
    /// after the other, and returns those that are retained, in their order.
    pub fn retain_at(&mut self, paths: &Vec<ObservedPath>, now: u128) -> (retained: Vec<String>)
        ensures
            retained.deep_view() == old(self)@.retained_of(observed_views(paths@), now),
            final(self)@ == old(self)@.after_batch(observed_views(paths@), now),
    {
        let ghost views = observed_views(paths@);
        let ghost before = self@;
        let mut retained: Vec<String> = Vec::new();
        let mut i: usize = 0;
        proof {
            assert(views.take(0) =~= Seq::<ObservedPathView>::empty());
            assert(retained.deep_view() =~= Seq::<Seq<char>>::empty());
        }
        while i < paths.len()
            invariant
                i <= paths.len(),
                views == observed_views(paths@),
                self@ == before.after_batch(views.take(i as int), now),
                retained.deep_view() == before.retained_of(views.take(i as int), now),
            decreases paths.len() - i,
        {
            proof {
                assert(views.take(i + 1).drop_last() =~= views.take(i as int));
                assert(views.take(i + 1).last() == paths@[i as int]@);
            }
            let ghost earlier = retained.deep_view();
            if self.should_retain_at(&paths[i], now) {
                let path = paths[i].path.clone();
                retained.push(path);
                assert(retained.deep_view() =~= earlier.push(paths@[i as int]@.path));
            }
            i += 1;
        }
        proof {
            assert(views.take(i as int) =~= views);
        }
        retained
    }

    /// Forgets, at the clock reading `now`, every admission that is older than
    /// the throttle, and no other.
    pub fn cleanup_debouncer_at(&mut self, now: u128)
        ensures
            final(self)@ == old(self)@.after_cleanup(now),
    {
        self.last_changed.forget_stale(now, self.debounce_throttle);
    }

    /// Forgets the admissions that are older than the throttle at the present
    /// reading of the filter's clock: [`PathFilter::cleanup_debouncer_at`] for
    /// that reading.
    pub fn cleanup_debouncer(&mut self)
        ensures
            exists|now: u128| final(self)@ == #[trigger] old(self)@.after_cleanup(now),
    {
        let now = self.now();
        self.cleanup_debouncer_at(now);
    }
}

/// A path without a configured extension is never retained, whatever the
/// clock reads and whatever the filter remembers, and checking it leaves the
/// filter as it was.
pub proof fn lemma_unmatched_path_is_never_retained(
    filter: FilterModel,
    path: ObservedPathView,
    now: u128,
)
    requires
        !filter.matches(path.path),
    ensures
        !filter.retains(path, now),
        filter.after_check(path, now) == filter,
{
}

/// A path that does not lead to a regular file is never retained, and checking
/// it leaves the filter as it was.
pub proof fn lemma_non_file_is_never_retained(
    filter: FilterModel,
    path: ObservedPathView,
    now: u128,
)
    requires
        !path.is_file,
    ensures
        !filter.retains(path, now),
        filter.after_check(path, now) == filter,
{
}

/// The first check after construction retains a regular file with a
/// configured extension, whatever the clock reads.
pub proof fn lemma_first_check_retains(config: ConfigView, path: ObservedPathView, now: u128)
    requires
        matches_path(config.file_extensions, path.path),
        path.is_file,
    ensures
        FilterModel::fresh(config).retains(path, now),
{
}

/// Of two checks of one path, the first of which is retained: the second is
/// dropped if no more than the throttle lies between them, and retained too if
/// more than the throttle does.
pub proof fn lemma_second_check(
    filter: FilterModel,
    path: Seq<char>,
    first: u128,
    second: u128,
)
    requires
        first <= second,
        filter.retains(ObservedPathView { path, is_file: true }, first),
    ensures
        ({
            let observed = ObservedPathView { path, is_file: true };
            let later = filter.after_check(observed, first);
            &&& second - first <= filter.debounce_throttle ==> !later.retains(observed, second)
            &&& second - first > filter.debounce_throttle ==> later.retains(observed, second)
        }),
{
}

/// A dropped check does not move a path's stamp: the throttle counts from the
/// last admission, not from the last observation.
pub proof fn lemma_dropped_check_changes_nothing(
    filter: FilterModel,
    path: ObservedPathView,
    now: u128,
)
    requires
        !filter.retains(path, now),
    ensures
        filter.after_check(path, now) == filter,
{
}

/// The cleanup forgets exactly the admissions that are older than the
/// throttle: a path is remembered afterwards if and only if it was remembered
/// before with a stamp no older than the throttle, and its stamp is the same.
pub proof fn lemma_cleanup_forgets_exactly_the_stale(filter: FilterModel, now: u128)
    ensures
        forall|path: Seq<char>| #[trigger]
            filter.after_cleanup(now).last_changed.contains_key(path) <==> (
            filter.last_changed.contains_key(path) && within_throttle(
                now,
                filter.last_changed[path],
                filter.debounce_throttle,
            )),
        forall|path: Seq<char>| #[trigger]
            filter.after_cleanup(now).last_changed.contains_key(path)
                ==> filter.after_cleanup(now).last_changed[path] == filter.last_changed[path],
        filter.after_cleanup(now).extensions == filter.extensions,
        filter.after_cleanup(now).debounce_throttle == filter.debounce_throttle,
{
}

/// The cleanup is never noticed by a later check: what it forgets would not
/// have stood in the way of an admission at its own time or after.
pub proof fn lemma_cleanup_is_unnoticed(
    filter: FilterModel,
    cleaned_at: u128,
    path: ObservedPathView,
    now: u128,
)
    requires
        cleaned_at <= now,
    ensures
        filter.after_cleanup(cleaned_at).retains(path, now) == filter.retains(path, now),
{
}

/// What one notification's paths leave behind keeps the extensions and the
/// throttle, and every path that is retained was reported as a regular file
/// and has a configured extension.
pub proof fn lemma_batch_retains_candidates_only(
    filter: FilterModel,
    paths: Seq<ObservedPathView>,
    now: u128,
)
    ensures
        filter.after_batch(paths, now).extensions == filter.extensions,
        filter.after_batch(paths, now).debounce_throttle == filter.debounce_throttle,
        forall|i: int|
            0 <= i < filter.retained_of(paths, now).len() ==> {
                let path = #[trigger] filter.retained_of(paths, now)[i];
                filter.matches(path) && paths.contains(ObservedPathView { path, is_file: true })
            },
    decreases paths.len(),
{
    if paths.len() > 0 {
        let front = paths.drop_last();
        let last = paths.last();
        lemma_batch_retains_candidates_only(filter, front, now);
        let before = filter.after_batch(front, now);
        let earlier = filter.retained_of(front, now);
        let all = filter.retained_of(paths, now);
        assert(before.is_candidate(last) == filter.is_candidate(last));
        assert forall|i: int| 0 <= i < all.len() implies ({
            let path = #[trigger] all[i];
            filter.matches(path) && paths.contains(ObservedPathView { path, is_file: true })
        }) by {
            if i < earlier.len() {
                assert(all[i] == earlier[i]);
                let seen = ObservedPathView { path: earlier[i], is_file: true };
                let k = choose|k: int| 0 <= k < front.len() && front[k] == seen;
                assert(paths[k] == seen);
            } else {
                assert(before.retains(last, now));
                assert(all == earlier.push(last.path));
                assert(paths[paths.len() - 1] == last);
            }
        }
    }
}

/// Within one notification no path is retained twice, and every retained path
/// is afterwards remembered with the stamp `now`.
pub proof fn lemma_batch_retains_each_path_once(
    filter: FilterModel,
    paths: Seq<ObservedPathView>,
    now: u128,
)
    ensures
        filter.retained_of(paths, now).no_duplicates(),
        forall|i: int|
            0 <= i < filter.retained_of(paths, now).len() ==> {
                let path = #[trigger] filter.retained_of(paths, now)[i];
                let after = filter.after_batch(paths, now);
                after.last_changed.contains_key(path) && after.last_changed[path] == now
            },
    decreases paths.len(),
{
    if paths.len() > 0 {
        let front = paths.drop_last();
        let last = paths.last();
        lemma_batch_retains_each_path_once(filter, front, now);
        let before = filter.after_batch(front, now);
        let earlier = filter.retained_of(front, now);
        let all = filter.retained_of(paths, now);
        let after = filter.after_batch(paths, now);
        assert forall|i: int| 0 <= i < all.len() implies ({
            let path = #[trigger] all[i];
            after.last_changed.contains_key(path) && after.last_changed[path] == now
        }) by {
            if i < earlier.len() {
                assert(all[i] == earlier[i]);
            }
        }
        assert forall|i: int, j: int| 0 <= i < j < all.len() implies all[i] != all[j] by {
            if j < earlier.len() {
                assert(all[i] == earlier[i] && all[j] == earlier[j]);
            } else {
                assert(before.retains(last, now));
                assert(all[i] == earlier[i]);
                assert(before.last_changed[earlier[i]] == now);
            }
        }
    }
}

} // verus!
