//! The debounce bookkeeping: which path was last admitted when.

use vstd::prelude::*;

verus! {

/// Time that passed between `last` and `now` on one clock, in nanoseconds.
/// A reading that lies before `last` counts as no time at all.
pub open spec fn elapsed(now: u128, last: u128) -> int {
    if now >= last {
        now - last
    } else {
        0
    }
}

/// Whether an admission made at `last` is still within `throttle` of `now`.
pub open spec fn within_throttle(now: u128, last: u128, throttle: u128) -> bool {
    elapsed(now, last) <= throttle
}

/// The admissions of `log` that are still within `throttle` of `now`.
pub open spec fn recent(log: Map<Seq<char>, u128>, now: u128, throttle: u128) -> Map<
    Seq<char>,
    u128,
> {
    Map::new(
        |path: Seq<char>| log.contains_key(path) && within_throttle(now, log[path], throttle),
        |path: Seq<char>| log[path],
    )
}

/// Whether a path with the admissions in `log` behind it is admitted at `now`:
/// it was never admitted, or more than `throttle` has passed since it last was.
pub open spec fn admits(log: Map<Seq<char>, u128>, path: Seq<char>, now: u128, throttle: u128) -> bool {
    !log.contains_key(path) || !within_throttle(now, log[path], throttle)
}

/// The log after `path` was observed at `now`: an admitted observation is
/// stamped with `now`, a dropped one changes nothing.
pub open spec fn observed(log: Map<Seq<char>, u128>, path: Seq<char>, now: u128, throttle: u128) -> Map<
    Seq<char>,
    u128,
> {
    if admits(log, path, now, throttle) {
        log.insert(path, now)
    } else {
        log
    }
}

/// Exec counterpart of [`within_throttle`].
pub fn is_within_throttle(now: u128, last: u128, throttle: u128) -> (within: bool)
    ensures
        within == within_throttle(now, last, throttle),
{
    if now >= last {
        now - last <= throttle
    } else {
        true
    }
}

/// One remembered admission.
struct Admission {
    path: String,
    at: u128,
}

spec fn distinct_paths(entries: Seq<Admission>) -> bool {
    forall|i: int, j: int|
        0 <= i < j < entries.len() ==> (#[trigger] entries[i]).path@ != (#[trigger] entries[j]).path@
}

spec fn holds(entries: Seq<Admission>, path: Seq<char>) -> bool {
    exists|i: int| 0 <= i < entries.len() && (#[trigger] entries[i]).path@ == path
}

spec fn position(entries: Seq<Admission>, path: Seq<char>) -> int {
    choose|i: int| 0 <= i < entries.len() && (#[trigger] entries[i]).path@ == path
}

spec fn as_map(entries: Seq<Admission>) -> Map<Seq<char>, u128> {
    Map::new(
        |path: Seq<char>| holds(entries, path),
        |path: Seq<char>| entries[position(entries, path)].at,
    )
}

proof fn lemma_entry_is_mapped(entries: Seq<Admission>, i: int)
    requires
        distinct_paths(entries),
        0 <= i < entries.len(),
    ensures
        as_map(entries).contains_key(entries[i].path@),
        as_map(entries)[entries[i].path@] == entries[i].at,
{
    let path = entries[i].path@;
    assert(holds(entries, path));
    let chosen = position(entries, path);
    assert(chosen == i) by {
        if chosen < i {
            assert(entries[chosen].path@ != entries[i].path@);
        } else if i < chosen {
            assert(entries[i].path@ != entries[chosen].path@);
        }
    }
}

proof fn lemma_absent_is_unmapped(entries: Seq<Admission>, path: Seq<char>)
    requires
        forall|i: int| 0 <= i < entries.len() ==> (#[trigger] entries[i]).path@ != path,
    ensures
        !as_map(entries).contains_key(path),
{
}

proof fn lemma_push_inserts(entries: Seq<Admission>, entry: Admission)
    requires
        distinct_paths(entries),
        !as_map(entries).contains_key(entry.path@),
    ensures
        distinct_paths(entries.push(entry)),
        as_map(entries.push(entry)) == as_map(entries).insert(entry.path@, entry.at),
{
    let grown = entries.push(entry);
    assert forall|i: int, j: int| 0 <= i < j < grown.len() implies (#[trigger] grown[i]).path@ != (
    #[trigger] grown[j]).path@ by {
        if j == entries.len() {
            assert(grown[i] == entries[i]);
            if entries[i].path@ == entry.path@ {
                assert(holds(entries, entry.path@));
            }
        } else {
            assert(grown[i] == entries[i] && grown[j] == entries[j]);
        }
    }
    assert forall|path: Seq<char>|
        as_map(grown).contains_key(path) <==> #[trigger] as_map(entries).insert(
            entry.path@,
            entry.at,
        ).contains_key(path) by {
        if holds(grown, path) {
            let i = position(grown, path);
            if i < entries.len() {
                assert(grown[i] == entries[i]);
                assert(holds(entries, path));
            }
        }
        if holds(entries, path) {
            let i = position(entries, path);
            assert(grown[i] == entries[i]);
            assert(holds(grown, path));
        }
        if path == entry.path@ {
            assert(grown[entries.len() as int] == entry);
            assert(holds(grown, path));
        }
    }
    assert forall|path: Seq<char>| as_map(grown).contains_key(path) implies #[trigger] as_map(
        grown,
    )[path] == as_map(entries).insert(entry.path@, entry.at)[path] by {
        let i = position(grown, path);
        lemma_entry_is_mapped(grown, i);
        if i < entries.len() {
            assert(grown[i] == entries[i]);
            lemma_entry_is_mapped(entries, i);
        }
    }
    assert(as_map(grown) =~= as_map(entries).insert(entry.path@, entry.at));
}

proof fn lemma_update_inserts(entries: Seq<Admission>, at: int, entry: Admission)
    requires
        distinct_paths(entries),
        0 <= at < entries.len(),
        entries[at].path@ == entry.path@,
    ensures
        distinct_paths(entries.update(at, entry)),
        as_map(entries.update(at, entry)) == as_map(entries).insert(entry.path@, entry.at),
{
    let changed = entries.update(at, entry);
    assert forall|i: int, j: int| 0 <= i < j < changed.len() implies (#[trigger] changed[i]).path@
        != (#[trigger] changed[j]).path@ by {
        assert(changed[i].path@ == entries[i].path@);
        assert(changed[j].path@ == entries[j].path@);
    }
    assert forall|path: Seq<char>|
        as_map(changed).contains_key(path) <==> #[trigger] as_map(entries).insert(
            entry.path@,
            entry.at,
        ).contains_key(path) by {
        if holds(changed, path) {
            let i = position(changed, path);
            assert(changed[i].path@ == entries[i].path@);
            assert(holds(entries, path));
        }
        if holds(entries, path) {
            let i = position(entries, path);
            assert(changed[i].path@ == entries[i].path@);
            assert(holds(changed, path));
        }
        if path == entry.path@ {
            assert(changed[at] == entry);
            assert(holds(changed, path));
        }
    }
    assert forall|path: Seq<char>| as_map(changed).contains_key(path) implies #[trigger] as_map(
        changed,
    )[path] == as_map(entries).insert(entry.path@, entry.at)[path] by {
        let i = position(changed, path);
        lemma_entry_is_mapped(changed, i);
        if i != at {
            assert(changed[i] == entries[i]);
            lemma_entry_is_mapped(entries, i);
        }
    }
    assert(as_map(changed) =~= as_map(entries).insert(entry.path@, entry.at));
}

/// The admissions that are remembered: for each path at most one, the last.
///
/// Its view is the map from a path to the clock reading of its last admission.
pub struct AdmissionLog {
    entries: Vec<Admission>,
}

impl View for AdmissionLog {
    type V = Map<Seq<char>, u128>;

    closed spec fn view(&self) -> Map<Seq<char>, u128> {
        as_map(self.entries@)
    }
}

impl AdmissionLog {
    #[verifier::type_invariant]
    spec fn paths_are_distinct(self) -> bool {
        distinct_paths(self.entries@)
    }

    /// A log that remembers nothing.
    pub fn new() -> (log: AdmissionLog)
        ensures
            log@ == Map::<Seq<char>, u128>::empty(),
    {
        let log = AdmissionLog { entries: Vec::new() };
        assert(log@ =~= Map::<Seq<char>, u128>::empty());
        log
    }

    /// The number of paths that are remembered.
    pub fn len(&self) -> (count: usize)
        ensures
            count == self@.len(),
            self@.dom().finite(),
    {
        proof {
            use_type_invariant(self);
            lemma_map_size(self.entries@);
        }
        self.entries.len()
    }

    /// Where `path` stands among the entries, if it is remembered.
    fn find(&self, path: &String) -> (found: Option<usize>)
        ensures
            match found {
                Some(i) => i < self.entries.len() && self.entries[i as int].path@ == path@,
                None => !self@.contains_key(path@),
            },
    {
        let mut i: usize = 0;
        while i < self.entries.len()
            invariant
                i <= self.entries.len(),
                forall|k: int| 0 <= k < i ==> (#[trigger] self.entries[k]).path@ != path@,
            decreases self.entries.len() - i,
        {
            if self.entries[i].path == *path {
                return Some(i);
            }
            i += 1;
        }
        proof {
            lemma_absent_is_unmapped(self.entries@, path@);
        }
        None
    }

    /// Observes `path` at `now`. A path that was never admitted, or last more
    /// than `throttle` ago, is admitted and stamped with `now`; any other
    /// observation is dropped and leaves the log as it is.
    pub fn observe(&mut self, path: String, now: u128, throttle: u128) -> (admitted: bool)
        ensures
            admitted == admits(old(self)@, path@, now, throttle),
            final(self)@ == observed(old(self)@, path@, now, throttle),
    {
        proof {
            use_type_invariant(&*self);
        }
        match self.find(&path) {
            Some(i) => {
                proof {
                    lemma_entry_is_mapped(self.entries@, i as int);
                }
                if is_within_throttle(now, self.entries[i].at, throttle) {
                    false
                } else {
                    let entry = Admission { path, at: now };
                    proof {
                        lemma_update_inserts(self.entries@, i as int, entry);
                    }
                    let mut entries = Vec::new();
                    std::mem::swap(&mut entries, &mut self.entries);
                    entries.set(i, entry);
                    self.entries = entries;
                    true
                }
            },
            None => {
                let entry = Admission { path, at: now };
                proof {
                    lemma_push_inserts(self.entries@, entry);
                }
                let mut entries = Vec::new();
                std::mem::swap(&mut entries, &mut self.entries);
                entries.push(entry);
                self.entries = entries;
                true
            },
        }
    }

    /// Forgets every admission that lies more than `throttle` before `now`, and
    /// no other.
    pub fn forget_stale(&mut self, now: u128, throttle: u128)
        ensures
            final(self)@ == recent(old(self)@, now, throttle),
    {
        proof {
            use_type_invariant(&*self);
        }
        let mut entries = Vec::new();
        std::mem::swap(&mut entries, &mut self.entries);
        let mut kept: Vec<Admission> = Vec::new();
        let mut i: usize = 0;
        assert(entries@.take(0) =~= Seq::<Admission>::empty());
        assert(as_map(kept@) =~= recent(as_map(entries@.take(0)), now, throttle));
        while i < entries.len()
            invariant
                i <= entries.len(),
                distinct_paths(entries@),
                distinct_paths(kept@),
                as_map(kept@) == recent(as_map(entries@.take(i as int)), now, throttle),
            decreases entries.len() - i,
        {
            let ghost seen = entries@.take(i as int);
            proof {
                assert(entries@.take(i + 1) =~= seen.push(entries@[i as int]));
                assert(distinct_paths(seen)) by {
                    assert forall|a: int, b: int| 0 <= a < b < seen.len() implies (
                    #[trigger] seen[a]).path@ != (#[trigger] seen[b]).path@ by {
                        assert(seen[a] == entries@[a] && seen[b] == entries@[b]);
                    }
                }
                assert(!as_map(seen).contains_key(entries@[i as int].path@)) by {
                    assert forall|k: int| 0 <= k < seen.len() implies (#[trigger] seen[k]).path@
                        != entries@[i as int].path@ by {
                        assert(seen[k] == entries@[k]);
                    }
                    lemma_absent_is_unmapped(seen, entries@[i as int].path@);
                }
                lemma_push_inserts(seen, entries@[i as int]);
            }
            if is_within_throttle(now, entries[i].at, throttle) {
                let entry = Admission { path: entries[i].path.clone(), at: entries[i].at };
                proof {
                    lemma_push_inserts(kept@, entry);
                    assert(as_map(kept@.push(entry)) =~= recent(
                        as_map(entries@.take(i + 1)),
                        now,
                        throttle,
                    ));
                }
                kept.push(entry);
            } else {
                assert(as_map(kept@) =~= recent(as_map(entries@.take(i + 1)), now, throttle));
            }
            i += 1;
        }
        assert(entries@.take(i as int) =~= entries@);
        self.entries = kept;
    }
}

proof fn lemma_map_size(entries: Seq<Admission>)
    requires
        distinct_paths(entries),
    ensures
        as_map(entries).dom().finite(),
        as_map(entries).len() == entries.len(),
    decreases entries.len(),
{
    if entries.len() == 0 {
        assert(as_map(entries) =~= Map::<Seq<char>, u128>::empty());
    } else {
        let front = entries.drop_last();
        let last = entries.last();
        assert(distinct_paths(front)) by {
            assert forall|a: int, b: int| 0 <= a < b < front.len() implies (#[trigger] front[a]).path@
                != (#[trigger] front[b]).path@ by {
                assert(front[a] == entries[a] && front[b] == entries[b]);
            }
        }
        assert(!as_map(front).contains_key(last.path@)) by {
            assert forall|k: int| 0 <= k < front.len() implies (#[trigger] front[k]).path@
                != last.path@ by {
                assert(front[k] == entries[k]);
                assert(entries[entries.len() - 1] == last);
            }
            lemma_absent_is_unmapped(front, last.path@);
        }
        lemma_map_size(front);
        lemma_push_inserts(front, last);
        assert(front.push(last) =~= entries);
    }
}

} // verus!
