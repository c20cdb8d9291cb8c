//! The registry of conversions in flight.
//!
//! An identifier is in the registry from the moment its file has been claimed
//! until its job has ended. Whoever finds it there has to wait on the signal
//! kept with it; whoever does not may read the file, if there is one.

use vstd::prelude::*;
use crate::job::{start, JobAction, JobActionView, JobState};
use crate::path::{cache_path, path_from_sticker};

verus! {

/// The answer to a request whose file somebody else has claimed already,
/// whether the conversion is still running or long done.
#[derive(Clone, Copy, Debug, PartialEq, Eq, Structural)]
pub struct AlreadyClaimed;

/// The identifiers in flight, each with the signal its waiters wait on.
pub struct Cache<S> {
    entries: Vec<(String, S)>,
}

/// Whether some entry is for `id`.
spec fn has_entry<S>(entries: Seq<(String, S)>, id: Seq<char>) -> bool {
    exists|i: int| 0 <= i < entries.len() && (#[trigger] entries[i]).0@ == id
}

/// The place of the entry for `id`.
spec fn entry_index<S>(entries: Seq<(String, S)>, id: Seq<char>) -> int {
    choose|i: int| 0 <= i < entries.len() && (#[trigger] entries[i]).0@ == id
}

/// No identifier has two entries.
spec fn distinct_ids<S>(entries: Seq<(String, S)>) -> bool {
    forall|i: int, j: int|
        0 <= i < j < entries.len() ==> (#[trigger] entries[i]).0@ != (#[trigger] entries[j]).0@
}

/// The entries as a map from identifier to signal.
spec fn as_map<S>(entries: Seq<(String, S)>) -> Map<Seq<char>, S> {
    Map::new(
        |id: Seq<char>| has_entry(entries, id),
        |id: Seq<char>| entries[entry_index(entries, id)].1,
    )
}

/// The registry after a claim: the signal is entered for `id` unless `id` has
/// an entry.
pub open spec fn entered<S>(registry: Map<Seq<char>, S>, id: Seq<char>, signal: S) -> Map<
    Seq<char>,
    S,
> {
    if registry.contains_key(id) {
        registry
    } else {
        registry.insert(id, signal)
    }
}

/// The signal kept for `id`, if it is in flight.
pub open spec fn signal_of<S>(registry: Map<Seq<char>, S>, id: Seq<char>) -> Option<S> {
    if registry.contains_key(id) {
        Some(registry[id])
    } else {
        None
    }
}

proof fn lemma_entry_index<S>(entries: Seq<(String, S)>, i: int)
    requires
        distinct_ids(entries),
        0 <= i < entries.len(),
    ensures
        has_entry(entries, entries[i].0@),
        entry_index(entries, entries[i].0@) == i,
        as_map(entries).contains_key(entries[i].0@),
        as_map(entries)[entries[i].0@] == entries[i].1,
{
    let id = entries[i].0@;
    let j = entry_index(entries, id);
    assert(0 <= j < entries.len() && entries[j].0@ == id);
    if j < i {
        assert(entries[j].0@ != entries[i].0@);
    } else if i < j {
        assert(entries[i].0@ != entries[j].0@);
    }
}

proof fn lemma_push_entry<S>(entries: Seq<(String, S)>, entry: (String, S))
    requires
        distinct_ids(entries),
        !has_entry(entries, entry.0@),
    ensures
        distinct_ids(entries.push(entry)),
        as_map(entries.push(entry)) == as_map(entries).insert(entry.0@, entry.1),
{
    let after = entries.push(entry);
    assert forall|i: int, j: int| 0 <= i < j < after.len() implies (#[trigger] after[i]).0@ != (
    #[trigger] after[j]).0@ by {
        if j < entries.len() {
            assert(entries[i].0@ != entries[j].0@);
        } else {
            assert(entries[i].0@ != entry.0@);
        }
    }
    let want = as_map(entries).insert(entry.0@, entry.1);
    assert forall|id: Seq<char>| as_map(after).contains_key(id) <==> want.contains_key(id) by {
        if as_map(after).contains_key(id) {
            let i = entry_index(after, id);
            if i < entries.len() {
                assert(entries[i].0@ == id);
            }
        }
        if want.contains_key(id) {
            if id == entry.0@ {
                assert(after[entries.len() as int].0@ == id);
            } else {
                let i = entry_index(entries, id);
                assert(after[i].0@ == id);
            }
        }
    }
    assert forall|id: Seq<char>| as_map(after).contains_key(id) implies as_map(after)[id]
        == want[id] by {
        let i = entry_index(after, id);
        lemma_entry_index(after, i);
        if i < entries.len() {
            lemma_entry_index(entries, i);
        }
    }
    assert(as_map(after) =~= want);
}

proof fn lemma_remove_entry<S>(entries: Seq<(String, S)>, at: int)
    requires
        distinct_ids(entries),
        0 <= at < entries.len(),
    ensures
        distinct_ids(entries.remove(at)),
        as_map(entries.remove(at)) == as_map(entries).remove(entries[at].0@),
{
    let after = entries.remove(at);
    let gone = entries[at].0@;
    assert forall|i: int| 0 <= i < after.len() implies #[trigger] after[i] == entries[if i < at {
        i
    } else {
        i + 1
    }] by {}
    assert forall|i: int, j: int| 0 <= i < j < after.len() implies (#[trigger] after[i]).0@ != (
    #[trigger] after[j]).0@ by {
        let a = if i < at { i } else { i + 1 };
        let b = if j < at { j } else { j + 1 };
        assert(entries[a].0@ != entries[b].0@);
    }
    let want = as_map(entries).remove(gone);
    assert forall|id: Seq<char>| as_map(after).contains_key(id) <==> want.contains_key(id) by {
        if as_map(after).contains_key(id) {
            let i = entry_index(after, id);
            let a = if i < at { i } else { i + 1 };
            assert(entries[a].0@ == id);
            lemma_entry_index(entries, a);
            lemma_entry_index(entries, at);
        }
        if want.contains_key(id) {
            let a = entry_index(entries, id);
            lemma_entry_index(entries, a);
            lemma_entry_index(entries, at);
            let i = if a < at { a } else { a - 1 };
            assert(after[i].0@ == id);
        }
    }
    assert forall|id: Seq<char>| as_map(after).contains_key(id) implies as_map(after)[id]
        == want[id] by {
        let i = entry_index(after, id);
        lemma_entry_index(after, i);
        let a = if i < at { i } else { i + 1 };
        lemma_entry_index(entries, a);
    }
    assert(as_map(after) =~= want);
}

impl<S> View for Cache<S> {
    type V = Map<Seq<char>, S>;

    /// The registry: each identifier in flight with its signal.
    closed spec fn view(&self) -> Map<Seq<char>, S> {
        as_map(self.entries@)
    }
}

impl<S> Cache<S> {
    /// At most one entry per identifier.
    pub closed spec fn wf(&self) -> bool {
        distinct_ids(self.entries@)
    }

    /// A registry with nothing in flight.
    pub fn new() -> (cache: Self)
        ensures
            cache.wf(),
            cache@ == Map::<Seq<char>, S>::empty(),
    {
        let cache = Cache { entries: Vec::new() };
        assert(cache@ =~= Map::<Seq<char>, S>::empty());
        cache
    }

    fn find(&self, id: &String) -> (found: Option<usize>)
        ensures
            match found {
                Some(i) => i < self.entries@.len() && self.entries@[i as int].0@ == id@,
                None => !has_entry(self.entries@, id@),
            },
    {
        let mut i: usize = 0;
        while i < self.entries.len()
            invariant
                i <= self.entries@.len(),
                forall|k: int| 0 <= k < i ==> (#[trigger] self.entries@[k]).0@ != id@,
            decreases self.entries@.len() - i,
        {
            if self.entries[i].0 == *id {
                return Some(i);
            }
            i += 1;
        }
        None
    }

    /// The path of the sticker's image, and the signal to wait on before
    /// reading it: `Some` exactly while the sticker is in flight. Without a
    /// signal the caller may go on at once; the file is then either complete
    /// or absent.
    pub fn get_sticker(&self, sticker: &str) -> (res: (String, Option<&S>))
        requires
            self.wf(),
        ensures
            res.0@ == cache_path(sticker@),
            match res.1 {
                Some(signal) => signal_of(self@, sticker@) == Some(*signal),
                None => signal_of(self@, sticker@) is None,
            },
    {
        let path = path_from_sticker(sticker);
        let id = sticker.to_owned();
        match self.find(&id) {
            Some(i) => {
                proof {
                    lemma_entry_index(self.entries@, i as int);
                }
                (path, Some(&self.entries[i].1))
            },
            None => (path, None),
        }
    }

    /// Takes note of an attempt to claim the sticker's file. `created` says
    /// whether the file was created by this attempt, which it is only where
    /// it did not exist.
    ///
    /// Without the file the attempt changes nothing. With it the sticker is
    /// entered with `signal`, unless it has an entry, and the job to schedule
    /// is returned with its first action.
    pub fn cache_sticker(&mut self, sticker: &str, created: bool, signal: S) -> (res: Result<
        (JobState, JobAction),
        AlreadyClaimed,
    >)
        requires
            old(self).wf(),
        ensures
            final(self).wf(),
            !created ==> res is Err && final(self)@ == old(self)@,
            created ==> final(self)@ == entered(old(self)@, sticker@, signal),
            created ==> (res matches Ok(job) && job.0 == JobState::Resolving && job.1@
                == JobActionView::ResolveUrl),
    {
        if !created {
            return Err(AlreadyClaimed);
        }
        let id = sticker.to_owned();
        if self.find(&id).is_none() {
            proof {
                lemma_push_entry(self.entries@, (id, signal));
            }
            self.entries.push((id, signal));
        }
        Ok(start())
    }

    /// Ends the sticker's time in flight: its entry is removed and its signal
    /// handed back, for the caller to wake everyone who waits on it. To be
    /// called when the job has ended, however it ended.
    pub fn finish(&mut self, sticker: &str) -> (signal: Option<S>)
        requires
            old(self).wf(),
        ensures
            final(self).wf(),
            signal == signal_of(old(self)@, sticker@),
            final(self)@ == old(self)@.remove(sticker@),
    {
        let id = sticker.to_owned();
        match self.find(&id) {
            Some(i) => {
                proof {
                    lemma_entry_index(self.entries@, i as int);
                    lemma_remove_entry(self.entries@, i as int);
                }
                let entry = self.entries.remove(i);
                Some(entry.1)
            },
            None => {
                assert(old(self)@.remove(sticker@) =~= old(self)@);
                None
            },
        }
    }
}

} // verus!
