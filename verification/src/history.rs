//! The log of a stack: its states in the order in which they were recorded,
//! each linked to the one before it by the commit that recorded that one.

use vstd::prelude::*;
use crate::oid::ObjectId;
use crate::stack::{StackState, StackStateView};

verus! {

/// A recorded state: the commit that recorded it, and the state.
#[derive(Debug, PartialEq, Eq)]
pub struct LogEntry {
    pub commit: ObjectId,
    pub state: StackState,
}

/// What a recorded state stands for.
pub struct LogEntryView {
    pub commit: Seq<u8>,
    pub state: StackStateView,
}

impl View for LogEntry {
    type V = LogEntryView;

    open spec fn view(&self) -> LogEntryView {
        LogEntryView { commit: self.commit@, state: self.state@ }
    }
}

/// The views of a list of recorded states.
pub open spec fn entry_views(entries: Seq<LogEntry>) -> Seq<LogEntryView> {
    Seq::new(entries.len(), |i: int| entries[i]@)
}

/// The commits of a list of recorded states.
pub open spec fn commits_of(entries: Seq<LogEntryView>) -> Seq<Seq<u8>> {
    Seq::new(entries.len(), |i: int| entries[i].commit)
}

/// Whether `entries` is a log: the first state names no state before it,
/// every other names the commit of the one just before it, and no commit
/// recorded two states.
pub open spec fn is_log(entries: Seq<LogEntryView>) -> bool {
    &&& commits_of(entries).no_duplicates()
    &&& entries.len() > 0 ==> entries[0].state.prev is None
    &&& forall|i: int|
        1 <= i < entries.len() ==> (#[trigger] entries[i]).state.prev == Some(
            entries[i - 1].commit,
        )
}

/// The positions that are visited when the links to the state before are
/// followed, from the state that `from` recorded, for at most `steps`
/// steps. The walk ends where a state names none before it, or names a
/// commit that the log does not hold.
pub open spec fn follow(entries: Seq<LogEntryView>, from: Option<Seq<u8>>, steps: nat) -> Seq<int>
    decreases steps,
{
    match from {
        None => Seq::<int>::empty(),
        Some(c) => if steps == 0 || !commits_of(entries).contains(c) {
            Seq::<int>::empty()
        } else {
            let at = commits_of(entries).index_of(c);
            seq![at] + follow(entries, entries[at].state.prev, (steps - 1) as nat)
        },
    }
}

/// The positions from `k` down to zero.
pub open spec fn countdown(k: int) -> Seq<int> {
    Seq::new((k + 1) as nat, |i: int| k - i)
}

/// Following the links to the state before, from any state of a log, goes
/// through the states before it in strictly descending order, one step at
/// a time, and ends at the first state, which names none before it.
pub proof fn lemma_log_linear(entries: Seq<LogEntryView>, k: int, steps: nat)
    requires
        is_log(entries),
        0 <= k < entries.len(),
        steps > k,
    ensures
        follow(entries, Some(entries[k].commit), steps) == countdown(k),
    decreases k,
{
    let commits = commits_of(entries);
    assert(commits[k] == entries[k].commit);
    let at = commits.index_of(entries[k].commit);
    assert(commits[at] == commits[k]);
    assert(at == k);
    if k == 0 {
        assert(follow(entries, entries[0].state.prev, (steps - 1) as nat) == Seq::<int>::empty());
        assert(seq![0int] + Seq::<int>::empty() =~= countdown(0));
    } else {
        lemma_log_linear(entries, k - 1, (steps - 1) as nat);
        assert(seq![k] + countdown(k - 1) =~= countdown(k));
    }
}

/// The log of a stack.
#[derive(Debug, PartialEq, Eq)]
pub struct StateLog {
    entries: Vec<LogEntry>,
}

/// Why a state could not be added to a log.
#[derive(Clone, Copy, Debug, PartialEq, Eq, Structural)]
pub enum LogError {
    /// The state does not name the last recorded state as the one before
    /// it.
    BrokenLink,
    /// The commit has recorded a state of this log already.
    KnownCommit,
}

impl View for StateLog {
    type V = Seq<LogEntryView>;

    closed spec fn view(&self) -> Seq<LogEntryView> {
        entry_views(self.entries@)
    }
}

impl StateLog {
    #[verifier::type_invariant]
    spec fn inv(&self) -> bool {
        is_log(entry_views(self.entries@))
    }

    /// A log without states.
    pub fn new() -> (r: StateLog)
        ensures
            r@.len() == 0,
    {
        StateLog { entries: Vec::new() }
    }

    /// Every log that exists is a log in the sense of `is_log`.
    pub fn well_formed(&self)
        ensures
            is_log(self@),
    {
        proof {
            use_type_invariant(self);
        }
    }

    /// The number of recorded states.
    pub fn len(&self) -> (r: usize)
        ensures
            r == self@.len(),
    {
        self.entries.len()
    }

    /// The state at `position`, the oldest being at zero.
    pub fn get(&self, position: usize) -> (r: Option<&LogEntry>)
        ensures
            match r {
                Some(e) => position < self@.len() && e@ == self@[position as int],
                None => position >= self@.len(),
            },
    {
        if position < self.entries.len() {
            Some(&self.entries[position])
        } else {
            None
        }
    }

    /// The position of the state that `commit` recorded.
    pub fn position(&self, commit: &ObjectId) -> (r: Option<usize>)
        ensures
            match r {
                Some(i) => i < self@.len() && self@[i as int].commit == commit@,
                None => !commits_of(self@).contains(commit@),
            },
    {
        let ghost commits = commits_of(self@);
        let mut i: usize = 0;
        while i < self.entries.len()
            invariant
                i <= self.entries.len(),
                commits == commits_of(self@),
                forall|j: int| 0 <= j < i ==> commits[j] != commit@,
            decreases self.entries.len() - i,
        {
            if self.entries[i].commit == *commit {
                assert(self@[i as int].commit == commit@);
                return Some(i);
            }
            i = i + 1;
        }
        None
    }

    /// Adds a state that `commit` recorded. The state must name the last
    /// recorded state as the one before it, or none where the log is empty,
    /// and `commit` must be new to the log.
    pub fn record(&mut self, commit: ObjectId, state: StackState) -> (r: Result<(), LogError>)
        ensures
            match r {
                Ok(()) => final(self)@ == old(self)@.push(
                    LogEntryView { commit: commit@, state: state@ },
                ) && is_log(final(self)@),
                Err(e) => final(self)@ == old(self)@ && if state@.prev != (if old(self)@.len()
                    == 0 {
                    None::<Seq<u8>>
                } else {
                    Some(old(self)@.last().commit)
                }) {
                    e == LogError::BrokenLink
                } else {
                    e == LogError::KnownCommit && commits_of(old(self)@).contains(commit@)
                },
            },
    {
        proof {
            use_type_invariant(&*self);
        }
        let n = self.entries.len();
        let linked = match state.prev() {
            None => n == 0,
            Some(p) => n > 0 && self.entries[n - 1].commit == p,
        };
        if !linked {
            return Err(LogError::BrokenLink);
        }
        match self.position(&commit) {
            Some(at) => {
                assert(commits_of(self@)[at as int] == commit@);
                return Err(LogError::KnownCommit);
            },
            None => {},
        }
        let ghost before = entry_views(self.entries@);
        let ghost added = LogEntryView { commit: commit@, state: state@ };
        let mut entries: Vec<LogEntry> = Vec::new();
        std::mem::swap(&mut entries, &mut self.entries);
        entries.push(LogEntry { commit, state });
        proof {
            let after = entry_views(entries@);
            assert(after =~= before.push(added));
            assert(commits_of(after) =~= commits_of(before).push(commit@));
            assert forall|i: int, j: int|
                0 <= i < j < commits_of(after).len() implies commits_of(after)[i] != commits_of(
                after,
            )[j] by {
                if j == before.len() {
                    assert(commits_of(before)[i] != commit@);
                } else {
                    assert(commits_of(before)[i] != commits_of(before)[j]);
                }
            }
            assert forall|i: int| 1 <= i < after.len() implies (#[trigger] after[i]).state.prev
                == Some(after[i - 1].commit) by {
                if i < before.len() {
                    assert(after[i] == before[i]);
                    assert(after[i - 1] == before[i - 1]);
                }
            }
        }
        self.entries = entries;
        Ok(())
    }
}

} // verus!
