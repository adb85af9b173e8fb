//! Process registry: the process-wide mapping from a logical session
//! identifier to the identifier of its launched process.
//!
//! An entry is created when a run is launched and removed when the run
//! reaches a terminal state or when an external actor cancels the run.
//! Cancellation is cooperative: the supervision loop interprets the absence
//! of its session's entry as "externally cancelled". The caller is expected
//! to guard one shared registry with mutual exclusion; every operation here
//! is a plain synchronous call on `&mut self` or `&self`.

use vstd::prelude::*;
use crate::strutil::str_eq;

verus! {

/// Registered sessions, as an association list from session identifier to
/// process identifier. The abstraction is the map [`ProcessRegistry::view`];
/// the list never holds two entries for one session.
pub struct ProcessRegistry {
    entries: Vec<(String, u32)>,
}

/// The map an association list denotes; later entries win, though the
/// registry's invariant keeps keys unique anyway.
pub open spec fn entries_map(s: Seq<(String, u32)>) -> Map<Seq<char>, u32>
    decreases s.len(),
{
    if s.len() == 0 {
        Map::empty()
    } else {
        entries_map(s.drop_last()).insert(s.last().0@, s.last().1)
    }
}

pub open spec fn keys_unique(s: Seq<(String, u32)>) -> bool {
    forall|i: int, j: int| 0 <= i < j < s.len() ==> (#[trigger] s[i]).0@ != (#[trigger] s[j]).0@
}

proof fn lemma_entries_map_key(s: Seq<(String, u32)>, k: Seq<char>)
    ensures
        entries_map(s).contains_key(k) <==> exists|i: int|
            0 <= i < s.len() && (#[trigger] s[i]).0@ == k,
    decreases s.len(),
{
    if s.len() > 0 {
        lemma_entries_map_key(s.drop_last(), k);
        if entries_map(s).contains_key(k) {
            if s.last().0@ != k {
                assert(exists|i: int| 0 <= i < s.len() - 1 && (#[trigger] s.drop_last()[i]).0@ == k);
                let i = choose|i: int| 0 <= i < s.len() - 1 && (#[trigger] s.drop_last()[i]).0@ == k;
                assert(s[i].0@ == k);
            } else {
                assert(s[s.len() - 1].0@ == k);
            }
        }
        if exists|i: int| 0 <= i < s.len() && (#[trigger] s[i]).0@ == k {
            let i = choose|i: int| 0 <= i < s.len() && (#[trigger] s[i]).0@ == k;
            if i < s.len() - 1 {
                assert(s.drop_last()[i].0@ == k);
            }
        }
    }
}

proof fn lemma_entries_map_at(s: Seq<(String, u32)>, i: int)
    requires
        keys_unique(s),
        0 <= i < s.len(),
    ensures
        entries_map(s).contains_key(s[i].0@),
        entries_map(s)[s[i].0@] == s[i].1,
    decreases s.len(),
{
    if i == s.len() - 1 {
    } else {
        assert(s[i].0@ != s.last().0@);
        assert(s.drop_last()[i] == s[i]);
        lemma_entries_map_at(s.drop_last(), i);
    }
}

proof fn lemma_entries_map_update(s: Seq<(String, u32)>, i: int, k2: String, pid: u32)
    requires
        keys_unique(s),
        0 <= i < s.len(),
        k2@ == s[i].0@,
    ensures
        entries_map(s.update(i, (k2, pid))) =~= entries_map(s).insert(s[i].0@, pid),
    decreases s.len(),
{
    let t = s.update(i, (k2, pid));
    if i == s.len() - 1 {
        assert(t.drop_last() =~= s.drop_last());
        assert(t.last() == (k2, pid));
    } else {
        lemma_entries_map_update(s.drop_last(), i, k2, pid);
        assert(t.drop_last() =~= s.drop_last().update(i, (k2, pid)));
        assert(t.last() == s.last());
        assert(s[i].0@ != s.last().0@);
    }
}

proof fn lemma_entries_map_remove(s: Seq<(String, u32)>, i: int)
    requires
        keys_unique(s),
        0 <= i < s.len(),
    ensures
        entries_map(s.remove(i)) =~= entries_map(s).remove(s[i].0@),
    decreases s.len(),
{
    let t = s.remove(i);
    if i == s.len() - 1 {
        assert(t =~= s.drop_last());
        lemma_entries_map_key(s.drop_last(), s[i].0@);
        assert(forall|j: int|
            0 <= j < s.len() - 1 ==> (#[trigger] s.drop_last()[j]).0@ == s[j].0@);
        assert(entries_map(s.drop_last()) =~= entries_map(s.drop_last()).remove(s[i].0@));
    } else {
        lemma_entries_map_remove(s.drop_last(), i);
        assert(t.drop_last() =~= s.drop_last().remove(i));
        assert(t.last() == s.last());
        assert(s[i].0@ != s.last().0@);
    }
}

impl ProcessRegistry {
    /// What the registry holds: session identifier to process identifier.
    pub closed spec fn view(&self) -> Map<Seq<char>, u32> {
        entries_map(self.entries@)
    }

    pub closed spec fn wf(&self) -> bool {
        keys_unique(self.entries@)
    }

    pub fn new() -> (r: ProcessRegistry)
        ensures
            r.wf(),
            r@ == Map::<Seq<char>, u32>::empty(),
    {
        ProcessRegistry { entries: Vec::new() }
    }

    /// Position of the session's entry, if registered.
    fn find(&self, session_id: &str) -> (r: Option<usize>)
        requires
            self.wf(),
        ensures
            match r {
                Some(i) => i < self.entries@.len() && self.entries@[i as int].0@ == session_id@,
                None => forall|i: int|
                    0 <= i < self.entries@.len() ==> (#[trigger] self.entries@[i]).0@
                        != session_id@,
            },
    {
        let mut i: usize = 0;
        while i < self.entries.len()
            invariant
                i <= self.entries@.len(),
                forall|j: int| 0 <= j < i ==> (#[trigger] self.entries@[j]).0@ != session_id@,
            decreases self.entries@.len() - i,
        {
            if str_eq(self.entries[i].0.as_str(), session_id) {
                return Some(i);
            }
            i = i + 1;
        }
        None
    }

    /// Idempotent insert; an existing entry for the session is overwritten.
    pub fn register_process(&mut self, session_id: String, pid: u32)
        requires
            old(self).wf(),
        ensures
            final(self).wf(),
            final(self)@ == old(self)@.insert(session_id@, pid),
    {
        match self.find(session_id.as_str()) {
            Some(i) => {
                proof {
                    lemma_entries_map_update(self.entries@, i as int, session_id, pid);
                }
                let ghost s = self.entries@;
                self.entries.set(i, (session_id, pid));
                proof {
                    assert(self.entries@ =~= s.update(i as int, s.update(i as int, (
                        session_id,
                        pid,
                    ))[i as int]));
                    assert(forall|j: int|
                        0 <= j < s.len() && j != i ==> self.entries@[j] == s[j]);
                    assert(self.entries@[i as int].0@ == s[i as int].0@);
                }
            },
            None => {
                self.entries.push((session_id, pid));
                proof {
                    assert(self.entries@.drop_last() =~= old(self).entries@);
                }
            },
        }
    }

    /// Removes the session's entry; doing so when none exists changes
    /// nothing.
    pub fn unregister_process(&mut self, session_id: &str)
        requires
            old(self).wf(),
        ensures
            final(self).wf(),
            final(self)@ == old(self)@.remove(session_id@),
    {
        match self.find(session_id) {
            Some(i) => {
                proof {
                    lemma_entries_map_remove(self.entries@, i as int);
                }
                let ghost s = self.entries@;
                self.entries.remove(i);
                proof {
                    assert(self.entries@ =~= s.remove(i as int));
                }
            },
            None => {
                proof {
                    lemma_entries_map_key(self.entries@, session_id@);
                    assert(self@ =~= self@.remove(session_id@));
                }
            },
        }
    }

    /// True while the session is registered: nobody has asked to cancel it.
    /// This is not an OS-level liveness check.
    pub fn is_process_running(&self, session_id: &str) -> (r: bool)
        requires
            self.wf(),
        ensures
            r == self@.contains_key(session_id@),
    {
        proof {
            lemma_entries_map_key(self.entries@, session_id@);
        }
        match self.find(session_id) {
            Some(i) => true,
            None => false,
        }
    }
}

/// Unregistering is idempotent: removing a session that the first removal
/// already took out changes nothing the second time.
pub proof fn lemma_unregister_idempotent(m: Map<Seq<char>, u32>, session: Seq<char>)
    ensures
        m.remove(session).remove(session) == m.remove(session),
{
    assert(m.remove(session).remove(session) =~= m.remove(session));
}

/// Registering a session again replaces its mapping: only the last process
/// identifier remains.
pub proof fn lemma_register_replaces(
    m: Map<Seq<char>, u32>,
    session: Seq<char>,
    pid1: u32,
    pid2: u32,
)
    ensures
        m.insert(session, pid1).insert(session, pid2) == m.insert(session, pid2),
        m.insert(session, pid1).insert(session, pid2)[session] == pid2,
{
    assert(m.insert(session, pid1).insert(session, pid2) =~= m.insert(session, pid2));
}

} // verus!
