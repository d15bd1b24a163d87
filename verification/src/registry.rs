//! The sessions that are open, by number. A session is entered when it
//! opens and struck off when it closes, so that whoever has to tear a
//! session down can tell whether it is still there.

use vstd::prelude::*;
use std::collections::HashSet;

verus! {

broadcast use vstd::std_specs::hash::group_hash_axioms;

/// The mathematical value of a [`Registry`].
pub struct Sessions {
    /// The numbers of the sessions that are open.
    pub open: Set<usize>,
    /// The number that the next session gets.
    pub next: nat,
}

/// The numbers of the open sessions.
#[derive(Debug)]
pub struct Registry {
    open: HashSet<usize>,
    next: usize,
}

impl View for Registry {
    type V = Sessions;

    closed spec fn view(&self) -> Sessions {
        Sessions { open: self.open@, next: self.next as nat }
    }
}

impl Registry {
    /// Every number entered was given out before.
    pub closed spec fn wf(&self) -> bool {
        forall|id: usize| self.open@.contains(id) ==> id < self.next
    }

    /// Every open session has a number that was given out already: the
    /// number of a new session is not among them.
    pub proof fn lemma_numbers_are_fresh(&self)
        requires
            self.wf(),
        ensures
            forall|id: usize| self@.open.contains(id) ==> id < self@.next,
    {
    }

    /// A registry without sessions; the first session gets the number 0.
    pub fn new() -> (registry: Registry)
        ensures
            registry.wf(),
            registry@.open == Set::<usize>::empty(),
            registry@.next == 0,
    {
        Registry { open: HashSet::new(), next: 0 }
    }

    /// Enters a new session and returns its number, which no session had
    /// before. When the numbers have run out, nothing is entered.
    pub fn open_session(&mut self) -> (id: Option<usize>)
        requires
            old(self).wf(),
        ensures
            final(self).wf(),
            match id {
                Some(id) => {
                    &&& id == old(self)@.next
                    &&& !old(self)@.open.contains(id)
                    &&& final(self)@.open == old(self)@.open.insert(id)
                    &&& final(self)@.next == id + 1
                },
                None => old(self)@.next == usize::MAX && final(self)@ == old(self)@,
            },
    {
        if self.next == usize::MAX {
            return None;
        }
        let id: usize = self.next;
        let _ = self.open.insert(id);
        self.next = id + 1;
        Some(id)
    }

    /// Whether the session with this number is open.
    pub fn is_open(&self, id: usize) -> (open: bool)
        ensures
            open == self@.open.contains(id),
    {
        self.open.contains(&id)
    }

    /// How many sessions are open.
    pub fn count(&self) -> (n: usize)
        ensures
            n == self@.open.len(),
    {
        self.open.len()
    }

    /// Strikes a session off and says whether it was open. The other
    /// sessions stay as they are, and the number is not given out again.
    pub fn close_session(&mut self, id: usize) -> (was_open: bool)
        requires
            old(self).wf(),
        ensures
            final(self).wf(),
            was_open == old(self)@.open.contains(id),
            final(self)@.open == old(self)@.open.remove(id),
            final(self)@.next == old(self)@.next,
    {
        self.open.remove(&id)
    }
}

} // verus!
