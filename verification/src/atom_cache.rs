//! The distribution atom cache: 2048 optional slots addressed by the
//! reference protocol of one connection.
use vstd::prelude::*;
use crate::external::ERTS_ATOM_CACHE_SIZE;
use crate::term::Atom;

verus! {

/// A cheaply copyable reference to a cached atom.
#[derive(Debug, PartialEq, Eq)]
pub struct AtomRef {
    atom: Atom,
}

impl Clone for AtomRef {
    /// A reference clones to a reference naming the same atom.
    fn clone(&self) -> (r: Self)
        ensures
            r.name() == self.name(),
    {
        AtomRef { atom: self.atom.clone() }
    }
}

impl AtomRef {
    /// The name of the referenced atom.
    pub closed spec fn name(&self) -> Seq<u8> {
        self.atom.name@
    }

    /// Wraps an atom.
    pub fn new(atom: Atom) -> (r: Self)
        ensures
            r.name() == atom.name@,
    {
        AtomRef { atom }
    }

    /// A fresh copy of the referenced atom.
    pub fn to_owned_atom(&self) -> (r: Atom)
        ensures
            r.name@ == self.name(),
    {
        self.atom.clone()
    }
}

/// The structured error of the cache layer.
#[derive(Clone, Copy, Debug, PartialEq, Eq, Structural)]
pub enum AtomCacheError {
    /// The slot index escapes the cache's fixed range.
    OutOfRange { index: usize, limit: usize },
}

/// Fixed array of optional atom slots; out-of-range indices are refused
/// with a structured error rather than a panic.
#[derive(Debug)]
pub struct AtomCache {
    slots: Vec<Option<AtomRef>>,
}

impl AtomCache {
    /// The cache's contents as a sequence of optional atom names.
    pub closed spec fn view_slots(&self) -> Seq<Option<Seq<u8>>> {
        Seq::new(
            self.slots@.len(),
            |i: int|
                match self.slots@[i] {
                    Some(r) => Some(r.name()),
                    None => None,
                },
        )
    }

    /// The cache always holds exactly its fixed number of slots.
    pub open spec fn wf(&self) -> bool {
        self.view_slots().len() == ERTS_ATOM_CACHE_SIZE
    }

    /// A cache of empty slots.
    pub fn new() -> (r: Self)
        ensures
            r.wf(),
            forall|i: int| 0 <= i < ERTS_ATOM_CACHE_SIZE ==> r.view_slots()[i] is None,
    {
        let mut slots: Vec<Option<AtomRef>> = Vec::new();
        let mut i: usize = 0;
        while i < ERTS_ATOM_CACHE_SIZE
            invariant
                i <= ERTS_ATOM_CACHE_SIZE,
                slots@.len() == i,
                forall|j: int| 0 <= j < i ==> slots@[j] is None,
            decreases ERTS_ATOM_CACHE_SIZE - i,
        {
            slots.push(None);
            i = i + 1;
        }
        AtomCache { slots }
    }

    /// The occupant of a slot, or `OutOfRange` for an index past the end.
    pub fn get(&self, index: usize) -> (r: Result<Option<AtomRef>, AtomCacheError>)
        requires
            self.wf(),
        ensures
            index < ERTS_ATOM_CACHE_SIZE ==> r is Ok && (match r->Ok_0 {
                Some(a) => self.view_slots()[index as int] == Some(a.name()),
                None => self.view_slots()[index as int] is None,
            }),
            index >= ERTS_ATOM_CACHE_SIZE ==> r == Result::<Option<AtomRef>, AtomCacheError>::Err(
                AtomCacheError::OutOfRange { index, limit: ERTS_ATOM_CACHE_SIZE },
            ),
    {
        if index < ERTS_ATOM_CACHE_SIZE {
            let prior = match &self.slots[index] {
                Some(a) => Some(a.clone()),
                None => None,
            };
            Ok(prior)
        } else {
            Err(AtomCacheError::OutOfRange { index, limit: ERTS_ATOM_CACHE_SIZE })
        }
    }

    /// Stores an atom in a slot, returning the prior occupant; an index past
    /// the end is refused.
    pub fn insert(&mut self, index: usize, atom: AtomRef) -> (r: Result<
        Option<AtomRef>,
        AtomCacheError,
    >)
        requires
            old(self).wf(),
        ensures
            final(self).wf(),
            index < ERTS_ATOM_CACHE_SIZE ==> r is Ok && final(self).view_slots() == old(
                self,
            ).view_slots().update(index as int, Some(atom.name())) && (match r->Ok_0 {
                Some(a) => old(self).view_slots()[index as int] == Some(a.name()),
                None => old(self).view_slots()[index as int] is None,
            }),
            index >= ERTS_ATOM_CACHE_SIZE ==> r == Result::<Option<AtomRef>, AtomCacheError>::Err(
                AtomCacheError::OutOfRange { index, limit: ERTS_ATOM_CACHE_SIZE },
            ) && final(self).view_slots() == old(self).view_slots(),
    {
        if index < ERTS_ATOM_CACHE_SIZE {
            let prior = match &self.slots[index] {
                Some(a) => Some(a.clone()),
                None => None,
            };
            self.slots.set(index, Some(atom));
            assert(self.view_slots() =~= old(self).view_slots().update(
                index as int,
                Some(self.slots@[index as int]->Some_0.name()),
            ));
            Ok(prior)
        } else {
            assert(self.view_slots() =~= old(self).view_slots());
            Err(AtomCacheError::OutOfRange { index, limit: ERTS_ATOM_CACHE_SIZE })
        }
    }

    /// Whether a slot holds nothing; an index past the end is refused.
    pub fn is_slot_empty(&self, index: usize) -> (r: Result<bool, AtomCacheError>)
        requires
            self.wf(),
        ensures
            index < ERTS_ATOM_CACHE_SIZE ==> r == Result::<bool, AtomCacheError>::Ok(
                self.view_slots()[index as int] is None,
            ),
            index >= ERTS_ATOM_CACHE_SIZE ==> r == Result::<bool, AtomCacheError>::Err(
                AtomCacheError::OutOfRange { index, limit: ERTS_ATOM_CACHE_SIZE },
            ),
    {
        if index < ERTS_ATOM_CACHE_SIZE {
            Ok(self.slots[index].is_none())
        } else {
            Err(AtomCacheError::OutOfRange { index, limit: ERTS_ATOM_CACHE_SIZE })
        }
    }

    /// Clears a slot, returning the prior occupant; an index past the end is
    /// refused.
    pub fn remove(&mut self, index: usize) -> (r: Result<Option<AtomRef>, AtomCacheError>)
        requires
            old(self).wf(),
        ensures
            final(self).wf(),
            index < ERTS_ATOM_CACHE_SIZE ==> r is Ok && final(self).view_slots() == old(
                self,
            ).view_slots().update(index as int, None) && (match r->Ok_0 {
                Some(a) => old(self).view_slots()[index as int] == Some(a.name()),
                None => old(self).view_slots()[index as int] is None,
            }),
            index >= ERTS_ATOM_CACHE_SIZE ==> r == Result::<Option<AtomRef>, AtomCacheError>::Err(
                AtomCacheError::OutOfRange { index, limit: ERTS_ATOM_CACHE_SIZE },
            ) && final(self).view_slots() == old(self).view_slots(),
    {
        if index < ERTS_ATOM_CACHE_SIZE {
            let prior = match &self.slots[index] {
                Some(a) => Some(a.clone()),
                None => None,
            };
            self.slots.set(index, None);
            assert(self.view_slots() =~= old(self).view_slots().update(index as int, None));
            Ok(prior)
        } else {
            assert(self.view_slots() =~= old(self).view_slots());
            Err(AtomCacheError::OutOfRange { index, limit: ERTS_ATOM_CACHE_SIZE })
        }
    }
}

} // verus!
