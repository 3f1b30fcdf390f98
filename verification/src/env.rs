//! The atom infrastructure: a process-global interning table keyed by the
//! canonical UTF-8 form of each name, with the domain's hash and ordering
//! prefix computed on insertion, and entries that live for the table's life.
use vstd::prelude::*;
use crate::external::DEFAULT_ATOM_TABLE_CAPACITY;
use crate::term::{clone_bytes, latin1_to_utf8, latin1_to_utf8_seq};

verus! {

/// The source encoding an atom's bytes arrived in.
#[derive(Clone, Copy, Debug, PartialEq, Eq, Structural)]
pub enum AtomEncoding {
    Latin1,
    Utf8,
}

impl AtomEncoding {
    /// Whether this is the Latin-1 source encoding.
    pub fn is_latin1(&self) -> (r: bool)
        ensures
            r == (*self is Latin1),
    {
        match self {
            AtomEncoding::Latin1 => true,
            AtomEncoding::Utf8 => false,
        }
    }

    /// Whether this is the UTF-8 source encoding.
    pub fn is_utf8(&self) -> (r: bool)
        ensures
            r == (*self is Utf8),
    {
        match self {
            AtomEncoding::Latin1 => false,
            AtomEncoding::Utf8 => true,
        }
    }
}

impl Default for AtomEncoding {
    /// The default source encoding is UTF-8.
    fn default() -> (r: Self)
        ensures
            r is Utf8,
    {
        AtomEncoding::Utf8
    }
}

/// The 32-bit hash an atom carries.
#[derive(Clone, Copy, Debug, PartialEq, Eq, Structural)]
pub struct AtomHashValue(pub u32);

/// The stable insertion index an atom carries.
#[derive(Clone, Copy, Debug, PartialEq, Eq, Structural)]
pub struct AtomSlotIndex(pub usize);

/// The canonical UTF-8 form of a name in a given source encoding.
pub open spec fn canon_of(encoding: AtomEncoding, name: Seq<u8>) -> Seq<u8> {
    match encoding {
        AtomEncoding::Latin1 => latin1_to_utf8_seq(name),
        AtomEncoding::Utf8 => name,
    }
}

/// One step of the shift-by-four hash: mix one byte into the state.
pub open spec fn pjw_mix(h: u32, v: u8) -> u32 {
    let h1 = ((((h << 4) as int) + v) % 0x1_0000_0000) as u32;
    let g = h1 & 0xf0000000;
    if g > 0 {
        (h1 ^ (g >> 24)) ^ g
    } else {
        h1
    }
}

/// The atom hash: the shift-by-four variant folded over the canonical bytes.
pub open spec fn pjw_spec(s: Seq<u8>) -> u32
    decreases s.len(),
{
    if s.len() == 0 {
        0
    } else {
        pjw_mix(pjw_spec(s.drop_last()), s.last())
    }
}

/// The fast-ordering prefix: the first four canonical bytes, zero padded,
/// packed as `(c0 << 23) + (c1 << 15) + (c2 << 7) + (c3 >> 1)`.
pub open spec fn ord0_of(c: Seq<u8>) -> i32 {
    let c0: int = if c.len() > 0 {
        c[0] as int
    } else {
        0
    };
    let c1: int = if c.len() > 1 {
        c[1] as int
    } else {
        0
    };
    let c2: int = if c.len() > 2 {
        c[2] as int
    } else {
        0
    };
    let c3: int = if c.len() > 3 {
        c[3] as int
    } else {
        0
    };
    (c0 * 0x800000 + c1 * 0x8000 + c2 * 0x80 + c3 / 2) as i32
}

/// Computes the atom hash of a byte string.
pub fn atom_hashpjw(text: &[u8]) -> (r: u32)
    ensures
        r == pjw_spec(text@),
{
    let n = text.len();
    let mut h: u32 = 0;
    let mut i: usize = 0;
    while i < n
        invariant
            n == text@.len(),
            i <= n,
            h == pjw_spec(text@.take(i as int)),
        decreases n - i,
    {
        let v = text[i];
        let h1: u32 = (h << 4).wrapping_add(v as u32);
        proof {
            assert(h1 == ((((h << 4) as int) + v) % 0x1_0000_0000) as u32);
        }
        let g: u32 = h1 & 0xf0000000;
        let h2: u32 = if g > 0 {
            (h1 ^ (g >> 24)) ^ g
        } else {
            h1
        };
        proof {
            assert(text@.take(i + 1).drop_last() =~= text@.take(i as int));
            assert(text@.take(i + 1).last() == text@[i as int]);
        }
        h = h2;
        i = i + 1;
    }
    assert(text@.take(n as int) =~= text@);
    h
}

/// Computes the fast-ordering prefix of a canonical byte string.
pub fn atom_ord0(c: &[u8]) -> (r: i32)
    ensures
        r == ord0_of(c@),
{
    let c0: i32 = if c.len() > 0 {
        c[0] as i32
    } else {
        0
    };
    let c1: i32 = if c.len() > 1 {
        c[1] as i32
    } else {
        0
    };
    let c2: i32 = if c.len() > 2 {
        c[2] as i32
    } else {
        0
    };
    let c3: i32 = if c.len() > 3 {
        c[3] as i32
    } else {
        0
    };
    c0 * 0x800000 + c1 * 0x8000 + c2 * 0x80 + c3 / 2
}

/// The model of one table entry: the raw bytes as they arrived, the
/// canonical UTF-8 form, the source encoding, and the computed hash and
/// ordering prefix.
pub struct AtomEntryV {
    pub raw: Seq<u8>,
    pub canonical: Seq<u8>,
    pub encoding: AtomEncoding,
    pub hash: u32,
    pub ord0: i32,
}

/// One interned atom record.
#[derive(Debug, PartialEq, Eq)]
pub struct AtomEntry {
    hash_value: u32,
    slot_index: usize,
    ord0: i32,
    encoding: AtomEncoding,
    name: Vec<u8>,
    canonical: Vec<u8>,
}

impl AtomEntry {
    /// The entry's model.
    pub closed spec fn view(&self) -> AtomEntryV {
        AtomEntryV {
            raw: self.name@,
            canonical: self.canonical@,
            encoding: self.encoding,
            hash: self.hash_value,
            ord0: self.ord0,
        }
    }

    /// The entry's stable insertion index.
    pub closed spec fn spec_slot(&self) -> int {
        self.slot_index as int
    }

    /// The hash and ordering prefix are the ones the canonical form demands,
    /// and the canonical form is the transcoding of the raw bytes.
    pub open spec fn wf(&self) -> bool {
        self@.canonical == canon_of(self@.encoding, self@.raw) && self@.hash == pjw_spec(
            self@.canonical,
        ) && self@.ord0 == ord0_of(self@.canonical)
    }

    /// The source encoding the entry arrived in.
    pub fn encoding(&self) -> (r: AtomEncoding)
        ensures
            r == self@.encoding,
    {
        self.encoding
    }

    /// The entry's 32-bit hash.
    pub fn hash_value(&self) -> (r: AtomHashValue)
        ensures
            r.0 == self@.hash,
    {
        AtomHashValue(self.hash_value)
    }

    /// The entry's ordering prefix.
    pub fn ord0(&self) -> (r: i32)
        ensures
            r == self@.ord0,
    {
        self.ord0
    }

    /// The canonical UTF-8 bytes, transcoded from Latin-1 where the source
    /// demanded it.
    pub fn iter_bytes(&self) -> (r: Vec<u8>)
        ensures
            r@ == self@.canonical,
    {
        clone_bytes(&self.canonical)
    }

    /// The raw bytes as they arrived.
    pub fn name(&self) -> (r: &[u8])
        ensures
            r@ == self@.raw,
    {
        self.name.as_slice()
    }

    /// Whether comparing this entry requires the Latin-1 transcoding: the
    /// canonical form is longer than the raw bytes.
    pub fn needs_latin1_encoding(&self) -> (r: bool)
        ensures
            r == (self@.canonical.len() > self@.raw.len()),
    {
        self.canonical.len() > self.name.len()
    }

    /// The entry's stable insertion index.
    pub fn slot_index(&self) -> (r: AtomSlotIndex)
        ensures
            r.0 == self.spec_slot(),
    {
        AtomSlotIndex(self.slot_index)
    }
}

impl Clone for AtomEntry {
    /// An entry clones to an entry with the same model and slot.
    fn clone(&self) -> (r: Self)
        ensures
            r@ == self@,
            r.spec_slot() == self.spec_slot(),
    {
        AtomEntry {
            hash_value: self.hash_value,
            slot_index: self.slot_index,
            ord0: self.ord0,
            encoding: self.encoding,
            name: clone_bytes(&self.name),
            canonical: clone_bytes(&self.canonical),
        }
    }
}

/// A value-typed atom handle: a copy of its interned record, cheap to pass
/// around and valid for the table's whole life.
#[derive(Clone, Debug, PartialEq, Eq)]
pub struct Atom {
    entry: AtomEntry,
}

impl Atom {
    /// The handle's record model.
    pub closed spec fn view(&self) -> AtomEntryV {
        self.entry@
    }

    /// The handle's stable insertion index.
    pub closed spec fn spec_slot(&self) -> int {
        self.entry.spec_slot()
    }

    /// The underlying record.
    pub fn entry(&self) -> (r: &AtomEntry)
        ensures
            r@ == self@,
            r.spec_slot() == self.spec_slot(),
    {
        &self.entry
    }

    /// The entry's stable insertion index.
    pub fn slot_index(&self) -> (r: AtomSlotIndex)
        ensures
            r.0 == self.spec_slot(),
    {
        self.entry.slot_index()
    }

    /// The entry's 32-bit hash.
    pub fn hash_value(&self) -> (r: AtomHashValue)
        ensures
            r.0 == self@.hash,
    {
        self.entry.hash_value()
    }
}

/// Two byte vectors hold the same bytes.
fn bytes_equal(a: &Vec<u8>, b: &Vec<u8>) -> (r: bool)
    ensures
        r == (a@ == b@),
{
    if a.len() != b.len() {
        assert(a@ != b@) by {
            assert(a@.len() != b@.len());
        }
        return false;
    }
    let n = a.len();
    let mut i: usize = 0;
    while i < n
        invariant
            n == a@.len(),
            n == b@.len(),
            i <= n,
            forall|j: int| 0 <= j < i ==> a@[j] == b@[j],
        decreases n - i,
    {
        if a[i] != b[i] {
            return false;
        }
        i = i + 1;
    }
    assert(a@ =~= b@);
    true
}

/// The interning table: a stable insertion-indexed vector of entries, keyed
/// by canonical UTF-8 form, growing its capacity by powers of two. Entries
/// are never removed.
#[derive(Debug)]
pub struct AtomTable {
    entries: Vec<AtomEntry>,
    capacity: usize,
}

impl AtomTable {
    /// The table's model: its entries in insertion order.
    pub closed spec fn view(&self) -> Seq<AtomEntryV> {
        Seq::new(self.entries@.len(), |i: int| self.entries@[i]@)
    }

    /// The table's logical capacity.
    pub closed spec fn spec_capacity(&self) -> int {
        self.capacity as int
    }

    /// Every entry is well formed, sits at its own index, and no two entries
    /// share a canonical form.
    pub open spec fn wf(&self) -> bool {
        &&& forall|i: int|
            0 <= i < self@.len() ==> (#[trigger] self@[i]).canonical == canon_of(
                self@[i].encoding,
                self@[i].raw,
            ) && self@[i].hash == pjw_spec(self@[i].canonical) && self@[i].ord0 == ord0_of(
                self@[i].canonical,
            )
        &&& forall|i: int, j: int|
            0 <= i < j < self@.len() ==> (#[trigger] self@[i]).canonical != (
            #[trigger] self@[j]).canonical
        &&& self.spec_wf_slots()
    }

    /// Each stored entry records its own index.
    pub closed spec fn spec_wf_slots(&self) -> bool {
        forall|i: int| 0 <= i < self.entries@.len() ==> (#[trigger] self.entries@[i]).spec_slot() == i
    }

    /// Whether some entry holds the given canonical form.
    pub open spec fn spec_has_canonical(&self, canon: Seq<u8>) -> bool {
        exists|i: int| 0 <= i < self@.len() && (#[trigger] self@[i]).canonical == canon
    }

    /// A fresh table with the default capacity.
    pub fn new() -> (r: Self)
        ensures
            r.wf(),
            r@.len() == 0,
            r.spec_capacity() == DEFAULT_ATOM_TABLE_CAPACITY,
    {
        AtomTable { entries: Vec::new(), capacity: DEFAULT_ATOM_TABLE_CAPACITY }
    }

    /// A fresh table whose capacity is the smallest power of two at or above
    /// the request.
    pub fn with_capacity(capacity: usize) -> (r: Self)
        requires
            capacity <= usize::MAX / 2,
        ensures
            r.wf(),
            r@.len() == 0,
            r.spec_capacity() >= capacity,
    {
        let mut cap: usize = 1;
        while cap < capacity
            invariant
                capacity <= usize::MAX / 2,
                1 <= cap,
            decreases 2 * capacity - cap,
        {
            cap = cap * 2;
        }
        AtomTable { entries: Vec::new(), capacity: cap }
    }

    /// The number of byte strings the table can hold before growing.
    pub fn capacity(&self) -> (r: usize)
        ensures
            r == self.spec_capacity(),
    {
        self.capacity
    }

    /// The number of interned byte strings.
    pub fn len(&self) -> (r: usize)
        ensures
            r == self@.len(),
    {
        self.entries.len()
    }

    /// Whether the table holds no interned byte strings.
    pub fn is_empty(&self) -> (r: bool)
        ensures
            r == (self@.len() == 0),
    {
        self.entries.len() == 0
    }

    /// Whether the handle names an entry of this table.
    pub fn contains(&self, id: Atom) -> (r: bool)
        ensures
            r == (id.spec_slot() < self@.len()),
    {
        self.get(id).is_some()
    }

    /// The raw bytes of the handle's entry, if the handle names one.
    pub fn get(&self, atom: Atom) -> (r: Option<&[u8]>)
        ensures
            atom.spec_slot() < self@.len() ==> r is Some && r->0@ == self@[atom.spec_slot()].raw,
            atom.spec_slot() >= self@.len() ==> r is None,
    {
        let slot = atom.slot_index();
        if slot.0 < self.entries.len() {
            Some(self.entries[slot.0].name())
        } else {
            None
        }
    }

    /// The full record of the handle's entry, if the handle names one.
    pub fn get_entry(&self, atom: Atom) -> (r: Option<&AtomEntry>)
        ensures
            atom.spec_slot() < self@.len() ==> r is Some && r->0@ == self@[atom.spec_slot()],
            atom.spec_slot() >= self@.len() ==> r is None,
    {
        let slot = atom.slot_index();
        if slot.0 < self.entries.len() {
            Some(&self.entries[slot.0])
        } else {
            None
        }
    }

    /// The index of the entry holding a canonical form, if any.
    fn find_canonical(&self, canon: &Vec<u8>) -> (r: Option<usize>)
        ensures
            match r {
                Some(i) => i < self@.len() && self@[i as int].canonical == canon@,
                None => !self.spec_has_canonical(canon@),
            },
    {
        let n = self.entries.len();
        let mut i: usize = 0;
        while i < n
            invariant
                n == self.entries@.len(),
                n == self@.len(),
                i <= n,
                forall|j: int| 0 <= j < i ==> (#[trigger] self@[j]).canonical != canon@,
            decreases n - i,
        {
            if bytes_equal(&self.entries[i].canonical, canon) {
                assert(self@[i as int].canonical == canon@);
                return Some(i);
            }
            assert(self@[i as int].canonical != canon@);
            i = i + 1;
        }
        None
    }

    /// Interns a byte string: returns the existing handle whose canonical
    /// UTF-8 form matches, or creates a fresh entry with the hash and
    /// ordering prefix the canonical form demands. The table grows by
    /// doubling when the new entry would pass its capacity.
    pub fn intern(&mut self, encoding: AtomEncoding, name: Vec<u8>) -> (r: Atom)
        requires
            old(self).wf(),
            old(self)@.len() < usize::MAX,
        ensures
            final(self).wf(),
            r@.canonical == canon_of(encoding, name@),
            r@.hash == pjw_spec(r@.canonical),
            r@.ord0 == ord0_of(r@.canonical),
            0 <= r.spec_slot() < final(self)@.len(),
            final(self)@[r.spec_slot()].canonical == r@.canonical,
            old(self).spec_has_canonical(canon_of(encoding, name@)) ==> final(self)@ == old(
                self,
            )@,
            !old(self).spec_has_canonical(canon_of(encoding, name@)) ==> final(self)@ == old(
                self,
            )@.push(r@) && r.spec_slot() == old(self)@.len() && r@.raw == name@ && r@.encoding
                == encoding,
    {
        let canon: Vec<u8> = match encoding {
            AtomEncoding::Latin1 => latin1_to_utf8(&name),
            AtomEncoding::Utf8 => clone_bytes(&name),
        };
        match self.find_canonical(&canon) {
            Some(i) => {
                let entry = self.entries[i].clone();
                proof {
                    assert(self@[i as int] == self.entries@[i as int]@);
                }
                let r = Atom { entry };
                assert(final(self)@ =~= old(self)@);
                r
            },
            None => {
                let hash_value = atom_hashpjw(canon.as_slice());
                let ord0 = atom_ord0(canon.as_slice());
                let slot_index = self.entries.len();
                if self.entries.len() >= self.capacity && self.capacity <= usize::MAX / 2 {
                    self.capacity = self.capacity * 2;
                }
                let entry = AtomEntry {
                    hash_value,
                    slot_index,
                    ord0,
                    encoding,
                    name,
                    canonical: canon,
                };
                let handle_entry = entry.clone();
                self.entries.push(entry);
                assert(final(self)@ =~= old(self)@.push(final(self).entries@[
                    final(self).entries@.len() - 1]@));
                let r = Atom { entry: handle_entry };
                assert forall|i: int, j: int|
                    0 <= i < j < self@.len() implies (#[trigger] self@[i]).canonical != (
                #[trigger] self@[j]).canonical by {
                    if j == self@.len() - 1 {
                        assert(!old(self).spec_has_canonical(self@[j].canonical));
                        assert(old(self)@[i] == self@[i]);
                    }
                }
                r
            },
        }
    }

    /// Interns a byte string whose source encoding is Latin-1.
    pub fn intern_latin1(&mut self, contents: Vec<u8>) -> (r: Atom)
        requires
            old(self).wf(),
            old(self)@.len() < usize::MAX,
        ensures
            final(self).wf(),
            r@.canonical == canon_of(AtomEncoding::Latin1, contents@),
            r@.hash == pjw_spec(r@.canonical),
            r@.ord0 == ord0_of(r@.canonical),
            0 <= r.spec_slot() < final(self)@.len(),
            final(self)@[r.spec_slot()].canonical == r@.canonical,
    {
        self.intern(AtomEncoding::Latin1, contents)
    }

    /// Interns a byte string whose source encoding is UTF-8.
    pub fn intern_utf8(&mut self, contents: Vec<u8>) -> (r: Atom)
        requires
            old(self).wf(),
            old(self)@.len() < usize::MAX,
        ensures
            final(self).wf(),
            r@.canonical == contents@,
            r@.hash == pjw_spec(r@.canonical),
            r@.ord0 == ord0_of(r@.canonical),
            0 <= r.spec_slot() < final(self)@.len(),
            final(self)@[r.spec_slot()].canonical == r@.canonical,
    {
        self.intern(AtomEncoding::Utf8, contents)
    }
}

/// The process environment: the owner of the process-global atom table.
#[derive(Debug)]
pub struct Env {
    atom_table: AtomTable,
}

impl Env {
    /// The table's model.
    pub closed spec fn view(&self) -> Seq<AtomEntryV> {
        self.atom_table@
    }

    /// The table is well formed.
    pub closed spec fn wf(&self) -> bool {
        self.atom_table.wf()
    }

    /// A fresh environment with an empty atom table.
    pub fn new() -> (r: Self)
        ensures
            r.wf(),
            r@.len() == 0,
    {
        Env { atom_table: AtomTable::new() }
    }

    /// Interns an atom name, taking the bytes as UTF-8.
    pub fn make_atom(&mut self, atom_name: Vec<u8>) -> (r: Atom)
        requires
            old(self).wf(),
            old(self)@.len() < usize::MAX,
        ensures
            final(self).wf(),
            r@.canonical == atom_name@,
            r@.hash == pjw_spec(r@.canonical),
    {
        self.make_atom_utf8(atom_name)
    }

    /// Interns an atom name whose bytes are Latin-1.
    pub fn make_atom_latin1(&mut self, atom_name: Vec<u8>) -> (r: Atom)
        requires
            old(self).wf(),
            old(self)@.len() < usize::MAX,
        ensures
            final(self).wf(),
            r@.canonical == canon_of(AtomEncoding::Latin1, atom_name@),
            r@.hash == pjw_spec(r@.canonical),
    {
        self.atom_table.intern(AtomEncoding::Latin1, atom_name)
    }

    /// Interns an atom name whose bytes are UTF-8.
    pub fn make_atom_utf8(&mut self, atom_name: Vec<u8>) -> (r: Atom)
        requires
            old(self).wf(),
            old(self)@.len() < usize::MAX,
        ensures
            final(self).wf(),
            r@.canonical == atom_name@,
            r@.hash == pjw_spec(r@.canonical),
    {
        self.atom_table.intern(AtomEncoding::Utf8, atom_name)
    }
}

/// Atom canonicalization: a name interned from its Latin-1 bytes and the
/// same name interned from the UTF-8 transcoding of those bytes share one
/// canonical form, and therefore one hash, one ordering prefix, and one
/// table entry.
pub proof fn lemma_atom_canonicalization(b: Seq<u8>)
    ensures
        canon_of(AtomEncoding::Latin1, b) == canon_of(AtomEncoding::Utf8, latin1_to_utf8_seq(b)),
        pjw_spec(canon_of(AtomEncoding::Latin1, b)) == pjw_spec(
            canon_of(AtomEncoding::Utf8, latin1_to_utf8_seq(b)),
        ),
        ord0_of(canon_of(AtomEncoding::Latin1, b)) == ord0_of(
            canon_of(AtomEncoding::Utf8, latin1_to_utf8_seq(b)),
        ),
{
}

/// Hash determinism: the hash of the empty name is zero, and the hash of any
/// name is fixed by its bytes alone.
pub proof fn lemma_hash_determinism()
    ensures
        pjw_spec(Seq::<u8>::empty()) == 0,
{
}

} // verus!
