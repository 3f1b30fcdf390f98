//! The term universe the codec reads and writes, with its mathematical model.
use vstd::prelude::*;

verus! {

/// Sign of an arbitrary-precision integer.
#[derive(Clone, Copy, Debug, PartialEq, Eq, Structural)]
pub enum Sign {
    Plus,
    Minus,
}

/// Fixed-size 32-bit signed integer.
#[derive(Clone, Debug, PartialEq, Eq)]
pub struct FixInteger {
    /// The value of the fixed-size integer.
    pub value: i32,
}

/// Arbitrary-precision signed integer, held as a sign and a little-endian
/// magnitude with no leading (that is, trailing in the byte order) zero byte.
#[derive(Clone, Debug, PartialEq, Eq)]
pub struct Bignum {
    /// Sign of the value; zero is canonically `Plus`.
    pub sign: Sign,
    /// Magnitude bytes, least significant first, normalized.
    pub magnitude: Vec<u8>,
}

/// Finite 64-bit float, held as its IEEE-754 bit pattern so that the codec's
/// byte-level behaviour is fully determined; NaN and infinities are excluded
/// by well-formedness.
#[derive(Clone, Debug, PartialEq, Eq)]
pub struct Float {
    /// The IEEE-754 binary64 bit pattern of the value.
    pub bits: u64,
}

/// A number: fixed integer, big integer, or finite float.
#[derive(Debug, PartialEq, Eq)]
pub enum Number {
    FixInteger(FixInteger),
    Bignum(Bignum),
    Float(Float),
}

/// A symbolic constant identified by its canonical UTF-8 byte sequence.
#[derive(Debug, PartialEq, Eq)]
#[verifier::ext_equal]
pub struct Atom {
    /// Canonical UTF-8 bytes of the atom's name.
    pub name: Vec<u8>,
}

/// A remote reference: node atom, 1..=5 id words, and a creation number.
#[derive(Clone, Debug, PartialEq, Eq)]
pub struct Reference {
    pub node: Atom,
    pub id: Vec<u32>,
    pub creation: u32,
}

/// A port identifier: node atom, id, and creation number.
#[derive(Clone, Debug, PartialEq, Eq)]
pub struct Port {
    pub node: Atom,
    pub id: u64,
    pub creation: u32,
}

/// A process identifier: node atom, id, serial, and creation number.
#[derive(Clone, Debug, PartialEq, Eq)]
pub struct Pid {
    pub node: Atom,
    pub id: u32,
    pub serial: u32,
    pub creation: u32,
}

/// An ordered sequence of terms with an arity bounded by `u32`.
#[derive(Debug, PartialEq, Eq)]
pub struct Tuple {
    pub elements: Vec<Term>,
}

/// An ordered sequence of key/value pairs.
#[derive(Debug, PartialEq, Eq)]
pub struct MapTerm {
    pub pairs: Vec<(Term, Term)>,
}

/// The empty-list sentinel.
#[derive(Clone, Debug, PartialEq, Eq)]
pub struct Nil;

/// A non-empty list of head terms plus a tail term; a `Nil` tail makes the
/// list proper, anything else improper.
#[derive(Debug, PartialEq, Eq)]
pub struct List {
    pub elements: Vec<Term>,
    pub tail: Box<Term>,
}

/// A byte buffer with a trailing partial-bit count in `0..=7`; the last byte
/// of a partial buffer is kept right-aligned.
#[derive(Clone, Debug, PartialEq, Eq)]
pub struct Bitstring {
    pub data: Vec<u8>,
    pub bits: u8,
}

/// An external fun: a module/function/arity triple.
#[derive(Clone, Debug, PartialEq, Eq)]
pub struct ExternalFun {
    pub module: Atom,
    pub function: Atom,
    pub arity: u8,
}

/// An internal closure, in its old or new wire shape.
#[derive(Debug, PartialEq, Eq)]
pub enum InternalFun {
    Old {
        module: Atom,
        pid: Pid,
        free_vars: Vec<Term>,
        index: i32,
        uniq: i32,
    },
    New {
        module: Atom,
        arity: u8,
        pid: Pid,
        free_vars: Vec<Term>,
        index: u32,
        /// 16-byte digest identifying the fun.
        uniq: Vec<u8>,
        old_index: i32,
        old_uniq: i32,
    },
}

/// A fun, internal or external.
#[derive(Debug, PartialEq, Eq)]
pub enum Fun {
    InternalFun(InternalFun),
    ExternalFun(ExternalFun),
}

/// One per-message atom-cache-ref declaration carried by a distribution
/// header: a fresh entry with its atom text, or a reference to an occupied
/// cache slot.
#[derive(Clone, Debug, PartialEq, Eq)]
pub enum AtomCacheRefEntry {
    New { index: usize, atom_text: Vec<u8> },
    Old { index: usize },
}

impl AtomCacheRefEntry {
    /// A fresh declaration carrying its atom text.
    pub fn new(index: usize, atom_text: Vec<u8>) -> (r: Self)
        ensures
            (r matches AtomCacheRefEntry::New { index: i2, atom_text: t2 } && i2 == index && t2@
                == atom_text@),
    {
        AtomCacheRefEntry::New { index, atom_text }
    }

    /// A declaration referring to an occupied slot.
    pub fn old_entry(index: usize) -> (r: Self)
        ensures
            r == (AtomCacheRefEntry::Old { index }),
    {
        AtomCacheRefEntry::Old { index }
    }
}

/// A parsed distribution header record.
#[derive(Clone, Debug, PartialEq, Eq)]
pub struct DistHeader {
    pub long_atoms: bool,
    pub atom_cache_ref_entries: Vec<AtomCacheRefEntry>,
}

/// A distribution preamble.
#[derive(Clone, Debug, PartialEq, Eq)]
pub enum Dist {
    DistHeader(DistHeader),
}

/// The term universe.
///
/// Canonical order of the variants: number < atom < reference < fun < port <
/// pid < tuple < map < nil < list < bitstring. Equality is structural.
#[derive(Debug, PartialEq, Eq)]
pub enum Term {
    Number(Number),
    Atom(Atom),
    Reference(Reference),
    Fun(Fun),
    Port(Port),
    Pid(Pid),
    Tuple(Tuple),
    MapTerm(MapTerm),
    Nil(Nil),
    List(List),
    Bitstring(Bitstring),
    Dist(Dist),
}

/// Mathematical model of a term: the same tree with sequences and unbounded
/// integers in place of vectors and machine words.
pub enum TermV {
    FixInteger(int),
    Bignum(Sign, Seq<u8>),
    Float(u64),
    Atom(Seq<u8>),
    Reference(Seq<u8>, Seq<u32>, u32),
    ExternalFun(Seq<u8>, Seq<u8>, u8),
    OldFun(Seq<u8>, TermVPid, Seq<TermV>, i32, i32),
    NewFun(Seq<u8>, u8, TermVPid, Seq<TermV>, u32, Seq<u8>, i32, i32),
    Port(Seq<u8>, u64, u32),
    Pid(TermVPid),
    Tuple(Seq<TermV>),
    MapTerm(Seq<(TermV, TermV)>),
    Nil,
    List(Seq<TermV>, Box<TermV>),
    Bitstring(Seq<u8>, u8),
    Dist(bool, Seq<TermVCacheEntry>),
}

/// Model of a process identifier.
pub struct TermVPid {
    pub node: Seq<u8>,
    pub id: u32,
    pub serial: u32,
    pub creation: u32,
}

/// Model of an atom-cache-ref declaration.
pub enum TermVCacheEntry {
    New(int, Seq<u8>),
    Old(int),
}

impl Clone for Atom {
    /// An atom clones to an atom with the same name.
    fn clone(&self) -> (r: Self)
        ensures
            r.name@ == self.name@,
    {
        Atom { name: clone_bytes(&self.name) }
    }
}

/// A fresh vector holding the same bytes.
pub fn clone_bytes(v: &Vec<u8>) -> (r: Vec<u8>)
    ensures
        r@ == v@,
{
    let mut r: Vec<u8> = Vec::new();
    let n = v.len();
    let mut i: usize = 0;
    while i < n
        invariant
            n == v@.len(),
            i <= n,
            r@ == v@.take(i as int),
        decreases n - i,
    {
        r.push(v[i]);
        assert(r@ =~= v@.take(i + 1));
        i = i + 1;
    }
    assert(v@.take(n as int) =~= v@);
    r
}

/// The canonical UTF-8 form of a Latin-1 byte sequence: bytes below 0x80
/// stand as they are, every other byte expands to its two-byte form.
pub open spec fn latin1_to_utf8_seq(b: Seq<u8>) -> Seq<u8>
    decreases b.len(),
{
    if b.len() == 0 {
        Seq::empty()
    } else {
        let c = b[0];
        (if c < 0x80 {
            seq![c]
        } else {
            seq![(0xc0 | (c >> 6)) as u8, (0x80 | (c & 0x3f)) as u8]
        }) + latin1_to_utf8_seq(b.drop_first())
    }
}

/// Transcodes Latin-1 bytes to their canonical UTF-8 form.
pub fn latin1_to_utf8(v: &Vec<u8>) -> (r: Vec<u8>)
    ensures
        r@ == latin1_to_utf8_seq(v@),
{
    let mut out: Vec<u8> = Vec::new();
    let n = v.len();
    let mut i: usize = 0;
    while i < n
        invariant
            n == v@.len(),
            i <= n,
            out@ == latin1_to_utf8_seq(v@.take(i as int)),
        decreases n - i,
    {
        let c = v[i];
        if c < 0x80 {
            out.push(c);
        } else {
            out.push(0xc0 | (c >> 6));
            out.push(0x80 | (c & 0x3f));
        }
        proof {
            lemma_l2u_append(v@.take(i as int), seq![v@[i as int]]);
            assert(v@.take(i + 1) =~= v@.take(i as int) + seq![v@[i as int]]);
            let u = seq![v@[i as int]];
            assert(u.drop_first() =~= Seq::<u8>::empty());
            assert(latin1_to_utf8_seq(Seq::<u8>::empty()) == Seq::<u8>::empty());
            if c < 0x80 {
                assert(latin1_to_utf8_seq(u) =~= seq![c]);
            } else {
                assert(latin1_to_utf8_seq(u) =~= seq![(0xc0 | (c >> 6)) as u8, (0x80 | (c
                    & 0x3f)) as u8]);
            }
            assert(out@ =~= latin1_to_utf8_seq(v@.take(i as int)) + latin1_to_utf8_seq(u));
        }
        i = i + 1;
    }
    assert(v@.take(n as int) =~= v@);
    out
}

/// Transcoding distributes over concatenation.
pub proof fn lemma_l2u_append(a: Seq<u8>, b: Seq<u8>)
    ensures
        latin1_to_utf8_seq(a + b) == latin1_to_utf8_seq(a) + latin1_to_utf8_seq(b),
    decreases a.len(),
{
    if a.len() == 0 {
        assert(a + b =~= b);
        assert(latin1_to_utf8_seq(a) == Seq::<u8>::empty());
        assert(latin1_to_utf8_seq(a) + latin1_to_utf8_seq(b) =~= latin1_to_utf8_seq(b));
    } else {
        assert((a + b).drop_first() =~= a.drop_first() + b);
        lemma_l2u_append(a.drop_first(), b);
        assert((a + b)[0] == a[0]);
        assert((a + b).len() > 0);
        let h = if a[0] < 0x80 {
            seq![a[0]]
        } else {
            seq![(0xc0 | (a[0] >> 6)) as u8, (0x80 | (a[0] & 0x3f)) as u8]
        };
        assert(latin1_to_utf8_seq(a + b) == h + latin1_to_utf8_seq(a.drop_first() + b));
        assert(latin1_to_utf8_seq(a) == h + latin1_to_utf8_seq(a.drop_first()));
        assert(h + (latin1_to_utf8_seq(a.drop_first()) + latin1_to_utf8_seq(b)) =~= (h
            + latin1_to_utf8_seq(a.drop_first())) + latin1_to_utf8_seq(b));
    }
}

impl View for Pid {
    type V = TermVPid;

    open spec fn view(&self) -> TermVPid {
        TermVPid { node: self.node.name@, id: self.id, serial: self.serial, creation: self.creation }
    }
}

/// Model of a sequence of terms, elementwise.
pub open spec fn view_terms(v: Seq<Term>) -> Seq<TermV>
    decreases v,
{
    if v.len() == 0 {
        Seq::empty()
    } else {
        seq![v[0]@] + view_terms(v.drop_first())
    }
}

/// Model of a sequence of key/value pairs, elementwise.
pub open spec fn view_pairs(v: Seq<(Term, Term)>) -> Seq<(TermV, TermV)>
    decreases v,
{
    if v.len() == 0 {
        Seq::empty()
    } else {
        seq![(v[0].0@, v[0].1@)] + view_pairs(v.drop_first())
    }
}

/// Model of a sequence of cache-ref declarations, elementwise.
pub open spec fn view_cache_entries(v: Seq<AtomCacheRefEntry>) -> Seq<TermVCacheEntry>
    decreases v,
{
    if v.len() == 0 {
        Seq::empty()
    } else {
        let e = match v[0] {
            AtomCacheRefEntry::New { index, atom_text } => TermVCacheEntry::New(index as int, atom_text@),
            AtomCacheRefEntry::Old { index } => TermVCacheEntry::Old(index as int),
        };
        seq![e] + view_cache_entries(v.drop_first())
    }
}

impl View for Term {
    type V = TermV;

    open spec fn view(&self) -> TermV
        decreases self,
    {
        match self {
            Term::Number(Number::FixInteger(x)) => TermV::FixInteger(x.value as int),
            Term::Number(Number::Bignum(x)) => TermV::Bignum(x.sign, x.magnitude@),
            Term::Number(Number::Float(x)) => TermV::Float(x.bits),
            Term::Atom(x) => TermV::Atom(x.name@),
            Term::Reference(x) => TermV::Reference(x.node.name@, x.id@, x.creation),
            Term::Fun(Fun::ExternalFun(x)) => TermV::ExternalFun(x.module.name@, x.function.name@, x.arity),
            Term::Fun(Fun::InternalFun(InternalFun::Old { module, pid, free_vars, index, uniq })) =>
                TermV::OldFun(module.name@, pid@, view_terms(free_vars@), *index, *uniq),
            Term::Fun(Fun::InternalFun(InternalFun::New { module, arity, pid, free_vars, index, uniq, old_index, old_uniq })) =>
                TermV::NewFun(module.name@, *arity, pid@, view_terms(free_vars@), *index, uniq@, *old_index, *old_uniq),
            Term::Port(x) => TermV::Port(x.node.name@, x.id, x.creation),
            Term::Pid(x) => TermV::Pid(x@),
            Term::Tuple(x) => TermV::Tuple(view_terms(x.elements@)),
            Term::MapTerm(x) => TermV::MapTerm(view_pairs(x.pairs@)),
            Term::Nil(_) => TermV::Nil,
            Term::List(x) => TermV::List(view_terms(x.elements@), Box::new((*x.tail)@)),
            Term::Bitstring(x) => TermV::Bitstring(x.data@, x.bits),
            Term::Dist(Dist::DistHeader(x)) =>
                TermV::Dist(x.long_atoms, view_cache_entries(x.atom_cache_ref_entries@)),
        }
    }
}

impl Term {
    /// Whether the term is a fun.
    pub fn is_fun(&self) -> (r: bool)
        ensures
            r == (self@ matches TermV::OldFun(..) || self@ matches TermV::NewFun(..) || self@
                matches TermV::ExternalFun(..)),
    {
        match self {
            Term::Fun(_) => true,
            _ => false,
        }
    }

    /// Whether the term is an internal fun.
    pub fn is_internal_fun(&self) -> (r: bool)
        ensures
            r == (self@ matches TermV::OldFun(..) || self@ matches TermV::NewFun(..)),
    {
        match self {
            Term::Fun(Fun::InternalFun(_)) => true,
            _ => false,
        }
    }

    /// Whether the term is an external fun.
    pub fn is_external_fun(&self) -> (r: bool)
        ensures
            r == (self@ matches TermV::ExternalFun(..)),
    {
        match self {
            Term::Fun(Fun::ExternalFun(_)) => true,
            _ => false,
        }
    }

    /// Whether the term is a list: the empty-list sentinel counts.
    pub fn is_list(&self) -> (r: bool)
        ensures
            r == (self@ matches TermV::List(..) || self@ == TermV::Nil),
    {
        match self {
            Term::Nil(_) => true,
            Term::List(_) => true,
            _ => false,
        }
    }

    /// Whether the term is a map.
    pub fn is_map(&self) -> (r: bool)
        ensures
            r == (self@ matches TermV::MapTerm(..)),
    {
        match self {
            Term::MapTerm(_) => true,
            _ => false,
        }
    }

    /// Whether the term is the empty-list sentinel.
    pub fn is_nil(&self) -> (r: bool)
        ensures
            r == (self@ == TermV::Nil),
    {
        match self {
            Term::Number(_) => false,
            Term::Atom(_) => false,
            Term::Reference(_) => false,
            Term::Fun(_) => false,
            Term::Port(_) => false,
            Term::Pid(_) => false,
            Term::Tuple(_) => false,
            Term::MapTerm(_) => false,
            Term::Nil(_) => true,
            Term::List(_) => false,
            Term::Bitstring(_) => false,
            Term::Dist(_) => false,
        }
    }

    /// Whether the term is a tuple.
    pub fn is_tuple(&self) -> (r: bool)
        ensures
            r == (self@ matches TermV::Tuple(..)),
    {
        match self {
            Term::Tuple(_) => true,
            _ => false,
        }
    }
}

impl Bitstring {
    /// Whether the buffer holds only whole bytes.
    pub fn is_binary(&self) -> (r: bool)
        ensures
            r == (self.bits % 8 == 0),
    {
        self.bits % 8 == 0
    }

    /// Whether the buffer ends in a partial byte.
    pub fn is_bit_binary(&self) -> (r: bool)
        ensures
            r == (self.bits % 8 != 0),
    {
        self.bits % 8 != 0
    }
}

impl List {
    /// Whether the list is improper: its tail is not the empty-list
    /// sentinel.
    pub fn is_improper_list(&self) -> (r: bool)
        ensures
            r == ((*self.tail)@ != TermV::Nil),
    {
        match &*self.tail {
            Term::Number(_) => true,
            Term::Atom(_) => true,
            Term::Reference(_) => true,
            Term::Fun(_) => true,
            Term::Port(_) => true,
            Term::Pid(_) => true,
            Term::Tuple(_) => true,
            Term::MapTerm(_) => true,
            Term::Nil(_) => false,
            Term::List(_) => true,
            Term::Bitstring(_) => true,
            Term::Dist(_) => true,
        }
    }
}

impl Tuple {
    /// The tuple with no elements.
    pub fn empty() -> (r: Self)
        ensures
            view_terms(r.elements@) == Seq::<TermV>::empty(),
    {
        let r = Tuple { elements: Vec::new() };
        assert(view_terms(r.elements@) =~= Seq::<TermV>::empty());
        r
    }
}

impl MapTerm {
    /// The map with no pairs.
    pub fn empty() -> (r: Self)
        ensures
            view_pairs(r.pairs@) == Seq::<(TermV, TermV)>::empty(),
    {
        let r = MapTerm { pairs: Vec::new() };
        assert(view_pairs(r.pairs@) =~= Seq::<(TermV, TermV)>::empty());
        r
    }
}

impl Atom {
    /// The byte length of the atom's name.
    pub fn len(&self) -> (r: usize)
        ensures
            r == self.name@.len(),
    {
        self.name.len()
    }

    /// An atom with the given canonical name bytes.
    pub fn from_name(name: Vec<u8>) -> (r: Self)
        ensures
            r.name@ == name@,
    {
        Atom { name }
    }
}

impl Pid {
    /// A pid from its parts.
    pub fn new(node: Atom, id: u32, serial: u32, creation: u32) -> (r: Self)
        ensures
            r@ == (TermVPid { node: node.name@, id, serial, creation }),
    {
        Pid { node, id, serial, creation }
    }
}

impl Port {
    /// A port from its parts.
    pub fn new(node: Atom, id: u64, creation: u32) -> (r: Self)
        ensures
            r.node.name@ == node.name@,
            r.id == id,
            r.creation == creation,
    {
        Port { node, id, creation }
    }
}

impl Reference {
    /// A reference from its parts.
    pub fn new(node: Atom, id: Vec<u32>, creation: u32) -> (r: Self)
        ensures
            r.node.name@ == node.name@,
            r.id@ == id@,
            r.creation == creation,
    {
        Reference { node, id, creation }
    }
}

} // verus!
