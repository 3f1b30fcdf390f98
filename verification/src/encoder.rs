//! The writer: turns a well-formed term into its canonical wire bytes,
//! charging one reduction per term node against the scheduler handle.
use vstd::prelude::*;
use vstd::pervasive::unreached;
use crate::enc::{
    byte_list_bytes, enc_atom, enc_external, enc_fixint, enc_pairs, enc_pid, enc_terms, enc_termv,
    is_byte_list, lemma_be32_words_push, lemma_enc_pairs_push, lemma_enc_terms_push,
    lemma_view_pairs_props, lemma_view_terms_props, lemma_wf_pairs_index, lemma_wf_terms_index,
    wf_termv,
};
use crate::external::{
    ATOM_UTF8_EXT, BINARY_EXT, BIT_BINARY_EXT, EXPORT_EXT, FUN_EXT, INTEGER_EXT, LARGE_BIG_EXT,
    LARGE_TUPLE_EXT, LIST_EXT, MAP_EXT, NEWER_REFERENCE_EXT, NEW_FLOAT_EXT, NEW_FUN_EXT,
    NEW_PID_EXT, NIL_EXT, SMALL_ATOM_UTF8_EXT, SMALL_BIG_EXT, SMALL_INTEGER_EXT, SMALL_TUPLE_EXT,
    STRING_EXT, V4_PORT_EXT, VERSION_MAGIC,
};
use crate::process::Process;
use crate::term::{
    view_pairs, view_terms, Bignum, Bitstring, Fun, InternalFun, List, Number, Pid, Reference,
    Sign, Term, TermV,
};
use crate::wire::{put_be16, put_be32, put_be64, put_bytes};

verus! {

/// Appends the size-minimizing encoding of an atom name.
fn put_atom(out: &mut Vec<u8>, name: &Vec<u8>)
    requires
        name@.len() < 65536,
    ensures
        final(out)@ == old(out)@ + enc_atom(name@),
{
    if name.len() < 256 {
        out.push(SMALL_ATOM_UTF8_EXT);
        out.push(name.len() as u8);
        put_bytes(out, name.as_slice());
        assert(out@ =~= old(out)@ + enc_atom(name@));
    } else {
        out.push(ATOM_UTF8_EXT);
        put_be16(out, name.len() as u16);
        put_bytes(out, name.as_slice());
        assert(out@ =~= old(out)@ + enc_atom(name@));
    }
}

/// Appends the size-minimizing encoding of a 32-bit integer.
fn put_fixint(out: &mut Vec<u8>, v: i32)
    ensures
        final(out)@ == old(out)@ + enc_fixint(v as int),
{
    if 0 <= v && v < 256 {
        out.push(SMALL_INTEGER_EXT);
        out.push(v as u8);
        assert(out@ =~= old(out)@ + enc_fixint(v as int));
    } else {
        out.push(INTEGER_EXT);
        put_be32(out, v as u32);
        assert(out@ =~= old(out)@ + enc_fixint(v as int));
    }
}

/// Appends the encoding of a pid.
fn put_pid_term(out: &mut Vec<u8>, p: &Pid)
    requires
        p.node.name@.len() < 65536,
    ensures
        final(out)@ == old(out)@ + enc_pid(p@),
{
    out.push(NEW_PID_EXT);
    put_atom(out, &p.node.name);
    put_be32(out, p.id);
    put_be32(out, p.serial);
    put_be32(out, p.creation);
    assert(out@ =~= old(out)@ + enc_pid(p@));
}

/// The byte a term contributes to a byte-string list, when it is a
/// byte-sized integer.
fn term_as_byte(t: &Term) -> (r: Option<u8>)
    ensures
        match r {
            Some(b) => t@ == TermV::FixInteger(b as int),
            None => !(t@ matches TermV::FixInteger(v) && 0 <= v < 256),
        },
{
    match t {
        Term::Number(Number::FixInteger(f)) => {
            if 0 <= f.value && f.value < 256 {
                Some(f.value as u8)
            } else {
                None
            }
        },
        Term::Number(Number::Bignum(_)) => None,
        Term::Number(Number::Float(_)) => None,
        Term::Atom(_) => None,
        Term::Reference(_) => None,
        Term::Fun(Fun::ExternalFun(_)) => None,
        Term::Fun(Fun::InternalFun(InternalFun::Old { .. })) => None,
        Term::Fun(Fun::InternalFun(InternalFun::New { .. })) => None,
        Term::Port(_) => None,
        Term::Pid(_) => None,
        Term::Tuple(_) => None,
        Term::MapTerm(_) => None,
        Term::Nil(_) => None,
        Term::List(_) => None,
        Term::Bitstring(_) => None,
        Term::Dist(_) => None,
    }
}

/// Whether the term is the empty-list sentinel.
fn term_is_nil(t: &Term) -> (r: bool)
    ensures
        r == (t@ == TermV::Nil),
{
    match t {
        Term::Number(_) => false,
        Term::Atom(_) => false,
        Term::Reference(_) => false,
        Term::Fun(_) => false,
        Term::Port(_) => false,
        Term::Pid(_) => false,
        Term::Tuple(_) => false,
        Term::MapTerm(_) => false,
        Term::Nil(_) => true,
        Term::List(_) => false,
        Term::Bitstring(_) => false,
        Term::Dist(_) => false,
    }
}

/// True when the list travels as a byte string: short, proper, every element
/// a byte-sized integer.
fn list_is_byte_string(l: &List) -> (r: bool)
    ensures
        r == is_byte_list(view_terms(l.elements@), (*l.tail)@),
{
    proof {
        lemma_view_terms_props(l.elements@);
    }
    let ghost ev = view_terms(l.elements@);
    if !term_is_nil(&l.tail) {
        return false;
    }
    let n = l.elements.len();
    if n == 0 || n >= 65536 {
        return false;
    }
    let mut i: usize = 0;
    while i < n
        invariant
            n == l.elements@.len(),
            ev == view_terms(l.elements@),
            ev.len() == n,
            forall|j: int| 0 <= j < n ==> ev[j] == l.elements@[j]@,
            i <= n,
            forall|j: int|
                0 <= j < i ==> (#[trigger] ev[j] matches TermV::FixInteger(v) && 0 <= v < 256),
        decreases n - i,
    {
        match term_as_byte(&l.elements[i]) {
            Some(_) => (),
            None => {
                proof {
                    assert(!(ev[i as int] matches TermV::FixInteger(v) && 0 <= v < 256));
                }
                return false;
            },
        }
        i = i + 1;
    }
    true
}

/// Writes a big integer with the size-minimizing big tag.
fn encode_bignum(x: &Bignum, out: &mut Vec<u8>)
    ensures
        final(out)@ == old(out)@ + enc_termv(TermV::Bignum(x.sign, x.magnitude@)),
{
    if x.magnitude.len() < 256 {
        out.push(SMALL_BIG_EXT);
        out.push(x.magnitude.len() as u8);
    } else {
        out.push(LARGE_BIG_EXT);
        put_be32(out, x.magnitude.len() as u32);
    }
    match x.sign {
        Sign::Plus => out.push(0u8),
        Sign::Minus => out.push(1u8),
    }
    put_bytes(out, x.magnitude.as_slice());
    assert(out@ =~= old(out)@ + enc_termv(TermV::Bignum(x.sign, x.magnitude@)));
}

/// Writes a reference with the counted-id, 32-bit-creation tag.
fn encode_reference(x: &Reference, out: &mut Vec<u8>)
    requires
        x.node.name@.len() < 65536,
    ensures
        final(out)@ == old(out)@ + enc_termv(TermV::Reference(x.node.name@, x.id@, x.creation)),
{
    out.push(NEWER_REFERENCE_EXT);
    put_be16(out, x.id.len() as u16);
    put_atom(out, &x.node.name);
    put_be32(out, x.creation);
    let ghost base = out@;
    let n = x.id.len();
    let mut i: usize = 0;
    while i < n
        invariant
            n == x.id@.len(),
            i <= n,
            out@ == base + crate::enc::be32_words(x.id@.take(i as int)),
        decreases n - i,
    {
        put_be32(out, x.id[i]);
        proof {
            lemma_be32_words_push(x.id@.take(i as int), x.id@[i as int]);
            assert(x.id@.take(i + 1) =~= x.id@.take(i as int).push(x.id@[i as int]));
        }
        i = i + 1;
    }
    assert(x.id@.take(n as int) =~= x.id@);
    assert(out@ =~= old(out)@ + enc_termv(TermV::Reference(x.node.name@, x.id@, x.creation)));
}

/// Writes a binary, whole-byte or with a trailing partial byte left-aligned
/// on the wire.
fn encode_bitstring(x: &Bitstring, out: &mut Vec<u8>)
    requires
        x.bits < 8,
        x.bits > 0 ==> x.data@.len() > 0,
    ensures
        final(out)@ == old(out)@ + enc_termv(TermV::Bitstring(x.data@, x.bits)),
{
    let n = x.data.len();
    if x.bits == 0 {
        out.push(BINARY_EXT);
        put_be32(out, n as u32);
        put_bytes(out, x.data.as_slice());
        assert(out@ =~= old(out)@ + enc_termv(TermV::Bitstring(x.data@, x.bits)));
    } else {
        out.push(BIT_BINARY_EXT);
        put_be32(out, n as u32);
        out.push(x.bits);
        let ghost base = out@;
        let mut i: usize = 0;
        while i < n - 1
            invariant
                n == x.data@.len(),
                n > 0,
                i <= n - 1,
                out@ == base + x.data@.take(i as int),
            decreases n - 1 - i,
        {
            out.push(x.data[i]);
            assert(out@ =~= base + x.data@.take(i + 1));
            i = i + 1;
        }
        assert(x.data@.take(n - 1) =~= x.data@.drop_last());
        out.push(x.data[n - 1] << (8 - x.bits));
        assert(out@ =~= old(out)@ + enc_termv(TermV::Bitstring(x.data@, x.bits)));
    }
}

/// Writes the canonical encoding of one well-formed term after the bytes
/// already in `out`, charging one reduction per term node.
#[verifier::rlimit(60)]
pub fn encode_term(t: &Term, out: &mut Vec<u8>, process: &mut Process)
    requires
        wf_termv(t@),
        old(process).wf(),
    ensures
        final(out)@ == old(out)@ + enc_termv(t@),
        final(process).wf(),
    decreases *t, 1nat,
{
    process.bump_reds(1);
    match t {
        Term::Number(Number::FixInteger(x)) => {
            put_fixint(out, x.value);
        },
        Term::Number(Number::Bignum(x)) => {
            encode_bignum(x, out);
        },
        Term::Number(Number::Float(x)) => {
            out.push(NEW_FLOAT_EXT);
            put_be64(out, x.bits);
            assert(out@ =~= old(out)@ + enc_termv(t@));
        },
        Term::Atom(x) => {
            put_atom(out, &x.name);
        },
        Term::Reference(x) => {
            encode_reference(x, out);
        },
        Term::Fun(Fun::ExternalFun(x)) => {
            out.push(EXPORT_EXT);
            put_atom(out, &x.module.name);
            put_atom(out, &x.function.name);
            out.push(SMALL_INTEGER_EXT);
            out.push(x.arity);
            assert(out@ =~= old(out)@ + enc_termv(t@));
        },
        Term::Fun(Fun::InternalFun(InternalFun::Old { module, pid, free_vars, index, uniq })) => {
            out.push(FUN_EXT);
            put_be32(out, free_vars.len() as u32);
            put_pid_term(out, pid);
            put_atom(out, &module.name);
            put_fixint(out, *index);
            put_fixint(out, *uniq);
            proof {
                lemma_view_terms_props(free_vars@);
                lemma_decreases_elements(*t, free_vars@);
            }
            encode_terms_loop(free_vars, out, process, Ghost(*t));
            assert(out@ =~= old(out)@ + enc_termv(t@));
        },
        Term::Fun(
            Fun::InternalFun(
                InternalFun::New {
                    module,
                    arity,
                    pid,
                    free_vars,
                    index,
                    uniq,
                    old_index,
                    old_uniq,
                },
            ),
        ) => {
            let mut body: Vec<u8> = Vec::new();
            body.push(*arity);
            put_bytes(&mut body, uniq.as_slice());
            put_be32(&mut body, *index);
            put_be32(&mut body, free_vars.len() as u32);
            put_atom(&mut body, &module.name);
            put_fixint(&mut body, *old_index);
            put_fixint(&mut body, *old_uniq);
            put_pid_term(&mut body, pid);
            proof {
                lemma_view_terms_props(free_vars@);
                lemma_decreases_elements(*t, free_vars@);
            }
            encode_terms_loop(free_vars, &mut body, process, Ghost(*t));
            let ghost tailspec = seq![*arity] + uniq@ + crate::wire::be32(*index) + crate::wire::be32(
                free_vars@.len() as u32,
            ) + enc_atom(module.name@) + enc_fixint(*old_index as int) + enc_fixint(
                *old_uniq as int,
            ) + enc_pid(pid@) + enc_terms(view_terms(free_vars@));
            assert(body@ =~= tailspec);
            out.push(NEW_FUN_EXT);
            let blen = body.len();
            let sz: u32 = if blen < 0xffff_fffc {
                (blen + 4) as u32
            } else {
                0
            };
            assert(sz == crate::enc::size_field(tailspec.len() as nat));
            put_be32(out, sz);
            put_bytes(out, body.as_slice());
            assert(out@ =~= old(out)@ + enc_termv(t@));
        },
        Term::Port(x) => {
            out.push(V4_PORT_EXT);
            put_atom(out, &x.node.name);
            put_be64(out, x.id);
            put_be32(out, x.creation);
            assert(out@ =~= old(out)@ + enc_termv(t@));
        },
        Term::Pid(x) => {
            put_pid_term(out, x);
        },
        Term::Tuple(x) => {
            if x.elements.len() < 256 {
                out.push(SMALL_TUPLE_EXT);
                out.push(x.elements.len() as u8);
            } else {
                out.push(LARGE_TUPLE_EXT);
                put_be32(out, x.elements.len() as u32);
            }
            proof {
                lemma_view_terms_props(x.elements@);
                lemma_decreases_elements(*t, x.elements@);
            }
            encode_terms_loop(&x.elements, out, process, Ghost(*t));
            assert(out@ =~= old(out)@ + enc_termv(t@));
        },
        Term::MapTerm(x) => {
            out.push(MAP_EXT);
            put_be32(out, x.pairs.len() as u32);
            proof {
                lemma_view_pairs_props(x.pairs@);
                lemma_decreases_pairs(*t, x.pairs@);
            }
            encode_pairs_loop(&x.pairs, out, process, Ghost(*t));
            assert(out@ =~= old(out)@ + enc_termv(t@));
        },
        Term::Nil(_) => {
            out.push(NIL_EXT);
            assert(out@ =~= old(out)@ + enc_termv(t@));
        },
        Term::List(x) => {
            proof {
                lemma_view_terms_props(x.elements@);
            }
            if list_is_byte_string(x) {
                out.push(STRING_EXT);
                put_be16(out, x.elements.len() as u16);
                let ghost ev = view_terms(x.elements@);
                let ghost base = out@;
                let n = x.elements.len();
                let mut i: usize = 0;
                while i < n
                    invariant
                        n == x.elements@.len(),
                        ev == view_terms(x.elements@),
                        ev.len() == n,
                        forall|j: int| 0 <= j < n ==> ev[j] == x.elements@[j]@,
                        is_byte_list(ev, (*x.tail)@),
                        i <= n,
                        out@ == base + byte_list_bytes(ev).take(i as int),
                    decreases n - i,
                {
                    assert(ev[i as int] matches TermV::FixInteger(v) && 0 <= v < 256);
                    match term_as_byte(&x.elements[i]) {
                        Some(b) => {
                            out.push(b);
                        },
                        None => {
                            proof {
                                assert(false);
                            }
                            unreached()
                        },
                    }
                    assert(out@ =~= base + byte_list_bytes(ev).take(i + 1));
                    i = i + 1;
                }
                assert(byte_list_bytes(ev).take(n as int) =~= byte_list_bytes(ev));
                assert(out@ =~= old(out)@ + enc_termv(t@));
            } else {
                out.push(LIST_EXT);
                put_be32(out, x.elements.len() as u32);
                proof {
                    lemma_decreases_elements(*t, x.elements@);
                }
                encode_terms_loop(&x.elements, out, process, Ghost(*t));
                proof {
                    assert(decreases_to!(*t => *x.tail));
                }
                encode_term(&x.tail, out, process);
                assert(out@ =~= old(out)@ + enc_termv(t@));
            }
        },
        Term::Bitstring(x) => {
            encode_bitstring(x, out);
        },
        Term::Dist(_) => {
            proof {
                assert(false);
            }
            unreached()
        },
    }
}

/// Every element of a term vector sits below the term that holds the vector.
proof fn lemma_decreases_elements(parent: Term, elements: Seq<Term>)
    requires
        decreases_to!(parent => elements),
    ensures
        forall|i: int| 0 <= i < elements.len() ==> decreases_to!(parent => elements[i]),
{
    assert forall|i: int| 0 <= i < elements.len() implies decreases_to!(parent => elements[i]) by {
        assert(decreases_to!(elements => elements[i]));
    }
}

/// Every key and value of a pair vector sits below the term that holds it.
proof fn lemma_decreases_pairs(parent: Term, pairs: Seq<(Term, Term)>)
    requires
        decreases_to!(parent => pairs),
    ensures
        forall|i: int|
            0 <= i < pairs.len() ==> decreases_to!(parent => pairs[i].0) && decreases_to!(
                parent => pairs[i].1,
            ),
{
    assert forall|i: int|
        0 <= i < pairs.len() implies decreases_to!(parent => pairs[i].0) && decreases_to!(
        parent => pairs[i].1,
    ) by {
        assert(decreases_to!(pairs => pairs[i]));
        assert(decreases_to!(pairs[i] => pairs[i].0));
        assert(decreases_to!(pairs[i] => pairs[i].1));
    }
}

/// Writes the encodings of a vector of well-formed terms in order; the ghost
/// parent is the term the elements belong to, for termination.
fn encode_terms_loop(
    elements: &Vec<Term>,
    out: &mut Vec<u8>,
    process: &mut Process,
    Ghost(parent): Ghost<Term>,
)
    requires
        crate::enc::wf_terms(view_terms(elements@)),
        old(process).wf(),
        forall|i: int| 0 <= i < elements@.len() ==> decreases_to!(parent => elements@[i]),
    ensures
        final(out)@ == old(out)@ + enc_terms(view_terms(elements@)),
        final(process).wf(),
    decreases parent, 0nat,
{
    proof {
        lemma_view_terms_props(elements@);
    }
    let ghost ev = view_terms(elements@);
    let ghost base = out@;
    let n = elements.len();
    let mut i: usize = 0;
    while i < n
        invariant
            n == elements@.len(),
            ev == view_terms(elements@),
            ev.len() == n,
            forall|j: int| 0 <= j < n ==> ev[j] == elements@[j]@,
            crate::enc::wf_terms(ev),
            forall|j: int| 0 <= j < n ==> decreases_to!(parent => elements@[j]),
            i <= n,
            out@ == base + enc_terms(ev.take(i as int)),
            process.wf(),
        decreases n - i,
    {
        proof {
            lemma_wf_terms_index(ev, i as int);
            assert(decreases_to!(parent => elements@[i as int]));
        }
        encode_term(&elements[i], out, process);
        proof {
            lemma_enc_terms_push(ev.take(i as int), ev[i as int]);
            assert(ev.take(i + 1) =~= ev.take(i as int).push(ev[i as int]));
        }
        i = i + 1;
    }
    assert(ev.take(n as int) =~= ev);
    assert(out@ =~= old(out)@ + enc_terms(ev));
}

/// Writes the encodings of a vector of well-formed pairs, each key before
/// its value.
fn encode_pairs_loop(
    pairs: &Vec<(Term, Term)>,
    out: &mut Vec<u8>,
    process: &mut Process,
    Ghost(parent): Ghost<Term>,
)
    requires
        crate::enc::wf_pairs(view_pairs(pairs@)),
        old(process).wf(),
        forall|i: int|
            0 <= i < pairs@.len() ==> decreases_to!(parent => pairs@[i].0) && decreases_to!(
                parent => pairs@[i].1,
            ),
    ensures
        final(out)@ == old(out)@ + enc_pairs(view_pairs(pairs@)),
        final(process).wf(),
    decreases parent, 0nat,
{
    proof {
        lemma_view_pairs_props(pairs@);
    }
    let ghost pv = view_pairs(pairs@);
    let ghost base = out@;
    let n = pairs.len();
    let mut i: usize = 0;
    while i < n
        invariant
            n == pairs@.len(),
            pv == view_pairs(pairs@),
            pv.len() == n,
            forall|j: int| 0 <= j < n ==> pv[j] == (#[trigger] pairs@[j].0@, pairs@[j].1@),
            crate::enc::wf_pairs(pv),
            forall|j: int|
                0 <= j < n ==> decreases_to!(parent => pairs@[j].0) && decreases_to!(
                    parent => pairs@[j].1,
                ),
            i <= n,
            out@ == base + enc_pairs(pv.take(i as int)),
            process.wf(),
        decreases n - i,
    {
        proof {
            lemma_wf_pairs_index(pv, i as int);
            assert(decreases_to!(parent => pairs@[i as int].0));
            assert(decreases_to!(parent => pairs@[i as int].1));
        }
        let pair = &pairs[i];
        encode_term(&pair.0, out, process);
        encode_term(&pair.1, out, process);
        proof {
            lemma_enc_pairs_push(pv.take(i as int), pv[i as int]);
            assert(pv.take(i + 1) =~= pv.take(i as int).push(pv[i as int]));
        }
        i = i + 1;
    }
    assert(pv.take(n as int) =~= pv);
    assert(out@ =~= old(out)@ + enc_pairs(pv));
}

/// Encodes a complete external term: the version byte, then the canonical
/// encoding. The first byte of the result is always the version magic.
pub fn encode(t: &Term, process: &mut Process) -> (r: Vec<u8>)
    requires
        wf_termv(t@),
        old(process).wf(),
    ensures
        r@ == enc_external(t@),
        r@.len() > 0 && r@[0] == VERSION_MAGIC,
        final(process).wf(),
{
    let mut out: Vec<u8> = Vec::new();
    out.push(VERSION_MAGIC);
    encode_term(t, &mut out, process);
    assert(out@ =~= enc_external(t@));
    out
}

/// A byte count, capped at the greatest representable size.
pub open spec fn cap_len(n: int) -> int {
    if n > usize::MAX as int {
        usize::MAX as int
    } else {
        n
    }
}

/// Adds two capped counts, saturating at the cap.
fn sat_add(a: usize, b: usize) -> (r: usize)
    ensures
        r as int == cap_len(a + b),
{
    if a > usize::MAX - b {
        usize::MAX
    } else {
        a + b
    }
}

/// The capped byte count of one term's canonical encoding, computed without
/// materializing any bytes.
fn size_term(t: &Term) -> (r: usize)
    requires
        wf_termv(t@),
    ensures
        r as int == cap_len(enc_termv(t@).len() as int),
    decreases *t, 2int,
{
    match t {
        Term::Number(Number::FixInteger(x)) => {
            if 0 <= x.value && x.value < 256 {
                2
            } else {
                5
            }
        },
        Term::Number(Number::Bignum(x)) => {
            if x.magnitude.len() < 256 {
                sat_add(3, x.magnitude.len())
            } else {
                sat_add(6, x.magnitude.len())
            }
        },
        Term::Number(Number::Float(_)) => 9,
        Term::Atom(x) => size_atom(&x.name),
        Term::Reference(x) => {
            proof {
                crate::enc::lemma_words_len(x.id@);
            }
            let words = if x.id.len() > usize::MAX / 4 {
                usize::MAX
            } else {
                4 * x.id.len()
            };
            assert(words as int == cap_len(4 * x.id@.len() as int));
            let r0 = sat_add(sat_add(7, size_atom(&x.node.name)), words);
            assert(r0 as int == cap_len(enc_termv(t@).len() as int));
            r0
        },
        Term::Fun(Fun::ExternalFun(x)) => {
            sat_add(sat_add(3, size_atom(&x.module.name)), size_atom(&x.function.name))
        },
        Term::Fun(Fun::InternalFun(InternalFun::Old { .. })) => size_old_fun(t),
        Term::Fun(Fun::InternalFun(InternalFun::New { .. })) => size_new_fun(t),
        Term::Port(x) => {
            let r0 = sat_add(13, size_atom(&x.node.name));
            assert(r0 as int == cap_len(enc_termv(t@).len() as int));
            r0
        },
        Term::Pid(x) => size_pid(x),
        Term::Tuple(x) => {
            let hd: usize = if x.elements.len() < 256 {
                2
            } else {
                5
            };
            proof {
                lemma_view_terms_props(x.elements@);
                lemma_decreases_elements(*t, x.elements@);
            }
            let r0 = sat_add(hd, size_terms_loop(&x.elements, Ghost(*t)));
            assert(r0 as int == cap_len(enc_termv(t@).len() as int));
            r0
        },
        Term::MapTerm(x) => {
            proof {
                lemma_view_pairs_props(x.pairs@);
                lemma_decreases_pairs(*t, x.pairs@);
            }
            let r0 = sat_add(5, size_pairs_loop(&x.pairs, Ghost(*t)));
            assert(r0 as int == cap_len(enc_termv(t@).len() as int));
            r0
        },
        Term::Nil(_) => 1,
        Term::List(x) => {
            proof {
                lemma_view_terms_props(x.elements@);
            }
            if list_is_byte_string(x) {
                proof {
                    assert(byte_list_bytes(view_terms(x.elements@)).len() == x.elements@.len());
                }
                let r0 = sat_add(3, x.elements.len());
                assert(r0 as int == cap_len(enc_termv(t@).len() as int));
                r0
            } else {
                proof {
                    lemma_decreases_elements(*t, x.elements@);
                    assert(decreases_to!(*t => *x.tail));
                }
                let inner = size_terms_loop(&x.elements, Ghost(*t));
                let r0 = sat_add(sat_add(5, inner), size_term(&x.tail));
                assert(r0 as int == cap_len(enc_termv(t@).len() as int));
                r0
            }
        },
        Term::Bitstring(x) => {
            if x.bits == 0 {
                let r0 = sat_add(5, x.data.len());
                assert(r0 as int == cap_len(enc_termv(t@).len() as int));
                r0
            } else {
                let r0 = sat_add(6, x.data.len());
                assert(r0 as int == cap_len(enc_termv(t@).len() as int));
                r0
            }
        },
        Term::Dist(_) => {
            proof {
                assert(false);
            }
            unreached()
        },
    }
}

/// The byte count of a size-minimized integer's encoding.
fn size_fixint(v: i32) -> (r: usize)
    ensures
        r == crate::enc::enc_fixint(v as int).len(),
{
    if 0 <= v && v < 256 {
        2
    } else {
        5
    }
}

/// The capped byte count of an old-shape fun's encoding.
#[verifier::spinoff_prover]
fn size_old_fun(t: &Term) -> (r: usize)
    requires
        t matches Term::Fun(Fun::InternalFun(InternalFun::Old { .. })),
        wf_termv(t@),
    ensures
        r as int == cap_len(enc_termv(t@).len() as int),
    decreases *t, 1int,
{
    match t {
        Term::Fun(Fun::InternalFun(InternalFun::Old { module, pid, free_vars, index, uniq })) => {
            let base = sat_add(
                sat_add(
                    sat_add(sat_add(5, size_pid(pid)), size_atom(&module.name)),
                    size_fixint(*index),
                ),
                size_fixint(*uniq),
            );
            proof {
                lemma_view_terms_props(free_vars@);
                lemma_decreases_elements(*t, free_vars@);
            }
            let r0 = sat_add(base, size_terms_loop(free_vars, Ghost(*t)));
            assert(r0 as int == cap_len(enc_termv(t@).len() as int));
            r0
        },
        _ => {
            proof {
                assert(false);
            }
            unreached()
        },
    }
}

/// The capped byte count of a new-shape fun's encoding.
#[verifier::spinoff_prover]
#[verifier::rlimit(100)]
fn size_new_fun(t: &Term) -> (r: usize)
    requires
        t matches Term::Fun(Fun::InternalFun(InternalFun::New { .. })),
        wf_termv(t@),
    ensures
        r as int == cap_len(enc_termv(t@).len() as int),
    decreases *t, 1int,
{
    match t {
        Term::Fun(
            Fun::InternalFun(
                InternalFun::New {
                    module,
                    arity,
                    pid,
                    free_vars,
                    index,
                    uniq,
                    old_index,
                    old_uniq,
                },
            ),
        ) => {
            let base = sat_add(
                sat_add(
                    sat_add(
                        sat_add(sat_add(14, uniq.len()), size_atom(&module.name)),
                        size_fixint(*old_index),
                    ),
                    size_fixint(*old_uniq),
                ),
                size_pid(pid),
            );
            proof {
                lemma_view_terms_props(free_vars@);
                lemma_decreases_elements(*t, free_vars@);
                let tailspec = seq![*arity] + uniq@ + crate::wire::be32(*index) + crate::wire::be32(
                    free_vars@.len() as u32,
                ) + enc_atom(module.name@) + enc_fixint(*old_index as int) + enc_fixint(
                    *old_uniq as int,
                ) + enc_pid(pid@) + enc_terms(view_terms(free_vars@));
                assert(enc_termv(t@) == seq![NEW_FUN_EXT] + crate::wire::be32(
                    crate::enc::size_field(tailspec.len()),
                ) + tailspec);
            }
            let r0 = sat_add(base, size_terms_loop(free_vars, Ghost(*t)));
            assert(r0 as int == cap_len(enc_termv(t@).len() as int));
            r0
        },
        _ => {
            proof {
                assert(false);
            }
            unreached()
        },
    }
}

/// The capped byte count of an atom's encoding.
fn size_atom(name: &Vec<u8>) -> (r: usize)
    ensures
        r as int == cap_len(crate::enc::enc_atom(name@).len() as int),
{
    if name.len() < 256 {
        sat_add(2, name.len())
    } else {
        sat_add(3, name.len())
    }
}

/// The capped byte count of a pid's encoding.
fn size_pid(p: &Pid) -> (r: usize)
    ensures
        r as int == cap_len(enc_pid(p@).len() as int),
{
    sat_add(13, size_atom(&p.node.name))
}

/// The capped byte count of a term sequence's encodings.
fn size_terms_loop(elements: &Vec<Term>, Ghost(parent): Ghost<Term>) -> (r: usize)
    requires
        crate::enc::wf_terms(view_terms(elements@)),
        forall|i: int| 0 <= i < elements@.len() ==> decreases_to!(parent => elements@[i]),
    ensures
        r as int == cap_len(enc_terms(view_terms(elements@)).len() as int),
    decreases parent, 0int,
{
    proof {
        lemma_view_terms_props(elements@);
    }
    let ghost ev = view_terms(elements@);
    let n = elements.len();
    let mut acc: usize = 0;
    let mut i: usize = 0;
    while i < n
        invariant
            n == elements@.len(),
            ev == view_terms(elements@),
            ev.len() == n,
            forall|j: int| 0 <= j < n ==> ev[j] == elements@[j]@,
            crate::enc::wf_terms(ev),
            forall|j: int| 0 <= j < n ==> decreases_to!(parent => elements@[j]),
            i <= n,
            acc as int == cap_len(enc_terms(ev.take(i as int)).len() as int),
        decreases n - i,
    {
        proof {
            lemma_wf_terms_index(ev, i as int);
            assert(decreases_to!(parent => elements@[i as int]));
        }
        let sz = size_term(&elements[i]);
        proof {
            lemma_enc_terms_push(ev.take(i as int), ev[i as int]);
            assert(ev.take(i + 1) =~= ev.take(i as int).push(ev[i as int]));
        }
        acc = sat_add(acc, sz);
        i = i + 1;
    }
    assert(ev.take(n as int) =~= ev);
    acc
}

/// The capped byte count of a pair sequence's encodings.
fn size_pairs_loop(pairs: &Vec<(Term, Term)>, Ghost(parent): Ghost<Term>) -> (r: usize)
    requires
        crate::enc::wf_pairs(view_pairs(pairs@)),
        forall|i: int|
            0 <= i < pairs@.len() ==> decreases_to!(parent => pairs@[i].0) && decreases_to!(
                parent => pairs@[i].1,
            ),
    ensures
        r as int == cap_len(enc_pairs(view_pairs(pairs@)).len() as int),
    decreases parent, 0int,
{
    proof {
        lemma_view_pairs_props(pairs@);
    }
    let ghost pv = view_pairs(pairs@);
    let n = pairs.len();
    let mut acc: usize = 0;
    let mut i: usize = 0;
    while i < n
        invariant
            n == pairs@.len(),
            pv == view_pairs(pairs@),
            pv.len() == n,
            forall|j: int| 0 <= j < n ==> pv[j] == (#[trigger] pairs@[j].0@, pairs@[j].1@),
            crate::enc::wf_pairs(pv),
            forall|j: int|
                0 <= j < n ==> decreases_to!(parent => pairs@[j].0) && decreases_to!(
                    parent => pairs@[j].1,
                ),
            i <= n,
            acc as int == cap_len(enc_pairs(pv.take(i as int)).len() as int),
        decreases n - i,
    {
        proof {
            lemma_wf_pairs_index(pv, i as int);
            assert(decreases_to!(parent => pairs@[i as int].0));
            assert(decreases_to!(parent => pairs@[i as int].1));
        }
        let pair = &pairs[i];
        let ks = size_term(&pair.0);
        let vs = size_term(&pair.1);
        proof {
            lemma_enc_pairs_push(pv.take(i as int), pv[i as int]);
            assert(pv.take(i + 1) =~= pv.take(i as int).push(pv[i as int]));
        }
        acc = sat_add(acc, sat_add(ks, vs));
        i = i + 1;
    }
    assert(pv.take(n as int) =~= pv);
    acc
}

/// The size estimator: reports the exact byte count that encoding the term
/// would produce, version byte included, without materializing any bytes;
/// a count past the greatest representable size saturates there.
pub struct SizeEncoder;

impl SizeEncoder {
    /// The encoded size of a well-formed term, version byte included.
    pub fn encode(term: &Term) -> (r: usize)
        requires
            wf_termv(term@),
        ensures
            r as int == cap_len(enc_external(term@).len() as int),
    {
        sat_add(1, size_term(term))
    }
}

} // verus!
