//! The canonical wire encoding, as a mathematical function of a term model,
//! and the well-formedness that the codec preserves.
use vstd::prelude::*;
use vstd::utf8::valid_utf8;
use crate::external::{
    ATOM_UTF8_EXT, BINARY_EXT, BIT_BINARY_EXT, EXPORT_EXT, FUN_EXT, INTEGER_EXT, LARGE_BIG_EXT,
    LARGE_TUPLE_EXT, LIST_EXT, MAP_EXT, NEWER_REFERENCE_EXT, NEW_FLOAT_EXT, NEW_FUN_EXT,
    NEW_PID_EXT, NIL_EXT, SMALL_ATOM_UTF8_EXT, SMALL_BIG_EXT, SMALL_INTEGER_EXT, SMALL_TUPLE_EXT,
    STRING_EXT, V4_PORT_EXT, VERSION_MAGIC,
};
use crate::term::{Sign, TermV, TermVPid};
use crate::wire::{be16, be32, be32i, be64};

verus! {

/// True of the bit patterns of finite 64-bit floats: the exponent field is
/// not all ones, which excludes NaN and the infinities.
pub open spec fn is_finite_bits(bits: u64) -> bool {
    (bits >> 52) & 0x7ff != 0x7ff
}

/// The sign byte the big-integer encoding uses.
pub open spec fn sign_byte(s: Sign) -> u8 {
    match s {
        Sign::Plus => 0,
        Sign::Minus => 1,
    }
}

/// Well-formedness of a pid model: its node name is a well-formed atom name.
pub open spec fn wf_pid(p: TermVPid) -> bool {
    wf_atom_name(p.node)
}

/// Well-formedness of an atom name: canonical UTF-8, short enough for the
/// 16-bit wire length.
pub open spec fn wf_atom_name(name: Seq<u8>) -> bool {
    valid_utf8(name) && name.len() < 65536
}

/// Well-formedness of every term in a sequence.
pub open spec fn wf_terms(ts: Seq<TermV>) -> bool
    decreases ts,
{
    if ts.len() == 0 {
        true
    } else {
        wf_termv(ts[0]) && wf_terms(ts.drop_first())
    }
}

/// Well-formedness of every key and value in a pair sequence.
pub open spec fn wf_pairs(ps: Seq<(TermV, TermV)>) -> bool
    decreases ps,
{
    if ps.len() == 0 {
        true
    } else {
        wf_termv(ps[0].0) && wf_termv(ps[0].1) && wf_pairs(ps.drop_first())
    }
}

/// Well-formedness of a term model: every field within its wire-format
/// domain, floats finite, big integers and partial-byte binaries in their
/// canonical right-aligned form. Distribution headers are headers, not
/// encodable terms.
pub open spec fn wf_termv(t: TermV) -> bool
    decreases t,
{
    match t {
        TermV::FixInteger(v) => -0x8000_0000 <= v < 0x8000_0000,
        TermV::Bignum(sign, mag) => mag.len() < 0x1_0000_0000 && (mag.len() > 0 ==> mag.last()
            != 0) && (mag.len() == 0 ==> sign == Sign::Plus),
        TermV::Float(bits) => is_finite_bits(bits),
        TermV::Atom(name) => wf_atom_name(name),
        TermV::Reference(node, id, _creation) => wf_atom_name(node) && id.len() < 65536,
        TermV::ExternalFun(module, function, _arity) => wf_atom_name(module) && wf_atom_name(
            function,
        ),
        TermV::OldFun(module, pid, free_vars, _index, _uniq) => wf_atom_name(module) && wf_pid(pid)
            && free_vars.len() < 0x1_0000_0000 && wf_terms(free_vars),
        TermV::NewFun(module, _arity, pid, free_vars, _index, uniq, _old_index, _old_uniq) =>
            wf_atom_name(module) && wf_pid(pid) && free_vars.len() < 0x1_0000_0000 && wf_terms(
            free_vars,
        ) && uniq.len() == 16,
        TermV::Port(node, _id, _creation) => wf_atom_name(node),
        TermV::Pid(pid) => wf_pid(pid),
        TermV::Tuple(elements) => elements.len() < 0x1_0000_0000 && wf_terms(elements),
        TermV::MapTerm(pairs) => pairs.len() < 0x1_0000_0000 && wf_pairs(pairs),
        TermV::Nil => true,
        TermV::List(elements, tail) => elements.len() < 0x1_0000_0000 && wf_terms(elements)
            && wf_termv(*tail),
        TermV::Bitstring(data, bits) => data.len() < 0x1_0000_0000 && bits < 8 && (bits > 0
            ==> data.len() > 0 && data.last() < (1u8 << bits)),
        TermV::Dist(_, _) => false,
    }
}

/// The encoding of an atom: the size-minimizing UTF-8 atom tag.
pub open spec fn enc_atom(name: Seq<u8>) -> Seq<u8> {
    if name.len() < 256 {
        seq![SMALL_ATOM_UTF8_EXT, name.len() as u8] + name
    } else {
        seq![ATOM_UTF8_EXT] + be16(name.len() as u16) + name
    }
}

/// The encoding of a 32-bit integer value: the size-minimizing integer tag.
pub open spec fn enc_fixint(v: int) -> Seq<u8>
    recommends
        -0x8000_0000 <= v < 0x8000_0000,
{
    if 0 <= v < 256 {
        seq![SMALL_INTEGER_EXT, v as u8]
    } else {
        seq![INTEGER_EXT] + be32i(v as i32)
    }
}

/// The 32-bit size field of the new-shape fun: the byte count of the
/// payload after the tag, the field itself included.
pub open spec fn size_field(n: nat) -> u32 {
    if n + 4 < 0x1_0000_0000 {
        (n + 4) as u32
    } else {
        0
    }
}

/// The encoding of a pid: the 32-bit-creation pid tag.
pub open spec fn enc_pid(p: TermVPid) -> Seq<u8> {
    seq![NEW_PID_EXT] + enc_atom(p.node) + be32(p.id) + be32(p.serial) + be32(p.creation)
}

/// True when a list can travel as a byte string: short, proper, and all
/// elements byte-sized integers.
pub open spec fn is_byte_list(elements: Seq<TermV>, tail: TermV) -> bool {
    0 < elements.len() < 65536 && tail == TermV::Nil && (forall|i: int|
        0 <= i < elements.len() ==> (#[trigger] elements[i] matches TermV::FixInteger(v) && 0 <= v
            < 256))
}

/// The bytes of a byte-string list.
pub open spec fn byte_list_bytes(elements: Seq<TermV>) -> Seq<u8> {
    Seq::new(
        elements.len(),
        |i: int|
            match elements[i] {
                TermV::FixInteger(v) => v as u8,
                _ => 0u8,
            },
    )
}

/// The encodings of a sequence of terms, concatenated.
pub open spec fn enc_terms(ts: Seq<TermV>) -> Seq<u8>
    decreases ts,
{
    if ts.len() == 0 {
        Seq::empty()
    } else {
        enc_termv(ts[0]) + enc_terms(ts.drop_first())
    }
}

/// The encodings of a sequence of key/value pairs, each key before its value.
pub open spec fn enc_pairs(ps: Seq<(TermV, TermV)>) -> Seq<u8>
    decreases ps,
{
    if ps.len() == 0 {
        Seq::empty()
    } else {
        enc_termv(ps[0].0) + enc_termv(ps[0].1) + enc_pairs(ps.drop_first())
    }
}

/// The canonical encoding of one term, without the version byte: the
/// size-minimizing tag for numbers, atoms, tuples and lists, the modern tag
/// for pids, ports and references, and the partial-byte binary left-aligned
/// on the wire.
pub open spec fn enc_termv(t: TermV) -> Seq<u8>
    decreases t,
{
    match t {
        TermV::FixInteger(v) => enc_fixint(v),
        TermV::Bignum(sign, mag) => if mag.len() < 256 {
            seq![SMALL_BIG_EXT, mag.len() as u8, sign_byte(sign)] + mag
        } else {
            seq![LARGE_BIG_EXT] + be32(mag.len() as u32) + seq![sign_byte(sign)] + mag
        },
        TermV::Float(bits) => seq![NEW_FLOAT_EXT] + be64(bits),
        TermV::Atom(name) => enc_atom(name),
        TermV::Reference(node, id, creation) => seq![NEWER_REFERENCE_EXT] + be16(id.len() as u16)
            + enc_atom(node) + be32(creation) + be32_words(id),
        TermV::ExternalFun(module, function, arity) => seq![EXPORT_EXT] + enc_atom(module)
            + enc_atom(function) + seq![SMALL_INTEGER_EXT, arity],
        TermV::OldFun(module, pid, free_vars, index, uniq) => seq![FUN_EXT] + be32(
            free_vars.len() as u32,
        ) + enc_pid(pid) + enc_atom(module) + enc_fixint(index as int) + enc_fixint(uniq as int)
            + enc_terms(free_vars),
        TermV::NewFun(module, arity, pid, free_vars, index, uniq, old_index, old_uniq) => {
            let tail = seq![arity] + uniq + be32(index) + be32(free_vars.len() as u32) + enc_atom(
                module,
            ) + enc_fixint(old_index as int) + enc_fixint(old_uniq as int) + enc_pid(pid)
                + enc_terms(free_vars);
            seq![NEW_FUN_EXT] + be32(size_field(tail.len())) + tail
        },
        TermV::Port(node, id, creation) => seq![V4_PORT_EXT] + enc_atom(node) + be64(id) + be32(
            creation,
        ),
        TermV::Pid(pid) => enc_pid(pid),
        TermV::Tuple(elements) => if elements.len() < 256 {
            seq![SMALL_TUPLE_EXT, elements.len() as u8] + enc_terms(elements)
        } else {
            seq![LARGE_TUPLE_EXT] + be32(elements.len() as u32) + enc_terms(elements)
        },
        TermV::MapTerm(pairs) => seq![MAP_EXT] + be32(pairs.len() as u32) + enc_pairs(pairs),
        TermV::Nil => seq![NIL_EXT],
        TermV::List(elements, tail) => if is_byte_list(elements, *tail) {
            seq![STRING_EXT] + be16(elements.len() as u16) + byte_list_bytes(elements)
        } else {
            seq![LIST_EXT] + be32(elements.len() as u32) + enc_terms(elements) + enc_termv(*tail)
        },
        TermV::Bitstring(data, bits) => if bits == 0 {
            seq![BINARY_EXT] + be32(data.len() as u32) + data
        } else {
            seq![BIT_BINARY_EXT] + be32(data.len() as u32) + seq![bits] + data.drop_last() + seq![
                (data.last() << (8 - bits) as u8) as u8,
            ]
        },
        TermV::Dist(_, _) => Seq::empty(),
    }
}

/// The big-endian bytes of a sequence of 32-bit id words, concatenated.
pub open spec fn be32_words(id: Seq<u32>) -> Seq<u8>
    decreases id,
{
    if id.len() == 0 {
        Seq::empty()
    } else {
        be32(id[0]) + be32_words(id.drop_first())
    }
}

/// The encoding of a complete external term: the version byte, then the term.
pub open spec fn enc_external(t: TermV) -> Seq<u8> {
    seq![VERSION_MAGIC] + enc_termv(t)
}

/// The model of a term sequence has the same length and models each element.
pub broadcast proof fn lemma_view_terms_props(v: Seq<crate::term::Term>)
    ensures
        #![trigger crate::term::view_terms(v)]
        crate::term::view_terms(v).len() == v.len(),
        forall|i: int|
            0 <= i < v.len() ==> crate::term::view_terms(v)[i] == #[trigger] v[i]@,
    decreases v,
{
    if v.len() > 0 {
        lemma_view_terms_props(v.drop_first());
        assert(crate::term::view_terms(v) == seq![v[0]@] + crate::term::view_terms(
            v.drop_first(),
        ));
        assert forall|i: int| 0 <= i < v.len() implies crate::term::view_terms(v)[i] == #[trigger] v[i]@ by {
            if i > 0 {
                assert(v.drop_first()[i - 1] == v[i]);
                assert(crate::term::view_terms(v)[i]
                    == crate::term::view_terms(v.drop_first())[i - 1]);
            }
        }
    }
}

/// The model of a pair sequence has the same length and models each pair.
pub broadcast proof fn lemma_view_pairs_props(v: Seq<(crate::term::Term, crate::term::Term)>)
    ensures
        #![trigger crate::term::view_pairs(v)]
        crate::term::view_pairs(v).len() == v.len(),
        forall|i: int|
            0 <= i < v.len() ==> crate::term::view_pairs(v)[i] == (#[trigger] v[i].0@, v[i].1@),
    decreases v,
{
    if v.len() > 0 {
        lemma_view_pairs_props(v.drop_first());
        assert(crate::term::view_pairs(v) == seq![(v[0].0@, v[0].1@)] + crate::term::view_pairs(
            v.drop_first(),
        ));
        assert forall|i: int| 0 <= i < v.len() implies crate::term::view_pairs(v)[i] == (
        #[trigger] v[i].0@,
        v[i].1@,
        ) by {
            if i > 0 {
                assert(v.drop_first()[i - 1] == v[i]);
                assert(crate::term::view_pairs(v)[i]
                    == crate::term::view_pairs(v.drop_first())[i - 1]);
            }
        }
    }
}

/// Encoding one more term appends its encoding.
pub proof fn lemma_enc_terms_push(ts: Seq<TermV>, t: TermV)
    ensures
        enc_terms(ts.push(t)) == enc_terms(ts) + enc_termv(t),
    decreases ts,
{
    if ts.len() == 0 {
        assert(ts.push(t)[0] == t);
        assert(ts.push(t).drop_first() =~= Seq::<TermV>::empty());
        assert(enc_terms(ts.push(t)) == enc_termv(t) + enc_terms(Seq::<TermV>::empty()));
        assert(enc_terms(Seq::<TermV>::empty()) == Seq::<u8>::empty());
        assert(enc_terms(ts) == Seq::<u8>::empty());
        assert(enc_terms(ts.push(t)) =~= enc_terms(ts) + enc_termv(t));
    } else {
        assert(ts.push(t).drop_first() =~= ts.drop_first().push(t));
        lemma_enc_terms_push(ts.drop_first(), t);
        assert(ts.push(t)[0] == ts[0]);
        let a = enc_termv(ts[0]);
        let b = enc_terms(ts.drop_first());
        let c = enc_termv(t);
        assert(enc_terms(ts.push(t)) == a + enc_terms(ts.push(t).drop_first()));
        assert(enc_terms(ts.push(t).drop_first()) == b + c);
        assert(enc_terms(ts) == a + b);
        assert(a + (b + c) =~= (a + b) + c);
    }
}

/// Encoding one more pair appends the key's then the value's encoding.
pub proof fn lemma_enc_pairs_push(ps: Seq<(TermV, TermV)>, p: (TermV, TermV))
    ensures
        enc_pairs(ps.push(p)) == enc_pairs(ps) + enc_termv(p.0) + enc_termv(p.1),
    decreases ps,
{
    if ps.len() == 0 {
        assert(ps.push(p)[0] == p);
        assert(ps.push(p).drop_first() =~= Seq::<(TermV, TermV)>::empty());
        assert(enc_pairs(ps.push(p)) == enc_termv(p.0) + enc_termv(p.1) + enc_pairs(
            Seq::<(TermV, TermV)>::empty(),
        ));
        assert(enc_pairs(Seq::<(TermV, TermV)>::empty()) == Seq::<u8>::empty());
        assert(enc_pairs(ps) == Seq::<u8>::empty());
        assert(enc_pairs(ps.push(p)) =~= enc_pairs(ps) + enc_termv(p.0) + enc_termv(p.1));
    } else {
        assert(ps.push(p).drop_first() =~= ps.drop_first().push(p));
        lemma_enc_pairs_push(ps.drop_first(), p);
        assert(ps.push(p)[0] == ps[0]);
        let a = enc_termv(ps[0].0) + enc_termv(ps[0].1);
        let b = enc_pairs(ps.drop_first());
        let c = enc_termv(p.0) + enc_termv(p.1);
        assert(enc_pairs(ps.push(p)) == enc_termv(ps.push(p)[0].0) + enc_termv(ps.push(p)[0].1)
            + enc_pairs(ps.push(p).drop_first()));
        assert(enc_pairs(ps.push(p).drop_first()) == b + c);
        assert(enc_pairs(ps) == a + b);
        assert(a + (b + c) =~= (a + b) + c);
        assert(enc_pairs(ps.push(p)) =~= enc_pairs(ps) + enc_termv(p.0) + enc_termv(p.1));
    }
}

/// Writing one more id word appends its four bytes.
pub proof fn lemma_be32_words_push(id: Seq<u32>, w: u32)
    ensures
        be32_words(id.push(w)) == be32_words(id) + be32(w),
    decreases id,
{
    if id.len() == 0 {
        assert(id.push(w)[0] == w);
        assert(id.push(w).drop_first() =~= Seq::<u32>::empty());
        assert(be32_words(id.push(w)) == be32(w) + be32_words(Seq::<u32>::empty()));
        assert(be32_words(Seq::<u32>::empty()) == Seq::<u8>::empty());
        assert(be32_words(id) == Seq::<u8>::empty());
        assert(be32_words(id.push(w)) =~= be32_words(id) + be32(w));
    } else {
        assert(id.push(w).drop_first() =~= id.drop_first().push(w));
        lemma_be32_words_push(id.drop_first(), w);
        assert(id.push(w)[0] == id[0]);
        let a = be32(id[0]);
        let b = be32_words(id.drop_first());
        let c = be32(w);
        assert(be32_words(id.push(w)) == a + be32_words(id.push(w).drop_first()));
        assert(be32_words(id.push(w).drop_first()) == b + c);
        assert(be32_words(id) == a + b);
        assert(a + (b + c) =~= (a + b) + c);
    }
}

/// Each member of a well-formed term sequence is well-formed.
pub broadcast proof fn lemma_wf_terms_index(ts: Seq<TermV>, i: int)
    requires
        wf_terms(ts),
        0 <= i < ts.len(),
    ensures
        wf_termv(#[trigger] ts[i]),
    decreases ts,
{
    if i > 0 {
        assert(ts.drop_first()[i - 1] == ts[i]);
        lemma_wf_terms_index(ts.drop_first(), i - 1);
    }
}

/// Each member of a well-formed pair sequence is well-formed.
pub broadcast proof fn lemma_wf_pairs_index(ps: Seq<(TermV, TermV)>, i: int)
    requires
        wf_pairs(ps),
        0 <= i < ps.len(),
    ensures
        wf_termv((#[trigger] ps[i]).0),
        wf_termv(ps[i].1),
    decreases ps,
{
    if i > 0 {
        assert(ps.drop_first()[i - 1] == ps[i]);
        lemma_wf_pairs_index(ps.drop_first(), i - 1);
    }
}

/// The bytes of a word sequence are four per word.
pub proof fn lemma_words_len(id: Seq<u32>)
    ensures
        be32_words(id).len() == 4 * id.len(),
    decreases id.len(),
{
    if id.len() > 0 {
        lemma_words_len(id.drop_first());
    }
}

} // verus!
