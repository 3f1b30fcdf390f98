//! The laws that tie the writer and the reader together: reading a canonical
//! encoding gives the encoded term back, whole and unchanged.
use vstd::prelude::*;
use crate::dec::{
    dec_atom_utf8_ext, dec_internal_atom, dec_internal_i32, dec_internal_pid, dec_internal_u8,
    dec_pairs, dec_small_atom_utf8_ext, dec_term, dec_terms, dec_with_tag, has, rd_u32,
    rd_u32_words, strip_trailing_zeros,
};
use crate::enc::{
    be32_words, byte_list_bytes, enc_atom, enc_external, enc_fixint, enc_pairs, enc_pid,
    enc_terms, enc_termv, is_byte_list, is_finite_bits, sign_byte, size_field, wf_atom_name,
    wf_pairs, wf_pid, wf_terms, wf_termv,
};
use crate::errors::DecodeError;
use crate::external::{
    ATOM_UTF8_EXT, BINARY_EXT, BIT_BINARY_EXT, EXPORT_EXT, FUN_EXT, INTEGER_EXT, LARGE_BIG_EXT,
    LARGE_TUPLE_EXT, LIST_EXT, MAP_EXT, NEWER_REFERENCE_EXT, NEW_FLOAT_EXT, NEW_FUN_EXT,
    NEW_PID_EXT, NIL_EXT, SMALL_ATOM_UTF8_EXT, SMALL_BIG_EXT, SMALL_INTEGER_EXT, SMALL_TUPLE_EXT,
    STRING_EXT, V4_PORT_EXT, VERSION_MAGIC,
};
use crate::term::{Sign, TermV, TermVPid};
use crate::wire::{
    be16, be32, be32i, be64, from_be16, lemma_i32_u32_roundtrip, lemma_read_be16, lemma_read_be32,
    lemma_read_be64, lemma_read_u8, lemma_split,
};

verus! {

/// A normalized magnitude is unchanged by normalization.
proof fn lemma_strip_noop(b: Seq<u8>)
    requires
        b.len() == 0 || b.last() != 0,
    ensures
        strip_trailing_zeros(b) == b,
{
}

/// Reading back an atom's canonical encoding yields its name.
#[verifier::spinoff_prover]
proof fn lemma_atom_payload(s: Seq<u8>, i: int, name: Seq<u8>, refs: Seq<Seq<u8>>)
    requires
        wf_atom_name(name),
        0 <= i,
        i + enc_atom(name).len() <= s.len(),
        s.subrange(i, i + enc_atom(name).len()) == enc_atom(name),
    ensures
        dec_internal_atom(s, i, refs) == Ok::<(Seq<u8>, int), DecodeError>(
            (name, i + enc_atom(name).len()),
        ),
{
    if name.len() < 256 {
        let hd = seq![SMALL_ATOM_UTF8_EXT, name.len() as u8];
        assert(enc_atom(name) == hd + name);
        lemma_split(s, i, hd, name);
        assert(s[i] == SMALL_ATOM_UTF8_EXT) by {
            assert(s.subrange(i, i + 2)[0] == hd[0]);
        }
        assert(s[i + 1] == name.len() as u8) by {
            assert(s.subrange(i, i + 2)[1] == hd[1]);
        }
        assert(dec_small_atom_utf8_ext(s, i + 1) == Ok::<(Seq<u8>, int), DecodeError>(
            (name, i + 2 + name.len()),
        ));
    } else {
        let hd = seq![ATOM_UTF8_EXT] + be16(name.len() as u16);
        assert(enc_atom(name) == hd + name);
        lemma_split(s, i, hd, name);
        lemma_split(s, i, seq![ATOM_UTF8_EXT], be16(name.len() as u16));
        assert(s[i] == ATOM_UTF8_EXT) by {
            lemma_read_u8(s, i, ATOM_UTF8_EXT);
        }
        lemma_read_be16(s, i + 1, name.len() as u16);
        assert(from_be16(s[i + 1], s[i + 2]) as int == name.len());
        assert(dec_atom_utf8_ext(s, i + 1) == Ok::<(Seq<u8>, int), DecodeError>(
            (name, i + 3 + name.len()),
        ));
    }
}

/// Reading back a size-minimized integer yields its value.
#[verifier::spinoff_prover]
proof fn lemma_fixint_payload(s: Seq<u8>, i: int, v: i32)
    requires
        0 <= i,
        i + enc_fixint(v as int).len() <= s.len(),
        s.subrange(i, i + enc_fixint(v as int).len()) == enc_fixint(v as int),
    ensures
        dec_internal_i32(s, i) == Ok::<(i32, int), DecodeError>(
            (v, i + enc_fixint(v as int).len()),
        ),
{
    if 0 <= v < 256 {
        assert(s[i] == SMALL_INTEGER_EXT) by {
            assert(s.subrange(i, i + 2)[0] == enc_fixint(v as int)[0]);
        }
        assert(s[i + 1] == v as u8) by {
            assert(s.subrange(i, i + 2)[1] == enc_fixint(v as int)[1]);
        }
        assert((v as u8) as i32 == v);
    } else {
        lemma_split(s, i, seq![INTEGER_EXT], be32i(v));
        lemma_read_u8(s, i, INTEGER_EXT);
        lemma_read_be32(s, i + 1, v as u32);
        lemma_i32_u32_roundtrip(v);
    }
}

/// Reading back an encoded pid yields it.
#[verifier::spinoff_prover]
proof fn lemma_pid_payload(s: Seq<u8>, i: int, p: TermVPid, refs: Seq<Seq<u8>>)
    requires
        wf_pid(p),
        0 <= i,
        i + enc_pid(p).len() <= s.len(),
        s.subrange(i, i + enc_pid(p).len()) == enc_pid(p),
    ensures
        dec_internal_pid(s, i, refs) == Ok::<(TermVPid, int), DecodeError>(
            (p, i + enc_pid(p).len()),
        ),
{
    let a = enc_atom(p.node);
    assert(enc_pid(p) == seq![NEW_PID_EXT] + a + be32(p.id) + be32(p.serial) + be32(p.creation));
    assert(enc_pid(p) == (((seq![NEW_PID_EXT] + a) + be32(p.id)) + be32(p.serial)) + be32(
        p.creation,
    ));
    lemma_split(s, i, ((seq![NEW_PID_EXT] + a) + be32(p.id)) + be32(p.serial), be32(p.creation));
    lemma_split(s, i, (seq![NEW_PID_EXT] + a) + be32(p.id), be32(p.serial));
    lemma_split(s, i, seq![NEW_PID_EXT] + a, be32(p.id));
    lemma_split(s, i, seq![NEW_PID_EXT], a);
    lemma_read_u8(s, i, NEW_PID_EXT);
    lemma_atom_payload(s, i + 1, p.node, refs);
    let j = i + 1 + a.len();
    lemma_read_be32(s, j, p.id);
    lemma_read_be32(s, j + 4, p.serial);
    lemma_read_be32(s, j + 8, p.creation);
}

/// Reading back written id words yields them.
proof fn lemma_words_payload(s: Seq<u8>, w: int, id: Seq<u32>)
    requires
        0 <= w,
        w + 4 * id.len() <= s.len(),
        s.subrange(w, w + 4 * id.len()) == be32_words(id),
    ensures
        rd_u32_words(s, w, id.len() as int) == id,
    decreases id.len(),
{
    if id.len() == 0 {
        assert(rd_u32_words(s, w, 0) =~= id);
    } else {
        assert(be32_words(id) == be32(id[0]) + be32_words(id.drop_first()));
        assert(be32_words(id.drop_first()).len() == 4 * (id.len() - 1)) by {
            crate::enc::lemma_words_len(id.drop_first());
        }
        lemma_split(s, w, be32(id[0]), be32_words(id.drop_first()));
        lemma_read_be32(s, w, id[0]);
        lemma_words_payload(s, w + 4, id.drop_first());
        assert forall|k: int| 0 <= k < id.len() implies rd_u32_words(s, w, id.len() as int)[k]
            == id[k] by {
            if k == 0 {
            } else {
                assert(rd_u32_words(s, w + 4, id.len() - 1)[k - 1] == rd_u32(s, w + 4 + 4 * (k
                    - 1)));
                assert(w + 4 + 4 * (k - 1) == w + 4 * k);
                assert(id.drop_first()[k - 1] == id[k]);
            }
        }
        assert(rd_u32_words(s, w, id.len() as int) =~= id);
    }
}

/// A value left-aligned into a partial byte comes back right-aligned.
proof fn lemma_partial_byte_roundtrip(b: u8, bits: u8)
    requires
        1 <= bits < 8,
        b < (1u8 << bits),
    ensures
        (((b << ((8 - bits) as u8)) as u8) >> ((8 - bits) as u8)) == b,
{
    assert((1 <= bits < 8 && b < (1u8 << bits)) ==> (((b << ((8 - bits) as u8)) as u8) >> ((8
        - bits) as u8)) == b) by (bit_vector);
}

/// Reading back one canonically encoded well-formed term yields that term
/// and consumes exactly its encoding.
#[verifier::rlimit(100)]
pub proof fn lemma_roundtrip_term(s: Seq<u8>, i: int, t: TermV, refs: Seq<Seq<u8>>)
    requires
        wf_termv(t),
        0 <= i,
        i + enc_termv(t).len() <= s.len(),
        s.subrange(i, i + enc_termv(t).len()) == enc_termv(t),
    ensures
        dec_term(s, i, refs) == Ok::<(TermV, int), DecodeError>((t, i + enc_termv(t).len())),
    decreases t, 2int,
{
    let e = enc_termv(t);
    let p = i + 1;
    match t {
        TermV::FixInteger(v) => {
            lemma_fixint_payload(s, i, v as i32);
            assert(s[i] == e[0]) by {
                assert(s.subrange(i, i + e.len())[0] == e[0]);
            }
        },
        TermV::Bignum(sign, mag) => {
            lemma_roundtrip_bignum(s, i, sign, mag, refs);
        },
        TermV::Float(bits) => {
            assert(e == seq![NEW_FLOAT_EXT] + be64(bits));
            lemma_split(s, i, seq![NEW_FLOAT_EXT], be64(bits));
            lemma_read_u8(s, i, NEW_FLOAT_EXT);
            lemma_read_be64(s, p, bits);
        },
        TermV::Atom(name) => {
            lemma_atom_payload(s, i, name, refs);
            if name.len() < 256 {
                assert(s[i] == SMALL_ATOM_UTF8_EXT) by {
                    assert(s.subrange(i, i + e.len())[0] == e[0]);
                }
            } else {
                assert(s[i] == ATOM_UTF8_EXT) by {
                    assert(s.subrange(i, i + e.len())[0] == e[0]);
                }
            }
        },
        TermV::Reference(node, id, creation) => {
            lemma_roundtrip_reference(s, i, node, id, creation, refs);
        },
        TermV::ExternalFun(module, function, arity) => {
            lemma_roundtrip_export(s, i, module, function, arity, refs);
        },
        TermV::OldFun(_module, _pid, _free_vars, _index, _uniq) => {
            lemma_roundtrip_oldfun(s, i, t, refs);
        },
        TermV::NewFun(_module, _arity, _pid, _free_vars, _index, _uniq, _oi, _ou) => {
            lemma_roundtrip_newfun(s, i, t, refs);
        },
        TermV::Port(node, id, creation) => {
            lemma_roundtrip_port(s, i, node, id, creation, refs);
        },
        TermV::Pid(pid) => {
            lemma_pid_payload(s, i, pid, refs);
            assert(s[i] == NEW_PID_EXT) by {
                assert(s.subrange(i, i + e.len())[0] == e[0]);
            }
        },
        TermV::Tuple(_elements) => {
            lemma_roundtrip_tuple(s, i, t, refs);
        },
        TermV::MapTerm(_pairs) => {
            lemma_roundtrip_map(s, i, t, refs);
        },
        TermV::Nil => {
            assert(s[i] == NIL_EXT) by {
                assert(s.subrange(i, i + 1)[0] == NIL_EXT);
            }
        },
        TermV::List(elements, tail) => {
            if is_byte_list(elements, *tail) {
                lemma_roundtrip_byte_list(s, i, elements, refs);
            } else {
                lemma_roundtrip_list(s, i, t, refs);
            }
        },
        TermV::Bitstring(data, bits) => {
            lemma_roundtrip_bitstring(s, i, data, bits, refs);
        },
        TermV::Dist(_, _) => {
            assert(false);
        },
    }
}

/// Reading back a sequence of canonically encoded terms yields them all.
pub proof fn lemma_roundtrip_terms(s: Seq<u8>, i: int, ts: Seq<TermV>, refs: Seq<Seq<u8>>)
    requires
        wf_terms(ts),
        0 <= i,
        i + enc_terms(ts).len() <= s.len(),
        s.subrange(i, i + enc_terms(ts).len()) == enc_terms(ts),
    ensures
        dec_terms(s, i, ts.len() as int, refs) == Ok::<(Seq<TermV>, int), DecodeError>(
            (ts, i + enc_terms(ts).len()),
        ),
    decreases ts, 3int,
{
    if ts.len() == 0 {
        assert(dec_terms(s, i, 0, refs) == Ok::<(Seq<TermV>, int), DecodeError>(
            (Seq::<TermV>::empty(), i),
        ));
        assert(ts =~= Seq::<TermV>::empty());
    } else {
        let e0 = enc_termv(ts[0]);
        let rest = enc_terms(ts.drop_first());
        assert(enc_terms(ts) == e0 + rest);
        lemma_split(s, i, e0, rest);
        lemma_enc_nonempty(ts[0]);
        lemma_roundtrip_term(s, i, ts[0], refs);
        let j = i + e0.len();
        lemma_roundtrip_terms(s, j, ts.drop_first(), refs);
        assert(seq![ts[0]] + ts.drop_first() =~= ts);
    }
}

/// Reading back a sequence of canonically encoded pairs yields them all.
pub proof fn lemma_roundtrip_pairs(s: Seq<u8>, i: int, ps: Seq<(TermV, TermV)>, refs: Seq<Seq<u8>>)
    requires
        wf_pairs(ps),
        0 <= i,
        i + enc_pairs(ps).len() <= s.len(),
        s.subrange(i, i + enc_pairs(ps).len()) == enc_pairs(ps),
    ensures
        dec_pairs(s, i, ps.len() as int, refs) == Ok::<(Seq<(TermV, TermV)>, int), DecodeError>(
            (ps, i + enc_pairs(ps).len()),
        ),
    decreases ps, 3int,
{
    if ps.len() == 0 {
        assert(dec_pairs(s, i, 0, refs) == Ok::<(Seq<(TermV, TermV)>, int), DecodeError>(
            (Seq::<(TermV, TermV)>::empty(), i),
        ));
        assert(ps =~= Seq::<(TermV, TermV)>::empty());
    } else {
        let ke = enc_termv(ps[0].0);
        let ve = enc_termv(ps[0].1);
        let rest = enc_pairs(ps.drop_first());
        assert(enc_pairs(ps) == (ke + ve) + rest);
        lemma_split(s, i, ke + ve, rest);
        lemma_split(s, i, ke, ve);
        lemma_enc_nonempty(ps[0].0);
        lemma_enc_nonempty(ps[0].1);
        assert(decreases_to!(ps => ps[0]));
        assert(decreases_to!(ps[0] => ps[0].0));
        assert(decreases_to!(ps[0] => ps[0].1));
        lemma_roundtrip_term(s, i, ps[0].0, refs);
        let j1 = i + ke.len();
        lemma_roundtrip_term(s, j1, ps[0].1, refs);
        let j2 = j1 + ve.len();
        lemma_roundtrip_pairs(s, j2, ps.drop_first(), refs);
        assert(seq![ps[0]] + ps.drop_first() =~= ps);
    }
}

/// Every canonical encoding is at least one byte: the tag.
proof fn lemma_enc_nonempty(t: TermV)
    ensures
        !(t matches TermV::Dist(_, _)) ==> enc_termv(t).len() >= 1,
{
}

/// Reading back an encoded big integer yields it.
#[verifier::spinoff_prover]
proof fn lemma_roundtrip_bignum(s: Seq<u8>, i: int, sign: Sign, mag: Seq<u8>, refs: Seq<Seq<u8>>)
    requires
        wf_termv(TermV::Bignum(sign, mag)),
        0 <= i,
        i + enc_termv(TermV::Bignum(sign, mag)).len() <= s.len(),
        s.subrange(i, i + enc_termv(TermV::Bignum(sign, mag)).len()) == enc_termv(
            TermV::Bignum(sign, mag),
        ),
    ensures
        dec_term(s, i, refs) == Ok::<(TermV, int), DecodeError>(
            (TermV::Bignum(sign, mag), i + enc_termv(TermV::Bignum(sign, mag)).len()),
        ),
{
    let e = enc_termv(TermV::Bignum(sign, mag));
    lemma_strip_noop(mag);
    if mag.len() < 256 {
        let hd = seq![SMALL_BIG_EXT, mag.len() as u8, sign_byte(sign)];
        assert(e == hd + mag);
        lemma_split(s, i, hd, mag);
        assert(s[i] == SMALL_BIG_EXT && s[i + 1] == mag.len() as u8 && s[i + 2] == sign_byte(
            sign,
        )) by {
            assert(s.subrange(i, i + 3)[0] == hd[0]);
            assert(s.subrange(i, i + 3)[1] == hd[1]);
            assert(s.subrange(i, i + 3)[2] == hd[2]);
        }
    } else {
        let hd = (seq![LARGE_BIG_EXT] + be32(mag.len() as u32)) + seq![sign_byte(sign)];
        assert(e == hd + mag);
        lemma_split(s, i, hd, mag);
        lemma_split(s, i, seq![LARGE_BIG_EXT] + be32(mag.len() as u32), seq![sign_byte(sign)]);
        lemma_split(s, i, seq![LARGE_BIG_EXT], be32(mag.len() as u32));
        lemma_read_u8(s, i, LARGE_BIG_EXT);
        lemma_read_be32(s, i + 1, mag.len() as u32);
        lemma_read_u8(s, i + 5, sign_byte(sign));
    }
}

/// Reading back an encoded reference yields it.
#[verifier::spinoff_prover]
proof fn lemma_roundtrip_reference(
    s: Seq<u8>,
    i: int,
    node: Seq<u8>,
    id: Seq<u32>,
    creation: u32,
    refs: Seq<Seq<u8>>,
)
    requires
        wf_termv(TermV::Reference(node, id, creation)),
        0 <= i,
        i + enc_termv(TermV::Reference(node, id, creation)).len() <= s.len(),
        s.subrange(i, i + enc_termv(TermV::Reference(node, id, creation)).len()) == enc_termv(
            TermV::Reference(node, id, creation),
        ),
    ensures
        dec_term(s, i, refs) == Ok::<(TermV, int), DecodeError>(
            (
                TermV::Reference(node, id, creation),
                i + enc_termv(TermV::Reference(node, id, creation)).len(),
            ),
        ),
{
    let a = enc_atom(node);
    let e = enc_termv(TermV::Reference(node, id, creation));
    crate::enc::lemma_words_len(id);
    assert(e == (((seq![NEWER_REFERENCE_EXT] + be16(id.len() as u16)) + a) + be32(creation))
        + be32_words(id));
    lemma_split(s, i, ((seq![NEWER_REFERENCE_EXT] + be16(id.len() as u16)) + a) + be32(creation),
        be32_words(id));
    lemma_split(s, i, (seq![NEWER_REFERENCE_EXT] + be16(id.len() as u16)) + a, be32(creation));
    lemma_split(s, i, seq![NEWER_REFERENCE_EXT] + be16(id.len() as u16), a);
    lemma_split(s, i, seq![NEWER_REFERENCE_EXT], be16(id.len() as u16));
    lemma_read_u8(s, i, NEWER_REFERENCE_EXT);
    lemma_read_be16(s, i + 1, id.len() as u16);
    lemma_atom_payload(s, i + 3, node, refs);
    let j = i + 3 + a.len();
    lemma_read_be32(s, j, creation);
    lemma_words_payload(s, j + 4, id);
}

/// Reading back a byte-string list yields it.
#[verifier::spinoff_prover]
proof fn lemma_roundtrip_byte_list(s: Seq<u8>, i: int, elements: Seq<TermV>, refs: Seq<Seq<u8>>)
    requires
        is_byte_list(elements, TermV::Nil),
        wf_terms(elements),
        0 <= i,
        i + 3 + elements.len() <= s.len(),
        s.subrange(i, i + 3 + elements.len()) == seq![STRING_EXT] + be16(elements.len() as u16)
            + byte_list_bytes(elements),
    ensures
        dec_term(s, i, refs) == Ok::<(TermV, int), DecodeError>(
            (TermV::List(elements, Box::new(TermV::Nil)), i + 3 + elements.len()),
        ),
{
    let hd = seq![STRING_EXT] + be16(elements.len() as u16);
    let body = byte_list_bytes(elements);
    assert(s.subrange(i, i + 3 + elements.len()) == hd + body);
    lemma_split(s, i, hd, body);
    lemma_split(s, i, seq![STRING_EXT], be16(elements.len() as u16));
    lemma_read_u8(s, i, STRING_EXT);
    lemma_read_be16(s, i + 1, elements.len() as u16);
    let got = Seq::new(elements.len(), |k: int| TermV::FixInteger(s[i + 3 + k] as int));
    assert forall|k: int| 0 <= k < elements.len() implies got[k] == elements[k] by {
        assert(s.subrange(i + 3, i + 3 + elements.len())[k] == body[k]);
        assert(elements[k] matches TermV::FixInteger(v) && 0 <= v < 256);
    }
    assert(got =~= elements);
}

/// Reading back an encoded bitstring yields it, the partial last byte
/// restored to its right-aligned form.
#[verifier::spinoff_prover]
proof fn lemma_roundtrip_bitstring(s: Seq<u8>, i: int, data: Seq<u8>, bits: u8, refs: Seq<Seq<u8>>)
    requires
        wf_termv(TermV::Bitstring(data, bits)),
        0 <= i,
        i + enc_termv(TermV::Bitstring(data, bits)).len() <= s.len(),
        s.subrange(i, i + enc_termv(TermV::Bitstring(data, bits)).len()) == enc_termv(
            TermV::Bitstring(data, bits),
        ),
    ensures
        dec_term(s, i, refs) == Ok::<(TermV, int), DecodeError>(
            (TermV::Bitstring(data, bits), i + enc_termv(TermV::Bitstring(data, bits)).len()),
        ),
{
    let e = enc_termv(TermV::Bitstring(data, bits));
    if bits == 0 {
        let hd = seq![BINARY_EXT] + be32(data.len() as u32);
        assert(e == hd + data);
        lemma_split(s, i, hd, data);
        lemma_split(s, i, seq![BINARY_EXT], be32(data.len() as u32));
        lemma_read_u8(s, i, BINARY_EXT);
        lemma_read_be32(s, i + 1, data.len() as u32);
    } else {
        let wire_last = (data.last() << ((8 - bits) as u8)) as u8;
        let body = data.drop_last() + seq![wire_last];
        let hd = (seq![BIT_BINARY_EXT] + be32(data.len() as u32)) + seq![bits];
        assert(e == hd + body);
        lemma_split(s, i, hd, body);
        lemma_split(s, i, seq![BIT_BINARY_EXT] + be32(data.len() as u32), seq![bits]);
        lemma_split(s, i, seq![BIT_BINARY_EXT], be32(data.len() as u32));
        lemma_read_u8(s, i, BIT_BINARY_EXT);
        lemma_read_be32(s, i + 1, data.len() as u32);
        lemma_read_u8(s, i + 5, bits);
        let wire = s.subrange(i + 6, i + 6 + data.len());
        assert(wire == body);
        lemma_partial_byte_roundtrip(data.last(), bits);
        assert(wire.last() == wire_last) by {
            assert(body[data.len() - 1] == wire_last);
        }
        let norm = wire.update(data.len() - 1, (wire.last() >> ((8 - bits) as u8)) as u8);
        assert forall|k: int| 0 <= k < data.len() implies norm[k] == data[k] by {
            if k < data.len() - 1 {
                assert(body[k] == data.drop_last()[k]);
            }
        }
        assert(norm =~= data);
        assert(bits % 8 == bits);
    }
}


/// Reading back an encoded external fun yields it.
#[verifier::spinoff_prover]
proof fn lemma_roundtrip_export(
    s: Seq<u8>,
    i: int,
    module: Seq<u8>,
    function: Seq<u8>,
    arity: u8,
    refs: Seq<Seq<u8>>,
)
    requires
        wf_termv(TermV::ExternalFun(module, function, arity)),
        0 <= i,
        i + enc_termv(TermV::ExternalFun(module, function, arity)).len() <= s.len(),
        s.subrange(i, i + enc_termv(TermV::ExternalFun(module, function, arity)).len())
            == enc_termv(TermV::ExternalFun(module, function, arity)),
    ensures
        dec_term(s, i, refs) == Ok::<(TermV, int), DecodeError>(
            (
                TermV::ExternalFun(module, function, arity),
                i + enc_termv(TermV::ExternalFun(module, function, arity)).len(),
            ),
        ),
{
    let e = enc_termv(TermV::ExternalFun(module, function, arity));
    let p = i + 1;
    let a1 = enc_atom(module);
    let a2 = enc_atom(function);
    assert(e == ((seq![EXPORT_EXT] + a1) + a2) + seq![SMALL_INTEGER_EXT, arity]);
    lemma_split(s, i, (seq![EXPORT_EXT] + a1) + a2, seq![SMALL_INTEGER_EXT, arity]);
    lemma_split(s, i, seq![EXPORT_EXT] + a1, a2);
    lemma_split(s, i, seq![EXPORT_EXT], a1);
    lemma_read_u8(s, i, EXPORT_EXT);
    lemma_atom_payload(s, p, module, refs);
    let j1 = p + a1.len();
    lemma_atom_payload(s, j1, function, refs);
    let j2 = j1 + a2.len();
    assert(s[j2] == SMALL_INTEGER_EXT && s[j2 + 1] == arity) by {
        assert(s.subrange(j2, j2 + 2) == seq![SMALL_INTEGER_EXT, arity]);
        assert(s.subrange(j2, j2 + 2)[0] == SMALL_INTEGER_EXT);
        assert(s.subrange(j2, j2 + 2)[1] == arity);
    }
    assert(dec_internal_u8(s, j2) == Ok::<(u8, int), DecodeError>((arity, j2 + 2)));
}

/// Reading back an encoded port yields it.
#[verifier::spinoff_prover]
proof fn lemma_roundtrip_port(
    s: Seq<u8>,
    i: int,
    node: Seq<u8>,
    id: u64,
    creation: u32,
    refs: Seq<Seq<u8>>,
)
    requires
        wf_termv(TermV::Port(node, id, creation)),
        0 <= i,
        i + enc_termv(TermV::Port(node, id, creation)).len() <= s.len(),
        s.subrange(i, i + enc_termv(TermV::Port(node, id, creation)).len()) == enc_termv(
            TermV::Port(node, id, creation),
        ),
    ensures
        dec_term(s, i, refs) == Ok::<(TermV, int), DecodeError>(
            (TermV::Port(node, id, creation), i + enc_termv(TermV::Port(node, id, creation)).len()),
        ),
{
    let e = enc_termv(TermV::Port(node, id, creation));
    let p = i + 1;
    let a = enc_atom(node);
    assert(e == ((seq![V4_PORT_EXT] + a) + be64(id)) + be32(creation));
    lemma_split(s, i, (seq![V4_PORT_EXT] + a) + be64(id), be32(creation));
    lemma_split(s, i, seq![V4_PORT_EXT] + a, be64(id));
    lemma_split(s, i, seq![V4_PORT_EXT], a);
    lemma_read_u8(s, i, V4_PORT_EXT);
    lemma_atom_payload(s, p, node, refs);
    let j = p + a.len();
    lemma_read_be64(s, j, id);
    lemma_read_be32(s, j + 8, creation);
}

/// Reading back an encoded tuple yields it.
#[verifier::spinoff_prover]
proof fn lemma_roundtrip_tuple(s: Seq<u8>, i: int, t: TermV, refs: Seq<Seq<u8>>)
    requires
        t matches TermV::Tuple(_),
        wf_termv(t),
        0 <= i,
        i + enc_termv(t).len() <= s.len(),
        s.subrange(i, i + enc_termv(t).len()) == enc_termv(t),
    ensures
        dec_term(s, i, refs) == Ok::<(TermV, int), DecodeError>((t, i + enc_termv(t).len())),
    decreases t, 1int,
{
    let e = enc_termv(t);
    let p = i + 1;
    match t {
        TermV::Tuple(elements) => {
            if elements.len() < 256 {
                let hd = seq![SMALL_TUPLE_EXT, elements.len() as u8];
                assert(e == hd + enc_terms(elements));
                lemma_split(s, i, hd, enc_terms(elements));
                assert(s[i] == SMALL_TUPLE_EXT && s[i + 1] == elements.len() as u8) by {
                    assert(s.subrange(i, i + 2)[0] == hd[0]);
                    assert(s.subrange(i, i + 2)[1] == hd[1]);
                }
                lemma_roundtrip_terms(s, i + 2, elements, refs);
            } else {
                let hd = seq![LARGE_TUPLE_EXT] + be32(elements.len() as u32);
                assert(e == hd + enc_terms(elements));
                lemma_split(s, i, hd, enc_terms(elements));
                lemma_split(s, i, seq![LARGE_TUPLE_EXT], be32(elements.len() as u32));
                lemma_read_u8(s, i, LARGE_TUPLE_EXT);
                lemma_read_be32(s, p, elements.len() as u32);
                lemma_roundtrip_terms(s, i + 5, elements, refs);
            }
        },
        _ => {},
    }
}

/// Reading back an encoded map yields it.
#[verifier::spinoff_prover]
proof fn lemma_roundtrip_map(s: Seq<u8>, i: int, t: TermV, refs: Seq<Seq<u8>>)
    requires
        t matches TermV::MapTerm(_),
        wf_termv(t),
        0 <= i,
        i + enc_termv(t).len() <= s.len(),
        s.subrange(i, i + enc_termv(t).len()) == enc_termv(t),
    ensures
        dec_term(s, i, refs) == Ok::<(TermV, int), DecodeError>((t, i + enc_termv(t).len())),
    decreases t, 1int,
{
    let e = enc_termv(t);
    let p = i + 1;
    match t {
        TermV::MapTerm(pairs) => {
            let hd = seq![MAP_EXT] + be32(pairs.len() as u32);
            assert(e == hd + enc_pairs(pairs));
            lemma_split(s, i, hd, enc_pairs(pairs));
            lemma_split(s, i, seq![MAP_EXT], be32(pairs.len() as u32));
            lemma_read_u8(s, i, MAP_EXT);
            lemma_read_be32(s, p, pairs.len() as u32);
            lemma_roundtrip_pairs(s, i + 5, pairs, refs);
        },
        _ => {},
    }
}

/// Reading back an encoded counted list yields it.
#[verifier::spinoff_prover]
proof fn lemma_roundtrip_list(s: Seq<u8>, i: int, t: TermV, refs: Seq<Seq<u8>>)
    requires
        t matches TermV::List(elements, tail) && !is_byte_list(elements, *tail),
        wf_termv(t),
        0 <= i,
        i + enc_termv(t).len() <= s.len(),
        s.subrange(i, i + enc_termv(t).len()) == enc_termv(t),
    ensures
        dec_term(s, i, refs) == Ok::<(TermV, int), DecodeError>((t, i + enc_termv(t).len())),
    decreases t, 1int,
{
    let e = enc_termv(t);
    let p = i + 1;
    match t {
        TermV::List(elements, tail) => {
            let hd = seq![LIST_EXT] + be32(elements.len() as u32);
            let fe = enc_terms(elements);
            let te = enc_termv(*tail);
            assert(e == (hd + fe) + te);
            lemma_split(s, i, hd + fe, te);
            lemma_split(s, i, hd, fe);
            lemma_split(s, i, seq![LIST_EXT], be32(elements.len() as u32));
            lemma_read_u8(s, i, LIST_EXT);
            lemma_read_be32(s, p, elements.len() as u32);
            lemma_roundtrip_terms(s, i + 5, elements, refs);
            let j = i + 5 + fe.len();
            lemma_roundtrip_term(s, j, *tail, refs);
        },
        _ => {},
    }
}

/// Reading back an encoded old-shape fun yields it.
#[verifier::spinoff_prover]
proof fn lemma_roundtrip_oldfun(s: Seq<u8>, i: int, t: TermV, refs: Seq<Seq<u8>>)
    requires
        t matches TermV::OldFun(..),
        wf_termv(t),
        0 <= i,
        i + enc_termv(t).len() <= s.len(),
        s.subrange(i, i + enc_termv(t).len()) == enc_termv(t),
    ensures
        dec_term(s, i, refs) == Ok::<(TermV, int), DecodeError>((t, i + enc_termv(t).len())),
    decreases t, 1int,
{
    let e = enc_termv(t);
    let p = i + 1;
    match t {
        TermV::OldFun(module, pid, free_vars, index, uniq) => {
            let nf = be32(free_vars.len() as u32);
            let pe = enc_pid(pid);
            let me = enc_atom(module);
            let ie = enc_fixint(index as int);
            let ue = enc_fixint(uniq as int);
            let fe = enc_terms(free_vars);
            assert(e == (((((seq![FUN_EXT] + nf) + pe) + me) + ie) + ue) + fe);
            lemma_split(s, i, ((((seq![FUN_EXT] + nf) + pe) + me) + ie) + ue, fe);
            lemma_split(s, i, (((seq![FUN_EXT] + nf) + pe) + me) + ie, ue);
            lemma_split(s, i, ((seq![FUN_EXT] + nf) + pe) + me, ie);
            lemma_split(s, i, (seq![FUN_EXT] + nf) + pe, me);
            lemma_split(s, i, seq![FUN_EXT] + nf, pe);
            lemma_split(s, i, seq![FUN_EXT], nf);
            lemma_read_u8(s, i, FUN_EXT);
            lemma_read_be32(s, p, free_vars.len() as u32);
            lemma_pid_payload(s, p + 4, pid, refs);
            let j1 = p + 4 + pe.len();
            lemma_atom_payload(s, j1, module, refs);
            let j2 = j1 + me.len();
            lemma_fixint_payload(s, j2, index);
            let j3 = j2 + ie.len();
            lemma_fixint_payload(s, j3, uniq);
            let j4 = j3 + ue.len();
            lemma_roundtrip_terms(s, j4, free_vars, refs);
        },
        _ => {},
    }
}

/// Reading back an encoded new-shape fun yields it.
#[verifier::spinoff_prover]
#[verifier::rlimit(100)]
proof fn lemma_roundtrip_newfun(s: Seq<u8>, i: int, t: TermV, refs: Seq<Seq<u8>>)
    requires
        t matches TermV::NewFun(..),
        wf_termv(t),
        0 <= i,
        i + enc_termv(t).len() <= s.len(),
        s.subrange(i, i + enc_termv(t).len()) == enc_termv(t),
    ensures
        dec_term(s, i, refs) == Ok::<(TermV, int), DecodeError>((t, i + enc_termv(t).len())),
    decreases t, 1int,
{
    let e = enc_termv(t);
    let p = i + 1;
    match t {
        TermV::NewFun(module, arity, pid, free_vars, index, uniq, old_index, old_uniq) => {
            let me = enc_atom(module);
            let oie = enc_fixint(old_index as int);
            let oue = enc_fixint(old_uniq as int);
            let pe = enc_pid(pid);
            let fe = enc_terms(free_vars);
            let tail = seq![arity] + uniq + be32(index) + be32(free_vars.len() as u32) + me + oie
                + oue + pe + fe;
            assert(e == (seq![NEW_FUN_EXT] + be32(size_field(tail.len()))) + tail);
            lemma_split(s, i, seq![NEW_FUN_EXT] + be32(size_field(tail.len())), tail);
            lemma_split(s, i, seq![NEW_FUN_EXT], be32(size_field(tail.len())));
            lemma_read_u8(s, i, NEW_FUN_EXT);
            let q = p + 4;
            assert(tail == ((((((((seq![arity] + uniq) + be32(index)) + be32(
                free_vars.len() as u32,
            )) + me) + oie) + oue) + pe) + fe));
            lemma_split(s, q, (((((((seq![arity] + uniq) + be32(index)) + be32(
                free_vars.len() as u32,
            )) + me) + oie) + oue) + pe), fe);
            lemma_split(s, q, ((((((seq![arity] + uniq) + be32(index)) + be32(
                free_vars.len() as u32,
            )) + me) + oie) + oue), pe);
            lemma_split(s, q, (((((seq![arity] + uniq) + be32(index)) + be32(
                free_vars.len() as u32,
            )) + me) + oie), oue);
            lemma_split(s, q, ((((seq![arity] + uniq) + be32(index)) + be32(
                free_vars.len() as u32,
            )) + me), oie);
            lemma_split(s, q, (((seq![arity] + uniq) + be32(index)) + be32(
                free_vars.len() as u32,
            )), me);
            lemma_split(s, q, (seq![arity] + uniq) + be32(index), be32(free_vars.len() as u32));
            lemma_split(s, q, seq![arity] + uniq, be32(index));
            lemma_split(s, q, seq![arity], uniq);
            lemma_read_u8(s, q, arity);
            assert(s.subrange(q + 1, q + 17) == uniq);
            lemma_read_be32(s, q + 17, index);
            lemma_read_be32(s, q + 21, free_vars.len() as u32);
            lemma_atom_payload(s, q + 25, module, refs);
            let j1 = q + 25 + me.len();
            lemma_fixint_payload(s, j1, old_index);
            let j2 = j1 + oie.len();
            lemma_fixint_payload(s, j2, old_uniq);
            let j3 = j2 + oue.len();
            lemma_pid_payload(s, j3, pid, refs);
            let j4 = j3 + pe.len();
            lemma_roundtrip_terms(s, j4, free_vars, refs);
        },
        _ => {},
    }
}

/// The round trip, whole: the canonical external encoding of every
/// well-formed term reads back as exactly that term, with every byte
/// consumed, whatever the per-message atom-cache-ref table holds.
pub proof fn lemma_encode_decode_roundtrip(t: TermV, refs: Seq<Seq<u8>>)
    requires
        wf_termv(t),
    ensures
        enc_external(t)[0] == VERSION_MAGIC,
        dec_term(enc_external(t), 1, refs) == Ok::<(TermV, int), DecodeError>(
            (t, enc_external(t).len() as int),
        ),
{
    let s = enc_external(t);
    assert(s.subrange(1, 1 + enc_termv(t).len() as int) =~= enc_termv(t));
    lemma_roundtrip_term(s, 1, t, refs);
}

/// The version magic: every external encoding begins with it.
pub proof fn lemma_version_magic(t: TermV)
    ensures
        enc_external(t)[0] == VERSION_MAGIC,
{
}

/// Float rejection: the 64-bit float payload decodes to a term exactly when
/// its bit pattern is finite, and is refused as a non-finite float
/// otherwise.
pub proof fn lemma_float_rejection(s: Seq<u8>, i: int, refs: Seq<Seq<u8>>)
    requires
        has(s, i, 8),
    ensures
        is_finite_bits(crate::dec::rd_u64(s, i)) ==> dec_with_tag(s, i, NEW_FLOAT_EXT, refs)
            == Ok::<(TermV, int), DecodeError>((TermV::Float(crate::dec::rd_u64(s, i)), i + 8)),
        !is_finite_bits(crate::dec::rd_u64(s, i)) ==> dec_with_tag(s, i, NEW_FLOAT_EXT, refs)
            == Err::<(TermV, int), DecodeError>(DecodeError::NonFiniteFloat),
{
}

/// Bit-binary canonical form: decoding a partial-byte binary stores its
/// last byte shifted right by the unused bit count, so the partial bits sit
/// right-aligned whatever alignment the wire used.
pub proof fn lemma_bit_binary_canonical_form(s: Seq<u8>, i: int, refs: Seq<Seq<u8>>)
    requires
        has(s, i, 5),
        rd_u32(s, i) > 0,
        1 <= s[i + 4] <= 8,
        has(s, i + 5, rd_u32(s, i) as int),
    ensures
        ({
            let len = rd_u32(s, i) as int;
            let bits = s[i + 4];
            let got = dec_with_tag(s, i, BIT_BINARY_EXT, refs);
            got is Ok && (got->Ok_0.0 matches TermV::Bitstring(data, b) && b == bits % 8
                && data.len() == len && data.last() == s[i + 5 + len - 1] >> ((8 - bits) as u8))
        }),
{
    let len = rd_u32(s, i) as int;
    assert(s.subrange(i + 5, i + 5 + len).last() == s[i + 5 + len - 1]);
}

} // verus!
