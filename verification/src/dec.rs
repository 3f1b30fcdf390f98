//! The wire format's reading side, as a mathematical function: what term and
//! what final position a byte sequence yields from a given position, or
//! which error, given the per-message atom-cache-ref names.
use vstd::prelude::*;
use vstd::utf8::valid_utf8;
use crate::enc::is_finite_bits;
use crate::errors::{DecodeError, ExpectedKind};
use crate::external::{
    ATOM_CACHE_REF, ATOM_EXT, ATOM_UTF8_EXT, BINARY_EXT, BIT_BINARY_EXT, EXPORT_EXT, FLOAT_EXT,
    FUN_EXT, INTEGER_EXT, LARGE_BIG_EXT, LARGE_TUPLE_EXT, LIST_EXT, MAP_EXT, NEWER_REFERENCE_EXT,
    NEW_FLOAT_EXT, NEW_FUN_EXT, NEW_PID_EXT, NEW_PORT_EXT, NEW_REFERENCE_EXT, NIL_EXT, PID_EXT,
    PORT_EXT, REFERENCE_EXT, SMALL_ATOM_EXT, SMALL_ATOM_UTF8_EXT, SMALL_BIG_EXT,
    SMALL_INTEGER_EXT, SMALL_TUPLE_EXT, STRING_EXT, V4_PORT_EXT,
};
use crate::term::{latin1_to_utf8_seq, Sign, TermV, TermVPid};
use crate::wire::{from_be16, from_be32, from_be64};

verus! {

/// What a zlib stream inflates to; `None` where the stream is not well
/// formed.
pub uninterp spec fn inflate_of(s: Seq<u8>) -> Option<Seq<u8>>;

/// Whether `n` bytes are available at position `i`.
pub open spec fn has(s: Seq<u8>, i: int, n: int) -> bool {
    0 <= i && i + n <= s.len()
}

/// The 16-bit big-endian value at a position.
pub open spec fn rd_u16(s: Seq<u8>, i: int) -> u16 {
    from_be16(s[i], s[i + 1])
}

/// The 32-bit big-endian value at a position.
pub open spec fn rd_u32(s: Seq<u8>, i: int) -> u32 {
    from_be32(s[i], s[i + 1], s[i + 2], s[i + 3])
}

/// The 64-bit big-endian value at a position.
pub open spec fn rd_u64(s: Seq<u8>, i: int) -> u64 {
    from_be64(s.subrange(i, i + 8))
}

/// The 32-bit big-endian signed value at a position.
pub open spec fn rd_i32(s: Seq<u8>, i: int) -> i32 {
    rd_u32(s, i) as i32
}

/// The `n` 32-bit big-endian words starting at a position.
pub open spec fn rd_u32_words(s: Seq<u8>, i: int, n: int) -> Seq<u32> {
    Seq::new(n as nat, |k: int| rd_u32(s, i + 4 * k))
}

/// The sequence with its trailing zero bytes removed.
pub open spec fn strip_trailing_zeros(b: Seq<u8>) -> Seq<u8>
    decreases b.len(),
{
    if b.len() > 0 && b.last() == 0 {
        strip_trailing_zeros(b.drop_last())
    } else {
        b
    }
}

/// An atom name read with a 16-bit length and Latin-1 text, transcoded to
/// its canonical UTF-8 form.
pub open spec fn dec_atom_ext(s: Seq<u8>, i: int) -> Result<(Seq<u8>, int), DecodeError> {
    if !(has(s, i, 2)) {
        Err(DecodeError::Io)
    } else {
        let len = rd_u16(s, i) as int;
        if !(has(s, i + 2, len)) {
            Err(DecodeError::Io)
        } else {
            let name = latin1_to_utf8_seq(s.subrange(i + 2, i + 2 + len));
            if valid_utf8(name) {
                Ok((name, i + 2 + len))
            } else {
                Err(DecodeError::Io)
            }
        }
    }
}

/// An atom name read with an 8-bit length and Latin-1 text.
pub open spec fn dec_small_atom_ext(s: Seq<u8>, i: int) -> Result<(Seq<u8>, int), DecodeError> {
    if !(has(s, i, 1)) {
        Err(DecodeError::Io)
    } else {
        let len = s[i] as int;
        if !(has(s, i + 1, len)) {
            Err(DecodeError::Io)
        } else {
            let name = latin1_to_utf8_seq(s.subrange(i + 1, i + 1 + len));
            if valid_utf8(name) {
                Ok((name, i + 1 + len))
            } else {
                Err(DecodeError::Io)
            }
        }
    }
}

/// An atom name read with a 16-bit length and UTF-8 text.
pub open spec fn dec_atom_utf8_ext(s: Seq<u8>, i: int) -> Result<(Seq<u8>, int), DecodeError> {
    if !(has(s, i, 2)) {
        Err(DecodeError::Io)
    } else {
        let len = rd_u16(s, i) as int;
        if !(has(s, i + 2, len)) {
            Err(DecodeError::Io)
        } else {
            let name = s.subrange(i + 2, i + 2 + len);
            if valid_utf8(name) {
                Ok((name, i + 2 + len))
            } else {
                Err(DecodeError::Io)
            }
        }
    }
}

/// An atom name read with an 8-bit length and UTF-8 text.
pub open spec fn dec_small_atom_utf8_ext(s: Seq<u8>, i: int) -> Result<
    (Seq<u8>, int),
    DecodeError,
> {
    if !(has(s, i, 1)) {
        Err(DecodeError::Io)
    } else {
        let len = s[i] as int;
        if !(has(s, i + 1, len)) {
            Err(DecodeError::Io)
        } else {
            let name = s.subrange(i + 1, i + 1 + len);
            if valid_utf8(name) {
                Ok((name, i + 1 + len))
            } else {
                Err(DecodeError::Io)
            }
        }
    }
}

/// An atom name resolved through the per-message atom-cache-ref table by its
/// one-byte position.
pub open spec fn dec_atom_cache_ref(s: Seq<u8>, i: int, refs: Seq<Seq<u8>>) -> Result<
    (Seq<u8>, int),
    DecodeError,
> {
    if !(has(s, i, 1)) {
        Err(DecodeError::Io)
    } else {
        let idx = s[i] as int;
        if idx < refs.len() {
            Ok((refs[idx], i + 1))
        } else {
            Err(DecodeError::Io)
        }
    }
}

/// An inner atom: one tag byte from the atom subset, then its payload.
pub open spec fn dec_internal_atom(s: Seq<u8>, i: int, refs: Seq<Seq<u8>>) -> Result<
    (Seq<u8>, int),
    DecodeError,
> {
    if !(has(s, i, 1)) {
        Err(DecodeError::Io)
    } else if s[i] == ATOM_EXT {
        dec_atom_ext(s, i + 1)
    } else if s[i] == SMALL_ATOM_EXT {
        dec_small_atom_ext(s, i + 1)
    } else if s[i] == ATOM_UTF8_EXT {
        dec_atom_utf8_ext(s, i + 1)
    } else if s[i] == SMALL_ATOM_UTF8_EXT {
        dec_small_atom_utf8_ext(s, i + 1)
    } else if s[i] == ATOM_CACHE_REF {
        dec_atom_cache_ref(s, i + 1, refs)
    } else {
        Err(DecodeError::UnexpectedType { expected: ExpectedKind::Atom })
    }
}

/// An inner 32-bit integer: one tag byte from the integer subset, then its
/// payload.
pub open spec fn dec_internal_i32(s: Seq<u8>, i: int) -> Result<(i32, int), DecodeError> {
    if !(has(s, i, 1)) {
        Err(DecodeError::Io)
    } else if s[i] == SMALL_INTEGER_EXT {
        if has(s, i + 1, 1) {
            Ok((s[i + 1] as i32, i + 2))
        } else {
            Err(DecodeError::Io)
        }
    } else if s[i] == INTEGER_EXT {
        if has(s, i + 1, 4) {
            Ok((rd_i32(s, i + 1), i + 5))
        } else {
            Err(DecodeError::Io)
        }
    } else {
        Err(DecodeError::UnexpectedType { expected: ExpectedKind::Integer })
    }
}

/// An inner byte-sized integer: the small-integer tag, then one byte.
pub open spec fn dec_internal_u8(s: Seq<u8>, i: int) -> Result<(u8, int), DecodeError> {
    if !(has(s, i, 1)) {
        Err(DecodeError::Io)
    } else if s[i] == SMALL_INTEGER_EXT {
        if has(s, i + 1, 1) {
            Ok((s[i + 1], i + 2))
        } else {
            Err(DecodeError::Io)
        }
    } else {
        Err(DecodeError::UnexpectedType { expected: ExpectedKind::SmallInteger })
    }
}

/// An inner pid: one tag byte from the pid subset, then its payload.
pub open spec fn dec_internal_pid(s: Seq<u8>, i: int, refs: Seq<Seq<u8>>) -> Result<
    (TermVPid, int),
    DecodeError,
> {
    if !(has(s, i, 1)) {
        Err(DecodeError::Io)
    } else if s[i] == PID_EXT {
        match dec_internal_atom(s, i + 1, refs) {
            Ok((node, j)) => if has(s, j, 9) {
                Ok(
                    (
                        TermVPid {
                            node,
                            id: rd_u32(s, j),
                            serial: rd_u32(s, j + 4),
                            creation: s[j + 8] as u32,
                        },
                        j + 9,
                    ),
                )
            } else {
                Err(DecodeError::Io)
            },
            Err(e) => Err(e),
        }
    } else if s[i] == NEW_PID_EXT {
        match dec_internal_atom(s, i + 1, refs) {
            Ok((node, j)) => if has(s, j, 12) {
                Ok(
                    (
                        TermVPid {
                            node,
                            id: rd_u32(s, j),
                            serial: rd_u32(s, j + 4),
                            creation: rd_u32(s, j + 8),
                        },
                        j + 12,
                    ),
                )
            } else {
                Err(DecodeError::Io)
            },
            Err(e) => Err(e),
        }
    } else {
        Err(DecodeError::UnexpectedType { expected: ExpectedKind::Pid })
    }
}

/// One term: its tag byte, then the tag's payload.
pub open spec fn dec_term(s: Seq<u8>, i: int, refs: Seq<Seq<u8>>) -> Result<
    (TermV, int),
    DecodeError,
>
    decreases s.len() - i, 2int, 0int,
{
    if !(has(s, i, 1)) {
        Err(DecodeError::Io)
    } else {
        dec_with_tag(s, i + 1, s[i], refs)
    }
}

/// The payload of one term, the tag byte already consumed.
pub open spec fn dec_with_tag(s: Seq<u8>, i: int, tag: u8, refs: Seq<Seq<u8>>) -> Result<
    (TermV, int),
    DecodeError,
>
    decreases s.len() - i, 1int, 0int,
{
    if tag == SMALL_INTEGER_EXT {
        if has(s, i, 1) {
            Ok((TermV::FixInteger(s[i] as int), i + 1))
        } else {
            Err(DecodeError::Io)
        }
    } else if tag == INTEGER_EXT {
        if has(s, i, 4) {
            Ok((TermV::FixInteger(rd_i32(s, i) as int), i + 4))
        } else {
            Err(DecodeError::Io)
        }
    } else if tag == FLOAT_EXT {
        // The decimal float form needs the host's float parser, which this
        // library's verified core cannot hold; the tag is recognized and its
        // payload refused.
        Err(DecodeError::Io)
    } else if tag == NEW_FLOAT_EXT {
        if has(s, i, 8) {
            let bits = rd_u64(s, i);
            if is_finite_bits(bits) {
                Ok((TermV::Float(bits), i + 8))
            } else {
                Err(DecodeError::NonFiniteFloat)
            }
        } else {
            Err(DecodeError::Io)
        }
    } else if tag == ATOM_EXT {
        match dec_atom_ext(s, i) {
            Ok((name, j)) => Ok((TermV::Atom(name), j)),
            Err(e) => Err(e),
        }
    } else if tag == SMALL_ATOM_EXT {
        match dec_small_atom_ext(s, i) {
            Ok((name, j)) => Ok((TermV::Atom(name), j)),
            Err(e) => Err(e),
        }
    } else if tag == ATOM_UTF8_EXT {
        match dec_atom_utf8_ext(s, i) {
            Ok((name, j)) => Ok((TermV::Atom(name), j)),
            Err(e) => Err(e),
        }
    } else if tag == SMALL_ATOM_UTF8_EXT {
        match dec_small_atom_utf8_ext(s, i) {
            Ok((name, j)) => Ok((TermV::Atom(name), j)),
            Err(e) => Err(e),
        }
    } else if tag == ATOM_CACHE_REF {
        match dec_atom_cache_ref(s, i, refs) {
            Ok((name, j)) => Ok((TermV::Atom(name), j)),
            Err(e) => Err(e),
        }
    } else if tag == REFERENCE_EXT {
        match dec_internal_atom(s, i, refs) {
            Ok((node, j)) => if has(s, j, 5) {
                Ok((TermV::Reference(node, seq![rd_u32(s, j)], s[j + 4] as u32), j + 5))
            } else {
                Err(DecodeError::Io)
            },
            Err(e) => Err(e),
        }
    } else if tag == NEW_REFERENCE_EXT {
        if !(has(s, i, 2)) {
            Err(DecodeError::Io)
        } else {
            let cnt = rd_u16(s, i) as int;
            match dec_internal_atom(s, i + 2, refs) {
                Ok((node, j)) => if has(s, j, 1 + 4 * cnt) {
                    Ok(
                        (
                            TermV::Reference(node, rd_u32_words(s, j + 1, cnt), s[j] as u32),
                            j + 1 + 4 * cnt,
                        ),
                    )
                } else {
                    Err(DecodeError::Io)
                },
                Err(e) => Err(e),
            }
        }
    } else if tag == NEWER_REFERENCE_EXT {
        if !(has(s, i, 2)) {
            Err(DecodeError::Io)
        } else {
            let cnt = rd_u16(s, i) as int;
            match dec_internal_atom(s, i + 2, refs) {
                Ok((node, j)) => if has(s, j, 4 + 4 * cnt) {
                    Ok(
                        (
                            TermV::Reference(node, rd_u32_words(s, j + 4, cnt), rd_u32(s, j)),
                            j + 4 + 4 * cnt,
                        ),
                    )
                } else {
                    Err(DecodeError::Io)
                },
                Err(e) => Err(e),
            }
        }
    } else if tag == PORT_EXT {
        match dec_internal_atom(s, i, refs) {
            Ok((node, j)) => if has(s, j, 5) {
                Ok((TermV::Port(node, rd_u32(s, j) as u64, s[j + 4] as u32), j + 5))
            } else {
                Err(DecodeError::Io)
            },
            Err(e) => Err(e),
        }
    } else if tag == NEW_PORT_EXT {
        match dec_internal_atom(s, i, refs) {
            Ok((node, j)) => if has(s, j, 8) {
                Ok((TermV::Port(node, rd_u32(s, j) as u64, rd_u32(s, j + 4)), j + 8))
            } else {
                Err(DecodeError::Io)
            },
            Err(e) => Err(e),
        }
    } else if tag == V4_PORT_EXT {
        match dec_internal_atom(s, i, refs) {
            Ok((node, j)) => if has(s, j, 12) {
                Ok((TermV::Port(node, rd_u64(s, j), rd_u32(s, j + 8)), j + 12))
            } else {
                Err(DecodeError::Io)
            },
            Err(e) => Err(e),
        }
    } else if tag == PID_EXT {
        match dec_internal_atom(s, i, refs) {
            Ok((node, j)) => if has(s, j, 9) {
                Ok(
                    (
                        TermV::Pid(
                            TermVPid {
                                node,
                                id: rd_u32(s, j),
                                serial: rd_u32(s, j + 4),
                                creation: s[j + 8] as u32,
                            },
                        ),
                        j + 9,
                    ),
                )
            } else {
                Err(DecodeError::Io)
            },
            Err(e) => Err(e),
        }
    } else if tag == NEW_PID_EXT {
        match dec_internal_atom(s, i, refs) {
            Ok((node, j)) => if has(s, j, 12) {
                Ok(
                    (
                        TermV::Pid(
                            TermVPid {
                                node,
                                id: rd_u32(s, j),
                                serial: rd_u32(s, j + 4),
                                creation: rd_u32(s, j + 8),
                            },
                        ),
                        j + 12,
                    ),
                )
            } else {
                Err(DecodeError::Io)
            },
            Err(e) => Err(e),
        }
    } else if tag == SMALL_TUPLE_EXT {
        if !(has(s, i, 1)) {
            Err(DecodeError::Io)
        } else {
            match dec_terms(s, i + 1, s[i] as int, refs) {
                Ok((elements, j)) => Ok((TermV::Tuple(elements), j)),
                Err(e) => Err(e),
            }
        }
    } else if tag == LARGE_TUPLE_EXT {
        if !(has(s, i, 4)) {
            Err(DecodeError::Io)
        } else {
            match dec_terms(s, i + 4, rd_u32(s, i) as int, refs) {
                Ok((elements, j)) => Ok((TermV::Tuple(elements), j)),
                Err(e) => Err(e),
            }
        }
    } else if tag == NIL_EXT {
        Ok((TermV::Nil, i))
    } else if tag == STRING_EXT {
        if !(has(s, i, 2)) {
            Err(DecodeError::Io)
        } else {
            let len = rd_u16(s, i) as int;
            if !(has(s, i + 2, len)) {
                Err(DecodeError::Io)
            } else {
                let elements = Seq::new(len as nat, |k: int| TermV::FixInteger(s[i + 2 + k] as int));
                Ok((TermV::List(elements, Box::new(TermV::Nil)), i + 2 + len))
            }
        }
    } else if tag == LIST_EXT {
        if !(has(s, i, 4)) {
            Err(DecodeError::Io)
        } else {
            let len = rd_u32(s, i) as int;
            match dec_terms(s, i + 4, len, refs) {
                Ok((elements, j)) => if i + 4 <= j <= s.len() {
                    match dec_term(s, j, refs) {
                        Ok((tail, j2)) => Ok((TermV::List(elements, Box::new(tail)), j2)),
                        Err(e) => Err(e),
                    }
                } else {
                    Err(DecodeError::Io)
                },
                Err(e) => Err(e),
            }
        }
    } else if tag == BINARY_EXT {
        if !(has(s, i, 4)) {
            Err(DecodeError::Io)
        } else {
            let len = rd_u32(s, i) as int;
            if !(has(s, i + 4, len)) {
                Err(DecodeError::Io)
            } else {
                Ok((TermV::Bitstring(s.subrange(i + 4, i + 4 + len), 0), i + 4 + len))
            }
        }
    } else if tag == BIT_BINARY_EXT {
        if !(has(s, i, 5)) {
            Err(DecodeError::Io)
        } else {
            let len = rd_u32(s, i) as int;
            let bits = s[i + 4];
            if !(has(s, i + 5, len)) {
                Err(DecodeError::Io)
            } else if len == 0 {
                if bits == 0 {
                    Ok((TermV::Bitstring(Seq::empty(), 0), i + 5))
                } else {
                    Err(DecodeError::OutOfRange { value: bits as u32, limit: 8 })
                }
            } else if 1 <= bits <= 8 {
                let data = s.subrange(i + 5, i + 5 + len);
                let norm = data.update(len - 1, data.last() >> ((8 - bits) as u8));
                Ok((TermV::Bitstring(norm, (bits % 8) as u8), i + 5 + len))
            } else {
                Err(DecodeError::OutOfRange { value: bits as u32, limit: 8 })
            }
        }
    } else if tag == SMALL_BIG_EXT {
        if !(has(s, i, 2)) {
            Err(DecodeError::Io)
        } else {
            let len = s[i] as int;
            let sgn = s[i + 1];
            if sgn != 0 && sgn != 1 {
                Err(DecodeError::OutOfRange { value: sgn as u32, limit: 2 })
            } else if !(has(s, i + 2, len)) {
                Err(DecodeError::Io)
            } else {
                let mag = strip_trailing_zeros(s.subrange(i + 2, i + 2 + len));
                let sign = if mag.len() == 0 || sgn == 0 {
                    Sign::Plus
                } else {
                    Sign::Minus
                };
                Ok((TermV::Bignum(sign, mag), i + 2 + len))
            }
        }
    } else if tag == LARGE_BIG_EXT {
        if !(has(s, i, 5)) {
            Err(DecodeError::Io)
        } else {
            let len = rd_u32(s, i) as int;
            let sgn = s[i + 4];
            if sgn != 0 && sgn != 1 {
                Err(DecodeError::OutOfRange { value: sgn as u32, limit: 2 })
            } else if !(has(s, i + 5, len)) {
                Err(DecodeError::Io)
            } else {
                let mag = strip_trailing_zeros(s.subrange(i + 5, i + 5 + len));
                let sign = if mag.len() == 0 || sgn == 0 {
                    Sign::Plus
                } else {
                    Sign::Minus
                };
                Ok((TermV::Bignum(sign, mag), i + 5 + len))
            }
        }
    } else if tag == EXPORT_EXT {
        match dec_internal_atom(s, i, refs) {
            Ok((module, j1)) => match dec_internal_atom(s, j1, refs) {
                Ok((function, j2)) => match dec_internal_u8(s, j2) {
                    Ok((arity, j3)) => Ok((TermV::ExternalFun(module, function, arity), j3)),
                    Err(e) => Err(e),
                },
                Err(e) => Err(e),
            },
            Err(e) => Err(e),
        }
    } else if tag == FUN_EXT {
        if !(has(s, i, 4)) {
            Err(DecodeError::Io)
        } else {
            let num_free = rd_u32(s, i) as int;
            match dec_internal_pid(s, i + 4, refs) {
                Ok((pid, j1)) => match dec_internal_atom(s, j1, refs) {
                    Ok((module, j2)) => match dec_internal_i32(s, j2) {
                        Ok((index, j3)) => match dec_internal_i32(s, j3) {
                            Ok((uniq, j4)) => if i < j4 <= s.len() {
                                match dec_terms(s, j4, num_free, refs) {
                                    Ok((free_vars, j5)) => Ok(
                                        (TermV::OldFun(module, pid, free_vars, index, uniq), j5),
                                    ),
                                    Err(e) => Err(e),
                                }
                            } else {
                                Err(DecodeError::Io)
                            },
                            Err(e) => Err(e),
                        },
                        Err(e) => Err(e),
                    },
                    Err(e) => Err(e),
                },
                Err(e) => Err(e),
            }
        }
    } else if tag == NEW_FUN_EXT {
        if !(has(s, i, 29)) {
            Err(DecodeError::Io)
        } else {
            let arity = s[i + 4];
            let uniq = s.subrange(i + 5, i + 21);
            let index = rd_u32(s, i + 21);
            let num_free = rd_u32(s, i + 25) as int;
            match dec_internal_atom(s, i + 29, refs) {
                Ok((module, j1)) => match dec_internal_i32(s, j1) {
                    Ok((old_index, j2)) => match dec_internal_i32(s, j2) {
                        Ok((old_uniq, j3)) => match dec_internal_pid(s, j3, refs) {
                            Ok((pid, j4)) => if i < j4 <= s.len() {
                                match dec_terms(s, j4, num_free, refs) {
                                    Ok((free_vars, j5)) => Ok(
                                        (
                                            TermV::NewFun(
                                                module,
                                                arity,
                                                pid,
                                                free_vars,
                                                index,
                                                uniq,
                                                old_index,
                                                old_uniq,
                                            ),
                                            j5,
                                        ),
                                    ),
                                    Err(e) => Err(e),
                                }
                            } else {
                                Err(DecodeError::Io)
                            },
                            Err(e) => Err(e),
                        },
                        Err(e) => Err(e),
                    },
                    Err(e) => Err(e),
                },
                Err(e) => Err(e),
            }
        }
    } else if tag == MAP_EXT {
        if !(has(s, i, 4)) {
            Err(DecodeError::Io)
        } else {
            match dec_pairs(s, i + 4, rd_u32(s, i) as int, refs) {
                Ok((pairs, j)) => Ok((TermV::MapTerm(pairs), j)),
                Err(e) => Err(e),
            }
        }
    } else {
        Err(DecodeError::UnknownTag { tag })
    }
}

/// `n` consecutive terms, front to back.
pub open spec fn dec_terms(s: Seq<u8>, i: int, n: int, refs: Seq<Seq<u8>>) -> Result<
    (Seq<TermV>, int),
    DecodeError,
>
    decreases s.len() - i, 3int, n,
{
    if n <= 0 {
        Ok((Seq::empty(), i))
    } else {
        match dec_term(s, i, refs) {
            Ok((t, j)) => if i < j <= s.len() {
                match dec_terms(s, j, n - 1, refs) {
                    Ok((rest, j2)) => Ok((seq![t] + rest, j2)),
                    Err(e) => Err(e),
                }
            } else {
                Err(DecodeError::Io)
            },
            Err(e) => Err(e),
        }
    }
}

/// `n` consecutive key/value pairs, each key before its value.
pub open spec fn dec_pairs(s: Seq<u8>, i: int, n: int, refs: Seq<Seq<u8>>) -> Result<
    (Seq<(TermV, TermV)>, int),
    DecodeError,
>
    decreases s.len() - i, 3int, n,
{
    if n <= 0 {
        Ok((Seq::empty(), i))
    } else {
        match dec_term(s, i, refs) {
            Ok((k, j1)) => if i < j1 <= s.len() {
                match dec_term(s, j1, refs) {
                    Ok((v, j2)) => if i < j2 <= s.len() {
                        match dec_pairs(s, j2, n - 1, refs) {
                            Ok((rest, j3)) => Ok((seq![(k, v)] + rest, j3)),
                            Err(e) => Err(e),
                        }
                    } else {
                        Err(DecodeError::Io)
                    },
                    Err(e) => Err(e),
                }
            } else {
                Err(DecodeError::Io)
            },
            Err(e) => Err(e),
        }
    }
}

/// One flag nibble of a distribution header: the high half of an even
/// reference's flag byte, the low half of an odd one.
pub open spec fn dist_nibble(flags: Seq<u8>, idx: int) -> u8 {
    if idx % 2 == 0 {
        flags[idx / 2] >> 4
    } else {
        flags[idx / 2] & 0x0f
    }
}

/// The long-atoms bit of the last flag byte: its lowest bit for an even
/// reference count, the lowest bit of its high nibble for an odd one.
pub open spec fn dist_long_atoms(flags: Seq<u8>, n: int) -> bool {
    if n % 2 == 0 {
        flags.last() & 1 == 1
    } else {
        (flags.last() >> 4) & 1 == 1
    }
}

/// The cache-ref declarations from index `idx` on: each consumes one slot
/// byte and, for a fresh entry, its atom text, which must be valid UTF-8 and
/// evicts the slot's prior occupant; an old entry resolves the occupied
/// slot. Yields the referenced names in table order, the cache after the
/// updates, and the final position.
pub open spec fn dec_dist_refs(
    s: Seq<u8>,
    i: int,
    idx: int,
    n: int,
    flags: Seq<u8>,
    long_atoms: bool,
    cache: Seq<Option<Seq<u8>>>,
) -> Result<(Seq<Seq<u8>>, Seq<Option<Seq<u8>>>, int), DecodeError>
    decreases n - idx,
{
    if idx >= n {
        Ok((Seq::empty(), cache, i))
    } else if !(has(s, i, 1)) {
        Err(DecodeError::Io)
    } else {
        let nib = dist_nibble(flags, idx);
        let slot = ((nib & 0x07) as int) * 256 + s[i];
        if nib & 0x08 != 0 {
            let lenw: int = if long_atoms {
                2
            } else {
                1
            };
            if !(has(s, i + 1, lenw)) {
                Err(DecodeError::Io)
            } else {
                let alen: int = if long_atoms {
                    rd_u16(s, i + 1) as int
                } else {
                    s[i + 1] as int
                };
                if !(has(s, i + 1 + lenw, alen)) {
                    Err(DecodeError::Io)
                } else {
                    let name = s.subrange(i + 1 + lenw, i + 1 + lenw + alen);
                    if valid_utf8(name) {
                        match dec_dist_refs(
                            s,
                            i + 1 + lenw + alen,
                            idx + 1,
                            n,
                            flags,
                            long_atoms,
                            cache.update(slot, Some(name)),
                        ) {
                            Ok((rest, c2, j)) => Ok((seq![name] + rest, c2, j)),
                            Err(e) => Err(e),
                        }
                    } else {
                        Err(DecodeError::Io)
                    }
                }
            }
        } else {
            match cache[slot] {
                Some(name) => match dec_dist_refs(s, i + 1, idx + 1, n, flags, long_atoms, cache) {
                    Ok((rest, c2, j)) => Ok((seq![name] + rest, c2, j)),
                    Err(e) => Err(e),
                },
                None => Err(DecodeError::Io),
            }
        }
    }
}

/// A whole distribution header after its tag: the reference count, the flag
/// bytes, and the declarations. Yields the per-message atom-cache-ref names,
/// the cache after the updates, and the final position.
pub open spec fn dec_dist_header(s: Seq<u8>, i: int, cache: Seq<Option<Seq<u8>>>) -> Result<
    (Seq<Seq<u8>>, Seq<Option<Seq<u8>>>, int),
    DecodeError,
> {
    if !(has(s, i, 1)) {
        Err(DecodeError::Io)
    } else {
        let n = s[i] as int;
        if n == 0 {
            Ok((Seq::empty(), cache, i + 1))
        } else {
            let flen = n / 2 + 1;
            if !(has(s, i + 1, flen)) {
                Err(DecodeError::Io)
            } else {
                let flags = s.subrange(i + 1, i + 1 + flen);
                dec_dist_refs(s, i + 1 + flen, 0, n, flags, dist_long_atoms(flags, n), cache)
            }
        }
    }
}

} // verus!
