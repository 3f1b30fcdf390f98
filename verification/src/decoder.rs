//! The reader: a tag-dispatched recursive decoder over a byte buffer,
//! charging reductions as it works and threading the distribution atom cache
//! through one message.
use vstd::prelude::*;
use vstd::utf8::valid_utf8;
use crate::atom_cache::{AtomCache, AtomRef};
use crate::dec::{
    dec_atom_cache_ref, dec_atom_ext, dec_atom_utf8_ext, dec_dist_header, dec_internal_atom,
    dec_internal_i32,
    dec_internal_pid, dec_internal_u8, dec_small_atom_ext, dec_small_atom_utf8_ext, dec_term,
    dec_terms, dec_pairs, dec_with_tag, has, inflate_of, rd_i32, rd_u16, rd_u32, rd_u64,
    rd_u32_words, strip_trailing_zeros,
};
use crate::errors::{DecodeError, ExpectedKind};
use crate::external::{
    ATOM_CACHE_REF, ATOM_EXT, ATOM_UTF8_EXT, BINARY_EXT, BIT_BINARY_EXT, COMPRESSED, DIST_HEADER,
    EXPORT_EXT, FLOAT_EXT, FUN_EXT, INTEGER_EXT, LARGE_BIG_EXT, LARGE_TUPLE_EXT, LIST_EXT,
    MAP_EXT, NEWER_REFERENCE_EXT, NEW_FLOAT_EXT, NEW_FUN_EXT, NEW_PID_EXT, NEW_PORT_EXT,
    NEW_REFERENCE_EXT, NIL_EXT, PID_EXT, PORT_EXT, REFERENCE_EXT, SMALL_ATOM_EXT,
    SMALL_ATOM_UTF8_EXT, SMALL_BIG_EXT, SMALL_INTEGER_EXT, SMALL_TUPLE_EXT, STRING_EXT,
    V4_PORT_EXT, VERSION_MAGIC,
};
use crate::process::Process;
use crate::term::{latin1_to_utf8, Atom, Term, TermV};

verus! {

/// Relies on `str::from_utf8`: it accepts a byte slice exactly when the
/// bytes are valid UTF-8, which vstd states as `valid_utf8`.
#[verifier::external_body]
fn check_utf8(v: &[u8]) -> (r: bool)
    ensures
        r == valid_utf8(v@),
{
    std::str::from_utf8(v).is_ok()
}

/// Relies on `libflate::zlib::Decoder`: it inflates a zlib stream, a
/// function of the input bytes alone, and reports malformed streams as
/// errors; bytes after the stream's end are left unread.
#[verifier::external_body]
fn zlib_inflate(input: &[u8]) -> (r: Option<Vec<u8>>)
    ensures
        match r {
            Some(v) => inflate_of(input@) == Some(v@),
            None => inflate_of(input@) is None,
        },
{
    let mut d = match libflate::zlib::Decoder::new(input) {
        Ok(d) => d,
        Err(_) => {
            return None;
        },
    };
    let mut out = Vec::new();
    match std::io::Read::read_to_end(&mut d, &mut out) {
        Ok(_) => Some(out),
        Err(_) => None,
    }
}

/// What one decode task reads against: the scheduler handle whose budget the
/// decoder charges, and the connection's atom cache that a distribution
/// header updates.
pub struct ReadContext {
    pub process: Process,
    pub atom_cache: AtomCache,
}

impl ReadContext {
    /// Both members are well formed.
    pub open spec fn wf(&self) -> bool {
        self.process.wf() && self.atom_cache.wf()
    }

    /// Packs a scheduler handle and an atom cache for one decode task.
    pub fn new(process: Process, atom_cache: AtomCache) -> (r: Self)
        requires
            process.wf(),
            atom_cache.wf(),
        ensures
            r.wf(),
            r.atom_cache.view_slots() == atom_cache.view_slots(),
    {
        ReadContext { process, atom_cache }
    }

    /// Forces an immediate suspension of the task's budget.
    pub fn bump_all_reds(&mut self)
        requires
            old(self).wf(),
        ensures
            final(self).wf(),
            final(self).atom_cache.view_slots() == old(self).atom_cache.view_slots(),
    {
        self.process.bump_all_reds();
    }

    /// Charges `gc` reductions against the task's budget.
    pub fn bump_reds(&mut self, gc: isize)
        requires
            old(self).wf(),
            0 <= gc,
        ensures
            final(self).wf(),
            final(self).atom_cache.view_slots() == old(self).atom_cache.view_slots(),
    {
        self.process.bump_reds(gc);
    }
}

/// Whether an execution outcome is the one the reading-side model names: the
/// same term (by its model), the same final position on success, and the
/// same error on failure.
pub open spec fn outcome_matches(
    res: Result<(TermV, int), DecodeError>,
    r: Result<Term, DecodeError>,
    at2: int,
) -> bool {
    match res {
        Ok((tv, j)) => r is Ok && r->Ok_0@ == tv && at2 == j,
        Err(e) => r is Err && r->Err_0 == e,
    }
}

/// The reader-state frame most readers preserve: the source and the
/// per-message ref table stand, the position only moves forward.
pub open spec fn frame_ok(pre: YieldableDecoder, post: YieldableDecoder) -> bool {
    post.wf() && post.src() == pre.src() && post.refs() == pre.refs() && post.at() >= pre.at()
}

/// The context frame most readers preserve: the atom cache stands.
pub open spec fn ctx_frame(pre: ReadContext, post: ReadContext) -> bool {
    post.wf() && post.atom_cache.view_slots() == pre.atom_cache.view_slots()
}

/// The decoder: a byte buffer, the read position, and the per-message
/// atom-cache-ref table that a distribution header fills.
pub struct YieldableDecoder {
    bytes: Vec<u8>,
    pos: usize,
    atom_cache_refs: Vec<Atom>,
}

impl YieldableDecoder {
    /// The byte source.
    pub closed spec fn src(&self) -> Seq<u8> {
        self.bytes@
    }

    /// The read position.
    pub closed spec fn at(&self) -> int {
        self.pos as int
    }

    /// The names of the per-message atom-cache refs, in table order.
    pub closed spec fn refs(&self) -> Seq<Seq<u8>> {
        Seq::new(self.atom_cache_refs@.len(), |i: int| self.atom_cache_refs@[i].name@)
    }

    /// The position never passes the end of the source.
    pub open spec fn wf(&self) -> bool {
        0 <= self.at() <= self.src().len()
    }

    /// A decoder at the start of a byte buffer, with an empty per-message
    /// atom-cache-ref table.
    pub fn new(bytes: Vec<u8>) -> (r: Self)
        ensures
            r.wf(),
            r.src() == bytes@,
            r.at() == 0,
            r.refs() == Seq::<Seq<u8>>::empty(),
    {
        let r = YieldableDecoder { bytes, pos: 0, atom_cache_refs: Vec::new() };
        assert(r.refs() =~= Seq::<Seq<u8>>::empty());
        r
    }

    /// The number of per-message atom-cache refs the decoder holds.
    pub fn atom_cache_refs_len(&self) -> (r: usize)
        ensures
            r == self.refs().len(),
    {
        self.atom_cache_refs.len()
    }

    /// The atom a per-message atom-cache ref names, by its table position.
    pub fn get_atom_cache_ref(&self, index: usize) -> (r: Option<&Atom>)
        ensures
            index < self.refs().len() ==> r is Some && r->0.name@ == self.refs()[index as int],
            index >= self.refs().len() ==> r is None,
    {
        if index < self.atom_cache_refs.len() {
            Some(&self.atom_cache_refs[index])
        } else {
            None
        }
    }

    /// Reads one byte.
    fn take_u8(&mut self) -> (r: Result<u8, DecodeError>)
        requires
            old(self).wf(),
        ensures
            final(self).wf(),
            final(self).src() == old(self).src(),
            final(self).refs() == old(self).refs(),
            final(self).at() >= old(self).at(),
            has(old(self).src(), old(self).at(), 1) ==> r == Result::<u8, DecodeError>::Ok(
                old(self).src()[old(self).at()],
            ) && final(self).at() == old(self).at() + 1,
            !(has(old(self).src(), old(self).at(), 1)) ==> r == Result::<u8, DecodeError>::Err(
                DecodeError::Io,
            ),
    {
        if self.pos < self.bytes.len() {
            let b = self.bytes[self.pos];
            self.pos = self.pos + 1;
            Ok(b)
        } else {
            Err(DecodeError::Io)
        }
    }

    /// Reads a 16-bit big-endian value.
    fn take_u16(&mut self) -> (r: Result<u16, DecodeError>)
        requires
            old(self).wf(),
        ensures
            final(self).wf(),
            final(self).src() == old(self).src(),
            final(self).refs() == old(self).refs(),
            final(self).at() >= old(self).at(),
            has(old(self).src(), old(self).at(), 2) ==> r == Result::<u16, DecodeError>::Ok(
                rd_u16(old(self).src(), old(self).at()),
            ) && final(self).at() == old(self).at() + 2,
            !(has(old(self).src(), old(self).at(), 2)) ==> r == Result::<u16, DecodeError>::Err(
                DecodeError::Io,
            ),
    {
        if self.bytes.len() >= 2 && self.pos <= self.bytes.len() - 2 {
            let b0 = self.bytes[self.pos];
            let b1 = self.bytes[self.pos + 1];
            self.pos = self.pos + 2;
            Ok(((b0 as u16) << 8) | (b1 as u16))
        } else {
            Err(DecodeError::Io)
        }
    }

    /// Reads a 32-bit big-endian value.
    fn take_u32(&mut self) -> (r: Result<u32, DecodeError>)
        requires
            old(self).wf(),
        ensures
            final(self).wf(),
            final(self).src() == old(self).src(),
            final(self).refs() == old(self).refs(),
            final(self).at() >= old(self).at(),
            has(old(self).src(), old(self).at(), 4) ==> r == Result::<u32, DecodeError>::Ok(
                rd_u32(old(self).src(), old(self).at()),
            ) && final(self).at() == old(self).at() + 4,
            !(has(old(self).src(), old(self).at(), 4)) ==> r == Result::<u32, DecodeError>::Err(
                DecodeError::Io,
            ),
    {
        if self.bytes.len() >= 4 && self.pos <= self.bytes.len() - 4 {
            let b0 = self.bytes[self.pos];
            let b1 = self.bytes[self.pos + 1];
            let b2 = self.bytes[self.pos + 2];
            let b3 = self.bytes[self.pos + 3];
            self.pos = self.pos + 4;
            Ok(((b0 as u32) << 24) | ((b1 as u32) << 16) | ((b2 as u32) << 8) | (b3 as u32))
        } else {
            Err(DecodeError::Io)
        }
    }

    /// Reads a 64-bit big-endian value.
    fn take_u64(&mut self) -> (r: Result<u64, DecodeError>)
        requires
            old(self).wf(),
        ensures
            final(self).wf(),
            final(self).src() == old(self).src(),
            final(self).refs() == old(self).refs(),
            final(self).at() >= old(self).at(),
            has(old(self).src(), old(self).at(), 8) ==> r == Result::<u64, DecodeError>::Ok(
                rd_u64(old(self).src(), old(self).at()),
            ) && final(self).at() == old(self).at() + 8,
            !(has(old(self).src(), old(self).at(), 8)) ==> r == Result::<u64, DecodeError>::Err(
                DecodeError::Io,
            ),
    {
        if self.bytes.len() >= 8 && self.pos <= self.bytes.len() - 8 {
            let mut acc: u64 = 0;
            let b0 = self.bytes[self.pos];
            let b1 = self.bytes[self.pos + 1];
            let b2 = self.bytes[self.pos + 2];
            let b3 = self.bytes[self.pos + 3];
            let b4 = self.bytes[self.pos + 4];
            let b5 = self.bytes[self.pos + 5];
            let b6 = self.bytes[self.pos + 6];
            let b7 = self.bytes[self.pos + 7];
            acc = ((b0 as u64) << 56) | ((b1 as u64) << 48) | ((b2 as u64) << 40) | ((b3
                as u64) << 32) | ((b4 as u64) << 24) | ((b5 as u64) << 16) | ((b6 as u64) << 8)
                | (b7 as u64);
            proof {
                assert(old(self).src().subrange(old(self).at(), old(self).at() + 8)
                    =~= seq![b0, b1, b2, b3, b4, b5, b6, b7]);
            }
            self.pos = self.pos + 8;
            Ok(acc)
        } else {
            Err(DecodeError::Io)
        }
    }

    /// Reads a 32-bit big-endian signed value.
    fn take_i32(&mut self) -> (r: Result<i32, DecodeError>)
        requires
            old(self).wf(),
        ensures
            final(self).wf(),
            final(self).src() == old(self).src(),
            final(self).refs() == old(self).refs(),
            final(self).at() >= old(self).at(),
            has(old(self).src(), old(self).at(), 4) ==> r == Result::<i32, DecodeError>::Ok(
                rd_i32(old(self).src(), old(self).at()),
            ) && final(self).at() == old(self).at() + 4,
            !(has(old(self).src(), old(self).at(), 4)) ==> r == Result::<i32, DecodeError>::Err(
                DecodeError::Io,
            ),
    {
        match self.take_u32() {
            Ok(v) => Ok(v as i32),
            Err(e) => Err(e),
        }
    }

    /// Reads exactly `n` bytes.
    fn take_exact(&mut self, n: usize) -> (r: Result<Vec<u8>, DecodeError>)
        requires
            old(self).wf(),
        ensures
            final(self).wf(),
            final(self).src() == old(self).src(),
            final(self).refs() == old(self).refs(),
            final(self).at() >= old(self).at(),
            has(old(self).src(), old(self).at(), n as int) ==> r is Ok && r->Ok_0@ == old(
                self,
            ).src().subrange(old(self).at(), old(self).at() + n) && final(self).at() == old(
                self,
            ).at() + n,
            !(has(old(self).src(), old(self).at(), n as int)) ==> r == Result::<
                Vec<u8>,
                DecodeError,
            >::Err(DecodeError::Io),
    {
        if n <= self.bytes.len() && self.pos <= self.bytes.len() - n {
            let mut out: Vec<u8> = Vec::new();
            let start = self.pos;
            let len = self.bytes.len();
            let mut i: usize = 0;
            while i < n
                invariant
                    len == self.bytes@.len(),
                    start + n <= len,
                    i <= n,
                    out@ == self.bytes@.subrange(start as int, start + i),
                decreases n - i,
            {
                out.push(self.bytes[start + i]);
                assert(out@ =~= self.bytes@.subrange(start as int, start + i + 1));
                i = i + 1;
            }
            self.pos = start + n;
            Ok(out)
        } else {
            Err(DecodeError::Io)
        }
    }

    /// Reads an atom with a 16-bit length and Latin-1 text.
    fn read_atom_ext(&mut self) -> (r: Result<Atom, DecodeError>)
        requires
            old(self).wf(),
        ensures
            frame_ok(*old(self), *final(self)),
            match dec_atom_ext(old(self).src(), old(self).at()) {
                Ok((name, j)) => r is Ok && r->Ok_0.name@ == name && final(self).at() == j,
                Err(e) => r is Err && r->Err_0 == e,
            },
    {
        let len = match self.take_u16() {
            Ok(v) => v,
            Err(e) => {
                return Err(e);
            },
        };
        let raw = match self.take_exact(len as usize) {
            Ok(v) => v,
            Err(e) => {
                return Err(e);
            },
        };
        let name = latin1_to_utf8(&raw);
        if check_utf8(name.as_slice()) {
            Ok(Atom { name })
        } else {
            Err(DecodeError::Io)
        }
    }

    /// Reads an atom with an 8-bit length and Latin-1 text.
    fn read_small_atom_ext(&mut self) -> (r: Result<Atom, DecodeError>)
        requires
            old(self).wf(),
        ensures
            frame_ok(*old(self), *final(self)),
            match dec_small_atom_ext(old(self).src(), old(self).at()) {
                Ok((name, j)) => r is Ok && r->Ok_0.name@ == name && final(self).at() == j,
                Err(e) => r is Err && r->Err_0 == e,
            },
    {
        let len = match self.take_u8() {
            Ok(v) => v,
            Err(e) => {
                return Err(e);
            },
        };
        let raw = match self.take_exact(len as usize) {
            Ok(v) => v,
            Err(e) => {
                return Err(e);
            },
        };
        let name = latin1_to_utf8(&raw);
        if check_utf8(name.as_slice()) {
            Ok(Atom { name })
        } else {
            Err(DecodeError::Io)
        }
    }

    /// Reads an atom with a 16-bit length and UTF-8 text.
    fn read_atom_utf8_ext(&mut self) -> (r: Result<Atom, DecodeError>)
        requires
            old(self).wf(),
        ensures
            frame_ok(*old(self), *final(self)),
            match dec_atom_utf8_ext(old(self).src(), old(self).at()) {
                Ok((name, j)) => r is Ok && r->Ok_0.name@ == name && final(self).at() == j,
                Err(e) => r is Err && r->Err_0 == e,
            },
    {
        let len = match self.take_u16() {
            Ok(v) => v,
            Err(e) => {
                return Err(e);
            },
        };
        let name = match self.take_exact(len as usize) {
            Ok(v) => v,
            Err(e) => {
                return Err(e);
            },
        };
        if check_utf8(name.as_slice()) {
            Ok(Atom { name })
        } else {
            Err(DecodeError::Io)
        }
    }

    /// Reads an atom with an 8-bit length and UTF-8 text.
    fn read_small_atom_utf8_ext(&mut self) -> (r: Result<Atom, DecodeError>)
        requires
            old(self).wf(),
        ensures
            frame_ok(*old(self), *final(self)),
            match dec_small_atom_utf8_ext(old(self).src(), old(self).at()) {
                Ok((name, j)) => r is Ok && r->Ok_0.name@ == name && final(self).at() == j,
                Err(e) => r is Err && r->Err_0 == e,
            },
    {
        let len = match self.take_u8() {
            Ok(v) => v,
            Err(e) => {
                return Err(e);
            },
        };
        let name = match self.take_exact(len as usize) {
            Ok(v) => v,
            Err(e) => {
                return Err(e);
            },
        };
        if check_utf8(name.as_slice()) {
            Ok(Atom { name })
        } else {
            Err(DecodeError::Io)
        }
    }

    /// Resolves a one-byte index into the per-message atom-cache-ref table.
    fn read_atom_cache_ref(&mut self) -> (r: Result<Atom, DecodeError>)
        requires
            old(self).wf(),
        ensures
            frame_ok(*old(self), *final(self)),
            match dec_atom_cache_ref(old(self).src(), old(self).at(), old(self).refs()) {
                Ok((name, j)) => r is Ok && r->Ok_0.name@ == name && final(self).at() == j,
                Err(e) => r is Err && r->Err_0 == e,
            },
    {
        let idx = match self.take_u8() {
            Ok(v) => v,
            Err(e) => {
                return Err(e);
            },
        };
        if (idx as usize) < self.atom_cache_refs.len() {
            let atom = self.atom_cache_refs[idx as usize].clone();
            Ok(atom)
        } else {
            Err(DecodeError::Io)
        }
    }

    /// Reads an inner atom: one tag byte from the atom subset, then its
    /// payload.
    fn read_internal_atom(&mut self, ctx: &mut ReadContext) -> (r: Result<Atom, DecodeError>)
        requires
            old(self).wf(),
            old(ctx).wf(),
        ensures
            frame_ok(*old(self), *final(self)),
            ctx_frame(*old(ctx), *final(ctx)),
            match dec_internal_atom(old(self).src(), old(self).at(), old(self).refs()) {
                Ok((name, j)) => r is Ok && r->Ok_0.name@ == name && final(self).at() == j,
                Err(e) => r is Err && r->Err_0 == e,
            },
    {
        ctx.bump_reds(1);
        let tag = match self.take_u8() {
            Ok(v) => v,
            Err(e) => {
                return Err(e);
            },
        };
        if tag == ATOM_EXT {
            self.read_atom_ext()
        } else if tag == SMALL_ATOM_EXT {
            self.read_small_atom_ext()
        } else if tag == ATOM_UTF8_EXT {
            self.read_atom_utf8_ext()
        } else if tag == SMALL_ATOM_UTF8_EXT {
            self.read_small_atom_utf8_ext()
        } else if tag == ATOM_CACHE_REF {
            self.read_atom_cache_ref()
        } else {
            Err(DecodeError::UnexpectedType { expected: ExpectedKind::Atom })
        }
    }

    /// Reads an inner 32-bit integer: one tag byte from the integer subset,
    /// then its payload.
    fn read_internal_i32(&mut self, ctx: &mut ReadContext) -> (r: Result<i32, DecodeError>)
        requires
            old(self).wf(),
            old(ctx).wf(),
        ensures
            frame_ok(*old(self), *final(self)),
            ctx_frame(*old(ctx), *final(ctx)),
            match dec_internal_i32(old(self).src(), old(self).at()) {
                Ok((v, j)) => r == Result::<i32, DecodeError>::Ok(v) && final(self).at() == j,
                Err(e) => r == Result::<i32, DecodeError>::Err(e),
            },
    {
        ctx.bump_reds(1);
        let tag = match self.take_u8() {
            Ok(v) => v,
            Err(e) => {
                return Err(e);
            },
        };
        if tag == SMALL_INTEGER_EXT {
            match self.take_u8() {
                Ok(v) => Ok(v as i32),
                Err(e) => Err(e),
            }
        } else if tag == INTEGER_EXT {
            self.take_i32()
        } else {
            Err(DecodeError::UnexpectedType { expected: ExpectedKind::Integer })
        }
    }

    /// Reads an inner byte-sized integer: the small-integer tag, then one
    /// byte.
    fn read_internal_u8(&mut self, ctx: &mut ReadContext) -> (r: Result<u8, DecodeError>)
        requires
            old(self).wf(),
            old(ctx).wf(),
        ensures
            frame_ok(*old(self), *final(self)),
            ctx_frame(*old(ctx), *final(ctx)),
            match dec_internal_u8(old(self).src(), old(self).at()) {
                Ok((v, j)) => r == Result::<u8, DecodeError>::Ok(v) && final(self).at() == j,
                Err(e) => r == Result::<u8, DecodeError>::Err(e),
            },
    {
        ctx.bump_reds(1);
        let tag = match self.take_u8() {
            Ok(v) => v,
            Err(e) => {
                return Err(e);
            },
        };
        if tag == SMALL_INTEGER_EXT {
            self.take_u8()
        } else {
            Err(DecodeError::UnexpectedType { expected: ExpectedKind::SmallInteger })
        }
    }

    /// Reads an inner pid: one tag byte from the pid subset, then its
    /// payload.
    fn read_internal_pid(&mut self, ctx: &mut ReadContext) -> (r: Result<
        crate::term::Pid,
        DecodeError,
    >)
        requires
            old(self).wf(),
            old(ctx).wf(),
        ensures
            frame_ok(*old(self), *final(self)),
            ctx_frame(*old(ctx), *final(ctx)),
            match dec_internal_pid(old(self).src(), old(self).at(), old(self).refs()) {
                Ok((p, j)) => r is Ok && r->Ok_0@ == p && final(self).at() == j,
                Err(e) => r is Err && r->Err_0 == e,
            },
    {
        ctx.bump_reds(1);
        let tag = match self.take_u8() {
            Ok(v) => v,
            Err(e) => {
                return Err(e);
            },
        };
        if tag == PID_EXT {
            let node = match self.read_internal_atom(ctx) {
                Ok(a) => a,
                Err(e) => {
                    return Err(e);
                },
            };
            let id = match self.take_u32() {
                Ok(v) => v,
                Err(e) => {
                    return Err(e);
                },
            };
            let serial = match self.take_u32() {
                Ok(v) => v,
                Err(e) => {
                    return Err(e);
                },
            };
            let creation = match self.take_u8() {
                Ok(v) => v,
                Err(e) => {
                    return Err(e);
                },
            };
            Ok(crate::term::Pid { node, id, serial, creation: creation as u32 })
        } else if tag == NEW_PID_EXT {
            let node = match self.read_internal_atom(ctx) {
                Ok(a) => a,
                Err(e) => {
                    return Err(e);
                },
            };
            let id = match self.take_u32() {
                Ok(v) => v,
                Err(e) => {
                    return Err(e);
                },
            };
            let serial = match self.take_u32() {
                Ok(v) => v,
                Err(e) => {
                    return Err(e);
                },
            };
            let creation = match self.take_u32() {
                Ok(v) => v,
                Err(e) => {
                    return Err(e);
                },
            };
            Ok(crate::term::Pid { node, id, serial, creation })
        } else {
            Err(DecodeError::UnexpectedType { expected: ExpectedKind::Pid })
        }
    }

    /// Reads the payload of an unsigned byte integer.
    fn read_small_integer_ext(&mut self) -> (r: Result<Term, DecodeError>)
        requires
            old(self).wf(),
        ensures
            frame_ok(*old(self), *final(self)),
            outcome_matches(
                dec_with_tag(old(self).src(), old(self).at(), SMALL_INTEGER_EXT, old(self).refs()),
                r,
                final(self).at(),
            ),
    {
        match self.take_u8() {
            Ok(v) => Ok(Term::Number(crate::term::Number::FixInteger(crate::term::FixInteger {
                value: v as i32,
            }))),
            Err(e) => Err(e),
        }
    }

    /// Reads the payload of a 32-bit signed integer.
    fn read_integer_ext(&mut self) -> (r: Result<Term, DecodeError>)
        requires
            old(self).wf(),
        ensures
            frame_ok(*old(self), *final(self)),
            outcome_matches(
                dec_with_tag(old(self).src(), old(self).at(), INTEGER_EXT, old(self).refs()),
                r,
                final(self).at(),
            ),
    {
        match self.take_i32() {
            Ok(v) => Ok(Term::Number(crate::term::Number::FixInteger(crate::term::FixInteger {
                value: v,
            }))),
            Err(e) => Err(e),
        }
    }

    /// Reads the payload of a 64-bit float, rejecting NaN and infinities by
    /// their bit patterns.
    fn read_new_float_ext(&mut self) -> (r: Result<Term, DecodeError>)
        requires
            old(self).wf(),
        ensures
            frame_ok(*old(self), *final(self)),
            outcome_matches(
                dec_with_tag(old(self).src(), old(self).at(), NEW_FLOAT_EXT, old(self).refs()),
                r,
                final(self).at(),
            ),
    {
        match self.take_u64() {
            Ok(bits) => {
                if (bits >> 52) & 0x7ff != 0x7ff {
                    Ok(Term::Number(crate::term::Number::Float(crate::term::Float { bits })))
                } else {
                    Err(DecodeError::NonFiniteFloat)
                }
            },
            Err(e) => Err(e),
        }
    }

    /// Reads the payload of a single-word reference.
    fn read_reference_ext(&mut self, ctx: &mut ReadContext) -> (r: Result<Term, DecodeError>)
        requires
            old(self).wf(),
            old(ctx).wf(),
        ensures
            frame_ok(*old(self), *final(self)),
            ctx_frame(*old(ctx), *final(ctx)),
            outcome_matches(
                dec_with_tag(old(self).src(), old(self).at(), REFERENCE_EXT, old(self).refs()),
                r,
                final(self).at(),
            ),
    {
        ctx.bump_reds(1);
        let node = match self.read_internal_atom(ctx) {
            Ok(a) => a,
            Err(e) => {
                return Err(e);
            },
        };
        let w = match self.take_u32() {
            Ok(v) => v,
            Err(e) => {
                return Err(e);
            },
        };
        let creation = match self.take_u8() {
            Ok(v) => v,
            Err(e) => {
                return Err(e);
            },
        };
        let mut id: Vec<u32> = Vec::new();
        id.push(w);
        assert(id@ =~= seq![w]);
        Ok(Term::Reference(crate::term::Reference { node, id, creation: creation as u32 }))
    }

    /// Reads the id words of a counted reference.
    fn read_id_words(&mut self, cnt: usize) -> (r: Result<Vec<u32>, DecodeError>)
        requires
            old(self).wf(),
        ensures
            frame_ok(*old(self), *final(self)),
            has(old(self).src(), old(self).at(), 4 * cnt) ==> r is Ok && r->Ok_0@ == rd_u32_words(
                old(self).src(),
                old(self).at(),
                cnt as int,
            ) && final(self).at() == old(self).at() + 4 * cnt,
            !(has(old(self).src(), old(self).at(), 4 * cnt)) ==> r == Result::<
                Vec<u32>,
                DecodeError,
            >::Err(DecodeError::Io),
    {
        let ghost at0 = self.at();
        let mut id: Vec<u32> = Vec::new();
        let mut k: usize = 0;
        while k < cnt
            invariant
                self.wf(),
                self.src() == old(self).src(),
                self.refs() == old(self).refs(),
                k <= cnt,
                self.at() == at0 + 4 * k,
                at0 >= old(self).at(),
                at0 == old(self).at(),
                id@ =~= rd_u32_words(self.src(), at0, k as int),
            decreases cnt - k,
        {
            match self.take_u32() {
                Ok(w) => {
                    id.push(w);
                    assert(id@ =~= rd_u32_words(self.src(), at0, k + 1));
                },
                Err(e) => {
                    proof {
                        assert(at0 + 4 * k + 4 > self.src().len());
                        assert(4 * k + 4 <= 4 * cnt) by (nonlinear_arith)
                            requires
                                k < cnt,
                        ;
                    }
                    return Err(DecodeError::Io);
                },
            }
            k = k + 1;
        }
        Ok(id)
    }

    /// Reads the payload of a counted reference with an 8-bit creation.
    fn read_new_reference_ext(&mut self, ctx: &mut ReadContext) -> (r: Result<Term, DecodeError>)
        requires
            old(self).wf(),
            old(ctx).wf(),
        ensures
            frame_ok(*old(self), *final(self)),
            ctx_frame(*old(ctx), *final(ctx)),
            outcome_matches(
                dec_with_tag(old(self).src(), old(self).at(), NEW_REFERENCE_EXT, old(self).refs()),
                r,
                final(self).at(),
            ),
    {
        ctx.bump_reds(1);
        let cnt = match self.take_u16() {
            Ok(v) => v,
            Err(e) => {
                return Err(e);
            },
        };
        let node = match self.read_internal_atom(ctx) {
            Ok(a) => a,
            Err(e) => {
                return Err(e);
            },
        };
        let creation = match self.take_u8() {
            Ok(v) => v,
            Err(e) => {
                return Err(e);
            },
        };
        let id = match self.read_id_words(cnt as usize) {
            Ok(v) => v,
            Err(e) => {
                return Err(e);
            },
        };
        Ok(Term::Reference(crate::term::Reference { node, id, creation: creation as u32 }))
    }

    /// Reads the payload of a counted reference with a 32-bit creation.
    fn read_newer_reference_ext(&mut self, ctx: &mut ReadContext) -> (r: Result<Term, DecodeError>)
        requires
            old(self).wf(),
            old(ctx).wf(),
        ensures
            frame_ok(*old(self), *final(self)),
            ctx_frame(*old(ctx), *final(ctx)),
            outcome_matches(
                dec_with_tag(
                    old(self).src(),
                    old(self).at(),
                    NEWER_REFERENCE_EXT,
                    old(self).refs(),
                ),
                r,
                final(self).at(),
            ),
    {
        ctx.bump_reds(1);
        let cnt = match self.take_u16() {
            Ok(v) => v,
            Err(e) => {
                return Err(e);
            },
        };
        let node = match self.read_internal_atom(ctx) {
            Ok(a) => a,
            Err(e) => {
                return Err(e);
            },
        };
        let creation = match self.take_u32() {
            Ok(v) => v,
            Err(e) => {
                return Err(e);
            },
        };
        let id = match self.read_id_words(cnt as usize) {
            Ok(v) => v,
            Err(e) => {
                return Err(e);
            },
        };
        Ok(Term::Reference(crate::term::Reference { node, id, creation }))
    }

    /// Reads the payload of a port with an 8-bit creation.
    fn read_port_ext(&mut self, ctx: &mut ReadContext) -> (r: Result<Term, DecodeError>)
        requires
            old(self).wf(),
            old(ctx).wf(),
        ensures
            frame_ok(*old(self), *final(self)),
            ctx_frame(*old(ctx), *final(ctx)),
            outcome_matches(
                dec_with_tag(old(self).src(), old(self).at(), PORT_EXT, old(self).refs()),
                r,
                final(self).at(),
            ),
    {
        ctx.bump_reds(1);
        let node = match self.read_internal_atom(ctx) {
            Ok(a) => a,
            Err(e) => {
                return Err(e);
            },
        };
        let id = match self.take_u32() {
            Ok(v) => v,
            Err(e) => {
                return Err(e);
            },
        };
        let creation = match self.take_u8() {
            Ok(v) => v,
            Err(e) => {
                return Err(e);
            },
        };
        Ok(Term::Port(crate::term::Port { node, id: id as u64, creation: creation as u32 }))
    }

    /// Reads the payload of a port with a 32-bit creation.
    fn read_new_port_ext(&mut self, ctx: &mut ReadContext) -> (r: Result<Term, DecodeError>)
        requires
            old(self).wf(),
            old(ctx).wf(),
        ensures
            frame_ok(*old(self), *final(self)),
            ctx_frame(*old(ctx), *final(ctx)),
            outcome_matches(
                dec_with_tag(old(self).src(), old(self).at(), NEW_PORT_EXT, old(self).refs()),
                r,
                final(self).at(),
            ),
    {
        ctx.bump_reds(1);
        let node = match self.read_internal_atom(ctx) {
            Ok(a) => a,
            Err(e) => {
                return Err(e);
            },
        };
        let id = match self.take_u32() {
            Ok(v) => v,
            Err(e) => {
                return Err(e);
            },
        };
        let creation = match self.take_u32() {
            Ok(v) => v,
            Err(e) => {
                return Err(e);
            },
        };
        Ok(Term::Port(crate::term::Port { node, id: id as u64, creation }))
    }

    /// Reads the payload of a port with a 64-bit id.
    fn read_v4_port_ext(&mut self, ctx: &mut ReadContext) -> (r: Result<Term, DecodeError>)
        requires
            old(self).wf(),
            old(ctx).wf(),
        ensures
            frame_ok(*old(self), *final(self)),
            ctx_frame(*old(ctx), *final(ctx)),
            outcome_matches(
                dec_with_tag(old(self).src(), old(self).at(), V4_PORT_EXT, old(self).refs()),
                r,
                final(self).at(),
            ),
    {
        ctx.bump_reds(1);
        let node = match self.read_internal_atom(ctx) {
            Ok(a) => a,
            Err(e) => {
                return Err(e);
            },
        };
        let id = match self.take_u64() {
            Ok(v) => v,
            Err(e) => {
                return Err(e);
            },
        };
        let creation = match self.take_u32() {
            Ok(v) => v,
            Err(e) => {
                return Err(e);
            },
        };
        Ok(Term::Port(crate::term::Port { node, id, creation }))
    }

    /// Reads the payload of a pid with an 8-bit creation.
    fn read_pid_ext(&mut self, ctx: &mut ReadContext) -> (r: Result<Term, DecodeError>)
        requires
            old(self).wf(),
            old(ctx).wf(),
        ensures
            frame_ok(*old(self), *final(self)),
            ctx_frame(*old(ctx), *final(ctx)),
            outcome_matches(
                dec_with_tag(old(self).src(), old(self).at(), PID_EXT, old(self).refs()),
                r,
                final(self).at(),
            ),
    {
        ctx.bump_reds(1);
        let node = match self.read_internal_atom(ctx) {
            Ok(a) => a,
            Err(e) => {
                return Err(e);
            },
        };
        let id = match self.take_u32() {
            Ok(v) => v,
            Err(e) => {
                return Err(e);
            },
        };
        let serial = match self.take_u32() {
            Ok(v) => v,
            Err(e) => {
                return Err(e);
            },
        };
        let creation = match self.take_u8() {
            Ok(v) => v,
            Err(e) => {
                return Err(e);
            },
        };
        Ok(Term::Pid(crate::term::Pid { node, id, serial, creation: creation as u32 }))
    }

    /// Reads the payload of a pid with a 32-bit creation.
    fn read_new_pid_ext(&mut self, ctx: &mut ReadContext) -> (r: Result<Term, DecodeError>)
        requires
            old(self).wf(),
            old(ctx).wf(),
        ensures
            frame_ok(*old(self), *final(self)),
            ctx_frame(*old(ctx), *final(ctx)),
            outcome_matches(
                dec_with_tag(old(self).src(), old(self).at(), NEW_PID_EXT, old(self).refs()),
                r,
                final(self).at(),
            ),
    {
        ctx.bump_reds(1);
        let node = match self.read_internal_atom(ctx) {
            Ok(a) => a,
            Err(e) => {
                return Err(e);
            },
        };
        let id = match self.take_u32() {
            Ok(v) => v,
            Err(e) => {
                return Err(e);
            },
        };
        let serial = match self.take_u32() {
            Ok(v) => v,
            Err(e) => {
                return Err(e);
            },
        };
        let creation = match self.take_u32() {
            Ok(v) => v,
            Err(e) => {
                return Err(e);
            },
        };
        Ok(Term::Pid(crate::term::Pid { node, id, serial, creation }))
    }

    /// Reads the payload of a whole-byte binary.
    fn read_binary_ext(&mut self, ctx: &mut ReadContext) -> (r: Result<Term, DecodeError>)
        requires
            old(self).wf(),
            old(ctx).wf(),
        ensures
            frame_ok(*old(self), *final(self)),
            ctx_frame(*old(ctx), *final(ctx)),
            outcome_matches(
                dec_with_tag(old(self).src(), old(self).at(), BINARY_EXT, old(self).refs()),
                r,
                final(self).at(),
            ),
    {
        ctx.bump_reds(1);
        let len = match self.take_u32() {
            Ok(v) => v,
            Err(e) => {
                return Err(e);
            },
        };
        let data = match self.take_exact(len as usize) {
            Ok(v) => v,
            Err(e) => {
                return Err(e);
            },
        };
        Ok(Term::Bitstring(crate::term::Bitstring { data, bits: 0 }))
    }

    /// Reads the payload of a binary with a trailing partial byte, storing
    /// the last byte right-aligned.
    fn read_bit_binary_ext(&mut self, ctx: &mut ReadContext) -> (r: Result<Term, DecodeError>)
        requires
            old(self).wf(),
            old(ctx).wf(),
        ensures
            frame_ok(*old(self), *final(self)),
            ctx_frame(*old(ctx), *final(ctx)),
            outcome_matches(
                dec_with_tag(old(self).src(), old(self).at(), BIT_BINARY_EXT, old(self).refs()),
                r,
                final(self).at(),
            ),
    {
        ctx.bump_reds(1);
        let len = match self.take_u32() {
            Ok(v) => v,
            Err(e) => {
                return Err(e);
            },
        };
        let bits = match self.take_u8() {
            Ok(v) => v,
            Err(e) => {
                return Err(e);
            },
        };
        let mut data = match self.take_exact(len as usize) {
            Ok(v) => v,
            Err(e) => {
                return Err(e);
            },
        };
        if len == 0 {
            if bits == 0 {
                assert(data@ =~= Seq::<u8>::empty());
                Ok(Term::Bitstring(crate::term::Bitstring { data, bits: 0 }))
            } else {
                Err(DecodeError::OutOfRange { value: bits as u32, limit: 8 })
            }
        } else if 1 <= bits && bits <= 8 {
            let last = data[(len as usize) - 1];
            data.set((len as usize) - 1, last >> (8 - bits));
            Ok(Term::Bitstring(crate::term::Bitstring { data, bits: bits % 8 }))
        } else {
            Err(DecodeError::OutOfRange { value: bits as u32, limit: 8 })
        }
    }

    /// Reads the payload of a big integer with an 8-bit magnitude length.
    fn read_small_big_ext(&mut self, ctx: &mut ReadContext) -> (r: Result<Term, DecodeError>)
        requires
            old(self).wf(),
            old(ctx).wf(),
        ensures
            frame_ok(*old(self), *final(self)),
            ctx_frame(*old(ctx), *final(ctx)),
            outcome_matches(
                dec_with_tag(old(self).src(), old(self).at(), SMALL_BIG_EXT, old(self).refs()),
                r,
                final(self).at(),
            ),
    {
        ctx.bump_reds(1);
        let len = match self.take_u8() {
            Ok(v) => v,
            Err(e) => {
                return Err(e);
            },
        };
        self.read_big_payload(len as usize)
    }

    /// Reads the payload of a big integer with a 32-bit magnitude length.
    fn read_large_big_ext(&mut self, ctx: &mut ReadContext) -> (r: Result<Term, DecodeError>)
        requires
            old(self).wf(),
            old(ctx).wf(),
        ensures
            frame_ok(*old(self), *final(self)),
            ctx_frame(*old(ctx), *final(ctx)),
            outcome_matches(
                dec_with_tag(old(self).src(), old(self).at(), LARGE_BIG_EXT, old(self).refs()),
                r,
                final(self).at(),
            ),
    {
        ctx.bump_reds(1);
        let len = match self.take_u32() {
            Ok(v) => v,
            Err(e) => {
                return Err(e);
            },
        };
        self.read_big_payload(len as usize)
    }

    /// Reads the sign byte and magnitude of a big integer and normalizes the
    /// magnitude.
    fn read_big_payload(&mut self, len: usize) -> (r: Result<Term, DecodeError>)
        requires
            old(self).wf(),
        ensures
            frame_ok(*old(self), *final(self)),
            ({
                let s = old(self).src();
                let i = old(self).at();
                if !(has(s, i, 1)) {
                    r == Result::<Term, DecodeError>::Err(DecodeError::Io)
                } else if s[i] != 0 && s[i] != 1 {
                    r == Result::<Term, DecodeError>::Err(
                        DecodeError::OutOfRange { value: s[i] as u32, limit: 2 },
                    )
                } else if !(has(s, i + 1, len as int)) {
                    r == Result::<Term, DecodeError>::Err(DecodeError::Io)
                } else {
                    {
                        let mag = strip_trailing_zeros(s.subrange(i + 1, i + 1 + len));
                        let sign = if mag.len() == 0 || s[i] == 0 {
                            crate::term::Sign::Plus
                        } else {
                            crate::term::Sign::Minus
                        };
                        r is Ok && r->Ok_0@ == TermV::Bignum(sign, mag) && final(self).at() == i + 1
                            + len
                    }
                }
            }),
    {
        let sgn = match self.take_u8() {
            Ok(v) => v,
            Err(e) => {
                return Err(e);
            },
        };
        if sgn != 0 && sgn != 1 {
            return Err(DecodeError::OutOfRange { value: sgn as u32, limit: 2 });
        }
        let raw = match self.take_exact(len) {
            Ok(v) => v,
            Err(e) => {
                return Err(e);
            },
        };
        let magnitude = strip_zeros_vec(raw);
        let sign = if magnitude.len() == 0 || sgn == 0 {
            crate::term::Sign::Plus
        } else {
            crate::term::Sign::Minus
        };
        Ok(Term::Number(crate::term::Number::Bignum(crate::term::Bignum { sign, magnitude })))
    }

    /// Reads the payload of a byte-string list.
    #[verifier::rlimit(100)]
    fn read_string_ext(&mut self, ctx: &mut ReadContext) -> (r: Result<Term, DecodeError>)
        requires
            old(self).wf(),
            old(ctx).wf(),
        ensures
            frame_ok(*old(self), *final(self)),
            ctx_frame(*old(ctx), *final(ctx)),
            outcome_matches(
                dec_with_tag(old(self).src(), old(self).at(), STRING_EXT, old(self).refs()),
                r,
                final(self).at(),
            ),
    {
        ctx.bump_reds(1);
        let len = match self.take_u16() {
            Ok(v) => v,
            Err(e) => {
                return Err(e);
            },
        };
        let bytes = match self.take_exact(len as usize) {
            Ok(v) => v,
            Err(e) => {
                return Err(e);
            },
        };
        let mut elements: Vec<Term> = Vec::new();
        let n = bytes.len();
        let mut i: usize = 0;
        while i < n
            invariant
                n == bytes@.len(),
                i <= n,
                elements@.len() == i,
                forall|k: int|
                    0 <= k < i ==> (#[trigger] elements@[k])@ == TermV::FixInteger(
                        bytes@[k] as int,
                    ),
                ctx.wf(),
                ctx.atom_cache.view_slots() == old(ctx).atom_cache.view_slots(),
            decreases n - i,
        {
            if i > 0 && i % 4096 == 0 {
                ctx.bump_reds(5);
            }
            let t = Term::Number(crate::term::Number::FixInteger(crate::term::FixInteger {
                value: bytes[i] as i32,
            }));
            assert(t@ == TermV::FixInteger(bytes@[i as int] as int));
            elements.push(t);
            i = i + 1;
        }
        proof {
            crate::enc::lemma_view_terms_props(elements@);
            let s0 = old(self).src();
            let i0 = old(self).at();
            assert forall|k: int| 0 <= k < len implies crate::term::view_terms(elements@)[k]
                == TermV::FixInteger(s0[i0 + 2 + k] as int) by {
                assert(elements@[k]@ == TermV::FixInteger(bytes@[k] as int));
                assert(bytes@[k] == s0[i0 + 2 + k]);
            }
            assert(crate::term::view_terms(elements@) =~= Seq::new(
                len as nat,
                |k: int| TermV::FixInteger(s0[i0 + 2 + k] as int),
            ));
        }
        let tail_box = Box::new(Term::Nil(crate::term::Nil));
        assert(*tail_box == Term::Nil(crate::term::Nil));
        assert((*tail_box)@ == TermV::Nil);
        let result = Term::List(crate::term::List { elements, tail: tail_box });
        proof {
            let s0 = old(self).src();
            let i0 = old(self).at();
            let spec_res = dec_with_tag(s0, i0, STRING_EXT, old(self).refs());
            assert(spec_res is Ok);
            let tv = spec_res->Ok_0.0;
            match (tv, result@) {
                (TermV::List(inner, tl), TermV::List(mine, mtl)) => {
                    assert(mine =~= inner);
                    assert(*tl == TermV::Nil);
                    assert(*mtl == TermV::Nil);
                    assert(tl == mtl);
                    assert(result@ == tv);
                },
                _ => {
                    assert(false);
                },
            }
        }
        Ok(result)
    }
}

/// Strips trailing zero bytes, normalizing a little-endian magnitude.
fn strip_zeros_vec(v: Vec<u8>) -> (r: Vec<u8>)
    ensures
        r@ == strip_trailing_zeros(v@),
{
    let ghost orig = v@;
    let mut w = v;
    while w.len() > 0 && w[w.len() - 1] == 0
        invariant
            strip_trailing_zeros(w@) == strip_trailing_zeros(orig),
        decreases w@.len(),
    {
        assert(w@.last() == 0);
        w.pop();
    }
    assert(strip_trailing_zeros(w@) == w@);
    w
}

impl YieldableDecoder {
    /// Reads one term: the tag byte, then its payload; charges one
    /// reduction.
    pub fn read_internal_term(&mut self, ctx: &mut ReadContext) -> (r: Result<Term, DecodeError>)
        requires
            old(self).wf(),
            old(ctx).wf(),
        ensures
            frame_ok(*old(self), *final(self)),
            ctx_frame(*old(ctx), *final(ctx)),
            outcome_matches(
                dec_term(old(self).src(), old(self).at(), old(self).refs()),
                r,
                final(self).at(),
            ),
            r is Ok ==> final(self).at() > old(self).at(),
        decreases old(self).src().len() - old(self).at(), 2int, 0int,
    {
        ctx.bump_reds(1);
        let tag = match self.take_u8() {
            Ok(v) => v,
            Err(e) => {
                return Err(e);
            },
        };
        self.read_internal_term_with_tag(ctx, tag)
    }

    /// Dispatches the payload reader for one tag byte.
    #[verifier::rlimit(100)]
    fn read_internal_term_with_tag(&mut self, ctx: &mut ReadContext, tag: u8) -> (r: Result<
        Term,
        DecodeError,
    >)
        requires
            old(self).wf(),
            old(ctx).wf(),
        ensures
            frame_ok(*old(self), *final(self)),
            ctx_frame(*old(ctx), *final(ctx)),
            outcome_matches(
                dec_with_tag(old(self).src(), old(self).at(), tag, old(self).refs()),
                r,
                final(self).at(),
            ),
        decreases old(self).src().len() - old(self).at(), 1int, 0int,
    {
        if tag == SMALL_INTEGER_EXT {
            self.read_small_integer_ext()
        } else if tag == INTEGER_EXT {
            self.read_integer_ext()
        } else if tag == FLOAT_EXT {
            Err(DecodeError::Io)
        } else if tag == NEW_FLOAT_EXT {
            self.read_new_float_ext()
        } else if tag == ATOM_EXT {
            match self.read_atom_ext() {
                Ok(a) => Ok(Term::Atom(a)),
                Err(e) => Err(e),
            }
        } else if tag == SMALL_ATOM_EXT {
            match self.read_small_atom_ext() {
                Ok(a) => Ok(Term::Atom(a)),
                Err(e) => Err(e),
            }
        } else if tag == ATOM_UTF8_EXT {
            match self.read_atom_utf8_ext() {
                Ok(a) => Ok(Term::Atom(a)),
                Err(e) => Err(e),
            }
        } else if tag == SMALL_ATOM_UTF8_EXT {
            match self.read_small_atom_utf8_ext() {
                Ok(a) => Ok(Term::Atom(a)),
                Err(e) => Err(e),
            }
        } else if tag == ATOM_CACHE_REF {
            match self.read_atom_cache_ref() {
                Ok(a) => Ok(Term::Atom(a)),
                Err(e) => Err(e),
            }
        } else if tag == REFERENCE_EXT {
            self.read_reference_ext(ctx)
        } else if tag == NEW_REFERENCE_EXT {
            self.read_new_reference_ext(ctx)
        } else if tag == NEWER_REFERENCE_EXT {
            self.read_newer_reference_ext(ctx)
        } else if tag == PORT_EXT {
            self.read_port_ext(ctx)
        } else if tag == NEW_PORT_EXT {
            self.read_new_port_ext(ctx)
        } else if tag == V4_PORT_EXT {
            self.read_v4_port_ext(ctx)
        } else if tag == PID_EXT {
            self.read_pid_ext(ctx)
        } else if tag == NEW_PID_EXT {
            self.read_new_pid_ext(ctx)
        } else if tag == SMALL_TUPLE_EXT {
            self.read_small_tuple_ext(ctx)
        } else if tag == LARGE_TUPLE_EXT {
            self.read_large_tuple_ext(ctx)
        } else if tag == NIL_EXT {
            Ok(Term::Nil(crate::term::Nil))
        } else if tag == STRING_EXT {
            self.read_string_ext(ctx)
        } else if tag == LIST_EXT {
            self.read_list_ext(ctx)
        } else if tag == BINARY_EXT {
            self.read_binary_ext(ctx)
        } else if tag == BIT_BINARY_EXT {
            self.read_bit_binary_ext(ctx)
        } else if tag == SMALL_BIG_EXT {
            self.read_small_big_ext(ctx)
        } else if tag == LARGE_BIG_EXT {
            self.read_large_big_ext(ctx)
        } else if tag == EXPORT_EXT {
            self.read_export_ext(ctx)
        } else if tag == FUN_EXT {
            self.read_fun_ext(ctx)
        } else if tag == NEW_FUN_EXT {
            self.read_new_fun_ext(ctx)
        } else if tag == MAP_EXT {
            self.read_map_ext(ctx)
        } else {
            Err(DecodeError::UnknownTag { tag })
        }
    }

    /// Reads `n` consecutive terms into a vector.
    fn read_terms_loop(&mut self, ctx: &mut ReadContext, n: usize) -> (r: Result<
        Vec<Term>,
        DecodeError,
    >)
        requires
            old(self).wf(),
            old(ctx).wf(),
        ensures
            frame_ok(*old(self), *final(self)),
            ctx_frame(*old(ctx), *final(ctx)),
            match dec_terms(old(self).src(), old(self).at(), n as int, old(self).refs()) {
                Ok((ts, j)) => r is Ok && crate::term::view_terms(r->Ok_0@) == ts
                    && final(self).at() == j,
                Err(e) => r is Err && r->Err_0 == e,
            },
        decreases old(self).src().len() - old(self).at(), 3int, 0int,
    {
        let ghost src0 = self.src();
        let ghost at0 = self.at();
        let ghost refs0 = self.refs();
        let mut elements: Vec<Term> = Vec::new();
        let mut k: usize = 0;
        while k < n
            invariant
                src0 == old(self).src(),
                at0 == old(self).at(),
                refs0 == old(self).refs(),
                self.wf(),
                ctx.wf(),
                self.src() == src0,
                self.refs() == refs0,
                ctx.atom_cache.view_slots() == old(ctx).atom_cache.view_slots(),
                self.at() >= at0,
                k <= n,
                elements@.len() == k,
                dec_terms(src0, at0, n as int, refs0) == (match dec_terms(
                    src0,
                    self.at(),
                    n - k,
                    refs0,
                ) {
                    Ok((rest, j)) => Ok::<_, DecodeError>(
                        (crate::term::view_terms(elements@) + rest, j),
                    ),
                    Err(e) => Err(e),
                }),
            decreases n - k,
        {
            proof {
                assert(dec_terms(src0, self.at(), n - k, refs0) == (match dec_term(
                    src0,
                    self.at(),
                    refs0,
                ) {
                    Ok((t, j)) => if self.at() < j <= src0.len() {
                        match dec_terms(src0, j, n - k - 1, refs0) {
                            Ok((rest, j2)) => Ok::<_, DecodeError>((seq![t] + rest, j2)),
                            Err(e) => Err(e),
                        }
                    } else {
                        Err(DecodeError::Io)
                    },
                    Err(e) => Err(e),
                }));
            }
            let ghost cur = self.at();
            let ghost pre = crate::term::view_terms(elements@);
            let t = match self.read_internal_term(ctx) {
                Ok(t) => t,
                Err(e) => {
                    return Err(e);
                },
            };
            let ghost elems_before = elements@;
            elements.push(t);
            proof {
                crate::enc::lemma_view_terms_props(elems_before);
                crate::enc::lemma_view_terms_props(elements@);
                assert(elements@ == elems_before.push(t));
                assert forall|j: int| 0 <= j < k + 1 implies crate::term::view_terms(elements@)[j]
                    == (pre + seq![t@])[j] by {
                    if j < k {
                        assert(elements@[j] == elems_before[j]);
                        assert(pre[j] == elems_before[j]@);
                    } else {
                        assert(elements@[j] == t);
                    }
                }
                assert(crate::term::view_terms(elements@) =~= pre + seq![t@]);
                let inner = dec_terms(src0, self.at(), n - k - 1, refs0);
                if inner is Ok {
                    let rest = inner->Ok_0.0;
                    assert((pre + seq![t@]) + rest =~= pre + (seq![t@] + rest));
                }
            }
            k = k + 1;
        }
        proof {
            assert(crate::term::view_terms(elements@) + Seq::<TermV>::empty()
                =~= crate::term::view_terms(elements@));
        }
        Ok(elements)
    }

    /// Reads `n` consecutive key/value pairs into a vector.
    fn read_pairs_loop(&mut self, ctx: &mut ReadContext, n: usize) -> (r: Result<
        Vec<(Term, Term)>,
        DecodeError,
    >)
        requires
            old(self).wf(),
            old(ctx).wf(),
        ensures
            frame_ok(*old(self), *final(self)),
            ctx_frame(*old(ctx), *final(ctx)),
            match dec_pairs(old(self).src(), old(self).at(), n as int, old(self).refs()) {
                Ok((ps, j)) => r is Ok && crate::term::view_pairs(r->Ok_0@) == ps
                    && final(self).at() == j,
                Err(e) => r is Err && r->Err_0 == e,
            },
        decreases old(self).src().len() - old(self).at(), 3int, 0int,
    {
        let ghost src0 = self.src();
        let ghost at0 = self.at();
        let ghost refs0 = self.refs();
        let mut pairs: Vec<(Term, Term)> = Vec::new();
        let mut k: usize = 0;
        while k < n
            invariant
                src0 == old(self).src(),
                at0 == old(self).at(),
                refs0 == old(self).refs(),
                self.wf(),
                ctx.wf(),
                self.src() == src0,
                self.refs() == refs0,
                ctx.atom_cache.view_slots() == old(ctx).atom_cache.view_slots(),
                self.at() >= at0,
                k <= n,
                pairs@.len() == k,
                dec_pairs(src0, at0, n as int, refs0) == (match dec_pairs(
                    src0,
                    self.at(),
                    n - k,
                    refs0,
                ) {
                    Ok((rest, j)) => Ok::<_, DecodeError>(
                        (crate::term::view_pairs(pairs@) + rest, j),
                    ),
                    Err(e) => Err(e),
                }),
            decreases n - k,
        {
            let ghost cur = self.at();
            let ghost pre = crate::term::view_pairs(pairs@);
            let key = match self.read_internal_term(ctx) {
                Ok(t) => t,
                Err(e) => {
                    return Err(e);
                },
            };
            let value = match self.read_internal_term(ctx) {
                Ok(t) => t,
                Err(e) => {
                    return Err(e);
                },
            };
            let ghost pairs_before = pairs@;
            pairs.push((key, value));
            proof {
                crate::enc::lemma_view_pairs_props(pairs_before);
                crate::enc::lemma_view_pairs_props(pairs@);
                assert(pairs@ == pairs_before.push((key, value)));
                assert forall|j: int| 0 <= j < k + 1 implies crate::term::view_pairs(pairs@)[j]
                    == (pre + seq![(key@, value@)])[j] by {
                    if j < k {
                        assert(pairs@[j] == pairs_before[j]);
                        assert(pre[j] == (pairs_before[j].0@, pairs_before[j].1@));
                    } else {
                        assert(pairs@[j] == (key, value));
                        assert((pairs@[j].0@, pairs@[j].1@) == (key@, value@));
                    }
                }
                assert(crate::term::view_pairs(pairs@) =~= pre + seq![(key@, value@)]);
                let inner = dec_pairs(src0, self.at(), n - k - 1, refs0);
                if inner is Ok {
                    let rest = inner->Ok_0.0;
                    assert((pre + seq![(key@, value@)]) + rest =~= pre + (seq![(key@, value@)]
                        + rest));
                }
            }
            k = k + 1;
        }
        proof {
            assert(crate::term::view_pairs(pairs@) + Seq::<(TermV, TermV)>::empty()
                =~= crate::term::view_pairs(pairs@));
        }
        Ok(pairs)
    }

    /// Reads the payload of a tuple with an 8-bit arity.
    fn read_small_tuple_ext(&mut self, ctx: &mut ReadContext) -> (r: Result<Term, DecodeError>)
        requires
            old(self).wf(),
            old(ctx).wf(),
        ensures
            frame_ok(*old(self), *final(self)),
            ctx_frame(*old(ctx), *final(ctx)),
            outcome_matches(
                dec_with_tag(old(self).src(), old(self).at(), SMALL_TUPLE_EXT, old(self).refs()),
                r,
                final(self).at(),
            ),
        decreases old(self).src().len() - old(self).at(), 0int, 0int,
    {
        ctx.bump_reds(1);
        let arity = match self.take_u8() {
            Ok(v) => v,
            Err(e) => {
                return Err(e);
            },
        };
        match self.read_terms_loop(ctx, arity as usize) {
            Ok(elements) => Ok(Term::Tuple(crate::term::Tuple { elements })),
            Err(e) => Err(e),
        }
    }

    /// Reads the payload of a tuple with a 32-bit arity.
    fn read_large_tuple_ext(&mut self, ctx: &mut ReadContext) -> (r: Result<Term, DecodeError>)
        requires
            old(self).wf(),
            old(ctx).wf(),
        ensures
            frame_ok(*old(self), *final(self)),
            ctx_frame(*old(ctx), *final(ctx)),
            outcome_matches(
                dec_with_tag(old(self).src(), old(self).at(), LARGE_TUPLE_EXT, old(self).refs()),
                r,
                final(self).at(),
            ),
        decreases old(self).src().len() - old(self).at(), 0int, 0int,
    {
        ctx.bump_reds(1);
        let arity = match self.take_u32() {
            Ok(v) => v,
            Err(e) => {
                return Err(e);
            },
        };
        match self.read_terms_loop(ctx, arity as usize) {
            Ok(elements) => Ok(Term::Tuple(crate::term::Tuple { elements })),
            Err(e) => Err(e),
        }
    }

    /// Reads the payload of a counted list and its tail term.
    fn read_list_ext(&mut self, ctx: &mut ReadContext) -> (r: Result<Term, DecodeError>)
        requires
            old(self).wf(),
            old(ctx).wf(),
        ensures
            frame_ok(*old(self), *final(self)),
            ctx_frame(*old(ctx), *final(ctx)),
            outcome_matches(
                dec_with_tag(old(self).src(), old(self).at(), LIST_EXT, old(self).refs()),
                r,
                final(self).at(),
            ),
        decreases old(self).src().len() - old(self).at(), 0int, 0int,
    {
        ctx.bump_reds(1);
        let len = match self.take_u32() {
            Ok(v) => v,
            Err(e) => {
                return Err(e);
            },
        };
        let elements = match self.read_terms_loop(ctx, len as usize) {
            Ok(v) => v,
            Err(e) => {
                return Err(e);
            },
        };
        let tail = match self.read_internal_term(ctx) {
            Ok(t) => t,
            Err(e) => {
                return Err(e);
            },
        };
        let tail_box = Box::new(tail);
        assert((*tail_box)@ == tail@);
        Ok(Term::List(crate::term::List { elements, tail: tail_box }))
    }

    /// Reads the payload of a map: counted key/value pairs.
    fn read_map_ext(&mut self, ctx: &mut ReadContext) -> (r: Result<Term, DecodeError>)
        requires
            old(self).wf(),
            old(ctx).wf(),
        ensures
            frame_ok(*old(self), *final(self)),
            ctx_frame(*old(ctx), *final(ctx)),
            outcome_matches(
                dec_with_tag(old(self).src(), old(self).at(), MAP_EXT, old(self).refs()),
                r,
                final(self).at(),
            ),
        decreases old(self).src().len() - old(self).at(), 0int, 0int,
    {
        ctx.bump_reds(1);
        let arity = match self.take_u32() {
            Ok(v) => v,
            Err(e) => {
                return Err(e);
            },
        };
        match self.read_pairs_loop(ctx, arity as usize) {
            Ok(pairs) => Ok(Term::MapTerm(crate::term::MapTerm { pairs })),
            Err(e) => Err(e),
        }
    }

    /// Reads the payload of an external fun: module, function, arity.
    fn read_export_ext(&mut self, ctx: &mut ReadContext) -> (r: Result<Term, DecodeError>)
        requires
            old(self).wf(),
            old(ctx).wf(),
        ensures
            frame_ok(*old(self), *final(self)),
            ctx_frame(*old(ctx), *final(ctx)),
            outcome_matches(
                dec_with_tag(old(self).src(), old(self).at(), EXPORT_EXT, old(self).refs()),
                r,
                final(self).at(),
            ),
        decreases old(self).src().len() - old(self).at(), 0int, 0int,
    {
        ctx.bump_reds(1);
        let module = match self.read_internal_atom(ctx) {
            Ok(a) => a,
            Err(e) => {
                return Err(e);
            },
        };
        let function = match self.read_internal_atom(ctx) {
            Ok(a) => a,
            Err(e) => {
                return Err(e);
            },
        };
        let arity = match self.read_internal_u8(ctx) {
            Ok(v) => v,
            Err(e) => {
                return Err(e);
            },
        };
        Ok(Term::Fun(crate::term::Fun::ExternalFun(crate::term::ExternalFun {
            module,
            function,
            arity,
        })))
    }

    /// Reads the payload of an old-shape internal fun.
    fn read_fun_ext(&mut self, ctx: &mut ReadContext) -> (r: Result<Term, DecodeError>)
        requires
            old(self).wf(),
            old(ctx).wf(),
        ensures
            frame_ok(*old(self), *final(self)),
            ctx_frame(*old(ctx), *final(ctx)),
            outcome_matches(
                dec_with_tag(old(self).src(), old(self).at(), FUN_EXT, old(self).refs()),
                r,
                final(self).at(),
            ),
        decreases old(self).src().len() - old(self).at(), 0int, 0int,
    {
        ctx.bump_reds(1);
        let num_free = match self.take_u32() {
            Ok(v) => v,
            Err(e) => {
                return Err(e);
            },
        };
        let pid = match self.read_internal_pid(ctx) {
            Ok(p) => p,
            Err(e) => {
                return Err(e);
            },
        };
        let module = match self.read_internal_atom(ctx) {
            Ok(a) => a,
            Err(e) => {
                return Err(e);
            },
        };
        let index = match self.read_internal_i32(ctx) {
            Ok(v) => v,
            Err(e) => {
                return Err(e);
            },
        };
        let uniq = match self.read_internal_i32(ctx) {
            Ok(v) => v,
            Err(e) => {
                return Err(e);
            },
        };
        let free_vars = match self.read_terms_loop(ctx, num_free as usize) {
            Ok(v) => v,
            Err(e) => {
                return Err(e);
            },
        };
        Ok(Term::Fun(crate::term::Fun::InternalFun(crate::term::InternalFun::Old {
            module,
            pid,
            free_vars,
            index,
            uniq,
        })))
    }

    /// Reads the payload of a new-shape internal fun.
    #[verifier::rlimit(100)]
    fn read_new_fun_ext(&mut self, ctx: &mut ReadContext) -> (r: Result<Term, DecodeError>)
        requires
            old(self).wf(),
            old(ctx).wf(),
        ensures
            frame_ok(*old(self), *final(self)),
            ctx_frame(*old(ctx), *final(ctx)),
            outcome_matches(
                dec_with_tag(old(self).src(), old(self).at(), NEW_FUN_EXT, old(self).refs()),
                r,
                final(self).at(),
            ),
        decreases old(self).src().len() - old(self).at(), 0int, 0int,
    {
        ctx.bump_reds(1);
        let _size = match self.take_u32() {
            Ok(v) => v,
            Err(e) => {
                return Err(e);
            },
        };
        let arity = match self.take_u8() {
            Ok(v) => v,
            Err(e) => {
                return Err(e);
            },
        };
        let uniq = match self.take_exact(16) {
            Ok(v) => v,
            Err(e) => {
                return Err(e);
            },
        };
        let index = match self.take_u32() {
            Ok(v) => v,
            Err(e) => {
                return Err(e);
            },
        };
        let num_free = match self.take_u32() {
            Ok(v) => v,
            Err(e) => {
                return Err(e);
            },
        };
        let module = match self.read_internal_atom(ctx) {
            Ok(a) => a,
            Err(e) => {
                return Err(e);
            },
        };
        let old_index = match self.read_internal_i32(ctx) {
            Ok(v) => v,
            Err(e) => {
                return Err(e);
            },
        };
        let old_uniq = match self.read_internal_i32(ctx) {
            Ok(v) => v,
            Err(e) => {
                return Err(e);
            },
        };
        let pid = match self.read_internal_pid(ctx) {
            Ok(p) => p,
            Err(e) => {
                return Err(e);
            },
        };
        let free_vars = match self.read_terms_loop(ctx, num_free as usize) {
            Ok(v) => v,
            Err(e) => {
                return Err(e);
            },
        };
        Ok(Term::Fun(crate::term::Fun::InternalFun(crate::term::InternalFun::New {
            module,
            arity,
            pid,
            free_vars,
            index,
            uniq,
            old_index,
            old_uniq,
        })))
    }
}

impl YieldableDecoder {
    /// Decodes a complete external term: the version byte, then either the
    /// compressed envelope, a distribution header, or one internal term.
    #[verifier::rlimit(60)]
    pub fn read_external_term(&mut self, ctx: &mut ReadContext) -> (r: Result<Term, DecodeError>)
        requires
            old(self).wf(),
            old(ctx).wf(),
        ensures
            final(self).wf(),
            final(ctx).wf(),
            final(self).src() == old(self).src(),
            final(self).at() >= old(self).at(),
            ({
                let s = old(self).src();
                let p = old(self).at();
                if !(has(s, p, 1)) {
                    r == Result::<Term, DecodeError>::Err(DecodeError::Io)
                } else if s[p] != VERSION_MAGIC {
                    r == Result::<Term, DecodeError>::Err(
                        DecodeError::UnsupportedVersion { version: s[p] },
                    )
                } else if !(has(s, p + 1, 1)) {
                    r == Result::<Term, DecodeError>::Err(DecodeError::Io)
                } else if s[p + 1] == COMPRESSED {
                    if !(has(s, p + 2, 4)) {
                        r == Result::<Term, DecodeError>::Err(DecodeError::Io)
                    } else {
                        match inflate_of(s.subrange(p + 6, s.len() as int)) {
                            Some(z) => match dec_term(z, 0, Seq::<Seq<u8>>::empty()) {
                                Ok((tv, _)) => r is Ok && r->Ok_0@ == tv,
                                Err(e) => r is Err && r->Err_0 == e,
                            },
                            None => r == Result::<Term, DecodeError>::Err(DecodeError::Io),
                        }
                    }
                } else if s[p + 1] == DIST_HEADER {
                    match dec_dist_header(s, p + 2, old(ctx).atom_cache.view_slots()) {
                        Ok((newrefs, cache2, j)) => r is Ok && r->Ok_0@ == TermV::Nil
                            && final(self).refs() == old(self).refs() + newrefs
                            && final(ctx).atom_cache.view_slots() == cache2
                            && final(self).at() == j,
                        Err(e) => r is Err && r->Err_0 == e,
                    }
                } else {
                    outcome_matches(
                        dec_with_tag(s, p + 2, s[p + 1], old(self).refs()),
                        r,
                        final(self).at(),
                    )
                }
            }),
    {
        ctx.bump_reds(1);
        let version = match self.take_u8() {
            Ok(v) => v,
            Err(e) => {
                return Err(e);
            },
        };
        if version != VERSION_MAGIC {
            return Err(DecodeError::UnsupportedVersion { version });
        }
        let tag = match self.take_u8() {
            Ok(v) => v,
            Err(e) => {
                return Err(e);
            },
        };
        if tag == COMPRESSED {
            self.read_compressed_term(ctx)
        } else if tag == DIST_HEADER {
            self.read_dist_header(ctx)
        } else {
            self.read_internal_term_with_tag(ctx, tag)
        }
    }

    /// Decodes the compressed envelope: the informational uncompressed size,
    /// then a zlib stream holding one internal term, which a nested decoder
    /// reads with a fresh per-message atom-cache-ref table.
    fn read_compressed_term(&mut self, ctx: &mut ReadContext) -> (r: Result<Term, DecodeError>)
        requires
            old(self).wf(),
            old(ctx).wf(),
        ensures
            final(self).wf(),
            final(ctx).wf(),
            final(self).src() == old(self).src(),
            final(self).at() >= old(self).at(),
            ({
                let s = old(self).src();
                let p = old(self).at();
                if !(has(s, p, 4)) {
                    r == Result::<Term, DecodeError>::Err(DecodeError::Io)
                } else {
                    match inflate_of(s.subrange(p + 4, s.len() as int)) {
                        Some(z) => match dec_term(z, 0, Seq::<Seq<u8>>::empty()) {
                            Ok((tv, _)) => r is Ok && r->Ok_0@ == tv,
                            Err(e) => r is Err && r->Err_0 == e,
                        },
                        None => r == Result::<Term, DecodeError>::Err(DecodeError::Io),
                    }
                }
            }),
    {
        ctx.bump_reds(1);
        let _uncompressed_size = match self.take_u32() {
            Ok(v) => v,
            Err(e) => {
                return Err(e);
            },
        };
        let n = self.bytes.len() - self.pos;
        let rest = match self.take_exact(n) {
            Ok(v) => v,
            Err(e) => {
                return Err(e);
            },
        };
        assert(rest@ == old(self).src().subrange(old(self).at() + 4, old(self).src().len() as int));
        let inflated = match zlib_inflate(rest.as_slice()) {
            Some(v) => v,
            None => {
                return Err(DecodeError::Io);
            },
        };
        let mut inner = YieldableDecoder::new(inflated);
        inner.read_internal_term(ctx)
    }

    /// Parses a distribution header: reads the per-reference flag nibbles,
    /// interns fresh atoms into the connection's cache, resolves old
    /// references from it, and fills the per-message atom-cache-ref table.
    /// Returns the empty list as a placeholder for the body that follows.
    #[verifier::rlimit(100)]
    fn read_dist_header(&mut self, ctx: &mut ReadContext) -> (r: Result<Term, DecodeError>)
        requires
            old(self).wf(),
            old(ctx).wf(),
        ensures
            final(self).wf(),
            final(ctx).wf(),
            final(self).src() == old(self).src(),
            final(self).at() >= old(self).at(),
            final(self).refs().len() >= old(self).refs().len(),
            final(self).refs().take(old(self).refs().len() as int) == old(self).refs(),
            match dec_dist_header(
                old(self).src(),
                old(self).at(),
                old(ctx).atom_cache.view_slots(),
            ) {
                Ok((newrefs, cache2, j)) => r is Ok && r->Ok_0@ == TermV::Nil
                    && final(self).refs() == old(self).refs() + newrefs
                    && final(ctx).atom_cache.view_slots() == cache2 && final(self).at() == j,
                Err(e) => r is Err && r->Err_0 == e,
            },
    {
        let ghost src0 = self.src();
        let ghost at0 = self.at();
        let ghost refs0 = self.refs();
        let ghost cache0 = ctx.atom_cache.view_slots();
        let number_of_atom_cache_refs = match self.take_u8() {
            Ok(v) => v,
            Err(e) => {
                assert(final(self).refs() =~= refs0);
                assert(refs0.take(refs0.len() as int) =~= refs0);
                return Err(e);
            },
        };
        proof {
            assert(refs0.take(refs0.len() as int) =~= refs0);
        }
        if number_of_atom_cache_refs == 0 {
            proof {
                assert(refs0 + Seq::<Seq<u8>>::empty() =~= refs0);
            }
            return Ok(Term::Nil(crate::term::Nil));
        }
        let n = number_of_atom_cache_refs as usize;
        let flags_len = n / 2 + 1;
        let flags = match self.take_exact(flags_len) {
            Ok(v) => v,
            Err(e) => {
                return Err(e);
            },
        };
        let last_flag_byte = flags[flags_len - 1];
        proof {
            assert(flags@.last() == last_flag_byte);
        }
        let long_atoms = if n % 2 == 0 {
            last_flag_byte & 1 == 1
        } else {
            (last_flag_byte >> 4) & 1 == 1
        };
        assert(long_atoms == crate::dec::dist_long_atoms(flags@, n as int));
        let ghost body0 = self.at();
        let mut idx: usize = 0;
        while idx < n
            invariant
                src0 == old(self).src(),
                at0 == old(self).at(),
                refs0 == old(self).refs(),
                cache0 == old(ctx).atom_cache.view_slots(),
                0 < n < 256,
                flags@.len() == n / 2 + 1,
                self.wf(),
                ctx.wf(),
                self.src() == src0,
                self.at() >= at0,
                idx <= n,
                self.refs().len() == refs0.len() + idx,
                self.refs().take(refs0.len() as int) == refs0,
                dec_dist_header(src0, at0, cache0) == (match crate::dec::dec_dist_refs(
                    src0,
                    self.at(),
                    idx as int,
                    n as int,
                    flags@,
                    long_atoms,
                    ctx.atom_cache.view_slots(),
                ) {
                    Ok((rest, c2, j)) => Ok::<_, DecodeError>(
                        (self.refs().skip(refs0.len() as int) + rest, c2, j),
                    ),
                    Err(e) => Err(e),
                }),
            decreases n - idx,
        {
            proof {
                assert(idx / 2 < n / 2 + 1) by (nonlinear_arith)
                    requires
                        0 <= idx < n,
                ;
            }
            let ghost cur = self.at();
            let ghost pre = self.refs().skip(refs0.len() as int);
            let ghost cache_now = ctx.atom_cache.view_slots();
            let ghost step = crate::dec::dec_dist_refs(
                src0,
                cur,
                idx as int,
                n as int,
                flags@,
                long_atoms,
                cache_now,
            );
            let nibble = if idx % 2 == 0 {
                flags[idx / 2] >> 4
            } else {
                flags[idx / 2] & 0x0f
            };
            assert(nibble == crate::dec::dist_nibble(flags@, idx as int));
            let new_cache_entry_flag = nibble & 0x08 != 0;
            assert(nibble & 0x07 < 8) by (bit_vector);
            let segment_index = (nibble & 0x07) as usize;
            let internal_segment_index = match self.take_u8() {
                Ok(v) => v,
                Err(e) => {
                    assert(step == Err::<(Seq<Seq<u8>>, Seq<Option<Seq<u8>>>, int), DecodeError>(
                        DecodeError::Io,
                    ));
                    return Err(e);
                },
            };
            let slot = segment_index * 256 + (internal_segment_index as usize);
            assert(slot < 2048);
            assert(slot as int == ((nibble & 0x07) as int) * 256 + src0[cur]);
            let name: Atom = if new_cache_entry_flag {
                let atom_len: usize = if long_atoms {
                    match self.take_u16() {
                        Ok(v) => v as usize,
                        Err(e) => {
                            assert(step == Err::<
                                (Seq<Seq<u8>>, Seq<Option<Seq<u8>>>, int),
                                DecodeError,
                            >(DecodeError::Io));
                            return Err(e);
                        },
                    }
                } else {
                    match self.take_u8() {
                        Ok(v) => v as usize,
                        Err(e) => {
                            assert(step == Err::<
                                (Seq<Seq<u8>>, Seq<Option<Seq<u8>>>, int),
                                DecodeError,
                            >(DecodeError::Io));
                            return Err(e);
                        },
                    }
                };
                let atom_text = match self.take_exact(atom_len) {
                    Ok(v) => v,
                    Err(e) => {
                        assert(step == Err::<(Seq<Seq<u8>>, Seq<Option<Seq<u8>>>, int), DecodeError>(
                            DecodeError::Io,
                        ));
                        return Err(e);
                    },
                };
                if !check_utf8(atom_text.as_slice()) {
                    assert(step == Err::<(Seq<Seq<u8>>, Seq<Option<Seq<u8>>>, int), DecodeError>(
                        DecodeError::Io,
                    ));
                    return Err(DecodeError::Io);
                }
                let atom = Atom { name: atom_text };
                let fresh = AtomRef::new(atom.clone());
                match ctx.atom_cache.insert(slot, fresh) {
                    Ok(_) => (),
                    Err(_) => {
                        proof {
                            assert(false);
                        }
                    },
                }
                atom
            } else {
                match ctx.atom_cache.get(slot) {
                    Ok(Some(found)) => found.to_owned_atom(),
                    Ok(None) => {
                        assert(cache_now[slot as int] is None);
                        assert(step == Err::<(Seq<Seq<u8>>, Seq<Option<Seq<u8>>>, int), DecodeError>(
                            DecodeError::Io,
                        ));
                        return Err(DecodeError::Io);
                    },
                    Err(_) => {
                        proof {
                            assert(false);
                        }
                        return Err(DecodeError::Io);
                    },
                }
            };
            self.atom_cache_refs.push(name);
            proof {
                assert(self.refs() =~= old(self).refs().take(refs0.len() as int) + pre + seq![
                    self.atom_cache_refs@[self.atom_cache_refs@.len() - 1].name@,
                ]);
                assert(self.refs().take(refs0.len() as int) =~= refs0);
                assert(self.refs().skip(refs0.len() as int) =~= pre + seq![
                    self.atom_cache_refs@[self.atom_cache_refs@.len() - 1].name@,
                ]);
                let inner = crate::dec::dec_dist_refs(
                    src0,
                    self.at(),
                    idx + 1,
                    n as int,
                    flags@,
                    long_atoms,
                    ctx.atom_cache.view_slots(),
                );
                if inner is Ok {
                    let rest = inner->Ok_0.0;
                    let nm = self.atom_cache_refs@[self.atom_cache_refs@.len() - 1].name@;
                    assert((pre + seq![nm]) + rest =~= pre + (seq![nm] + rest));
                }
            }
            idx = idx + 1;
        }
        proof {
            assert(self.refs().skip(refs0.len() as int) + Seq::<Seq<u8>>::empty() =~= self.refs()
                .skip(refs0.len() as int));
            assert(refs0 + self.refs().skip(refs0.len() as int) =~= self.refs());
        }
        Ok(Term::Nil(crate::term::Nil))
    }
}


/// The sign a big integer's sign byte names: 0 is plus, 1 is minus, anything
/// else escapes the domain.
pub fn byte_to_sign(b: u8) -> (r: Result<crate::term::Sign, DecodeError>)
    ensures
        b == 0 ==> r == Result::<crate::term::Sign, DecodeError>::Ok(crate::term::Sign::Plus),
        b == 1 ==> r == Result::<crate::term::Sign, DecodeError>::Ok(crate::term::Sign::Minus),
        b > 1 ==> r == Result::<crate::term::Sign, DecodeError>::Err(
            DecodeError::OutOfRange { value: b as u32, limit: 2 },
        ),
{
    if b == 0 {
        Ok(crate::term::Sign::Plus)
    } else if b == 1 {
        Ok(crate::term::Sign::Minus)
    } else {
        Err(DecodeError::OutOfRange { value: b as u32, limit: 2 })
    }
}



/// The atom inside a term, or the unexpected-type error.
pub fn term_into_atom(t: Term) -> (r: Result<Atom, DecodeError>)
    ensures
        (t matches Term::Atom(_)) ==> (r is Ok && r->Ok_0 == t->Atom_0),
        !(t matches Term::Atom(_)) ==> r == Result::<Atom, DecodeError>::Err(
            DecodeError::UnexpectedType { expected: ExpectedKind::Atom },
        ),
{
    match t {
        Term::Atom(a) => Ok(a),
        _ => Err(DecodeError::UnexpectedType { expected: ExpectedKind::Atom }),
    }
}

/// The fixed integer inside a term, or the unexpected-type error.
pub fn term_into_i32(t: Term) -> (r: Result<i32, DecodeError>)
    ensures
        (t matches Term::Number(crate::term::Number::FixInteger(f))) ==> r == Result::<
            i32,
            DecodeError,
        >::Ok(t->Number_0->FixInteger_0.value),
        !(t matches Term::Number(crate::term::Number::FixInteger(_))) ==> r == Result::<
            i32,
            DecodeError,
        >::Err(DecodeError::UnexpectedType { expected: ExpectedKind::Integer }),
{
    match t {
        Term::Number(crate::term::Number::FixInteger(f)) => Ok(f.value),
        _ => Err(DecodeError::UnexpectedType { expected: ExpectedKind::Integer }),
    }
}

/// The pid inside a term, or the unexpected-type error.
pub fn term_into_pid(t: Term) -> (r: Result<crate::term::Pid, DecodeError>)
    ensures
        (t matches Term::Pid(_)) ==> (r is Ok && r->Ok_0 == t->Pid_0),
        !(t matches Term::Pid(_)) ==> r == Result::<crate::term::Pid, DecodeError>::Err(
            DecodeError::UnexpectedType { expected: ExpectedKind::Pid },
        ),
{
    match t {
        Term::Pid(p) => Ok(p),
        _ => Err(DecodeError::UnexpectedType { expected: ExpectedKind::Pid }),
    }
}

} // verus!
