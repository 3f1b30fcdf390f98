//! The distribution capability flags a connection negotiates; the codec
//! cares mainly for the atom-cache and float bits.
use vstd::prelude::*;

verus! {

pub const DFLAG_PUBLISHED: u64 = 0x1;
pub const DFLAG_ATOM_CACHE: u64 = 0x2;
pub const DFLAG_EXTENDED_REFERENCES: u64 = 0x4;
pub const DFLAG_DIST_MONITOR: u64 = 0x8;
pub const DFLAG_FUN_TAGS: u64 = 0x10;
pub const DFLAG_DIST_MONITOR_NAME: u64 = 0x20;
pub const DFLAG_HIDDEN_ATOM_CACHE: u64 = 0x40;
pub const DFLAG_NEW_FUN_TAGS: u64 = 0x80;
pub const DFLAG_EXTENDED_PIDS_PORTS: u64 = 0x100;
pub const DFLAG_EXPORT_PTR_TAG: u64 = 0x200;
pub const DFLAG_BIT_BINARIES: u64 = 0x400;
pub const DFLAG_NEW_FLOATS: u64 = 0x800;
pub const DFLAG_UNICODE_IO: u64 = 0x1000;
pub const DFLAG_DIST_HDR_ATOM_CACHE: u64 = 0x2000;
pub const DFLAG_SMALL_ATOM_TAGS: u64 = 0x4000;
pub const DFLAG_ETS_COMPRESSED: u64 = 0x8000;
pub const DFLAG_UTF8_ATOMS: u64 = 0x10000;
pub const DFLAG_MAP_TAG: u64 = 0x20000;
pub const DFLAG_BIG_CREATION: u64 = 0x40000;
pub const DFLAG_SEND_SENDER: u64 = 0x80000;
pub const DFLAG_BIG_SEQTRACE_LABELS: u64 = 0x100000;
pub const DFLAG_PENDING_CONNECT: u64 = 0x200000;
pub const DFLAG_EXIT_PAYLOAD: u64 = 0x400000;
pub const DFLAG_FRAGMENTS: u64 = 0x800000;
pub const DFLAG_HANDSHAKE_23: u64 = 0x1000000;
pub const DFLAG_UNLINK_ID: u64 = 0x2000000;
pub const DFLAG_MANDATORY_25_DIGEST: u64 = 0x4000000;
pub const DFLAG_SPAWN: u64 = 0x100000000;
pub const DFLAG_NAME_ME: u64 = 0x200000000;
pub const DFLAG_V4_NC: u64 = 0x400000000;
pub const DFLAG_ALIAS: u64 = 0x800000000;

/// In one-shot encoding the deterministic bit reuses the atom-cache bit.
pub const DFLAG_DETERMINISTIC: u64 = 0x2;

/// The flags the plain one-shot encoder enables: the 64-bit float format.
pub const TERM_TO_BINARY_DFLAGS: u64 = 0x800;

/// The flags a node must offer for a v25 connection.
pub const DFLAG_DIST_MANDATORY_25: u64 = 0x1070f94;

/// The flags a v26 connection adds to the mandatory set.
pub const DFLAG_DIST_MANDATORY_26: u64 = 0x402000000;

/// The whole mandatory set.
pub const DFLAG_DIST_MANDATORY: u64 = 0x403070f94;

/// The mandatory v25 set is the union of its member bits.
pub proof fn lemma_mandatory_25_bits()
    ensures
        DFLAG_DIST_MANDATORY_25 == (DFLAG_EXTENDED_REFERENCES | DFLAG_FUN_TAGS
            | DFLAG_EXTENDED_PIDS_PORTS | DFLAG_UTF8_ATOMS | DFLAG_NEW_FUN_TAGS
            | DFLAG_BIG_CREATION | DFLAG_NEW_FLOATS | DFLAG_MAP_TAG | DFLAG_EXPORT_PTR_TAG
            | DFLAG_BIT_BINARIES | DFLAG_HANDSHAKE_23),
        DFLAG_DIST_MANDATORY == (DFLAG_DIST_MANDATORY_25 | DFLAG_DIST_MANDATORY_26),
{
    assert(0x1070f94u64 == (0x4u64 | 0x10 | 0x100 | 0x10000 | 0x80 | 0x40000 | 0x800 | 0x20000
        | 0x200 | 0x400 | 0x1000000)) by (bit_vector);
    assert(0x403070f94u64 == (0x1070f94u64 | 0x402000000u64)) by (bit_vector);
}

} // verus!
