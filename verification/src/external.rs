//! Wire-format tag bytes and size constants of the external term format.
use vstd::prelude::*;

verus! {

/// Tag `a`: unsigned byte integer.
pub const SMALL_INTEGER_EXT: u8 = 97;
/// Tag `b`: big-endian 32-bit signed integer.
pub const INTEGER_EXT: u8 = 98;
/// Tag `c`: 31-byte decimal string float.
pub const FLOAT_EXT: u8 = 99;
/// Tag `d`: atom with a 16-bit length and Latin-1 text.
pub const ATOM_EXT: u8 = 100;
/// Tag `s`: atom with an 8-bit length and Latin-1 text.
pub const SMALL_ATOM_EXT: u8 = 115;
/// Tag `e`: reference with a single id word.
pub const REFERENCE_EXT: u8 = 101;
/// Tag `r`: reference with counted id words and an 8-bit creation.
pub const NEW_REFERENCE_EXT: u8 = 114;
/// Tag `Z`: reference with counted id words and a 32-bit creation.
pub const NEWER_REFERENCE_EXT: u8 = 90;
/// Tag `f`: port with an 8-bit creation.
pub const PORT_EXT: u8 = 102;
/// Tag `Y`: port with a 32-bit creation.
pub const NEW_PORT_EXT: u8 = 89;
/// Tag `F`: big-endian IEEE-754 binary64 float.
pub const NEW_FLOAT_EXT: u8 = 70;
/// Tag `g`: pid with an 8-bit creation.
pub const PID_EXT: u8 = 103;
/// Tag `X`: pid with a 32-bit creation.
pub const NEW_PID_EXT: u8 = 88;
/// Tag `h`: tuple with an 8-bit arity.
pub const SMALL_TUPLE_EXT: u8 = 104;
/// Tag `i`: tuple with a 32-bit arity.
pub const LARGE_TUPLE_EXT: u8 = 105;
/// Tag `j`: the empty list.
pub const NIL_EXT: u8 = 106;
/// Tag `k`: list of byte-sized integers.
pub const STRING_EXT: u8 = 107;
/// Tag `l`: list with counted elements and an explicit tail.
pub const LIST_EXT: u8 = 108;
/// Tag `m`: whole-byte binary.
pub const BINARY_EXT: u8 = 109;
/// Tag `M`: binary with a trailing partial byte.
pub const BIT_BINARY_EXT: u8 = 77;
/// Tag `n`: big integer with an 8-bit magnitude length.
pub const SMALL_BIG_EXT: u8 = 110;
/// Tag `o`: big integer with a 32-bit magnitude length.
pub const LARGE_BIG_EXT: u8 = 111;
/// Tag `p`: internal fun, new shape.
pub const NEW_FUN_EXT: u8 = 112;
/// Tag `q`: external fun (module:function/arity).
pub const EXPORT_EXT: u8 = 113;
/// Tag `t`: map with counted key/value pairs.
pub const MAP_EXT: u8 = 116;
/// Tag `u`: internal fun, old shape.
pub const FUN_EXT: u8 = 117;
/// Tag `v`: atom with a 16-bit length and UTF-8 text.
pub const ATOM_UTF8_EXT: u8 = 118;
/// Tag `w`: atom with an 8-bit length and UTF-8 text.
pub const SMALL_ATOM_UTF8_EXT: u8 = 119;
/// Tag `x`: port with a 64-bit id.
pub const V4_PORT_EXT: u8 = 120;
/// Tag `D`: distribution header carrying atom-cache updates.
pub const DIST_HEADER: u8 = 68;
/// Tag `R`: one-byte index into the per-message atom-cache-ref table.
pub const ATOM_CACHE_REF: u8 = 82;
/// Tag `P`: compressed envelope around one term.
pub const COMPRESSED: u8 = 80;

/// Leading byte of every external term.
pub const VERSION_MAGIC: u8 = 131;

/// Total number of atom-cache slots.
pub const ERTS_ATOM_CACHE_SIZE: usize = 2048;
/// Number of atom-cache slots that the reference protocol can address.
pub const ERTS_USE_ATOM_CACHE_SIZE: usize = 2039;
/// Greatest number of atom-cache refs one message may declare.
pub const ERTS_MAX_INTERNAL_ATOM_CACHE_ENTRIES: usize = 255;
/// Default starting capacity of the atom table.
pub const DEFAULT_ATOM_TABLE_CAPACITY: usize = 4096;
/// Reductions granted to a task per time slice.
pub const CONTEXT_REDS: isize = 4000;

} // verus!
