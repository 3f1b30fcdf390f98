//! External Term Format codec: a tag-dispatched reader and writer for the
//! term universe of an actor-runtime ecosystem, together with the atom
//! interning table, the distribution atom cache, and the cooperative
//! reduction-budget accounting that the codec charges as it works.
pub mod atom_cache;
pub mod dec;
pub mod decoder;
pub mod dist;
pub mod enc;
pub mod encoder;
pub mod env;
pub mod errors;
pub mod external;
pub mod laws;
pub mod process;
pub mod task;
pub mod term;
pub mod wire;
