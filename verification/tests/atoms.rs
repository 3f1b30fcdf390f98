//! The atom table: interning, canonicalization across source encodings, the
//! hash, and the ordering prefix.
use erlang_etf::env::{atom_hashpjw, atom_ord0, AtomEncoding, AtomTable, Env};

#[test]
fn hash_of_empty_name_is_zero() {
    assert_eq!(atom_hashpjw(b""), 0);
}

#[test]
fn hash_spot_checks() {
    // The shift-by-four mix over the bytes of the name.
    assert_eq!(atom_hashpjw(b"foo"), 0x6d5f);
    assert_eq!(atom_hashpjw(b"erlang"), 0x06c9_2847);
}

#[test]
fn hash_is_deterministic() {
    assert_eq!(atom_hashpjw(b"set_get_state"), atom_hashpjw(b"set_get_state"));
    assert_ne!(atom_hashpjw(b"foo"), atom_hashpjw(b"bar"));
}

#[test]
fn ord0_packs_the_first_four_bytes() {
    assert_eq!(atom_ord0(b"foo"), (102 << 23) + (111 << 15) + (111 << 7));
    assert_eq!(atom_ord0(b""), 0);
    assert_eq!(atom_ord0(b"abcdef"), (97 << 23) + (98 << 15) + (99 << 7) + (100 >> 1));
}

#[test]
fn intern_deduplicates_by_canonical_form() {
    let mut table = AtomTable::new();
    let a = table.intern(AtomEncoding::Utf8, b"foo".to_vec());
    let b = table.intern(AtomEncoding::Utf8, b"foo".to_vec());
    let c = table.intern(AtomEncoding::Utf8, b"bar".to_vec());
    assert_eq!(table.len(), 2);
    assert_eq!(a.slot_index(), b.slot_index());
    assert_ne!(a.slot_index(), c.slot_index());
    assert_eq!(a.hash_value(), b.hash_value());
}

#[test]
fn latin1_and_utf8_sources_share_the_canonical_entry() {
    // 0xa9 in Latin-1 names the same character as its two-byte UTF-8 form.
    let mut table = AtomTable::new();
    let from_latin1 = table.intern_latin1(vec![0xa9]);
    let from_utf8 = table.intern_utf8(vec![0xc2, 0xa9]);
    assert_eq!(table.len(), 1);
    assert_eq!(from_latin1.slot_index(), from_utf8.slot_index());
    assert_eq!(from_latin1.hash_value(), from_utf8.hash_value());
    let entry = table.get_entry(from_latin1).unwrap();
    assert_eq!(entry.iter_bytes(), vec![0xc2, 0xa9]);
    assert!(entry.needs_latin1_encoding());
}

#[test]
fn ascii_sources_agree_under_both_encodings() {
    let mut table = AtomTable::new();
    let a = table.intern_latin1(b"omega".to_vec());
    let b = table.intern_utf8(b"omega".to_vec());
    assert_eq!(table.len(), 1);
    assert_eq!(a.slot_index(), b.slot_index());
    assert_eq!(a.hash_value().0, atom_hashpjw(b"omega"));
    assert_eq!(a.entry().ord0(), atom_ord0(b"omega"));
}

#[test]
fn table_lookup_and_growth() {
    let mut table = AtomTable::with_capacity(2);
    assert!(table.capacity() >= 2);
    assert!(table.is_empty());
    let a = table.intern_utf8(b"a".to_vec());
    let _b = table.intern_utf8(b"b".to_vec());
    let _c = table.intern_utf8(b"c".to_vec());
    assert_eq!(table.len(), 3);
    assert!(table.capacity() >= 3);
    assert!(!table.is_empty());
    assert!(table.contains(a.clone()));
    assert_eq!(table.get(a).unwrap(), b"a");
}

#[test]
fn env_interns_through_the_table() {
    let mut env = Env::new();
    let a0 = env.make_atom(b"hello".to_vec());
    let a1 = env.make_atom_utf8(b"hello".to_vec());
    let a2 = env.make_atom_latin1(b"hello".to_vec());
    assert_eq!(a0.slot_index(), a1.slot_index());
    assert_eq!(a0.slot_index(), a2.slot_index());
}

#[test]
fn encoding_queries() {
    assert!(AtomEncoding::Latin1.is_latin1());
    assert!(!AtomEncoding::Latin1.is_utf8());
    assert!(AtomEncoding::Utf8.is_utf8());
    assert_eq!(AtomEncoding::default(), AtomEncoding::Utf8);
}
