//! The distribution header: flag nibbles, fresh and old cache entries, and
//! the per-message atom-cache-ref table the body dereferences.
use erlang_etf::atom_cache::{AtomCache, AtomCacheError, AtomRef};
use erlang_etf::decoder::{ReadContext, YieldableDecoder};
use erlang_etf::process::Process;
use erlang_etf::term::{Atom, Term};

fn preloaded_cache() -> AtomCache {
    let mut cache = AtomCache::new();
    cache.insert(10, AtomRef::new(Atom { name: b"atom10".to_vec() })).unwrap();
    cache.insert(238, AtomRef::new(Atom { name: b"atom238".to_vec() })).unwrap();
    cache.insert(1029, AtomRef::new(Atom { name: b"atom1029".to_vec() })).unwrap();
    cache
}

#[test]
fn header_with_five_refs() {
    let buf = vec![
        131, 68, 5, 4, 137, 9, 10, 5, 236, 3, b'r', b'e', b'g', 9, 4, b'c', b'a', b'l', b'l',
        238, 13, b's', b'e', b't', b'_', b'g', b'e', b't', b'_', b's', b't', b'a', b't', b'e',
    ];
    let mut d = YieldableDecoder::new(buf);
    let mut ctx = ReadContext::new(Process::yielding(), preloaded_cache());
    let t = d.read_external_term(&mut ctx).unwrap();
    assert_eq!(t, Term::Nil(erlang_etf::term::Nil));
    assert_eq!(d.atom_cache_refs_len(), 5);
    let names: Vec<&[u8]> = (0..5)
        .map(|i| d.get_atom_cache_ref(i).unwrap().name.as_slice())
        .collect();
    assert_eq!(
        names,
        vec![
            b"atom10".as_slice(),
            b"atom1029".as_slice(),
            b"reg".as_slice(),
            b"call".as_slice(),
            b"atom238".as_slice(),
        ]
    );
    // The two fresh entries were committed to the connection's cache.
    assert_eq!(ctx.atom_cache.get(236).unwrap().unwrap().to_owned_atom().name, b"reg".to_vec());
    assert_eq!(ctx.atom_cache.get(265).unwrap().unwrap().to_owned_atom().name, b"call".to_vec());
}

#[test]
fn body_dereferences_the_ref_table() {
    // One fresh entry at slot 5, then a body atom naming position 0.
    let buf = vec![131, 68, 1, 0x80, 5, 3, b'f', b'o', b'o', 82, 0];
    let mut d = YieldableDecoder::new(buf);
    let mut ctx = ReadContext::new(Process::yielding(), AtomCache::new());
    let header = d.read_external_term(&mut ctx).unwrap();
    assert_eq!(header, Term::Nil(erlang_etf::term::Nil));
    assert_eq!(d.atom_cache_refs_len(), 1);
    let body = d.read_internal_term(&mut ctx).unwrap();
    assert_eq!(body, Term::Atom(Atom { name: b"foo".to_vec() }));
}

#[test]
fn long_atoms_use_a_two_byte_length() {
    // One fresh entry with the long-atoms bit set: the atom length travels
    // as sixteen bits, and the segment bits place the slot past 255.
    let buf = vec![131, 68, 1, 0x90, 5, 0, 3, b'f', b'o', b'o'];
    let mut d = YieldableDecoder::new(buf);
    let mut ctx = ReadContext::new(Process::yielding(), AtomCache::new());
    let t = d.read_external_term(&mut ctx).unwrap();
    assert_eq!(t, Term::Nil(erlang_etf::term::Nil));
    assert_eq!(d.atom_cache_refs_len(), 1);
    assert_eq!(d.get_atom_cache_ref(0).unwrap().name, b"foo".to_vec());
    assert_eq!(ctx.atom_cache.get(261).unwrap().unwrap().to_owned_atom().name, b"foo".to_vec());
}

#[test]
fn missing_old_entry_fails() {
    // An old-entry reference into an empty cache slot.
    let buf = vec![131, 68, 1, 0x00, 5];
    let mut d = YieldableDecoder::new(buf);
    let mut ctx = ReadContext::new(Process::yielding(), AtomCache::new());
    assert!(d.read_external_term(&mut ctx).is_err());
}

#[test]
fn header_with_no_refs_is_a_placeholder() {
    let mut d = YieldableDecoder::new(vec![131, 68, 0]);
    let mut ctx = ReadContext::new(Process::yielding(), AtomCache::new());
    let t = d.read_external_term(&mut ctx).unwrap();
    assert_eq!(t, Term::Nil(erlang_etf::term::Nil));
    assert_eq!(d.atom_cache_refs_len(), 0);
}

#[test]
fn cache_slot_operations() {
    let mut cache = AtomCache::new();
    assert!(cache.is_slot_empty(0).unwrap());
    let prior = cache.insert(0, AtomRef::new(Atom { name: b"x".to_vec() })).unwrap();
    assert!(prior.is_none());
    assert!(!cache.is_slot_empty(0).unwrap());
    let replaced = cache.insert(0, AtomRef::new(Atom { name: b"y".to_vec() })).unwrap();
    assert_eq!(replaced.unwrap().to_owned_atom().name, b"x".to_vec());
    let removed = cache.remove(0).unwrap();
    assert_eq!(removed.unwrap().to_owned_atom().name, b"y".to_vec());
    assert!(cache.is_slot_empty(0).unwrap());
    // The last addressable slot works; the first out-of-range index fails.
    assert!(cache.insert(2047, AtomRef::new(Atom { name: b"z".to_vec() })).is_ok());
    assert_eq!(
        cache.get(2048).unwrap_err(),
        AtomCacheError::OutOfRange { index: 2048, limit: 2048 }
    );
}
