//! Decoding the primitive wire forms and the error taxonomy.
use erlang_etf::atom_cache::AtomCache;
use erlang_etf::decoder::{ReadContext, YieldableDecoder};
use erlang_etf::errors::DecodeError;
use erlang_etf::decoder::{byte_to_sign, term_into_atom, term_into_i32, term_into_pid};
use erlang_etf::process::Process;
use erlang_etf::term::{Number, Sign, Term};

fn decode(bytes: Vec<u8>) -> Result<Term, DecodeError> {
    let mut d = YieldableDecoder::new(bytes);
    let mut ctx = ReadContext::new(Process::yielding(), AtomCache::new());
    d.read_external_term(&mut ctx)
}

fn fix(v: i32) -> Term {
    Term::Number(Number::FixInteger(erlang_etf::term::FixInteger { value: v }))
}

#[test]
fn small_integer() {
    let t = decode(vec![131, 97, 42]).unwrap();
    assert_eq!(t, fix(42));
}

#[test]
fn integer() {
    let t = decode(vec![131, 98, 0, 0, 1, 44]).unwrap();
    assert_eq!(t, fix(300));
    let t = decode(vec![131, 98, 255, 255, 255, 255]).unwrap();
    assert_eq!(t, fix(-1));
}

#[test]
fn nil() {
    let t = decode(vec![131, 106]).unwrap();
    assert_eq!(t, Term::Nil(erlang_etf::term::Nil));
}

#[test]
fn string_list() {
    let t = decode(vec![131, 107, 0, 10, 1, 2, 3, 4, 5, 6, 7, 8, 9, 10]).unwrap();
    match t {
        Term::List(l) => {
            assert_eq!(l.elements.len(), 10);
            for (i, e) in l.elements.iter().enumerate() {
                assert_eq!(*e, fix(i as i32 + 1));
            }
            assert_eq!(*l.tail, Term::Nil(erlang_etf::term::Nil));
        }
        other => panic!("expected a list, got {:?}", other),
    }
}

#[test]
fn counted_list_of_integers() {
    let mut buf = vec![131, 108, 0, 0, 0, 11];
    for v in 300i32..311 {
        buf.push(98);
        buf.extend_from_slice(&v.to_be_bytes());
    }
    buf.push(106);
    let t = decode(buf).unwrap();
    match t {
        Term::List(l) => {
            assert_eq!(l.elements.len(), 11);
            assert_eq!(l.elements[0], fix(300));
            assert_eq!(l.elements[10], fix(310));
            assert!(!l.is_improper_list());
        }
        other => panic!("expected a list, got {:?}", other),
    }
}

#[test]
fn atoms_in_both_encodings() {
    // ATOM_EXT: 16-bit length, Latin-1 text.
    let t = decode(vec![131, 100, 0, 3, 114, 101, 103]).unwrap();
    assert_eq!(t, Term::Atom(erlang_etf::term::Atom { name: b"reg".to_vec() }));
    // SMALL_ATOM_UTF8_EXT.
    let t = decode(vec![131, 119, 2, 0xce, 0xa9]).unwrap();
    assert_eq!(t, Term::Atom(erlang_etf::term::Atom { name: vec![0xce, 0xa9] }));
    // A Latin-1 byte above 0x7f is transcoded to its two-byte form.
    let t = decode(vec![131, 100, 0, 1, 0xa9]).unwrap();
    assert_eq!(t, Term::Atom(erlang_etf::term::Atom { name: vec![0xc2, 0xa9] }));
}

#[test]
fn new_float_finite() {
    let t = decode(vec![131, 70, 63, 243, 51, 51, 51, 51, 51, 51]).unwrap();
    match t {
        Term::Number(Number::Float(f)) => {
            assert_eq!(f.bits, 0x3ff3333333333333);
            assert_eq!(f64::from_bits(f.bits), 1.2);
        }
        other => panic!("expected a float, got {:?}", other),
    }
}

#[test]
fn new_float_non_finite_is_rejected() {
    // Positive infinity.
    let r = decode(vec![131, 70, 0x7f, 0xf0, 0, 0, 0, 0, 0, 0]);
    assert_eq!(r.unwrap_err(), DecodeError::NonFiniteFloat);
    // A NaN pattern.
    let r = decode(vec![131, 70, 0x7f, 0xf8, 0, 0, 0, 0, 0, 1]);
    assert_eq!(r.unwrap_err(), DecodeError::NonFiniteFloat);
}

#[test]
fn small_big_and_large_big() {
    // 1000000 = 0x0F4240, little-endian magnitude 40 42 0F.
    let t = decode(vec![131, 110, 3, 0, 0x40, 0x42, 0x0f]).unwrap();
    match t {
        Term::Number(Number::Bignum(b)) => {
            assert_eq!(b.sign, erlang_etf::term::Sign::Plus);
            assert_eq!(b.magnitude, vec![0x40, 0x42, 0x0f]);
        }
        other => panic!("expected a bignum, got {:?}", other),
    }
    // Negative with a trailing zero byte: the magnitude is normalized.
    let t = decode(vec![131, 111, 0, 0, 0, 4, 1, 7, 0, 0, 0]).unwrap();
    match t {
        Term::Number(Number::Bignum(b)) => {
            assert_eq!(b.sign, erlang_etf::term::Sign::Minus);
            assert_eq!(b.magnitude, vec![7]);
        }
        other => panic!("expected a bignum, got {:?}", other),
    }
}

#[test]
fn bad_version_magic() {
    let r = decode(vec![130, 97, 1]);
    assert_eq!(r.unwrap_err(), DecodeError::UnsupportedVersion { version: 130 });
}

#[test]
fn unknown_tag() {
    let r = decode(vec![131, 200]);
    assert_eq!(r.unwrap_err(), DecodeError::UnknownTag { tag: 200 });
}

#[test]
fn truncated_input() {
    assert_eq!(decode(vec![]).unwrap_err(), DecodeError::Io);
    assert_eq!(decode(vec![131]).unwrap_err(), DecodeError::Io);
    assert_eq!(decode(vec![131, 97]).unwrap_err(), DecodeError::Io);
    assert_eq!(decode(vec![131, 107, 0, 10, 1, 2]).unwrap_err(), DecodeError::Io);
}

#[test]
fn bad_sign_byte() {
    let r = decode(vec![131, 110, 1, 7, 42]);
    assert_eq!(r.unwrap_err(), DecodeError::OutOfRange { value: 7, limit: 2 });
}

#[test]
fn legacy_decimal_float_is_refused() {
    let mut buf = vec![131, 99];
    buf.extend_from_slice(&[0u8; 31]);
    assert_eq!(decode(buf).unwrap_err(), DecodeError::Io);
}

#[test]
fn cache_ref_without_table() {
    let r = decode(vec![131, 82, 0]);
    assert_eq!(r.unwrap_err(), DecodeError::Io);
}

#[test]
fn byte_to_sign_values() {
    assert_eq!(byte_to_sign(0).unwrap(), Sign::Plus);
    assert_eq!(byte_to_sign(1).unwrap(), Sign::Minus);
    assert!(byte_to_sign(2).is_err());
}

#[test]
fn term_conversions() {
    let a = term_into_atom(Term::Atom(erlang_etf::term::Atom { name: b"x".to_vec() })).unwrap();
    assert_eq!(a.name, b"x".to_vec());
    assert!(term_into_atom(fix(1)).is_err());
    assert_eq!(term_into_i32(fix(7)).unwrap(), 7);
    assert!(term_into_i32(Term::Nil(erlang_etf::term::Nil)).is_err());
    assert!(term_into_pid(fix(1)).is_err());
}
