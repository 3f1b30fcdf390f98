//! Encoding: the version byte, the size estimator, and the round trip
//! through decode for every term kind.
use erlang_etf::atom_cache::AtomCache;
use erlang_etf::decoder::{ReadContext, YieldableDecoder};
use erlang_etf::encoder::{encode, SizeEncoder};
use erlang_etf::errors::DecodeError;
use erlang_etf::process::Process;
use erlang_etf::term::{
    Atom, Bignum, Bitstring, ExternalFun, FixInteger, Float, Fun, InternalFun, List, MapTerm, Nil,
    Number, Pid, Port, Reference, Sign, Term, Tuple,
};

fn decode(bytes: Vec<u8>) -> Result<Term, DecodeError> {
    let mut d = YieldableDecoder::new(bytes);
    let mut ctx = ReadContext::new(Process::yielding(), AtomCache::new());
    d.read_external_term(&mut ctx)
}

fn enc(t: &Term) -> Vec<u8> {
    let mut p = Process::blocking();
    encode(t, &mut p)
}

fn atom(name: &[u8]) -> Atom {
    Atom { name: name.to_vec() }
}

fn fix(v: i32) -> Term {
    Term::Number(Number::FixInteger(FixInteger { value: v }))
}

fn pid() -> Pid {
    Pid { node: atom(b"nonode@nohost"), id: 79, serial: 0, creation: 0 }
}

fn check_roundtrip(t: Term) {
    let bytes = enc(&t);
    assert_eq!(bytes[0], 131);
    assert_eq!(SizeEncoder::encode(&t), bytes.len());
    let back = decode(bytes).unwrap();
    assert_eq!(back, t);
}

#[test]
fn roundtrip_integers() {
    check_roundtrip(fix(0));
    check_roundtrip(fix(42));
    check_roundtrip(fix(255));
    check_roundtrip(fix(256));
    check_roundtrip(fix(-1));
    check_roundtrip(fix(i32::MIN));
    check_roundtrip(fix(i32::MAX));
}

#[test]
fn roundtrip_bignums() {
    check_roundtrip(Term::Number(Number::Bignum(Bignum {
        sign: Sign::Plus,
        magnitude: vec![],
    })));
    check_roundtrip(Term::Number(Number::Bignum(Bignum {
        sign: Sign::Minus,
        magnitude: vec![0x40, 0x42, 0x0f],
    })));
    // A magnitude longer than 255 bytes takes the large tag.
    let mut magnitude = vec![1u8; 300];
    magnitude[299] = 9;
    check_roundtrip(Term::Number(Number::Bignum(Bignum { sign: Sign::Plus, magnitude })));
}

#[test]
fn roundtrip_floats() {
    check_roundtrip(Term::Number(Number::Float(Float { bits: 0x3ff3333333333333 })));
    check_roundtrip(Term::Number(Number::Float(Float { bits: (-12.5f64).to_bits() })));
    check_roundtrip(Term::Number(Number::Float(Float { bits: 0 })));
}

#[test]
fn roundtrip_atoms() {
    check_roundtrip(Term::Atom(atom(b"ok")));
    check_roundtrip(Term::Atom(atom(b"")));
    check_roundtrip(Term::Atom(atom(&[0xce, 0xa9])));
    // A name of 300 bytes takes the 16-bit length tag.
    check_roundtrip(Term::Atom(atom(&vec![b'a'; 300])));
}

#[test]
fn roundtrip_identifiers() {
    check_roundtrip(Term::Pid(pid()));
    check_roundtrip(Term::Port(Port { node: atom(b"n"), id: u64::MAX, creation: 5 }));
    check_roundtrip(Term::Reference(Reference {
        node: atom(b"nonode@nohost"),
        id: vec![1, 2, 3, 4, 5],
        creation: 77,
    }));
    check_roundtrip(Term::Reference(Reference { node: atom(b"n"), id: vec![], creation: 0 }));
}

#[test]
fn roundtrip_tuples_and_maps() {
    check_roundtrip(Term::Tuple(Tuple { elements: vec![] }));
    check_roundtrip(Term::Tuple(Tuple {
        elements: vec![fix(1), Term::Atom(atom(b"a")), Term::Nil(Nil)],
    }));
    let mut big = Vec::new();
    for i in 0..300 {
        big.push(fix(i));
    }
    check_roundtrip(Term::Tuple(Tuple { elements: big }));
    check_roundtrip(Term::MapTerm(MapTerm {
        pairs: vec![(Term::Atom(atom(b"k")), fix(1)), (fix(2), Term::Nil(Nil))],
    }));
    check_roundtrip(Term::MapTerm(MapTerm { pairs: vec![] }));
}

#[test]
fn roundtrip_lists() {
    check_roundtrip(Term::Nil(Nil));
    // All byte-sized integers and a proper tail travel as a byte string.
    let t = Term::List(List {
        elements: vec![fix(1), fix(2), fix(255)],
        tail: Box::new(Term::Nil(Nil)),
    });
    let bytes = enc(&t);
    assert_eq!(bytes[1], 107);
    check_roundtrip(t);
    // A list with a wider element takes the counted form.
    check_roundtrip(Term::List(List {
        elements: vec![fix(1), fix(300)],
        tail: Box::new(Term::Nil(Nil)),
    }));
    // An improper list keeps its tail.
    check_roundtrip(Term::List(List {
        elements: vec![fix(1)],
        tail: Box::new(fix(2)),
    }));
}

#[test]
fn roundtrip_bitstrings() {
    check_roundtrip(Term::Bitstring(Bitstring { data: vec![], bits: 0 }));
    check_roundtrip(Term::Bitstring(Bitstring { data: vec![1, 2, 3], bits: 0 }));
    // The canonical right-aligned partial byte survives the trip.
    check_roundtrip(Term::Bitstring(Bitstring { data: vec![0xff, 0b101], bits: 3 }));
    check_roundtrip(Term::Bitstring(Bitstring { data: vec![1], bits: 1 }));
}

#[test]
fn roundtrip_funs() {
    check_roundtrip(Term::Fun(Fun::ExternalFun(ExternalFun {
        module: atom(b"erlang"),
        function: atom(b"self"),
        arity: 0,
    })));
    check_roundtrip(Term::Fun(Fun::InternalFun(InternalFun::Old {
        module: atom(b"m"),
        pid: pid(),
        free_vars: vec![fix(1), Term::Atom(atom(b"x"))],
        index: 3,
        uniq: -7,
    })));
    check_roundtrip(Term::Fun(Fun::InternalFun(InternalFun::New {
        module: atom(b"erl_eval"),
        arity: 1,
        pid: pid(),
        free_vars: vec![Term::Tuple(Tuple { elements: vec![fix(1), fix(2)] })],
        index: 45,
        uniq: vec![9u8; 16],
        old_index: 1,
        old_uniq: 2,
    })));
}

#[test]
fn roundtrip_deep_nesting() {
    let mut t = fix(0);
    for _ in 0..50 {
        t = Term::Tuple(Tuple {
            elements: vec![t, Term::List(List {
                elements: vec![fix(1)],
                tail: Box::new(Term::Nil(Nil)),
            })],
        });
    }
    check_roundtrip(t);
}

#[test]
fn version_magic_leads_every_encoding() {
    for t in [
        fix(7),
        Term::Nil(Nil),
        Term::Atom(atom(b"ok")),
        Term::Bitstring(Bitstring { data: vec![1], bits: 0 }),
    ] {
        assert_eq!(enc(&t)[0], 131);
    }
}

#[test]
fn size_estimator_matches_for_every_kind() {
    for t in [
        fix(5),
        fix(70000),
        Term::Atom(atom(b"hello")),
        Term::Nil(Nil),
        Term::Number(Number::Float(Float { bits: 1 << 52 })),
        Term::Tuple(Tuple { elements: vec![fix(1), fix(2), fix(3)] }),
    ] {
        assert_eq!(SizeEncoder::encode(&t), enc(&t).len());
    }
}

#[test]
fn encoder_charges_the_budget() {
    let mut p = Process::yielding();
    let t = Term::Tuple(Tuple { elements: vec![fix(1), fix(2), fix(3)] });
    let bytes = encode(&t, &mut p);
    assert_eq!(bytes[1], 104);
    // Four nodes were visited: the tuple and its three elements.
    assert_eq!(p.get_consumed_reds(), 4);
    assert_eq!(p.get_consumed_reds() + p.get_remaining_reds(), 4000);
}
