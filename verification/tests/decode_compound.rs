//! Decoding compound terms: references, funs, the compressed envelope,
//! and partial-byte binaries.
use erlang_etf::atom_cache::AtomCache;
use erlang_etf::decoder::{ReadContext, YieldableDecoder};
use erlang_etf::errors::DecodeError;
use erlang_etf::process::Process;
use erlang_etf::term::{Fun, InternalFun, Number, Term};

fn decode(bytes: Vec<u8>) -> Result<Term, DecodeError> {
    let mut d = YieldableDecoder::new(bytes);
    let mut ctx = ReadContext::new(Process::yielding(), AtomCache::new());
    d.read_external_term(&mut ctx)
}

#[test]
fn newer_reference() {
    let buf = vec![
        131, 90, 0, 3, 100, 0, 13, 110, 111, 110, 111, 100, 101, 64, 110, 111, 104, 111, 115,
        116, 0, 0, 0, 0, 0, 3, 47, 106, 6, 212, 0, 3, 122, 178, 8, 15,
    ];
    let t = decode(buf).unwrap();
    match t {
        Term::Reference(r) => {
            assert_eq!(r.node.name, b"nonode@nohost".to_vec());
            assert_eq!(r.creation, 0);
            assert_eq!(r.id, vec![0x00032f6a, 0x06d40003, 0x7ab2080f]);
        }
        other => panic!("expected a reference, got {:?}", other),
    }
}

#[test]
fn new_fun() {
    let buf: Vec<u8> = vec![
        131, 112, 0, 0, 2, 247, 0, 125, 102, 234, 72, 192, 153, 55, 197, 5, 22, 1, 37, 249,
        98, 108, 111, 0, 0, 0, 45, 0, 0, 0, 1, 100, 0, 8, 101, 114, 108, 95, 101, 118,
        97, 108, 97, 45, 98, 3, 235, 55, 82, 88, 100, 0, 13, 110, 111, 110, 111, 100, 101, 64,
        110, 111, 104, 111, 115, 116, 0, 0, 0, 79, 0, 0, 0, 0, 0, 0, 0, 0, 104, 4,
        106, 104, 2, 100, 0, 4, 101, 118, 97, 108, 112, 0, 0, 1, 245, 3, 0, 177, 9, 183,
        184, 199, 48, 15, 82, 217, 180, 63, 32, 65, 218, 189, 0, 0, 0, 21, 0, 0, 0, 4,
        100, 0, 5, 115, 104, 101, 108, 108, 97, 21, 98, 0, 5, 136, 77, 88, 100, 0, 13, 110,
        111, 110, 111, 100, 101, 64, 110, 111, 104, 111, 115, 116, 0, 0, 0, 79, 0, 0, 0, 0,
        0, 0, 0, 0, 88, 100, 0, 13, 110, 111, 110, 111, 100, 101, 64, 110, 111, 104, 111, 115,
        116, 0, 0, 0, 73, 0, 0, 0, 0, 0, 0, 0, 0, 90, 0, 3, 100, 0, 13, 110,
        111, 110, 111, 100, 101, 64, 110, 111, 104, 111, 115, 116, 0, 0, 0, 0, 0, 3, 47, 60,
        6, 214, 0, 3, 122, 178, 8, 15, 104, 2, 100, 0, 5, 118, 97, 108, 117, 101, 112, 0,
        0, 0, 102, 2, 0, 177, 9, 183, 184, 199, 48, 15, 82, 217, 180, 63, 32, 65, 218, 189,
        0, 0, 0, 5, 0, 0, 0, 1, 100, 0, 5, 115, 104, 101, 108, 108, 97, 5, 98, 0,
        5, 136, 77, 88, 100, 0, 13, 110, 111, 110, 111, 100, 101, 64, 110, 111, 104, 111, 115, 116,
        0, 0, 0, 79, 0, 0, 0, 0, 0, 0, 0, 0, 88, 100, 0, 13, 110, 111, 110, 111,
        100, 101, 64, 110, 111, 104, 111, 115, 116, 0, 0, 0, 73, 0, 0, 0, 0, 0, 0, 0,
        0, 112, 0, 0, 0, 250, 1, 0, 177, 9, 183, 184, 199, 48, 15, 82, 217, 180, 63, 32,
        65, 218, 189, 0, 0, 0, 12, 0, 0, 0, 3, 100, 0, 5, 115, 104, 101, 108, 108, 97,
        12, 98, 0, 5, 136, 77, 88, 100, 0, 13, 110, 111, 110, 111, 100, 101, 64, 110, 111, 104,
        111, 115, 116, 0, 0, 0, 79, 0, 0, 0, 0, 0, 0, 0, 0, 88, 100, 0, 13, 110,
        111, 110, 111, 100, 101, 64, 110, 111, 104, 111, 115, 116, 0, 0, 0, 73, 0, 0, 0, 0,
        0, 0, 0, 0, 90, 0, 3, 100, 0, 13, 110, 111, 110, 111, 100, 101, 64, 110, 111, 104,
        111, 115, 116, 0, 0, 0, 0, 0, 3, 47, 60, 6, 214, 0, 3, 122, 178, 8, 15, 104,
        2, 100, 0, 5, 118, 97, 108, 117, 101, 112, 0, 0, 0, 102, 2, 0, 177, 9, 183, 184,
        199, 48, 15, 82, 217, 180, 63, 32, 65, 218, 189, 0, 0, 0, 5, 0, 0, 0, 1, 100,
        0, 5, 115, 104, 101, 108, 108, 97, 5, 98, 0, 5, 136, 77, 88, 100, 0, 13, 110, 111,
        110, 111, 100, 101, 64, 110, 111, 104, 111, 115, 116, 0, 0, 0, 79, 0, 0, 0, 0, 0,
        0, 0, 0, 88, 100, 0, 13, 110, 111, 110, 111, 100, 101, 64, 110, 111, 104, 111, 115, 116,
        0, 0, 0, 73, 0, 0, 0, 0, 0, 0, 0, 0, 104, 2, 100, 0, 5, 118, 97, 108,
        117, 101, 112, 0, 0, 0, 102, 2, 0, 177, 9, 183, 184, 199, 48, 15, 82, 217, 180, 63,
        32, 65, 218, 189, 0, 0, 0, 5, 0, 0, 0, 1, 100, 0, 5, 115, 104, 101, 108, 108,
        97, 5, 98, 0, 5, 136, 77, 88, 100, 0, 13, 110, 111, 110, 111, 100, 101, 64, 110, 111,
        104, 111, 115, 116, 0, 0, 0, 79, 0, 0, 0, 0, 0, 0, 0, 0, 88, 100, 0, 13,
        110, 111, 110, 111, 100, 101, 64, 110, 111, 104, 111, 115, 116, 0, 0, 0, 73, 0, 0, 0,
        0, 0, 0, 0, 0, 108, 0, 0, 0, 1, 104, 5, 100, 0, 6, 99, 108, 97, 117, 115,
        101, 104, 2, 97, 1, 97, 46, 106, 106, 108, 0, 0, 0, 1, 104, 3, 100, 0, 5, 102,
        108, 111, 97, 116, 104, 2, 97, 1, 97, 52, 70, 63, 243, 51, 51, 51, 51, 51, 51, 106,
        106,
    ];
    assert_eq!(buf.len(), 761);
    let t = decode(buf).unwrap();
    match t {
        Term::Fun(Fun::InternalFun(InternalFun::New {
            module,
            arity,
            pid,
            free_vars,
            index,
            uniq,
            ..
        })) => {
            assert_eq!(module.name, b"erl_eval".to_vec());
            assert_eq!(arity, 0);
            assert_eq!(index, 45);
            assert_eq!(free_vars.len(), 1);
            assert_eq!(uniq.len(), 16);
            assert_eq!(pid.node.name, b"nonode@nohost".to_vec());
        }
        other => panic!("expected an internal fun, got {:?}", other),
    }
}

#[test]
fn compressed_binary() {
    let buf = vec![
        131, 80, 0, 0, 4, 5, 120, 156, 203, 101, 96, 96, 97, 24, 5, 163, 96, 20, 140, 92, 0, 0,
        202, 61, 0, 114,
    ];
    let t = decode(buf).unwrap();
    match t {
        Term::Bitstring(b) => {
            assert_eq!(b.bits, 0);
            assert_eq!(b.data.len(), 1024);
            assert!(b.data.iter().all(|x| *x == 0));
            assert!(b.is_binary());
        }
        other => panic!("expected a binary, got {:?}", other),
    }
}

#[test]
fn compressed_bit_binary() {
    let buf = vec![
        131, 80, 0, 0, 4, 7, 120, 156, 243, 101, 96, 96, 97, 100, 100, 24, 5, 163, 96, 20, 140,
        88, 208, 0, 0, 82, 198, 0, 212,
    ];
    let t = decode(buf).unwrap();
    match t {
        Term::Bitstring(b) => {
            assert_eq!(b.bits, 1);
            assert_eq!(b.data.len(), 1025);
            // The wire's left-aligned last byte 0x80 is stored right-aligned.
            assert_eq!(*b.data.last().unwrap(), 1);
            assert!(b.is_bit_binary());
        }
        other => panic!("expected a bit binary, got {:?}", other),
    }
}

#[test]
fn bit_binary_last_byte_is_right_aligned() {
    // Three bits of a 0b101 pattern, left-aligned on the wire as 0xa0.
    let t = decode(vec![131, 77, 0, 0, 0, 1, 3, 0xa0]).unwrap();
    match t {
        Term::Bitstring(b) => {
            assert_eq!(b.bits, 3);
            assert_eq!(b.data, vec![0b101]);
        }
        other => panic!("expected a bit binary, got {:?}", other),
    }
}

#[test]
fn bit_binary_with_zero_bits_is_refused() {
    let r = decode(vec![131, 77, 0, 0, 0, 1, 0, 0xa0]);
    assert_eq!(r.unwrap_err(), DecodeError::OutOfRange { value: 0, limit: 8 });
}

#[test]
fn small_tuple_and_map() {
    // {1, {}} as a tuple of arity 2.
    let t = decode(vec![131, 104, 2, 97, 1, 104, 0]).unwrap();
    match t {
        Term::Tuple(tu) => {
            assert_eq!(tu.elements.len(), 2);
            assert_eq!(
                tu.elements[0],
                Term::Number(Number::FixInteger(erlang_etf::term::FixInteger { value: 1 }))
            );
        }
        other => panic!("expected a tuple, got {:?}", other),
    }
    // #{1 => 2}.
    let t = decode(vec![131, 116, 0, 0, 0, 1, 97, 1, 97, 2]).unwrap();
    match t {
        Term::MapTerm(m) => {
            assert_eq!(m.pairs.len(), 1);
        }
        other => panic!("expected a map, got {:?}", other),
    }
}

#[test]
fn export_fun() {
    // fun erlang:self/0.
    let buf = vec![
        131, 113, 100, 0, 6, 101, 114, 108, 97, 110, 103, 100, 0, 4, 115, 101, 108, 102, 97, 0,
    ];
    let t = decode(buf).unwrap();
    match &t {
        Term::Fun(Fun::ExternalFun(e)) => {
            assert_eq!(e.module.name, b"erlang".to_vec());
            assert_eq!(e.function.name, b"self".to_vec());
            assert_eq!(e.arity, 0);
        }
        other => panic!("expected an external fun, got {:?}", other),
    }
    assert!(t.is_fun());
    assert!(t.is_external_fun());
    assert!(!t.is_internal_fun());
}

#[test]
fn pids_and_ports() {
    // NEW_PID_EXT.
    let mut buf = vec![131, 88, 100, 0, 2, 110, 111];
    buf.extend_from_slice(&7u32.to_be_bytes());
    buf.extend_from_slice(&8u32.to_be_bytes());
    buf.extend_from_slice(&9u32.to_be_bytes());
    let t = decode(buf).unwrap();
    match t {
        Term::Pid(p) => {
            assert_eq!(p.node.name, b"no".to_vec());
            assert_eq!((p.id, p.serial, p.creation), (7, 8, 9));
        }
        other => panic!("expected a pid, got {:?}", other),
    }
    // V4_PORT_EXT.
    let mut buf = vec![131, 120, 100, 0, 2, 110, 111];
    buf.extend_from_slice(&0x1_0000_0001u64.to_be_bytes());
    buf.extend_from_slice(&3u32.to_be_bytes());
    let t = decode(buf).unwrap();
    match t {
        Term::Port(p) => {
            assert_eq!(p.id, 0x1_0000_0001);
            assert_eq!(p.creation, 3);
        }
        other => panic!("expected a port, got {:?}", other),
    }
}
