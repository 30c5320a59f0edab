use erlang_cnode::{
    read_term, read_term_with_depth, Atom, AtomCache, Error, Term, TermKind, LIST_EXT, NEW_PID_EXT,
    NIL_EXT, PID_EXT, REFERENCE_EXT, SMALL_ATOM_UTF8_EXT, SMALL_INTEGER_EXT, SMALL_TUPLE_EXT,
};

fn decode(input: &[u8]) -> Result<(&[u8], Term), Error> {
    read_term(input, &AtomCache::new(), &[])
}

fn atom(text: &str) -> Term {
    Term::Atom(Atom::new(text.to_string()).unwrap())
}

const OK_TUPLE: [u8; 8] = [104, 2, 97, 5, 119, 2, b'o', b'k'];

#[test]
fn small_tuple_decodes() {
    let (rest, term) = decode(&OK_TUPLE).unwrap();
    assert!(rest.is_empty());
    assert_eq!(term, Term::Tuple(vec![Term::Integer(5), atom("ok")]));
}

#[test]
fn truncated_prefixes_fail_as_truncated() {
    for k in 0..OK_TUPLE.len() {
        assert!(matches!(decode(&OK_TUPLE[..k]), Err(Error::TruncatedInput)), "prefix {}", k);
    }
}

#[test]
fn unknown_tag_fails_on_its_byte() {
    assert!(matches!(decode(&[0xff]), Err(Error::UnknownTermTag(0xff))));
    assert!(matches!(decode(&[0xff, 1, 2, 3]), Err(Error::UnknownTermTag(0xff))));
}

#[test]
fn nil_and_small_integer() {
    assert_eq!(decode(&[NIL_EXT, 9]).unwrap(), (&[9u8][..], Term::Nil));
    assert_eq!(decode(&[SMALL_INTEGER_EXT, 200]).unwrap().1, Term::Integer(200));
}

#[test]
fn integer_is_signed() {
    assert_eq!(decode(&[98, 0xff, 0xff, 0xff, 0xff]).unwrap().1, Term::Integer(-1));
    assert_eq!(decode(&[98, 0, 0, 1, 0]).unwrap().1, Term::Integer(256));
}

#[test]
fn small_big_integer() {
    let (rest, term) = decode(&[110, 2, 1, 0x34, 0x12, 7]).unwrap();
    assert_eq!(rest, &[7]);
    assert_eq!(term, Term::BigInteger { negative: true, digits: vec![0x34, 0x12] });
}

#[test]
fn large_big_integer() {
    let term = decode(&[111, 0, 0, 0, 1, 0, 9]).unwrap().1;
    assert_eq!(term, Term::BigInteger { negative: false, digits: vec![9] });
}

#[test]
fn new_float_keeps_bits() {
    let bits = 1.5f64.to_bits().to_be_bytes();
    let mut input = vec![70u8];
    input.extend_from_slice(&bits);
    assert_eq!(decode(&input).unwrap().1, Term::Float(1.5f64.to_bits()));
}

#[test]
fn legacy_float_keeps_text() {
    let mut input = vec![99u8];
    let mut text = b"1.50000000000000000000e+00".to_vec();
    text.resize(31, 0);
    input.extend_from_slice(&text);
    let term = decode(&input).unwrap().1;
    assert_eq!(term, Term::FloatText(b"1.50000000000000000000e+00".to_vec()));
}

#[test]
fn regular_atom() {
    assert_eq!(decode(&[118, 0, 3, b'f', b'o', b'o']).unwrap().1, atom("foo"));
}

#[test]
fn atom_with_bad_utf8() {
    assert!(matches!(decode(&[SMALL_ATOM_UTF8_EXT, 1, 0xff]), Err(Error::InvalidUtf8)));
}

#[test]
fn overlong_atom_is_rejected() {
    let mut input = vec![118u8, 1, 0];
    input.extend(std::iter::repeat(b'a').take(256));
    assert!(matches!(decode(&input), Err(Error::AtomLengthOutOfRange(_, 256))));
}

#[test]
fn string_becomes_list_of_integers() {
    let term = decode(&[107, 0, 2, b'h', b'i']).unwrap().1;
    assert_eq!(term, Term::List(vec![Term::Integer(104), Term::Integer(105)]));
}

#[test]
fn list_holds_its_tail() {
    let term = decode(&[LIST_EXT, 0, 0, 0, 1, SMALL_INTEGER_EXT, 1, NIL_EXT]).unwrap().1;
    assert_eq!(term, Term::List(vec![Term::Integer(1), Term::Nil]));
}

#[test]
fn binary_bytes() {
    let (rest, term) = decode(&[109, 0, 0, 0, 2, 5, 6, 7]).unwrap();
    assert_eq!(rest, &[7]);
    assert_eq!(term, Term::Binary(vec![5, 6]));
}

fn node_name() -> Vec<u8> {
    vec![SMALL_ATOM_UTF8_EXT, 3, b'a', b'@', b'b']
}

#[test]
fn old_pid() {
    let mut input = vec![PID_EXT];
    input.extend(node_name());
    input.extend([0, 0, 0, 42, 0, 0, 0, 7, 2]);
    match decode(&input).unwrap().1 {
        Term::Pid(pid) => {
            assert_eq!(pid.id(), 42);
            assert_eq!(pid.serial(), 7);
            assert_eq!(pid.node.serial_number(), 2);
            assert_eq!(pid.node.name.name(), "a@b");
        }
        other => panic!("unexpected {:?}", other),
    }
}

#[test]
fn new_pid_out_of_range() {
    let mut input = vec![NEW_PID_EXT];
    input.extend(node_name());
    input.extend([0, 0, 0x80, 0, 0, 0, 0, 0, 0, 0, 0, 1]);
    assert!(matches!(decode(&input), Err(Error::PidOutOfRange(_, 0x8000, 0))));
}

#[test]
fn pid_with_large_creation() {
    let mut input = vec![NEW_PID_EXT];
    input.extend(node_name());
    input.extend([0, 0, 0, 1, 0, 0, 0, 0, 0, 0, 0, 4]);
    assert!(matches!(decode(&input), Err(Error::NodeSerialNumberOutOfRange(_, 4))));
}

#[test]
fn reference_term() {
    let mut input = vec![REFERENCE_EXT];
    input.extend(node_name());
    input.extend([0, 0, 1, 0, 3]);
    match decode(&input).unwrap().1 {
        Term::Reference(r) => {
            assert_eq!(r.id, 256);
            assert_eq!(r.node.serial_number(), 3);
        }
        other => panic!("unexpected {:?}", other),
    }
}

#[test]
fn node_name_must_be_an_atom() {
    let input = [PID_EXT, SMALL_INTEGER_EXT, 1, 0, 0, 0, 0, 0, 0, 0, 0, 0];
    assert!(matches!(decode(&input), Err(Error::NodeIsNotAnAtom(TermKind::Integer))));
}

#[test]
fn nesting_is_bounded() {
    let input = [SMALL_TUPLE_EXT, 1, SMALL_TUPLE_EXT, 0];
    assert!(matches!(
        read_term_with_depth(&input, &AtomCache::new(), &[], 1),
        Err(Error::NestingTooDeep)
    ));
    assert!(read_term_with_depth(&input, &AtomCache::new(), &[], 2).is_ok());
    assert!(matches!(
        read_term_with_depth(&[SMALL_TUPLE_EXT, 0], &AtomCache::new(), &[], 0),
        Err(Error::NestingTooDeep)
    ));
}

#[test]
fn term_kind_names_variant() {
    assert_eq!(Term::Nil.kind(), TermKind::Nil);
    assert_eq!(Term::Binary(vec![]).kind(), TermKind::Binary);
    assert_eq!(atom("x").kind(), TermKind::Atom);
}

#[test]
fn cache_ref_without_references_is_unresolved() {
    assert!(matches!(decode(&[82, 0]), Err(Error::UnresolvedAtomCacheReference(0))));
}
