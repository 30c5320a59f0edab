use erlang_cnode::{Atom, Error, Node, Pid, MAX_ATOM_LEN};

fn node() -> Node {
    Node::new(Atom::new("a@b".to_string()).unwrap(), 1).unwrap()
}

#[test]
fn atom_of_255_chars_round_trips() {
    let text: String = std::iter::repeat('é').take(MAX_ATOM_LEN).collect();
    let atom = Atom::new(text.clone()).unwrap();
    assert_eq!(atom.name(), text.as_str());
}

#[test]
fn atom_of_256_chars_is_rejected() {
    let text: String = std::iter::repeat('x').take(256).collect();
    match Atom::new(text.clone()) {
        Err(Error::AtomLengthOutOfRange(t, n)) => {
            assert_eq!(t, text);
            assert_eq!(n, 256);
        }
        other => panic!("unexpected {:?}", other),
    }
}

#[test]
fn empty_atom_is_accepted() {
    assert_eq!(Atom::new(String::new()).unwrap().name(), "");
}

#[test]
fn atom_from_c_stops_at_null() {
    let atom = Atom::from_c(b"ok\0junk").unwrap();
    assert_eq!(atom.name(), "ok");
}

#[test]
fn atom_from_c_without_null_is_runaway() {
    assert!(matches!(Atom::from_c(b"abc"), Err(Error::RunawayAtom(b)) if b == b"abc".to_vec()));
}

#[test]
fn atom_from_c_rejects_bad_utf8() {
    assert!(matches!(Atom::from_c(&[0xffu8, 0]), Err(Error::InvalidUtf8)));
}

#[test]
fn node_serial_bounds() {
    let name = Atom::new("n".to_string()).unwrap();
    assert_eq!(Node::new(name.clone(), 3).unwrap().serial_number(), 3);
    assert!(matches!(Node::new(name, 4), Err(Error::NodeSerialNumberOutOfRange(_, 4))));
}

#[test]
fn pid_in_range_exposes_fields() {
    for (id, serial) in [(0u32, 0u32), (32767, 8191), (12, 34)] {
        let pid = Pid::new(node(), id, serial).unwrap();
        assert_eq!(pid.id(), id);
        assert_eq!(pid.serial(), serial);
    }
}

#[test]
fn pid_out_of_range() {
    assert!(matches!(Pid::new(node(), 32768, 0), Err(Error::PidOutOfRange(_, 32768, 0))));
    assert!(matches!(Pid::new(node(), 0, 8192), Err(Error::PidOutOfRange(_, 0, 8192))));
}
