use erlang_cnode::{
    decode_message, read_distribution_header, read_term, read_version_magic, Atom, AtomCache,
    AtomCacheKey, AtomCacheSegment, AtomSizeFormat, ControlMessage, Error, Message, MessageHeader,
    RawPid, Term, DIST_HEADER, ERL_LINK, ERL_REG_SEND, ERL_SEND,
};

fn key(segment_index: AtomCacheSegment, internal_index: u8) -> AtomCacheKey {
    AtomCacheKey { segment_index, internal_index }
}

#[test]
fn version_magic() {
    assert_eq!(read_version_magic(&[131, 1]).unwrap(), &[1]);
    assert!(matches!(read_version_magic(&[130]), Err(Error::UnsupportedProtocolVersion(130))));
    assert!(matches!(read_version_magic(&[]), Err(Error::TruncatedInput)));
}

#[test]
fn atom_size_format_widths() {
    assert_eq!(AtomSizeFormat::Small.read(&[3, 9]).unwrap(), (&[9u8][..], 3));
    assert_eq!(AtomSizeFormat::Regular.read(&[1, 2]).unwrap().1, 258);
}

#[test]
fn absent_header_returns_input() {
    let mut cache = AtomCache::new();
    let input = [97u8, 5];
    let (rest, keys) = read_distribution_header(&input, &mut cache).unwrap();
    assert_eq!(rest, &input);
    assert!(keys.is_empty());
}

#[test]
fn empty_header_is_noop() {
    let mut cache = AtomCache::new();
    cache.insert(key(AtomCacheSegment::S1, 2), Atom::new("kept".to_string()).unwrap());
    let input = [DIST_HEADER, 0, 97, 5];
    let (rest, keys) = read_distribution_header(&input, &mut cache).unwrap();
    assert_eq!(rest, &[97, 5]);
    assert!(keys.is_empty());
    assert_eq!(cache.get(key(AtomCacheSegment::S1, 2)).unwrap().name(), "kept");
    assert!(cache.get(key(AtomCacheSegment::S0, 0)).is_none());
}

#[test]
fn new_entry_is_inserted_and_resolves() {
    let mut cache = AtomCache::new();
    // One reference: nibble 0 = new entry, segment 3; nibble 1 = small atoms.
    let input = [DIST_HEADER, 1, 0xb0, 7, 3, b'f', b'o', b'o', 82, 0];
    let (rest, keys) = read_distribution_header(&input, &mut cache).unwrap();
    assert_eq!(keys, vec![key(AtomCacheSegment::S3, 7)]);
    assert_eq!(cache.get(key(AtomCacheSegment::S3, 7)).unwrap().name(), "foo");
    assert!(cache.get(key(AtomCacheSegment::S3, 6)).is_none());
    assert!(cache.get(key(AtomCacheSegment::S2, 7)).is_none());
    let (_, term) = read_term(rest, &cache, &keys).unwrap();
    assert_eq!(term, Term::Atom(Atom::new("foo".to_string()).unwrap()));

    // A later header names the same key without the new-entry bit.
    let later = [DIST_HEADER, 1, 0x30, 7, 82, 0];
    let (rest, keys) = read_distribution_header(&later, &mut cache).unwrap();
    assert_eq!(keys, vec![key(AtomCacheSegment::S3, 7)]);
    assert_eq!(cache.get(key(AtomCacheSegment::S3, 7)).unwrap().name(), "foo");
    let (_, term) = read_term(rest, &cache, &keys).unwrap();
    assert_eq!(term, Term::Atom(Atom::new("foo".to_string()).unwrap()));
}

#[test]
fn regular_atom_length_in_header() {
    let mut cache = AtomCache::new();
    // Nibble 0 = new entry, segment 0; nibble 1 = regular (2-byte) lengths.
    let input = [DIST_HEADER, 1, 0x81, 9, 0, 2, b'h', b'i'];
    let (rest, _) = read_distribution_header(&input, &mut cache).unwrap();
    assert!(rest.is_empty());
    assert_eq!(cache.get(key(AtomCacheSegment::S0, 9)).unwrap().name(), "hi");
}

#[test]
fn truncated_header() {
    let mut cache = AtomCache::new();
    assert!(matches!(read_distribution_header(&[], &mut cache), Err(Error::TruncatedInput)));
    assert!(matches!(read_distribution_header(&[DIST_HEADER], &mut cache), Err(Error::TruncatedInput)));
    assert!(matches!(read_distribution_header(&[DIST_HEADER, 2, 0x00], &mut cache), Err(Error::TruncatedInput)));
}

#[test]
fn cache_insert_returns_previous() {
    let mut cache = AtomCache::new();
    let k = key(AtomCacheSegment::S7, 255);
    assert!(cache.insert(k, Atom::new("a".to_string()).unwrap()).is_none());
    let old = cache.insert(k, Atom::new("b".to_string()).unwrap()).unwrap();
    assert_eq!(old.name(), "a");
    assert_eq!(cache.get(k).unwrap().name(), "b");
}

fn raw_pid(num: u32) -> RawPid {
    let mut node = b"n@h".to_vec();
    node.resize(16, 0);
    RawPid { node, num, serial: 0, creation: 1 }
}

fn header(msg_type: i64) -> MessageHeader {
    let mut to_name = b"logger".to_vec();
    to_name.resize(16, 0);
    MessageHeader { msg_type, from: raw_pid(1), to: raw_pid(2), to_name }
}

#[test]
fn classify_send() {
    match ControlMessage::from_c(&header(ERL_SEND)).unwrap() {
        ControlMessage::Send { from, to, trace_token } => {
            assert_eq!(from.id(), 1);
            assert_eq!(to.id(), 2);
            assert!(trace_token.is_none());
        }
        other => panic!("unexpected {:?}", other),
    }
}

#[test]
fn classify_registered_send() {
    match ControlMessage::from_c(&header(ERL_REG_SEND)).unwrap() {
        ControlMessage::RegisteredSend { to, .. } => assert_eq!(to.name(), "logger"),
        other => panic!("unexpected {:?}", other),
    }
}

#[test]
fn classify_link() {
    assert!(matches!(ControlMessage::from_c(&header(ERL_LINK)), Ok(ControlMessage::Link { .. })));
}

#[test]
fn classify_unknown_type() {
    assert!(matches!(ControlMessage::from_c(&header(99)), Err(Error::UnknownMessageType(99))));
}

#[test]
fn classify_bad_pid() {
    let mut h = header(ERL_SEND);
    h.to = raw_pid(40000);
    assert!(matches!(ControlMessage::from_c(&h), Err(Error::PidOutOfRange(_, 40000, 0))));
}

#[test]
fn whole_message_decodes() {
    let mut cache = AtomCache::new();
    let input = [DIST_HEADER, 1, 0x80, 1, 4, b's', b't', b'o', b'p', 82, 0];
    match decode_message(&header(ERL_SEND), &input, &mut cache).unwrap() {
        Message::Send { term, .. } => {
            assert_eq!(term, Term::Atom(Atom::new("stop".to_string()).unwrap()))
        }
        other => panic!("unexpected {:?}", other),
    }
}

#[test]
fn read_message_joins_payload() {
    let control = ControlMessage::from_c(&header(ERL_LINK)).unwrap();
    let (rest, message) = control.read_message(&[106, 1], &AtomCache::new(), &[]).unwrap();
    assert_eq!(rest, &[1]);
    assert!(matches!(message, Message::Link { term: Term::Nil, .. }));
}
