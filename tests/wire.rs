use fwatch::daemon::{decode_error_reply, event_name, Daemon};
use fwatch::digest::digest;
use fwatch::journal::State;
use fwatch::watch::{ActionPolicy, AliasPolicy, EventKind};
use fwatch::wire::{decode_request, encode_request, read_bytes, read_str, read_tag, DecodeError, Request};

#[test]
fn encoded_echo_has_the_expected_bytes() {
    let b = encode_request(&Request::Echo { msg: b"ping".to_vec() });
    let expected: Vec<u8> = vec![
        3, 0, 0, 0, // command tag
        12, 0, 0, 0, 0, 0, 0, 0, // payload length
        4, 0, 0, 0, 0, 0, 0, 0, b'p', b'i', b'n', b'g',
    ];
    assert_eq!(b, expected);
}

#[test]
fn encode_then_decode_gives_the_request_back() {
    let q = Request::Track {
        path: b"/tmp/a.txt".to_vec(),
        alias: AliasPolicy::Basename,
        action: ActionPolicy::Script(b"/bin/act".to_vec()),
    };
    match decode_request(&encode_request(&q)).ok().unwrap() {
        Request::Track { path, alias, action } => {
            assert_eq!(path, b"/tmp/a.txt".to_vec());
            assert!(matches!(alias, AliasPolicy::Basename));
            assert!(matches!(action, ActionPolicy::Script(ref s) if s == b"/bin/act"));
        }
        _ => panic!("not a track request"),
    }
    let q = Request::Select { path: b"/p".to_vec(), prefix: b"ab".to_vec() };
    match decode_request(&encode_request(&q)).ok().unwrap() {
        Request::Select { path, prefix } => {
            assert_eq!(path, b"/p".to_vec());
            assert_eq!(prefix, b"ab".to_vec());
        }
        _ => panic!("not a select request"),
    }
    let q = Request::Untrack { path: b"/q".to_vec() };
    assert!(matches!(decode_request(&encode_request(&q)).ok().unwrap(), Request::Untrack { path } if path == b"/q"));
    let q = Request::List { pattern: b"*".to_vec() };
    assert!(matches!(decode_request(&encode_request(&q)).ok().unwrap(), Request::List { pattern } if pattern == b"*"));
}

#[test]
fn echo_over_the_wire() {
    let mut d = Daemon::new(10);
    let q = decode_request(&encode_request(&Request::Echo { msg: b"ping".to_vec() })).ok().unwrap();
    assert_eq!(d.execute(q), b"ping".to_vec());
    let q = decode_request(&encode_request(&Request::Echoerr { msg: b"x".to_vec() })).ok().unwrap();
    let r = d.execute(q);
    assert_eq!(r, b"error: x".to_vec());
    assert_ne!(r, b"x".to_vec());
}

#[test]
fn select_over_the_wire_round_trip() {
    let mut d = Daemon::new(10);
    d.execute(Request::Track {
        path: b"/tmp/a.txt".to_vec(),
        alias: AliasPolicy::Basename,
        action: ActionPolicy::SaveSnapshot,
    });
    let s = d.record_snapshot(b"/tmp/a.txt", b"version one".to_vec(), 3).unwrap();
    let q = Request::Select { path: b"/tmp/a.txt".to_vec(), prefix: s.content_hash[..6].to_vec() };
    assert_eq!(d.execute(q), b"version one".to_vec());
    d.record_snapshot(b"/tmp/a.txt", b"version two".to_vec(), 4);
    let q = Request::Select { path: b"/tmp/a.txt".to_vec(), prefix: Vec::new() };
    assert_eq!(d.execute(q), b"error: ambiguous hash prefix".to_vec());
    let q = Request::List { pattern: b"*".to_vec() };
    let expected = [b"/tmp/a.txt ".to_vec(), digest(b"version two")].concat();
    assert_eq!(d.execute(q), expected);
}

#[test]
fn readers_report_positions() {
    let b = [vec![9u8], 2u64.to_le_bytes().to_vec(), b"hi".to_vec(), vec![7]].concat();
    assert_eq!(read_str(&b, 1), Some((b"hi".to_vec(), 11)));
    assert_eq!(read_str(&b, 0), None);
    assert_eq!(read_str(&b, 20), None);
    assert_eq!(read_bytes(&b, 1), Some(b"hi".to_vec()));
    assert_eq!(read_tag(&[1, 0, 0, 0], 0, 2), Some(1));
    assert_eq!(read_tag(&[1, 1, 0, 0], 0, 2), None);
    assert_eq!(read_tag(&[1, 0, 0], 0, 2), None);
}

#[test]
fn decode_error_replies() {
    assert_eq!(decode_error_reply(DecodeError::Malformed), b"error: malformed packet".to_vec());
    assert_eq!(decode_error_reply(DecodeError::Unsupported), b"error: unsupported command".to_vec());
}

#[test]
fn event_names() {
    assert_eq!(event_name(EventKind::Modified), b"modified".to_vec());
    assert_eq!(event_name(EventKind::Created), b"created".to_vec());
    assert_eq!(event_name(EventKind::Deleted), b"deleted".to_vec());
    assert_eq!(event_name(EventKind::Renamed), b"renamed".to_vec());
}

#[test]
fn journal_appends_digests() {
    let mut s = State::new();
    assert_eq!(s.files.len(), 0);
    s.append("a.txt".to_string(), b"abc");
    s.append("b.txt".to_string(), b"");
    assert_eq!(s.files.len(), 2);
    assert_eq!(s.files[0].fpath, "a.txt");
    assert_eq!(s.files[0].hash, b"ba7816bf8f01cfea414140de5dae2223b00361a396177a9cb410ff61f20015ad".to_vec());
    assert_eq!(s.files[1].hash, digest(b""));
}
