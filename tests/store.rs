use fwatch::daemon::{Daemon, file_name, resolve_alias, render_list};
use fwatch::digest::digest;
use fwatch::glob::{glob_matches, selects};
use fwatch::store::{SelectError, SnapshotStore};
use fwatch::watch::{ActionPolicy, AliasPolicy, EventKind, Registry, WatchState};
use fwatch::wire::{decode_request, DecodeError, Request};

fn frame(s: &[u8]) -> Vec<u8> {
    let mut v = (s.len() as u64).to_le_bytes().to_vec();
    v.extend_from_slice(s);
    v
}

fn packet(tag: u32, payload: &[u8]) -> Vec<u8> {
    let mut v = tag.to_le_bytes().to_vec();
    v.extend_from_slice(&frame(payload));
    v
}

#[test]
fn digest_known_vectors() {
    assert_eq!(
        digest(b""),
        b"e3b0c44298fc1c149afbf4c8996fb92427ae41e4649b934ca495991b7852b855".to_vec()
    );
    assert_eq!(
        digest(b"abc"),
        b"ba7816bf8f01cfea414140de5dae2223b00361a396177a9cb410ff61f20015ad".to_vec()
    );
    assert_eq!(digest(b"abc"), digest(b"abc"));
    assert_ne!(digest(b"abc"), digest(b"abd"));
}

#[test]
fn append_then_select_round_trip() {
    let mut store = SnapshotStore::new();
    let snap = store.append(b"/tmp/a.txt", b"hello".to_vec(), 7);
    assert_eq!(snap.content_hash, digest(b"hello"));
    assert_eq!(snap.captured_at, 7);
    let got = store.select(b"/tmp/a.txt", &snap.content_hash).ok().unwrap();
    assert_eq!(got.payload, b"hello".to_vec());
    let short = store.select(b"/tmp/a.txt", &snap.content_hash[..4]).ok().unwrap();
    assert_eq!(short.payload, b"hello".to_vec());
}

#[test]
fn select_unknown_prefix_is_not_found() {
    let mut store = SnapshotStore::new();
    let snap = store.append(b"/tmp/a.txt", b"hello".to_vec(), 1);
    // "2cf2..." is the digest of "hello": no digest here starts with ffff
    assert!(!snap.content_hash.starts_with(b"ffff"));
    assert_eq!(store.select(b"/tmp/a.txt", b"ffff").err(), Some(SelectError::NotFound));
    assert_eq!(store.select(b"/tmp/b.txt", b"").err(), Some(SelectError::NotFound));
}

#[test]
fn select_shared_prefix_is_ambiguous() {
    let mut store = SnapshotStore::new();
    store.append(b"/tmp/a.txt", b"one".to_vec(), 1);
    store.append(b"/tmp/a.txt", b"two".to_vec(), 2);
    assert_eq!(store.select(b"/tmp/a.txt", b"").err(), Some(SelectError::Ambiguous));
    store.append(b"/tmp/a.txt", b"one".to_vec(), 3);
    let h = digest(b"one");
    assert_eq!(store.select(b"/tmp/a.txt", &h).err(), Some(SelectError::Ambiguous));
}

#[test]
fn list_is_sorted_whatever_the_order_of_tracking() {
    let mut s1 = SnapshotStore::new();
    s1.append(b"/tmp/b", b"B".to_vec(), 1);
    s1.append(b"/tmp/a", b"A".to_vec(), 2);
    let mut s2 = SnapshotStore::new();
    s2.append(b"/tmp/a", b"A".to_vec(), 2);
    s2.append(b"/tmp/b", b"B".to_vec(), 1);
    let l1 = s1.list(b"*");
    let l2 = s2.list(b"*");
    assert_eq!(l1.len(), 2);
    assert_eq!(l1[0].path, b"/tmp/a".to_vec());
    assert_eq!(l1[1].path, b"/tmp/b".to_vec());
    assert_eq!(l1[0].snapshots, 1);
    assert_eq!(l1[0].latest, Some((digest(b"A"), 2)));
    assert_eq!(render_list(&l1), render_list(&l2));
    let expected = [b"/tmp/a ".to_vec(), digest(b"A"), b"\n/tmp/b ".to_vec(), digest(b"B")].concat();
    assert_eq!(render_list(&l1), expected);
}

#[test]
fn list_by_glob_and_literal() {
    let mut s = SnapshotStore::new();
    s.track(b"/tmp/a.txt");
    s.track(b"/tmp/b.log");
    s.track(b"/home/c.txt");
    let l = s.list(b"/tmp/*");
    assert_eq!(l.len(), 2);
    let l = s.list(b"*.txt");
    assert_eq!(l.len(), 2);
    assert_eq!(l[0].path, b"/home/c.txt".to_vec());
    let l = s.list(b"/tmp/b.log");
    assert_eq!(l.len(), 1);
    assert_eq!(l[0].latest, None);
    assert_eq!(render_list(&l), b"/tmp/b.log -".to_vec());
    assert_eq!(s.list(b"/nothing").len(), 0);
}

#[test]
fn glob_patterns() {
    assert!(glob_matches(b"", b""));
    assert!(!glob_matches(b"", b"a"));
    assert!(glob_matches(b"*", b""));
    assert!(glob_matches(b"a*c", b"abbbc"));
    assert!(glob_matches(b"a?c", b"abc"));
    assert!(!glob_matches(b"a?c", b"ac"));
    assert!(glob_matches(b"*a*b", b"xxaybb"));
    assert!(!glob_matches(b"*a*b", b"xxaybc"));
    assert!(selects(b"*", b"anything"));
    assert!(selects(b"[x]", b"[x]"));
}

#[test]
fn basename_and_alias() {
    assert_eq!(file_name(b"/tmp/a.txt"), b"a.txt".to_vec());
    assert_eq!(file_name(b"a.txt"), b"a.txt".to_vec());
    assert_eq!(file_name(b"/tmp/"), b"".to_vec());
    let script = AliasPolicy::Script(b"/bin/alias".to_vec());
    assert_eq!(resolve_alias(b"/tmp/a.txt", &script, Some(b"  nice\n")), b"nice".to_vec());
    assert_eq!(resolve_alias(b"/tmp/a.txt", &script, Some(b" \n")), b"a.txt".to_vec());
    assert_eq!(resolve_alias(b"/tmp/a.txt", &script, None), b"a.txt".to_vec());
    assert_eq!(resolve_alias(b"/tmp/a.txt", &AliasPolicy::Basename, Some(b"x")), b"a.txt".to_vec());
}

#[test]
fn debounced_burst_gives_one_snapshot() {
    let mut d = Daemon::new(50);
    let track = Request::Track {
        path: b"/tmp/a.txt".to_vec(),
        alias: AliasPolicy::Basename,
        action: ActionPolicy::SaveSnapshot,
    };
    assert_eq!(d.execute(track), b"tracking /tmp/a.txt".to_vec());
    assert!(d.on_event(b"/tmp/a.txt", EventKind::Modified, 1000));
    assert!(d.on_event(b"/tmp/a.txt", EventKind::Modified, 1010));
    assert_eq!(d.take_due(1020).len(), 0);
    let fired = d.take_due(1060);
    assert_eq!(fired.len(), 1);
    assert_eq!(fired[0].path, b"/tmp/a.txt".to_vec());
    assert_eq!(fired[0].kind, EventKind::Modified);
    assert_eq!(d.take_due(5000).len(), 0);
    for f in fired {
        assert!(d.record_snapshot(&f.path, b"new".to_vec(), 1060).is_some());
    }
    let l = d.store.list(b"*");
    assert_eq!(l[0].snapshots, 1);
}

#[test]
fn untracked_path_gets_no_snapshot() {
    let mut d = Daemon::new(10);
    d.execute(Request::Track {
        path: b"/tmp/a.txt".to_vec(),
        alias: AliasPolicy::Basename,
        action: ActionPolicy::SaveSnapshot,
    });
    assert_eq!(d.execute(Request::Untrack { path: b"/tmp/a.txt".to_vec() }), b"untracked /tmp/a.txt".to_vec());
    assert!(!d.on_event(b"/tmp/a.txt", EventKind::Modified, 5));
    assert_eq!(d.take_due(100).len(), 0);
    assert!(d.record_snapshot(b"/tmp/a.txt", b"x".to_vec(), 100).is_none());
    assert_eq!(d.store.list(b"*")[0].snapshots, 0);
    assert_eq!(
        d.execute(Request::Untrack { path: b"/tmp/a.txt".to_vec() }),
        b"error: not tracked: /tmp/a.txt".to_vec()
    );
}

#[test]
fn script_action_records_nothing() {
    let mut d = Daemon::new(10);
    d.execute(Request::Track {
        path: b"/tmp/s".to_vec(),
        alias: AliasPolicy::Basename,
        action: ActionPolicy::Script(b"/bin/true".to_vec()),
    });
    assert!(d.record_snapshot(b"/tmp/s", b"x".to_vec(), 1).is_none());
}

#[test]
fn deleted_file_is_pending_until_recreated() {
    let mut r = Registry::new(5);
    r.track(b"/tmp/a", AliasPolicy::Basename, ActionPolicy::SaveSnapshot);
    r.on_event(b"/tmp/a", EventKind::Deleted, 1);
    assert_eq!(r.files[0].state, WatchState::Pending);
    r.on_event(b"/tmp/a", EventKind::Created, 2);
    assert_eq!(r.files[0].state, WatchState::Active);
    assert_eq!(r.files[0].due, Some(7));
    r.on_event(b"/tmp/a", EventKind::Modified, u64::MAX - 1);
    assert_eq!(r.files[0].due, Some(u64::MAX));
}

#[test]
fn echo_and_echoerr_packets() {
    let mut d = Daemon::new(10);
    let q = decode_request(&packet(3, &frame(b"ping"))).ok().unwrap();
    assert_eq!(d.execute(q), b"ping".to_vec());
    let q = decode_request(&packet(4, &frame(b"x"))).ok().unwrap();
    assert_eq!(d.execute(q), b"error: x".to_vec());
}

#[test]
fn select_packet_not_found_gets_a_reply() {
    let mut d = Daemon::new(10);
    let payload = [frame(b"/tmp/a.txt"), frame(b"ffff")].concat();
    let q = decode_request(&packet(2, &payload)).ok().unwrap();
    assert_eq!(d.execute(q), b"error: no such snapshot".to_vec());
}

#[test]
fn track_packet_decodes_policies() {
    let payload = [
        frame(b"/tmp/a.txt"),
        1u32.to_le_bytes().to_vec(),
        frame(b"/bin/alias"),
        0u32.to_le_bytes().to_vec(),
    ]
    .concat();
    match decode_request(&packet(0, &payload)).ok().unwrap() {
        Request::Track { path, alias, action } => {
            assert_eq!(path, b"/tmp/a.txt".to_vec());
            assert!(matches!(alias, AliasPolicy::Script(ref s) if s == b"/bin/alias"));
            assert!(matches!(action, ActionPolicy::SaveSnapshot));
        }
        _ => panic!("not a track request"),
    }
}

#[test]
fn bad_packets_are_refused() {
    assert_eq!(decode_request(b"").err(), Some(DecodeError::Malformed));
    assert_eq!(decode_request(&packet(9, b"")).err(), Some(DecodeError::Unsupported));
    let mut short = packet(3, &frame(b"ping"));
    short.truncate(short.len() - 1);
    assert_eq!(decode_request(&short).err(), Some(DecodeError::Malformed));
    assert_eq!(decode_request(&packet(3, &frame(&[0xff, 0xfe]))).err(), Some(DecodeError::Malformed));
    assert_eq!(decode_request(&packet(2, &frame(b"only-path"))).err(), Some(DecodeError::Malformed));
}
