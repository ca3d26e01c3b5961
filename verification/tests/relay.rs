use session_bridge::channel::{adopt, AdoptOutcome};
use session_bridge::relay::{
    classify_recv, resolve_socket_path, ForwardPass, PassStatus, RecvEvent, RelayAction,
    WriteOutcome,
};
use session_bridge::snapshot::{get_env, SnapshotError};
use session_bridge::messages::Message;

#[test]
fn relative_display_joins_runtime_dir() {
    let display = b"wayland-1".to_vec();
    let runtime = b"/run/user/1000".to_vec();
    let path = resolve_socket_path(Some(&display), Some(&runtime)).expect("resolvable");
    assert_eq!(path, b"/run/user/1000/wayland-1".to_vec());
}

#[test]
fn absolute_display_ignores_runtime_dir() {
    let display = b"/tmp/wayland-9".to_vec();
    let runtime = b"/run/user/1000".to_vec();
    let path = resolve_socket_path(Some(&display), Some(&runtime)).expect("resolvable");
    assert_eq!(path, b"/tmp/wayland-9".to_vec());
    let path = resolve_socket_path(Some(&display), None).expect("resolvable");
    assert_eq!(path, b"/tmp/wayland-9".to_vec());
}

#[test]
fn trailing_separator_is_not_doubled() {
    let display = b"wayland-1".to_vec();
    let runtime = b"/run/user/1000/".to_vec();
    let path = resolve_socket_path(Some(&display), Some(&runtime)).expect("resolvable");
    assert_eq!(path, b"/run/user/1000/wayland-1".to_vec());
}

#[test]
fn unresolvable_paths_abandon_the_relay() {
    let display = b"wayland-1".to_vec();
    let relative = b"run/user/1000".to_vec();
    assert!(resolve_socket_path(Some(&display), Some(&relative)).is_none());
    assert!(resolve_socket_path(Some(&display), None).is_none());
    assert!(resolve_socket_path(None, Some(&relative)).is_none());
}

#[test]
fn data_or_descriptors_are_forwarded() {
    let ev = RecvEvent::Data {
        bytes: b"abc".to_vec(),
        fds: vec![],
    };
    match classify_recv(ev) {
        RelayAction::Forward { bytes, fds } => {
            assert_eq!(bytes, b"abc".to_vec());
            assert!(fds.is_empty());
        }
        _ => panic!("data must be forwarded"),
    }
    let ev = RecvEvent::Data {
        bytes: vec![],
        fds: vec![9],
    };
    assert!(matches!(classify_recv(ev), RelayAction::Forward { .. }));
}

#[test]
fn empty_read_tears_the_pair_down() {
    let ev = RecvEvent::Data {
        bytes: vec![],
        fds: vec![],
    };
    assert!(matches!(classify_recv(ev), RelayAction::Teardown));
    assert!(matches!(classify_recv(RecvEvent::Failed), RelayAction::Teardown));
}

#[test]
fn interruption_is_not_terminal() {
    assert!(matches!(classify_recv(RecvEvent::Interrupted), RelayAction::Yield));
}

#[test]
fn partial_write_retries_exactly_the_tail() {
    let mut pass = ForwardPass::new(b"hello".to_vec(), vec![4, 5]);
    assert_eq!(pass.fds().len(), 2);
    let st = pass.apply_write(WriteOutcome::Wrote { n: 2 });
    assert!(matches!(st, PassStatus::InProgress));
    assert_eq!(pass.cursor(), 2);
    assert_eq!(&pass.data()[pass.cursor()..], b"llo");
    // the descriptors rode on the first segment only
    assert!(pass.fds().is_empty());
    let st = pass.apply_write(WriteOutcome::Wrote { n: 3 });
    assert!(matches!(st, PassStatus::Done));
    assert!(pass.is_done());
}

#[test]
fn interrupted_write_consumes_nothing() {
    let mut pass = ForwardPass::new(b"hello".to_vec(), vec![4]);
    let st = pass.apply_write(WriteOutcome::Interrupted);
    assert!(matches!(st, PassStatus::InProgress));
    assert_eq!(pass.cursor(), 0);
    assert_eq!(pass.fds().len(), 1, "descriptors still pending after an interruption");
}

#[test]
fn zero_write_or_failure_breaks_the_pipe() {
    let mut pass = ForwardPass::new(b"hello".to_vec(), vec![]);
    assert!(matches!(pass.apply_write(WriteOutcome::Wrote { n: 0 }), PassStatus::Broken));
    let mut pass = ForwardPass::new(b"hello".to_vec(), vec![]);
    assert!(matches!(pass.apply_write(WriteOutcome::Failed), PassStatus::Broken));
}

#[test]
fn sentinel_descriptor_is_skipped() {
    assert!(matches!(adopt(-1, true), AdoptOutcome::NothingDelivered));
    assert!(matches!(adopt(-1, false), AdoptOutcome::NothingDelivered));
}

#[test]
fn adoption_owns_or_closes_never_leaks() {
    match adopt(7, true) {
        AdoptOutcome::Owned { fd } => assert_eq!(fd, 7),
        _ => panic!("configured descriptor must be owned"),
    }
    match adopt(7, false) {
        AdoptOutcome::MustClose { fd } => assert_eq!(fd, 7),
        _ => panic!("failed setup must order the same descriptor closed"),
    }
}

#[test]
fn snapshot_requires_display_identity() {
    let r = get_env(None, Some(b":0".to_vec()), None, None);
    assert!(matches!(r, Err(SnapshotError::MissingDisplayIdentity)));
}

#[test]
fn snapshot_forwards_optional_values_verbatim() {
    let r = get_env(
        Some(b"wayland-1".to_vec()),
        Some(b":0".to_vec()),
        None,
        Some(b"/run/niri.sock".to_vec()),
    )
    .expect("display identity present");
    match r {
        Message::SetEnv { variables } => {
            assert_eq!(
                variables,
                vec![
                    (b"WAYLAND_DISPLAY".to_vec(), b"wayland-1".to_vec()),
                    (b"DISPLAY".to_vec(), b":0".to_vec()),
                    (b"NIRI_SOCKET".to_vec(), b"/run/niri.sock".to_vec()),
                ]
            );
        }
        _ => panic!("snapshot must be a SetEnv message"),
    }
}

#[test]
fn snapshot_minimal_holds_only_the_identity() {
    let r = get_env(Some(b"wayland-0".to_vec()), None, None, None).expect("present");
    match r {
        Message::SetEnv { variables } => {
            assert_eq!(variables, vec![(b"WAYLAND_DISPLAY".to_vec(), b"wayland-0".to_vec())]);
        }
        _ => panic!("snapshot must be a SetEnv message"),
    }
}
