use discid::device::device_bytes;
use discid::lifecycle::{step_exec, HandleEvent, HandleState};
use discid::Features;

#[test]
fn test_features_bits() {
    assert_eq!(1, Features::read().bits());
    assert_eq!(2, Features::mcn().bits());
    assert_eq!(4, Features::isrc().bits());
    assert_eq!(7, Features::all().bits());
}

#[test]
fn test_features_union_and_contains() {
    let rw = Features::read().union(Features::mcn());
    assert_eq!(3, rw.bits());
    assert!(rw.contains(Features::read()));
    assert!(rw.contains(Features::mcn()));
    assert!(!rw.contains(Features::isrc()));
    assert_eq!(
        Features::all(),
        Features::read().union(Features::mcn()).union(Features::isrc())
    );
}

#[test]
fn test_device_bytes_appends_terminator() {
    let bytes = device_bytes("/dev/cdrom").expect("device_bytes failed");
    assert_eq!(b"/dev/cdrom\0".to_vec(), bytes);
}

#[test]
fn test_device_bytes_rejects_embedded_nul() {
    let err = device_bytes("bad\0name").unwrap_err();
    assert_eq!("device name holds a null byte", err);
}

#[test]
fn test_lifecycle_success_path() {
    let s = step_exec(HandleState::Allocated, HandleEvent::PopulateOk).unwrap();
    assert_eq!(HandleState::Populated, s);
    let s = step_exec(s, HandleEvent::Release).unwrap();
    assert_eq!(HandleState::Released, s);
    assert_eq!(None, step_exec(s, HandleEvent::Release));
}

#[test]
fn test_lifecycle_failure_path_still_releases() {
    let s = step_exec(HandleState::Allocated, HandleEvent::PopulateFailed).unwrap();
    assert_eq!(HandleState::Failed, s);
    let s = step_exec(s, HandleEvent::Release).unwrap();
    assert_eq!(HandleState::Released, s);
    assert_eq!(None, step_exec(s, HandleEvent::PopulateOk));
}

#[test]
fn test_lifecycle_refuses_release_before_populate() {
    assert_eq!(None, step_exec(HandleState::Allocated, HandleEvent::Release));
}
