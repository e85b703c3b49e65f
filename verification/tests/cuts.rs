use durable_streams::cut_points::{CutPoint, CutPoints, Hit};
use durable_streams::store::identity::StreamIdentity;

#[test]
fn exact_identity_and_lease_drop_release_waiters_and_removes_exact_key() {
    let first = StreamIdentity::from_parts(7, 0x1000);
    let replacement = StreamIdentity::from_parts(7, 0x2000);
    assert_ne!(first, replacement);
    let point = CutPoint::FenceAfterAppenderTransition;
    let mut cuts = CutPoints::new();
    assert!(cuts.has_leases_left());
    assert!(!cuts.is_registered(point, first));
    let lease = cuts.pause(point, first);
    assert!(cuts.is_registered(point, first));
    assert!(!cuts.is_registered(point, replacement));
    assert!(!cuts.is_held(lease));
    assert_eq!(cuts.hit(point, replacement), Hit::Pass);
    assert_eq!(cuts.hit(CutPoint::RegistryRemoval, first), Hit::Pass);
    assert_eq!(cuts.hit(point, first), Hit::Wait(lease));
    assert!(cuts.is_held(lease));
    assert!(!cuts.may_go_on(lease));
    assert_eq!(cuts.hit(point, first), Hit::Pass);
    let other = cuts.pause(CutPoint::PhysicalHardUnlinkEntry, replacement);
    cuts.end_lease(lease);
    assert!(!cuts.is_registered(point, first));
    assert!(cuts.may_go_on(lease));
    assert_eq!(cuts.hit(point, first), Hit::Pass);
    cuts.release(other);
    assert_eq!(cuts.hit(CutPoint::PhysicalHardUnlinkEntry, replacement), Hit::Pass);
    assert!(cuts.may_go_on(other));
}
